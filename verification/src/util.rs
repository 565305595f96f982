use vstd::prelude::*;

verus! {

/// A calendar date, held as plain year / month / day fields.
///
/// The provider exchanges dates as `YYYY-MM-DD` strings; this type carries
/// the same information as integers so the formatting and parsing rules can
/// be stated and checked exactly.
#[derive(Debug, Clone, Copy, PartialEq, Eq, Structural)]
pub struct Date {
    pub year: u32,
    pub month: u32,
    pub day: u32,
}

/// Gregorian leap-year rule.
pub open spec fn is_leap_year(y: int) -> bool {
    (y % 4 == 0 && y % 100 != 0) || y % 400 == 0
}

/// Number of days in the given month of the given year.
pub open spec fn days_in_month(y: int, m: int) -> int {
    if m == 4 || m == 6 || m == 9 || m == 11 {
        30
    } else if m == 2 {
        if is_leap_year(y) {
            29
        } else {
            28
        }
    } else {
        31
    }
}

impl Date {
    /// A date is well formed when its fields name a real calendar day
    /// (four-digit years only, which is all the wire format can carry).
    pub open spec fn wf(self) -> bool {
        &&& self.year <= 9999
        &&& 1 <= self.month <= 12
        &&& 1 <= self.day <= days_in_month(self.year as int, self.month as int)
    }

    /// Build a date from its fields, rejecting anything that is not a real
    /// calendar day.
    pub fn from_ymd(year: u32, month: u32, day: u32) -> (r: Option<Date>)
        ensures
            r is Some <==> (Date { year, month, day }).wf(),
            r is Some ==> r->0 == (Date { year, month, day }),
    {
        let candidate = Date { year, month, day };
        if year <= 9999 && 1 <= month && month <= 12 && 1 <= day && day <= days_in_month_exec(
            year,
            month,
        ) {
            Some(candidate)
        } else {
            None
        }
    }
}

/// Executable counterpart of `days_in_month`.
pub fn days_in_month_exec(y: u32, m: u32) -> (r: u32)
    requires
        1 <= m <= 12,
    ensures
        r == days_in_month(y as int, m as int),
{
    if m == 4 || m == 6 || m == 9 || m == 11 {
        30
    } else if m == 2 {
        if (y % 4 == 0 && y % 100 != 0) || y % 400 == 0 {
            29
        } else {
            28
        }
    } else {
        31
    }
}

/// Whether a character is a decimal digit.
pub open spec fn is_digit(c: char) -> bool {
    '0' <= c && c <= '9'
}

/// Numeric value of a decimal digit character.
pub open spec fn digit_val(c: char) -> int {
    c as u32 - 48
}

/// The character for a single decimal digit.
pub open spec fn digit_char(d: int) -> char {
    if d == 0 {
        '0'
    } else if d == 1 {
        '1'
    } else if d == 2 {
        '2'
    } else if d == 3 {
        '3'
    } else if d == 4 {
        '4'
    } else if d == 5 {
        '5'
    } else if d == 6 {
        '6'
    } else if d == 7 {
        '7'
    } else if d == 8 {
        '8'
    } else {
        '9'
    }
}

/// Zero-padded four-digit decimal rendering.
pub open spec fn spec_format4(n: int) -> Seq<char> {
    seq![
        digit_char(n / 1000 % 10),
        digit_char(n / 100 % 10),
        digit_char(n / 10 % 10),
        digit_char(n % 10),
    ]
}

/// Zero-padded two-digit decimal rendering.
pub open spec fn spec_format2(n: int) -> Seq<char> {
    seq![digit_char(n / 10 % 10), digit_char(n % 10)]
}

/// The provider's `YYYY-MM-DD` rendering of a date.
pub open spec fn spec_date_string(d: Date) -> Seq<char> {
    spec_format4(d.year as int) + seq!['-'] + spec_format2(d.month as int) + seq!['-']
        + spec_format2(d.day as int)
}

/// The string slice holding one digit character.
fn digit_str(d: u32) -> (r: &'static str)
    requires
        d <= 9,
    ensures
        r@ == seq![digit_char(d as int)],
{
    proof {
        reveal_strlit("0");
        reveal_strlit("1");
        reveal_strlit("2");
        reveal_strlit("3");
        reveal_strlit("4");
        reveal_strlit("5");
        reveal_strlit("6");
        reveal_strlit("7");
        reveal_strlit("8");
        reveal_strlit("9");
    }
    if d == 0 {
        "0"
    } else if d == 1 {
        "1"
    } else if d == 2 {
        "2"
    } else if d == 3 {
        "3"
    } else if d == 4 {
        "4"
    } else if d == 5 {
        "5"
    } else if d == 6 {
        "6"
    } else if d == 7 {
        "7"
    } else if d == 8 {
        "8"
    } else {
        "9"
    }
}

/// Append a number to `out` as exactly four decimal digits.
fn append_format4(out: &mut String, n: u32)
    requires
        n <= 9999,
    ensures
        final(out)@ == old(out)@ + spec_format4(n as int),
{
    out.append(digit_str(n / 1000 % 10));
    out.append(digit_str(n / 100 % 10));
    out.append(digit_str(n / 10 % 10));
    out.append(digit_str(n % 10));
    assert(final(out)@ =~= old(out)@ + spec_format4(n as int));
}

/// Append a number to `out` as exactly two decimal digits.
fn append_format2(out: &mut String, n: u32)
    requires
        n <= 99,
    ensures
        final(out)@ == old(out)@ + spec_format2(n as int),
{
    out.append(digit_str(n / 10 % 10));
    out.append(digit_str(n % 10));
    assert(final(out)@ =~= old(out)@ + spec_format2(n as int));
}

/// Render a date in the provider's `YYYY-MM-DD` format.
pub fn date_to_tradier(date: Date) -> (r: String)
    requires
        date.wf(),
    ensures
        r@ == spec_date_string(date),
{
    proof {
        reveal_strlit("-");
    }
    let mut r = String::new();
    append_format4(&mut r, date.year);
    r.append("-");
    append_format2(&mut r, date.month);
    r.append("-");
    append_format2(&mut r, date.day);
    assert(r@ =~= spec_date_string(date));
    r
}

/// What `tradier_to_date` accepts: exactly ten characters laid out as
/// `YYYY-MM-DD`, all digits in place.
pub open spec fn spec_date_format_ok(s: Seq<char>) -> bool {
    &&& s.len() == 10
    &&& is_digit(s[0])
    &&& is_digit(s[1])
    &&& is_digit(s[2])
    &&& is_digit(s[3])
    &&& s[4] == '-'
    &&& is_digit(s[5])
    &&& is_digit(s[6])
    &&& s[7] == '-'
    &&& is_digit(s[8])
    &&& is_digit(s[9])
}

/// The date named by a well-laid-out `YYYY-MM-DD` string.
pub open spec fn spec_date_of(s: Seq<char>) -> Date {
    Date {
        year: (digit_val(s[0]) * 1000 + digit_val(s[1]) * 100 + digit_val(s[2]) * 10 + digit_val(
            s[3],
        )) as u32,
        month: (digit_val(s[5]) * 10 + digit_val(s[6])) as u32,
        day: (digit_val(s[8]) * 10 + digit_val(s[9])) as u32,
    }
}

/// Numeric value of a digit character.
pub fn digit_val_exec(c: char) -> (r: u32)
    requires
        is_digit(c),
    ensures
        r == digit_val(c),
{
    (c as u32) - 48
}

/// Whether a character is a decimal digit.
pub fn is_digit_exec(c: char) -> (r: bool)
    ensures
        r == is_digit(c),
{
    '0' <= c && c <= '9'
}

/// The two-digit number written at position `i` of the string.
pub fn digit_val_pair(s: &str, i: usize) -> (r: u32)
    requires
        i + 2 <= s@.len(),
        s@.len() <= usize::MAX,
        is_digit(s@[i as int]),
        is_digit(s@[i as int + 1]),
    ensures
        r == digit_val(s@[i as int]) * 10 + digit_val(s@[i as int + 1]),
        r <= 99,
{
    let c0 = s.get_char(i);
    let c1 = s.get_char(i + 1);
    digit_val_exec(c0) * 10 + digit_val_exec(c1)
}

/// Parse a provider date string (`YYYY-MM-DD`) into a `Date`.
///
/// Returns `None` when the layout is wrong or the fields do not name a real
/// calendar day.
pub fn tradier_to_date(date_str: &str) -> (r: Option<Date>)
    ensures
        r is Some <==> (spec_date_format_ok(date_str@) && spec_date_of(date_str@).wf()),
        r is Some ==> r->0 == spec_date_of(date_str@),
{
    if date_str.unicode_len() != 10 {
        return None;
    }
    let c0 = date_str.get_char(0);
    let c1 = date_str.get_char(1);
    let c2 = date_str.get_char(2);
    let c3 = date_str.get_char(3);
    let c4 = date_str.get_char(4);
    let c5 = date_str.get_char(5);
    let c6 = date_str.get_char(6);
    let c7 = date_str.get_char(7);
    let c8 = date_str.get_char(8);
    let c9 = date_str.get_char(9);
    if !(is_digit_exec(c0) && is_digit_exec(c1) && is_digit_exec(c2) && is_digit_exec(c3) && c4
        == '-' && is_digit_exec(c5) && is_digit_exec(c6) && c7 == '-' && is_digit_exec(c8)
        && is_digit_exec(c9)) {
        return None;
    }
    let year = digit_val_exec(c0) * 1000 + digit_val_exec(c1) * 100 + digit_val_exec(c2) * 10
        + digit_val_exec(c3);
    let month = digit_val_exec(c5) * 10 + digit_val_exec(c6);
    let day = digit_val_exec(c8) * 10 + digit_val_exec(c9);
    Date::from_ymd(year, month, day)
}

} // verus!
