//! Parsing of OCC option symbols.
//!
//! An OCC symbol is the underlying's ticker, a six-digit `YYMMDD`
//! expiration, a `C` or `P` side letter, and the strike price in
//! thousandths, all run together: `QQQ241010P00450000` is a QQQ put expiring
//! 2024-10-10 with a 450.000 strike. The date is found as the first six-digit
//! window that looks like a date (year at least 20, month 01-12, day 01-31);
//! everything before it is the underlying symbol.

use vstd::prelude::*;

use crate::types::OptionRight;
use crate::util::{digit_val, is_digit, is_digit_exec, Date};

verus! {

/// Parsed OCC option symbol. The strike is carried in thousandths of the
/// quote currency, exactly as the symbol spells it.
#[derive(Debug, Clone, PartialEq)]
pub struct OptionSpec {
    pub underlying_symbol: String,
    pub expiration: Date,
    pub strike_thousandths: u64,
    pub right: OptionRight,
}

/// Every character of the string is a decimal digit.
pub open spec fn all_digits(s: Seq<char>) -> bool {
    forall|i: int| 0 <= i < s.len() ==> is_digit(#[trigger] s[i])
}

/// Numeric value of a digit string, most significant digit first.
pub open spec fn digits_val(s: Seq<char>) -> int
    decreases s.len(),
{
    if s.len() == 0 {
        0
    } else {
        digits_val(s.drop_last()) * 10 + digit_val(s.last())
    }
}

/// Whether six digits starting at `i` look like a `YYMMDD` date: year at
/// least 20, month 01-12, day 01-31.
pub open spec fn date_window_ok(s: Seq<char>, i: int) -> bool {
    &&& is_digit(s[i])
    &&& is_digit(s[i + 1])
    &&& is_digit(s[i + 2])
    &&& is_digit(s[i + 3])
    &&& is_digit(s[i + 4])
    &&& is_digit(s[i + 5])
    &&& digit_val(s[i]) * 10 + digit_val(s[i + 1]) >= 20
    &&& 1 <= digit_val(s[i + 2]) * 10 + digit_val(s[i + 3]) <= 12
    &&& 1 <= digit_val(s[i + 4]) * 10 + digit_val(s[i + 5]) <= 31
}

/// The first position at or after `i` where a six-digit date window starts.
pub open spec fn occ_date_start_from(s: Seq<char>, i: int) -> Option<int>
    decreases s.len() - i,
        when 0 <= i
{
    if i + 6 > s.len() {
        None
    } else if date_window_ok(s, i) {
        Some(i)
    } else {
        occ_date_start_from(s, i + 1)
    }
}

/// The first position where a six-digit date window starts.
pub open spec fn occ_date_start(s: Seq<char>) -> Option<int> {
    occ_date_start_from(s, 0)
}

/// The expiration named by the symbol's date window, in the 2000s.
pub open spec fn spec_occ_date(s: Seq<char>) -> Date {
    let ds = occ_date_start(s)->0;
    Date {
        year: (2000 + digit_val(s[ds]) * 10 + digit_val(s[ds + 1])) as u32,
        month: (digit_val(s[ds + 2]) * 10 + digit_val(s[ds + 3])) as u32,
        day: (digit_val(s[ds + 4]) * 10 + digit_val(s[ds + 5])) as u32,
    }
}

/// The option side named by the letter after the date window.
pub open spec fn spec_occ_right(s: Seq<char>) -> OptionRight {
    let ds = occ_date_start(s)->0;
    if s[ds + 6] == 'C' || s[ds + 6] == 'c' {
        OptionRight::Call
    } else {
        OptionRight::Put
    }
}

/// The strike digits: everything after the side letter.
pub open spec fn spec_occ_strike_digits(s: Seq<char>) -> Seq<char> {
    let ds = occ_date_start(s)->0;
    s.subrange(ds + 7, s.len() as int)
}

/// The underlying's ticker: everything before the date window.
pub open spec fn spec_occ_underlying(s: Seq<char>) -> Seq<char> {
    s.subrange(0, occ_date_start(s)->0)
}

/// When an OCC symbol parses: long enough, a date window exists, the side
/// letter follows it, the strike digits are non-empty and carry a value a
/// machine word holds, and the date names a real calendar day.
pub open spec fn spec_occ_ok(s: Seq<char>) -> bool {
    &&& s.len() >= 15
    &&& occ_date_start(s) is Some
    &&& occ_date_start(s)->0 + 6 < s.len()
    &&& (s[occ_date_start(s)->0 + 6] == 'C' || s[occ_date_start(s)->0 + 6] == 'c' || s[
        occ_date_start(s)->0 + 6] == 'P' || s[occ_date_start(s)->0 + 6] == 'p')
    &&& occ_date_start(s)->0 + 7 < s.len()
    &&& all_digits(spec_occ_strike_digits(s))
    &&& digits_val(spec_occ_strike_digits(s)) <= u64::MAX
    &&& spec_occ_date(s).wf()
}

/// A digit string's value never shrinks as more digits are read.
proof fn lemma_digits_val_nonneg(s: Seq<char>)
    requires
        all_digits(s),
    ensures
        digits_val(s) >= 0,
    decreases s.len(),
{
    if s.len() > 0 {
        assert(all_digits(s.drop_last())) by {
            assert(forall|i: int|
                0 <= i < s.drop_last().len() ==> is_digit(#[trigger] s.drop_last()[i]));
        }
        lemma_digits_val_nonneg(s.drop_last());
    }
}

/// Extending a digit prefix by one digit multiplies its value by ten and
/// adds that digit.
proof fn lemma_digits_val_step(s: Seq<char>, j: int)
    requires
        0 <= j < s.len(),
    ensures
        digits_val(s.subrange(0, j + 1)) == digits_val(s.subrange(0, j)) * 10 + digit_val(s[j]),
{
    assert(s.subrange(0, j + 1).drop_last() =~= s.subrange(0, j));
    assert(s.subrange(0, j + 1).last() == s[j]);
}

/// A digit string is worth at least any of its prefixes.
proof fn lemma_digits_val_mono(s: Seq<char>, k: int)
    requires
        all_digits(s),
        0 <= k <= s.len(),
    ensures
        digits_val(s) >= digits_val(s.subrange(0, k)),
    decreases s.len() - k,
{
    if k < s.len() {
        lemma_digits_val_step(s, k);
        assert(all_digits(s.subrange(0, k))) by {
            assert(forall|i: int|
                0 <= i < k ==> is_digit(#[trigger] s.subrange(0, k)[i]));
        }
        lemma_digits_val_nonneg(s.subrange(0, k));
        lemma_digits_val_mono(s, k + 1);
    } else {
        assert(s.subrange(0, k) =~= s);
    }
}

/// A found date window is the least one: it lies in range and satisfies the
/// window test.
proof fn lemma_date_start_ok(s: Seq<char>, i: int)
    requires
        0 <= i,
        occ_date_start_from(s, i) is Some,
    ensures
        i <= occ_date_start_from(s, i)->0,
        occ_date_start_from(s, i)->0 + 6 <= s.len(),
        date_window_ok(s, occ_date_start_from(s, i)->0),
    decreases s.len() - i,
{
    if i + 6 > s.len() {
    } else if date_window_ok(s, i) {
    } else {
        lemma_date_start_ok(s, i + 1);
    }
}

/// Whether a six-digit date window starts at position `i`.
fn date_window_at(s: &str, i: usize) -> (r: bool)
    requires
        i + 6 <= s@.len(),
        s@.len() <= usize::MAX,
    ensures
        r == date_window_ok(s@, i as int),
{
    let c0 = s.get_char(i);
    let c1 = s.get_char(i + 1);
    let c2 = s.get_char(i + 2);
    let c3 = s.get_char(i + 3);
    let c4 = s.get_char(i + 4);
    let c5 = s.get_char(i + 5);
    if !(is_digit_exec(c0) && is_digit_exec(c1) && is_digit_exec(c2) && is_digit_exec(c3)
        && is_digit_exec(c4) && is_digit_exec(c5)) {
        return false;
    }
    let yy = (c0 as u32 - 48) * 10 + (c1 as u32 - 48);
    let mm = (c2 as u32 - 48) * 10 + (c3 as u32 - 48);
    let dd = (c4 as u32 - 48) * 10 + (c5 as u32 - 48);
    yy >= 20 && 1 <= mm && mm <= 12 && 1 <= dd && dd <= 31
}

/// Find the first six-digit window of the string that looks like a date.
fn find_date_start(s: &str) -> (r: Option<usize>)
    ensures
        match r {
            Some(i) => occ_date_start(s@) == Some(i as int),
            None => occ_date_start(s@) is None,
        },
{
    let len = s.unicode_len();
    if len < 6 {
        return None;
    }
    let last = len - 6;
    let mut i: usize = 0;
    while i <= last
        invariant
            len == s@.len(),
            last == len - 6,
            i <= last + 1,
            occ_date_start(s@) == occ_date_start_from(s@, i as int),
        decreases last + 1 - i,
    {
        if date_window_at(s, i) {
            return Some(i);
        }
        i = i + 1;
    }
    None
}

/// Parse an OCC option symbol.
///
/// Returns `Some` exactly when the symbol is well formed: at least fifteen
/// characters, a six-digit date window naming a real calendar day in the
/// 2000s, a `C`/`P` letter (either case) right after it, and one or more
/// strike digits whose value a machine word holds. The underlying ticker is
/// whatever precedes the date window.
pub fn parse_occ_option_symbol(symbol: &str) -> (r: Option<OptionSpec>)
    ensures
        r is Some <==> spec_occ_ok(symbol@),
        r is Some ==> {
            let p = r->0;
            &&& p.underlying_symbol@ == spec_occ_underlying(symbol@)
            &&& p.expiration == spec_occ_date(symbol@)
            &&& p.strike_thousandths == digits_val(spec_occ_strike_digits(symbol@))
            &&& p.right == spec_occ_right(symbol@)
        },
{
    let len = symbol.unicode_len();
    if len < 15 {
        return None;
    }
    // Find the first six-digit window that looks like a date.
    let ds = match find_date_start(symbol) {
        Some(ds) => ds,
        None => {
            return None;
        },
    };
    proof {
        lemma_date_start_ok(symbol@, 0);
    }
    // The six window digits name the expiration, assumed in the 2000s.
    let yy = crate::util::digit_val_pair(symbol, ds);
    let mm = crate::util::digit_val_pair(symbol, ds + 2);
    let dd = crate::util::digit_val_pair(symbol, ds + 4);
    let expiration = match Date::from_ymd(2000 + yy, mm, dd) {
        Some(d) => d,
        None => {
            return None;
        },
    };
    // The side letter follows the window.
    if ds + 6 >= len {
        return None;
    }
    let right = match symbol.get_char(ds + 6) {
        'C' => OptionRight::Call,
        'c' => OptionRight::Call,
        'P' => OptionRight::Put,
        'p' => OptionRight::Put,
        _ => {
            return None;
        },
    };
    // The remaining characters are the strike, in thousandths.
    let strike_from = ds + 7;
    if strike_from >= len {
        return None;
    }
    let ghost strike_digits = symbol@.subrange(strike_from as int, len as int);
    let mut value: u64 = 0;
    let mut j: usize = strike_from;
    while j < len
        invariant
            len == symbol@.len(),
            occ_date_start(symbol@) == Some(ds as int),
            strike_from == ds + 7,
            strike_from < len,
            strike_from <= j <= len,
            strike_digits == symbol@.subrange(strike_from as int, len as int),
            all_digits(symbol@.subrange(strike_from as int, j as int)),
            value == digits_val(symbol@.subrange(strike_from as int, j as int)),
        decreases len - j,
    {
        let c = symbol.get_char(j);
        if !is_digit_exec(c) {
            proof {
                assert(spec_occ_strike_digits(symbol@)[j - strike_from] == symbol@[j as int]);
                assert(!all_digits(spec_occ_strike_digits(symbol@)));
            }
            return None;
        }
        let d = (c as u32 - 48) as u64;
        if value > (u64::MAX - d) / 10 {
            // The strike would overflow a machine word; reject the symbol.
            proof {
                lemma_digits_step_here(symbol@, strike_from as int, j as int);
                let q = (u64::MAX - d) / 10;
                assert(u64::MAX - d == 10 * q + (u64::MAX - d) % 10);
                assert(10 * value >= 10 * q + 10);
                assert(digits_val(symbol@.subrange(strike_from as int, j + 1)) > u64::MAX);
                assert(all_digits(symbol@.subrange(strike_from as int, j + 1))) by {
                    assert(forall|k: int|
                        0 <= k < j + 1 - strike_from ==> is_digit(
                            #[trigger] symbol@.subrange(strike_from as int, j + 1)[k],
                        ));
                }
                lemma_strike_overflow(symbol@, strike_from as int, j as int, len as int);
                assert(!spec_occ_ok(symbol@)) by {
                    if all_digits(spec_occ_strike_digits(symbol@)) {
                        assert(digits_val(spec_occ_strike_digits(symbol@)) > u64::MAX);
                    }
                }
            }
            return None;
        }
        value = value * 10 + (d as u64);
        proof {
            lemma_digits_step_here(symbol@, strike_from as int, j as int);
            assert(all_digits(symbol@.subrange(strike_from as int, j + 1))) by {
                assert(forall|k: int|
                    0 <= k < j + 1 - strike_from ==> is_digit(
                        #[trigger] symbol@.subrange(strike_from as int, j + 1)[k],
                    ));
            }
        }
        j = j + 1;
    }
    proof {
        assert(symbol@.subrange(strike_from as int, len as int) =~= strike_digits);
        assert(spec_occ_ok(symbol@));
    }
    let underlying = symbol.substring_char(0, ds).to_owned();
    Some(
        OptionSpec {
            underlying_symbol: underlying,
            expiration,
            strike_thousandths: value,
            right,
        },
    )
}

/// One accumulation step of the strike value, stated over the symbol.
proof fn lemma_digits_step_here(s: Seq<char>, from: int, j: int)
    requires
        0 <= from <= j < s.len(),
    ensures
        digits_val(s.subrange(from, j + 1)) == digits_val(s.subrange(from, j)) * 10 + digit_val(
            s[j],
        ),
{
    assert(s.subrange(from, j + 1).drop_last() =~= s.subrange(from, j));
    assert(s.subrange(from, j + 1).last() == s[j]);
}

/// If some strike prefix already exceeds a machine word, so does the whole
/// strike — provided the rest of it is digits; and if it is not all digits,
/// the symbol is rejected anyway.
proof fn lemma_strike_overflow(s: Seq<char>, from: int, j: int, len: int)
    requires
        0 <= from <= j < len,
        len == s.len(),
        digits_val(s.subrange(from, j + 1)) > u64::MAX,
        all_digits(s.subrange(from, j + 1)),
    ensures
        all_digits(s.subrange(from, len)) ==> digits_val(s.subrange(from, len)) > u64::MAX,
{
    if all_digits(s.subrange(from, len)) {
        let whole = s.subrange(from, len);
        lemma_digits_val_mono(whole, j + 1 - from);
        assert(whole.subrange(0, j + 1 - from) =~= s.subrange(from, j + 1));
    }
}

} // verus!
