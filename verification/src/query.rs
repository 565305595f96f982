//! Request paths for the provider's pull-style endpoints.
//!
//! Each helper validates its inputs the way the endpoints demand — a symbol
//! is required, a chain needs an expiration — and renders the exact query
//! path. The HTTP itself lives with the I/O layer; what is sent is fixed
//! here.

use vstd::prelude::*;

use crate::types::Interval;

verus! {

/// The comma-separated join of the symbols.
pub open spec fn spec_join_comma(symbols: Seq<String>) -> Seq<char>
    decreases symbols.len(),
{
    if symbols.len() == 0 {
        Seq::empty()
    } else if symbols.len() == 1 {
        symbols[0]@
    } else {
        spec_join_comma(symbols.drop_last()) + seq![','] + symbols.last()@
    }
}

/// Join the symbols with commas.
fn join_comma(symbols: &Vec<String>) -> (r: String)
    ensures
        r@ == spec_join_comma(symbols@),
{
    let mut r = String::new();
    let mut i: usize = 0;
    proof {
        assert(symbols@.take(0) =~= Seq::<String>::empty());
    }
    while i < symbols.len()
        invariant
            i <= symbols@.len(),
            r@ == spec_join_comma(symbols@.take(i as int)),
        decreases symbols@.len() - i,
    {
        if i > 0 {
            r.append(",");
        }
        r.append(symbols[i].as_str());
        proof {
            reveal_strlit(",");
            let pre = symbols@.take(i as int);
            let now = symbols@.take(i + 1);
            assert(now.drop_last() =~= pre);
            assert(now.last() == symbols@[i as int]);
            if i == 0 {
                assert(now.len() == 1);
                assert(now[0] == symbols@[0]);
                assert(r@ =~= spec_join_comma(now));
            } else {
                assert(r@ =~= spec_join_comma(now));
            }
        }
        i = i + 1;
    }
    proof {
        assert(symbols@.take(symbols@.len() as int) =~= symbols@);
    }
    r
}

/// The quote request path for one symbol; a symbol is required.
pub fn quote_query(symbol: &str) -> (r: Result<String, String>)
    ensures
        symbol@.len() == 0 ==> (r matches Err(m) && m@ == "Symbol is required"@),
        symbol@.len() > 0 ==> (r matches Ok(u) && u@ == "/markets/quotes?symbols="@ + symbol@),
{
    if symbol.unicode_len() == 0 {
        return Err("Symbol is required".to_owned());
    }
    let mut u = String::new();
    u.append("/markets/quotes?symbols=");
    u.append(symbol);
    Ok(u)
}

/// The quote request path for several symbols; at least one is required and
/// each must be non-empty.
pub fn quotes_query(symbols: &Vec<String>) -> (r: Result<String, String>)
    ensures
        symbols@.len() == 0 ==> (r matches Err(m) && m@ == "At least one symbol is required"@),
        symbols@.len() > 0 && (exists|i: int|
            0 <= i < symbols@.len() && (#[trigger] symbols@[i]@).len() == 0) ==> (r matches Err(m)
            && m@ == "All symbols must be non-empty"@),
        symbols@.len() > 0 && (forall|i: int|
            0 <= i < symbols@.len() ==> (#[trigger] symbols@[i]@).len() > 0) ==> (r matches Ok(u)
            && u@ == "/markets/quotes?symbols="@ + spec_join_comma(symbols@)),
{
    if symbols.len() == 0 {
        return Err("At least one symbol is required".to_owned());
    }
    let mut i: usize = 0;
    while i < symbols.len()
        invariant
            i <= symbols@.len(),
            forall|k: int| 0 <= k < i ==> (#[trigger] symbols@[k]@).len() > 0,
        decreases symbols@.len() - i,
    {
        if symbols[i].as_str().unicode_len() == 0 {
            return Err("All symbols must be non-empty".to_owned());
        }
        i = i + 1;
    }
    let mut u = String::new();
    u.append("/markets/quotes?symbols=");
    let joined = join_comma(symbols);
    u.append(joined.as_str());
    Ok(u)
}

/// The option chain request path; a symbol and an expiration are required.
pub fn chain_query(symbol: &str, expiration: &str, greeks: bool) -> (r: Result<String, String>)
    ensures
        symbol@.len() == 0 ==> (r matches Err(m) && m@ == "Symbol is required"@),
        symbol@.len() > 0 && expiration@.len() == 0 ==> (r matches Err(m) && m@
            == "Expiration is required"@),
        symbol@.len() > 0 && expiration@.len() > 0 ==> (r matches Ok(u) && u@
            == "/markets/options/chains?symbol="@ + symbol@ + "&expiration="@ + expiration@
            + "&greeks="@ + (if greeks {
            "true"@
        } else {
            "false"@
        })),
{
    if symbol.unicode_len() == 0 {
        return Err("Symbol is required".to_owned());
    }
    if expiration.unicode_len() == 0 {
        return Err("Expiration is required".to_owned());
    }
    let mut u = String::new();
    u.append("/markets/options/chains?symbol=");
    u.append(symbol);
    u.append("&expiration=");
    u.append(expiration);
    u.append("&greeks=");
    if greeks {
        u.append("true");
    } else {
        u.append("false");
    }
    Ok(u)
}

/// The history request path; a symbol is required.
pub fn history_query(symbol: &str, interval: Interval, start: &str, end: &str) -> (r: Result<
    String,
    String,
>)
    ensures
        symbol@.len() == 0 ==> (r matches Err(m) && m@ == "Symbol is required"@),
        symbol@.len() > 0 ==> (r matches Ok(u) && u@ == "/markets/history?symbol="@ + symbol@
            + "&interval="@ + interval.spec_name() + "&start="@ + start@ + "&end="@ + end@),
{
    if symbol.unicode_len() == 0 {
        return Err("Symbol is required".to_owned());
    }
    let mut u = String::new();
    u.append("/markets/history?symbol=");
    u.append(symbol);
    u.append("&interval=");
    u.append(interval.display_name());
    u.append("&start=");
    u.append(start);
    u.append("&end=");
    u.append(end);
    Ok(u)
}

/// The expirations request path; a symbol is required.
pub fn expirations_query(symbol: &str) -> (r: Result<String, String>)
    ensures
        symbol@.len() == 0 ==> (r matches Err(m) && m@ == "Symbol is required"@),
        symbol@.len() > 0 ==> (r matches Ok(u) && u@ == "/markets/options/expirations?symbol="@
            + symbol@),
{
    if symbol.unicode_len() == 0 {
        return Err("Symbol is required".to_owned());
    }
    let mut u = String::new();
    u.append("/markets/options/expirations?symbol=");
    u.append(symbol);
    Ok(u)
}

/// The dividends request path; a symbol is required.
pub fn dividends_query(symbol: &str) -> (r: Result<String, String>)
    ensures
        symbol@.len() == 0 ==> (r matches Err(m) && m@ == "Symbol is required"@),
        symbol@.len() > 0 ==> (r matches Ok(u) && u@
            == "/markets/fundamentals/dividends?symbols="@ + symbol@),
{
    if symbol.unicode_len() == 0 {
        return Err("Symbol is required".to_owned());
    }
    let mut u = String::new();
    u.append("/markets/fundamentals/dividends?symbols=");
    u.append(symbol);
    Ok(u)
}

/// The full URL for a request path under a given API version.
pub fn api_url(version: &str, uri: &str) -> (u: String)
    ensures
        u@ == "https://api.tradier.com/"@ + version@ + uri@,
{
    let mut u = String::new();
    u.append("https://api.tradier.com/");
    u.append(version);
    u.append(uri);
    u
}

/// The orders request path for an account, tags included.
pub fn orders_query(account_id: &str) -> (u: String)
    ensures
        u@ == "/accounts/"@ + account_id@ + "/orders?includeTags=true"@,
{
    let mut u = String::new();
    u.append("/accounts/");
    u.append(account_id);
    u.append("/orders?includeTags=true");
    u
}

} // verus!
