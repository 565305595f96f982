//! Upstream session helpers: the subscribe frame and the control endpoint's
//! session identifier.
//!
//! A session is opened by asking the provider's control endpoint for a
//! session identifier, connecting the stream, and sending one subscribe
//! frame that declares the full symbol list for the session. The I/O lives
//! with the caller; here are the frame's exact layout and the reading of the
//! control response.

use vstd::prelude::*;

verus! {

/// A character a JSON string literal carries without escaping.
pub open spec fn json_plain_char(c: char) -> bool {
    c != '"' && c != '\\' && c as u32 >= 32
}

/// Every character of the string needs no JSON escaping.
pub open spec fn json_plain(s: Seq<char>) -> bool {
    forall|i: int| 0 <= i < s.len() ==> json_plain_char(s[i])
}

/// Whether the string can stand in a JSON string literal unescaped.
pub fn is_json_plain(s: &str) -> (r: bool)
    ensures
        r == json_plain(s@),
{
    let len = s.unicode_len();
    let mut i: usize = 0;
    while i < len
        invariant
            len == s@.len(),
            i <= len,
            forall|k: int| 0 <= k < i ==> json_plain_char(s@[k]),
        decreases len - i,
    {
        let c = s.get_char(i);
        if c == '"' || c == '\\' || (c as u32) < 32 {
            return false;
        }
        i = i + 1;
    }
    true
}

/// Whether every string of the vector can stand in JSON unescaped.
pub fn all_json_plain(v: &Vec<String>) -> (r: bool)
    ensures
        r == (forall|k: int| 0 <= k < v@.len() ==> json_plain(#[trigger] v@[k]@)),
{
    let mut i: usize = 0;
    while i < v.len()
        invariant
            i <= v@.len(),
            forall|k: int| 0 <= k < i ==> json_plain(#[trigger] v@[k]@),
        decreases v@.len() - i,
    {
        if !is_json_plain(v[i].as_str()) {
            return false;
        }
        i = i + 1;
    }
    true
}

/// The comma-separated JSON string-literal list of the symbols.
pub open spec fn spec_symbol_list(symbols: Seq<String>) -> Seq<char>
    decreases symbols.len(),
{
    if symbols.len() == 0 {
        Seq::empty()
    } else if symbols.len() == 1 {
        seq!['"'] + symbols[0]@ + seq!['"']
    } else {
        spec_symbol_list(symbols.drop_last()) + seq![','] + seq!['"'] + symbols.last()@ + seq!['"']
    }
}

/// The subscribe frame for a symbol list and session identifier: one JSON
/// object holding `linebreak` false, the session identifier, and the full
/// symbol list.
pub open spec fn spec_subscribe_frame(symbols: Seq<String>, sid: Seq<char>) -> Seq<char> {
    "{\"linebreak\":false,\"sessionid\":\""@ + sid + "\",\"symbols\":["@ + spec_symbol_list(
        symbols,
    ) + "]}"@
}

/// Render the subscribe frame that declares the session's full symbol list.
///
/// Sent exactly once per session, immediately after the handshake succeeds.
pub fn subscribe_frame(symbols: &Vec<String>, session_id: &str) -> (r: String)
    requires
        json_plain(session_id@),
        forall|k: int| 0 <= k < symbols@.len() ==> json_plain(#[trigger] symbols@[k]@),
    ensures
        r@ == spec_subscribe_frame(symbols@, session_id@),
{
    proof {
        reveal_strlit("{\"linebreak\":false,\"sessionid\":\"");
        reveal_strlit("\",\"symbols\":[");
        reveal_strlit("]}");
        reveal_strlit(",");
        reveal_strlit("\"");
    }
    let mut r = String::new();
    r.append("{\"linebreak\":false,\"sessionid\":\"");
    r.append(session_id);
    r.append("\",\"symbols\":[");
    let ghost head = r@;
    let mut i: usize = 0;
    proof {
        assert(symbols@.take(0) =~= Seq::<String>::empty());
    }
    while i < symbols.len()
        invariant
            i <= symbols@.len(),
            r@ == head + spec_symbol_list(symbols@.take(i as int)),
        decreases symbols@.len() - i,
    {
        if i > 0 {
            r.append(",");
        }
        r.append("\"");
        r.append(symbols[i].as_str());
        r.append("\"");
        proof {
            reveal_strlit(",");
            reveal_strlit("\"");
            let pre = symbols@.take(i as int);
            let now = symbols@.take(i + 1);
            assert(","@ =~= seq![',']);
            assert("\""@ =~= seq!['"']);
            assert(now.drop_last() =~= pre);
            assert(now.last() == symbols@[i as int]);
            if i == 0 {
                assert(now.len() == 1);
                assert(now[0] == symbols@[0]);
                assert(spec_symbol_list(now) =~= seq!['"'] + symbols@[0]@ + seq!['"']);
                assert(r@ =~= head + spec_symbol_list(now));
            } else {
                assert(spec_symbol_list(now) =~= spec_symbol_list(pre) + seq![','] + seq!['"']
                    + symbols@[i as int]@ + seq!['"']);
                assert(r@ =~= head + spec_symbol_list(now));
            }
        }
        i = i + 1;
    }
    r.append("]}");
    proof {
        assert(symbols@.take(symbols@.len() as int) =~= symbols@);
        assert(r@ =~= spec_subscribe_frame(symbols@, session_id@));
    }
    r
}

/// Name for the session identifier that the control endpoint's response
/// carries: the response parsed as JSON, then `stream.sessionid` read as a
/// string.
pub uninterp spec fn session_id_of(resp: Seq<char>) -> Option<Seq<char>>;

/// Relies on serde_json's `from_str` and `Value::get`: parses the control
/// response and reads `stream.sessionid` as a string. The result is a
/// function of the response text alone.
#[verifier::external_body]
fn extract_session_id_raw(resp: &str) -> (r: Option<String>)
    ensures
        match r {
            Some(sid) => session_id_of(resp@) == Some(sid@),
            None => session_id_of(resp@) is None,
        },
{
    let value: serde_json::Value = match serde_json::from_str(resp) {
        Ok(v) => v,
        Err(_) => return None,
    };
    value.get("stream").and_then(|s| s.get("sessionid")).and_then(|s| s.as_str()).map(
        |s| s.to_string(),
    )
}

/// Read the session identifier out of the control endpoint's response.
///
/// `None` is a connect failure: the supervisor treats it as recoverable and
/// retries after its fixed delay.
pub fn extract_session_id(resp: &str) -> (r: Option<String>)
    ensures
        match r {
            Some(sid) => session_id_of(resp@) == Some(sid@),
            None => session_id_of(resp@) is None,
        },
{
    extract_session_id_raw(resp)
}

} // verus!
