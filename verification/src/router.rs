//! Fan-out of inbound frames to interested clients.
//!
//! For each inbound frame the router extracts the frame's symbol; if none
//! can be extracted the frame is dropped. Otherwise every client whose
//! desired set holds that symbol is offered one independent envelope copy on
//! its output channel. Delivery is best-effort: a full or closed channel
//! drops that copy silently and never stalls the others.

use vstd::prelude::*;

use crate::subscription::{
    distinct_strings, lemma_str_set_push, str_set, ClientSubscription, MarketData,
    SubscriptionRegistry,
};

verus! {

/// Name for the symbol that frame decoding yields for a given frame text:
/// the frame parsed as JSON, then its `symbol` field read as a string.
pub uninterp spec fn frame_symbol_of(payload: Seq<char>) -> Option<Seq<char>>;

/// Relies on serde_json's `from_str` and `Value::get`: parses the frame as
/// JSON and reads its `symbol` field as a string. The result is a function
/// of the frame text alone.
#[verifier::external_body]
fn extract_symbol_from_message(payload: &str) -> (r: Option<String>)
    ensures
        match r {
            Some(sym) => frame_symbol_of(payload@) == Some(sym@),
            None => frame_symbol_of(payload@) is None,
        },
{
    let value: serde_json::Value = match serde_json::from_str(payload) {
        Ok(v) => v,
        Err(_) => return None,
    };
    value.get("symbol").and_then(|s| s.as_str()).map(|s| s.to_string())
}

/// Relies on tokio's `Sender::try_send`: offers the envelope without
/// blocking and reports whether the channel accepted it. Nothing further is
/// assumed — the outcome depends on the channel's runtime state.
#[verifier::external_body]
fn try_send_market_data<T>(
    tx: &tokio::sync::mpsc::Sender<MarketData<T>>,
    envelope: MarketData<T>,
) -> (accepted: bool) {
    tx.try_send(envelope).is_ok()
}

/// Relies on the caller-chosen payload conversion `From<String>`; the
/// library promises nothing of the produced value.
#[verifier::external_body]
fn payload_from_text<T: From<String>>(raw: String) -> (r: T) {
    T::from(raw)
}

/// Relies on chrono's `Utc::now`, taken to its naive form: the wall-clock
/// capture time. No two calls need agree, so nothing is stated of the value.
#[verifier::external_body]
fn capture_timestamp() -> (r: chrono::NaiveDateTime) {
    chrono::Utc::now().naive_utc()
}

/// The identifiers of the clients registered in the first `n` entries whose
/// desired sets hold `sym`.
pub open spec fn interested_upto<T>(
    cs: Seq<ClientSubscription<T>>,
    sym: Seq<char>,
    n: int,
) -> Set<Seq<char>> {
    Set::new(
        |c: Seq<char>|
            exists|k: int|
                0 <= k < n && #[trigger] cs[k].client_id@ == c && str_set(
                    cs[k].symbols@,
                ).contains(sym),
    )
}

/// The identifiers of the registered clients whose desired sets hold `sym`.
pub open spec fn interested_clients<T>(r: SubscriptionRegistry<T>, sym: Seq<char>) -> Set<
    Seq<char>,
> {
    Set::new(|c: Seq<char>| r.has_client(c) && r.client_symbols(c).contains(sym))
}

/// Offer one envelope copy, carrying `symbol` and the frame text, to every
/// client whose desired set holds `symbol`.
///
/// Returns the identifiers of exactly those clients, each once: the clients
/// to whom a copy was offered. A copy a full or closed channel refuses is
/// dropped silently.
pub fn route_to_interested<T: From<String>>(
    registry: &SubscriptionRegistry<T>,
    symbol: &String,
    payload: &str,
) -> (offered: Vec<String>)
    requires
        registry.wf(),
    ensures
        distinct_strings(offered@),
        str_set(offered@) =~= interested_clients(*registry, symbol@),
{
    let timestamp = capture_timestamp();
    let ghost cs = registry.clients@;
    let mut offered: Vec<String> = Vec::new();
    let mut i: usize = 0;
    proof {
        assert(str_set(offered@) =~= interested_upto(cs, symbol@, 0));
    }
    while i < registry.clients.len()
        invariant
            registry.wf(),
            cs == registry.clients@,
            i <= cs.len(),
            distinct_strings(offered@),
            str_set(offered@) =~= interested_upto(cs, symbol@, i as int),
        decreases cs.len() - i,
    {
        let entry = &registry.clients[i];
        let wants_it = crate::subscription::vec_contains_string(&entry.symbols, symbol);
        if wants_it {
            let envelope = MarketData {
                timestamp: timestamp.clone(),
                symbol: symbol.clone(),
                data: payload_from_text(payload.to_owned()),
            };
            let _ = try_send_market_data(&entry.data_tx, envelope);
            let ghost pre = offered@;
            offered.push(entry.client_id.clone());
            proof {
                lemma_str_set_push(pre, cs[i as int].client_id);
                assert(!str_set(pre).contains(cs[i as int].client_id@)) by {
                    if str_set(pre).contains(cs[i as int].client_id@) {
                        let k = choose|k: int|
                            0 <= k < i && #[trigger] cs[k].client_id@ == cs[i as int].client_id@
                                && str_set(cs[k].symbols@).contains(symbol@);
                        assert(false);
                    }
                }
                assert forall|a: int, b: int| 0 <= a < b < offered@.len() implies offered@[a]@
                    != offered@[b]@ by {
                    if b == offered@.len() - 1 {
                        if offered@[a]@ == offered@[b]@ {
                            assert(str_set(pre).contains(cs[i as int].client_id@));
                        }
                    }
                }
            }
        }
        proof {
            assert(str_set(offered@) =~= interested_upto(cs, symbol@, i + 1)) by {
                assert forall|c: Seq<char>| interested_upto(cs, symbol@, i + 1).contains(
                    c,
                ) implies str_set(offered@).contains(c) by {
                    let k = choose|k: int|
                        0 <= k < i + 1 && #[trigger] cs[k].client_id@ == c && str_set(
                            cs[k].symbols@,
                        ).contains(symbol@);
                    if k < i {
                        assert(interested_upto(cs, symbol@, i as int).contains(c));
                    }
                }
            }
        }
        i = i + 1;
    }
    proof {
        assert(str_set(offered@) =~= interested_clients(*registry, symbol@)) by {
            assert forall|c: Seq<char>| interested_upto(cs, symbol@, cs.len() as int).contains(
                c,
            ) implies interested_clients(*registry, symbol@).contains(c) by {
                let k = choose|k: int|
                    0 <= k < cs.len() && #[trigger] cs[k].client_id@ == c && str_set(
                        cs[k].symbols@,
                    ).contains(symbol@);
                assert(registry.has_client(c));
                assert(registry.client_symbols(c).contains(symbol@));
            }
            assert forall|c: Seq<char>| interested_clients(*registry, symbol@).contains(
                c,
            ) implies interested_upto(cs, symbol@, cs.len() as int).contains(c) by {
                let k = choose|k: int|
                    0 <= k < cs.len() && #[trigger] cs[k].client_id@ == c && str_set(
                        cs[k].symbols@,
                    ).contains(symbol@);
            }
        }
    }
    offered
}

/// Route one inbound frame: extract its symbol and offer an envelope copy
/// to every interested client.
///
/// Returns the identifiers of the clients offered a copy. A frame whose
/// symbol cannot be extracted is dropped: no client is offered anything and
/// no error is raised.
pub fn process_message<T: From<String>>(
    payload: &str,
    registry: &SubscriptionRegistry<T>,
) -> (offered: Vec<String>)
    requires
        registry.wf(),
    ensures
        distinct_strings(offered@),
        match frame_symbol_of(payload@) {
            Some(sym) => str_set(offered@) =~= interested_clients(*registry, sym),
            None => offered@.len() == 0,
        },
{
    match extract_symbol_from_message(payload) {
        Some(symbol) => route_to_interested(registry, &symbol, payload),
        None => Vec::new(),
    }
}

} // verus!
