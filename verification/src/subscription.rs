//! Client registry and aggregated-interest tracking for the live-data
//! subscription multiplexer.
//!
//! The registry maps each client identifier to its desired symbol set and
//! output channel, and maintains the aggregated interest set: the union of
//! all clients' desired symbols. Every mutating operation re-establishes the
//! invariant that a symbol is active exactly when some client desires it.

use vstd::prelude::*;

verus! {

/// Declares tokio's bounded channel sender so registry entries can hold one.
#[verifier::external_type_specification]
#[verifier::external_body]
#[verifier::reject_recursive_types(T)]
pub struct ExSender<T>(tokio::sync::mpsc::Sender<T>);

/// Declares chrono's naive timestamp, carried opaquely in envelopes.
#[verifier::external_type_specification]
#[verifier::external_body]
pub struct ExNaiveDateTime(chrono::NaiveDateTime);

/// Relies on chrono's derived `Clone` for `NaiveDateTime`: the type is
/// `Copy`, so a clone is the value itself.
pub assume_specification[ <chrono::NaiveDateTime as Clone>::clone ](
    v: &chrono::NaiveDateTime,
) -> (r: chrono::NaiveDateTime)
    ensures
        r == *v,
;

/// Data structure sent to clients containing one market data update.
#[derive(Debug, Clone)]
pub struct MarketData<T> {
    pub timestamp: chrono::NaiveDateTime,
    pub symbol: String,
    pub data: T,
}

/// One client's registration: its desired symbols and output channel.
#[derive(Debug)]
#[verifier::reject_recursive_types(T)]
pub struct ClientSubscription<T> {
    pub client_id: String,
    pub symbols: Vec<String>,
    pub data_tx: tokio::sync::mpsc::Sender<MarketData<T>>,
}

/// Marker for the bundled example consumer that prints every envelope it
/// receives; its receive loop suspends on the channel and so lives with the
/// I/O layer.
pub struct PrintHandler;

/// The set of character strings held by the first `n` entries of a string
/// vector.
pub open spec fn str_set_upto(v: Seq<String>, n: int) -> Set<Seq<char>> {
    Set::new(|s: Seq<char>| exists|j: int| 0 <= j < n && v[j]@ == s)
}

/// The set of character strings held by a string vector.
pub open spec fn str_set(v: Seq<String>) -> Set<Seq<char>> {
    str_set_upto(v, v.len() as int)
}

/// No two entries of the vector hold the same string.
pub open spec fn distinct_strings(v: Seq<String>) -> bool {
    forall|i: int, j: int| 0 <= i < j < v.len() ==> v[i]@ != v[j]@
}

/// Whether some registry entry is registered under `id`.
pub open spec fn cs_has<T>(cs: Seq<ClientSubscription<T>>, id: Seq<char>) -> bool {
    exists|i: int| 0 <= i < cs.len() && #[trigger] cs[i].client_id@ == id
}

/// The symbols desired under `id`, over all entries that carry that
/// identifier; empty when no entry does.
pub open spec fn cs_syms<T>(cs: Seq<ClientSubscription<T>>, id: Seq<char>) -> Set<Seq<char>> {
    Set::new(
        |s: Seq<char>|
            exists|i: int|
                0 <= i < cs.len() && #[trigger] cs[i].client_id@ == id && str_set(
                    cs[i].symbols@,
                ).contains(s),
    )
}

/// The union of the desired symbol sets of the first `n` registry entries.
pub open spec fn cs_union_upto<T>(cs: Seq<ClientSubscription<T>>, n: int) -> Set<Seq<char>> {
    Set::new(
        |s: Seq<char>| exists|k: int| 0 <= k < n && #[trigger] str_set(cs[k].symbols@).contains(s),
    )
}

/// The union of all entries' desired symbol sets.
pub open spec fn cs_union<T>(cs: Seq<ClientSubscription<T>>) -> Set<Seq<char>> {
    cs_union_upto(cs, cs.len() as int)
}

/// The output channel held by the entry registered under `id`.
pub open spec fn cs_channel<T>(cs: Seq<ClientSubscription<T>>, id: Seq<char>) -> tokio::sync::mpsc::Sender<
    MarketData<T>,
> {
    let i = choose|i: int| 0 <= i < cs.len() && #[trigger] cs[i].client_id@ == id;
    cs[i].data_tx
}

/// Under unique identifiers, any entry carrying `id` carries the channel on
/// record for it.
proof fn lemma_cs_channel_at<T>(cs: Seq<ClientSubscription<T>>, i: int)
    requires
        cs_distinct_ids(cs),
        0 <= i < cs.len(),
    ensures
        cs_channel(cs, cs[i].client_id@) == cs[i].data_tx,
{
    let id = cs[i].client_id@;
    let j = choose|j: int| 0 <= j < cs.len() && #[trigger] cs[j].client_id@ == id;
    if j < i {
        assert(cs[j].client_id@ != cs[i].client_id@);
    } else if j > i {
        assert(cs[i].client_id@ != cs[j].client_id@);
    }
}

/// No two registry entries carry the same client identifier.
pub open spec fn cs_distinct_ids<T>(cs: Seq<ClientSubscription<T>>) -> bool {
    forall|i: int, j: int| 0 <= i < j < cs.len() ==> cs[i].client_id@ != cs[j].client_id@
}

/// Client registry with aggregated-interest tracking.
///
/// Holds every live client subscription and the aggregated interest set:
/// the union, over all clients, of their desired symbols. All operations
/// keep the two in step; callers needing concurrent access place the whole
/// registry behind one exclusion mechanism.
#[derive(Debug)]
#[verifier::reject_recursive_types(T)]
pub struct SubscriptionRegistry<T> {
    pub clients: Vec<ClientSubscription<T>>,
    pub active_symbols: Vec<String>,
}

impl<T> SubscriptionRegistry<T> {
    /// Whether some entry is registered under `id`.
    pub open spec fn has_client(self, id: Seq<char>) -> bool {
        cs_has(self.clients@, id)
    }

    /// The desired symbol set of the client registered under `id`; empty if
    /// no such client exists.
    pub open spec fn client_symbols(self, id: Seq<char>) -> Set<Seq<char>> {
        cs_syms(self.clients@, id)
    }

    /// The union of all clients' desired symbol sets.
    pub open spec fn union_set(self) -> Set<Seq<char>> {
        cs_union(self.clients@)
    }

    /// The output channel on record for the client registered under `id`.
    pub open spec fn channel_of(self, id: Seq<char>) -> tokio::sync::mpsc::Sender<MarketData<T>> {
        cs_channel(self.clients@, id)
    }

    /// The aggregated interest set as recorded.
    pub open spec fn active_set(self) -> Set<Seq<char>> {
        str_set(self.active_symbols@)
    }

    /// Registry well-formedness: client identifiers are unique, every
    /// recorded symbol list is duplicate-free, and the recorded aggregated
    /// interest set is exactly the union of the clients' desired sets.
    pub open spec fn wf(self) -> bool {
        &&& cs_distinct_ids(self.clients@)
        &&& forall|i: int|
            0 <= i < self.clients@.len() ==> distinct_strings(#[trigger] self.clients@[i].symbols@)
        &&& distinct_strings(self.active_symbols@)
        &&& self.active_set() =~= self.union_set()
    }

    /// Create an empty registry: no clients, no active symbols.
    pub fn new() -> (r: Self)
        ensures
            r.wf(),
            r.clients@.len() == 0,
            r.active_set() =~= Set::<Seq<char>>::empty(),
            forall|c: Seq<char>| !r.has_client(c),
    {
        let r = SubscriptionRegistry { clients: Vec::new(), active_symbols: Vec::new() };
        proof {
            assert(r.active_set() =~= r.union_set());
            assert(r.active_set() =~= Set::<Seq<char>>::empty());
        }
        r
    }

    /// Index of the entry registered under `id`, if any.
    fn find_client(&self, id: &String) -> (r: Option<usize>)
        ensures
            match r {
                Some(i) => i < self.clients@.len() && self.clients@[i as int].client_id@ == id@,
                None => !self.has_client(id@),
            },
    {
        let mut i: usize = 0;
        while i < self.clients.len()
            invariant
                i <= self.clients@.len(),
                forall|k: int| 0 <= k < i ==> self.clients@[k].client_id@ != id@,
            decreases self.clients@.len() - i,
        {
            if self.clients[i].client_id == *id {
                return Some(i);
            }
            i = i + 1;
        }
        None
    }

    /// Subscribe a client to a set of symbols.
    ///
    /// Creates the client's record if absent, using the supplied output
    /// channel; otherwise merges `symbols` into the existing desired set and
    /// keeps the channel already on record (first channel wins). The
    /// aggregated interest set grows by exactly the given symbols.
    pub fn subscribe(
        &mut self,
        client_id: String,
        symbols: Vec<String>,
        data_tx: tokio::sync::mpsc::Sender<MarketData<T>>,
    ) -> (r: Result<(), String>)
        requires
            old(self).wf(),
        ensures
            r is Ok,
            final(self).wf(),
            final(self).has_client(client_id@),
            final(self).client_symbols(client_id@) =~= old(self).client_symbols(
                client_id@,
            ).union(str_set(symbols@)),
            forall|c: Seq<char>|
                c != client_id@ ==> final(self).has_client(c) == old(self).has_client(c),
            forall|c: Seq<char>|
                c != client_id@ ==> final(self).client_symbols(c) =~= old(self).client_symbols(c),
            final(self).active_set() =~= old(self).active_set().union(str_set(symbols@)),
            old(self).has_client(client_id@) ==> final(self).channel_of(client_id@) == old(
                self,
            ).channel_of(client_id@),
            !old(self).has_client(client_id@) ==> final(self).channel_of(client_id@) == data_tx,
    {
        let ghost cs0 = self.clients@;
        match self.find_client(&client_id) {
            Some(i) => {
                let entry = self.clients.remove(i);
                proof {
                    lemma_cs_remove(cs0, i as int);
                    lemma_cs_at(cs0, i as int);
                }
                let ClientSubscription { client_id: eid, symbols: mut esyms, data_tx: etx } = entry;
                insert_new_strings(&mut esyms, &symbols);
                let ghost cs1 = self.clients@;
                self.clients.push(ClientSubscription { client_id: eid, symbols: esyms, data_tx: etx });
                proof {
                    let e = self.clients@.last();
                    lemma_cs_push_new(cs1, e);
                    assert forall|k: int| 0 <= k < self.clients@.len() implies distinct_strings(
                        #[trigger] self.clients@[k].symbols@,
                    ) by {
                        if k < cs1.len() {
                            assert(self.clients@[k] == cs1[k]);
                            let m = choose|m: int| 0 <= m < cs0.len() && #[trigger] cs1[k] == cs0[m];
                            assert(distinct_strings(cs0[m].symbols@));
                        }
                    }
                    assert(cs_union(self.clients@) =~= cs_union(cs0).union(str_set(symbols@)));
                    assert(cs_syms(self.clients@, client_id@) =~= cs_syms(cs0, client_id@).union(
                        str_set(symbols@),
                    ));
                    lemma_cs_channel_at(cs0, i as int);
                    lemma_cs_channel_at(self.clients@, self.clients@.len() - 1);
                    assert(cs_channel(self.clients@, client_id@) == cs_channel(cs0, client_id@));
                }
            },
            None => {
                proof {
                    lemma_cs_syms_absent(cs0, client_id@);
                }
                let mut esyms: Vec<String> = Vec::new();
                insert_new_strings(&mut esyms, &symbols);
                self.clients.push(
                    ClientSubscription { client_id: client_id.clone(), symbols: esyms, data_tx },
                );
                proof {
                    let e = self.clients@.last();
                    lemma_cs_push_new(cs0, e);
                    assert forall|k: int| 0 <= k < self.clients@.len() implies distinct_strings(
                        #[trigger] self.clients@[k].symbols@,
                    ) by {
                        if k < cs0.len() {
                            assert(self.clients@[k] == cs0[k]);
                        }
                    }
                    assert(cs_union(self.clients@) =~= cs_union(cs0).union(str_set(symbols@)));
                    assert(cs_syms(self.clients@, client_id@) =~= cs_syms(cs0, client_id@).union(
                        str_set(symbols@),
                    ));
                    lemma_cs_channel_at(self.clients@, self.clients@.len() - 1);
                    assert(cs_channel(self.clients@, client_id@) == data_tx);
                }
            },
        }
        let ghost cs2 = self.clients@;
        self.recompute_active();
        proof {
            assert(final(self).active_set() =~= cs_union(cs2));
            assert(final(self).active_set() =~= old(self).active_set().union(str_set(symbols@)));
        }
        Ok(())
    }

    /// Subscribe a client to one more symbol.
    ///
    /// Fails with a "client not found" error, and mutates nothing, if the
    /// client has never supplied an output channel through `subscribe`.
    pub fn subscribe_symbol(&mut self, client_id: String, symbol: String) -> (r: Result<
        (),
        String,
    >)
        requires
            old(self).wf(),
        ensures
            final(self).wf(),
            r is Ok <==> old(self).has_client(client_id@),
            old(self).has_client(client_id@) ==> {
                &&& final(self).client_symbols(client_id@) =~= old(self).client_symbols(
                    client_id@,
                ).insert(symbol@)
                &&& forall|c: Seq<char>|
                    c != client_id@ ==> final(self).client_symbols(c) =~= old(
                        self,
                    ).client_symbols(c)
                &&& forall|c: Seq<char>| final(self).has_client(c) == old(self).has_client(c)
                &&& final(self).active_set() =~= old(self).active_set().insert(symbol@)
                &&& final(self).channel_of(client_id@) == old(self).channel_of(client_id@)
            },
            !old(self).has_client(client_id@) ==> *final(self) == *old(self),
            !old(self).has_client(client_id@) ==> (r matches Err(m) && m@ == "Client "@
                + client_id@ + " not found. Must subscribe to symbols first."@),
    {
        proof {
            reveal_strlit("Client ");
            reveal_strlit(" not found. Must subscribe to symbols first.");
        }
        match self.find_client(&client_id) {
            Some(_) => {
                let ghost sym = symbol@;
                let singleton = vec![symbol];
                proof {
                    assert(str_set(singleton@) =~= Set::<Seq<char>>::empty().insert(sym)) by {
                        assert(singleton@[0]@ == sym);
                        assert forall|s: Seq<char>| str_set(singleton@).contains(s) implies s
                            == sym by {
                            let k = choose|k: int| 0 <= k < singleton@.len() && singleton@[k]@ == s;
                        }
                    }
                }
                let this_id = client_id.clone();
                let r = self.subscribe_known(this_id, singleton);
                proof {
                    assert(old(self).client_symbols(client_id@).union(str_set(singleton@))
                        =~= old(self).client_symbols(client_id@).insert(sym));
                    assert(old(self).active_set().union(str_set(singleton@)) =~= old(
                        self,
                    ).active_set().insert(sym));
                }
                r
            },
            None => {
                let mut m = String::new();
                m.append("Client ");
                m.append(client_id.as_str());
                m.append(" not found. Must subscribe to symbols first.");
                Err(m)
            },
        }
    }

    /// Merge symbols into an existing client's record; the registry half of
    /// `subscribe` once the record is known to exist.
    fn subscribe_known(&mut self, client_id: String, symbols: Vec<String>) -> (r: Result<
        (),
        String,
    >)
        requires
            old(self).wf(),
            old(self).has_client(client_id@),
        ensures
            r is Ok,
            final(self).wf(),
            final(self).has_client(client_id@),
            final(self).client_symbols(client_id@) =~= old(self).client_symbols(
                client_id@,
            ).union(str_set(symbols@)),
            forall|c: Seq<char>| final(self).has_client(c) == old(self).has_client(c),
            forall|c: Seq<char>|
                c != client_id@ ==> final(self).client_symbols(c) =~= old(self).client_symbols(c),
            final(self).active_set() =~= old(self).active_set().union(str_set(symbols@)),
            final(self).channel_of(client_id@) == old(self).channel_of(client_id@),
    {
        let ghost cs0 = self.clients@;
        let i = match self.find_client(&client_id) {
            Some(i) => i,
            None => {
                proof {
                    assert(false);
                }
                0
            },
        };
        let entry = self.clients.remove(i);
        proof {
            lemma_cs_remove(cs0, i as int);
            lemma_cs_at(cs0, i as int);
        }
        let ClientSubscription { client_id: eid, symbols: mut esyms, data_tx: etx } = entry;
        insert_new_strings(&mut esyms, &symbols);
        let ghost cs1 = self.clients@;
        self.clients.push(ClientSubscription { client_id: eid, symbols: esyms, data_tx: etx });
        proof {
            let e = self.clients@.last();
            lemma_cs_push_new(cs1, e);
            assert forall|k: int| 0 <= k < self.clients@.len() implies distinct_strings(
                #[trigger] self.clients@[k].symbols@,
            ) by {
                if k < cs1.len() {
                    assert(self.clients@[k] == cs1[k]);
                    let m = choose|m: int| 0 <= m < cs0.len() && #[trigger] cs1[k] == cs0[m];
                    assert(distinct_strings(cs0[m].symbols@));
                }
            }
            assert(cs_union(self.clients@) =~= cs_union(cs0).union(str_set(symbols@)));
            assert(cs_syms(self.clients@, client_id@) =~= cs_syms(cs0, client_id@).union(
                str_set(symbols@),
            ));
            lemma_cs_channel_at(cs0, i as int);
            lemma_cs_channel_at(self.clients@, self.clients@.len() - 1);
            assert(cs_channel(self.clients@, client_id@) == cs_channel(cs0, client_id@));
        }
        let ghost cs2 = self.clients@;
        self.recompute_active();
        proof {
            assert(final(self).active_set() =~= cs_union(cs2));
            assert(final(self).active_set() =~= old(self).active_set().union(str_set(symbols@)));
        }
        Ok(())
    }

    /// Remove symbols from a client's desired set.
    ///
    /// A symbol leaves the aggregated interest set exactly when no remaining
    /// client desires it. Unknown clients and symbols not desired are
    /// silently ignored, as callers cannot observe a difference.
    pub fn unsubscribe(&mut self, client_id: String, symbols: Vec<String>) -> (r: Result<
        (),
        String,
    >)
        requires
            old(self).wf(),
        ensures
            r is Ok,
            final(self).wf(),
            final(self).client_symbols(client_id@) =~= old(self).client_symbols(
                client_id@,
            ).difference(str_set(symbols@)),
            forall|c: Seq<char>| final(self).has_client(c) == old(self).has_client(c),
            forall|c: Seq<char>|
                c != client_id@ ==> final(self).client_symbols(c) =~= old(self).client_symbols(c),
    {
        let ghost cs0 = self.clients@;
        match self.find_client(&client_id) {
            Some(i) => {
                let entry = self.clients.remove(i);
                proof {
                    lemma_cs_remove(cs0, i as int);
                    lemma_cs_at(cs0, i as int);
                }
                let ClientSubscription { client_id: eid, symbols: mut esyms, data_tx: etx } = entry;
                remove_strings(&mut esyms, &symbols);
                let ghost cs1 = self.clients@;
                self.clients.push(ClientSubscription { client_id: eid, symbols: esyms, data_tx: etx });
                proof {
                    let e = self.clients@.last();
                    lemma_cs_push_new(cs1, e);
                    assert forall|k: int| 0 <= k < self.clients@.len() implies distinct_strings(
                        #[trigger] self.clients@[k].symbols@,
                    ) by {
                        if k < cs1.len() {
                            assert(self.clients@[k] == cs1[k]);
                            let m = choose|m: int| 0 <= m < cs0.len() && #[trigger] cs1[k] == cs0[m];
                            assert(distinct_strings(cs0[m].symbols@));
                        }
                    }
                    assert(cs_syms(self.clients@, client_id@) =~= cs_syms(cs0, client_id@)
                        .difference(str_set(symbols@)));
                }
                self.recompute_active();
            },
            None => {
                proof {
                    lemma_cs_syms_absent(cs0, client_id@);
                    assert(final(self).client_symbols(client_id@) =~= old(self).client_symbols(
                        client_id@,
                    ).difference(str_set(symbols@)));
                }
            },
        }
        Ok(())
    }

    /// Remove one symbol from a client's desired set.
    pub fn unsubscribe_symbol(&mut self, client_id: String, symbol: String) -> (r: Result<
        (),
        String,
    >)
        requires
            old(self).wf(),
        ensures
            r is Ok,
            final(self).wf(),
            final(self).client_symbols(client_id@) =~= old(self).client_symbols(
                client_id@,
            ).remove(symbol@),
            forall|c: Seq<char>| final(self).has_client(c) == old(self).has_client(c),
            forall|c: Seq<char>|
                c != client_id@ ==> final(self).client_symbols(c) =~= old(self).client_symbols(c),
    {
        let ghost sym = symbol@;
        let singleton = vec![symbol];
        proof {
            assert(singleton@[0]@ == sym);
            assert forall|s: Seq<char>| str_set(singleton@).contains(s) implies s == sym by {
                let k = choose|k: int| 0 <= k < singleton@.len() && singleton@[k]@ == s;
            }
            assert(str_set(singleton@) =~= Set::<Seq<char>>::empty().insert(sym));
        }
        let r = self.unsubscribe(client_id, singleton);
        r
    }

    /// Remove every symbol for a client and drop its record.
    ///
    /// Other clients' desired sets are untouched; the aggregated interest
    /// set keeps exactly the symbols some remaining client still desires.
    pub fn unsubscribe_all(&mut self, client_id: String) -> (r: Result<(), String>)
        requires
            old(self).wf(),
        ensures
            r is Ok,
            final(self).wf(),
            !final(self).has_client(client_id@),
            final(self).client_symbols(client_id@) =~= Set::<Seq<char>>::empty(),
            forall|c: Seq<char>|
                c != client_id@ ==> final(self).has_client(c) == old(self).has_client(c),
            forall|c: Seq<char>|
                c != client_id@ ==> final(self).client_symbols(c) =~= old(self).client_symbols(c),
    {
        let ghost cs0 = self.clients@;
        match self.find_client(&client_id) {
            Some(i) => {
                let _ = self.clients.remove(i);
                proof {
                    lemma_cs_remove(cs0, i as int);
                    assert forall|k: int| 0 <= k < self.clients@.len() implies distinct_strings(
                        #[trigger] self.clients@[k].symbols@,
                    ) by {
                        let m = choose|m: int|
                            0 <= m < cs0.len() && #[trigger] self.clients@[k] == cs0[m];
                        assert(distinct_strings(cs0[m].symbols@));
                    }
                    lemma_cs_syms_absent(self.clients@, client_id@);
                }
                self.recompute_active();
            },
            None => {
                proof {
                    lemma_cs_syms_absent(cs0, client_id@);
                }
            },
        }
        Ok(())
    }

    /// Read-only snapshot of a client's desired symbols; empty if the client
    /// is unknown.
    pub fn get_client_subscriptions(&self, client_id: &str) -> (r: Vec<String>)
        requires
            self.wf(),
        ensures
            distinct_strings(r@),
            str_set(r@) =~= self.client_symbols(client_id@),
    {
        let key: String = client_id.to_owned();
        match self.find_client(&key) {
            Some(i) => {
                proof {
                    lemma_cs_at(self.clients@, i as int);
                }
                clone_string_vec(&self.clients[i].symbols)
            },
            None => {
                proof {
                    lemma_cs_syms_absent(self.clients@, client_id@);
                }
                Vec::new()
            },
        }
    }

    /// Snapshot of the aggregated interest set.
    pub fn get_active_symbols(&self) -> (r: Vec<String>)
        requires
            self.wf(),
        ensures
            distinct_strings(r@),
            str_set(r@) =~= self.active_set(),
    {
        clone_string_vec(&self.active_symbols)
    }

    /// The set of symbols some registered client desires.
    pub open spec fn desired_union(self) -> Set<Seq<char>> {
        Set::new(
            |s: Seq<char>|
                exists|c: Seq<char>|
                    #[trigger] self.client_symbols(c).contains(s) && self.has_client(c),
        )
    }

    /// Law: the aggregated interest set equals the union, over all
    /// registered clients, of their desired symbol sets. It holds of any
    /// well-formed registry, hence after any sequence of subscribe and
    /// unsubscribe calls.
    pub proof fn lemma_active_is_union(self)
        requires
            self.wf(),
        ensures
            self.active_set() =~= self.desired_union(),
    {
        assert forall|s: Seq<char>| self.active_set().contains(s) implies self.desired_union()
            .contains(s) by {
            assert(cs_union(self.clients@).contains(s));
            let k = choose|k: int|
                0 <= k < self.clients@.len() && #[trigger] str_set(
                    self.clients@[k].symbols@,
                ).contains(s);
            let c = self.clients@[k].client_id@;
            assert(self.clients@[k].client_id@ == c);
            assert(self.has_client(c));
            assert(self.client_symbols(c).contains(s));
        }
        assert forall|s: Seq<char>| self.desired_union().contains(s) implies self.active_set()
            .contains(s) by {
            let c = choose|c: Seq<char>|
                #[trigger] self.client_symbols(c).contains(s) && self.has_client(c);
            let k = choose|k: int|
                0 <= k < self.clients@.len() && #[trigger] self.clients@[k].client_id@ == c
                    && str_set(self.clients@[k].symbols@).contains(s);
            assert(cs_union(self.clients@).contains(s));
        }
    }

    /// Recompute the aggregated interest set from the client entries.
    fn recompute_active(&mut self)
        ensures
            final(self).clients == old(self).clients,
            distinct_strings(final(self).active_symbols@),
            final(self).active_set() =~= final(self).union_set(),
    {
        let ghost cs = self.clients@;
        let mut active: Vec<String> = Vec::new();
        let mut i: usize = 0;
        proof {
            assert(str_set(active@) =~= cs_union_upto(cs, 0));
        }
        while i < self.clients.len()
            invariant
                i <= self.clients@.len(),
                self.clients@ == cs,
                distinct_strings(active@),
                str_set(active@) =~= cs_union_upto(cs, i as int),
            decreases self.clients@.len() - i,
        {
            insert_new_strings(&mut active, &self.clients[i].symbols);
            proof {
                lemma_cs_union_upto_succ(cs, i as int);
                assert(str_set(active@) =~= cs_union_upto(cs, i + 1));
            }
            i = i + 1;
        }
        self.active_symbols = active;
    }
}

impl<T> Default for SubscriptionRegistry<T> {
    /// An empty registry, as `new` builds.
    fn default() -> (r: Self)
        ensures
            r.wf(),
            r.clients@.len() == 0,
            r.active_set() =~= Set::<Seq<char>>::empty(),
            forall|c: Seq<char>| !r.has_client(c),
    {
        Self::new()
    }
}

/// Law: subscribing a client to a symbol set it already desires changes
/// nothing observable. `r2` is any state that `subscribe` can produce from
/// `r1` when the symbols were already in the client's desired set; every
/// desired set and the aggregated interest set match `r1`.
pub proof fn lemma_subscribe_overlap_idempotent<T>(
    r1: SubscriptionRegistry<T>,
    r2: SubscriptionRegistry<T>,
    id: Seq<char>,
    syms: Set<Seq<char>>,
)
    requires
        r1.wf(),
        r2.wf(),
        syms.subset_of(r1.client_symbols(id)),
        r2.client_symbols(id) =~= r1.client_symbols(id).union(syms),
        forall|c: Seq<char>| c != id ==> r2.client_symbols(c) =~= r1.client_symbols(c),
        r2.active_set() =~= r1.active_set().union(syms),
    ensures
        forall|c: Seq<char>| r2.client_symbols(c) =~= r1.client_symbols(c),
        r2.active_set() =~= r1.active_set(),
{
    assert(r2.client_symbols(id) =~= r1.client_symbols(id));
    assert forall|s: Seq<char>| syms.contains(s) implies r1.active_set().contains(s) by {
        assert(r1.client_symbols(id).contains(s));
        let k = choose|k: int|
            0 <= k < r1.clients@.len() && #[trigger] r1.clients@[k].client_id@ == id && str_set(
                r1.clients@[k].symbols@,
            ).contains(s);
        assert(cs_union(r1.clients@).contains(s));
    }
    assert(r2.active_set() =~= r1.active_set());
    assert forall|c: Seq<char>| r2.client_symbols(c) =~= r1.client_symbols(c) by {
        if c == id {
            assert(r2.client_symbols(id) =~= r1.client_symbols(id));
        }
    }
}

/// Law: after removing `syms` from one client's desired set, a removed
/// symbol stays in the aggregated interest set exactly when some other
/// client still desires it; in particular a symbol only that client desired
/// leaves the set, and one another client still desires stays.
pub proof fn lemma_unsubscribe_prunes<T>(
    r1: SubscriptionRegistry<T>,
    r2: SubscriptionRegistry<T>,
    id: Seq<char>,
    syms: Set<Seq<char>>,
    s: Seq<char>,
)
    requires
        r1.wf(),
        r2.wf(),
        r2.client_symbols(id) =~= r1.client_symbols(id).difference(syms),
        forall|c: Seq<char>| c != id ==> r2.client_symbols(c) =~= r1.client_symbols(c),
        forall|c: Seq<char>| r2.has_client(c) == r1.has_client(c),
        syms.contains(s),
    ensures
        r2.active_set().contains(s) <==> exists|c: Seq<char>|
            c != id && r1.has_client(c) && #[trigger] r1.client_symbols(c).contains(s),
{
    r2.lemma_active_is_union();
    if r2.active_set().contains(s) {
        assert(r2.desired_union().contains(s));
        let c = choose|c: Seq<char>|
            #[trigger] r2.client_symbols(c).contains(s) && r2.has_client(c);
        assert(c != id);
        assert(r1.client_symbols(c).contains(s));
    }
    if exists|c: Seq<char>|
        c != id && r1.has_client(c) && #[trigger] r1.client_symbols(c).contains(s) {
        let c = choose|c: Seq<char>|
            c != id && r1.has_client(c) && #[trigger] r1.client_symbols(c).contains(s);
        assert(r2.client_symbols(c).contains(s));
        assert(r2.desired_union().contains(s));
    }
}

/// Under unique identifiers, the symbols recorded under entry `i`'s
/// identifier are exactly that entry's symbol set.
proof fn lemma_cs_at<T>(cs: Seq<ClientSubscription<T>>, i: int)
    requires
        cs_distinct_ids(cs),
        0 <= i < cs.len(),
    ensures
        cs_syms(cs, cs[i].client_id@) =~= str_set(cs[i].symbols@),
{
    let id = cs[i].client_id@;
    assert forall|s: Seq<char>| cs_syms(cs, id).contains(s) implies str_set(
        cs[i].symbols@,
    ).contains(s) by {
        let k = choose|k: int|
            0 <= k < cs.len() && #[trigger] cs[k].client_id@ == id && str_set(
                cs[k].symbols@,
            ).contains(s);
        if k < i {
            assert(cs[k].client_id@ != cs[i].client_id@);
        } else if k > i {
            assert(cs[i].client_id@ != cs[k].client_id@);
        }
    }
    assert forall|s: Seq<char>| str_set(cs[i].symbols@).contains(s) implies cs_syms(
        cs,
        id,
    ).contains(s) by {
        assert(0 <= i < cs.len() && cs[i].client_id@ == id && str_set(cs[i].symbols@).contains(s));
    }
}

/// A registry with no entry under `id` records no symbols under it.
proof fn lemma_cs_syms_absent<T>(cs: Seq<ClientSubscription<T>>, id: Seq<char>)
    requires
        !cs_has(cs, id),
    ensures
        cs_syms(cs, id) =~= Set::<Seq<char>>::empty(),
{
    assert forall|s: Seq<char>| !cs_syms(cs, id).contains(s) by {
        if cs_syms(cs, id).contains(s) {
            let k = choose|k: int|
                0 <= k < cs.len() && #[trigger] cs[k].client_id@ == id && str_set(
                    cs[k].symbols@,
                ).contains(s);
            assert(cs_has(cs, id));
        }
    }
}

/// Effect of removing entry `i` on every registry view.
proof fn lemma_cs_remove<T>(cs: Seq<ClientSubscription<T>>, i: int)
    requires
        cs_distinct_ids(cs),
        0 <= i < cs.len(),
    ensures
        cs_distinct_ids(cs.remove(i)),
        !cs_has(cs.remove(i), cs[i].client_id@),
        forall|c: Seq<char>|
            c != cs[i].client_id@ ==> cs_has(cs.remove(i), c) == cs_has(cs, c),
        forall|c: Seq<char>|
            c != cs[i].client_id@ ==> cs_syms(cs.remove(i), c) =~= cs_syms(cs, c),
        cs_union(cs) =~= cs_union(cs.remove(i)).union(str_set(cs[i].symbols@)),
        forall|k: int|
            0 <= k < cs.remove(i).len() ==> exists|m: int|
                0 <= m < cs.len() && #[trigger] cs.remove(i)[k] == cs[m],
{
    let rem = cs.remove(i);
    cs.remove_ensures(i);
    assert forall|k: int| 0 <= k < rem.len() implies exists|m: int|
        0 <= m < cs.len() && #[trigger] rem[k] == cs[m] by {
        if k < i {
            assert(rem[k] == cs[k]);
        } else {
            assert(rem[k] == cs[k + 1]);
        }
    }
    assert forall|a: int, b: int| 0 <= a < b < rem.len() implies rem[a].client_id@
        != rem[b].client_id@ by {
        let a0: int = if a < i { a } else { a + 1 };
        let b0: int = if b < i { b } else { b + 1 };
        assert(rem[a] == cs[a0] && rem[b] == cs[b0]);
    }
    assert(!cs_has(rem, cs[i].client_id@)) by {
        if cs_has(rem, cs[i].client_id@) {
            let k = choose|k: int|
                0 <= k < rem.len() && #[trigger] rem[k].client_id@ == cs[i].client_id@;
            let k0: int = if k < i { k } else { k + 1 };
            assert(rem[k] == cs[k0]);
            if k0 < i {
                assert(cs[k0].client_id@ != cs[i].client_id@);
            } else {
                assert(cs[i].client_id@ != cs[k0].client_id@);
            }
        }
    }
    assert forall|c: Seq<char>| c != cs[i].client_id@ implies cs_has(rem, c) == cs_has(cs, c) by {
        if cs_has(rem, c) {
            let k = choose|k: int| 0 <= k < rem.len() && #[trigger] rem[k].client_id@ == c;
            let k0: int = if k < i { k } else { k + 1 };
            assert(rem[k] == cs[k0]);
            assert(cs_has(cs, c));
        }
        if cs_has(cs, c) {
            let m = choose|m: int| 0 <= m < cs.len() && #[trigger] cs[m].client_id@ == c;
            let m1: int = if m < i { m } else { m - 1 };
            assert(rem[m1] == cs[m]);
            assert(cs_has(rem, c));
        }
    }
    assert forall|c: Seq<char>| c != cs[i].client_id@ implies cs_syms(rem, c) =~= cs_syms(
        cs,
        c,
    ) by {
        assert forall|s: Seq<char>| cs_syms(rem, c).contains(s) implies cs_syms(cs, c).contains(
            s,
        ) by {
            let k = choose|k: int|
                0 <= k < rem.len() && #[trigger] rem[k].client_id@ == c && str_set(
                    rem[k].symbols@,
                ).contains(s);
            let k0: int = if k < i { k } else { k + 1 };
            assert(rem[k] == cs[k0]);
        }
        assert forall|s: Seq<char>| cs_syms(cs, c).contains(s) implies cs_syms(rem, c).contains(
            s,
        ) by {
            let m = choose|m: int|
                0 <= m < cs.len() && #[trigger] cs[m].client_id@ == c && str_set(
                    cs[m].symbols@,
                ).contains(s);
            let m1: int = if m < i { m } else { m - 1 };
            assert(rem[m1] == cs[m]);
        }
    }
    assert(cs_union(cs) =~= cs_union(rem).union(str_set(cs[i].symbols@))) by {
        assert forall|s: Seq<char>| cs_union(cs).contains(s) implies cs_union(rem).union(
            str_set(cs[i].symbols@),
        ).contains(s) by {
            let m = choose|m: int|
                0 <= m < cs.len() && #[trigger] str_set(cs[m].symbols@).contains(s);
            if m != i {
                let m1: int = if m < i { m } else { m - 1 };
                assert(rem[m1] == cs[m]);
                assert(cs_union(rem).contains(s));
            }
        }
        assert forall|s: Seq<char>| cs_union(rem).union(str_set(cs[i].symbols@)).contains(
            s,
        ) implies cs_union(cs).contains(s) by {
            if cs_union(rem).contains(s) {
                let k = choose|k: int|
                    0 <= k < rem.len() && #[trigger] str_set(rem[k].symbols@).contains(s);
                let k0: int = if k < i { k } else { k + 1 };
                assert(rem[k] == cs[k0]);
            } else {
                assert(str_set(cs[i].symbols@).contains(s));
            }
        }
    }
}

/// Effect of appending an entry under a fresh identifier on every registry
/// view.
proof fn lemma_cs_push_new<T>(cs: Seq<ClientSubscription<T>>, e: ClientSubscription<T>)
    requires
        cs_distinct_ids(cs),
        !cs_has(cs, e.client_id@),
    ensures
        cs_distinct_ids(cs.push(e)),
        cs_has(cs.push(e), e.client_id@),
        forall|c: Seq<char>| c != e.client_id@ ==> cs_has(cs.push(e), c) == cs_has(cs, c),
        forall|c: Seq<char>| c != e.client_id@ ==> cs_syms(cs.push(e), c) =~= cs_syms(cs, c),
        cs_syms(cs.push(e), e.client_id@) =~= str_set(e.symbols@),
        cs_union(cs.push(e)) =~= cs_union(cs).union(str_set(e.symbols@)),
{
    let ext = cs.push(e);
    assert(ext[cs.len() as int] == e);
    assert forall|a: int, b: int| 0 <= a < b < ext.len() implies ext[a].client_id@
        != ext[b].client_id@ by {
        if b == cs.len() {
            assert(ext[a] == cs[a]);
            if cs[a].client_id@ == e.client_id@ {
                assert(cs_has(cs, e.client_id@));
            }
        } else {
            assert(ext[a] == cs[a] && ext[b] == cs[b]);
        }
    }
    assert(cs_has(ext, e.client_id@)) by {
        assert(ext[cs.len() as int].client_id@ == e.client_id@);
    }
    assert forall|c: Seq<char>| c != e.client_id@ implies cs_has(ext, c) == cs_has(cs, c) by {
        if cs_has(ext, c) {
            let k = choose|k: int| 0 <= k < ext.len() && #[trigger] ext[k].client_id@ == c;
            assert(k < cs.len() && ext[k] == cs[k]);
        }
        if cs_has(cs, c) {
            let m = choose|m: int| 0 <= m < cs.len() && #[trigger] cs[m].client_id@ == c;
            assert(ext[m] == cs[m]);
        }
    }
    assert forall|c: Seq<char>| c != e.client_id@ implies cs_syms(ext, c) =~= cs_syms(cs, c) by {
        assert forall|s: Seq<char>| cs_syms(ext, c).contains(s) implies cs_syms(cs, c).contains(
            s,
        ) by {
            let k = choose|k: int|
                0 <= k < ext.len() && #[trigger] ext[k].client_id@ == c && str_set(
                    ext[k].symbols@,
                ).contains(s);
            assert(k < cs.len() && ext[k] == cs[k]);
        }
        assert forall|s: Seq<char>| cs_syms(cs, c).contains(s) implies cs_syms(ext, c).contains(
            s,
        ) by {
            let m = choose|m: int|
                0 <= m < cs.len() && #[trigger] cs[m].client_id@ == c && str_set(
                    cs[m].symbols@,
                ).contains(s);
            assert(ext[m] == cs[m]);
        }
    }
    assert(cs_syms(ext, e.client_id@) =~= str_set(e.symbols@)) by {
        assert forall|s: Seq<char>| cs_syms(ext, e.client_id@).contains(s) implies str_set(
            e.symbols@,
        ).contains(s) by {
            let k = choose|k: int|
                0 <= k < ext.len() && #[trigger] ext[k].client_id@ == e.client_id@ && str_set(
                    ext[k].symbols@,
                ).contains(s);
            if k < cs.len() {
                assert(ext[k] == cs[k]);
                assert(cs_has(cs, e.client_id@));
            }
        }
        assert forall|s: Seq<char>| str_set(e.symbols@).contains(s) implies cs_syms(
            ext,
            e.client_id@,
        ).contains(s) by {
            assert(ext[cs.len() as int].client_id@ == e.client_id@ && str_set(
                ext[cs.len() as int].symbols@,
            ).contains(s));
        }
    }
    assert(cs_union(ext) =~= cs_union(cs).union(str_set(e.symbols@))) by {
        assert forall|s: Seq<char>| cs_union(ext).contains(s) implies cs_union(cs).union(
            str_set(e.symbols@),
        ).contains(s) by {
            let k = choose|k: int|
                0 <= k < ext.len() && #[trigger] str_set(ext[k].symbols@).contains(s);
            if k < cs.len() {
                assert(ext[k] == cs[k]);
                assert(cs_union(cs).contains(s));
            }
        }
        assert forall|s: Seq<char>| cs_union(cs).union(str_set(e.symbols@)).contains(
            s,
        ) implies cs_union(ext).contains(s) by {
            if cs_union(cs).contains(s) {
                let m = choose|m: int|
                    0 <= m < cs.len() && #[trigger] str_set(cs[m].symbols@).contains(s);
                assert(ext[m] == cs[m]);
            } else {
                assert(str_set(ext[cs.len() as int].symbols@).contains(s));
            }
        }
    }
}

/// Extending the union's prefix bound by one adds exactly that entry's
/// symbol set.
proof fn lemma_cs_union_upto_succ<T>(cs: Seq<ClientSubscription<T>>, n: int)
    requires
        0 <= n < cs.len(),
    ensures
        cs_union_upto(cs, n + 1) =~= cs_union_upto(cs, n).union(str_set(cs[n].symbols@)),
{
    assert forall|s: Seq<char>| cs_union_upto(cs, n + 1).contains(s) implies cs_union_upto(
        cs,
        n,
    ).union(str_set(cs[n].symbols@)).contains(s) by {
        let k = choose|k: int| 0 <= k < n + 1 && #[trigger] str_set(cs[k].symbols@).contains(s);
        if k < n {
            assert(cs_union_upto(cs, n).contains(s));
        }
    }
}

/// A string set is unchanged by pushing an element it already covers, and
/// otherwise grows by exactly that element.
pub proof fn lemma_str_set_push(v: Seq<String>, x: String)
    ensures
        str_set(v.push(x)) =~= str_set(v).insert(x@),
{
    assert forall|s: Seq<char>| str_set(v.push(x)).contains(s) implies str_set(v).insert(
        x@,
    ).contains(s) by {
        let k = choose|k: int| 0 <= k < v.push(x).len() && v.push(x)[k]@ == s;
        if k < v.len() {
            assert(v[k]@ == s);
        }
    }
    assert forall|s: Seq<char>| str_set(v).insert(x@).contains(s) implies str_set(
        v.push(x),
    ).contains(s) by {
        if str_set(v).contains(s) {
            let k = choose|k: int| 0 <= k < v.len() && v[k]@ == s;
            assert(v.push(x)[k]@ == s);
        } else {
            assert(v.push(x)[v.len() as int]@ == s);
        }
    }
}

/// Extending the prefix bound by one adds exactly the string at that index.
proof fn lemma_str_set_upto_succ(v: Seq<String>, j: int)
    requires
        0 <= j < v.len(),
    ensures
        str_set_upto(v, j + 1) =~= str_set_upto(v, j).insert(v[j]@),
{
    assert forall|s: Seq<char>| str_set_upto(v, j + 1).contains(s) implies str_set_upto(
        v,
        j,
    ).insert(v[j]@).contains(s) by {
        let k = choose|k: int| 0 <= k < j + 1 && v[k]@ == s;
        if k < j {
            assert(str_set_upto(v, j).contains(s));
        }
    }
    assert forall|s: Seq<char>| str_set_upto(v, j).insert(v[j]@).contains(s) implies str_set_upto(
        v,
        j + 1,
    ).contains(s) by {
        if str_set_upto(v, j).contains(s) {
            let k = choose|k: int| 0 <= k < j && v[k]@ == s;
            assert(0 <= k < j + 1 && v[k]@ == s);
        } else {
            assert(0 <= j < j + 1 && v[j]@ == s);
        }
    }
}

/// An element-for-element copy of a string vector.
fn clone_string_vec(v: &Vec<String>) -> (r: Vec<String>)
    ensures
        r@ == v@,
{
    let mut r: Vec<String> = Vec::new();
    let mut i: usize = 0;
    while i < v.len()
        invariant
            i <= v@.len(),
            r@.len() == i,
            forall|k: int| 0 <= k < i ==> r@[k] == v@[k],
        decreases v@.len() - i,
    {
        r.push(v[i].clone());
        i = i + 1;
    }
    proof {
        assert(r@ =~= v@);
    }
    r
}

/// Whether the vector holds the given string.
pub fn vec_contains_string(v: &Vec<String>, s: &String) -> (r: bool)
    ensures
        r == str_set(v@).contains(s@),
{
    let mut i: usize = 0;
    while i < v.len()
        invariant
            i <= v@.len(),
            forall|k: int| 0 <= k < i ==> v@[k]@ != s@,
        decreases v@.len() - i,
    {
        if v[i] == *s {
            assert(str_set(v@).contains(s@));
            return true;
        }
        i = i + 1;
    }
    assert(!str_set(v@).contains(s@));
    false
}

/// Merge `src` into `dst`, skipping strings already present, so that `dst`
/// stays duplicate-free and ends up holding the union.
fn insert_new_strings(dst: &mut Vec<String>, src: &Vec<String>)
    requires
        distinct_strings(old(dst)@),
    ensures
        distinct_strings(final(dst)@),
        str_set(final(dst)@) =~= str_set(old(dst)@).union(str_set(src@)),
{
    let mut j: usize = 0;
    while j < src.len()
        invariant
            j <= src@.len(),
            distinct_strings(dst@),
            str_set(dst@) =~= str_set(old(dst)@).union(str_set_upto(src@, j as int)),
        decreases src@.len() - j,
    {
        let ghost pre = dst@;
        let present = vec_contains_string(dst, &src[j]);
        if !present {
            dst.push(src[j].clone());
            proof {
                assert(dst@ == pre.push(src@[j as int]));
                lemma_str_set_push(pre, src@[j as int]);
                assert forall|a: int, b: int| 0 <= a < b < dst@.len() implies dst@[a]@
                    != dst@[b]@ by {
                    if b == dst@.len() - 1 {
                        if dst@[a]@ == dst@[b]@ {
                            assert(0 <= a < pre.len() && pre[a]@ == src@[j as int]@);
                            assert(str_set(pre).contains(src@[j as int]@));
                        }
                    }
                }
            }
        }
        proof {
            lemma_str_set_upto_succ(src@, j as int);
            assert(str_set(dst@) =~= str_set(old(dst)@).union(str_set_upto(src@, j + 1)));
        }
        j = j + 1;
    }
    proof {
        assert(str_set(dst@) =~= str_set(old(dst)@).union(str_set(src@)));
    }
}

/// Drop from `dst` every string that `src` holds.
fn remove_strings(dst: &mut Vec<String>, src: &Vec<String>)
    requires
        distinct_strings(old(dst)@),
    ensures
        distinct_strings(final(dst)@),
        str_set(final(dst)@) =~= str_set(old(dst)@).difference(str_set(src@)),
{
    let ghost orig = old(dst)@;
    let mut kept: Vec<String> = Vec::new();
    let mut i: usize = 0;
    proof {
        assert(str_set(kept@) =~= str_set_upto(orig, 0).difference(str_set(src@)));
    }
    while i < dst.len()
        invariant
            i <= dst@.len(),
            dst@ == orig,
            distinct_strings(orig),
            distinct_strings(kept@),
            str_set(kept@) =~= str_set_upto(orig, i as int).difference(str_set(src@)),
        decreases dst@.len() - i,
    {
        let in_src = vec_contains_string(src, &dst[i]);
        let ghost prek = kept@;
        if !in_src {
            kept.push(dst[i].clone());
            proof {
                assert(kept@ == prek.push(orig[i as int]));
                lemma_str_set_push(prek, orig[i as int]);
                assert forall|a: int, b: int| 0 <= a < b < kept@.len() implies kept@[a]@
                    != kept@[b]@ by {
                    if b == kept@.len() - 1 {
                        if kept@[a]@ == kept@[b]@ {
                            assert(str_set(prek).contains(orig[i as int]@));
                            assert(str_set_upto(orig, i as int).contains(orig[i as int]@));
                            let k = choose|k: int| 0 <= k < i && orig[k]@ == orig[i as int]@;
                            assert(false);
                        }
                    }
                }
            }
        }
        proof {
            lemma_str_set_upto_succ(orig, i as int);
            assert(str_set(kept@) =~= str_set_upto(orig, i + 1).difference(str_set(src@)));
        }
        i = i + 1;
    }
    *dst = kept;
    proof {
        assert(str_set(dst@) =~= str_set(orig).difference(str_set(src@)));
    }
}

} // verus!
