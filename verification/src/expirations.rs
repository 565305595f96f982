//! Cache of option expiration dates by underlying symbol.
//!
//! Expirations rarely change, so fetched lists are kept per symbol and
//! reused until a refresh is asked for. The cache itself is plain data;
//! callers that share it across tasks put it behind their own lock, and the
//! fetching lives with the I/O layer.

use vstd::prelude::*;

verus! {

/// Expiration lists keyed by underlying symbol, each symbol held once.
pub struct ExpirationsCache {
    pub entries: Vec<(String, Vec<String>)>,
}

impl ExpirationsCache {
    /// Whether a list is cached for the symbol.
    pub open spec fn has_symbol(self, sym: Seq<char>) -> bool {
        exists|i: int| 0 <= i < self.entries@.len() && #[trigger] self.entries@[i].0@ == sym
    }

    /// The cached list for the symbol, if one is cached.
    pub open spec fn dates_of(self, sym: Seq<char>) -> Seq<String> {
        let i = choose|i: int|
            0 <= i < self.entries@.len() && #[trigger] self.entries@[i].0@ == sym;
        self.entries@[i].1@
    }

    /// Each symbol appears at most once.
    pub open spec fn wf(self) -> bool {
        forall|i: int, j: int|
            0 <= i < j < self.entries@.len() ==> self.entries@[i].0@ != self.entries@[j].0@
    }

    /// An empty cache.
    pub fn new() -> (r: Self)
        ensures
            r.wf(),
            r.entries@.len() == 0,
            forall|sym: Seq<char>| !r.has_symbol(sym),
    {
        ExpirationsCache { entries: Vec::new() }
    }

    /// Index of the entry for `sym`, if one is cached.
    fn find_entry(&self, symbol: &str) -> (r: Option<usize>)
        ensures
            match r {
                Some(i) => i < self.entries@.len() && self.entries@[i as int].0@ == symbol@,
                None => !self.has_symbol(symbol@),
            },
    {
        let key: String = symbol.to_owned();
        let mut i: usize = 0;
        while i < self.entries.len()
            invariant
                key@ == symbol@,
                i <= self.entries@.len(),
                forall|k: int| 0 <= k < i ==> self.entries@[k].0@ != symbol@,
            decreases self.entries@.len() - i,
        {
            if self.entries[i].0 == key {
                return Some(i);
            }
            i = i + 1;
        }
        None
    }

    /// The cached list for a symbol, or `None` when nothing is cached or a
    /// refresh was asked for.
    pub fn lookup(&self, symbol: &str, refresh: bool) -> (r: Option<Vec<String>>)
        requires
            self.wf(),
        ensures
            r is Some <==> (!refresh && self.has_symbol(symbol@)),
            r is Some ==> r->0@ == self.dates_of(symbol@),
    {
        if refresh {
            return None;
        }
        match self.find_entry(symbol) {
            Some(i) => {
                proof {
                    self.lemma_dates_at(i as int);
                }
                let mut copy: Vec<String> = Vec::new();
                let stored = &self.entries[i].1;
                let mut k: usize = 0;
                while k < stored.len()
                    invariant
                        stored == &self.entries@[i as int].1,
                        i < self.entries@.len(),
                        k <= stored@.len(),
                        copy@.len() == k,
                        forall|m: int| 0 <= m < k ==> copy@[m] == stored@[m],
                    decreases stored@.len() - k,
                {
                    copy.push(stored[k].clone());
                    k = k + 1;
                }
                proof {
                    assert(copy@ =~= self.entries@[i as int].1@);
                }
                Some(copy)
            },
            None => None,
        }
    }

    /// Under well-formedness, any entry holding the symbol holds its cached
    /// list.
    proof fn lemma_dates_at(self, i: int)
        requires
            self.wf(),
            0 <= i < self.entries@.len(),
        ensures
            self.dates_of(self.entries@[i].0@) == self.entries@[i].1@,
            self.has_symbol(self.entries@[i].0@),
    {
        let sym = self.entries@[i].0@;
        assert(self.has_symbol(sym));
        let j = choose|j: int| 0 <= j < self.entries@.len() && #[trigger] self.entries@[j].0@ == sym;
        if j < i {
            assert(self.entries@[j].0@ != self.entries@[i].0@);
        } else if j > i {
            assert(self.entries@[i].0@ != self.entries@[j].0@);
        }
    }

    /// Record the fetched list for a symbol, replacing any cached one.
    pub fn store(&mut self, symbol: String, dates: Vec<String>)
        requires
            old(self).wf(),
        ensures
            final(self).wf(),
            final(self).has_symbol(symbol@),
            final(self).dates_of(symbol@) == dates@,
            forall|sym: Seq<char>|
                sym != symbol@ ==> final(self).has_symbol(sym) == old(self).has_symbol(sym),
            forall|sym: Seq<char>|
                sym != symbol@ && old(self).has_symbol(sym) ==> final(self).dates_of(sym) == old(
                    self,
                ).dates_of(sym),
    {
        let ghost es0 = self.entries@;
        match self.find_entry(&symbol) {
            Some(i) => {
                let _ = self.entries.remove(i);
                proof {
                    es0.remove_ensures(i as int);
                    assert forall|a: int, b: int|
                        0 <= a < b < self.entries@.len() implies self.entries@[a].0@
                        != self.entries@[b].0@ by {
                        let a0: int = if a < i { a } else { a + 1 };
                        let b0: int = if b < i { b } else { b + 1 };
                        assert(self.entries@[a] == es0[a0] && self.entries@[b] == es0[b0]);
                    }
                    assert(!self.has_symbol(symbol@)) by {
                        if self.has_symbol(symbol@) {
                            let k = choose|k: int|
                                0 <= k < self.entries@.len() && #[trigger] self.entries@[k].0@
                                    == symbol@;
                            let k0: int = if k < i { k } else { k + 1 };
                            assert(self.entries@[k] == es0[k0]);
                            if k0 < i {
                                assert(es0[k0].0@ != es0[i as int].0@);
                            } else {
                                assert(es0[i as int].0@ != es0[k0].0@);
                            }
                        }
                    }
                    assert forall|sym: Seq<char>| sym != symbol@ implies self.has_symbol(sym)
                        == old(self).has_symbol(sym) by {
                        if self.has_symbol(sym) {
                            let k = choose|k: int|
                                0 <= k < self.entries@.len() && #[trigger] self.entries@[k].0@
                                    == sym;
                            let k0: int = if k < i { k } else { k + 1 };
                            assert(self.entries@[k] == es0[k0]);
                            assert(old(self).has_symbol(sym));
                        }
                        if old(self).has_symbol(sym) {
                            let m = choose|m: int|
                                0 <= m < es0.len() && #[trigger] es0[m].0@ == sym;
                            let m1: int = if m < i { m } else { m - 1 };
                            assert(self.entries@[m1] == es0[m]);
                            assert(self.has_symbol(sym));
                        }
                    }
                }
                self.push_entry(symbol, dates, Ghost(es0), Ghost(Some(i as int)));
            },
            None => {
                self.push_entry(symbol, dates, Ghost(es0), Ghost(None));
            },
        }
    }

    /// Append a fresh entry; the symbol must not be cached.
    fn push_entry(
        &mut self,
        symbol: String,
        dates: Vec<String>,
        Ghost(es0): Ghost<Seq<(String, Vec<String>)>>,
        Ghost(removed): Ghost<Option<int>>,
    )
        requires
            old(self).wf(),
            !old(self).has_symbol(symbol@),
            match removed {
                Some(i) => {
                    &&& 0 <= i < es0.len()
                    &&& old(self).entries@ == es0.remove(i)
                    &&& es0[i].0@ == symbol@
                    &&& forall|a: int, b: int|
                        0 <= a < b < es0.len() ==> es0[a].0@ != es0[b].0@
                },
                None => old(self).entries@ == es0,
            },
        ensures
            final(self).wf(),
            final(self).has_symbol(symbol@),
            final(self).dates_of(symbol@) == dates@,
            forall|sym: Seq<char>|
                sym != symbol@ ==> final(self).has_symbol(sym) == old(self).has_symbol(sym),
            forall|sym: Seq<char>|
                sym != symbol@ && old(self).has_symbol(sym) ==> final(self).dates_of(sym) == old(
                    self,
                ).dates_of(sym),
    {
        let ghost pre = self.entries@;
        let ghost n = pre.len() as int;
        self.entries.push((symbol, dates));
        proof {
            assert(self.entries@ == pre.push((symbol, dates)));
            assert(self.entries@[n].0@ == symbol@);
            assert forall|a: int, b: int|
                0 <= a < b < self.entries@.len() implies self.entries@[a].0@
                != self.entries@[b].0@ by {
                if b == n {
                    assert(self.entries@[a] == pre[a]);
                    if pre[a].0@ == symbol@ {
                        assert(old(self).has_symbol(symbol@));
                    }
                } else {
                    assert(self.entries@[a] == pre[a] && self.entries@[b] == pre[b]);
                }
            }
            self.lemma_dates_at(n);
            assert forall|sym: Seq<char>| sym != symbol@ implies final(self).has_symbol(sym)
                == old(self).has_symbol(sym) by {
                if final(self).has_symbol(sym) {
                    let k = choose|k: int|
                        0 <= k < self.entries@.len() && #[trigger] self.entries@[k].0@ == sym;
                    assert(k != n);
                    assert(self.entries@[k] == pre[k]);
                    assert(old(self).has_symbol(sym));
                }
                if old(self).has_symbol(sym) {
                    let m = choose|m: int| 0 <= m < pre.len() && #[trigger] pre[m].0@ == sym;
                    assert(self.entries@[m] == pre[m]);
                    assert(final(self).has_symbol(sym));
                }
            }
            assert forall|sym: Seq<char>|
                sym != symbol@ && old(self).has_symbol(sym) implies final(self).dates_of(sym)
                == old(self).dates_of(sym) by {
                let m = choose|m: int| 0 <= m < pre.len() && #[trigger] pre[m].0@ == sym;
                assert(self.entries@[m] == pre[m]);
                old(self).lemma_dates_at(m);
                final(self).lemma_dates_at(m);
            }
        }
    }

    /// How many symbols are cached.
    pub fn len(&self) -> (r: usize)
        ensures
            r == self.entries@.len(),
    {
        self.entries.len()
    }

    /// Drop every cached list.
    pub fn clear(&mut self)
        ensures
            final(self).wf(),
            final(self).entries@.len() == 0,
            forall|sym: Seq<char>| !final(self).has_symbol(sym),
    {
        self.entries.clear();
    }
}

/// Clear the expirations cache, dropping every cached list.
pub fn clear_expirations_cache(cache: &mut ExpirationsCache)
    ensures
        final(cache).wf(),
        final(cache).entries@.len() == 0,
        forall|sym: Seq<char>| !final(cache).has_symbol(sym),
{
    cache.clear();
}

/// The number of symbols the expirations cache currently holds.
pub fn get_expirations_cache_size(cache: &ExpirationsCache) -> (r: usize)
    ensures
        r == cache.entries@.len(),
{
    cache.len()
}

} // verus!
