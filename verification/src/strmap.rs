//! A map keyed by strings whose entries are kept in ascending key order, so that
//! walking it visits the keys sorted as `str` sorts them.
use vstd::prelude::*;

use crate::text::{views, lemma_lt_irreflexive, lemma_lt_total, lemma_lt_transitive, seq_lt, str_eq, str_lt, strictly_sorted_seqs};

verus! {

/// Entries `(key, value)` with keys in strictly ascending order.
#[derive(Debug, PartialEq, Eq)]
pub struct SortedMap<V> {
    pub entries: Vec<(String, V)>,
}

impl<V> SortedMap<V> {
    /// The keys, in the order the entries hold them.
    pub open spec fn keys(&self) -> Seq<Seq<char>> {
        self.entries@.map_values(|e: (String, V)| e.0@)
    }

    /// The values, in the order the entries hold them.
    pub open spec fn values(&self) -> Seq<V> {
        self.entries@.map_values(|e: (String, V)| e.1)
    }

    /// Keys strictly ascending (so no key occurs twice).
    pub open spec fn wf(&self) -> bool {
        strictly_sorted_seqs(self.keys())
    }

    /// The position of key `k` among the entries.
    pub open spec fn index_of(&self, k: Seq<char>) -> int {
        choose|i: int| 0 <= i < self.keys().len() && self.keys()[i] == k
    }

    pub open spec fn has(&self, k: Seq<char>) -> bool {
        self.keys().contains(k)
    }

    /// The value stored under `k`, if any.
    pub open spec fn lookup(&self, k: Seq<char>) -> Option<V> {
        if self.has(k) {
            Some(self.values()[self.index_of(k)])
        } else {
            None
        }
    }

    /// The map from key to value that the entries denote.
    pub open spec fn as_map(&self) -> Map<Seq<char>, V> {
        Map::new(|k: Seq<char>| self.has(k), |k: Seq<char>| self.values()[self.index_of(k)])
    }

    /// In a well-formed map the entry holding a key is the only one.
    pub proof fn lemma_index_unique(&self, i: int)
        requires
            self.wf(),
            0 <= i < self.keys().len(),
        ensures
            self.has(self.keys()[i]),
            self.index_of(self.keys()[i]) == i,
            self.lookup(self.keys()[i]) == Some(self.values()[i]),
    {
        let k = self.keys()[i];
        assert(self.keys()[i] == k);
        let j = self.index_of(k);
        if j != i {
            if j < i {
                assert(seq_lt(self.keys()[j], self.keys()[i]));
            } else {
                assert(seq_lt(self.keys()[i], self.keys()[j]));
            }
            lemma_lt_irreflexive(k);
        }
    }

    /// Whether the keys are in strictly ascending order.
    pub fn is_well_formed(&self) -> (r: bool)
        ensures
            r == self.wf(),
    {
        let n = self.entries.len();
        if n == 0 {
            return true;
        }
        let mut i: usize = 1;
        while i < n
            invariant
                1 <= i <= n,
                n == self.keys().len(),
                forall|a: int, b: int| 0 <= a < b < i ==> seq_lt(#[trigger] self.keys()[a], #[trigger] self.keys()[b]),
            decreases n - i,
        {
            if !str_lt(self.entries[i - 1].0.as_str(), self.entries[i].0.as_str()) {
                assert(!seq_lt(self.keys()[i - 1], self.keys()[i as int]));
                return false;
            }
            proof {
                assert forall|a: int, b: int| 0 <= a < b < i + 1 implies seq_lt(
                    #[trigger] self.keys()[a],
                    #[trigger] self.keys()[b],
                ) by {
                    if b == i && a < i - 1 {
                        lemma_lt_transitive(self.keys()[a], self.keys()[i - 1], self.keys()[b]);
                    }
                }
            }
            i = i + 1;
        }
        true
    }

    /// An empty map.
    pub fn new() -> (r: Self)
        ensures
            r.wf(),
            r.keys() == Seq::<Seq<char>>::empty(),
            r.as_map() == Map::<Seq<char>, V>::empty(),
    {
        let r = SortedMap { entries: Vec::new() };
        assert(r.keys() =~= Seq::<Seq<char>>::empty());
        assert(r.as_map() =~= Map::<Seq<char>, V>::empty());
        r
    }

    pub fn len(&self) -> (n: usize)
        ensures
            n == self.keys().len(),
    {
        self.entries.len()
    }

    pub fn is_empty(&self) -> (b: bool)
        ensures
            b == (self.keys().len() == 0),
    {
        self.entries.len() == 0
    }

    /// The key of the `i`-th entry.
    pub fn key_at(&self, i: usize) -> (k: &String)
        requires
            i < self.keys().len(),
        ensures
            k@ == self.keys()[i as int],
    {
        &self.entries[i].0
    }

    /// The value of the `i`-th entry.
    pub fn value_at(&self, i: usize) -> (v: &V)
        requires
            i < self.keys().len(),
        ensures
            *v == self.values()[i as int],
    {
        &self.entries[i].1
    }

    /// The position of the entry for `k`, or where it would go.
    fn search(&self, k: &str) -> (r: (usize, bool))
        requires
            self.wf(),
        ensures
            r.0 <= self.keys().len(),
            r.1 == self.has(k@),
            r.1 ==> r.0 < self.keys().len() && self.keys()[r.0 as int] == k@,
            !r.1 ==> forall|j: int| 0 <= j < r.0 ==> seq_lt(#[trigger] self.keys()[j], k@),
            !r.1 ==> forall|j: int| r.0 <= j < self.keys().len() ==> seq_lt(k@, #[trigger] self.keys()[j]),
    {
        let mut i: usize = 0;
        while i < self.entries.len()
            invariant
                i <= self.keys().len(),
                self.wf(),
                forall|j: int| 0 <= j < i ==> seq_lt(#[trigger] self.keys()[j], k@),
            decreases self.entries.len() - i,
        {
            let key = self.entries[i].0.as_str();
            assert(key@ == self.keys()[i as int]);
            if str_eq(key, k) {
                return (i, true);
            }
            if str_lt(k, key) {
                proof {
                    assert forall|j: int| i <= j < self.keys().len() implies seq_lt(
                        k@,
                        #[trigger] self.keys()[j],
                    ) by {
                        if j > i {
                            lemma_lt_transitive(k@, self.keys()[i as int], self.keys()[j]);
                        }
                    }
                    if self.has(k@) {
                        let m = choose|m: int| 0 <= m < self.keys().len() && self.keys()[m] == k@;
                        if m < i {
                            lemma_lt_irreflexive(k@);
                        } else {
                            lemma_lt_irreflexive(k@);
                        }
                    }
                }
                return (i, false);
            }
            proof {
                lemma_lt_total(k@, key@);
            }
            i = i + 1;
        }
        proof {
            if self.has(k@) {
                let m = choose|m: int| 0 <= m < self.keys().len() && self.keys()[m] == k@;
                lemma_lt_irreflexive(k@);
            }
        }
        (i, false)
    }

    /// The value stored under `k`, if any.
    pub fn get(&self, k: &str) -> (r: Option<&V>)
        requires
            self.wf(),
        ensures
            match r {
                Some(v) => self.lookup(k@) == Some(*v),
                None => self.lookup(k@) is None,
            },
    {
        let (i, found) = self.search(k);
        if found {
            proof {
                self.lemma_index_unique(i as int);
            }
            Some(&self.entries[i].1)
        } else {
            None
        }
    }

    pub fn contains_key(&self, k: &str) -> (b: bool)
        requires
            self.wf(),
        ensures
            b == self.has(k@),
    {
        self.search(k).1
    }

    /// Stores `v` under `k`, replacing any value already there.
    pub fn insert(&mut self, k: String, v: V)
        requires
            old(self).wf(),
        ensures
            final(self).wf(),
            final(self).as_map() == old(self).as_map().insert(k@, v),
            final(self).keys().to_set() == old(self).keys().to_set().insert(k@),
            old(self).has(k@) ==> final(self).keys() == old(self).keys(),
    {
        let (i, found) = self.search(k.as_str());
        let ghost old_keys = self.keys();
        let ghost old_vals = self.values();
        let ghost old_self = *self;
        if found {
            let ghost kk = k@;
            self.entries.set(i, (k, v));
            proof {
                assert(self.keys() =~= old_keys);
                assert(self.values() =~= old_vals.update(i as int, v));
                assert forall|j: int| 0 <= j < self.keys().len() implies self.index_of(
                    #[trigger] self.keys()[j],
                ) == j by {
                    self.lemma_index_unique(j);
                }
                assert forall|q: Seq<char>| #[trigger] self.has(q) == old_self.has(q) by {}
                assert forall|q: Seq<char>| self.has(q) implies self.index_of(q)
                    == old_self.index_of(q) by {
                    let j = choose|j: int| 0 <= j < self.keys().len() && self.keys()[j] == q;
                    self.lemma_index_unique(j);
                    old_self.lemma_index_unique(j);
                }
                assert(self.as_map() =~= old_self.as_map().insert(kk, v));
                assert(self.keys().to_set() =~= old_keys.to_set().insert(kk));
            }
        } else {
            let ghost kk = k@;
            self.entries.insert(i, (k, v));
            proof {
                assert(self.keys() =~= old_keys.insert(i as int, kk));
                assert(self.values() =~= old_vals.insert(i as int, v));
                assert forall|a: int, b: int| 0 <= a < b < self.keys().len() implies seq_lt(
                    self.keys()[a],
                    self.keys()[b],
                ) by {
                    if a < i && b == i {
                    } else if a == i && b > i {
                    } else if a < i && b > i {
                        assert(seq_lt(old_keys[a], old_keys[b - 1]));
                    } else if a > i {
                        assert(seq_lt(old_keys[a - 1], old_keys[b - 1]));
                    } else {
                        assert(seq_lt(old_keys[a], old_keys[b]));
                    }
                }
                assert forall|q: Seq<char>| #[trigger] self.has(q) == (old_self.has(q) || q
                    == kk) by {
                    if self.has(q) {
                        let j = choose|j: int| 0 <= j < self.keys().len() && self.keys()[j] == q;
                        if j < i {
                            assert(old_keys[j] == q);
                        } else if j > i {
                            assert(old_keys[j - 1] == q);
                        }
                    }
                    if old_self.has(q) {
                        let j = choose|j: int| 0 <= j < old_keys.len() && old_keys[j] == q;
                        if j < i {
                            assert(self.keys()[j] == q);
                        } else {
                            assert(self.keys()[j + 1] == q);
                        }
                    }
                    if q == kk {
                        assert(self.keys()[i as int] == q);
                    }
                }
                assert forall|q: Seq<char>| #[trigger] self.has(q) implies self.values()[self.index_of(q)]
                    == (if q == kk { v } else { old_self.values()[old_self.index_of(q)] }) by {
                    let j = choose|j: int| 0 <= j < self.keys().len() && self.keys()[j] == q;
                    self.lemma_index_unique(j);
                    if j < i {
                        old_self.lemma_index_unique(j);
                    } else if j > i {
                        old_self.lemma_index_unique(j - 1);
                    }
                }
                assert(self.as_map() =~= old_self.as_map().insert(kk, v));
                assert forall|q: Seq<char>| #[trigger] self.keys().to_set().contains(q) == old_keys.to_set().insert(kk).contains(q) by {
                    assert(self.has(q) == (old_self.has(q) || q == kk));
                }
                assert(self.keys().to_set() =~= old_keys.to_set().insert(kk));
            }
        }
    }

    /// Removes the entry for `k`, if any, and returns its value.
    pub fn remove(&mut self, k: &str) -> (r: Option<V>)
        requires
            old(self).wf(),
        ensures
            final(self).wf(),
            final(self).as_map() == old(self).as_map().remove(k@),
            r == old(self).lookup(k@),
            old(self).has(k@) ==> final(self).keys() == old(self).keys().remove(
                old(self).index_of(k@),
            ),
            !old(self).has(k@) ==> *final(self) == *old(self),
    {
        let (i, found) = self.search(k);
        let ghost old_keys = self.keys();
        let ghost old_vals = self.values();
        let ghost old_self = *self;
        if found {
            proof {
                self.lemma_index_unique(i as int);
            }
            let e = self.entries.remove(i);
            proof {
                assert(self.keys() =~= old_keys.remove(i as int));
                assert(self.values() =~= old_vals.remove(i as int));
                assert forall|a: int, b: int| 0 <= a < b < self.keys().len() implies seq_lt(
                    self.keys()[a],
                    self.keys()[b],
                ) by {
                    if b < i {
                        assert(seq_lt(old_keys[a], old_keys[b]));
                    } else if a < i {
                        assert(seq_lt(old_keys[a], old_keys[b + 1]));
                    } else {
                        assert(seq_lt(old_keys[a + 1], old_keys[b + 1]));
                    }
                }
                assert forall|q: Seq<char>| #[trigger] self.has(q) == (old_self.has(q) && q
                    != k@) by {
                    if self.has(q) {
                        let j = choose|j: int| 0 <= j < self.keys().len() && self.keys()[j] == q;
                        if j < i {
                            assert(old_keys[j] == q);
                            assert(seq_lt(old_keys[j], old_keys[i as int]));
                        } else {
                            assert(old_keys[j + 1] == q);
                            assert(seq_lt(old_keys[i as int], old_keys[j + 1]));
                        }
                        lemma_lt_irreflexive(q);
                    }
                    if old_self.has(q) && q != k@ {
                        let j = choose|j: int| 0 <= j < old_keys.len() && old_keys[j] == q;
                        if j < i {
                            assert(self.keys()[j] == q);
                        } else {
                            assert(self.keys()[j - 1] == q);
                        }
                    }
                }
                assert forall|q: Seq<char>| #[trigger] self.has(q) implies self.values()[self.index_of(q)]
                    == old_self.values()[old_self.index_of(q)] by {
                    let j = choose|j: int| 0 <= j < self.keys().len() && self.keys()[j] == q;
                    self.lemma_index_unique(j);
                    if j < i {
                        old_self.lemma_index_unique(j);
                    } else {
                        old_self.lemma_index_unique(j + 1);
                    }
                }
                assert(self.as_map() =~= old_self.as_map().remove(k@));
            }
            Some(e.1)
        } else {
            proof {
                assert(self.as_map() =~= old_self.as_map().remove(k@));
            }
            None
        }
    }
}

/// A map from names to string lists, as text.
pub open spec fn list_view(m: SortedMap<Vec<String>>) -> Map<Seq<char>, Seq<Seq<char>>> {
    m.as_map().map_values(|v: Vec<String>| views(v@))
}

} // verus!
