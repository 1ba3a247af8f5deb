//! A map from strings to values that remembers insertion order.
//!
//! Keys are compared as character sequences. The map is a vector of
//! `(key, value)` pairs whose keys are pairwise distinct; inserting an
//! existing key replaces its value in place, so the order of the pairs is
//! the order in which the keys were first inserted.
use crate::text::{chars_of, same_chars};
use vstd::prelude::*;

verus! {

/// The keys of `s` are pairwise distinct.
pub open spec fn keys_distinct<V>(s: Seq<(Seq<char>, V)>) -> bool {
    forall|i: int, j: int| 0 <= i < s.len() && 0 <= j < s.len() && i != j ==> #[trigger] s[i].0
        != #[trigger] s[j].0
}

/// `s` has a pair whose key is `k`.
pub open spec fn has_str_key<V>(s: Seq<(Seq<char>, V)>, k: Seq<char>) -> bool {
    exists|i: int| 0 <= i < s.len() && #[trigger] s[i].0 == k
}

/// Index of the pair whose key is `k` (meaningful when `has_str_key`).
pub open spec fn key_index<V>(s: Seq<(Seq<char>, V)>, k: Seq<char>) -> int {
    choose|i: int| 0 <= i < s.len() && #[trigger] s[i].0 == k
}

/// The map the pairs describe.
pub open spec fn map_of<V>(s: Seq<(Seq<char>, V)>) -> Map<Seq<char>, V> {
    Map::new(|k: Seq<char>| has_str_key(s, k), |k: Seq<char>| s[key_index(s, k)].1)
}

/// The map the pairs describe, with each string value taken by its view.
pub open spec fn text_map(s: Seq<(Seq<char>, String)>) -> Map<Seq<char>, Seq<char>> {
    map_of(s).map_values(|v: String| v@)
}

/// With distinct keys, the pair at index `i` is the one found for its key.
pub proof fn lemma_key_index<V>(s: Seq<(Seq<char>, V)>, i: int)
    requires
        keys_distinct(s),
        0 <= i < s.len(),
    ensures
        has_str_key(s, s[i].0),
        key_index(s, s[i].0) == i,
{
    assert(has_str_key(s, s[i].0));
}

/// A string-keyed map that remembers insertion order.
#[derive(Debug, Clone, PartialEq, Eq)]
pub struct StrMap<V> {
    entries: Vec<(String, V)>,
}

impl<V> StrMap<V> {
    /// The pairs of the map, in insertion order.
    pub closed spec fn pairs(&self) -> Seq<(Seq<char>, V)> {
        self.entries@.map_values(|e: (String, V)| (e.0@, e.1))
    }

    /// The map is well formed: its keys are distinct.
    pub open spec fn wf(&self) -> bool {
        keys_distinct(self.pairs())
    }

    /// Create an empty map.
    pub fn new() -> (m: Self)
        ensures
            m.wf(),
            m.pairs() == Seq::<(Seq<char>, V)>::empty(),
    {
        let m = StrMap { entries: Vec::new() };
        assert(m.pairs() =~= Seq::<(Seq<char>, V)>::empty());
        m
    }

    /// Number of pairs.
    pub fn len(&self) -> (n: usize)
        ensures
            n == self.pairs().len(),
    {
        self.entries.len()
    }

    /// Index of the pair whose key is `key`.
    fn find(&self, key: &str) -> (r: Option<usize>)
        requires
            self.wf(),
        ensures
            match r {
                Some(i) => i < self.pairs().len() && self.pairs()[i as int].0 == key@
                    && has_str_key(self.pairs(), key@) && key_index(self.pairs(), key@) == i,
                None => !has_str_key(self.pairs(), key@),
            },
    {
        let k = chars_of(key);
        let mut i: usize = 0;
        while i < self.entries.len()
            invariant
                i <= self.entries@.len(),
                k@ == key@,
                self.wf(),
                forall|j: int| 0 <= j < i ==> #[trigger] self.pairs()[j].0 != key@,
            decreases self.entries@.len() - i,
        {
            let ek = chars_of(self.entries[i].0.as_str());
            assert(self.pairs()[i as int].0 == self.entries@[i as int].0@);
            if same_chars(&ek, &k) {
                proof {
                    lemma_key_index(self.pairs(), i as int);
                }
                return Some(i);
            }
            i = i + 1;
        }
        None
    }

    /// Whether `key` is present.
    pub fn contains_key(&self, key: &str) -> (b: bool)
        requires
            self.wf(),
        ensures
            b == has_str_key(self.pairs(), key@),
            b == map_of(self.pairs()).dom().contains(key@),
    {
        self.find(key).is_some()
    }

    /// The value stored under `key`.
    pub fn get(&self, key: &str) -> (r: Option<&V>)
        requires
            self.wf(),
        ensures
            match r {
                Some(v) => map_of(self.pairs()).dom().contains(key@) && map_of(self.pairs())[key@]
                    == *v,
                None => !map_of(self.pairs()).dom().contains(key@),
            },
    {
        match self.find(key) {
            Some(i) => Some(&self.entries[i].1),
            None => None,
        }
    }

    /// Insert `value` under `key`, returning the value it replaces. A new key
    /// goes to the end; an existing key keeps its place.
    pub fn insert(&mut self, key: String, value: V) -> (r: Option<V>)
        requires
            old(self).wf(),
        ensures
            final(self).wf(),
            map_of(final(self).pairs()) == map_of(old(self).pairs()).insert(key@, value),
            has_str_key(old(self).pairs(), key@) ==> final(self).pairs() == old(self).pairs().update(
                key_index(old(self).pairs(), key@),
                (key@, value),
            ) && r == Some(old(self).pairs()[key_index(old(self).pairs(), key@)].1),
            !has_str_key(old(self).pairs(), key@) ==> final(self).pairs() == old(self).pairs().push(
                (key@, value),
            ) && r is None,
    {
        let ghost old_pairs = self.pairs();
        match self.find(key.as_str()) {
            Some(i) => {
                let (_k, old_v) = self.entries.remove(i);
                self.entries.insert(i, (key, value));
                proof {
                    let np = self.pairs();
                    assert(np =~= old_pairs.update(i as int, (key@, value)));
                    assert(keys_distinct(np)) by {
                        assert forall|a: int, b: int|
                            0 <= a < np.len() && 0 <= b < np.len() && a != b implies #[trigger] np[a].0
                            != #[trigger] np[b].0 by {
                            if a != i && b != i {
                                assert(np[a] == old_pairs[a] && np[b] == old_pairs[b]);
                            } else if a == i {
                                assert(np[b] == old_pairs[b]);
                                assert(old_pairs[a].0 != old_pairs[b].0);
                            } else {
                                assert(np[a] == old_pairs[a]);
                                assert(old_pairs[a].0 != old_pairs[b].0);
                            }
                        }
                    }
                    assert(map_of(np) =~= map_of(old_pairs).insert(key@, value)) by {
                        assert forall|k: Seq<char>| #[trigger] has_str_key(np, k) == (has_str_key(
                            old_pairs,
                            k,
                        ) || k == key@) by {
                            if has_str_key(old_pairs, k) {
                                let j = key_index(old_pairs, k);
                                assert(np[j].0 == k);
                            }
                            if has_str_key(np, k) {
                                let j = key_index(np, k);
                                if j != i {
                                    assert(old_pairs[j].0 == k);
                                }
                            }
                        }
                        assert forall|k: Seq<char>| has_str_key(np, k) implies #[trigger] np[key_index(
                            np,
                            k,
                        )].1 == map_of(old_pairs).insert(key@, value)[k] by {
                            let j = key_index(np, k);
                            lemma_key_index(np, j);
                            if k == key@ {
                                lemma_key_index(np, i as int);
                            } else {
                                assert(j != i);
                                assert(old_pairs[j] == np[j]);
                                lemma_key_index(old_pairs, j);
                            }
                        }
                    }
                }
                Some(old_v)
            },
            None => {
                self.entries.push((key, value));
                proof {
                    let np = self.pairs();
                    assert(np =~= old_pairs.push((key@, value)));
                    assert(keys_distinct(np)) by {
                        assert forall|a: int, b: int|
                            0 <= a < np.len() && 0 <= b < np.len() && a != b implies #[trigger] np[a].0
                            != #[trigger] np[b].0 by {
                            if a < old_pairs.len() && b < old_pairs.len() {
                                assert(np[a] == old_pairs[a] && np[b] == old_pairs[b]);
                            } else if a < old_pairs.len() {
                                assert(np[a] == old_pairs[a]);
                            } else {
                                assert(np[b] == old_pairs[b]);
                            }
                        }
                    }
                    assert(map_of(np) =~= map_of(old_pairs).insert(key@, value)) by {
                        assert forall|k: Seq<char>| #[trigger] has_str_key(np, k) == (has_str_key(
                            old_pairs,
                            k,
                        ) || k == key@) by {
                            if has_str_key(old_pairs, k) {
                                let j = key_index(old_pairs, k);
                                assert(np[j].0 == k);
                            }
                            if k == key@ {
                                assert(np[old_pairs.len() as int].0 == k);
                            }
                            if has_str_key(np, k) {
                                let j = key_index(np, k);
                                if j < old_pairs.len() {
                                    assert(old_pairs[j].0 == k);
                                }
                            }
                        }
                        assert forall|k: Seq<char>| has_str_key(np, k) implies #[trigger] np[key_index(
                            np,
                            k,
                        )].1 == map_of(old_pairs).insert(key@, value)[k] by {
                            let j = key_index(np, k);
                            lemma_key_index(np, j);
                            if k == key@ {
                                lemma_key_index(np, old_pairs.len() as int);
                            } else {
                                assert(j < old_pairs.len());
                                assert(old_pairs[j] == np[j]);
                                lemma_key_index(old_pairs, j);
                            }
                        }
                    }
                }
                None
            },
        }
    }

    /// Remove the pair whose key is `key`, returning its value.
    pub fn remove(&mut self, key: &str) -> (r: Option<V>)
        requires
            old(self).wf(),
        ensures
            final(self).wf(),
            map_of(final(self).pairs()) == map_of(old(self).pairs()).remove(key@),
            has_str_key(old(self).pairs(), key@) ==> final(self).pairs() == old(self).pairs().remove(
                key_index(old(self).pairs(), key@),
            ) && r == Some(old(self).pairs()[key_index(old(self).pairs(), key@)].1),
            !has_str_key(old(self).pairs(), key@) ==> final(self).pairs() == old(self).pairs()
                && r is None,
    {
        let ghost old_pairs = self.pairs();
        match self.find(key) {
            Some(i) => {
                let (_k, v) = self.entries.remove(i);
                proof {
                    let np = self.pairs();
                    assert(np =~= old_pairs.remove(i as int));
                    assert(keys_distinct(np)) by {
                        assert forall|a: int, b: int|
                            0 <= a < np.len() && 0 <= b < np.len() && a != b implies #[trigger] np[a].0
                            != #[trigger] np[b].0 by {
                            let oa = if a < i {
                                a
                            } else {
                                a + 1
                            };
                            let ob = if b < i {
                                b
                            } else {
                                b + 1
                            };
                            assert(np[a] == old_pairs[oa] && np[b] == old_pairs[ob]);
                        }
                    }
                    assert(map_of(np) =~= map_of(old_pairs).remove(key@)) by {
                        assert forall|k: Seq<char>| #[trigger] has_str_key(np, k) == (has_str_key(
                            old_pairs,
                            k,
                        ) && k != key@) by {
                            if has_str_key(old_pairs, k) && k != key@ {
                                let j = key_index(old_pairs, k);
                                assert(j != i);
                                if j < i {
                                    assert(np[j].0 == k);
                                } else {
                                    assert(np[j - 1].0 == k);
                                }
                            }
                            if has_str_key(np, k) {
                                let j = key_index(np, k);
                                let oj = if j < i {
                                    j
                                } else {
                                    j + 1
                                };
                                assert(old_pairs[oj].0 == k);
                                assert(oj != i);
                                assert(old_pairs[i as int].0 == key@);
                            }
                        }
                        assert forall|k: Seq<char>| has_str_key(np, k) implies #[trigger] np[key_index(
                            np,
                            k,
                        )].1 == map_of(old_pairs).remove(key@)[k] by {
                            let j = key_index(np, k);
                            lemma_key_index(np, j);
                            let oj = if j < i {
                                j
                            } else {
                                j + 1
                            };
                            assert(old_pairs[oj] == np[j]);
                            lemma_key_index(old_pairs, oj);
                        }
                    }
                }
                Some(v)
            },
            None => {
                assert(map_of(old_pairs) =~= map_of(old_pairs).remove(key@));
                None
            },
        }
    }

    /// The pairs, in insertion order.
    pub fn entries(&self) -> (s: &[(String, V)])
        ensures
            s@.map_values(|e: (String, V)| (e.0@, e.1)) == self.pairs(),
    {
        self.entries.as_slice()
    }
}

} // verus!
