//! A map from integer ids to values that remembers insertion order.
use vstd::prelude::*;

verus! {

/// The ids of `s` are pairwise distinct.
pub open spec fn ids_distinct<V>(s: Seq<(u64, V)>) -> bool {
    forall|i: int, j: int| 0 <= i < s.len() && 0 <= j < s.len() && i != j ==> #[trigger] s[i].0
        != #[trigger] s[j].0
}

/// A map keyed by integer ids, in insertion order.
#[derive(Debug)]
pub struct IdMap<V> {
    entries: Vec<(u64, V)>,
}

impl<V> IdMap<V> {
    /// The pairs of the map, in insertion order.
    pub closed spec fn pairs(&self) -> Seq<(u64, V)> {
        self.entries@
    }

    /// The map is well formed: its ids are distinct.
    pub open spec fn wf(&self) -> bool {
        ids_distinct(self.pairs())
    }

    /// An empty map.
    pub fn new() -> (m: Self)
        ensures
            m.wf(),
            m.pairs().len() == 0,
    {
        IdMap { entries: Vec::new() }
    }

    /// The number of pairs.
    pub fn len(&self) -> (n: usize)
        ensures
            n == self.pairs().len(),
    {
        self.entries.len()
    }

    fn find(&self, id: u64) -> (r: Option<usize>)
        ensures
            match r {
                Some(i) => i < self.pairs().len() && self.pairs()[i as int].0 == id,
                None => forall|k: int| 0 <= k < self.pairs().len() ==> self.pairs()[k].0 != id,
            },
    {
        let mut i: usize = 0;
        while i < self.entries.len()
            invariant
                i <= self.entries@.len(),
                forall|k: int| 0 <= k < i ==> self.entries@[k].0 != id,
            decreases self.entries@.len() - i,
        {
            if self.entries[i].0 == id {
                return Some(i);
            }
            i = i + 1;
        }
        None
    }

    /// Insert `value` under `id`: an existing id keeps its place and gets
    /// the new value; a new id goes to the end.
    pub fn insert(&mut self, id: u64, value: V)
        requires
            old(self).wf(),
        ensures
            final(self).wf(),
            (exists|i: int|
                0 <= i < old(self).pairs().len() && old(self).pairs()[i].0 == id && final(self).pairs()
                    == old(self).pairs().update(i, (id, value))) || ((forall|k: int|
                0 <= k < old(self).pairs().len() ==> old(self).pairs()[k].0 != id) && final(self).pairs()
                == old(self).pairs().push((id, value))),
    {
        match self.find(id) {
            Some(i) => {
                let ghost before = self.entries@;
                self.entries.set(i, (id, value));
                assert(self.entries@ == before.update(i as int, (id, value)));
                assert(ids_distinct(self.entries@)) by {
                    assert forall|a: int, b: int|
                        0 <= a < self.entries@.len() && 0 <= b < self.entries@.len() && a != b implies #[trigger] self.entries@[a].0
                        != #[trigger] self.entries@[b].0 by {
                        assert(before[a].0 != before[b].0);
                    }
                }
            },
            None => {
                let ghost before = self.entries@;
                self.entries.push((id, value));
                assert(ids_distinct(self.entries@)) by {
                    assert forall|a: int, b: int|
                        0 <= a < self.entries@.len() && 0 <= b < self.entries@.len() && a != b implies #[trigger] self.entries@[a].0
                        != #[trigger] self.entries@[b].0 by {
                        if a < before.len() && b < before.len() {
                            assert(before[a].0 != before[b].0);
                        }
                    }
                }
            },
        }
    }

    /// The pairs, in insertion order.
    pub fn entries(&self) -> (s: &[(u64, V)])
        ensures
            s@ == self.pairs(),
    {
        self.entries.as_slice()
    }
}

} // verus!
