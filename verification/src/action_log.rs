//! Append-only log indexed by `action_count`.
//!
//! One primitive backs three owners: each controller's private choice buffer,
//! the client's shadow state-sync log, and (later) planning rollouts. All of
//! them share the same access pattern: append in increasing `action_count`
//! order, look an entry up by its `action_count`, and report the frontier.
//!
//! Storage is a single vector of `(action_count, entry)` pairs kept in
//! strictly increasing key order; lookups are binary searches.
//!
//! Invariants (the type invariant below):
//! 1. keys are strictly increasing, so at most one entry exists per key;
//! 2. reads never change the log (they take `&self`);
//! 3. the frontier is the largest key appended so far.
use vstd::prelude::*;

verus! {

/// Keys of `s` are strictly increasing.
pub open spec fn keys_strictly_increasing<T>(s: Seq<(u64, T)>) -> bool {
    forall|i: int, j: int| 0 <= i < j < s.len() ==> #[trigger] s[i].0 < #[trigger] s[j].0
}

/// `s` holds an entry whose key is `k`.
pub open spec fn has_key<T>(s: Seq<(u64, T)>, k: u64) -> bool {
    exists|i: int| 0 <= i < s.len() && #[trigger] s[i].0 == k
}

/// The entry stored under `k`, if any.
pub open spec fn lookup<T>(s: Seq<(u64, T)>, k: u64) -> Option<T> {
    if has_key(s, k) {
        Some(s[choose|i: int| 0 <= i < s.len() && #[trigger] s[i].0 == k].1)
    } else {
        None
    }
}

/// The largest key of a strictly increasing sequence (its last key).
pub open spec fn frontier_of<T>(s: Seq<(u64, T)>) -> Option<u64> {
    if s.len() == 0 {
        None
    } else {
        Some(s.last().0)
    }
}

/// In a strictly increasing sequence the entry at index `i` is the one
/// `lookup` returns for its key.
pub proof fn lemma_lookup_at_index<T>(s: Seq<(u64, T)>, i: int)
    requires
        keys_strictly_increasing(s),
        0 <= i < s.len(),
    ensures
        lookup(s, s[i].0) == Some(s[i].1),
{
    assert(has_key(s, s[i].0));
    let j = choose|j: int| 0 <= j < s.len() && #[trigger] s[j].0 == s[i].0;
    if j < i {
        assert(s[j].0 < s[i].0);
    } else if i < j {
        assert(s[i].0 < s[j].0);
    }
}

/// Appending an entry whose key is beyond every key keeps the sequence
/// sorted; the new key reads back the new entry and every other key reads
/// back what it did before.
pub proof fn lemma_lookup_after_append<T>(s: Seq<(u64, T)>, k: u64, e: T)
    requires
        keys_strictly_increasing(s),
        s.len() == 0 || s.last().0 < k,
    ensures
        keys_strictly_increasing(s.push((k, e))),
        forall|q: u64| #[trigger] lookup(s.push((k, e)), q) == if q == k {
            Some(e)
        } else {
            lookup(s, q)
        },
{
    let t = s.push((k, e));
    assert forall|i: int, j: int| 0 <= i < j < t.len() implies #[trigger] t[i].0 < #[trigger] t[j].0 by {
        if j == t.len() - 1 {
            if i < s.len() - 1 {
                assert(s[i].0 < s[s.len() - 1].0);
            }
        } else {
            assert(t[i] == s[i] && t[j] == s[j]);
        }
    }
    assert forall|q: u64| #[trigger] lookup(t, q) == if q == k {
        Some(e)
    } else {
        lookup(s, q)
    } by {
        if q == k {
            lemma_lookup_at_index(t, t.len() - 1);
        } else {
            if has_key(s, q) {
                let i = choose|i: int| 0 <= i < s.len() && #[trigger] s[i].0 == q;
                lemma_lookup_at_index(s, i);
                lemma_lookup_at_index(t, i);
                assert(t[i] == s[i]);
            } else {
                assert forall|i: int| 0 <= i < t.len() implies #[trigger] t[i].0 != q by {
                    if i < s.len() {
                        assert(t[i] == s[i]);
                    }
                }
            }
        }
    }
}

/// Inserting an entry at the position that keeps the keys sorted makes the
/// new key read back the new entry and leaves every other key as it was.
pub proof fn lemma_lookup_after_insert<T>(s: Seq<(u64, T)>, idx: int, k: u64, e: T)
    requires
        keys_strictly_increasing(s),
        0 <= idx <= s.len(),
        forall|j: int| 0 <= j < idx ==> #[trigger] s[j].0 < k,
        forall|j: int| idx <= j < s.len() ==> #[trigger] s[j].0 > k,
    ensures
        keys_strictly_increasing(s.insert(idx, (k, e))),
        forall|q: u64| #[trigger] lookup(s.insert(idx, (k, e)), q) == if q == k {
            Some(e)
        } else {
            lookup(s, q)
        },
{
    let t = s.insert(idx, (k, e));
    assert forall|i: int, j: int| 0 <= i < j < t.len() implies #[trigger] t[i].0 < #[trigger] t[j].0 by {
        if i < idx && j < idx {
            assert(t[i] == s[i] && t[j] == s[j]);
        } else if i < idx && j == idx {
            assert(t[i] == s[i]);
        } else if i < idx && j > idx {
            assert(t[i] == s[i] && t[j] == s[j - 1]);
        } else if i == idx {
            assert(t[j] == s[j - 1]);
        } else {
            assert(t[i] == s[i - 1] && t[j] == s[j - 1]);
        }
    }
    assert forall|q: u64| #[trigger] lookup(t, q) == if q == k {
        Some(e)
    } else {
        lookup(s, q)
    } by {
        if q == k {
            assert(t[idx] == (k, e));
            lemma_lookup_at_index(t, idx);
        } else {
            if has_key(s, q) {
                let i = choose|i: int| 0 <= i < s.len() && #[trigger] s[i].0 == q;
                lemma_lookup_at_index(s, i);
                if i < idx {
                    assert(t[i] == s[i]);
                    lemma_lookup_at_index(t, i);
                } else {
                    assert(t[i + 1] == s[i]);
                    lemma_lookup_at_index(t, i + 1);
                }
            } else {
                assert forall|i: int| 0 <= i < t.len() implies #[trigger] t[i].0 != q by {
                    if i < idx {
                        assert(t[i] == s[i]);
                    } else if i > idx {
                        assert(t[i] == s[i - 1]);
                    }
                }
            }
        }
    }
}

/// Append-only log indexed by `action_count`, generic over the entry type.
#[derive(Debug)]
pub struct ActionLog<T> {
    /// Entries in strictly `action_count`-ascending order.
    entries: Vec<(u64, T)>,
}

impl<T> View for ActionLog<T> {
    type V = Seq<(u64, T)>;

    closed spec fn view(&self) -> Seq<(u64, T)> {
        self.entries@
    }
}

impl<T> ActionLog<T> {
    /// The log is well formed: its keys are strictly increasing.
    pub open spec fn wf(&self) -> bool {
        keys_strictly_increasing(self@)
    }

    /// Create an empty log.
    pub fn new() -> (log: Self)
        ensures
            log.wf(),
            log@ == Seq::<(u64, T)>::empty(),
    {
        ActionLog { entries: Vec::new() }
    }

    /// Append one entry at `action_count`.
    ///
    /// The key must be beyond the current frontier: the log is strictly
    /// monotonic by construction and a repeated or decreasing key is a
    /// protocol desync, which callers must never produce.
    pub fn push(&mut self, action_count: u64, entry: T)
        requires
            old(self).wf(),
            old(self)@.len() == 0 || old(self)@.last().0 < action_count,
        ensures
            final(self).wf(),
            final(self)@ == old(self)@.push((action_count, entry)),
            forall|k: u64| #[trigger] lookup(final(self)@, k) == if k == action_count {
                Some(entry)
            } else {
                lookup(old(self)@, k)
            },
            frontier_of(final(self)@) == Some(action_count),
    {
        proof {
            lemma_lookup_after_append(self.entries@, action_count, entry);
        }
        self.entries.push((action_count, entry));
    }

    /// Index of the first entry whose key is not below `action_count`.
    fn lower_bound(&self, action_count: u64) -> (idx: usize)
        requires
            self.wf(),
        ensures
            idx <= self@.len(),
            forall|j: int| 0 <= j < idx ==> #[trigger] self@[j].0 < action_count,
            forall|j: int| idx <= j < self@.len() ==> #[trigger] self@[j].0 >= action_count,
    {
        let mut lo: usize = 0;
        let mut hi: usize = self.entries.len();
        while lo < hi
            invariant
                lo <= hi <= self.entries@.len(),
                keys_strictly_increasing(self.entries@),
                forall|j: int| 0 <= j < lo ==> #[trigger] self.entries@[j].0 < action_count,
                forall|j: int| hi <= j < self.entries@.len() ==> #[trigger] self.entries@[j].0
                    >= action_count,
            decreases hi - lo,
        {
            let mid = lo + (hi - lo) / 2;
            if self.entries[mid].0 < action_count {
                proof {
                    assert forall|j: int| 0 <= j < mid + 1 implies #[trigger] self.entries@[j].0
                        < action_count by {
                        if j < mid {
                            assert(self.entries@[j].0 < self.entries@[mid as int].0);
                        }
                    }
                }
                lo = mid + 1;
            } else {
                proof {
                    assert forall|j: int| mid <= j < self.entries@.len() implies #[trigger] self.entries@[j].0
                        >= action_count by {
                        if j > mid {
                            assert(self.entries@[mid as int].0 < self.entries@[j].0);
                        }
                    }
                }
                hi = mid;
            }
        }
        lo
    }

    /// Insert one entry at `action_count`, keeping key order even when
    /// entries arrive out of order.
    ///
    /// The key must not already be present: two distinct entries never share
    /// a key, and an exact duplicate is a protocol desync.
    pub fn insert_sorted(&mut self, action_count: u64, entry: T)
        requires
            old(self).wf(),
            lookup(old(self)@, action_count) is None,
        ensures
            final(self).wf(),
            exists|idx: int|
                0 <= idx <= old(self)@.len() && final(self)@ == old(self)@.insert(
                    idx,
                    (action_count, entry),
                ) && (forall|j: int| 0 <= j < idx ==> #[trigger] old(self)@[j].0 < action_count)
                    && (forall|j: int| idx <= j < old(self)@.len() ==> #[trigger] old(self)@[j].0
                    > action_count),
            forall|k: u64| #[trigger] lookup(final(self)@, k) == if k == action_count {
                Some(entry)
            } else {
                lookup(old(self)@, k)
            },
    {
        let idx = self.lower_bound(action_count);
        proof {
            if (idx as int) < self.entries@.len() && self.entries@[idx as int].0 == action_count {
                assert(has_key(self.entries@, action_count));
            }
            assert forall|j: int| idx <= j < self.entries@.len() implies #[trigger] self.entries@[j].0
                > action_count by {
                if self.entries@[j].0 == action_count {
                    assert(has_key(self.entries@, action_count));
                }
            }
            lemma_lookup_after_insert(self.entries@, idx as int, action_count, entry);
        }
        self.entries.insert(idx, (action_count, entry));
    }

    /// Look up an entry by its `action_count`; `None` when no entry was
    /// stored at exactly that key.
    pub fn get(&self, action_count: u64) -> (r: Option<&T>)
        requires
            self.wf(),
        ensures
            match r {
                Some(e) => lookup(self@, action_count) == Some(*e),
                None => lookup(self@, action_count) is None,
            },
    {
        let idx = self.lower_bound(action_count);
        if idx < self.entries.len() && self.entries[idx].0 == action_count {
            proof {
                lemma_lookup_at_index(self.entries@, idx as int);
            }
            Some(&self.entries[idx].1)
        } else {
            proof {
                assert forall|j: int| 0 <= j < self.entries@.len() implies #[trigger] self.entries@[j].0
                    != action_count by {
                    if j > idx {
                        assert(self.entries@[idx as int].0 < self.entries@[j].0);
                    }
                }
            }
            None
        }
    }

    /// Highest `action_count` appended so far, or `None` if empty.
    pub fn frontier(&self) -> (r: Option<u64>)
        ensures
            r == frontier_of(self@),
    {
        let n = self.entries.len();
        if n == 0 {
            None
        } else {
            Some(self.entries[n - 1].0)
        }
    }

    /// Number of entries.
    pub fn len(&self) -> (n: usize)
        ensures
            n == self@.len(),
    {
        self.entries.len()
    }

    /// True if no entries have been appended.
    pub fn is_empty(&self) -> (b: bool)
        ensures
            b == (self@.len() == 0),
    {
        self.entries.len() == 0
    }

    /// The `(action_count, entry)` pairs in ascending `action_count` order.
    pub fn iter(&self) -> (s: &[(u64, T)])
        ensures
            s@ == self@,
    {
        self.entries.as_slice()
    }
}

impl<T> Default for ActionLog<T> {
    /// An empty log.
    fn default() -> (log: Self)
        ensures
            log.wf(),
            log@ == Seq::<(u64, T)>::empty(),
    {
        ActionLog::new()
    }
}

/// Append-only: an entry readable at a key stays readable there, unchanged,
/// after a later entry is pushed beyond the frontier.
pub proof fn law_push_never_rewrites<T>(s: Seq<(u64, T)>, k: u64, e: T, q: u64)
    requires
        keys_strictly_increasing(s),
        s.len() == 0 || s.last().0 < k,
        lookup(s, q) is Some,
    ensures
        lookup(s.push((k, e)), q) == lookup(s, q),
{
    lemma_lookup_after_append(s, k, e);
    if q == k {
        let i = choose|i: int| 0 <= i < s.len() && #[trigger] s[i].0 == q;
        if i < s.len() - 1 {
            assert(s[i].0 < s[s.len() - 1].0);
        }
    }
}

/// Append-only: an entry readable at a key stays readable there, unchanged,
/// after an entry that arrived out of order is inserted at its sorted place.
pub proof fn law_insert_never_rewrites<T>(s: Seq<(u64, T)>, idx: int, k: u64, e: T, q: u64)
    requires
        keys_strictly_increasing(s),
        0 <= idx <= s.len(),
        forall|j: int| 0 <= j < idx ==> #[trigger] s[j].0 < k,
        forall|j: int| idx <= j < s.len() ==> #[trigger] s[j].0 > k,
        lookup(s, q) is Some,
    ensures
        lookup(s.insert(idx, (k, e)), q) == lookup(s, q),
{
    lemma_lookup_after_insert(s, idx, k, e);
    if q == k {
        let i = choose|i: int| 0 <= i < s.len() && #[trigger] s[i].0 == q;
        assert(s[i].0 != k);
    }
}

/// The frontier bounds every key: any key above the frontier reads back
/// nothing, which is the one legitimate "more data is needed" signal.
pub proof fn law_reads_past_frontier_are_empty<T>(log: &ActionLog<T>, k: u64)
    requires
        log.wf(),
        frontier_of(log@) is None || frontier_of(log@)->0 < k,
    ensures
        lookup(log@, k) is None,
{
    assert forall|i: int| 0 <= i < log@.len() implies #[trigger] log@[i].0 != k by {
        if i < log@.len() - 1 {
            assert(log@[i].0 < log@[log@.len() - 1].0);
        }
    }
}

/// The frontier is the largest key in the log.
pub proof fn law_frontier_is_max_key<T>(log: &ActionLog<T>)
    requires
        log.wf(),
    ensures
        forall|i: int| 0 <= i < log@.len() ==> #[trigger] log@[i].0 <= frontier_of(log@)->0,
{
    assert forall|i: int| 0 <= i < log@.len() implies #[trigger] log@[i].0 <= frontier_of(log@)->0 by {
        if i < log@.len() - 1 {
            assert(log@[i].0 < log@[log@.len() - 1].0);
        }
    }
}

/// Inserting an entry that arrived out of order (at the place
/// `insert_sorted` finds) adds exactly that entry: the log has one more
/// entry, holds the old entries and the new one, keeps its keys strictly
/// ascending, and its frontier becomes the larger of the old frontier and
/// the new key.
pub proof fn law_insert_sorted_adds_one_entry<T>(s: Seq<(u64, T)>, idx: int, k: u64, e: T)
    requires
        keys_strictly_increasing(s),
        0 <= idx <= s.len(),
        forall|j: int| 0 <= j < idx ==> #[trigger] s[j].0 < k,
        forall|j: int| idx <= j < s.len() ==> #[trigger] s[j].0 > k,
    ensures
        s.insert(idx, (k, e)).len() == s.len() + 1,
        s.insert(idx, (k, e)).to_multiset() == s.to_multiset().insert((k, e)),
        keys_strictly_increasing(s.insert(idx, (k, e))),
        frontier_of(s.insert(idx, (k, e))) == match frontier_of(s) {
            None => Some(k),
            Some(f) => Some(if f > k {
                f
            } else {
                k
            }),
        },
{
    broadcast use vstd::seq_lib::group_to_multiset_ensures;

    let r = s.insert(idx, (k, e));
    vstd::seq_lib::to_multiset_insert(s, idx, (k, e));
    assert forall|a: int, b: int| 0 <= a < b < r.len() implies #[trigger] r[a].0 < #[trigger] r[b].0 by {
        if b < idx {
        } else if b == idx {
        } else if a < idx {
            assert(r[b] == s[b - 1]);
        } else if a == idx {
            assert(r[b] == s[b - 1]);
        } else {
            assert(r[a] == s[a - 1]);
            assert(r[b] == s[b - 1]);
        }
    }
    if s.len() > 0 {
        if idx == s.len() {
            assert(s[s.len() - 1].0 < k);
        } else {
            assert(s[s.len() - 1].0 > k);
            assert(r.last() == s.last());
        }
    }
}

} // verus!
