//! Stable sorting of keyed items.
//!
//! The sorted sequence is defined by insertion: each item, in input order,
//! goes after every item already placed whose key is not greater than its
//! own. Items with equal keys therefore keep their input order.
use vstd::prelude::*;

verus! {

// ---------------------------------------------------------------------------
// Integer keys
// ---------------------------------------------------------------------------
/// The first position at or after `j` whose key is greater than `k`, or
/// the length when there is none.
pub open spec fn first_greater_from<T>(s: Seq<(u64, T)>, k: u64, j: int) -> int
    decreases s.len() - j,
{
    if j >= s.len() || j < 0 {
        s.len() as int
    } else if s[j].0 > k {
        j
    } else {
        first_greater_from(s, k, j + 1)
    }
}

/// `s` stably sorted by key.
pub open spec fn sort_by_key<T>(s: Seq<(u64, T)>) -> Seq<(u64, T)>
    decreases s.len(),
{
    if s.len() == 0 {
        s
    } else {
        let t = sort_by_key(s.drop_last());
        t.insert(first_greater_from(t, s.last().0, 0), s.last())
    }
}

/// The keys never decrease.
pub open spec fn keys_sorted<T>(s: Seq<(u64, T)>) -> bool {
    forall|i: int, j: int| 0 <= i <= j < s.len() ==> s[i].0 <= s[j].0
}

proof fn lemma_first_greater_bounds<T>(s: Seq<(u64, T)>, k: u64, j: int)
    requires
        0 <= j <= s.len(),
    ensures
        j <= first_greater_from(s, k, j) <= s.len(),
        forall|q: int| j <= q < first_greater_from(s, k, j) ==> s[q].0 <= k,
        first_greater_from(s, k, j) < s.len() ==> s[first_greater_from(s, k, j)].0 > k,
    decreases s.len() - j,
{
    if j < s.len() && s[j].0 <= k {
        lemma_first_greater_bounds(s, k, j + 1);
    }
}

/// Sorting orders the items by key and keeps every item: the result is a
/// permutation of the input whose keys never decrease.
pub proof fn law_sort_by_key_sorts<T>(s: Seq<(u64, T)>)
    ensures
        keys_sorted(sort_by_key(s)),
        sort_by_key(s).to_multiset() == s.to_multiset(),
        sort_by_key(s).len() == s.len(),
    decreases s.len(),
{
    broadcast use vstd::seq_lib::group_to_multiset_ensures;

    if s.len() > 0 {
        let t = sort_by_key(s.drop_last());
        law_sort_by_key_sorts(s.drop_last());
        let x = s.last();
        let p = first_greater_from(t, x.0, 0);
        lemma_first_greater_bounds(t, x.0, 0);
        let r = t.insert(p, x);
        assert forall|i: int, j: int| 0 <= i <= j < r.len() implies r[i].0 <= r[j].0 by {
            if j < p {
            } else if i > p {
            } else if i == p && j == p {
            } else if i == p {
                assert(r[j] == t[j - 1]);
            } else {
                assert(r[i] == t[i]);
                if j == p {
                } else {
                    assert(r[j] == t[j - 1]);
                }
            }
        }
        vstd::seq_lib::to_multiset_insert(t, p, x);
        assert(s =~= s.drop_last().push(x));
        vstd::seq_lib::to_multiset_build(s.drop_last(), x);
    }
}

fn first_greater<T>(s: &Vec<(u64, T)>, k: u64) -> (p: usize)
    ensures
        p == first_greater_from(s@, k, 0),
        p <= s@.len(),
{
    let mut j: usize = 0;
    while j < s.len() && s[j].0 <= k
        invariant
            j <= s@.len(),
            first_greater_from(s@, k, 0) == first_greater_from(s@, k, j as int),
        decreases s@.len() - j,
    {
        j = j + 1;
    }
    j
}

/// Stably sort items by their integer key.
pub fn stable_sort_by_key<T>(v: Vec<(u64, T)>) -> (r: Vec<(u64, T)>)
    ensures
        r@ == sort_by_key(v@),
{
    let ghost orig = v@;
    let n = v.len();
    let mut rest = v;
    let mut out: Vec<(u64, T)> = Vec::new();
    let mut i: usize = 0;
    assert(orig.take(0) =~= Seq::<(u64, T)>::empty());
    while rest.len() > 0
        invariant
            i + rest@.len() == orig.len() == n,
            rest@ == orig.skip(i as int),
            out@ == sort_by_key(orig.take(i as int)),
        decreases rest@.len(),
    {
        let x = rest.remove(0);
        proof {
            assert(x == orig[i as int]);
            assert(orig.take(i + 1).drop_last() =~= orig.take(i as int));
            assert(orig.take(i + 1).last() == orig[i as int]);
            assert(rest@ =~= orig.skip(i + 1));
        }
        let p = first_greater(&out, x.0);
        out.insert(p, x);
        i = i + 1;
    }
    assert(orig.take(i as int) =~= orig);
    out
}

// ---------------------------------------------------------------------------
// Text keys
// ---------------------------------------------------------------------------
/// `a` comes before `b` in lexicographic order of code points, comparing
/// from position `i`.
pub open spec fn text_less_from(a: Seq<char>, b: Seq<char>, i: int) -> bool
    decreases a.len() - i,
{
    if i < 0 || i >= a.len() {
        0 <= i < b.len()
    } else if i >= b.len() {
        false
    } else if a[i] != b[i] {
        (a[i] as u32) < (b[i] as u32)
    } else {
        text_less_from(a, b, i + 1)
    }
}

/// `a` comes before `b` in lexicographic order of code points (the order
/// of `str`'s `Ord`).
pub open spec fn text_less(a: Seq<char>, b: Seq<char>) -> bool {
    text_less_from(a, b, 0)
}

/// The first position at or after `j` whose key comes after `k`, or the
/// length when there is none.
pub open spec fn first_after_from<T>(s: Seq<(Seq<char>, T)>, k: Seq<char>, j: int) -> int
    decreases s.len() - j,
{
    if j >= s.len() || j < 0 {
        s.len() as int
    } else if text_less(k, s[j].0) {
        j
    } else {
        first_after_from(s, k, j + 1)
    }
}

/// `s` stably sorted by text key.
pub open spec fn sort_by_text<T>(s: Seq<(Seq<char>, T)>) -> Seq<(Seq<char>, T)>
    decreases s.len(),
{
    if s.len() == 0 {
        s
    } else {
        let t = sort_by_text(s.drop_last());
        t.insert(first_after_from(t, s.last().0, 0), s.last())
    }
}

/// Whether `a` comes before `b`.
pub fn text_before(a: &Vec<char>, b: &Vec<char>) -> (r: bool)
    ensures
        r == text_less(a@, b@),
{
    let mut i: usize = 0;
    while i < a.len() && i < b.len() && a[i] == b[i]
        invariant
            i <= a@.len(),
            i <= b@.len(),
            text_less(a@, b@) == text_less_from(a@, b@, i as int),
        decreases a@.len() - i,
    {
        i = i + 1;
    }
    if i >= a.len() {
        i < b.len()
    } else if i >= b.len() {
        false
    } else {
        (a[i] as u32) < (b[i] as u32)
    }
}

/// The views of text-keyed items.
pub open spec fn keyed_views<T>(v: Seq<(Vec<char>, T)>) -> Seq<(Seq<char>, T)> {
    v.map_values(|e: (Vec<char>, T)| (e.0@, e.1))
}

fn first_after<T>(s: &Vec<(Vec<char>, T)>, k: &Vec<char>) -> (p: usize)
    ensures
        p == first_after_from(keyed_views(s@), k@, 0),
        p <= s@.len(),
{
    let ghost sv = keyed_views(s@);
    let mut j: usize = 0;
    while j < s.len()
        invariant
            j <= s@.len(),
            sv == keyed_views(s@),
            first_after_from(sv, k@, 0) == first_after_from(sv, k@, j as int),
        decreases s@.len() - j,
    {
        assert(sv[j as int].0 == s@[j as int].0@);
        if text_before(k, &s[j].0) {
            return j;
        }
        j = j + 1;
    }
    j
}

/// Stably sort items by their text key.
pub fn stable_sort_by_text<T>(v: Vec<(Vec<char>, T)>) -> (r: Vec<(Vec<char>, T)>)
    ensures
        keyed_views(r@) == sort_by_text(keyed_views(v@)),
{
    let ghost orig = keyed_views(v@);
    let n = v.len();
    let mut rest = v;
    let mut out: Vec<(Vec<char>, T)> = Vec::new();
    let mut i: usize = 0;
    assert(orig.take(0) =~= Seq::<(Seq<char>, T)>::empty());
    assert(keyed_views(out@) =~= sort_by_text(orig.take(0)));
    while rest.len() > 0
        invariant
            i + rest@.len() == orig.len() == n,
            keyed_views(rest@) == orig.skip(i as int),
            keyed_views(out@) == sort_by_text(orig.take(i as int)),
        decreases rest@.len(),
    {
        let ghost before_rest = rest@;
        let x = rest.remove(0);
        proof {
            assert(keyed_views(before_rest)[0] == (x.0@, x.1));
            assert(orig.skip(i as int)[0] == orig[i as int]);
            assert(orig.take(i + 1).drop_last() =~= orig.take(i as int));
            assert(orig.take(i + 1).last() == orig[i as int]);
            assert(keyed_views(rest@) =~= orig.skip(i + 1)) by {
                assert forall|q: int| 0 <= q < rest@.len() implies keyed_views(rest@)[q] == orig.skip(
                    i + 1,
                )[q] by {
                    assert(rest@[q] == before_rest[q + 1]);
                    assert(keyed_views(before_rest)[q + 1] == orig.skip(i as int)[q + 1]);
                }
            }
        }
        let p = first_after(&out, &x.0);
        let ghost before_out = out@;
        let ghost xv = (x.0@, x.1);
        out.insert(p, x);
        proof {
            assert(keyed_views(out@) =~= keyed_views(before_out).insert(p as int, xv));
        }
        i = i + 1;
    }
    assert(orig.take(i as int) =~= orig);
    out
}

// ---------------------------------------------------------------------------
// Sorting does not look at the payload
// ---------------------------------------------------------------------------
proof fn lemma_first_greater_same_keys<T, U>(s: Seq<(u64, T)>, t: Seq<(u64, U)>, k: u64, j: int)
    requires
        s.len() == t.len(),
        forall|i: int| 0 <= i < s.len() ==> #[trigger] s[i].0 == t[i].0,
    ensures
        first_greater_from(s, k, j) == first_greater_from(t, k, j),
    decreases s.len() - j,
{
    if 0 <= j < s.len() && s[j].0 <= k {
        lemma_first_greater_same_keys(s, t, k, j + 1);
    }
}

/// Sorting two sequences with the same keys moves their items alike:
/// payloads related position by position stay related.
pub proof fn lemma_sort_by_key_same_keys<T, U>(s: Seq<(u64, T)>, t: Seq<(u64, U)>, rel: spec_fn(T, U) -> bool)
    requires
        s.len() == t.len(),
        forall|i: int| 0 <= i < s.len() ==> #[trigger] s[i].0 == t[i].0 && rel(s[i].1, t[i].1),
    ensures
        sort_by_key(s).len() == sort_by_key(t).len() == s.len(),
        forall|i: int|
            0 <= i < s.len() ==> #[trigger] sort_by_key(s)[i].0 == sort_by_key(t)[i].0 && rel(
                sort_by_key(s)[i].1,
                sort_by_key(t)[i].1,
            ),
    decreases s.len(),
{
    if s.len() > 0 {
        let s0 = s.drop_last();
        let t0 = t.drop_last();
        lemma_sort_by_key_same_keys(s0, t0, rel);
        let a = sort_by_key(s0);
        let b = sort_by_key(t0);
        lemma_first_greater_same_keys(a, b, s.last().0, 0);
        lemma_first_greater_bounds(a, s.last().0, 0);
        let p = first_greater_from(a, s.last().0, 0);
        let ra = a.insert(p, s.last());
        let rb = b.insert(p, t.last());
        assert forall|i: int| 0 <= i < s.len() implies #[trigger] ra[i].0 == rb[i].0 && rel(ra[i].1, rb[i].1) by {
            if i < p {
            } else if i == p {
            } else {
                assert(ra[i] == a[i - 1]);
                assert(rb[i] == b[i - 1]);
            }
        }
    }
}

proof fn lemma_first_after_same_keys<T, U>(s: Seq<(Seq<char>, T)>, t: Seq<(Seq<char>, U)>, k: Seq<char>, j: int)
    requires
        s.len() == t.len(),
        forall|i: int| 0 <= i < s.len() ==> #[trigger] s[i].0 == t[i].0,
    ensures
        first_after_from(s, k, j) == first_after_from(t, k, j),
        0 <= j <= s.len() ==> j <= first_after_from(s, k, j) <= s.len(),
    decreases s.len() - j,
{
    if 0 <= j < s.len() && !text_less(k, s[j].0) {
        lemma_first_after_same_keys(s, t, k, j + 1);
    }
}

/// Sorting by text key moves items of two sequences with the same keys
/// alike.
pub proof fn lemma_sort_by_text_same_keys<T, U>(
    s: Seq<(Seq<char>, T)>,
    t: Seq<(Seq<char>, U)>,
    rel: spec_fn(T, U) -> bool,
)
    requires
        s.len() == t.len(),
        forall|i: int| 0 <= i < s.len() ==> #[trigger] s[i].0 == t[i].0 && rel(s[i].1, t[i].1),
    ensures
        sort_by_text(s).len() == sort_by_text(t).len() == s.len(),
        forall|i: int|
            0 <= i < s.len() ==> #[trigger] sort_by_text(s)[i].0 == sort_by_text(t)[i].0 && rel(
                sort_by_text(s)[i].1,
                sort_by_text(t)[i].1,
            ),
    decreases s.len(),
{
    if s.len() > 0 {
        let s0 = s.drop_last();
        let t0 = t.drop_last();
        lemma_sort_by_text_same_keys(s0, t0, rel);
        let a = sort_by_text(s0);
        let b = sort_by_text(t0);
        lemma_first_after_same_keys(a, b, s.last().0, 0);
        let p = first_after_from(a, s.last().0, 0);
        let ra = a.insert(p, s.last());
        let rb = b.insert(p, t.last());
        assert forall|i: int| 0 <= i < s.len() implies #[trigger] ra[i].0 == rb[i].0 && rel(ra[i].1, rb[i].1) by {
            if i < p {
            } else if i == p {
            } else {
                assert(ra[i] == a[i - 1]);
                assert(rb[i] == b[i - 1]);
            }
        }
    }
}

} // verus!
