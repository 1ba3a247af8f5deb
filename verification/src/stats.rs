//! Statistics of a card collection: how often each card type, color,
//! subtype and keyword occurs, how many cards have abilities of each kind,
//! and how mana values are spread, as the lines of a report.
//!
//! The cards are read elsewhere; each arrives here as a `CardSummary` of
//! plain names and flags.
use crate::text::{dec, push_chars, push_dec, push_str, to_string};
use vstd::prelude::*;

verus! {

// ---------------------------------------------------------------------------
// Tallies
// ---------------------------------------------------------------------------
/// The views of some strings.
pub open spec fn texts(v: Seq<String>) -> Seq<Seq<char>> {
    v.map_values(|s: String| s@)
}

/// How many times `name` occurs in `items`.
pub open spec fn occurrences(items: Seq<Seq<char>>, name: Seq<char>) -> nat
    decreases items.len(),
{
    if items.len() == 0 {
        0
    } else {
        occurrences(items.drop_last(), name) + if items.last() == name {
            1nat
        } else {
            0nat
        }
    }
}

/// The distinct names of `items`, in order of first appearance.
pub open spec fn distinct(items: Seq<Seq<char>>) -> Seq<Seq<char>>
    decreases items.len(),
{
    if items.len() == 0 {
        Seq::empty()
    } else {
        let d = distinct(items.drop_last());
        if d.contains(items.last()) {
            d
        } else {
            d.push(items.last())
        }
    }
}

/// Each distinct name of `items`, in order of first appearance, with the
/// number of times it occurs.
pub open spec fn tally_of(items: Seq<Seq<char>>) -> Seq<(Seq<char>, nat)> {
    distinct(items).map_values(|n: Seq<char>| (n, occurrences(items, n)))
}

/// The views of name and count pairs.
pub open spec fn count_views(v: Seq<(String, usize)>) -> Seq<(Seq<char>, nat)> {
    v.map_values(|e: (String, usize)| (e.0@, e.1 as nat))
}

proof fn lemma_occurrences_bound(items: Seq<Seq<char>>, name: Seq<char>)
    ensures
        occurrences(items, name) <= items.len(),
    decreases items.len(),
{
    if items.len() > 0 {
        lemma_occurrences_bound(items.drop_last(), name);
    }
}

proof fn lemma_distinct(items: Seq<Seq<char>>)
    ensures
        forall|n: Seq<char>| #[trigger] distinct(items).contains(n) <==> occurrences(items, n) > 0,
        forall|i: int, j: int| 0 <= i < j < distinct(items).len() ==> distinct(items)[i] != distinct(items)[j],
    decreases items.len(),
{
    if items.len() > 0 {
        let s = items.drop_last();
        let x = items.last();
        lemma_distinct(s);
        let d = distinct(s);
        if !d.contains(x) {
            assert forall|n: Seq<char>| #[trigger] d.push(x).contains(n) <==> (d.contains(n) || n == x) by {
                if d.push(x).contains(n) {
                    let k = choose|k: int| 0 <= k < d.push(x).len() && d.push(x)[k] == n;
                    if k < d.len() {
                        assert(d[k] == n);
                    }
                }
                if d.contains(n) {
                    let k = choose|k: int| 0 <= k < d.len() && d[k] == n;
                    assert(d.push(x)[k] == n);
                }
                if n == x {
                    assert(d.push(x)[d.len() as int] == n);
                }
            }
            assert forall|i: int, j: int| 0 <= i < j < d.push(x).len() implies d.push(x)[i] != d.push(x)[j] by {
                if j == d.len() {
                    assert(d.push(x)[i] == d[i]);
                    if d[i] == x {
                        assert(d.contains(x));
                    }
                }
            }
        }
    }
}

fn find_name(out: &Vec<(String, usize)>, name: &String) -> (r: Option<usize>)
    ensures
        match r {
            Some(j) => j < out@.len() && out@[j as int].0@ == name@,
            None => forall|k: int| 0 <= k < out@.len() ==> out@[k].0@ != name@,
        },
{
    let mut j: usize = 0;
    while j < out.len()
        invariant
            j <= out@.len(),
            forall|k: int| 0 <= k < j ==> out@[k].0@ != name@,
        decreases out@.len() - j,
    {
        if out[j].0 == *name {
            return Some(j);
        }
        j = j + 1;
    }
    None
}

/// Each distinct name of `items`, in order of first appearance, with the
/// number of times it occurs.
pub fn tally(items: &Vec<String>) -> (r: Vec<(String, usize)>)
    ensures
        count_views(r@) == tally_of(texts(items@)),
{
    let mut out: Vec<(String, usize)> = Vec::new();
    let mut i: usize = 0;
    assert(texts(items@).take(0) =~= Seq::<Seq<char>>::empty());
    assert(count_views(out@) =~= tally_of(texts(items@).take(0)));
    while i < items.len()
        invariant
            i <= items@.len(),
            count_views(out@) == tally_of(texts(items@).take(i as int)),
        decreases items@.len() - i,
    {
        let ghost s = texts(items@).take(i as int);
        let ghost s2 = texts(items@).take(i + 1);
        let ghost x = items@[i as int]@;
        proof {
            assert(s2.drop_last() =~= s);
            assert(s2.last() == x);
            lemma_distinct(s);
            lemma_occurrences_bound(s, x);
            assert forall|n: Seq<char>| #[trigger] occurrences(s2, n) == occurrences(s, n) + if n == x {
                1nat
            } else {
                0nat
            } by {}
        }
        let ghost d = distinct(s);
        match find_name(&out, &items[i]) {
            Some(j) => {
                proof {
                    assert(count_views(out@).len() == out@.len());
                    assert(tally_of(s).len() == d.len());
                    assert(count_views(out@)[j as int] == tally_of(s)[j as int]);
                    assert(count_views(out@)[j as int] == (d[j as int], occurrences(s, d[j as int])));
                    assert(d[j as int] == x);
                    assert(d.contains(x));
                    assert(distinct(s2) == d);
                }
                let c = out[j].1;
                let name = out[j].0.clone();
                let ghost old_out = out@;
                out.set(j, (name, c + 1));
                proof {
                    assert forall|k: int| 0 <= k < d.len() implies #[trigger] count_views(out@)[k] == (
                        d[k],
                        occurrences(s2, d[k]),
                    ) by {
                        assert(count_views(old_out)[k] == tally_of(s)[k]);
                        if k != j {
                            assert(d[k] != d[j as int]);
                            assert(out@[k] == old_out[k]);
                        }
                    }
                    assert(count_views(out@) =~= tally_of(s2));
                }
            },
            None => {
                proof {
                    assert(!d.contains(x)) by {
                        if d.contains(x) {
                            let k = choose|k: int| 0 <= k < d.len() && d[k] == x;
                            assert(count_views(out@).len() == out@.len());
                            assert(tally_of(s).len() == d.len());
                            assert(count_views(out@)[k] == tally_of(s)[k]);
                            assert(out@[k].0@ == x);
                        }
                    }
                    assert(distinct(s2) == d.push(x));
                    assert(occurrences(s, x) == 0);
                }
                let ghost old_out = out@;
                proof {
                    assert(count_views(old_out).len() == old_out.len());
                    assert(tally_of(s).len() == d.len());
                }
                out.push((items[i].clone(), 1));
                proof {
                    assert(out@ == old_out.push(out@.last()));
                    assert forall|k: int| 0 <= k < d.len() implies #[trigger] count_views(out@)[k] == (
                        d[k],
                        occurrences(s2, d[k]),
                    ) by {
                        assert(count_views(old_out)[k] == tally_of(s)[k]);
                        assert(out@[k] == old_out[k]);
                        assert(d[k] != x) by {
                            if d[k] == x {
                                assert(d.contains(x));
                            }
                        }
                    }
                    assert(count_views(out@) =~= tally_of(s2));
                }
            },
        }
        i = i + 1;
    }
    assert(texts(items@).take(i as int) =~= texts(items@));
    out
}

// ---------------------------------------------------------------------------
// Ranking
// ---------------------------------------------------------------------------
/// The first position at or after `j` whose count is smaller than `c`, or
/// the length when there is none.
pub open spec fn first_smaller_from(s: Seq<(Seq<char>, nat)>, c: nat, j: int) -> int
    decreases s.len() - j,
{
    if j >= s.len() || j < 0 {
        s.len() as int
    } else if s[j].1 < c {
        j
    } else {
        first_smaller_from(s, c, j + 1)
    }
}

/// `s` ordered by count, largest first; entries with equal counts keep
/// their order.
pub open spec fn rank(s: Seq<(Seq<char>, nat)>) -> Seq<(Seq<char>, nat)>
    decreases s.len(),
{
    if s.len() == 0 {
        s
    } else {
        let t = rank(s.drop_last());
        t.insert(first_smaller_from(t, s.last().1, 0), s.last())
    }
}

/// The counts never increase.
pub open spec fn counts_descending(s: Seq<(Seq<char>, nat)>) -> bool {
    forall|i: int, j: int| 0 <= i <= j < s.len() ==> s[i].1 >= s[j].1
}

proof fn lemma_first_smaller_bounds(s: Seq<(Seq<char>, nat)>, c: nat, j: int)
    requires
        0 <= j <= s.len(),
    ensures
        j <= first_smaller_from(s, c, j) <= s.len(),
        forall|q: int| j <= q < first_smaller_from(s, c, j) ==> s[q].1 >= c,
        first_smaller_from(s, c, j) < s.len() ==> s[first_smaller_from(s, c, j)].1 < c,
    decreases s.len() - j,
{
    if j < s.len() && s[j].1 >= c {
        lemma_first_smaller_bounds(s, c, j + 1);
    }
}

/// Ranking orders the entries by count, largest first, and keeps every
/// entry: the result is a permutation of the input whose counts never
/// increase.
pub proof fn law_rank_orders_by_count(s: Seq<(Seq<char>, nat)>)
    ensures
        counts_descending(rank(s)),
        rank(s).to_multiset() == s.to_multiset(),
        rank(s).len() == s.len(),
    decreases s.len(),
{
    broadcast use vstd::seq_lib::group_to_multiset_ensures;

    if s.len() > 0 {
        let t = rank(s.drop_last());
        law_rank_orders_by_count(s.drop_last());
        let x = s.last();
        let p = first_smaller_from(t, x.1, 0);
        lemma_first_smaller_bounds(t, x.1, 0);
        let r = t.insert(p, x);
        assert forall|i: int, j: int| 0 <= i <= j < r.len() implies r[i].1 >= r[j].1 by {
            if j < p {
            } else if i > p {
            } else if i == p && j == p {
            } else if i == p {
                assert(r[j] == t[j - 1]);
            } else {
                assert(r[i] == t[i]);
                if j == p {
                } else {
                    assert(r[j] == t[j - 1]);
                }
            }
        }
        vstd::seq_lib::to_multiset_insert(t, p, x);
        assert(s =~= s.drop_last().push(x));
        vstd::seq_lib::to_multiset_build(s.drop_last(), x);
    }
}

fn first_smaller(s: &Vec<(String, usize)>, c: usize) -> (p: usize)
    ensures
        p == first_smaller_from(count_views(s@), c as nat, 0),
        p <= s@.len(),
{
    let mut j: usize = 0;
    while j < s.len() && s[j].1 >= c
        invariant
            j <= s@.len(),
            first_smaller_from(count_views(s@), c as nat, 0) == first_smaller_from(count_views(s@), c as nat, j as int),
        decreases s@.len() - j,
    {
        j = j + 1;
    }
    j
}

/// Order name and count pairs by count, largest first; pairs with equal
/// counts keep their order.
pub fn rank_by_count(v: Vec<(String, usize)>) -> (r: Vec<(String, usize)>)
    ensures
        count_views(r@) == rank(count_views(v@)),
{
    let ghost orig = count_views(v@);
    let n = v.len();
    let mut rest = v;
    let mut out: Vec<(String, usize)> = Vec::new();
    let mut i: usize = 0;
    assert(orig.take(0) =~= Seq::<(Seq<char>, nat)>::empty());
    assert(count_views(out@) =~= rank(orig.take(0)));
    assert(count_views(rest@) =~= orig.skip(0));
    while rest.len() > 0
        invariant
            i + rest@.len() == orig.len() == n,
            count_views(rest@) == orig.skip(i as int),
            count_views(out@) == rank(orig.take(i as int)),
        decreases rest@.len(),
    {
        let ghost before = rest@;
        let x = rest.remove(0);
        proof {
            assert(count_views(before)[0] == orig[i as int]);
            assert(orig.take(i + 1).drop_last() =~= orig.take(i as int));
            assert(orig.take(i + 1).last() == orig[i as int]);
            assert(rest@ =~= before.subrange(1, before.len() as int));
            assert forall|k: int| 0 <= k < rest@.len() implies #[trigger] count_views(rest@)[k] == orig.skip(i + 1)[k] by {
                assert(count_views(before)[k + 1] == orig.skip(i as int)[k + 1]);
            }
            assert(count_views(rest@) =~= orig.skip(i + 1));
        }
        let p = first_smaller(&out, x.1);
        let ghost prev = out@;
        out.insert(p, x);
        proof {
            assert(count_views(out@) =~= count_views(prev).insert(p as int, (x.0@, x.1 as nat)));
        }
        i = i + 1;
    }
    assert(orig.take(i as int) =~= orig);
    out
}

// ---------------------------------------------------------------------------
// Cards
// ---------------------------------------------------------------------------
/// What the statistics read of a card.
#[derive(Debug, Clone)]
pub struct CardSummary {
    pub types: Vec<String>,
    pub colors: Vec<String>,
    pub subtypes: Vec<String>,
    /// The keyword of each keyword ability (without its parameters).
    pub keywords: Vec<String>,
    pub has_raw_abilities: bool,
    pub has_raw_keywords: bool,
    pub has_triggers: bool,
    pub has_activated_abilities: bool,
    /// The mana value.
    pub cmc: u32,
}

/// A list of names that every card has.
#[derive(Debug, Clone, Copy, PartialEq, Eq, Structural)]
pub enum NameField {
    Types,
    Colors,
    Subtypes,
    Keywords,
}

/// A yes-or-no property of a card.
#[derive(Debug, Clone, Copy, PartialEq, Eq, Structural)]
pub enum CardFlag {
    RawAbilities,
    RawKeywords,
    Triggers,
    ActivatedAbilities,
}

/// The names of `card` in `field`.
pub open spec fn names_of(card: CardSummary, field: NameField) -> Seq<Seq<char>> {
    match field {
        NameField::Types => texts(card.types@),
        NameField::Colors => texts(card.colors@),
        NameField::Subtypes => texts(card.subtypes@),
        NameField::Keywords => texts(card.keywords@),
    }
}

/// The names of all `cards` in `field`, card by card.
pub open spec fn all_names(cards: Seq<CardSummary>, field: NameField) -> Seq<Seq<char>>
    decreases cards.len(),
{
    if cards.len() == 0 {
        Seq::empty()
    } else {
        all_names(cards.drop_last(), field) + names_of(cards.last(), field)
    }
}

/// Whether `card` has `flag`.
pub open spec fn has_flag(card: CardSummary, flag: CardFlag) -> bool {
    match flag {
        CardFlag::RawAbilities => card.has_raw_abilities,
        CardFlag::RawKeywords => card.has_raw_keywords,
        CardFlag::Triggers => card.has_triggers,
        CardFlag::ActivatedAbilities => card.has_activated_abilities,
    }
}

/// How many of `cards` have `flag`.
pub open spec fn cards_with(cards: Seq<CardSummary>, flag: CardFlag) -> nat
    decreases cards.len(),
{
    if cards.len() == 0 {
        0
    } else {
        cards_with(cards.drop_last(), flag) + if has_flag(cards.last(), flag) {
            1nat
        } else {
            0nat
        }
    }
}

/// The mana value bucket of a card: its mana value, with 8 and more
/// together in bucket 8.
pub open spec fn bucket(cmc: u32) -> nat {
    if cmc >= 8 {
        8
    } else {
        cmc as nat
    }
}

/// How many of `cards` fall in mana value bucket `b`.
pub open spec fn in_bucket(cards: Seq<CardSummary>, b: nat) -> nat
    decreases cards.len(),
{
    if cards.len() == 0 {
        0
    } else {
        in_bucket(cards.drop_last(), b) + if bucket(cards.last().cmc) == b {
            1nat
        } else {
            0nat
        }
    }
}

proof fn lemma_counts_bounded(cards: Seq<CardSummary>, flag: CardFlag, b: nat)
    ensures
        cards_with(cards, flag) <= cards.len(),
        in_bucket(cards, b) <= cards.len(),
    decreases cards.len(),
{
    if cards.len() > 0 {
        lemma_counts_bounded(cards.drop_last(), flag, b);
    }
}

fn field_names(card: &CardSummary, field: NameField) -> (r: &Vec<String>)
    ensures
        texts(r@) == names_of(*card, field),
{
    match field {
        NameField::Types => &card.types,
        NameField::Colors => &card.colors,
        NameField::Subtypes => &card.subtypes,
        NameField::Keywords => &card.keywords,
    }
}

/// The names of all `cards` in `field`, card by card.
pub fn collect_names(cards: &[CardSummary], field: NameField) -> (r: Vec<String>)
    ensures
        texts(r@) == all_names(cards@, field),
{
    let mut out: Vec<String> = Vec::new();
    let mut i: usize = 0;
    assert(cards@.take(0) =~= Seq::<CardSummary>::empty());
    while i < cards.len()
        invariant
            i <= cards@.len(),
            texts(out@) == all_names(cards@.take(i as int), field),
        decreases cards@.len() - i,
    {
        let names = field_names(&cards[i], field);
        let ghost start = out@;
        let mut k: usize = 0;
        while k < names.len()
            invariant
                k <= names@.len(),
                texts(names@) == names_of(cards@[i as int], field),
                texts(out@) == texts(start) + texts(names@).take(k as int),
            decreases names@.len() - k,
        {
            let ghost prev = out@;
            let name = names[k].clone();
            out.push(name);
            proof {
                assert(texts(out@) =~= texts(prev).push(name@));
                assert(texts(names@).take(k + 1) =~= texts(names@).take(k as int).push(names@[k as int]@));
                assert(texts(out@) =~= texts(start) + texts(names@).take(k + 1));
            }
            k = k + 1;
        }
        proof {
            assert(texts(names@).take(k as int) =~= texts(names@));
            assert(cards@.take(i + 1).drop_last() =~= cards@.take(i as int));
            assert(cards@.take(i + 1).last() == cards@[i as int]);
        }
        i = i + 1;
    }
    assert(cards@.take(i as int) =~= cards@);
    out
}

fn flag_of(card: &CardSummary, flag: CardFlag) -> (b: bool)
    ensures
        b == has_flag(*card, flag),
{
    match flag {
        CardFlag::RawAbilities => card.has_raw_abilities,
        CardFlag::RawKeywords => card.has_raw_keywords,
        CardFlag::Triggers => card.has_triggers,
        CardFlag::ActivatedAbilities => card.has_activated_abilities,
    }
}

/// How many of `cards` have `flag`.
pub fn count_cards_with(cards: &[CardSummary], flag: CardFlag) -> (n: usize)
    ensures
        n == cards_with(cards@, flag),
{
    let mut n: usize = 0;
    let mut i: usize = 0;
    assert(cards@.take(0) =~= Seq::<CardSummary>::empty());
    while i < cards.len()
        invariant
            i <= cards@.len(),
            n == cards_with(cards@.take(i as int), flag),
        decreases cards@.len() - i,
    {
        proof {
            assert(cards@.take(i + 1).drop_last() =~= cards@.take(i as int));
            assert(cards@.take(i + 1).last() == cards@[i as int]);
            lemma_counts_bounded(cards@.take(i as int), flag, 0);
        }
        if flag_of(&cards[i], flag) {
            n = n + 1;
        }
        i = i + 1;
    }
    assert(cards@.take(i as int) =~= cards@);
    n
}

/// How many of `cards` fall in each mana value bucket, 0 to 8.
pub fn cmc_histogram(cards: &[CardSummary]) -> (r: Vec<usize>)
    ensures
        r@.len() == 9,
        forall|b: int| 0 <= b < 9 ==> r@[b] == in_bucket(cards@, b as nat),
{
    let mut r: Vec<usize> = vec![0, 0, 0, 0, 0, 0, 0, 0, 0];
    let mut i: usize = 0;
    assert(cards@.take(0) =~= Seq::<CardSummary>::empty());
    while i < cards.len()
        invariant
            i <= cards@.len(),
            r@.len() == 9,
            forall|b: int| 0 <= b < 9 ==> r@[b] == in_bucket(cards@.take(i as int), b as nat),
        decreases cards@.len() - i,
    {
        let cmc = cards[i].cmc;
        let b: usize = if cmc >= 8 {
            8
        } else {
            cmc as usize
        };
        proof {
            assert(cards@.take(i + 1).drop_last() =~= cards@.take(i as int));
            assert(cards@.take(i + 1).last() == cards@[i as int]);
            lemma_counts_bounded(cards@.take(i as int), CardFlag::Triggers, b as nat);
        }
        let c = r[b];
        r.set(b, c + 1);
        i = i + 1;
    }
    assert(cards@.take(i as int) =~= cards@);
    r
}

// ---------------------------------------------------------------------------
// The report
// ---------------------------------------------------------------------------
/// `n` spaces.
pub open spec fn spaces(n: nat) -> Seq<char> {
    Seq::new(n, |i: int| ' ')
}

/// `s` padded with spaces on the right to `width` characters (`{:width}`
/// for text).
pub open spec fn pad_right(s: Seq<char>, width: nat) -> Seq<char> {
    if s.len() >= width {
        s
    } else {
        s + spaces((width - s.len()) as nat)
    }
}

/// `s` padded with spaces on the left to `width` characters (`{:width}`
/// for numbers).
pub open spec fn pad_left(s: Seq<char>, width: nat) -> Seq<char> {
    if s.len() >= width {
        s
    } else {
        spaces((width - s.len()) as nat) + s
    }
}

fn push_spaces(buf: &mut Vec<char>, n: usize)
    ensures
        final(buf)@ == old(buf)@ + spaces(n as nat),
{
    let mut k: usize = 0;
    while k < n
        invariant
            k <= n,
            buf@ == old(buf)@ + spaces(k as nat),
        decreases n - k,
    {
        buf.push(' ');
        k = k + 1;
        assert(buf@ =~= old(buf)@ + spaces(k as nat));
    }
}

/// Append `s` padded on the right to `width` characters.
pub fn push_padded_right(buf: &mut Vec<char>, s: &Vec<char>, width: usize)
    ensures
        final(buf)@ == old(buf)@ + pad_right(s@, width as nat),
{
    push_chars(buf, s);
    if s.len() < width {
        push_spaces(buf, width - s.len());
    }
}

/// Append `s` padded on the left to `width` characters.
pub fn push_padded_left(buf: &mut Vec<char>, s: &Vec<char>, width: usize)
    ensures
        final(buf)@ == old(buf)@ + pad_left(s@, width as nat),
{
    if s.len() < width {
        push_spaces(buf, width - s.len());
    }
    push_chars(buf, s);
    assert(buf@ =~= old(buf)@ + pad_left(s@, width as nat));
}

/// A row of a count table: the name padded to `width`, then the count
/// right-aligned in six characters.
pub open spec fn count_row(name: Seq<char>, count: nat, width: nat) -> Seq<char> {
    "  "@ + pad_right(name, width) + " "@ + pad_left(dec(count), 6)
}

/// The rows of a count table.
pub open spec fn count_rows(s: Seq<(Seq<char>, nat)>, width: nat) -> Seq<Seq<char>> {
    s.map_values(|e: (Seq<char>, nat)| count_row(e.0, e.1, width))
}

/// The first `n` entries of `s` (all when it has fewer).
pub open spec fn first_n<T>(s: Seq<T>, n: nat) -> Seq<T> {
    if s.len() <= n {
        s
    } else {
        s.take(n as int)
    }
}

fn push_line(lines: &mut Vec<String>, buf: &Vec<char>)
    ensures
        texts(final(lines)@) == texts(old(lines)@).push(buf@),
{
    let line = to_string(buf);
    lines.push(line);
    assert(texts(lines@) =~= texts(old(lines)@).push(buf@));
}

fn push_text(lines: &mut Vec<String>, text: &str)
    ensures
        texts(final(lines)@) == texts(old(lines)@).push(text@),
{
    lines.push(text.to_owned());
    assert(texts(lines@) =~= texts(old(lines)@).push(text@));
}

/// Append the rows of the first `limit` entries of `ranked`.
pub fn push_count_rows(lines: &mut Vec<String>, ranked: &Vec<(String, usize)>, limit: usize, width: usize)
    ensures
        texts(final(lines)@) == texts(old(lines)@) + count_rows(first_n(count_views(ranked@), limit as nat), width as nat),
{
    let n = if ranked.len() <= limit {
        ranked.len()
    } else {
        limit
    };
    let ghost rows = count_rows(first_n(count_views(ranked@), limit as nat), width as nat);
    assert(rows.len() == n);
    let mut i: usize = 0;
    while i < n
        invariant
            n <= ranked@.len(),
            i <= n,
            rows == count_rows(first_n(count_views(ranked@), limit as nat), width as nat),
            rows.len() == n,
            texts(lines@) == texts(old(lines)@) + rows.take(i as int),
        decreases n - i,
    {
        let mut buf: Vec<char> = Vec::new();
        push_str(&mut buf, "  ");
        push_padded_right(&mut buf, &crate::text::chars_of(ranked[i].0.as_str()), width);
        push_str(&mut buf, " ");
        push_padded_left(&mut buf, &crate::text::dec_chars(ranked[i].1 as u64), 6);
        proof {
            assert(rows[i as int] == count_row(ranked@[i as int].0@, ranked@[i as int].1 as nat, width as nat));
            assert(buf@ =~= rows[i as int]);
        }
        push_line(lines, &buf);
        proof {
            assert(rows.take(i + 1) =~= rows.take(i as int).push(rows[i as int]));
        }
        i = i + 1;
    }
    assert(rows.take(i as int) =~= rows);
}

/// The names of `field` among `cards`, ranked by how often they occur.
pub open spec fn ranked(cards: Seq<CardSummary>, field: NameField) -> Seq<(Seq<char>, nat)> {
    rank(tally_of(all_names(cards, field)))
}

/// How many different names `field` has among `cards`.
pub open spec fn distinct_count(cards: Seq<CardSummary>, field: NameField) -> nat {
    distinct(all_names(cards, field)).len()
}

/// A line of the ability statistics.
pub open spec fn flag_line(label: Seq<char>, n: nat) -> Seq<char> {
    label + pad_left(dec(n), 6)
}

/// The line of mana value bucket `b` holding `n` cards.
pub open spec fn cmc_line(b: nat, n: nat) -> Seq<char> {
    if b < 8 {
        "  CMC "@ + dec(b) + ":                     "@ + pad_left(dec(n), 6)
    } else {
        "  CMC 8+:                    "@ + pad_left(dec(n), 6)
    }
}

/// The lines of the mana value distribution, bucket 0 to 8.
pub open spec fn cmc_lines(cards: Seq<CardSummary>) -> Seq<Seq<char>> {
    Seq::new(9, |b: int| cmc_line(b as nat, in_bucket(cards, b as nat)))
}

fn ranked_names(cards: &[CardSummary], field: NameField) -> (r: (Vec<(String, usize)>, usize))
    ensures
        count_views(r.0@) == ranked(cards@, field),
        r.1 == distinct_count(cards@, field),
{
    let names = collect_names(cards, field);
    let t = tally(&names);
    let n = t.len();
    proof {
        assert(count_views(t@).len() == t@.len());
    }
    (rank_by_count(t), n)
}

fn push_flag_line(lines: &mut Vec<String>, label: &str, n: usize)
    ensures
        texts(final(lines)@) == texts(old(lines)@).push(flag_line(label@, n as nat)),
{
    let mut buf = crate::text::chars_of(label);
    push_padded_left(&mut buf, &crate::text::dec_chars(n as u64), 6);
    push_line(lines, &buf);
}

fn push_cmc_lines(lines: &mut Vec<String>, cards: &[CardSummary])
    ensures
        texts(final(lines)@) == texts(old(lines)@) + cmc_lines(cards@),
{
    let counts = cmc_histogram(cards);
    let mut b: usize = 0;
    while b < 9
        invariant
            b <= 9,
            counts@.len() == 9,
            forall|q: int| 0 <= q < 9 ==> counts@[q] == in_bucket(cards@, q as nat),
            texts(lines@) == texts(old(lines)@) + cmc_lines(cards@).take(b as int),
        decreases 9 - b,
    {
        let mut buf: Vec<char> = Vec::new();
        if b < 8 {
            push_str(&mut buf, "  CMC ");
            push_dec(&mut buf, b as u64);
            push_str(&mut buf, ":                     ");
        } else {
            push_str(&mut buf, "  CMC 8+:                    ");
        }
        push_padded_left(&mut buf, &crate::text::dec_chars(counts[b] as u64), 6);
        proof {
            assert(buf@ =~= cmc_lines(cards@)[b as int]);
            assert(cmc_lines(cards@).take(b + 1) =~= cmc_lines(cards@).take(b as int).push(cmc_lines(cards@)[b as int]));
        }
        push_line(lines, &buf);
        b = b + 1;
    }
    assert(cmc_lines(cards@).take(9) =~= cmc_lines(cards@));
}

/// The statistics report of `cards`, line by line: the card types and the
/// colors by frequency, the 30 most frequent subtypes and keywords, how
/// many cards have each kind of ability, and the mana value distribution.
pub open spec fn report(cards: Seq<CardSummary>) -> Seq<Seq<char>> {
    if cards.len() == 0 {
        seq!["No cards loaded."@]
    } else {
        seq!["=== Card Database Statistics ==="@, Seq::empty(), "--- Card Types ---"@] + count_rows(
            ranked(cards, NameField::Types),
            12,
        ) + seq![Seq::empty(), "--- Colors ---"@] + count_rows(ranked(cards, NameField::Colors), 12) + seq![
            Seq::empty(),
            "--- Top 30 Subtypes ---"@,
            "  Total distinct subtypes: "@ + dec(distinct_count(cards, NameField::Subtypes)),
        ] + count_rows(first_n(ranked(cards, NameField::Subtypes), 30), 20) + seq![
            Seq::empty(),
            "--- Top 30 Keywords ---"@,
            "  Total distinct keywords: "@ + dec(distinct_count(cards, NameField::Keywords)),
        ] + count_rows(first_n(ranked(cards, NameField::Keywords), 30), 25) + seq![
            Seq::empty(),
            "--- Ability Statistics ---"@,
            flag_line("  Cards with raw abilities:  "@, cards_with(cards, CardFlag::RawAbilities)),
            flag_line("  Cards with keywords:       "@, cards_with(cards, CardFlag::RawKeywords)),
            flag_line("  Cards with triggers:       "@, cards_with(cards, CardFlag::Triggers)),
            flag_line("  Cards with activated abs:  "@, cards_with(cards, CardFlag::ActivatedAbilities)),
            Seq::empty(),
            "--- Mana Cost Distribution ---"@,
        ] + cmc_lines(cards)
    }
}

fn push_total_line(lines: &mut Vec<String>, label: &str, n: usize)
    ensures
        texts(final(lines)@) == texts(old(lines)@).push(label@ + dec(n as nat)),
{
    let mut buf = crate::text::chars_of(label);
    push_dec(&mut buf, n as u64);
    push_line(lines, &buf);
}

/// The statistics report of `cards`, one line per entry.
#[verifier::rlimit(40)]
pub fn statistics_report(cards: &[CardSummary]) -> (r: Vec<String>)
    ensures
        texts(r@) == report(cards@),
{
    let mut lines: Vec<String> = Vec::new();
    if cards.len() == 0 {
        push_text(&mut lines, "No cards loaded.");
        assert(texts(lines@) =~= report(cards@));
        return lines;
    }
    let ghost c = cards@;
    let blank: Vec<char> = Vec::new();
    push_text(&mut lines, "=== Card Database Statistics ===");
    push_line(&mut lines, &blank);
    push_text(&mut lines, "--- Card Types ---");
    let ghost p1 = texts(lines@);
    let (types, _) = ranked_names(cards, NameField::Types);
    push_count_rows(&mut lines, &types, types.len(), 12);
    proof {
        assert(first_n(count_views(types@), types@.len() as nat) == count_views(types@));
    }
    let ghost p2 = texts(lines@);
    push_line(&mut lines, &blank);
    push_text(&mut lines, "--- Colors ---");
    let (colors, _) = ranked_names(cards, NameField::Colors);
    push_count_rows(&mut lines, &colors, colors.len(), 12);
    proof {
        assert(first_n(count_views(colors@), colors@.len() as nat) == count_views(colors@));
    }
    let ghost p3 = texts(lines@);
    push_line(&mut lines, &blank);
    push_text(&mut lines, "--- Top 30 Subtypes ---");
    let (subtypes, n_subtypes) = ranked_names(cards, NameField::Subtypes);
    push_total_line(&mut lines, "  Total distinct subtypes: ", n_subtypes);
    push_count_rows(&mut lines, &subtypes, 30, 20);
    let ghost p4 = texts(lines@);
    push_line(&mut lines, &blank);
    push_text(&mut lines, "--- Top 30 Keywords ---");
    let (keywords, n_keywords) = ranked_names(cards, NameField::Keywords);
    push_total_line(&mut lines, "  Total distinct keywords: ", n_keywords);
    push_count_rows(&mut lines, &keywords, 30, 25);
    let ghost p5 = texts(lines@);
    push_line(&mut lines, &blank);
    push_text(&mut lines, "--- Ability Statistics ---");
    push_flag_line(&mut lines, "  Cards with raw abilities:  ", count_cards_with(cards, CardFlag::RawAbilities));
    push_flag_line(&mut lines, "  Cards with keywords:       ", count_cards_with(cards, CardFlag::RawKeywords));
    push_flag_line(&mut lines, "  Cards with triggers:       ", count_cards_with(cards, CardFlag::Triggers));
    push_flag_line(
        &mut lines,
        "  Cards with activated abs:  ",
        count_cards_with(cards, CardFlag::ActivatedAbilities),
    );
    push_line(&mut lines, &blank);
    push_text(&mut lines, "--- Mana Cost Distribution ---");
    let ghost p6 = texts(lines@);
    push_cmc_lines(&mut lines, cards);
    proof {
        let head = seq!["=== Card Database Statistics ==="@, Seq::empty(), "--- Card Types ---"@];
        assert(p1 =~= head);
        let t = count_rows(ranked(c, NameField::Types), 12);
        assert(p2 =~= head + t);
        let co = count_rows(ranked(c, NameField::Colors), 12);
        assert(p3 =~= head + t + seq![Seq::empty(), "--- Colors ---"@] + co);
        let sub_head = seq![
            Seq::empty(),
            "--- Top 30 Subtypes ---"@,
            "  Total distinct subtypes: "@ + dec(distinct_count(c, NameField::Subtypes)),
        ];
        let su = count_rows(first_n(ranked(c, NameField::Subtypes), 30), 20);
        assert(p4 =~= head + t + seq![Seq::empty(), "--- Colors ---"@] + co + sub_head + su);
        let key_head = seq![
            Seq::empty(),
            "--- Top 30 Keywords ---"@,
            "  Total distinct keywords: "@ + dec(distinct_count(c, NameField::Keywords)),
        ];
        let ke = count_rows(first_n(ranked(c, NameField::Keywords), 30), 25);
        assert(p5 =~= head + t + seq![Seq::empty(), "--- Colors ---"@] + co + sub_head + su + key_head + ke);
        let ab = seq![
            Seq::empty(),
            "--- Ability Statistics ---"@,
            flag_line("  Cards with raw abilities:  "@, cards_with(c, CardFlag::RawAbilities)),
            flag_line("  Cards with keywords:       "@, cards_with(c, CardFlag::RawKeywords)),
            flag_line("  Cards with triggers:       "@, cards_with(c, CardFlag::Triggers)),
            flag_line("  Cards with activated abs:  "@, cards_with(c, CardFlag::ActivatedAbilities)),
            Seq::empty(),
            "--- Mana Cost Distribution ---"@,
        ];
        assert(p6 =~= head + t + seq![Seq::empty(), "--- Colors ---"@] + co + sub_head + su + key_head + ke + ab);
        assert(texts(lines@) =~= report(c));
    }
    lines
}

} // verus!
