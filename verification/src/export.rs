//! What goes into the card pack of a deck exported for the browser build:
//! the definitions of the deck's cards, and those of the tokens the cards
//! can create, with the names that could not be found.
//!
//! Reading the card files and writing the packs happens elsewhere; the
//! catalogue arrives here as a map from each card name to the token
//! scripts its card can create, and the token definitions as a map keyed
//! by script name.
use crate::stats::{count_views, distinct, tally, tally_of, texts};
use crate::str_map::{map_of, StrMap};
use vstd::prelude::*;

verus! {

/// The names of `names` that `cat` has (`present`), or those it lacks.
pub open spec fn keep<V>(names: Seq<Seq<char>>, cat: Map<Seq<char>, V>, present: bool) -> Seq<Seq<char>>
    decreases names.len(),
{
    if names.len() == 0 {
        Seq::empty()
    } else {
        let rest = keep(names.drop_last(), cat, present);
        if cat.dom().contains(names.last()) == present {
            rest.push(names.last())
        } else {
            rest
        }
    }
}

/// The token scripts of the cards of `names` that `cat` has, card by card.
pub open spec fn scripts_of(names: Seq<Seq<char>>, cat: Map<Seq<char>, Vec<String>>) -> Seq<Seq<char>>
    decreases names.len(),
{
    if names.len() == 0 {
        Seq::empty()
    } else {
        let rest = scripts_of(names.drop_last(), cat);
        if cat.dom().contains(names.last()) {
            rest + texts(cat[names.last()]@)
        } else {
            rest
        }
    }
}

/// The pack of one deck.
#[derive(Debug, Clone)]
pub struct PackPlan {
    /// The deck's card names the catalogue has, in the deck's order.
    pub cards: Vec<String>,
    /// The deck's card names the catalogue lacks.
    pub missing_cards: Vec<String>,
    /// The token scripts the cards need and that have a definition, in
    /// order of first need.
    pub tokens: Vec<String>,
    /// The token scripts the cards need that have no definition.
    pub missing_tokens: Vec<String>,
}

/// The pack of a deck whose distinct card names are `names`.
pub open spec fn pack_plan(
    names: Seq<Seq<char>>,
    cat: Map<Seq<char>, Vec<String>>,
    tokens: Map<Seq<char>, bool>,
) -> (Seq<Seq<char>>, Seq<Seq<char>>, Seq<Seq<char>>, Seq<Seq<char>>) {
    let needed = distinct(scripts_of(names, cat));
    (keep(names, cat, true), keep(names, cat, false), keep(needed, tokens, true), keep(needed, tokens, false))
}

fn split_known<V>(names: &Vec<String>, known: &StrMap<V>) -> (r: (Vec<String>, Vec<String>))
    requires
        known.wf(),
    ensures
        texts(r.0@) == keep(texts(names@), map_of(known.pairs()), true),
        texts(r.1@) == keep(texts(names@), map_of(known.pairs()), false),
{
    let ghost m = map_of(known.pairs());
    let mut found: Vec<String> = Vec::new();
    let mut missing: Vec<String> = Vec::new();
    let mut i: usize = 0;
    assert(texts(names@).take(0) =~= Seq::<Seq<char>>::empty());
    while i < names.len()
        invariant
            i <= names@.len(),
            known.wf(),
            m == map_of(known.pairs()),
            texts(found@) == keep(texts(names@).take(i as int), m, true),
            texts(missing@) == keep(texts(names@).take(i as int), m, false),
        decreases names@.len() - i,
    {
        proof {
            assert(texts(names@).take(i + 1).drop_last() =~= texts(names@).take(i as int));
            assert(texts(names@).take(i + 1).last() == names@[i as int]@);
        }
        let name = names[i].clone();
        let ghost f0 = found@;
        let ghost m0 = missing@;
        if known.contains_key(name.as_str()) {
            found.push(name);
            assert(texts(found@) =~= texts(f0).push(names@[i as int]@));
        } else {
            missing.push(name);
            assert(texts(missing@) =~= texts(m0).push(names@[i as int]@));
        }
        i = i + 1;
    }
    assert(texts(names@).take(i as int) =~= texts(names@));
    (found, missing)
}

/// Plan the pack of a deck whose distinct card names are `names`, from the
/// catalogue of card names with their token scripts and the token
/// definitions keyed by script name.
pub fn plan_deck_pack<T>(names: &Vec<String>, catalogue: &StrMap<Vec<String>>, token_defs: &StrMap<T>) -> (p:
    PackPlan)
    requires
        catalogue.wf(),
        token_defs.wf(),
    ensures
        ({
            let plan = pack_plan(
                texts(names@),
                map_of(catalogue.pairs()),
                map_of(token_defs.pairs()).map_values(|t: T| true),
            );
            &&& texts(p.cards@) == plan.0
            &&& texts(p.missing_cards@) == plan.1
            &&& texts(p.tokens@) == plan.2
            &&& texts(p.missing_tokens@) == plan.3
        }),
{
    let ghost cat = map_of(catalogue.pairs());
    let (cards, missing_cards) = split_known(names, catalogue);
    let mut scripts: Vec<String> = Vec::new();
    let mut i: usize = 0;
    assert(texts(names@).take(0) =~= Seq::<Seq<char>>::empty());
    while i < names.len()
        invariant
            i <= names@.len(),
            catalogue.wf(),
            cat == map_of(catalogue.pairs()),
            texts(scripts@) == scripts_of(texts(names@).take(i as int), cat),
        decreases names@.len() - i,
    {
        proof {
            assert(texts(names@).take(i + 1).drop_last() =~= texts(names@).take(i as int));
            assert(texts(names@).take(i + 1).last() == names@[i as int]@);
        }
        match catalogue.get(names[i].as_str()) {
            Some(card_scripts) => {
                let ghost start = scripts@;
                let mut k: usize = 0;
                while k < card_scripts.len()
                    invariant
                        k <= card_scripts@.len(),
                        texts(scripts@) == texts(start) + texts(card_scripts@).take(k as int),
                    decreases card_scripts@.len() - k,
                {
                    let ghost prev = scripts@;
                    let s = card_scripts[k].clone();
                    scripts.push(s);
                    proof {
                        assert(texts(scripts@) =~= texts(prev).push(s@));
                        assert(texts(card_scripts@).take(k + 1) =~= texts(card_scripts@).take(k as int).push(
                            card_scripts@[k as int]@,
                        ));
                    }
                    k = k + 1;
                }
                assert(texts(card_scripts@).take(k as int) =~= texts(card_scripts@));
            },
            None => {},
        }
        i = i + 1;
    }
    assert(texts(names@).take(i as int) =~= texts(names@));
    let counted = tally(&scripts);
    proof {
        assert(count_views(counted@).len() == counted@.len());
        assert(tally_of(texts(scripts@)).len() == distinct(texts(scripts@)).len());
        assert forall|q: int| 0 <= q < counted@.len() implies #[trigger] counted@[q].0@ == distinct(texts(scripts@))[q] by {
            assert(count_views(counted@)[q] == tally_of(texts(scripts@))[q]);
        }
    }
    let mut needed: Vec<String> = Vec::new();
    let mut j: usize = 0;
    while j < counted.len()
        invariant
            j <= counted@.len(),
            counted@.len() == distinct(texts(scripts@)).len(),
            forall|q: int| 0 <= q < counted@.len() ==> #[trigger] counted@[q].0@ == distinct(texts(scripts@))[q],
            texts(needed@) == distinct(texts(scripts@)).take(j as int),
        decreases counted@.len() - j,
    {
        let ghost prev = needed@;
        let s = counted[j].0.clone();
        needed.push(s);
        proof {
            assert(texts(needed@) =~= texts(prev).push(s@));
            assert(distinct(texts(scripts@)).take(j + 1) =~= distinct(texts(scripts@)).take(j as int).push(
                distinct(texts(scripts@))[j as int],
            ));
        }
        j = j + 1;
    }
    proof {
        assert(distinct(texts(scripts@)).take(j as int) =~= distinct(texts(scripts@)));
    }
    let (tokens, missing_tokens) = split_known(&needed, token_defs);
    proof {
        let tm = map_of(token_defs.pairs());
        let tb = tm.map_values(|t: T| true);
        assert(tb.dom() =~= tm.dom());
        lemma_keep_same_domain(texts(needed@), tm, tb, true);
        lemma_keep_same_domain(texts(needed@), tm, tb, false);
    }
    PackPlan { cards, missing_cards, tokens, missing_tokens }
}

proof fn lemma_keep_same_domain<V, W>(names: Seq<Seq<char>>, a: Map<Seq<char>, V>, b: Map<Seq<char>, W>, present: bool)
    requires
        a.dom() == b.dom(),
    ensures
        keep(names, a, present) == keep(names, b, present),
    decreases names.len(),
{
    if names.len() > 0 {
        lemma_keep_same_domain(names.drop_last(), a, b, present);
    }
}

} // verus!
