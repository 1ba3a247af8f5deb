//! Decoding an opponent's choice indices into the cards they picked.
//!
//! The server sends the indices of an opponent's choice; each shadow game
//! decodes them against its own candidate lists. These are pure functions
//! of the indices and the candidates, so every shadow decodes a choice the
//! same way.
use crate::game_types::{card_debug, push_card_debug, CardId};
use crate::text::{dec, num_list, push_dec, push_str, push_u32_list, to_string, u32_nats};
use vstd::prelude::*;

verus! {

/// The attackers a declare-attackers choice names: index `0` means "done";
/// index `N` names `available[N - 1]`; out-of-range indices are skipped.
pub open spec fn attackers_of(indices: Seq<usize>, available: Seq<CardId>) -> Seq<CardId>
    decreases indices.len(),
{
    if indices.len() == 0 {
        Seq::empty()
    } else {
        let r = attackers_of(indices.drop_last(), available);
        let idx = indices.last();
        if idx > 0 && idx - 1 < available.len() {
            r.push(available[idx - 1])
        } else {
            r
        }
    }
}

/// The `(blocker, attacker)` pairs a declare-blockers choice names: index
/// `0` means "done"; index `N` encodes `pair = N - 1` as
/// `(blockers[pair / A], attackers[pair % A])` with `A` attackers;
/// out-of-range pairs are skipped, and nothing is named without attackers.
pub open spec fn blocks_of(indices: Seq<usize>, blockers: Seq<CardId>, attackers: Seq<CardId>) -> Seq<
    (CardId, CardId),
>
    decreases indices.len(),
{
    if indices.len() == 0 || attackers.len() == 0 {
        Seq::empty()
    } else {
        let r = blocks_of(indices.drop_last(), blockers, attackers);
        let idx = indices.last();
        let pair = idx - 1;
        if idx > 0 && pair / (attackers.len() as int) < blockers.len() {
            r.push((blockers[pair / (attackers.len() as int)], attackers[pair % (attackers.len() as int)]))
        } else {
            r
        }
    }
}

/// The cards a flat subset choice names: each index is a position in
/// `slice`; out-of-range indices are skipped.
pub open spec fn subset_of(indices: Seq<usize>, slice: Seq<CardId>) -> Seq<CardId>
    decreases indices.len(),
{
    if indices.len() == 0 {
        Seq::empty()
    } else {
        let r = subset_of(indices.drop_last(), slice);
        let idx = indices.last();
        if idx < slice.len() {
            r.push(slice[idx as int])
        } else {
            r
        }
    }
}

proof fn lemma_take_last<A>(s: Seq<A>, i: int)
    requires
        0 <= i < s.len(),
    ensures
        s.take(i + 1).drop_last() == s.take(i),
        s.take(i + 1).last() == s[i],
{
    assert(s.take(i + 1).drop_last() =~= s.take(i));
}

/// Decode a declare-attackers choice.
pub fn decode_attackers(indices: &[usize], available_creatures: &[CardId]) -> (r: Vec<CardId>)
    ensures
        r@ == attackers_of(indices@, available_creatures@),
{
    let mut out: Vec<CardId> = Vec::new();
    let mut i: usize = 0;
    assert(indices@.take(0) =~= Seq::<usize>::empty());
    while i < indices.len()
        invariant
            i <= indices@.len(),
            out@ == attackers_of(indices@.take(i as int), available_creatures@),
        decreases indices@.len() - i,
    {
        proof {
            lemma_take_last(indices@, i as int);
        }
        let idx = indices[i];
        if idx > 0 && idx - 1 < available_creatures.len() {
            out.push(available_creatures[idx - 1]);
        }
        i = i + 1;
    }
    assert(indices@.take(i as int) =~= indices@);
    out
}

/// Decode a declare-blockers choice.
pub fn decode_blockers(indices: &[usize], available_blockers: &[CardId], attackers: &[CardId]) -> (r:
    Vec<(CardId, CardId)>)
    ensures
        r@ == blocks_of(indices@, available_blockers@, attackers@),
{
    let mut out: Vec<(CardId, CardId)> = Vec::new();
    if attackers.len() == 0 {
        return out;
    }
    let a = attackers.len();
    let mut i: usize = 0;
    assert(indices@.take(0) =~= Seq::<usize>::empty());
    while i < indices.len()
        invariant
            a == attackers@.len(),
            a > 0,
            i <= indices@.len(),
            out@ == blocks_of(indices@.take(i as int), available_blockers@, attackers@),
        decreases indices@.len() - i,
    {
        proof {
            lemma_take_last(indices@, i as int);
        }
        let idx = indices[i];
        if idx > 0 {
            let pair = idx - 1;
            let b = pair / a;
            let k = pair % a;
            if b < available_blockers.len() {
                out.push((available_blockers[b], attackers[k]));
            }
        }
        i = i + 1;
    }
    assert(indices@.take(i as int) =~= indices@);
    out
}

/// Decode a flat multi-select subset choice (discard, sacrifice, not-untap,
/// mana sources).
pub fn decode_subset(indices: &[usize], slice: &[CardId]) -> (r: Vec<CardId>)
    ensures
        r@ == subset_of(indices@, slice@),
{
    let mut out: Vec<CardId> = Vec::new();
    let mut i: usize = 0;
    assert(indices@.take(0) =~= Seq::<usize>::empty());
    while i < indices.len()
        invariant
            i <= indices@.len(),
            out@ == subset_of(indices@.take(i as int), slice@),
        decreases indices@.len() - i,
    {
        proof {
            lemma_take_last(indices@, i as int);
        }
        let idx = indices[i];
        if idx < slice.len() {
            out.push(slice[idx]);
        }
        i = i + 1;
    }
    assert(indices@.take(i as int) =~= indices@);
    out
}

/// The numbers of some card ids.
pub open spec fn card_nats(s: Seq<CardId>) -> Seq<nat> {
    s.map_values(|c: CardId| c.0 as nat)
}

/// Message for a submitted blocker that is not among the valid ones.
pub open spec fn foreign_blocker_message(context: Seq<char>, blocker: CardId, valid: Seq<CardId>) -> Seq<
    char,
> {
    "FATAL DESYNC: RemoteController "@ + context + " blocker "@ + card_debug(blocker)
        + " not in valid_blockers "@ + num_list(card_nats(valid))
        + " (combat-state divergence; index fallback removed \u{2014} mtg-731)"@
}

/// Message for a blocker index out of range.
pub open spec fn blocker_index_message(context: Seq<char>, idx: nat, n: nat) -> Seq<char> {
    "FATAL DESYNC: RemoteController received invalid "@ + context + " blocker index "@ + dec(idx)
        + " (only "@ + dec(n) + " valid blockers); client/server state divergence."@
}

/// The blocker a combat-damage choice names: the first submitted card id
/// when there is one (an error when it is not a valid blocker), else the
/// first index (`0` when there is none) into the valid blockers.
pub open spec fn combat_blocker(
    indices: Seq<usize>,
    target_card_ids: Option<Seq<CardId>>,
    valid: Seq<CardId>,
    context: Seq<char>,
) -> Result<CardId, Seq<char>> {
    if target_card_ids is Some && target_card_ids->0.len() > 0 {
        let id = target_card_ids->0[0];
        if valid.contains(id) {
            Ok(id)
        } else {
            Err(foreign_blocker_message(context, id, valid))
        }
    } else {
        let idx: int = if indices.len() > 0 {
            indices[0] as int
        } else {
            0
        };
        if idx < valid.len() {
            Ok(valid[idx])
        } else {
            Err(blocker_index_message(context, idx as nat, valid.len()))
        }
    }
}

/// Resolve the blocker chosen for lethal or remaining combat damage,
/// preferring the submitted card id over the index.
pub fn resolve_combat_blocker(
    indices: &[usize],
    target_card_ids: Option<&[CardId]>,
    valid_blockers: &[CardId],
    context: &str,
) -> (r: Result<CardId, String>)
    ensures
        match combat_blocker(
            indices@,
            match target_card_ids {
                Some(t) => Some(t@),
                None => None,
            },
            valid_blockers@,
            context@,
        ) {
            Ok(c) => r == Ok::<CardId, String>(c),
            Err(m) => r matches Err(e) && e@ == m,
        },
{
    match target_card_ids {
        Some(ids) => {
            if ids.len() > 0 {
                let blocker_id = ids[0];
                let mut j: usize = 0;
                while j < valid_blockers.len()
                    invariant
                        j <= valid_blockers@.len(),
                        ids@.len() > 0,
                        blocker_id == ids@[0],
                        target_card_ids == Some(ids),
                        forall|k: int| 0 <= k < j ==> valid_blockers@[k] != blocker_id,
                    decreases valid_blockers@.len() - j,
                {
                    if valid_blockers[j] == blocker_id {
                        assert(valid_blockers@.contains(blocker_id)) by {
                            assert(valid_blockers@[j as int] == blocker_id);
                        }
                        return Ok(blocker_id);
                    }
                    j = j + 1;
                }
                let mut ids_u32: Vec<u32> = Vec::new();
                let mut k: usize = 0;
                while k < valid_blockers.len()
                    invariant
                        k <= valid_blockers@.len(),
                        ids_u32@.len() == k,
                        u32_nats(ids_u32@) == card_nats(valid_blockers@.take(k as int)),
                    decreases valid_blockers@.len() - k,
                {
                    let ghost before = ids_u32@;
                    ids_u32.push(valid_blockers[k].0);
                    proof {
                        let t = valid_blockers@.take(k + 1);
                        assert(t.drop_last() =~= valid_blockers@.take(k as int));
                        assert forall|q: int| 0 <= q < k + 1 implies #[trigger] u32_nats(ids_u32@)[q]
                            == card_nats(t)[q] by {
                            if q < k {
                                assert(ids_u32@[q] == before[q]);
                                assert(u32_nats(before)[q] == card_nats(valid_blockers@.take(k as int))[q]);
                            }
                        }
                        assert(u32_nats(ids_u32@) =~= card_nats(t));
                    }
                    k = k + 1;
                }
                assert(valid_blockers@.take(k as int) =~= valid_blockers@);
                let mut buf: Vec<char> = Vec::new();
                push_str(&mut buf, "FATAL DESYNC: RemoteController ");
                push_str(&mut buf, context);
                push_str(&mut buf, " blocker ");
                push_card_debug(&mut buf, blocker_id);
                push_str(&mut buf, " not in valid_blockers ");
                push_u32_list(&mut buf, ids_u32.as_slice());
                push_str(&mut buf, " (combat-state divergence; index fallback removed \u{2014} mtg-731)");
                assert(buf@ =~= foreign_blocker_message(context@, blocker_id, valid_blockers@));
                return Err(to_string(&buf));
            }
        },
        None => {},
    }
    let idx: usize = if indices.len() > 0 {
        indices[0]
    } else {
        0
    };
    if idx < valid_blockers.len() {
        Ok(valid_blockers[idx])
    } else {
        let mut buf: Vec<char> = Vec::new();
        push_str(&mut buf, "FATAL DESYNC: RemoteController received invalid ");
        push_str(&mut buf, context);
        push_str(&mut buf, " blocker index ");
        push_dec(&mut buf, idx as u64);
        push_str(&mut buf, " (only ");
        push_dec(&mut buf, valid_blockers.len() as u64);
        push_str(&mut buf, " valid blockers); client/server state divergence.");
        assert(buf@ =~= blocker_index_message(context@, idx as nat, valid_blockers@.len()));
        Err(to_string(&buf))
    }
}

} // verus!
