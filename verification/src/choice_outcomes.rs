//! What a remote player's checked response means for each kind of choice.
//!
//! Each function takes the outcome of `NetworkController::request_choice`
//! and the candidates the choice was offered over, and gives the game's
//! answer: the selection, an error (an index that names nothing is a fatal
//! desync), or the end of the game when the client disconnected.
use crate::controller::{ability_debug, error_text, push_ability_debug, NetworkChoiceResult, NetworkError};
use crate::game_types::{CardId, SpellAbility};
use crate::text::{dec, push_dec, push_str, to_string};
use vstd::prelude::*;

verus! {

/// The game's answer to a choice.
#[derive(Debug, Clone, PartialEq, Eq)]
pub enum ChoiceResult<T> {
    /// The selection.
    Done(T),
    /// The choice failed.
    Error(String),
    /// The game ends: the player left.
    ExitGame,
}

/// The answer to a choice, over plain values.
pub enum Decoded<T> {
    Chosen(T),
    Failed(Seq<char>),
    Exit,
}

/// `r` is the answer `d`.
pub open spec fn yields<T>(r: ChoiceResult<T>, d: Decoded<T>) -> bool {
    match d {
        Decoded::Chosen(v) => r == ChoiceResult::Done(v),
        Decoded::Failed(m) => r matches ChoiceResult::Error(e) && e@ == m,
        Decoded::Exit => r is ExitGame,
    }
}

/// `r` is the answer `d`, a selection given by its elements.
pub open spec fn yields_seq<T>(r: ChoiceResult<Vec<T>>, d: Decoded<Seq<T>>) -> bool {
    match d {
        Decoded::Chosen(s) => r matches ChoiceResult::Done(v) && v@ == s,
        Decoded::Failed(m) => r matches ChoiceResult::Error(e) && e@ == m,
        Decoded::Exit => r is ExitGame,
    }
}

/// The answer when the request itself failed: the game ends when the
/// client disconnected, and fails with the error's message otherwise.
pub open spec fn failure<T>(e: NetworkError) -> Decoded<T> {
    match e {
        NetworkError::Disconnected => Decoded::Exit,
        _ => Decoded::Failed(error_text(e)),
    }
}

fn fail<T>(e: NetworkError) -> (r: ChoiceResult<T>)
    ensures
        yields(r, failure(e)),
{
    match e {
        NetworkError::Disconnected => ChoiceResult::ExitGame,
        _ => ChoiceResult::Error(e.message()),
    }
}

fn fail_seq<T>(e: NetworkError) -> (r: ChoiceResult<Vec<T>>)
    ensures
        yields_seq(r, failure(e)),
{
    match e {
        NetworkError::Disconnected => ChoiceResult::ExitGame,
        _ => ChoiceResult::Error(e.message()),
    }
}

/// The first index, or `0` when there is none.
pub open spec fn first_or_zero(indices: Seq<usize>) -> usize {
    if indices.len() > 0 {
        indices[0]
    } else {
        0
    }
}

fn first_index(indices: &Vec<usize>) -> (r: usize)
    ensures
        r == first_or_zero(indices@),
{
    if indices.len() > 0 {
        indices[0]
    } else {
        0
    }
}

fn message_with_index(prefix: &str, idx: usize, suffix: &str) -> (s: String)
    ensures
        s@ == prefix@ + dec(idx as nat) + suffix@,
{
    let mut buf: Vec<char> = Vec::new();
    push_str(&mut buf, prefix);
    push_dec(&mut buf, idx as u64);
    push_str(&mut buf, suffix);
    to_string(&buf)
}

fn message_with_two(prefix: &str, a: usize, middle: &str, b: usize, suffix: &str) -> (s: String)
    ensures
        s@ == prefix@ + dec(a as nat) + middle@ + dec(b as nat) + suffix@,
{
    let mut buf: Vec<char> = Vec::new();
    push_str(&mut buf, prefix);
    push_dec(&mut buf, a as u64);
    push_str(&mut buf, middle);
    push_dec(&mut buf, b as u64);
    push_str(&mut buf, suffix);
    to_string(&buf)
}

proof fn lemma_take_last<A>(s: Seq<A>, i: int)
    requires
        0 <= i < s.len(),
    ensures
        s.take(i + 1).drop_last() == s.take(i),
        s.take(i + 1).last() == s[i],
{
    assert(s.take(i + 1).drop_last() =~= s.take(i));
}

// ---------------------------------------------------------------------------
// Priority
// ---------------------------------------------------------------------------
/// The answer to a priority choice: option `0` passes; option `N` plays
/// `available[N - 1]`, which must be the ability the client says it chose,
/// when it says.
pub open spec fn priority_decoded(
    result: Result<NetworkChoiceResult, NetworkError>,
    available: Seq<SpellAbility>,
) -> Decoded<Option<SpellAbility>> {
    match result {
        Err(e) => failure(e),
        Ok(r) => {
            let idx = first_or_zero(r.indices@);
            if r.indices@.len() > 0 && idx == 0 {
                Decoded::Chosen(None)
            } else {
                let ability_idx = wrapping_pred(idx);
                if ability_idx >= available.len() {
                    Decoded::Failed(
                        "FATAL DESYNC: Invalid ability index "@ + dec(ability_idx as nat)
                            + " from network (available: "@ + dec(available.len()) + ")"@,
                    )
                } else {
                    let ability = available[ability_idx as int];
                    match r.spell_ability {
                        Some(expected) => if ability != expected {
                            Decoded::Failed(
                                "FATAL DESYNC: Choice mismatch - index "@ + dec(idx as nat)
                                    + " selected "@ + ability_debug(ability)
                                    + ", but client expected "@ + ability_debug(expected),
                            )
                        } else {
                            Decoded::Chosen(Some(ability))
                        },
                        None => Decoded::Chosen(Some(ability)),
                    }
                }
            }
        },
    }
}

/// `n - 1` in `usize` arithmetic that wraps: `usize::MAX` for `0`.
pub open spec fn wrapping_pred(n: usize) -> usize {
    if n == 0 {
        usize::MAX
    } else {
        (n - 1) as usize
    }
}

fn pred_wrapping(n: usize) -> (r: usize)
    ensures
        r == wrapping_pred(n),
{
    if n == 0 {
        usize::MAX
    } else {
        n - 1
    }
}

/// The answer to a priority choice. With no index at all, the index `0 - 1`
/// wraps around and names nothing.
pub fn spell_ability_outcome(
    result: Result<NetworkChoiceResult, NetworkError>,
    available: &[SpellAbility],
) -> (r: ChoiceResult<Option<SpellAbility>>)
    ensures
        yields(r, priority_decoded(result, available@)),
{
    match result {
        Err(e) => fail(e),
        Ok(res) => {
            let idx = first_index(&res.indices);
            if res.indices.len() > 0 && idx == 0 {
                return ChoiceResult::Done(None);
            }
            let ability_idx = pred_wrapping(idx);
            if ability_idx >= available.len() {
                return ChoiceResult::Error(
                    message_with_two(
                        "FATAL DESYNC: Invalid ability index ",
                        ability_idx,
                        " from network (available: ",
                        available.len(),
                        ")",
                    ),
                );
            }
            let ability = available[ability_idx];
            match res.spell_ability {
                Some(expected) => {
                    if ability != expected {
                        let mut buf: Vec<char> = Vec::new();
                        push_str(&mut buf, "FATAL DESYNC: Choice mismatch - index ");
                        push_dec(&mut buf, idx as u64);
                        push_str(&mut buf, " selected ");
                        push_ability_debug(&mut buf, &ability);
                        push_str(&mut buf, ", but client expected ");
                        push_ability_debug(&mut buf, &expected);
                        return ChoiceResult::Error(to_string(&buf));
                    }
                    ChoiceResult::Done(Some(ability))
                },
                None => ChoiceResult::Done(Some(ability)),
            }
        },
    }
}

// ---------------------------------------------------------------------------
// Single-card choices
// ---------------------------------------------------------------------------
/// The answer to a single-select choice over `slice`: the card at the
/// first index (`0` when there is none), or `message` when it is out of
/// range.
pub open spec fn single_decoded(
    result: Result<NetworkChoiceResult, NetworkError>,
    slice: Seq<CardId>,
    message: Seq<char>,
) -> Decoded<Seq<CardId>> {
    match result {
        Err(e) => failure(e),
        Ok(r) => {
            let idx = first_or_zero(r.indices@);
            if idx < slice.len() {
                Decoded::Chosen(seq![slice[idx as int]])
            } else {
                Decoded::Failed(message)
            }
        },
    }
}

fn single_outcome(
    result: Result<NetworkChoiceResult, NetworkError>,
    slice: &[CardId],
    message: &str,
) -> (r: ChoiceResult<Vec<CardId>>)
    ensures
        yields_seq(r, single_decoded(result, slice@, message@)),
{
    match result {
        Err(e) => fail_seq(e),
        Ok(res) => {
            let idx = first_index(&res.indices);
            if idx < slice.len() {
                let mut v: Vec<CardId> = Vec::new();
                v.push(slice[idx]);
                assert(v@ =~= seq![slice@[idx as int]]);
                ChoiceResult::Done(v)
            } else {
                ChoiceResult::Error(message.to_owned())
            }
        },
    }
}

/// The answer to a targeting choice: one target.
pub fn targets_outcome(result: Result<NetworkChoiceResult, NetworkError>, valid_targets: &[CardId]) -> (r:
    ChoiceResult<Vec<CardId>>)
    ensures
        yields_seq(r, single_decoded(result, valid_targets@, "Invalid target index from network"@)),
{
    single_outcome(result, valid_targets, "Invalid target index from network")
}

/// The answer to a mana-source choice: one source.
pub fn mana_sources_outcome(
    result: Result<NetworkChoiceResult, NetworkError>,
    available_sources: &[CardId],
) -> (r: ChoiceResult<Vec<CardId>>)
    ensures
        yields_seq(
            r,
            single_decoded(result, available_sources@, "Invalid mana source index from network"@),
        ),
{
    single_outcome(result, available_sources, "Invalid mana source index from network")
}

// ---------------------------------------------------------------------------
// Attackers and blockers
// ---------------------------------------------------------------------------
/// The response selects nothing: no index, or just the "done" option `0`.
pub open spec fn selects_nothing(indices: Seq<usize>) -> bool {
    indices.len() == 0 || indices == seq![0usize]
}

fn is_nothing(indices: &Vec<usize>) -> (b: bool)
    ensures
        b == selects_nothing(indices@),
{
    if indices.len() == 0 {
        return true;
    }
    let b = indices.len() == 1 && indices[0] == 0;
    proof {
        if b {
            assert(indices@ =~= seq![0usize]);
        }
    }
    b
}

/// The attackers named, in order, skipping `0`; or the first index that
/// names no creature.
pub open spec fn attackers_fold(indices: Seq<usize>, available: Seq<CardId>) -> Result<Seq<CardId>, usize>
    decreases indices.len(),
{
    if indices.len() == 0 {
        Ok(Seq::empty())
    } else {
        match attackers_fold(indices.drop_last(), available) {
            Err(i) => Err(i),
            Ok(s) => {
                let idx = indices.last();
                if idx == 0 {
                    Ok(s)
                } else if idx - 1 < available.len() {
                    Ok(s.push(available[idx - 1]))
                } else {
                    Err(idx)
                }
            },
        }
    }
}

/// The answer to a declare-attackers choice.
pub open spec fn attackers_decoded(
    result: Result<NetworkChoiceResult, NetworkError>,
    available: Seq<CardId>,
) -> Decoded<Seq<CardId>> {
    match result {
        Err(e) => failure(e),
        Ok(r) => if selects_nothing(r.indices@) {
            Decoded::Chosen(Seq::empty())
        } else {
            match attackers_fold(r.indices@, available) {
                Ok(s) => Decoded::Chosen(s),
                Err(i) => Decoded::Failed(
                    "Invalid attacker index "@ + dec(i as nat) + " from network"@,
                ),
            }
        },
    }
}

fn attackers_of_indices(indices: &Vec<usize>, available: &[CardId]) -> (r: Result<Vec<CardId>, usize>)
    ensures
        match r {
            Ok(v) => attackers_fold(indices@, available@) == Ok::<Seq<CardId>, usize>(v@),
            Err(i) => attackers_fold(indices@, available@) == Err::<Seq<CardId>, usize>(i),
        },
{
    let mut out: Vec<CardId> = Vec::new();
    let mut i: usize = 0;
    assert(indices@.take(0) =~= Seq::<usize>::empty());
    while i < indices.len()
        invariant
            i <= indices@.len(),
            attackers_fold(indices@.take(i as int), available@) == Ok::<Seq<CardId>, usize>(out@),
        decreases indices@.len() - i,
    {
        proof {
            lemma_take_last(indices@, i as int);
        }
        let idx = indices[i];
        if idx != 0 {
            if idx - 1 < available.len() {
                out.push(available[idx - 1]);
            } else {
                proof {
                    lemma_fold_error_sticks_attackers(indices@, available@, i + 1, indices@.len() as int);
                    assert(indices@.take(indices@.len() as int) =~= indices@);
                }
                return Err(idx);
            }
        }
        i = i + 1;
    }
    assert(indices@.take(i as int) =~= indices@);
    Ok(out)
}

/// The answer to a declare-attackers choice.
pub fn attackers_outcome(
    result: Result<NetworkChoiceResult, NetworkError>,
    available_creatures: &[CardId],
) -> (r: ChoiceResult<Vec<CardId>>)
    ensures
        yields_seq(r, attackers_decoded(result, available_creatures@)),
{
    match result {
        Err(e) => fail_seq(e),
        Ok(res) => {
            if is_nothing(&res.indices) {
                return ChoiceResult::Done(Vec::new());
            }
            match attackers_of_indices(&res.indices, available_creatures) {
                Ok(v) => ChoiceResult::Done(v),
                Err(idx) => ChoiceResult::Error(
                    message_with_index("Invalid attacker index ", idx, " from network"),
                ),
            }
        },
    }
}

proof fn lemma_fold_error_sticks_attackers(indices: Seq<usize>, available: Seq<CardId>, j: int, k: int)
    requires
        0 <= j <= k <= indices.len(),
        attackers_fold(indices.take(j), available) is Err,
    ensures
        attackers_fold(indices.take(k), available) == attackers_fold(indices.take(j), available),
    decreases k - j,
{
    if k > j {
        lemma_fold_error_sticks_attackers(indices, available, j, k - 1);
        assert(indices.take(k).drop_last() =~= indices.take(k - 1));
    }
}

/// The `(blocker, attacker)` pairs named, in order, skipping `0`; or the
/// first index that names no pair.
pub open spec fn blocks_fold(indices: Seq<usize>, blockers: Seq<CardId>, attackers: Seq<CardId>) -> Result<
    Seq<(CardId, CardId)>,
    usize,
>
    decreases indices.len(),
{
    if indices.len() == 0 {
        Ok(Seq::empty())
    } else {
        match blocks_fold(indices.drop_last(), blockers, attackers) {
            Err(i) => Err(i),
            Ok(s) => {
                let idx = indices.last();
                if idx == 0 {
                    Ok(s)
                } else if attackers.len() == 0 {
                    Err(idx)
                } else {
                    let pair = idx - 1;
                    let b = pair / (attackers.len() as int);
                    let a = pair % (attackers.len() as int);
                    if b < blockers.len() && a < attackers.len() {
                        Ok(s.push((blockers[b], attackers[a])))
                    } else {
                        Err(idx)
                    }
                }
            },
        }
    }
}

/// The answer to a declare-blockers choice.
pub open spec fn blockers_decoded(
    result: Result<NetworkChoiceResult, NetworkError>,
    blockers: Seq<CardId>,
    attackers: Seq<CardId>,
) -> Decoded<Seq<(CardId, CardId)>> {
    match result {
        Err(e) => failure(e),
        Ok(r) => if selects_nothing(r.indices@) {
            Decoded::Chosen(Seq::empty())
        } else {
            match blocks_fold(r.indices@, blockers, attackers) {
                Ok(s) => Decoded::Chosen(s),
                Err(i) => Decoded::Failed(
                    "Invalid blocker index "@ + dec(i as nat) + " from network"@,
                ),
            }
        },
    }
}

fn blocks_of_indices(indices: &Vec<usize>, blockers: &[CardId], attackers: &[CardId]) -> (r: Result<
    Vec<(CardId, CardId)>,
    usize,
>)
    ensures
        match r {
            Ok(v) => blocks_fold(indices@, blockers@, attackers@) == Ok::<Seq<(CardId, CardId)>, usize>(v@),
            Err(i) => blocks_fold(indices@, blockers@, attackers@) == Err::<Seq<(CardId, CardId)>, usize>(i),
        },
{
    let mut out: Vec<(CardId, CardId)> = Vec::new();
    let mut i: usize = 0;
    assert(indices@.take(0) =~= Seq::<usize>::empty());
    while i < indices.len()
        invariant
            i <= indices@.len(),
            blocks_fold(indices@.take(i as int), blockers@, attackers@) == Ok::<Seq<(CardId, CardId)>, usize>(out@),
        decreases indices@.len() - i,
    {
        proof {
            lemma_take_last(indices@, i as int);
        }
        let idx = indices[i];
        if idx != 0 {
            if attackers.len() == 0 {
                proof {
                    lemma_fold_error_sticks_blocks(indices@, blockers@, attackers@, i + 1, indices@.len() as int);
                    assert(indices@.take(indices@.len() as int) =~= indices@);
                }
                return Err(idx);
            }
            let pair = idx - 1;
            let b = pair / attackers.len();
            let a = pair % attackers.len();
            if b < blockers.len() && a < attackers.len() {
                out.push((blockers[b], attackers[a]));
            } else {
                proof {
                    lemma_fold_error_sticks_blocks(indices@, blockers@, attackers@, i + 1, indices@.len() as int);
                    assert(indices@.take(indices@.len() as int) =~= indices@);
                }
                return Err(idx);
            }
        }
        i = i + 1;
    }
    assert(indices@.take(i as int) =~= indices@);
    Ok(out)
}

/// The answer to a declare-blockers choice. With no attackers, any index
/// but "done" names nothing.
pub fn blockers_outcome(
    result: Result<NetworkChoiceResult, NetworkError>,
    available_blockers: &[CardId],
    attackers: &[CardId],
) -> (r: ChoiceResult<Vec<(CardId, CardId)>>)
    ensures
        yields_seq(r, blockers_decoded(result, available_blockers@, attackers@)),
{
    match result {
        Err(e) => fail_seq(e),
        Ok(res) => {
            if is_nothing(&res.indices) {
                return ChoiceResult::Done(Vec::new());
            }
            match blocks_of_indices(&res.indices, available_blockers, attackers) {
                Ok(v) => ChoiceResult::Done(v),
                Err(idx) => ChoiceResult::Error(
                    message_with_index("Invalid blocker index ", idx, " from network"),
                ),
            }
        },
    }
}

proof fn lemma_fold_error_sticks_blocks(indices: Seq<usize>, blockers: Seq<CardId>, attackers: Seq<CardId>, j: int, k: int)
    requires
        0 <= j <= k <= indices.len(),
        blocks_fold(indices.take(j), blockers, attackers) is Err,
    ensures
        blocks_fold(indices.take(k), blockers, attackers) == blocks_fold(indices.take(j), blockers, attackers),
    decreases k - j,
{
    if k > j {
        lemma_fold_error_sticks_blocks(indices, blockers, attackers, j, k - 1);
        assert(indices.take(k).drop_last() =~= indices.take(k - 1));
    }
}

// ---------------------------------------------------------------------------
// Subsets: discard
// ---------------------------------------------------------------------------
/// The cards at the indices, in order; or the first index out of range.
pub open spec fn positions_fold(indices: Seq<usize>, slice: Seq<CardId>) -> Result<Seq<CardId>, usize>
    decreases indices.len(),
{
    if indices.len() == 0 {
        Ok(Seq::empty())
    } else {
        match positions_fold(indices.drop_last(), slice) {
            Err(i) => Err(i),
            Ok(s) => {
                let idx = indices.last();
                if idx < slice.len() {
                    Ok(s.push(slice[idx as int]))
                } else {
                    Err(idx)
                }
            },
        }
    }
}

proof fn lemma_fold_error_sticks_positions(indices: Seq<usize>, slice: Seq<CardId>, j: int, k: int)
    requires
        0 <= j <= k <= indices.len(),
        positions_fold(indices.take(j), slice) is Err,
    ensures
        positions_fold(indices.take(k), slice) == positions_fold(indices.take(j), slice),
    decreases k - j,
{
    if k > j {
        lemma_fold_error_sticks_positions(indices, slice, j, k - 1);
        assert(indices.take(k).drop_last() =~= indices.take(k - 1));
    }
}

fn positions(indices: &Vec<usize>, slice: &[CardId]) -> (r: Result<Vec<CardId>, usize>)
    ensures
        match r {
            Ok(v) => positions_fold(indices@, slice@) == Ok::<Seq<CardId>, usize>(v@),
            Err(i) => positions_fold(indices@, slice@) == Err::<Seq<CardId>, usize>(i),
        },
{
    let mut out: Vec<CardId> = Vec::new();
    let mut i: usize = 0;
    assert(indices@.take(0) =~= Seq::<usize>::empty());
    while i < indices.len()
        invariant
            i <= indices@.len(),
            positions_fold(indices@.take(i as int), slice@) == Ok::<Seq<CardId>, usize>(out@),
        decreases indices@.len() - i,
    {
        proof {
            lemma_take_last(indices@, i as int);
        }
        let idx = indices[i];
        if idx < slice.len() {
            out.push(slice[idx]);
        } else {
            proof {
                lemma_fold_error_sticks_positions(indices@, slice@, i + 1, indices@.len() as int);
                assert(indices@.take(indices@.len() as int) =~= indices@);
            }
            return Err(idx);
        }
        i = i + 1;
    }
    assert(indices@.take(i as int) =~= indices@);
    Ok(out)
}

/// The answer to a discard choice: the cards at the indices.
pub open spec fn discard_decoded(result: Result<NetworkChoiceResult, NetworkError>, hand: Seq<CardId>) -> Decoded<
    Seq<CardId>,
> {
    match result {
        Err(e) => failure(e),
        Ok(r) => match positions_fold(r.indices@, hand) {
            Ok(s) => Decoded::Chosen(s),
            Err(i) => Decoded::Failed("Invalid discard index "@ + dec(i as nat) + " from network"@),
        },
    }
}

/// The answer to a discard choice.
pub fn discard_outcome(result: Result<NetworkChoiceResult, NetworkError>, hand: &[CardId]) -> (r:
    ChoiceResult<Vec<CardId>>)
    ensures
        yields_seq(r, discard_decoded(result, hand@)),
{
    match result {
        Err(e) => fail_seq(e),
        Ok(res) => match positions(&res.indices, hand) {
            Ok(v) => ChoiceResult::Done(v),
            Err(i) => ChoiceResult::Error(message_with_index("Invalid discard index ", i, " from network")),
        },
    }
}

// ---------------------------------------------------------------------------
// Damage assignment
// ---------------------------------------------------------------------------
/// The answer to a damage-order choice: a full ordering when there is one
/// index per blocker; else the blocker at the first index first, the
/// others after it in their order.
pub open spec fn damage_order_decoded(
    result: Result<NetworkChoiceResult, NetworkError>,
    blockers: Seq<CardId>,
) -> Decoded<Seq<CardId>> {
    match result {
        Err(e) => failure(e),
        Ok(r) => if r.indices@.len() == blockers.len() {
            match positions_fold(r.indices@, blockers) {
                Ok(s) => Decoded::Chosen(s),
                Err(i) => Decoded::Failed(
                    "Invalid damage order index "@ + dec(i as nat) + " from network"@,
                ),
            }
        } else {
            let idx = first_or_zero(r.indices@);
            if idx < blockers.len() {
                Decoded::Chosen(seq![blockers[idx as int]] + blockers.remove(idx as int))
            } else {
                Decoded::Failed("Invalid damage order index from network"@)
            }
        },
    }
}

/// An answer that is not a full order only picks the blocker that is dealt
/// damage first: the order is then the blockers rearranged, each one
/// exactly once.
pub proof fn law_partial_damage_order_rearranges(r: NetworkChoiceResult, blockers: Seq<CardId>)
    requires
        r.indices@.len() != blockers.len(),
    ensures
        damage_order_decoded(Ok(r), blockers) matches Decoded::Chosen(order) ==> order.to_multiset()
            == blockers.to_multiset(),
{
    broadcast use vstd::seq_lib::group_to_multiset_ensures;
    broadcast use vstd::multiset::group_multiset_axioms;

    let idx = first_or_zero(r.indices@);
    if idx < blockers.len() {
        let x = blockers[idx as int];
        let rest = blockers.remove(idx as int);
        vstd::seq_lib::to_multiset_remove(blockers, idx as int);
        vstd::seq_lib::lemma_multiset_commutative(seq![x], rest);
        assert(seq![x].to_multiset() =~= vstd::multiset::Multiset::empty().insert(x));
        assert(blockers.to_multiset().contains(x));
        assert((seq![x] + rest).to_multiset() =~= blockers.to_multiset());
    }
}

/// The answer to a damage-order choice.
pub fn damage_order_outcome(result: Result<NetworkChoiceResult, NetworkError>, blockers: &[CardId]) -> (r:
    ChoiceResult<Vec<CardId>>)
    ensures
        yields_seq(r, damage_order_decoded(result, blockers@)),
{
    match result {
        Err(e) => fail_seq(e),
        Ok(res) => {
            if res.indices.len() == blockers.len() {
                match positions(&res.indices, blockers) {
                    Ok(v) => ChoiceResult::Done(v),
                    Err(i) => ChoiceResult::Error(
                        message_with_index("Invalid damage order index ", i, " from network"),
                    ),
                }
            } else {
                let idx = first_index(&res.indices);
                if idx < blockers.len() {
                    let mut order: Vec<CardId> = Vec::new();
                    order.push(blockers[idx]);
                    let mut i: usize = 0;
                    while i < blockers.len()
                        invariant
                            i <= blockers@.len(),
                            idx < blockers@.len(),
                            order@ == seq![blockers@[idx as int]] + if i <= idx {
                                blockers@.take(i as int)
                            } else {
                                blockers@.take(idx as int) + blockers@.subrange(idx + 1, i as int)
                            },
                        decreases blockers@.len() - i,
                    {
                        let ghost before = order@;
                        if i != idx {
                            order.push(blockers[i]);
                        }
                        proof {
                            let b = blockers@;
                            if i < idx {
                                assert(b.take(i + 1) =~= b.take(i as int).push(b[i as int]));
                            } else if i == idx {
                                assert(b.subrange(idx + 1, i + 1) =~= Seq::<CardId>::empty());
                                assert(b.take(i as int) + b.subrange(idx + 1, i + 1) =~= b.take(i as int));
                            } else {
                                assert(b.subrange(idx + 1, i + 1) =~= b.subrange(idx + 1, i as int).push(b[i as int]));
                            }
                            assert(order@ =~= seq![b[idx as int]] + if i + 1 <= idx {
                                b.take(i + 1)
                            } else {
                                b.take(idx as int) + b.subrange(idx + 1, i + 1)
                            });
                        }
                        i = i + 1;
                    }
                    assert(blockers@.remove(idx as int) =~= blockers@.take(idx as int) + blockers@.subrange(
                        idx + 1,
                        blockers@.len() as int,
                    ));
                    ChoiceResult::Done(order)
                } else {
                    ChoiceResult::Error("Invalid damage order index from network".to_owned())
                }
            }
        },
    }
}

/// The card a combat-damage choice names: the first submitted card id when
/// it is one of the candidates, else the candidate at the first index
/// (`0` when there is none), or `message(idx)` when that is out of range.
pub open spec fn damage_target_decoded(
    result: Result<NetworkChoiceResult, NetworkError>,
    candidates: Seq<CardId>,
    message: spec_fn(usize) -> Seq<char>,
) -> Decoded<CardId> {
    match result {
        Err(e) => failure(e),
        Ok(r) => {
            let idx = first_or_zero(r.indices@);
            let submitted: Option<CardId> = match r.target_card_ids {
                Some(ids) => if ids@.len() > 0 {
                    Some(ids@[0])
                } else {
                    None
                },
                None => None,
            };
            if submitted is Some && candidates.contains(submitted->0) {
                Decoded::Chosen(submitted->0)
            } else if idx < candidates.len() {
                Decoded::Chosen(candidates[idx as int])
            } else {
                Decoded::Failed(message(idx))
            }
        },
    }
}

/// The cards of the lethal-damage candidates.
pub open spec fn killable_cards(k: Seq<(CardId, i32)>) -> Seq<CardId> {
    k.map_values(|e: (CardId, i32)| e.0)
}

/// Message for a lethal-damage index out of range.
pub open spec fn lethal_message(n: nat) -> spec_fn(usize) -> Seq<char> {
    |idx: usize|
        "FATAL DESYNC: Invalid lethal damage blocker index "@ + dec(idx as nat) + " (only "@ + dec(n)
            + " killable)"@
}

/// Message for a remaining-damage index out of range.
pub open spec fn remaining_message(n: nat) -> spec_fn(usize) -> Seq<char> {
    |idx: usize|
        "FATAL DESYNC: Invalid remaining damage blocker index "@ + dec(idx as nat) + " (only "@ + dec(n)
            + " blockers)"@
}

fn contains_card(v: &[CardId], c: CardId) -> (b: bool)
    ensures
        b == v@.contains(c),
{
    let mut i: usize = 0;
    while i < v.len()
        invariant
            i <= v@.len(),
            forall|k: int| 0 <= k < i ==> v@[k] != c,
        decreases v@.len() - i,
    {
        if v[i] == c {
            assert(v@[i as int] == c);
            return true;
        }
        i = i + 1;
    }
    false
}

/// The answer to a lethal-damage choice: the blocker to kill first.
pub fn lethal_damage_outcome(
    result: Result<NetworkChoiceResult, NetworkError>,
    killable_blockers: &[(CardId, i32)],
) -> (r: ChoiceResult<CardId>)
    ensures
        yields(
            r,
            damage_target_decoded(
                result,
                killable_cards(killable_blockers@),
                lethal_message(killable_blockers@.len()),
            ),
        ),
{
    let mut ids: Vec<CardId> = Vec::new();
    let mut i: usize = 0;
    while i < killable_blockers.len()
        invariant
            i <= killable_blockers@.len(),
            ids@ == killable_cards(killable_blockers@.take(i as int)),
        decreases killable_blockers@.len() - i,
    {
        ids.push(killable_blockers[i].0);
        i = i + 1;
        assert(ids@ =~= killable_cards(killable_blockers@.take(i as int)));
    }
    assert(killable_blockers@.take(i as int) =~= killable_blockers@);
    match result {
        Err(e) => fail(e),
        Ok(res) => {
            let idx = first_index(&res.indices);
            match &res.target_card_ids {
                Some(t) => {
                    if t.len() > 0 && contains_card(ids.as_slice(), t[0]) {
                        return ChoiceResult::Done(t[0]);
                    }
                },
                None => {},
            }
            if idx < ids.len() {
                ChoiceResult::Done(ids[idx])
            } else {
                let m = message_with_two(
                    "FATAL DESYNC: Invalid lethal damage blocker index ",
                    idx,
                    " (only ",
                    ids.len(),
                    " killable)",
                );
                assert(m@ == (lethal_message(killable_blockers@.len()))(idx));
                ChoiceResult::Error(m)
            }
        },
    }
}

/// The answer to a remaining-damage choice: the blocker to assign the
/// remaining damage to.
pub fn remaining_damage_outcome(
    result: Result<NetworkChoiceResult, NetworkError>,
    remaining_blockers: &[CardId],
) -> (r: ChoiceResult<CardId>)
    ensures
        yields(
            r,
            damage_target_decoded(
                result,
                remaining_blockers@,
                remaining_message(remaining_blockers@.len()),
            ),
        ),
{
    match result {
        Err(e) => fail(e),
        Ok(res) => {
            let idx = first_index(&res.indices);
            match &res.target_card_ids {
                Some(t) => {
                    if t.len() > 0 && contains_card(remaining_blockers, t[0]) {
                        return ChoiceResult::Done(t[0]);
                    }
                },
                None => {},
            }
            if idx < remaining_blockers.len() {
                ChoiceResult::Done(remaining_blockers[idx])
            } else {
                let m = message_with_two(
                    "FATAL DESYNC: Invalid remaining damage blocker index ",
                    idx,
                    " (only ",
                    remaining_blockers.len(),
                    " blockers)",
                );
                assert(m@ == (remaining_message(remaining_blockers@.len()))(idx));
                ChoiceResult::Error(m)
            }
        },
    }
}

// ---------------------------------------------------------------------------
// Scry and surveil
// ---------------------------------------------------------------------------
/// What is wrong with a list of positions.
pub enum PileError {
    /// A position past the revealed cards.
    OutOfRange(usize),
    /// A position named twice.
    Duplicate(usize),
}

/// The first thing wrong with the positions, in order: one past the
/// revealed cards, or one named before.
pub open spec fn pile_error(indices: Seq<usize>, n: nat) -> Option<PileError>
    decreases indices.len(),
{
    if indices.len() == 0 {
        None
    } else {
        match pile_error(indices.drop_last(), n) {
            Some(e) => Some(e),
            None => {
                let idx = indices.last();
                if idx >= n {
                    Some(PileError::OutOfRange(idx))
                } else if indices.drop_last().contains(idx) {
                    Some(PileError::Duplicate(idx))
                } else {
                    None
                }
            },
        }
    }
}

/// The revealed cards at the positions not named, in order.
pub open spec fn unnamed(revealed: Seq<CardId>, indices: Seq<usize>) -> Seq<CardId>
    decreases revealed.len(),
{
    if revealed.len() == 0 {
        Seq::empty()
    } else {
        let r = unnamed(revealed.drop_last(), indices);
        if indices.contains((revealed.len() - 1) as usize) {
            r
        } else {
            r.push(revealed.last())
        }
    }
}

/// A split of revealed cards into those kept on top of the library (in
/// bottom-up order) and those moved away (in the order named).
pub struct PileSplit {
    pub top: Vec<CardId>,
    pub moved: Vec<CardId>,
}

/// A scry: the cards back on top (bottom-up) and those put on the bottom
/// (first is deepest).
pub struct ScryDecision {
    pub top: Vec<CardId>,
    pub bottom: Vec<CardId>,
}

/// A surveil: the cards back on top (bottom-up) and those put into the
/// graveyard (in order).
pub struct SurveilDecision {
    pub top: Vec<CardId>,
    pub graveyard: Vec<CardId>,
}

/// Message for a pile error.
pub open spec fn pile_message(kind: Seq<char>, e: PileError, n: nat) -> Seq<char> {
    match e {
        PileError::OutOfRange(i) => "Invalid "@ + kind + " index "@ + dec(i as nat) + " (only "@ + dec(n)
            + " revealed)"@,
        PileError::Duplicate(i) => "Duplicate "@ + kind + " index "@ + dec(i as nat),
    }
}

/// The split the positions name: the named cards in order, the others
/// reversed; or what is wrong with the positions.
pub open spec fn pile_split(revealed: Seq<CardId>, indices: Seq<usize>) -> Result<(Seq<CardId>, Seq<CardId>), PileError> {
    match pile_error(indices, revealed.len()) {
        Some(e) => Err(e),
        None => Ok((unnamed(revealed, indices).reverse(), indices.map_values(|i: usize| revealed[i as int]))),
    }
}

fn contains_index(v: &Vec<usize>, upto: usize, x: usize) -> (b: bool)
    requires
        upto <= v@.len(),
    ensures
        b == v@.take(upto as int).contains(x),
{
    let mut i: usize = 0;
    while i < upto
        invariant
            i <= upto <= v@.len(),
            forall|k: int| 0 <= k < i ==> v@[k] != x,
        decreases upto - i,
    {
        if v[i] == x {
            assert(v@.take(upto as int)[i as int] == x);
            return true;
        }
        i = i + 1;
    }
    false
}

proof fn lemma_pile_error_sticks(indices: Seq<usize>, n: nat, j: int, k: int)
    requires
        0 <= j <= k <= indices.len(),
        pile_error(indices.take(j), n) is Some,
    ensures
        pile_error(indices.take(k), n) == pile_error(indices.take(j), n),
    decreases k - j,
{
    if k > j {
        lemma_pile_error_sticks(indices, n, j, k - 1);
        assert(indices.take(k).drop_last() =~= indices.take(k - 1));
    }
}

proof fn lemma_pile_ok(indices: Seq<usize>, n: nat)
    requires
        pile_error(indices, n) is None,
    ensures
        forall|q: int| 0 <= q < indices.len() ==> indices[q] < n,
    decreases indices.len(),
{
    if indices.len() > 0 {
        lemma_pile_ok(indices.drop_last(), n);
        assert forall|q: int| 0 <= q < indices.len() implies indices[q] < n by {
            if q < indices.len() - 1 {
                assert(indices[q] == indices.drop_last()[q]);
            }
        }
    }
}

/// Split revealed cards by the positions named.
pub fn split_pile(revealed: &[CardId], indices: &Vec<usize>) -> (r: Result<PileSplit, PileError>)
    ensures
        match r {
            Ok(p) => pile_split(revealed@, indices@) == Ok::<(Seq<CardId>, Seq<CardId>), PileError>((p.top@, p.moved@)),
            Err(e) => pile_split(revealed@, indices@) == Err::<(Seq<CardId>, Seq<CardId>), PileError>(e),
        },
{
    let n = revealed.len();
    let mut i: usize = 0;
    assert(indices@.take(0) =~= Seq::<usize>::empty());
    while i < indices.len()
        invariant
            n == revealed@.len(),
            i <= indices@.len(),
            pile_error(indices@.take(i as int), n as nat) is None,
        decreases indices@.len() - i,
    {
        proof {
            lemma_take_last(indices@, i as int);
            assert(indices@.take(i + 1).drop_last() =~= indices@.take(i as int));
        }
        let idx = indices[i];
        if idx >= n {
            proof {
                lemma_pile_error_sticks(indices@, n as nat, i + 1, indices@.len() as int);
                assert(indices@.take(indices@.len() as int) =~= indices@);
            }
            return Err(PileError::OutOfRange(idx));
        }
        if contains_index(indices, i, idx) {
            proof {
                lemma_pile_error_sticks(indices@, n as nat, i + 1, indices@.len() as int);
                assert(indices@.take(indices@.len() as int) =~= indices@);
            }
            return Err(PileError::Duplicate(idx));
        }
        i = i + 1;
    }
    assert(indices@.take(i as int) =~= indices@);
    proof {
        lemma_pile_ok(indices@, n as nat);
    }
    let mut moved: Vec<CardId> = Vec::new();
    let mut k: usize = 0;
    while k < indices.len()
        invariant
            n == revealed@.len(),
            k <= indices@.len(),
            forall|q: int| 0 <= q < indices@.len() ==> indices@[q] < n,
            moved@ == indices@.take(k as int).map_values(|x: usize| revealed@[x as int]),
        decreases indices@.len() - k,
    {
        moved.push(revealed[indices[k]]);
        k = k + 1;
        assert(moved@ =~= indices@.take(k as int).map_values(|x: usize| revealed@[x as int]));
    }
    assert(indices@.take(k as int) =~= indices@);
    let mut kept: Vec<CardId> = Vec::new();
    let mut j: usize = 0;
    assert(revealed@.take(0) =~= Seq::<CardId>::empty());
    while j < n
        invariant
            n == revealed@.len(),
            j <= n,
            kept@ == unnamed(revealed@.take(j as int), indices@),
        decreases n - j,
    {
        proof {
            let t = revealed@.take(j + 1);
            assert(t.drop_last() =~= revealed@.take(j as int));
            assert(t.last() == revealed@[j as int]);
        }
        if !contains_index(indices, indices.len(), j) {
            kept.push(revealed[j]);
        }
        proof {
            assert(indices@.take(indices@.len() as int) =~= indices@);
        }
        j = j + 1;
    }
    assert(revealed@.take(j as int) =~= revealed@);
    let mut top: Vec<CardId> = Vec::new();
    let mut m: usize = kept.len();
    while m > 0
        invariant
            m <= kept@.len(),
            top@ == kept@.subrange(m as int, kept@.len() as int).reverse(),
        decreases m,
    {
        m = m - 1;
        top.push(kept[m]);
        assert(top@ =~= kept@.subrange(m as int, kept@.len() as int).reverse());
    }
    assert(kept@.subrange(0, kept@.len() as int) =~= kept@);
    Ok(PileSplit { top, moved })
}

/// The answer to a scry: positions named go to the bottom.
pub open spec fn scry_decoded(
    result: Result<NetworkChoiceResult, NetworkError>,
    revealed: Seq<CardId>,
) -> Decoded<(Seq<CardId>, Seq<CardId>)> {
    match result {
        Err(e) => failure(e),
        Ok(r) => match pile_split(revealed, r.indices@) {
            Ok(split) => Decoded::Chosen(split),
            Err(e) => Decoded::Failed(pile_message("scry"@, e, revealed.len())),
        },
    }
}

/// The answer to a surveil: positions named go to the graveyard.
pub open spec fn surveil_decoded(
    result: Result<NetworkChoiceResult, NetworkError>,
    revealed: Seq<CardId>,
) -> Decoded<(Seq<CardId>, Seq<CardId>)> {
    match result {
        Err(e) => failure(e),
        Ok(r) => match pile_split(revealed, r.indices@) {
            Ok(split) => Decoded::Chosen(split),
            Err(e) => Decoded::Failed(pile_message("surveil"@, e, revealed.len())),
        },
    }
}

fn pile_error_message(kind: &str, e: PileError, n: usize) -> (s: String)
    ensures
        s@ == pile_message(kind@, e, n as nat),
{
    let mut buf: Vec<char> = Vec::new();
    match e {
        PileError::OutOfRange(i) => {
            push_str(&mut buf, "Invalid ");
            push_str(&mut buf, kind);
            push_str(&mut buf, " index ");
            push_dec(&mut buf, i as u64);
            push_str(&mut buf, " (only ");
            push_dec(&mut buf, n as u64);
            push_str(&mut buf, " revealed)");
        },
        PileError::Duplicate(i) => {
            push_str(&mut buf, "Duplicate ");
            push_str(&mut buf, kind);
            push_str(&mut buf, " index ");
            push_dec(&mut buf, i as u64);
        },
    }
    assert(buf@ =~= pile_message(kind@, e, n as nat));
    to_string(&buf)
}

proof fn lemma_unnamed_none(revealed: Seq<CardId>)
    ensures
        unnamed(revealed, Seq::<usize>::empty()) == revealed,
    decreases revealed.len(),
{
    if revealed.len() > 0 {
        lemma_unnamed_none(revealed.drop_last());
        assert(revealed.drop_last().push(revealed.last()) =~= revealed);
    }
}

/// Naming one more position `q` takes exactly the card at `q` out of the
/// unnamed cards of every prefix that reaches it.
proof fn lemma_unnamed_name_one(revealed: Seq<CardId>, before: Seq<usize>, q: usize, k: int)
    requires
        0 <= k <= revealed.len() <= usize::MAX,
        q < revealed.len(),
        !before.contains(q),
    ensures
        k <= q ==> unnamed(revealed.take(k), before.push(q)) == unnamed(revealed.take(k), before),
        k > q ==> unnamed(revealed.take(k), before).to_multiset() == unnamed(revealed.take(k), before.push(q)).to_multiset().insert(
            revealed[q as int],
        ),
    decreases k,
{
    broadcast use vstd::seq_lib::group_to_multiset_ensures;
    broadcast use vstd::multiset::group_multiset_axioms;

    let after = before.push(q);
    if k > 0 {
        lemma_unnamed_name_one(revealed, before, q, k - 1);
        let t = revealed.take(k);
        assert(t.drop_last() =~= revealed.take(k - 1));
        assert(t.last() == revealed[k - 1]);
        let p = (t.len() - 1) as usize;
        assert(p == k - 1);
        assert(after.contains(p) <==> (before.contains(p) || p == q)) by {
            if after.contains(p) {
                let j = choose|j: int| 0 <= j < after.len() && after[j] == p;
                if j < before.len() {
                    assert(before[j] == p);
                }
            }
            if before.contains(p) {
                let j = choose|j: int| 0 <= j < before.len() && before[j] == p;
                assert(after[j] == p);
            }
            if p == q {
                assert(after[before.len() as int] == p);
            }
        }
        if k - 1 == q {
            assert(unnamed(revealed.take(k - 1), after) == unnamed(revealed.take(k - 1), before));
        }
    }
}

/// The unnamed cards and the named ones, in the order named, are together
/// the revealed cards, when the positions are valid.
proof fn lemma_piles_partition(revealed: Seq<CardId>, indices: Seq<usize>)
    requires
        revealed.len() <= usize::MAX,
        pile_error(indices, revealed.len()) is None,
    ensures
        unnamed(revealed, indices).to_multiset().add(
            indices.map_values(|i: usize| revealed[i as int]).to_multiset(),
        ) == revealed.to_multiset(),
    decreases indices.len(),
{
    broadcast use vstd::seq_lib::group_to_multiset_ensures;
    broadcast use vstd::multiset::group_multiset_axioms;

    if indices.len() == 0 {
        lemma_unnamed_none(revealed);
        assert(indices == Seq::<usize>::empty());
        assert(indices.map_values(|i: usize| revealed[i as int]) =~= Seq::<CardId>::empty());
        assert(unnamed(revealed, indices).to_multiset().add(vstd::multiset::Multiset::empty()) =~= revealed.to_multiset());
    } else {
        let before = indices.drop_last();
        let q = indices.last();
        assert(before.push(q) =~= indices);
        lemma_piles_partition(revealed, before);
        lemma_unnamed_name_one(revealed, before, q, revealed.len() as int);
        assert(revealed.take(revealed.len() as int) =~= revealed);
        let f = |i: usize| revealed[i as int];
        assert(indices.map_values(f) =~= before.map_values(f).push(revealed[q as int]));
        let a = unnamed(revealed, indices).to_multiset();
        let b = before.map_values(f).to_multiset();
        assert(a.insert(revealed[q as int]).add(b) =~= a.add(b.insert(revealed[q as int])));
    }
}

/// A scry or surveil loses and adds no card: whenever the positions are
/// valid, the cards kept on top and the cards moved away are, together,
/// exactly the revealed cards.
pub proof fn law_piles_keep_every_card(revealed: Seq<CardId>, indices: Seq<usize>)
    requires
        revealed.len() <= usize::MAX,
    ensures
        pile_split(revealed, indices) matches Ok(split) ==> (split.0 + split.1).to_multiset() == revealed.to_multiset(),
        pile_split(revealed, indices) matches Ok(split) ==> split.0.len() + split.1.len() == revealed.len(),
{
    broadcast use vstd::seq_lib::group_to_multiset_ensures;

    if pile_error(indices, revealed.len()) is None {
        lemma_piles_partition(revealed, indices);
        let top = unnamed(revealed, indices);
        let moved = indices.map_values(|i: usize| revealed[i as int]);
        top.lemma_reverse_to_multiset();
        vstd::seq_lib::lemma_multiset_commutative(top.reverse(), moved);
        assert((top.reverse() + moved).to_multiset() == revealed.to_multiset());
        vstd::seq_lib::to_multiset_len(top.reverse() + moved);
        vstd::seq_lib::to_multiset_len(revealed);
        assert((top.reverse() + moved).len() == top.reverse().len() + moved.len());
    }
}

/// The answer to a scry choice.
pub fn scry_outcome(result: Result<NetworkChoiceResult, NetworkError>, revealed: &[CardId]) -> (r:
    ChoiceResult<ScryDecision>)
    ensures
        match scry_decoded(result, revealed@) {
            Decoded::Chosen(split) => r matches ChoiceResult::Done(d) && d.top@ == split.0 && d.bottom@
                == split.1,
            Decoded::Failed(m) => r matches ChoiceResult::Error(e) && e@ == m,
            Decoded::Exit => r is ExitGame,
        },
{
    match result {
        Err(e) => match e {
            NetworkError::Disconnected => ChoiceResult::ExitGame,
            _ => ChoiceResult::Error(e.message()),
        },
        Ok(res) => match split_pile(revealed, &res.indices) {
            Ok(p) => ChoiceResult::Done(ScryDecision { top: p.top, bottom: p.moved }),
            Err(e) => ChoiceResult::Error(pile_error_message("scry", e, revealed.len())),
        },
    }
}

/// The answer to a surveil choice.
pub fn surveil_outcome(result: Result<NetworkChoiceResult, NetworkError>, revealed: &[CardId]) -> (r:
    ChoiceResult<SurveilDecision>)
    ensures
        match surveil_decoded(result, revealed@) {
            Decoded::Chosen(split) => r matches ChoiceResult::Done(d) && d.top@ == split.0 && d.graveyard@
                == split.1,
            Decoded::Failed(m) => r matches ChoiceResult::Error(e) && e@ == m,
            Decoded::Exit => r is ExitGame,
        },
{
    match result {
        Err(e) => match e {
            NetworkError::Disconnected => ChoiceResult::ExitGame,
            _ => ChoiceResult::Error(e.message()),
        },
        Ok(res) => match split_pile(revealed, &res.indices) {
            Ok(p) => ChoiceResult::Done(SurveilDecision { top: p.top, graveyard: p.moved }),
            Err(e) => ChoiceResult::Error(pile_error_message("surveil", e, revealed.len())),
        },
    }
}

// ---------------------------------------------------------------------------
// Library search, sacrifice and modes
// ---------------------------------------------------------------------------
/// The answer to a library search over `n` names: option `0` (or no
/// option) declines; option `N` picks name `N - 1`.
pub open spec fn library_decoded(result: Result<NetworkChoiceResult, NetworkError>, n: nat) -> Decoded<
    Option<usize>,
> {
    match result {
        Err(e) => failure(e),
        Ok(r) => {
            let raw = first_or_zero(r.indices@);
            if raw == 0 {
                Decoded::Chosen(None)
            } else if raw - 1 < n {
                Decoded::Chosen(Some((raw - 1) as usize))
            } else {
                Decoded::Failed("Invalid library search index from network"@)
            }
        },
    }
}

/// The answer to a library search among `valid_count` names.
pub fn from_library_outcome(result: Result<NetworkChoiceResult, NetworkError>, valid_count: usize) -> (r:
    ChoiceResult<Option<usize>>)
    ensures
        yields(r, library_decoded(result, valid_count as nat)),
{
    match result {
        Err(e) => fail(e),
        Ok(res) => {
            let raw = first_index(&res.indices);
            if raw == 0 {
                ChoiceResult::Done(None)
            } else if raw - 1 < valid_count {
                ChoiceResult::Done(Some(raw - 1))
            } else {
                ChoiceResult::Error("Invalid library search index from network".to_owned())
            }
        },
    }
}

/// The permanents the indices name, each once, in order of first naming;
/// or the first index out of range.
pub open spec fn sacrifice_fold(indices: Seq<usize>, valid: Seq<CardId>) -> Result<Seq<CardId>, usize>
    decreases indices.len(),
{
    if indices.len() == 0 {
        Ok(Seq::empty())
    } else {
        match sacrifice_fold(indices.drop_last(), valid) {
            Err(i) => Err(i),
            Ok(s) => {
                let idx = indices.last();
                if idx < valid.len() {
                    if s.contains(valid[idx as int]) {
                        Ok(s)
                    } else {
                        Ok(s.push(valid[idx as int]))
                    }
                } else {
                    Err(idx)
                }
            },
        }
    }
}

/// The answer to a sacrifice choice.
pub open spec fn sacrifice_decoded(result: Result<NetworkChoiceResult, NetworkError>, valid: Seq<CardId>) -> Decoded<
    Seq<CardId>,
> {
    match result {
        Err(e) => failure(e),
        Ok(r) => match sacrifice_fold(r.indices@, valid) {
            Ok(s) => Decoded::Chosen(s),
            Err(i) => Decoded::Failed(
                "Invalid sacrifice index "@ + dec(i as nat) + " (max "@ + dec(
                    wrapping_pred(valid.len() as usize) as nat,
                ) + ")"@,
            ),
        },
    }
}

proof fn lemma_sacrifice_sticks(indices: Seq<usize>, valid: Seq<CardId>, j: int, k: int)
    requires
        0 <= j <= k <= indices.len(),
        sacrifice_fold(indices.take(j), valid) is Err,
    ensures
        sacrifice_fold(indices.take(k), valid) == sacrifice_fold(indices.take(j), valid),
    decreases k - j,
{
    if k > j {
        lemma_sacrifice_sticks(indices, valid, j, k - 1);
        assert(indices.take(k).drop_last() =~= indices.take(k - 1));
    }
}

fn sacrifice_of_indices(indices: &Vec<usize>, valid: &[CardId]) -> (r: Result<Vec<CardId>, usize>)
    ensures
        match r {
            Ok(v) => sacrifice_fold(indices@, valid@) == Ok::<Seq<CardId>, usize>(v@),
            Err(i) => sacrifice_fold(indices@, valid@) == Err::<Seq<CardId>, usize>(i),
        },
{
    let mut out: Vec<CardId> = Vec::new();
    let mut i: usize = 0;
    assert(indices@.take(0) =~= Seq::<usize>::empty());
    while i < indices.len()
        invariant
            i <= indices@.len(),
            sacrifice_fold(indices@.take(i as int), valid@) == Ok::<Seq<CardId>, usize>(out@),
        decreases indices@.len() - i,
    {
        proof {
            lemma_take_last(indices@, i as int);
        }
        let idx = indices[i];
        if idx < valid.len() {
            let card = valid[idx];
            if !contains_card(out.as_slice(), card) {
                out.push(card);
            }
        } else {
            proof {
                lemma_sacrifice_sticks(indices@, valid@, i + 1, indices@.len() as int);
                assert(indices@.take(indices@.len() as int) =~= indices@);
            }
            return Err(idx);
        }
        i = i + 1;
    }
    assert(indices@.take(i as int) =~= indices@);
    Ok(out)
}

/// The answer to a sacrifice choice. With no permanent to sacrifice, the
/// largest index `0 - 1` in the message wraps around.
pub fn sacrifice_outcome(result: Result<NetworkChoiceResult, NetworkError>, valid_permanents: &[CardId]) -> (r:
    ChoiceResult<Vec<CardId>>)
    ensures
        yields_seq(r, sacrifice_decoded(result, valid_permanents@)),
{
    match result {
        Err(e) => fail_seq(e),
        Ok(res) => match sacrifice_of_indices(&res.indices, valid_permanents) {
            Ok(v) => ChoiceResult::Done(v),
            Err(idx) => ChoiceResult::Error(
                message_with_two(
                    "Invalid sacrifice index ",
                    idx,
                    " (max ",
                    pred_wrapping(valid_permanents.len()),
                    ")",
                ),
            ),
        },
    }
}

/// What is wrong with a mode selection.
pub enum ModeError {
    /// A mode index past the modes.
    OutOfRange(usize),
    /// A mode named again where repeats are not allowed.
    Repeated(usize),
}

/// The modes named, in order; or the first index out of range or repeated
/// (when repeats are not allowed).
pub open spec fn modes_fold(indices: Seq<usize>, n: nat, can_repeat: bool) -> Result<Seq<usize>, ModeError>
    decreases indices.len(),
{
    if indices.len() == 0 {
        Ok(Seq::empty())
    } else {
        match modes_fold(indices.drop_last(), n, can_repeat) {
            Err(e) => Err(e),
            Ok(s) => {
                let idx = indices.last();
                if idx < n {
                    if !can_repeat && s.contains(idx) {
                        Err(ModeError::Repeated(idx))
                    } else {
                        Ok(s.push(idx))
                    }
                } else {
                    Err(ModeError::OutOfRange(idx))
                }
            },
        }
    }
}

/// The answer to a mode choice among `n` modes, of which at least
/// `min_modes` and at most `mode_count` must be chosen.
pub open spec fn modes_decoded(
    result: Result<NetworkChoiceResult, NetworkError>,
    n: nat,
    mode_count: nat,
    min_modes: nat,
    can_repeat: bool,
) -> Decoded<Seq<usize>> {
    match result {
        Err(e) => failure(e),
        Ok(r) => match modes_fold(r.indices@, n, can_repeat) {
            Err(ModeError::Repeated(i)) => Decoded::Failed(
                "Duplicate mode "@ + dec(i as nat) + " selected (repeats not allowed)"@,
            ),
            Err(ModeError::OutOfRange(i)) => Decoded::Failed(
                "Invalid mode index "@ + dec(i as nat) + " (max "@ + dec(wrapping_pred(n as usize) as nat) + ")"@,
            ),
            Ok(s) => if s.len() < min_modes {
                Decoded::Failed(
                    "Too few modes selected: "@ + dec(s.len()) + " (minimum "@ + dec(min_modes) + ")"@,
                )
            } else if s.len() > mode_count {
                Decoded::Failed(
                    "Too many modes selected: "@ + dec(s.len()) + " (maximum "@ + dec(mode_count) + ")"@,
                )
            } else {
                Decoded::Chosen(s)
            },
        },
    }
}

proof fn lemma_modes_fold_valid(indices: Seq<usize>, n: nat, can_repeat: bool)
    ensures
        modes_fold(indices, n, can_repeat) matches Ok(s) ==> s == indices && (forall|k: int|
            0 <= k < s.len() ==> s[k] < n) && (!can_repeat ==> s.no_duplicates()),
    decreases indices.len(),
{
    if indices.len() > 0 {
        lemma_modes_fold_valid(indices.drop_last(), n, can_repeat);
        if let Ok(s) = modes_fold(indices, n, can_repeat) {
            let t = indices.drop_last();
            assert(t.push(indices.last()) =~= indices);
            if !can_repeat {
                assert forall|a: int, b: int| 0 <= a < s.len() && 0 <= b < s.len() && a != b implies s[a] != s[b] by {
                    if b == s.len() - 1 && a < b {
                        assert(t[a] == s[a]);
                        if s[a] == s[b] {
                            assert(t.contains(indices.last()));
                        }
                    } else if a == s.len() - 1 && b < a {
                        assert(t[b] == s[b]);
                        if s[a] == s[b] {
                            assert(t.contains(indices.last()));
                        }
                    }
                }
            }
        }
    }
}

/// Chosen modes are always a valid selection: each names one of the `n`
/// modes, there are at least `min_modes` and at most `mode_count` of them,
/// and none is named twice unless repeats are allowed.
pub proof fn law_chosen_modes_are_valid(
    result: Result<NetworkChoiceResult, NetworkError>,
    n: nat,
    mode_count: nat,
    min_modes: nat,
    can_repeat: bool,
)
    ensures
        modes_decoded(result, n, mode_count, min_modes, can_repeat) matches Decoded::Chosen(modes) ==> {
            &&& forall|k: int| 0 <= k < modes.len() ==> modes[k] < n
            &&& min_modes <= modes.len() <= mode_count
            &&& !can_repeat ==> modes.no_duplicates()
        },
{
    if let Ok(r) = result {
        lemma_modes_fold_valid(r.indices@, n, can_repeat);
    }
}

proof fn lemma_modes_sticks(indices: Seq<usize>, n: nat, can_repeat: bool, j: int, k: int)
    requires
        0 <= j <= k <= indices.len(),
        modes_fold(indices.take(j), n, can_repeat) is Err,
    ensures
        modes_fold(indices.take(k), n, can_repeat) == modes_fold(indices.take(j), n, can_repeat),
    decreases k - j,
{
    if k > j {
        lemma_modes_sticks(indices, n, can_repeat, j, k - 1);
        assert(indices.take(k).drop_last() =~= indices.take(k - 1));
    }
}

fn contains_usize(v: &Vec<usize>, x: usize) -> (b: bool)
    ensures
        b == v@.contains(x),
{
    let mut i: usize = 0;
    while i < v.len()
        invariant
            i <= v@.len(),
            forall|k: int| 0 <= k < i ==> v@[k] != x,
        decreases v@.len() - i,
    {
        if v[i] == x {
            assert(v@[i as int] == x);
            return true;
        }
        i = i + 1;
    }
    false
}

fn modes_of_indices(indices: &Vec<usize>, n: usize, can_repeat: bool) -> (r: Result<Vec<usize>, ModeError>)
    ensures
        match r {
            Ok(v) => modes_fold(indices@, n as nat, can_repeat) == Ok::<Seq<usize>, ModeError>(v@),
            Err(e) => modes_fold(indices@, n as nat, can_repeat) == Err::<Seq<usize>, ModeError>(e),
        },
{
    let mut modes: Vec<usize> = Vec::new();
    let mut i: usize = 0;
    assert(indices@.take(0) =~= Seq::<usize>::empty());
    while i < indices.len()
        invariant
            i <= indices@.len(),
            modes_fold(indices@.take(i as int), n as nat, can_repeat) == Ok::<Seq<usize>, ModeError>(modes@),
        decreases indices@.len() - i,
    {
        proof {
            lemma_take_last(indices@, i as int);
        }
        let idx = indices[i];
        if idx < n {
            if !can_repeat && contains_usize(&modes, idx) {
                proof {
                    lemma_modes_sticks(indices@, n as nat, can_repeat, i + 1, indices@.len() as int);
                    assert(indices@.take(indices@.len() as int) =~= indices@);
                }
                return Err(ModeError::Repeated(idx));
            }
            modes.push(idx);
        } else {
            proof {
                lemma_modes_sticks(indices@, n as nat, can_repeat, i + 1, indices@.len() as int);
                assert(indices@.take(indices@.len() as int) =~= indices@);
            }
            return Err(ModeError::OutOfRange(idx));
        }
        i = i + 1;
    }
    assert(indices@.take(i as int) =~= indices@);
    Ok(modes)
}

/// The answer to a mode choice among `mode_descriptions_len` modes. With
/// no mode at all, the largest index `0 - 1` in the message wraps around.
pub fn modes_outcome(
    result: Result<NetworkChoiceResult, NetworkError>,
    mode_descriptions_len: usize,
    mode_count: usize,
    min_modes: usize,
    can_repeat: bool,
) -> (r: ChoiceResult<Vec<usize>>)
    ensures
        yields_seq(
            r,
            modes_decoded(
                result,
                mode_descriptions_len as nat,
                mode_count as nat,
                min_modes as nat,
                can_repeat,
            ),
        ),
{
    match result {
        Err(e) => fail_seq(e),
        Ok(res) => match modes_of_indices(&res.indices, mode_descriptions_len, can_repeat) {
            Err(ModeError::Repeated(idx)) => ChoiceResult::Error(
                message_with_index("Duplicate mode ", idx, " selected (repeats not allowed)"),
            ),
            Err(ModeError::OutOfRange(idx)) => ChoiceResult::Error(
                message_with_two("Invalid mode index ", idx, " (max ", pred_wrapping(mode_descriptions_len), ")"),
            ),
            Ok(modes) => {
                if modes.len() < min_modes {
                    return ChoiceResult::Error(
                        message_with_two(
                            "Too few modes selected: ",
                            modes.len(),
                            " (minimum ",
                            min_modes,
                            ")",
                        ),
                    );
                }
                if modes.len() > mode_count {
                    return ChoiceResult::Error(
                        message_with_two(
                            "Too many modes selected: ",
                            modes.len(),
                            " (maximum ",
                            mode_count,
                            ")",
                        ),
                    );
                }
                ChoiceResult::Done(modes)
            },
        },
    }
}

/// The answer to a choice of permanents not to untap: none are chosen,
/// everything untaps.
pub fn not_untap_outcome() -> (r: ChoiceResult<Vec<CardId>>)
    ensures
        r matches ChoiceResult::Done(v) && v@.len() == 0,
{
    ChoiceResult::Done(Vec::new())
}

// ---------------------------------------------------------------------------
// Only offered cards are chosen
// ---------------------------------------------------------------------------
/// Every card of `s` is one of `offered`.
pub open spec fn all_offered(s: Seq<CardId>, offered: Seq<CardId>) -> bool {
    forall|k: int| 0 <= k < s.len() ==> offered.contains(#[trigger] s[k])
}

proof fn lemma_push_offered(s: Seq<CardId>, offered: Seq<CardId>, i: int)
    requires
        all_offered(s, offered),
        0 <= i < offered.len(),
    ensures
        all_offered(s.push(offered[i]), offered),
{
    assert forall|k: int| 0 <= k < s.push(offered[i]).len() implies offered.contains(#[trigger] s.push(offered[i])[k]) by {
        if k == s.len() {
            assert(offered[i] == s.push(offered[i])[k]);
        } else {
            assert(s.push(offered[i])[k] == s[k]);
        }
    }
}

proof fn lemma_attackers_offered(indices: Seq<usize>, available: Seq<CardId>)
    ensures
        attackers_fold(indices, available) matches Ok(s) ==> all_offered(s, available),
    decreases indices.len(),
{
    if indices.len() > 0 {
        lemma_attackers_offered(indices.drop_last(), available);
        if let Ok(s) = attackers_fold(indices.drop_last(), available) {
            let idx = indices.last();
            if idx != 0 && idx - 1 < available.len() {
                lemma_push_offered(s, available, idx - 1);
            }
        }
    }
}

proof fn lemma_positions_offered(indices: Seq<usize>, slice: Seq<CardId>)
    ensures
        positions_fold(indices, slice) matches Ok(s) ==> all_offered(s, slice),
    decreases indices.len(),
{
    if indices.len() > 0 {
        lemma_positions_offered(indices.drop_last(), slice);
        if let Ok(s) = positions_fold(indices.drop_last(), slice) {
            let idx = indices.last();
            if idx < slice.len() {
                lemma_push_offered(s, slice, idx as int);
            }
        }
    }
}

proof fn lemma_sacrifices_offered(indices: Seq<usize>, valid: Seq<CardId>)
    ensures
        sacrifice_fold(indices, valid) matches Ok(s) ==> all_offered(s, valid),
    decreases indices.len(),
{
    if indices.len() > 0 {
        lemma_sacrifices_offered(indices.drop_last(), valid);
        if let Ok(s) = sacrifice_fold(indices.drop_last(), valid) {
            let idx = indices.last();
            if idx < valid.len() && !s.contains(valid[idx as int]) {
                lemma_push_offered(s, valid, idx as int);
            }
        }
    }
}

/// The blocks of `s` pair offered blockers with attackers.
pub open spec fn pairs_offered(s: Seq<(CardId, CardId)>, blockers: Seq<CardId>, attackers: Seq<CardId>) -> bool {
    forall|k: int| #![trigger s[k]] 0 <= k < s.len() ==> blockers.contains(s[k].0) && attackers.contains(s[k].1)
}

proof fn lemma_push_pair_offered(s: Seq<(CardId, CardId)>, blockers: Seq<CardId>, attackers: Seq<CardId>, b: int, a: int)
    requires
        pairs_offered(s, blockers, attackers),
        0 <= b < blockers.len(),
        0 <= a < attackers.len(),
    ensures
        pairs_offered(s.push((blockers[b], attackers[a])), blockers, attackers),
{
    let t = s.push((blockers[b], attackers[a]));
    assert forall|k: int| #![trigger t[k]] 0 <= k < t.len() implies blockers.contains(t[k].0) && attackers.contains(t[k].1) by {
        if k == s.len() {
            assert(t[k] == (blockers[b], attackers[a]));
            assert(blockers[b] == t[k].0);
            assert(attackers[a] == t[k].1);
        } else {
            assert(t[k] == s[k]);
            assert(blockers.contains(s[k].0) && attackers.contains(s[k].1));
        }
    }
}

proof fn lemma_blocks_offered(indices: Seq<usize>, blockers: Seq<CardId>, attackers: Seq<CardId>)
    ensures
        blocks_fold(indices, blockers, attackers) matches Ok(s) ==> pairs_offered(s, blockers, attackers),
    decreases indices.len(),
{
    if indices.len() > 0 {
        lemma_blocks_offered(indices.drop_last(), blockers, attackers);
        if let Ok(s) = blocks_fold(indices.drop_last(), blockers, attackers) {
            let idx = indices.last();
            if idx != 0 && attackers.len() != 0 {
                let pair = idx - 1;
                let b = pair / (attackers.len() as int);
                let a = pair % (attackers.len() as int);
                if b < blockers.len() && a < attackers.len() {
                    assert(0 <= b && 0 <= a) by (nonlinear_arith)
                        requires
                            pair >= 0,
                            attackers.len() > 0,
                            b == pair / (attackers.len() as int),
                            a == pair % (attackers.len() as int),
                    ;
                    lemma_push_pair_offered(s, blockers, attackers, b, a);
                }
            }
        }
    }
}

/// A remote player can only choose cards that were offered: chosen
/// attackers are available creatures, each block pairs an offered blocker
/// with an attacker, and discarded, sacrificed, targeted or paying cards
/// are among the cards offered for that choice.
pub proof fn law_only_offered_cards_are_chosen(
    result: Result<NetworkChoiceResult, NetworkError>,
    offered: Seq<CardId>,
    blockers: Seq<CardId>,
    attackers: Seq<CardId>,
)
    ensures
        attackers_decoded(result, offered) matches Decoded::Chosen(s) ==> all_offered(s, offered),
        blockers_decoded(result, blockers, attackers) matches Decoded::Chosen(p) ==> pairs_offered(
            p,
            blockers,
            attackers,
        ),
        discard_decoded(result, offered) matches Decoded::Chosen(s) ==> all_offered(s, offered),
        sacrifice_decoded(result, offered) matches Decoded::Chosen(s) ==> all_offered(s, offered),
        single_decoded(result, offered, "Invalid target index from network"@) matches Decoded::Chosen(s)
            ==> all_offered(s, offered),
{
    if let Ok(r) = result {
        lemma_attackers_offered(r.indices@, offered);
        lemma_blocks_offered(r.indices@, blockers, attackers);
        if let Decoded::Chosen(p) = blockers_decoded(result, blockers, attackers) {
            if !selects_nothing(r.indices@) {
                assert(blocks_fold(r.indices@, blockers, attackers) == Ok::<Seq<(CardId, CardId)>, usize>(p));
            } else {
                assert(p.len() == 0);
            }
        }
        lemma_positions_offered(r.indices@, offered);
        lemma_sacrifices_offered(r.indices@, offered);
        let idx = first_or_zero(r.indices@);
        if idx < offered.len() {
            lemma_push_offered(Seq::empty(), offered, idx as int);
            assert(seq![offered[idx as int]] =~= Seq::<CardId>::empty().push(offered[idx as int]));
        }
    }
}

} // verus!
