//! Encoding the local player's choices as the indices the server expects.
//!
//! The local controller decides, then sends the positions of what it
//! picked among the options it was offered; the remote side decodes the
//! same positions against the same options (see `choice_decode`). Picks
//! that are not among the options are not sent.
use crate::choice_decode::{attackers_of, blocks_of, subset_of};
use crate::choice_outcomes::{priority_decoded, Decoded};
use crate::client::{LocalChoiceInfo, NetworkMessage};
use crate::controller::{NetworkChoiceResult, NetworkError};
use crate::game_types::{CardId, PlayerId, SpellAbility};
use crate::protocol::{CardReveal, ClientMessage, RevealReason};
use crate::sync_debug::DebugSyncInfo;
use vstd::prelude::*;

verus! {

/// A choice made by the local player, to be sent to the server.
#[derive(Debug, Clone)]
pub struct LocalChoice {
    /// The option indices selected.
    pub choice_indices: Vec<usize>,
    /// What was chosen, for people.
    pub description: String,
    /// The action count when the choice was made.
    pub action_count: u64,
    /// The last actions of the undo log, for sync debugging.
    pub last_actions: Option<String>,
    /// The client's state hash, for the server to check in debug mode.
    pub client_state_hash: Option<u64>,
    /// Debug synchronization info (network debug mode only).
    pub debug_info: Option<DebugSyncInfo>,
}

/// A card reveal waiting to be processed.
#[derive(Debug, Clone)]
pub struct BufferedReveal {
    pub owner: crate::game_types::PlayerId,
    pub card: crate::protocol::CardReveal,
    pub reason: crate::protocol::RevealReason,
}

/// A card reveal reduced to its card.
#[derive(Debug, Clone)]
pub struct BundledReveal {
    pub owner: crate::game_types::PlayerId,
    pub card_id: CardId,
    pub card_name: String,
    pub reason: crate::protocol::RevealReason,
}

// ---------------------------------------------------------------------------
// Positions
// ---------------------------------------------------------------------------
/// The position of the first occurrence of `x` in `s`.
pub open spec fn index_of<T>(s: Seq<T>, x: T) -> Option<int>
    decreases s.len(),
{
    if s.len() == 0 {
        None
    } else {
        match index_of(s.drop_last(), x) {
            Some(i) => Some(i),
            None => if s.last() == x {
                Some(s.len() - 1)
            } else {
                None
            },
        }
    }
}

/// The picks that are among the options, in order.
pub open spec fn known(chosen: Seq<CardId>, options: Seq<CardId>) -> Seq<CardId>
    decreases chosen.len(),
{
    if chosen.len() == 0 {
        Seq::empty()
    } else {
        let r = known(chosen.drop_last(), options);
        if index_of(options, chosen.last()) is Some {
            r.push(chosen.last())
        } else {
            r
        }
    }
}

/// The positions of the picks among the options, plus `shift`; picks that
/// are not among the options are skipped.
pub open spec fn positions_in(chosen: Seq<CardId>, options: Seq<CardId>, shift: int) -> Seq<usize>
    decreases chosen.len(),
{
    if chosen.len() == 0 {
        Seq::empty()
    } else {
        let r = positions_in(chosen.drop_last(), options, shift);
        match index_of(options, chosen.last()) {
            Some(i) => r.push((i + shift) as usize),
            None => r,
        }
    }
}

/// The indices of a declare-attackers choice: attacker `N` is sent as
/// `N + 1`; no attacker at all is sent as the single index `0`.
pub open spec fn attacker_indices_of(chosen: Seq<CardId>, available: Seq<CardId>) -> Seq<usize> {
    let p = positions_in(chosen, available, 1);
    if p.len() == 0 {
        seq![0usize]
    } else {
        p
    }
}

/// The blocks whose blocker and attacker are both among the options.
pub open spec fn known_blocks(
    blocks: Seq<(CardId, CardId)>,
    blockers: Seq<CardId>,
    attackers: Seq<CardId>,
) -> Seq<(CardId, CardId)>
    decreases blocks.len(),
{
    if blocks.len() == 0 {
        Seq::empty()
    } else {
        let r = known_blocks(blocks.drop_last(), blockers, attackers);
        let (b, a) = blocks.last();
        if index_of(blockers, b) is Some && index_of(attackers, a) is Some {
            r.push(blocks.last())
        } else {
            r
        }
    }
}

/// The index a block is sent as: blocker `B` on attacker `A`, out of `n`
/// attackers, is `B * n + A + 1`.
pub open spec fn block_code(b: int, a: int, n: int) -> int {
    b * n + a + 1
}

/// The codes of the blocks whose blocker and attacker are both among the
/// options.
pub open spec fn block_codes(blocks: Seq<(CardId, CardId)>, blockers: Seq<CardId>, attackers: Seq<CardId>) -> Seq<
    usize,
>
    decreases blocks.len(),
{
    if blocks.len() == 0 {
        Seq::empty()
    } else {
        let r = block_codes(blocks.drop_last(), blockers, attackers);
        let (b, a) = blocks.last();
        match (index_of(blockers, b), index_of(attackers, a)) {
            (Some(bi), Some(ai)) => r.push(block_code(bi, ai, attackers.len() as int) as usize),
            _ => r,
        }
    }
}

/// The indices of a declare-blockers choice; no block at all is sent as
/// the single index `0`.
pub open spec fn blocker_indices_of(
    blocks: Seq<(CardId, CardId)>,
    blockers: Seq<CardId>,
    attackers: Seq<CardId>,
) -> Seq<usize> {
    let p = block_codes(blocks, blockers, attackers);
    if p.len() == 0 {
        seq![0usize]
    } else {
        p
    }
}

/// The index of a priority choice: `0` passes (or names an ability that
/// was not offered); ability `N` is sent as `N + 1`.
pub open spec fn ability_index_of(choice: Option<SpellAbility>, available: Seq<SpellAbility>) -> usize {
    match choice {
        None => 0,
        Some(a) => match index_of(available, a) {
            Some(i) => (i + 1) as usize,
            None => 0,
        },
    }
}

/// The index of a library pick: the card's position, or the number of
/// candidates when nothing (or a card not offered) is picked.
pub open spec fn library_index_of(choice: Option<CardId>, valid: Seq<CardId>) -> usize {
    match choice {
        Some(c) => match index_of(valid, c) {
            Some(i) => i as usize,
            None => valid.len() as usize,
        },
        None => valid.len() as usize,
    }
}

proof fn lemma_index_of_bounds<T>(s: Seq<T>, x: T)
    ensures
        match index_of(s, x) {
            Some(i) => 0 <= i < s.len() && s[i] == x && forall|j: int| 0 <= j < i ==> s[j] != x,
            None => forall|j: int| 0 <= j < s.len() ==> s[j] != x,
        },
    decreases s.len(),
{
    if s.len() > 0 {
        let init = s.drop_last();
        lemma_index_of_bounds(init, x);
        assert forall|j: int| 0 <= j < init.len() implies s[j] == init[j] by {}
        match index_of(init, x) {
            Some(i) => {
                assert(s[i] == init[i]);
            },
            None => {},
        }
    }
}

proof fn lemma_take_last<A>(s: Seq<A>, i: int)
    requires
        0 <= i < s.len(),
    ensures
        s.take(i + 1).drop_last() == s.take(i),
        s.take(i + 1).last() == s[i],
{
    assert(s.take(i + 1).drop_last() =~= s.take(i));
}

fn card_index(s: &[CardId], x: CardId) -> (r: Option<usize>)
    ensures
        match r {
            Some(i) => i < s@.len() && index_of(s@, x) == Some(i as int),
            None => index_of(s@, x) is None,
        },
{
    let mut i: usize = 0;
    while i < s.len()
        invariant
            i <= s@.len(),
            forall|j: int| 0 <= j < i ==> s@[j] != x,
        decreases s@.len() - i,
    {
        if s[i] == x {
            proof {
                lemma_index_of_bounds(s@, x);
                match index_of(s@, x) {
                    Some(k) => {
                        assert(k == i);
                    },
                    None => {},
                }
            }
            return Some(i);
        }
        i = i + 1;
    }
    proof {
        lemma_index_of_bounds(s@, x);
        match index_of(s@, x) {
            Some(k) => {
                assert(s@[k] == x);
            },
            None => {},
        }
    }
    None
}

fn ability_position(s: &[SpellAbility], x: SpellAbility) -> (r: Option<usize>)
    ensures
        match r {
            Some(i) => i < s@.len() && index_of(s@, x) == Some(i as int),
            None => index_of(s@, x) is None,
        },
{
    let mut i: usize = 0;
    while i < s.len()
        invariant
            i <= s@.len(),
            forall|j: int| 0 <= j < i ==> s@[j] != x,
        decreases s@.len() - i,
    {
        if s[i] == x {
            proof {
                lemma_index_of_bounds(s@, x);
                match index_of(s@, x) {
                    Some(k) => {
                        assert(k == i);
                    },
                    None => {},
                }
            }
            return Some(i);
        }
        i = i + 1;
    }
    proof {
        lemma_index_of_bounds(s@, x);
        match index_of(s@, x) {
            Some(k) => {
                assert(s@[k] == x);
            },
            None => {},
        }
    }
    None
}

// ---------------------------------------------------------------------------
// Encoders
// ---------------------------------------------------------------------------
/// The positions of the picks among the options (targets, mana sources,
/// damage order, discards, sacrifices, permanents kept tapped).
pub fn pick_indices(chosen: &[CardId], options: &[CardId]) -> (r: Vec<usize>)
    ensures
        r@ == positions_in(chosen@, options@, 0),
{
    let mut out: Vec<usize> = Vec::new();
    let mut i: usize = 0;
    assert(chosen@.take(0) =~= Seq::<CardId>::empty());
    while i < chosen.len()
        invariant
            i <= chosen@.len(),
            out@ == positions_in(chosen@.take(i as int), options@, 0),
        decreases chosen@.len() - i,
    {
        proof {
            lemma_take_last(chosen@, i as int);
        }
        match card_index(options, chosen[i]) {
            Some(p) => {
                out.push(p);
            },
            None => {},
        }
        i = i + 1;
    }
    assert(chosen@.take(i as int) =~= chosen@);
    out
}

/// The indices of a declare-attackers choice.
pub fn attacker_indices(chosen: &[CardId], available: &[CardId]) -> (r: Vec<usize>)
    ensures
        r@ == attacker_indices_of(chosen@, available@),
{
    let mut out: Vec<usize> = Vec::new();
    let mut i: usize = 0;
    let n = available.len();
    assert(chosen@.take(0) =~= Seq::<CardId>::empty());
    while i < chosen.len()
        invariant
            n == available@.len(),
            i <= chosen@.len(),
            out@ == positions_in(chosen@.take(i as int), available@, 1),
        decreases chosen@.len() - i,
    {
        proof {
            lemma_take_last(chosen@, i as int);
        }
        match card_index(available, chosen[i]) {
            Some(p) => {
                out.push(p + 1);
            },
            None => {},
        }
        i = i + 1;
    }
    assert(chosen@.take(i as int) =~= chosen@);
    if out.len() == 0 {
        let v: Vec<usize> = vec![0];
        assert(v@ =~= seq![0usize]);
        v
    } else {
        out
    }
}

/// The indices of a declare-blockers choice.
pub fn blocker_indices(blocks: &[(CardId, CardId)], available_blockers: &[CardId], attackers: &[CardId]) -> (r:
    Vec<usize>)
    requires
        available_blockers@.len() * attackers@.len() <= usize::MAX,
    ensures
        r@ == blocker_indices_of(blocks@, available_blockers@, attackers@),
{
    let mut out: Vec<usize> = Vec::new();
    let n = attackers.len();
    let mut i: usize = 0;
    assert(blocks@.take(0) =~= Seq::<(CardId, CardId)>::empty());
    while i < blocks.len()
        invariant
            n == attackers@.len(),
            available_blockers@.len() * attackers@.len() <= usize::MAX,
            i <= blocks@.len(),
            out@ == block_codes(blocks@.take(i as int), available_blockers@, attackers@),
        decreases blocks@.len() - i,
    {
        proof {
            lemma_take_last(blocks@, i as int);
        }
        let (b, a) = blocks[i];
        match (card_index(available_blockers, b), card_index(attackers, a)) {
            (Some(bi), Some(ai)) => {
                proof {
                    let nb = available_blockers@.len() as int;
                    assert(bi * n + ai + 1 <= nb * n) by (nonlinear_arith)
                        requires
                            bi < nb,
                            ai < n,
                            0 <= bi,
                    ;
                }
                out.push(bi * n + ai + 1);
            },
            _ => {},
        }
        i = i + 1;
    }
    assert(blocks@.take(i as int) =~= blocks@);
    if out.len() == 0 {
        let v: Vec<usize> = vec![0];
        assert(v@ =~= seq![0usize]);
        v
    } else {
        out
    }
}

/// The index of a priority choice.
pub fn spell_ability_index(choice: &Option<SpellAbility>, available: &[SpellAbility]) -> (r: usize)
    ensures
        r == ability_index_of(*choice, available@),
{
    match choice {
        None => 0,
        Some(ability) => {
            let n = available.len();
            match ability_position(available, *ability) {
                Some(i) => {
                    assert(i < n);
                    i + 1
                },
                None => 0,
            }
        },
    }
}

/// The index of a library pick.
pub fn library_index(choice: Option<CardId>, valid_cards: &[CardId]) -> (r: usize)
    ensures
        r == library_index_of(choice, valid_cards@),
{
    match choice {
        Some(card) => match card_index(valid_cards, card) {
            Some(i) => i,
            None => valid_cards.len(),
        },
        None => valid_cards.len(),
    }
}

/// The choice the local player is asked for: its sequence number and the
/// server's action count; `None` when the game is over or failed.
pub fn choice_info(info: Option<LocalChoiceInfo>) -> (r: Option<(u32, u64)>)
    ensures
        r == match info {
            Some(LocalChoiceInfo::Request { choice_seq, action_count, .. }) => Some((choice_seq, action_count)),
            _ => None::<(u32, u64)>,
        },
{
    match info {
        Some(LocalChoiceInfo::Request { choice_seq, action_count, .. }) => Some((choice_seq, action_count)),
        _ => None,
    }
}

/// The message that submits a choice (sent and not waited on), with the
/// ability and the cards it names where the choice has them.
pub fn submit_choice(
    choice_seq: u32,
    choice_indices: Vec<usize>,
    action_count: u64,
    client_state_hash: Option<u64>,
    debug_info: Option<DebugSyncInfo>,
    spell_ability: Option<SpellAbility>,
    target_card_ids: Option<Vec<CardId>>,
) -> (m: ClientMessage)
    ensures
        m == (ClientMessage::SubmitChoice {
            choice_seq,
            choice_indices,
            action_count,
            timestamp_ms: 0,
            client_state_hash,
            debug_info,
            spell_ability,
            target_card_ids,
        }),
{
    ClientMessage::SubmitChoice {
        choice_seq,
        choice_indices,
        action_count,
        timestamp_ms: 0,
        client_state_hash,
        debug_info,
        spell_ability,
        target_card_ids,
    }
}


// ---------------------------------------------------------------------------
// What the remote side reads back
// ---------------------------------------------------------------------------
proof fn lemma_positions_round_trip(chosen: Seq<CardId>, options: Seq<CardId>, shift: int)
    requires
        0 <= shift <= 1,
        options.len() + shift <= usize::MAX + 1,
    ensures
        positions_in(chosen, options, shift).len() == known(chosen, options).len(),
        shift == 0 ==> subset_of(positions_in(chosen, options, 0), options) == known(chosen, options),
        shift == 1 ==> attackers_of(positions_in(chosen, options, 1), options) == known(chosen, options),
    decreases chosen.len(),
{
    if chosen.len() > 0 {
        let init = chosen.drop_last();
        lemma_positions_round_trip(init, options, shift);
        lemma_index_of_bounds(options, chosen.last());
        let p = positions_in(chosen, options, shift);
        match index_of(options, chosen.last()) {
            Some(i) => {
                let q = positions_in(init, options, shift);
                assert(p == q.push((i + shift) as usize));
                assert(p.drop_last() =~= q);
            },
            None => {},
        }
    }
}

/// Decoding the indices of a subset choice (targets, mana sources, damage
/// order, discards, sacrifices) against the options it was made over
/// gives back the picks that are among the options, in order.
pub proof fn law_pick_round_trip(chosen: Seq<CardId>, options: Seq<CardId>)
    requires
        options.len() <= usize::MAX,
    ensures
        subset_of(positions_in(chosen, options, 0), options) == known(chosen, options),
{
    lemma_positions_round_trip(chosen, options, 0);
}

/// Decoding the indices of a declare-attackers choice gives back the
/// attackers that were available, in order; declaring none sends the
/// single index `0`, which decodes to no attacker.
pub proof fn law_attackers_round_trip(chosen: Seq<CardId>, available: Seq<CardId>)
    requires
        available.len() <= usize::MAX,
    ensures
        attackers_of(attacker_indices_of(chosen, available), available) == known(chosen, available),
{
    lemma_positions_round_trip(chosen, available, 1);
    let p = positions_in(chosen, available, 1);
    if p.len() == 0 {
        let z = seq![0usize];
        assert(z.drop_last() =~= Seq::<usize>::empty());
        assert(z.last() == 0usize);
        assert(attackers_of(z.drop_last(), available) =~= Seq::<CardId>::empty());
        assert(attackers_of(z, available) =~= Seq::<CardId>::empty());
    }
}

proof fn lemma_block_codes_round_trip(blocks: Seq<(CardId, CardId)>, blockers: Seq<CardId>, attackers: Seq<CardId>)
    requires
        blockers.len() * attackers.len() <= usize::MAX,
    ensures
        block_codes(blocks, blockers, attackers).len() == known_blocks(blocks, blockers, attackers).len(),
        blocks_of(block_codes(blocks, blockers, attackers), blockers, attackers) == known_blocks(
            blocks,
            blockers,
            attackers,
        ),
    decreases blocks.len(),
{
    if blocks.len() > 0 {
        let init = blocks.drop_last();
        lemma_block_codes_round_trip(init, blockers, attackers);
        let (b, a) = blocks.last();
        lemma_index_of_bounds(blockers, b);
        lemma_index_of_bounds(attackers, a);
        let q = block_codes(init, blockers, attackers);
        let p = block_codes(blocks, blockers, attackers);
        match (index_of(blockers, b), index_of(attackers, a)) {
            (Some(bi), Some(ai)) => {
                let n = attackers.len() as int;
                let nb = blockers.len() as int;
                let code = block_code(bi, ai, n);
                assert(code <= nb * n) by (nonlinear_arith)
                    requires
                        0 <= bi < nb,
                        0 <= ai < n,
                        code == bi * n + ai + 1,
                ;
                assert(p == q.push(code as usize));
                assert(p.drop_last() =~= q);
                vstd::arithmetic::div_mod::lemma_fundamental_div_mod_converse(code - 1, n, bi, ai);
                assert((code - 1) / n == bi);
                assert((code - 1) % n == ai);
            },
            _ => {},
        }
    }
}

/// Decoding the indices of a declare-blockers choice gives back the blocks
/// whose blocker and attacker were both offered, in order; declaring none
/// sends the single index `0`, which decodes to no block.
pub proof fn law_blockers_round_trip(
    blocks: Seq<(CardId, CardId)>,
    available_blockers: Seq<CardId>,
    attackers: Seq<CardId>,
)
    requires
        available_blockers.len() * attackers.len() <= usize::MAX,
    ensures
        blocks_of(blocker_indices_of(blocks, available_blockers, attackers), available_blockers, attackers)
            == known_blocks(blocks, available_blockers, attackers),
{
    lemma_block_codes_round_trip(blocks, available_blockers, attackers);
    let p = block_codes(blocks, available_blockers, attackers);
    if p.len() == 0 {
        let z = seq![0usize];
        assert(z.drop_last() =~= Seq::<usize>::empty());
        assert(z.last() == 0usize);
        assert(blocks_of(z.drop_last(), available_blockers, attackers) =~= Seq::<(CardId, CardId)>::empty());
        assert(blocks_of(z, available_blockers, attackers) =~= Seq::<(CardId, CardId)>::empty());
    }
}

/// The remote side reads a priority choice back as the same choice: a
/// pass, or the offered ability the local player played.
pub proof fn law_priority_round_trip(
    choice: Option<SpellAbility>,
    available: Seq<SpellAbility>,
    sent: NetworkChoiceResult,
)
    requires
        available.len() < usize::MAX,
        choice matches Some(a) ==> available.contains(a),
        sent.indices@ == seq![ability_index_of(choice, available)],
        sent.spell_ability == choice,
    ensures
        priority_decoded(Ok::<NetworkChoiceResult, NetworkError>(sent), available) == Decoded::Chosen(choice),
{
    match choice {
        Some(a) => {
            lemma_index_of_bounds(available, a);
            let j = choose|j: int| 0 <= j < available.len() && available[j] == a;
            assert(available[j] == a);
        },
        None => {},
    }
}

// ---------------------------------------------------------------------------
// Routing what the connection reads
// ---------------------------------------------------------------------------
/// Where a message read from the connection goes while a local game runs.
#[derive(Debug, Clone)]
pub enum ReaderRoute {
    /// Reveals for the game loop's reveal buffer.
    Buffer(Vec<BufferedReveal>),
    /// A message for the controllers.
    Forward(NetworkMessage),
}

/// The reveals that the candidates of a library search become: one
/// `Searched` reveal per card, owned by the searcher, in order.
pub open spec fn searched_reveals(searcher: PlayerId, cards: Seq<CardReveal>, r: Seq<BufferedReveal>) -> bool {
    &&& r.len() == cards.len()
    &&& forall|i: int|
        0 <= i < r.len() ==> #[trigger] r[i].owner == searcher && r[i].card == cards[i] && r[i].reason
            == RevealReason::Searched
}

/// Route a message: a reveal goes to the reveal buffer as it is, the
/// candidates of a library search go there as one searched reveal each,
/// and everything else goes to the controllers.
pub fn route_reader_message(msg: NetworkMessage) -> (r: ReaderRoute)
    ensures
        match msg {
            NetworkMessage::CardRevealed { owner, card, reason, .. } => r matches ReaderRoute::Buffer(v) && v@.len()
                == 1 && v@[0].owner == owner && v@[0].card == card && v@[0].reason == reason,
            NetworkMessage::SearchCandidates { searcher, cards, .. } => r matches ReaderRoute::Buffer(v)
                && searched_reveals(searcher, cards@, v@),
            _ => r matches ReaderRoute::Forward(m) && m == msg,
        },
{
    match msg {
        NetworkMessage::CardRevealed { owner, card, reason, .. } => {
            let mut v: Vec<BufferedReveal> = Vec::new();
            v.push(BufferedReveal { owner, card, reason });
            ReaderRoute::Buffer(v)
        },
        NetworkMessage::SearchCandidates { searcher, cards, .. } => {
            let mut v: Vec<BufferedReveal> = Vec::new();
            let mut rest = cards;
            let ghost all = rest@;
            let total = rest.len();
            assert(all.len() == total);
            let mut i: usize = 0;
            while rest.len() > 0
                invariant
                    i + rest@.len() == all.len(),
                    all.len() <= usize::MAX,
                    rest@ == all.skip(i as int),
                    searched_reveals(searcher, all.take(i as int), v@),
                decreases rest@.len(),
            {
                let card = rest.remove(0);
                proof {
                    assert(card == all[i as int]);
                    assert(rest@ =~= all.skip(i + 1));
                }
                let ghost prev = v@;
                v.push(BufferedReveal { owner: searcher, card, reason: RevealReason::Searched });
                proof {
                    assert(all.take(i + 1) =~= all.take(i as int).push(all[i as int]));
                    assert forall|q: int| 0 <= q < v@.len() implies #[trigger] v@[q].owner == searcher && v@[q].card
                        == all.take(i + 1)[q] && v@[q].reason == RevealReason::Searched by {
                        if q < prev.len() {
                            assert(v@[q] == prev[q]);
                            assert(prev[q].owner == searcher && prev[q].card == all.take(i as int)[q]);
                        } else {
                            assert(q == i);
                        }
                    }
                }
                i = i + 1;
            }
            assert(all.take(i as int) =~= all);
            ReaderRoute::Buffer(v)
        },
        other => ReaderRoute::Forward(other),
    }
}

/// What the controllers are told when the connection ends: the server
/// closing it ends the game with no winner, an error is a fatal one.
pub fn connection_end_message(error: Option<String>) -> (m: NetworkMessage)
    ensures
        match error {
            None => m == NetworkMessage::GameEnded { winner: None, action_count: 0 },
            Some(e) => m == NetworkMessage::Error { message: e, fatal: true },
        },
{
    match error {
        None => NetworkMessage::GameEnded { winner: None, action_count: 0 },
        Some(e) => NetworkMessage::Error { message: e, fatal: true },
    }
}

} // verus!
