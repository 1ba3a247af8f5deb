//! The client side of a networked game: what the reader hands the game
//! loop, and the buffers both share.
//!
//! Server messages the game loop cares about become `NetworkMessage`s; the
//! rest are consumed before the game starts. Reveals and library reorders
//! go into a state-sync log keyed by the true game `action_count`;
//! opponent choices and the acknowledgements of our own choices go into
//! logs keyed by choice sequence number. Reads are non-destructive: only
//! cursors move, so a rewind can replay from the start.
use crate::action_log::{frontier_of, has_key, keys_strictly_increasing, lookup, ActionLog};
use crate::choice_entry::{ChoiceEntry, ChoicePayload};
use crate::game_types::{CardId, PlayerId, SpellAbility};
use crate::mvar::MVar;
use crate::protocol::{
    entry_views, pair_views, pairs_of_entries, BufferedFact, CardReveal, ChoiceType, DeckList,
    DeckSubmission, RevealReason, ServerMessage,
};
use vstd::prelude::*;

verus! {

// ---------------------------------------------------------------------------
// Messages for the game loop
// ---------------------------------------------------------------------------
/// A server message, as the game loop receives it.
#[derive(Debug, Clone)]
pub enum NetworkMessage {
    /// A card was revealed.
    CardRevealed { owner: PlayerId, card: CardReveal, reason: RevealReason, action_count: Option<u64> },
    /// The server asks us for a choice.
    ChoiceRequest {
        action_count: u64,
        choice_seq: u32,
        abilities: Option<Vec<Option<SpellAbility>>>,
        library_search_names: Option<Vec<String>>,
        library_search_counts: Option<Vec<usize>>,
        buffer: Vec<(u64, BufferedFact)>,
    },
    /// The server accepted our choice.
    ChoiceAccepted { choice_seq: u32, action_count: u64, library_search_result: Option<CardId> },
    /// The opponent made a choice.
    OpponentChoice {
        action_count: u64,
        choice_seq: u32,
        description: String,
        payload: ChoicePayload,
    },
    /// The game ended.
    GameEnded { winner: Option<PlayerId>, action_count: u64 },
    /// The server reported an error.
    Error { message: String, fatal: bool },
    /// A library was reordered.
    LibraryReordered { player: PlayerId, new_order: Vec<CardId>, action_count: u64 },
    /// Library-search candidates revealed to the searcher.
    SearchCandidates { searcher: PlayerId, cards: Vec<CardReveal>, action_count: u64 },
}

/// The game-loop message a server message becomes, if it is one the game
/// loop handles.
pub open spec fn network_message_of(msg: ServerMessage) -> Option<NetworkMessage> {
    match msg {
        ServerMessage::CardRevealed { owner, card, reason, action_count } => Some(
            NetworkMessage::CardRevealed { owner, card, reason, action_count },
        ),
        ServerMessage::ChoiceRequest { action_count, choice_seq, abilities, choice_type, buffer, .. } => {
            match choice_type {
                ChoiceType::LibrarySearchByName { unique_names, name_counts, .. } => Some(
                    NetworkMessage::ChoiceRequest {
                        action_count,
                        choice_seq,
                        abilities,
                        library_search_names: Some(unique_names),
                        library_search_counts: Some(name_counts),
                        buffer,
                    },
                ),
                _ => Some(
                    NetworkMessage::ChoiceRequest {
                        action_count,
                        choice_seq,
                        abilities,
                        library_search_names: None,
                        library_search_counts: None,
                        buffer,
                    },
                ),
            }
        },
        ServerMessage::ChoiceAccepted { choice_seq, action_count, library_search_result, .. } => Some(
            NetworkMessage::ChoiceAccepted { choice_seq, action_count, library_search_result },
        ),
        ServerMessage::OpponentChoice { choice_seq, description, action_count, payload, .. } => Some(
            NetworkMessage::OpponentChoice { action_count, choice_seq, description, payload },
        ),
        ServerMessage::GameEnded { winner, action_count, .. } => Some(
            NetworkMessage::GameEnded { winner, action_count },
        ),
        ServerMessage::Error { message, fatal } => Some(NetworkMessage::Error { message, fatal }),
        ServerMessage::LibraryReordered { player, new_order, action_count } => Some(
            NetworkMessage::LibraryReordered { player, new_order, action_count },
        ),
        ServerMessage::SearchCandidates { searcher, cards, action_count } => Some(
            NetworkMessage::SearchCandidates { searcher, cards, action_count },
        ),
        _ => None,
    }
}

impl NetworkMessage {
    /// The game-loop message for a server message; `None` for the messages
    /// of connection setup and the lobby, which the game loop never sees.
    pub fn from_server_message(msg: ServerMessage) -> (r: Option<Self>)
        ensures
            r == network_message_of(msg),
    {
        match msg {
            ServerMessage::CardRevealed { owner, card, reason, action_count } => Some(
                NetworkMessage::CardRevealed { owner, card, reason, action_count },
            ),
            ServerMessage::ChoiceRequest {
                action_count,
                choice_seq,
                abilities,
                choice_type,
                buffer,
                ..
            } => {
                let (library_search_names, library_search_counts) = match choice_type {
                    ChoiceType::LibrarySearchByName { unique_names, name_counts, .. } => (
                        Some(unique_names),
                        Some(name_counts),
                    ),
                    _ => (None, None),
                };
                Some(
                    NetworkMessage::ChoiceRequest {
                        action_count,
                        choice_seq,
                        abilities,
                        library_search_names,
                        library_search_counts,
                        buffer,
                    },
                )
            },
            ServerMessage::ChoiceAccepted { choice_seq, action_count, library_search_result, .. } => Some(
                NetworkMessage::ChoiceAccepted { choice_seq, action_count, library_search_result },
            ),
            ServerMessage::OpponentChoice { choice_seq, description, action_count, payload, .. } => Some(
                NetworkMessage::OpponentChoice { action_count, choice_seq, description, payload },
            ),
            ServerMessage::GameEnded { winner, action_count, .. } => Some(
                NetworkMessage::GameEnded { winner, action_count },
            ),
            ServerMessage::Error { message, fatal } => Some(NetworkMessage::Error { message, fatal }),
            ServerMessage::LibraryReordered { player, new_order, action_count } => Some(
                NetworkMessage::LibraryReordered { player, new_order, action_count },
            ),
            ServerMessage::SearchCandidates { searcher, cards, action_count } => Some(
                NetworkMessage::SearchCandidates { searcher, cards, action_count },
            ),
            _ => None,
        }
    }
}

/// A choice request for the local player, or the end of the game.
#[derive(Debug, Clone)]
pub enum LocalChoiceInfo {
    /// The server asks us for a choice.
    Request {
        action_count: u64,
        choice_seq: u32,
        abilities: Option<Vec<Option<SpellAbility>>>,
        library_search_names: Option<Vec<String>>,
        library_search_counts: Option<Vec<usize>>,
    },
    /// The game ended.
    Exit { winner: Option<PlayerId> },
    /// A fatal error.
    Error { message: String },
}

/// A library reorder received before the game loop runs.
#[derive(Debug, Clone)]
pub struct PendingLibraryReorder {
    pub player: PlayerId,
    /// The new order, top to bottom.
    pub new_order: Vec<CardId>,
}

// ---------------------------------------------------------------------------
// Client configuration
// ---------------------------------------------------------------------------
/// How a client connects and what it plays.
#[derive(Debug, Clone)]
pub struct ClientConfig {
    /// The server address (host:port).
    pub server: String,
    /// The server password (empty for none).
    pub password: String,
    /// The player name; `None` lets the server pick one.
    pub player_name: Option<String>,
    /// The deck file's path.
    pub deck_path: String,
    /// The path of the card definitions.
    pub cardsfolder: String,
    /// Accept TLS certificates that do not verify (never for real play).
    pub accept_invalid_certs: bool,
}

impl ClientConfig {
    /// A configuration with the given server, password, name and deck; the
    /// card definitions under `cardsfolder`, certificates verified.
    pub fn new(server: String, password: String, player_name: Option<String>, deck_path: String) -> (c: Self)
        ensures
            c.server@ == server@,
            c.password@ == password@,
            c.player_name == player_name,
            c.deck_path@ == deck_path@,
            c.cardsfolder@ == "cardsfolder"@,
            !c.accept_invalid_certs,
    {
        ClientConfig {
            server,
            password,
            player_name,
            deck_path,
            cardsfolder: "cardsfolder".to_owned(),
            accept_invalid_certs: false,
        }
    }
}

/// The deck a client submits: the main deck and sideboard of its deck
/// list, as name and count pairs (commanders are not submitted).
pub fn deck_to_submission(deck: &DeckList) -> (d: DeckSubmission)
    ensures
        pair_views(d.main_deck@) == entry_views(deck.main_deck@),
        pair_views(d.sideboard@) == entry_views(deck.sideboard@),
{
    DeckSubmission::new(pairs_of_entries(&deck.main_deck), pairs_of_entries(&deck.sideboard))
}

// ---------------------------------------------------------------------------
// State-sync entries
// ---------------------------------------------------------------------------
/// A fact the shadow game applies at a game position.
#[derive(Debug, Clone)]
pub enum StateSyncEntry {
    /// A card revealed.
    RevealCard { owner: PlayerId, card: Box<CardReveal>, reason: RevealReason },
    /// A library's new order, top to bottom.
    LibraryReorder { player: PlayerId, new_order: Vec<CardId> },
    /// Library-search candidates, one atomic delta.
    SearchCandidates { searcher: PlayerId, cards: Vec<CardReveal> },
}

/// The card ids of some reveals.
pub open spec fn revealed_ids(cards: Seq<CardReveal>) -> Seq<CardId> {
    cards.map_values(|c: CardReveal| c.card_id)
}

/// Two entries are the same delta sent twice: same kind, same player,
/// same cards (and, for a reveal, same reason).
pub open spec fn same_delta(a: StateSyncEntry, b: StateSyncEntry) -> bool {
    match (a, b) {
        (
            StateSyncEntry::RevealCard { owner: o1, card: c1, reason: r1 },
            StateSyncEntry::RevealCard { owner: o2, card: c2, reason: r2 },
        ) => o1 == o2 && c1.card_id == c2.card_id && r1 == r2,
        (
            StateSyncEntry::LibraryReorder { player: p1, new_order: n1 },
            StateSyncEntry::LibraryReorder { player: p2, new_order: n2 },
        ) => p1 == p2 && n1@ == n2@,
        (
            StateSyncEntry::SearchCandidates { searcher: s1, cards: c1 },
            StateSyncEntry::SearchCandidates { searcher: s2, cards: c2 },
        ) => s1 == s2 && revealed_ids(c1@) == revealed_ids(c2@),
        _ => false,
    }
}

fn same_card_ids(a: &Vec<CardId>, b: &Vec<CardId>) -> (r: bool)
    ensures
        r == (a@ == b@),
{
    if a.len() != b.len() {
        return false;
    }
    let mut i: usize = 0;
    while i < a.len()
        invariant
            a@.len() == b@.len(),
            i <= a@.len(),
            forall|k: int| 0 <= k < i ==> a@[k] == b@[k],
        decreases a@.len() - i,
    {
        if a[i] != b[i] {
            return false;
        }
        i = i + 1;
    }
    assert(a@ =~= b@);
    true
}

fn same_reveal_ids(a: &Vec<CardReveal>, b: &Vec<CardReveal>) -> (r: bool)
    ensures
        r == (revealed_ids(a@) == revealed_ids(b@)),
{
    if a.len() != b.len() {
        return false;
    }
    let mut i: usize = 0;
    while i < a.len()
        invariant
            a@.len() == b@.len(),
            i <= a@.len(),
            forall|k: int| 0 <= k < i ==> a@[k].card_id == b@[k].card_id,
        decreases a@.len() - i,
    {
        if a[i].card_id != b[i].card_id {
            assert(revealed_ids(a@)[i as int] != revealed_ids(b@)[i as int]);
            return false;
        }
        i = i + 1;
    }
    assert(revealed_ids(a@) =~= revealed_ids(b@));
    true
}

/// Whether two entries are the same delta sent twice.
pub fn state_sync_entries_equivalent(a: &StateSyncEntry, b: &StateSyncEntry) -> (r: bool)
    ensures
        r == same_delta(*a, *b),
{
    match (a, b) {
        (
            StateSyncEntry::RevealCard { owner: o1, card: c1, reason: r1 },
            StateSyncEntry::RevealCard { owner: o2, card: c2, reason: r2 },
        ) => *o1 == *o2 && c1.card_id == c2.card_id && *r1 == *r2,
        (
            StateSyncEntry::LibraryReorder { player: p1, new_order: n1 },
            StateSyncEntry::LibraryReorder { player: p2, new_order: n2 },
        ) => *p1 == *p2 && same_card_ids(n1, n2),
        (
            StateSyncEntry::SearchCandidates { searcher: s1, cards: c1 },
            StateSyncEntry::SearchCandidates { searcher: s2, cards: c2 },
        ) => *s1 == *s2 && same_reveal_ids(c1, c2),
        _ => false,
    }
}

/// The entry is a library reorder (applied by game position) rather than
/// a reveal (applied ahead).
pub open spec fn is_reorder(e: StateSyncEntry) -> bool {
    e is LibraryReorder
}

/// A delta that cannot be taken: the client and server diverged.
#[derive(Debug, Clone, Copy, PartialEq, Eq, Structural)]
pub enum SyncFault {
    /// A different delta is already logged at this game position.
    ConflictingDelta { action_count: u64 },
    /// A new delta arrived behind the cursor of its kind: it was needed
    /// before it came.
    LostDelta { action_count: u64, cursor: u64 },
    /// A choice arrived with a sequence number not above the last one
    /// logged.
    OutOfOrderChoice { choice_seq: u64 },
}

// ---------------------------------------------------------------------------
// Facts buffered with a choice request
// ---------------------------------------------------------------------------
/// A buffered fact that goes into the state-sync log.
pub open spec fn is_sync_fact(f: (u64, BufferedFact)) -> bool {
    match f.1 {
        BufferedFact::Reveal { .. } => true,
        BufferedFact::SearchCandidates { .. } => true,
        BufferedFact::LibraryReorder { .. } => f.0 != 0,
        BufferedFact::Choice { .. } => false,
    }
}

/// A buffered library order at action count 0: a game-start order.
pub open spec fn is_initial_fact(f: (u64, BufferedFact)) -> bool {
    f.1 is LibraryReorder && f.0 == 0
}

/// A buffered opponent choice.
pub open spec fn is_choice_fact(f: (u64, BufferedFact)) -> bool {
    f.1 is Choice
}

/// The state-sync entry a buffered fact becomes.
pub open spec fn sync_entry_of(f: BufferedFact) -> StateSyncEntry {
    match f {
        BufferedFact::Reveal { owner, card, reason } => StateSyncEntry::RevealCard {
            owner,
            card: Box::new(card),
            reason,
        },
        BufferedFact::LibraryReorder { player, new_order } => StateSyncEntry::LibraryReorder {
            player,
            new_order,
        },
        BufferedFact::SearchCandidates { searcher, cards } => StateSyncEntry::SearchCandidates {
            searcher,
            cards,
        },
        BufferedFact::Choice { .. } => arbitrary(),
    }
}

/// The player a buffered library order is for.
pub open spec fn reorder_player(f: BufferedFact) -> PlayerId {
    match f {
        BufferedFact::LibraryReorder { player, .. } => player,
        _ => PlayerId(0),
    }
}

/// The key a buffered choice is logged under: its sequence number.
pub open spec fn choice_key(f: BufferedFact) -> u64 {
    match f {
        BufferedFact::Choice { choice_seq, .. } => choice_seq as u64,
        _ => 0,
    }
}

/// The log entry a buffered choice becomes.
pub open spec fn choice_entry_of(f: (u64, BufferedFact)) -> ChoiceEntry {
    match f.1 {
        BufferedFact::Choice { choice_seq, description, payload, .. } => ChoiceEntry {
            choice_seq,
            action_count: f.0,
            description,
            payload,
        },
        _ => arbitrary(),
    }
}

/// The state-sync log holds, at the fact's position, that fact or the
/// same delta sent earlier.
pub open spec fn covered(s: Seq<(u64, StateSyncEntry)>, f: (u64, BufferedFact)) -> bool {
    match lookup(s, f.0) {
        Some(e) => same_delta(e, sync_entry_of(f.1)),
        None => false,
    }
}

/// Every entry of `old` is still in `new`, unchanged.
pub open spec fn sync_kept(old: Seq<(u64, StateSyncEntry)>, new: Seq<(u64, StateSyncEntry)>) -> bool {
    forall|k: u64| #[trigger] lookup(old, k) is Some ==> lookup(new, k) == lookup(old, k)
}

/// Every entry of `new` that `old` lacks is a state-sync fact of `facts`.
pub open spec fn new_sync_from(
    old: Seq<(u64, StateSyncEntry)>,
    new: Seq<(u64, StateSyncEntry)>,
    facts: Seq<(u64, BufferedFact)>,
) -> bool {
    forall|k: u64|
        #[trigger] lookup(new, k) is Some && lookup(old, k) is None ==> exists|j: int|
            0 <= j < facts.len() && #[trigger] facts[j].0 == k && is_sync_fact(facts[j]) && lookup(new, k)
                == Some(sync_entry_of(facts[j].1))
}

/// Every entry `new` has beyond `old` is a choice of `facts`.
pub open spec fn new_choices_from(
    old: Seq<(u64, ChoiceEntry)>,
    new: Seq<(u64, ChoiceEntry)>,
    facts: Seq<(u64, BufferedFact)>,
) -> bool {
    forall|x: int|
        old.len() <= x < new.len() ==> exists|j: int|
            0 <= j < facts.len() && is_choice_fact(#[trigger] facts[j]) && #[trigger] new[x] == (
                choice_key(facts[j].1),
                choice_entry_of(facts[j]),
            )
}

/// Some game-start order is for `player`.
pub open spec fn has_player(s: Seq<(PlayerId, Vec<CardId>)>, player: PlayerId) -> bool {
    exists|i: int| 0 <= i < s.len() && #[trigger] s[i].0 == player
}

/// A fault names a fact of `facts`: a state-sync fault its position, an
/// order fault its sequence number.
pub open spec fn fault_from(fault: SyncFault, facts: Seq<(u64, BufferedFact)>) -> bool {
    match fault {
        SyncFault::ConflictingDelta { action_count } => exists|j: int|
            0 <= j < facts.len() && #[trigger] facts[j].0 == action_count && is_sync_fact(facts[j]),
        SyncFault::LostDelta { action_count, .. } => exists|j: int|
            0 <= j < facts.len() && #[trigger] facts[j].0 == action_count && is_sync_fact(facts[j]),
        SyncFault::OutOfOrderChoice { choice_seq } => exists|j: int|
            0 <= j < facts.len() && is_choice_fact(#[trigger] facts[j]) && choice_key(facts[j].1)
                == choice_seq,
    }
}

/// The choices among `facts`, in order.
pub open spec fn choice_facts(facts: Seq<(u64, BufferedFact)>) -> Seq<(u64, BufferedFact)>
    decreases facts.len(),
{
    if facts.len() == 0 {
        Seq::empty()
    } else {
        let r = choice_facts(facts.drop_last());
        if is_choice_fact(facts.last()) {
            r.push(facts.last())
        } else {
            r
        }
    }
}

/// The entry logged at position `k` once the state-sync facts of `facts`
/// are logged, in order, over `log`: an entry already there stays, else
/// the first fact at `k` is logged (a later one at `k` is a re-send).
pub open spec fn logged_at(log: Seq<(u64, StateSyncEntry)>, facts: Seq<(u64, BufferedFact)>, k: u64) -> Option<
    StateSyncEntry,
>
    decreases facts.len(),
{
    if facts.len() == 0 {
        lookup(log, k)
    } else {
        let before = logged_at(log, facts.drop_last(), k);
        let f = facts.last();
        if is_sync_fact(f) && f.0 == k && before is None {
            Some(sync_entry_of(f.1))
        } else {
            before
        }
    }
}

/// The fault the fact `f` meets when it is logged after `earlier` over the
/// state `st`: a different delta at its position is a conflict; a new
/// delta behind the cursor of its kind is lost; anything else is taken.
pub open spec fn sync_fault(st: NetState, earlier: Seq<(u64, BufferedFact)>, f: (u64, BufferedFact)) -> Option<
    SyncFault,
> {
    if !is_sync_fact(f) {
        None
    } else {
        match logged_at(st.sync, earlier, f.0) {
            Some(e) => if same_delta(e, sync_entry_of(f.1)) {
                None
            } else {
                Some(SyncFault::ConflictingDelta { action_count: f.0 })
            },
            None => {
                let cursor = if is_reorder(sync_entry_of(f.1)) {
                    st.reorder_cursor
                } else {
                    st.reveal_cursor
                };
                if f.0 < cursor {
                    Some(SyncFault::LostDelta { action_count: f.0, cursor })
                } else {
                    None
                }
            },
        }
    }
}

/// The first state-sync fault of `facts` routed over `st`: the fact's
/// index and the fault.
pub open spec fn first_sync_fault(st: NetState, facts: Seq<(u64, BufferedFact)>) -> Option<(int, SyncFault)>
    decreases facts.len(),
{
    if facts.len() == 0 {
        None
    } else {
        match first_sync_fault(st, facts.drop_last()) {
            Some(x) => Some(x),
            None => match sync_fault(st, facts.drop_last(), facts.last()) {
                Some(e) => Some(((facts.len() - 1) as int, e)),
                None => None,
            },
        }
    }
}

/// The opponent-choice log after the choices `cs` are logged over `log`,
/// in order, and the fault that stopped the logging, if any: a choice
/// already logged under its number is dropped, one whose number is not
/// above the last logged is a fault, any other is appended.
pub open spec fn choices_logged(log: Seq<(u64, ChoiceEntry)>, cs: Seq<(u64, BufferedFact)>) -> (Seq<
    (u64, ChoiceEntry),
>, Option<SyncFault>)
    decreases cs.len(),
{
    if cs.len() == 0 {
        (log, None)
    } else {
        let prev = choices_logged(log, cs.drop_last());
        if prev.1 is Some {
            prev
        } else {
            let o = prev.0;
            let key = choice_key(cs.last().1);
            if has_key(o, key) {
                (o, None)
            } else if o.len() > 0 && o.last().0 >= key {
                (o, Some(SyncFault::OutOfOrderChoice { choice_seq: key }))
            } else {
                (o.push((key, choice_entry_of(cs.last()))), None)
            }
        }
    }
}

/// Routing the buffer step by step: its state-sync facts are logged in
/// order until the first fault, which is the result (and no choice is
/// logged); without one, every state-sync fact is logged and then the
/// choices are logged in buffer order until the first fault, which is the
/// result; without either fault the result is `Ok`.
pub open spec fn buffer_routed(
    old: NetState,
    new: NetState,
    buffer: Seq<(u64, BufferedFact)>,
    r: Result<(), SyncFault>,
) -> bool {
    match first_sync_fault(old, buffer) {
        Some(x) => {
            &&& r == Err::<(), SyncFault>(x.1)
            &&& forall|k: u64| #[trigger] lookup(new.sync, k) == logged_at(old.sync, buffer.take(x.0), k)
            &&& new.opponent == old.opponent
        },
        None => {
            let c = choices_logged(old.opponent, choice_facts(buffer));
            &&& forall|k: u64| #[trigger] lookup(new.sync, k) == logged_at(old.sync, buffer, k)
            &&& new.opponent == c.0
            &&& r == match c.1 {
                Some(f) => Err::<(), SyncFault>(f),
                None => Ok::<(), SyncFault>(()),
            }
        },
    }
}

proof fn lemma_sync_fault_sticks(st: NetState, facts: Seq<(u64, BufferedFact)>, j: int, k: int)
    requires
        0 <= j <= k <= facts.len(),
        first_sync_fault(st, facts.take(j)) is Some,
    ensures
        first_sync_fault(st, facts.take(k)) == first_sync_fault(st, facts.take(j)),
    decreases k - j,
{
    if k > j {
        lemma_sync_fault_sticks(st, facts, j, k - 1);
        assert(facts.take(k).drop_last() =~= facts.take(k - 1));
    }
}

proof fn lemma_choice_fault_sticks(log: Seq<(u64, ChoiceEntry)>, cs: Seq<(u64, BufferedFact)>, j: int, k: int)
    requires
        0 <= j <= k <= cs.len(),
        choices_logged(log, cs.take(j)).1 is Some,
    ensures
        choices_logged(log, cs.take(k)) == choices_logged(log, cs.take(j)),
    decreases k - j,
{
    if k > j {
        lemma_choice_fault_sticks(log, cs, j, k - 1);
        assert(cs.take(k).drop_last() =~= cs.take(k - 1));
    }
}

/// Logging fact `i` of `facts` keeps the log equal to the step-by-step
/// routing of the facts so far, or meets its first fault.
proof fn lemma_sync_exact_step(
    orig: NetState,
    before: NetState,
    after: NetState,
    facts: Seq<(u64, BufferedFact)>,
    i: int,
    res: Result<bool, SyncFault>,
)
    requires
        0 <= i < facts.len(),
        is_sync_fact(facts[i]),
        before.reorder_cursor == orig.reorder_cursor,
        before.reveal_cursor == orig.reveal_cursor,
        first_sync_fault(orig, facts.take(i)) is None,
        forall|k: u64| #[trigger] lookup(before.sync, k) == logged_at(orig.sync, facts.take(i), k),
        sync_push_outcome(before, after, facts[i].0, sync_entry_of(facts[i].1), res),
    ensures
        match res {
            Ok(_) => first_sync_fault(orig, facts.take(i + 1)) is None && forall|k: u64| #[trigger]
                lookup(after.sync, k) == logged_at(orig.sync, facts.take(i + 1), k),
            Err(f) => first_sync_fault(orig, facts.take(i + 1)) == Some((i, f)) && after == before,
        },
{
    let t = facts.take(i + 1);
    assert(t.drop_last() =~= facts.take(i));
    assert(t.last() == facts[i]);
    assert(lookup(before.sync, facts[i].0) == logged_at(orig.sync, facts.take(i), facts[i].0));
    if res is Ok {
        assert forall|k: u64| #[trigger] lookup(after.sync, k) == logged_at(orig.sync, t, k) by {
            assert(lookup(before.sync, k) == logged_at(orig.sync, facts.take(i), k));
        }
    }
}

proof fn lemma_sync_exact_skip(orig: NetState, facts: Seq<(u64, BufferedFact)>, i: int)
    requires
        0 <= i < facts.len(),
        !is_sync_fact(facts[i]),
    ensures
        first_sync_fault(orig, facts.take(i + 1)) == first_sync_fault(orig, facts.take(i)),
        forall|k: u64| #[trigger] logged_at(orig.sync, facts.take(i + 1), k) == logged_at(orig.sync, facts.take(i), k),
{
    let t = facts.take(i + 1);
    assert(t.drop_last() =~= facts.take(i));
    assert(t.last() == facts[i]);
}

/// Logging choice `i` of `cs` keeps the opponent log equal to the
/// step-by-step logging of the choices so far, or meets its fault.
proof fn lemma_choice_exact_step(
    log: Seq<(u64, ChoiceEntry)>,
    before: NetState,
    after: NetState,
    cs: Seq<(u64, BufferedFact)>,
    i: int,
    entry: ChoiceEntry,
    res: Result<bool, SyncFault>,
)
    requires
        0 <= i < cs.len(),
        is_choice_fact(cs[i]),
        entry == choice_entry_of(cs[i]),
        choices_logged(log, cs.take(i)) == (before.opponent, None::<SyncFault>),
        choice_push_outcome(before, after, entry, res),
    ensures
        match res {
            Ok(_) => choices_logged(log, cs.take(i + 1)) == (after.opponent, None::<SyncFault>),
            Err(f) => choices_logged(log, cs.take(i + 1)) == (before.opponent, Some(f)) && after == before,
        },
{
    let t = cs.take(i + 1);
    assert(t.drop_last() =~= cs.take(i));
    assert(t.last() == cs[i]);
    assert(choice_key(cs[i].1) == entry.choice_seq as u64);
}

/// Reveals come first: an opponent choice of the buffer is logged only
/// when every state-sync fact of the buffer is in the state-sync log.
pub open spec fn reveals_first(old: NetState, new: NetState, buffer: Seq<(u64, BufferedFact)>) -> bool {
    new.opponent.len() > old.opponent.len() ==> forall|j: int|
        0 <= j < buffer.len() && is_sync_fact(#[trigger] buffer[j]) ==> covered(new.sync, buffer[j])
}

/// What routing a choice request's facts does (see `apply_choice_buffer`):
/// only the state-sync log, the game-start orders and the opponent-choice
/// log change; nothing logged is lost; what is new comes from the buffer;
/// on success every fact is logged; a choice is logged only once every
/// state-sync fact is (`reveals_first`); a fault names a fact of the
/// buffer; and the logs and the result are those of routing the buffer step by
/// step (`buffer_routed`).
pub open spec fn buffer_outcome(
    old: NetState,
    new: NetState,
    buffer: Seq<(u64, BufferedFact)>,
    r: Result<(), SyncFault>,
) -> bool {
    &&& buffer_routed(old, new, buffer, r)
    &&& new == (NetState {
        sync: new.sync,
        initial: new.initial,
        opponent: new.opponent,
        ..old
    })
    &&& sync_kept(old.sync, new.sync)
    &&& new.opponent.take(old.opponent.len() as int) =~= old.opponent
    &&& old.opponent.len() <= new.opponent.len()
    &&& new_sync_from(old.sync, new.sync, buffer)
    &&& new_choices_from(old.opponent, new.opponent, buffer)
    &&& reveals_first(old, new, buffer)
    &&& match r {
        Ok(()) => {
            &&& forall|j: int| 0 <= j < buffer.len() && is_sync_fact(#[trigger] buffer[j])
                ==> covered(new.sync, buffer[j])
            &&& forall|j: int| 0 <= j < buffer.len() && is_choice_fact(#[trigger] buffer[j])
                ==> has_key(new.opponent, choice_key(buffer[j].1))
            &&& forall|j: int| 0 <= j < buffer.len() && is_initial_fact(#[trigger] buffer[j])
                ==> has_player(new.initial, reorder_player(buffer[j].1))
        },
        Err(fault) => fault_from(fault, buffer),
    }
}

proof fn lemma_choice_facts_members(facts: Seq<(u64, BufferedFact)>)
    ensures
        forall|j: int| 0 <= j < choice_facts(facts).len() ==> is_choice_fact(#[trigger] choice_facts(facts)[j]),
        forall|j: int|
            0 <= j < choice_facts(facts).len() ==> exists|t: int|
                0 <= t < facts.len() && #[trigger] facts[t] == #[trigger] choice_facts(facts)[j],
    decreases facts.len(),
{
    if facts.len() > 0 {
        let init = facts.drop_last();
        lemma_choice_facts_members(init);
        let c = choice_facts(facts);
        assert forall|j: int| 0 <= j < c.len() implies exists|t: int|
            0 <= t < facts.len() && #[trigger] facts[t] == #[trigger] c[j] by {
            if j < choice_facts(init).len() {
                let t = choose|t: int| 0 <= t < init.len() && #[trigger] init[t] == #[trigger] choice_facts(init)[j];
                assert(facts[t] == c[j]);
            } else {
                assert(facts[facts.len() - 1] == c[j]);
            }
        }
    }
}

proof fn lemma_choice_facts_complete(facts: Seq<(u64, BufferedFact)>, j: int)
    requires
        0 <= j < facts.len(),
        is_choice_fact(facts[j]),
    ensures
        exists|k: int| 0 <= k < choice_facts(facts).len() && #[trigger] choice_facts(facts)[k] == facts[j],
    decreases facts.len(),
{
    let init = facts.drop_last();
    if j < facts.len() - 1 {
        lemma_choice_facts_complete(init, j);
        let k = choose|k: int| 0 <= k < choice_facts(init).len() && #[trigger] choice_facts(init)[k] == init[j];
        assert(choice_facts(facts)[k] == facts[j]);
    } else {
        assert(choice_facts(facts)[choice_facts(init).len() as int] == facts[j]);
    }
}

proof fn lemma_sync_step(
    orig: Seq<(u64, StateSyncEntry)>,
    before: NetState,
    after: NetState,
    facts: Seq<(u64, BufferedFact)>,
    i: int,
    r: Result<bool, SyncFault>,
)
    requires
        0 <= i < facts.len(),
        is_sync_fact(facts[i]),
        sync_push_outcome(before, after, facts[i].0, sync_entry_of(facts[i].1), r),
        sync_kept(orig, before.sync),
        new_sync_from(orig, before.sync, facts),
    ensures
        after == (NetState { sync: after.sync, ..before }),
        sync_kept(before.sync, after.sync),
        sync_kept(orig, after.sync),
        new_sync_from(orig, after.sync, facts),
        r is Ok ==> covered(after.sync, facts[i]),
        match r {
            Err(fault) => fault_from(fault, facts),
            Ok(_) => true,
        },
{
    let ac = facts[i].0;
    let entry = sync_entry_of(facts[i].1);
    match lookup(before.sync, ac) {
        Some(existing) => {
            if !same_delta(existing, entry) {
                assert(facts[i].0 == ac);
            }
        },
        None => {
            let cursor = if is_reorder(entry) {
                before.reorder_cursor
            } else {
                before.reveal_cursor
            };
            if ac < cursor {
                assert(facts[i].0 == ac);
            } else {
                assert forall|k: u64| #[trigger] lookup(before.sync, k) is Some implies lookup(after.sync, k)
                    == lookup(before.sync, k) by {
                    assert(lookup(after.sync, k) == if k == ac {
                        Some(entry)
                    } else {
                        lookup(before.sync, k)
                    });
                }
                assert forall|k: u64| #[trigger] lookup(orig, k) is Some implies lookup(after.sync, k) == lookup(
                    orig,
                    k,
                ) by {
                    assert(lookup(after.sync, k) == if k == ac {
                        Some(entry)
                    } else {
                        lookup(before.sync, k)
                    });
                }
                assert forall|k: u64|
                    #[trigger] lookup(after.sync, k) is Some && lookup(orig, k) is None implies exists|j: int|
                    0 <= j < facts.len() && #[trigger] facts[j].0 == k && is_sync_fact(facts[j]) && lookup(
                        after.sync,
                        k,
                    ) == Some(sync_entry_of(facts[j].1)) by {
                    assert(lookup(after.sync, k) == if k == ac {
                        Some(entry)
                    } else {
                        lookup(before.sync, k)
                    });
                    if k == ac {
                        assert(facts[i].0 == k);
                    } else {
                        assert(lookup(before.sync, k) is Some);
                        let j = choose|j: int|
                            0 <= j < facts.len() && #[trigger] facts[j].0 == k && is_sync_fact(facts[j])
                                && lookup(before.sync, k) == Some(sync_entry_of(facts[j].1));
                        assert(facts[j].0 == k);
                    }
                }
                assert(lookup(after.sync, ac) == Some(entry));
            }
        },
    }
}

proof fn lemma_covered_kept(before: Seq<(u64, StateSyncEntry)>, after: Seq<(u64, StateSyncEntry)>, f: (u64, BufferedFact))
    requires
        sync_kept(before, after),
        covered(before, f),
    ensures
        covered(after, f),
{
    assert(lookup(before, f.0) is Some);
}

proof fn lemma_initial_step(
    before: Seq<(PlayerId, Vec<CardId>)>,
    after: Seq<(PlayerId, Vec<CardId>)>,
    facts: Seq<(u64, BufferedFact)>,
    i: int,
    player: PlayerId,
    order: Seq<CardId>,
)
    requires
        0 <= i < facts.len(),
        is_initial_fact(facts[i]),
        reorder_player(facts[i].1) == player,
        order_replaced(before, after, player, order),
        forall|j: int| 0 <= j < i && is_initial_fact(#[trigger] facts[j]) ==> has_player(
            before,
            reorder_player(facts[j].1),
        ),
    ensures
        forall|j: int| 0 <= j < i + 1 && is_initial_fact(#[trigger] facts[j]) ==> has_player(
            after,
            reorder_player(facts[j].1),
        ),
{
    assert forall|j: int| 0 <= j < i + 1 && is_initial_fact(#[trigger] facts[j]) implies has_player(
        after,
        reorder_player(facts[j].1),
    ) by {
        let q = reorder_player(facts[j].1);
        if q == player {
            let x = choose|x: int| 0 <= x < after.len() && after[x].0 == player && after[x].1@ == order;
            assert(after[x].0 == q);
        } else {
            assert(has_player(before, q));
            let y = choose|y: int| 0 <= y < before.len() && #[trigger] before[y].0 == q;
            assert(before[y].0 != player);
            let x = choose|x: int| 0 <= x < after.len() && #[trigger] after[x] == before[y];
            assert(after[x].0 == q);
        }
    }
}

proof fn lemma_choice_step(
    orig: Seq<(u64, ChoiceEntry)>,
    before: NetState,
    after: NetState,
    facts: Seq<(u64, BufferedFact)>,
    t: int,
    r: Result<bool, SyncFault>,
)
    requires
        0 <= t < facts.len(),
        is_choice_fact(facts[t]),
        choice_push_outcome(before, after, choice_entry_of(facts[t]), r),
        before.opponent.take(orig.len() as int) == orig,
        orig.len() <= before.opponent.len(),
        new_choices_from(orig, before.opponent, facts),
    ensures
        after == (NetState { opponent: after.opponent, ..before }),
        after.opponent.take(orig.len() as int) == orig,
        orig.len() <= after.opponent.len(),
        new_choices_from(orig, after.opponent, facts),
        forall|k: u64| has_key(before.opponent, k) ==> #[trigger] has_key(after.opponent, k),
        r is Ok ==> has_key(after.opponent, choice_key(facts[t].1)),
        match r {
            Err(fault) => fault_from(fault, facts),
            Ok(_) => true,
        },
{
    let e = choice_entry_of(facts[t]);
    let key = e.choice_seq as u64;
    assert(key == choice_key(facts[t].1));
    if !has_key(before.opponent, key) && !(before.opponent.len() > 0 && before.opponent.last().0 >= key) {
        let s = after.opponent;
        assert(s == before.opponent.push((key, e)));
        assert(s.take(orig.len() as int) =~= orig) by {
            assert(before.opponent.take(orig.len() as int) == orig);
        }
        assert forall|x: int| orig.len() <= x < s.len() implies exists|j: int|
            0 <= j < facts.len() && is_choice_fact(#[trigger] facts[j]) && #[trigger] s[x] == (
                choice_key(facts[j].1),
                choice_entry_of(facts[j]),
            ) by {
            if x < before.opponent.len() {
                assert(s[x] == before.opponent[x]);
                let j = choose|j: int|
                    0 <= j < facts.len() && is_choice_fact(#[trigger] facts[j]) && #[trigger] before.opponent[x]
                        == (choice_key(facts[j].1), choice_entry_of(facts[j]));
                assert(is_choice_fact(facts[j]));
            } else {
                assert(s[x] == (key, e));
                assert(is_choice_fact(facts[t]));
            }
        }
        assert forall|k: u64| has_key(before.opponent, k) implies #[trigger] has_key(after.opponent, k) by {
            let i = choose|i: int| 0 <= i < before.opponent.len() && before.opponent[i].0 == k;
            assert(s[i] == before.opponent[i]);
        }
        assert(s[s.len() - 1].0 == key);
    }
}

// ---------------------------------------------------------------------------
// The shared buffers
// ---------------------------------------------------------------------------
/// The state of the buffers, as plain values.
pub struct NetState {
    /// The state-sync log.
    pub sync: Seq<(u64, StateSyncEntry)>,
    /// Library reorders are applied up to here.
    pub reorder_cursor: u64,
    /// Reveals are applied up to here.
    pub reveal_cursor: u64,
    /// Game-start library orders, by player, in player order.
    pub initial: Seq<(PlayerId, Vec<CardId>)>,
    /// Whether the game-start orders were handed out.
    pub initial_applied: bool,
    /// Local choice requests waiting.
    pub local: Seq<LocalChoiceInfo>,
    /// Whether the local-choice cell was told to exit.
    pub local_exit: bool,
    /// Opponent choices, keyed by choice sequence number.
    pub opponent: Seq<(u64, ChoiceEntry)>,
    /// The last opponent choice handed out.
    pub opponent_cursor: u64,
    /// Acknowledgements of our choices, keyed by choice sequence number.
    pub accepted: Seq<(u64, ChoiceEntry)>,
    /// The last acknowledgement read.
    pub accepted_cursor: u64,
    /// The server's latest action count.
    pub server_ac: u64,
    /// Whether choice-request buffers are the only source of facts.
    pub authoritative: bool,
    /// The highest action count of a choice received.
    pub watermark: u64,
    /// Whether the game is over or the connection gone.
    pub terminal: bool,
    /// The winner the server reported, once it did.
    pub winner: Option<Option<PlayerId>>,
}

/// What logging a state-sync delta does: a delta already logged at its
/// position is a re-send, dropped when it is the same delta and a fault
/// when it differs; a new delta behind the cursor of its kind is a fault;
/// otherwise it is logged. A fault changes nothing.
pub open spec fn sync_push_outcome(
    old: NetState,
    new: NetState,
    action_count: u64,
    entry: StateSyncEntry,
    r: Result<bool, SyncFault>,
) -> bool {
    match lookup(old.sync, action_count) {
        Some(existing) => if same_delta(existing, entry) {
            r == Ok::<bool, SyncFault>(false) && new == old
        } else {
            r == Err::<bool, SyncFault>(SyncFault::ConflictingDelta { action_count })
                && new == old
        },
        None => {
            let cursor = if is_reorder(entry) {
                old.reorder_cursor
            } else {
                old.reveal_cursor
            };
            if action_count < cursor {
                r == Err::<bool, SyncFault>(SyncFault::LostDelta { action_count, cursor })
                    && new == old
            } else {
                r == Ok::<bool, SyncFault>(true) && (forall|k: u64| #[trigger] lookup(
                    new.sync,
                    k,
                ) == if k == action_count {
                    Some(entry)
                } else {
                    lookup(old.sync, k)
                }) && new == (NetState { sync: new.sync, ..old })
            }
        },
    }
}

/// What logging an opponent choice does: a choice already logged under
/// its sequence number is a re-send and is dropped; a number not above
/// the last logged is a fault, which changes nothing; otherwise the choice
/// is appended.
pub open spec fn choice_push_outcome(old: NetState, new: NetState, entry: ChoiceEntry, r: Result<bool, SyncFault>) -> bool {
    ({
        let key = entry.choice_seq as u64;
        if has_key(old.opponent, key) {
            r == Ok::<bool, SyncFault>(false) && new == old
        } else if old.opponent.len() > 0 && old.opponent.last().0 >= key {
            r == Err::<bool, SyncFault>(SyncFault::OutOfOrderChoice { choice_seq: key })
                && new == old
        } else {
            r == Ok::<bool, SyncFault>(true) && new == (NetState {
                opponent: old.opponent.push((key, entry)),
                ..old
            })
        }
    })
}

/// What logging the acknowledgement of our choice `choice_seq` does: a
/// number not above the last logged is a fault, which changes nothing;
/// otherwise an entry with that number and library-search result is
/// appended.
pub open spec fn accepted_outcome(
    old: NetState,
    new: NetState,
    choice_seq: u32,
    library_search_result: Option<CardId>,
    r: Result<(), SyncFault>,
) -> bool {
    ({
        let key = choice_seq as u64;
        if old.accepted.len() > 0 && old.accepted.last().0 >= key {
            r == Err::<(), SyncFault>(SyncFault::OutOfOrderChoice { choice_seq: key })
                && new == old
        } else {
            r is Ok && new.accepted.len() == old.accepted.len() + 1
                && new.accepted.drop_last() == old.accepted
                && new.accepted.last().0 == key
                && new.accepted.last().1.choice_seq == choice_seq
                && new.accepted.last().1.payload.library_search_result
                == library_search_result && new == (NetState {
                accepted: new.accepted,
                ..old
            })
        }
    })
}

/// The player ids of the game-start orders increase strictly.
pub open spec fn players_increasing(s: Seq<(PlayerId, Vec<CardId>)>) -> bool {
    forall|i: int, j: int| 0 <= i < j < s.len() ==> #[trigger] s[i].0.0 < #[trigger] s[j].0.0
}

/// The game-start orders by their views.
pub open spec fn order_views(s: Seq<(PlayerId, Vec<CardId>)>) -> Seq<(PlayerId, Seq<CardId>)> {
    s.map_values(|e: (PlayerId, Vec<CardId>)| (e.0, e.1@))
}

/// `new` is `old` with the order of `player` set to `order`: the player
/// has that order, every other player keeps theirs, and no other entry
/// appears.
pub open spec fn order_replaced(
    old: Seq<(PlayerId, Vec<CardId>)>,
    new: Seq<(PlayerId, Vec<CardId>)>,
    player: PlayerId,
    order: Seq<CardId>,
) -> bool {
    &&& exists|i: int| 0 <= i < new.len() && new[i].0 == player && new[i].1@ == order
    &&& forall|i: int|
        0 <= i < old.len() && old[i].0 != player ==> exists|j: int|
            0 <= j < new.len() && #[trigger] new[j] == old[i]
    &&& forall|j: int|
        0 <= j < new.len() && new[j].0 != player ==> exists|i: int|
            0 <= i < old.len() && #[trigger] old[i] == new[j]
}

proof fn lemma_orders_update(old: Seq<(PlayerId, Vec<CardId>)>, i: int, x: (PlayerId, Vec<CardId>))
    requires
        players_increasing(old),
        0 <= i < old.len(),
        old[i].0.0 == x.0.0,
    ensures
        players_increasing(old.update(i, x)),
        order_replaced(old, old.update(i, x), x.0, x.1@),
{
    let s = old.update(i, x);
    assert forall|a: int, b: int| 0 <= a < b < s.len() implies #[trigger] s[a].0.0 < #[trigger] s[b].0.0 by {
        assert(old[a].0.0 < old[b].0.0);
    }
    assert(s[i].0 == x.0 && s[i].1@ == x.1@);
    assert forall|k: int| 0 <= k < old.len() && old[k].0 != x.0 implies exists|j: int|
        0 <= j < s.len() && #[trigger] s[j] == old[k] by {
        assert(s[k] == old[k]);
    }
    assert forall|j: int| 0 <= j < s.len() && s[j].0 != x.0 implies exists|k: int|
        0 <= k < old.len() && #[trigger] old[k] == s[j] by {
        assert(old[j] == s[j]);
    }
}

#[verifier::spinoff_prover]
#[verifier::rlimit(60)]
proof fn lemma_orders_insert(old: Seq<(PlayerId, Vec<CardId>)>, i: int, x: (PlayerId, Vec<CardId>))
    requires
        players_increasing(old),
        0 <= i <= old.len(),
        forall|k: int| 0 <= k < i ==> old[k].0.0 < x.0.0,
        i < old.len() ==> old[i].0.0 > x.0.0,
    ensures
        players_increasing(old.insert(i, x)),
        order_replaced(old, old.insert(i, x), x.0, x.1@),
{
    let s = old.insert(i, x);
    assert forall|a: int, b: int| 0 <= a < b < s.len() implies #[trigger] s[a].0.0 < #[trigger] s[b].0.0 by {
        if b < i {
            assert(old[a].0.0 < old[b].0.0);
        } else if b == i {
        } else if a < i {
            assert(s[b] == old[b - 1]);
            if b - 1 > i {
                assert(old[i].0.0 < old[b - 1].0.0);
            }
        } else if a == i {
            assert(s[b] == old[b - 1]);
            if b - 1 > i {
                assert(old[i].0.0 < old[b - 1].0.0);
            }
        } else {
            assert(old[a - 1].0.0 < old[b - 1].0.0);
        }
    }
    assert(s[i].0 == x.0 && s[i].1@ == x.1@);
    assert forall|k: int| 0 <= k < old.len() && old[k].0 != x.0 implies exists|j: int|
        0 <= j < s.len() && #[trigger] s[j] == old[k] by {
        if k < i {
            assert(s[k] == old[k]);
        } else {
            assert(s[k + 1] == old[k]);
        }
    }
    assert forall|j: int| 0 <= j < s.len() && s[j].0 != x.0 implies exists|k: int|
        0 <= k < old.len() && #[trigger] old[k] == s[j] by {
        if j < i {
            assert(old[j] == s[j]);
        } else if j > i {
            assert(old[j - 1] == s[j]);
        }
    }
}

/// The keys of a log that lie in `(after, upto]` and are (or are not)
/// library reorders, in order.
pub open spec fn window_keys(log: Seq<(u64, StateSyncEntry)>, after: u64, upto: u64, reorders: bool) -> Seq<
    u64,
>
    decreases log.len(),
{
    if log.len() == 0 {
        Seq::empty()
    } else {
        let r = window_keys(log.drop_last(), after, upto, reorders);
        let k = log.last().0;
        if after < k && k <= upto && is_reorder(log.last().1) == reorders {
            r.push(k)
        } else {
            r
        }
    }
}

/// The smaller of two numbers.
pub open spec fn min_u64(a: u64, b: u64) -> u64 {
    if a < b {
        a
    } else {
        b
    }
}

/// The larger of two numbers.
pub open spec fn max_u64(a: u64, b: u64) -> u64 {
    if a < b {
        b
    } else {
        a
    }
}

/// What a game loop applies next: the game-start orders (the first time),
/// the library reorders up to its own position, and the reveals up to the
/// watermark.
#[derive(Debug)]
pub struct SyncWindow {
    /// Game-start library orders, by player; empty after the first window.
    pub initial_orders: Vec<(PlayerId, Vec<CardId>)>,
    /// Action counts of the library reorders to apply, in order.
    pub reorder_keys: Vec<u64>,
    /// Action counts of the reveals to apply, in order.
    pub reveal_keys: Vec<u64>,
}

/// The buffers the connection reader fills and the game loop reads.
pub struct SharedNetworkState {
    state_sync: ActionLog<StateSyncEntry>,
    last_applied_reorder_ac: u64,
    last_applied_reveal_ac: u64,
    initial_library_orders: Vec<(PlayerId, Vec<CardId>)>,
    initial_library_applied: bool,
    local_choice_mvar: MVar<LocalChoiceInfo>,
    opponent_choices: ActionLog<ChoiceEntry>,
    opponent_cursor: u64,
    choice_accepted: ActionLog<ChoiceEntry>,
    accepted_cursor: u64,
    server_action_count: u64,
    buffer_is_authoritative: bool,
    max_received_choice_ac: u64,
    terminal: bool,
    server_winner: Option<Option<PlayerId>>,
}

impl View for SharedNetworkState {
    type V = NetState;

    closed spec fn view(&self) -> NetState {
        NetState {
            sync: self.state_sync@,
            reorder_cursor: self.last_applied_reorder_ac,
            reveal_cursor: self.last_applied_reveal_ac,
            initial: self.initial_library_orders@,
            initial_applied: self.initial_library_applied,
            local: self.local_choice_mvar.queued(),
            local_exit: self.local_choice_mvar.exiting(),
            opponent: self.opponent_choices@,
            opponent_cursor: self.opponent_cursor,
            accepted: self.choice_accepted@,
            accepted_cursor: self.accepted_cursor,
            server_ac: self.server_action_count,
            authoritative: self.buffer_is_authoritative,
            watermark: self.max_received_choice_ac,
            terminal: self.terminal,
            winner: self.server_winner,
        }
    }
}

impl SharedNetworkState {
    /// The logs are well formed.
    pub closed spec fn wf(&self) -> bool {
        &&& self.state_sync.wf()
        &&& self.opponent_choices.wf()
        &&& self.choice_accepted.wf()
        &&& players_increasing(self.initial_library_orders@)
    }

    /// Empty buffers, nothing received.
    pub fn new() -> (s: Self)
        ensures
            s.wf(),
            s@.sync.len() == 0,
            s@.reorder_cursor == 0,
            s@.reveal_cursor == 0,
            s@.initial.len() == 0,
            !s@.initial_applied,
            s@.local.len() == 0,
            !s@.local_exit,
            s@.opponent.len() == 0,
            s@.opponent_cursor == 0,
            s@.accepted.len() == 0,
            s@.accepted_cursor == 0,
            s@.server_ac == 0,
            !s@.authoritative,
            s@.watermark == 0,
            !s@.terminal,
            s@.winner is None,
    {
        SharedNetworkState {
            state_sync: ActionLog::new(),
            last_applied_reorder_ac: 0,
            last_applied_reveal_ac: 0,
            initial_library_orders: Vec::new(),
            initial_library_applied: false,
            local_choice_mvar: MVar::new(),
            opponent_choices: ActionLog::new(),
            opponent_cursor: 0,
            choice_accepted: ActionLog::new(),
            accepted_cursor: 0,
            server_action_count: 0,
            buffer_is_authoritative: false,
            max_received_choice_ac: 0,
            terminal: false,
            server_winner: None,
        }
    }

    /// Record the winner the server reported. The first report stands.
    pub fn set_server_winner(&mut self, winner: Option<PlayerId>)
        requires
            old(self).wf(),
        ensures
            final(self).wf(),
            final(self)@ == (NetState {
                winner: if old(self)@.winner is None {
                    Some(winner)
                } else {
                    old(self)@.winner
                },
                ..old(self)@
            }),
    {
        if self.server_winner.is_none() {
            self.server_winner = Some(winner);
        }
    }

    /// The winner the server reported: `None` before any report; inside,
    /// `None` for a draw.
    pub fn server_winner(&self) -> (w: Option<Option<PlayerId>>)
        ensures
            w == self@.winner,
    {
        self.server_winner
    }

    /// The server's latest action count.
    pub fn server_action_count(&self) -> (n: u64)
        ensures
            n == self@.server_ac,
    {
        self.server_action_count
    }

    /// Record the server's latest action count.
    pub fn update_server_action_count(&mut self, action_count: u64)
        requires
            old(self).wf(),
        ensures
            final(self).wf(),
            final(self)@ == (NetState { server_ac: action_count, ..old(self)@ }),
    {
        self.server_action_count = action_count;
    }

    /// Log a state-sync delta at its game position. A delta already logged
    /// there is a re-send: it is dropped (`Ok(false)`) when it is the same
    /// delta and a fault when it differs. A new delta behind the cursor of
    /// its kind is a fault: it came too late. Otherwise it is logged
    /// (`Ok(true)`). A fault changes nothing.
    pub fn push_state_sync_at(&mut self, action_count: u64, entry: StateSyncEntry) -> (r: Result<
        bool,
        SyncFault,
    >)
        requires
            old(self).wf(),
        ensures
            final(self).wf(),
            sync_push_outcome(old(self)@, final(self)@, action_count, entry, r),
    {
        match self.state_sync.get(action_count) {
            Some(existing) => {
                if state_sync_entries_equivalent(existing, &entry) {
                    return Ok(false);
                } else {
                    return Err(SyncFault::ConflictingDelta { action_count });
                }
            },
            None => {},
        }
        let cursor = match &entry {
            StateSyncEntry::LibraryReorder { .. } => self.last_applied_reorder_ac,
            _ => self.last_applied_reveal_ac,
        };
        if action_count < cursor {
            return Err(SyncFault::LostDelta { action_count, cursor });
        }
        self.state_sync.insert_sorted(action_count, entry);
        Ok(true)
    }

    /// Record the game-start library order of `player` (replacing an
    /// earlier one).
    pub fn add_initial_library_order(&mut self, player: PlayerId, new_order: Vec<CardId>)
        requires
            old(self).wf(),
        ensures
            final(self).wf(),
            final(self)@ == (NetState { initial: final(self)@.initial, ..old(self)@ }),
            order_replaced(old(self)@.initial, final(self)@.initial, player, new_order@),
    {
        let ghost old_orders = self.initial_library_orders@;
        let n = self.initial_library_orders.len();
        let mut i: usize = 0;
        while i < n && self.initial_library_orders[i].0.0 < player.0
            invariant
                n == self.initial_library_orders@.len(),
                i <= n,
                forall|k: int| 0 <= k < i ==> self.initial_library_orders@[k].0.0 < player.0,
            decreases n - i,
        {
            i = i + 1;
        }
        let ghost nv = new_order@;
        if i < n && self.initial_library_orders[i].0.0 == player.0 {
            let ghost x = (player, new_order);
            self.initial_library_orders.set(i, (player, new_order));
            proof {
                lemma_orders_update(old_orders, i as int, x);
            }
        } else {
            let ghost x = (player, new_order);
            proof {
                if (i as int) < old_orders.len() {
                    assert(old_orders[i as int].0.0 > player.0);
                }
            }
            self.initial_library_orders.insert(i, (player, new_order));
            proof {
                lemma_orders_insert(old_orders, i as int, x);
            }
        }
    }

    /// Route the facts a choice request carries into the logs: first every
    /// state-sync fact (a library order at action count 0 is a game-start
    /// order), then every opponent choice, so no choice is logged before
    /// the reveals it depends on. The first fault stops the routing.
    pub fn apply_choice_buffer(&mut self, buffer: Vec<(u64, BufferedFact)>) -> (r: Result<(), SyncFault>)
        requires
            old(self).wf(),
        ensures
            final(self).wf(),
            buffer_outcome(old(self)@, final(self)@, buffer@, r),
    {
        let ghost orig = self@;
        let ghost facts = buffer@;
        let mut rest = buffer;
        let mut choices: Vec<(u64, BufferedFact)> = Vec::new();
        let mut i: usize = 0;
        let n = rest.len();
        proof {
            assert(facts.take(0) =~= Seq::<(u64, BufferedFact)>::empty());
        }
        while i < n
            invariant
                self.wf(),
                orig == old(self)@,
                facts == buffer@,
                n == facts.len(),
                i <= n,
                rest@ == facts.skip(i as int),
                choices@ == choice_facts(facts.take(i as int)),
                self@ == (NetState { sync: self@.sync, initial: self@.initial, ..orig }),
                sync_kept(orig.sync, self@.sync),
                new_sync_from(orig.sync, self@.sync, facts),
                forall|j: int| 0 <= j < i && is_sync_fact(#[trigger] facts[j]) ==> covered(self@.sync, facts[j]),
                forall|j: int| 0 <= j < i && is_initial_fact(#[trigger] facts[j]) ==> has_player(
                    self@.initial,
                    reorder_player(facts[j].1),
                ),
                first_sync_fault(orig, facts.take(i as int)) is None,
                forall|k: u64| #[trigger] lookup(self@.sync, k) == logged_at(orig.sync, facts.take(i as int), k),
                self@.opponent == orig.opponent,
            decreases n - i,
        {
            proof {
                assert(rest@[0] == facts[i as int]);
            }
            let (ac, fact) = rest.remove(0);
            let ghost item = (ac, fact);
            let ghost before = self@;
            proof {
                assert(item == facts[i as int]);
                assert(rest@ =~= facts.skip(i + 1));
                assert(facts.take(i + 1).drop_last() =~= facts.take(i as int));
                assert(facts.take(i + 1).last() == item);
            }
            let mut entry: Option<StateSyncEntry> = None;
            match fact {
                BufferedFact::Reveal { owner, card, reason } => {
                    entry = Some(StateSyncEntry::RevealCard { owner, card: Box::new(card), reason });
                },
                BufferedFact::LibraryReorder { player, new_order } => {
                    if ac == 0 {
                        let ghost order = new_order@;
                        self.add_initial_library_order(player, new_order);
                        proof {
                            lemma_initial_step(before.initial, self@.initial, facts, i as int, player, order);
                        }
                    } else {
                        entry = Some(StateSyncEntry::LibraryReorder { player, new_order });
                    }
                },
                BufferedFact::SearchCandidates { searcher, cards } => {
                    entry = Some(StateSyncEntry::SearchCandidates { searcher, cards });
                },
                BufferedFact::Choice { choice_seq, choice_type, description, payload } => {
                    choices.push((ac, BufferedFact::Choice { choice_seq, choice_type, description, payload }));
                },
            }
            match entry {
                Some(e) => {
                    proof {
                        assert(is_sync_fact(item));
                        assert(e == sync_entry_of(item.1));
                    }
                    let res = self.push_state_sync_at(ac, e);
                    proof {
                        lemma_sync_step(orig.sync, before, self@, facts, i as int, res);
                        lemma_sync_exact_step(orig, before, self@, facts, i as int, res);
                    }
                    match res {
                        Ok(_) => {},
                        Err(fault) => {
                            proof {
                                lemma_sync_fault_sticks(orig, facts, i + 1, n as int);
                                assert(facts.take(n as int) =~= facts);
                            }
                            return Err(fault);
                        },
                    }
                },
                None => {
                    proof {
                        assert(!is_sync_fact(item));
                        assert(self@.sync == before.sync);
                        lemma_sync_exact_skip(orig, facts, i as int);
                    }
                },
            }
            proof {
                assert forall|j: int| 0 <= j < i + 1 && is_sync_fact(#[trigger] facts[j]) implies covered(
                    self@.sync,
                    facts[j],
                ) by {
                    if j < i {
                        lemma_covered_kept(before.sync, self@.sync, facts[j]);
                    }
                }
            }
            i = i + 1;
        }
        proof {
            assert(facts.take(n as int) =~= facts);
            lemma_choice_facts_members(facts);
        }
        let ghost mid = self@;
        let ghost picked = choices@;
        proof {
            assert(picked.take(0) =~= Seq::<(u64, BufferedFact)>::empty());
        }
        let mut rest = choices;
        let m = rest.len();
        let mut i: usize = 0;
        while i < m
            invariant
                self.wf(),
                orig == old(self)@,
                facts == buffer@,
                mid == (NetState { sync: mid.sync, initial: mid.initial, ..orig }),
                sync_kept(orig.sync, mid.sync),
                new_sync_from(orig.sync, mid.sync, facts),
                forall|j: int| 0 <= j < facts.len() && is_sync_fact(#[trigger] facts[j]) ==> covered(mid.sync, facts[j]),
                forall|j: int| 0 <= j < facts.len() && is_initial_fact(#[trigger] facts[j]) ==> has_player(
                    mid.initial,
                    reorder_player(facts[j].1),
                ),
                m == picked.len(),
                i <= m,
                rest@ == picked.skip(i as int),
                picked == choice_facts(facts),
                forall|j: int| 0 <= j < picked.len() ==> is_choice_fact(#[trigger] picked[j]),
                forall|j: int|
                    0 <= j < picked.len() ==> exists|t: int|
                        0 <= t < facts.len() && #[trigger] facts[t] == #[trigger] picked[j],
                self@ == (NetState { opponent: self@.opponent, ..mid }),
                self@.opponent.take(orig.opponent.len() as int) == orig.opponent,
                orig.opponent.len() <= self@.opponent.len(),
                new_choices_from(orig.opponent, self@.opponent, facts),
                forall|j: int| 0 <= j < i ==> has_key(self@.opponent, #[trigger] choice_key(picked[j].1)),
                first_sync_fault(orig, facts) is None,
                forall|k: u64| #[trigger] lookup(mid.sync, k) == logged_at(orig.sync, facts, k),
                choices_logged(orig.opponent, picked.take(i as int)) == (self@.opponent, None::<SyncFault>),
            decreases m - i,
        {
            proof {
                assert(rest@[0] == picked[i as int]);
            }
            let (ac, fact) = rest.remove(0);
            let ghost item = (ac, fact);
            let ghost before = self@;
            proof {
                assert(rest@ =~= picked.skip(i + 1));
                assert(item == picked[i as int]);
                assert(is_choice_fact(picked[i as int]));
            }
            match fact {
                BufferedFact::Choice { choice_seq, description, payload, .. } => {
                    let entry = ChoiceEntry { choice_seq, action_count: ac, description, payload };
                    proof {
                        assert(entry == choice_entry_of(item));
                    }
                    let res = self.push_opponent_choice(entry);
                    proof {
                        let t = choose|t: int| 0 <= t < facts.len() && #[trigger] facts[t] == #[trigger] picked[i as int];
                        lemma_choice_step(orig.opponent, before, self@, facts, t, res);
                        lemma_choice_exact_step(orig.opponent, before, self@, picked, i as int, entry, res);
                    }
                    match res {
                        Ok(_) => {
                            proof {
                                assert forall|j: int| 0 <= j < i + 1 implies has_key(
                                    self@.opponent,
                                    #[trigger] choice_key(picked[j].1),
                                ) by {
                                    if j < i {
                                        assert(has_key(before.opponent, choice_key(picked[j].1)));
                                    }
                                }
                            }
                        },
                        Err(fault) => {
                            proof {
                                lemma_choice_fault_sticks(orig.opponent, picked, i + 1, m as int);
                                assert(picked.take(m as int) =~= picked);
                            }
                            return Err(fault);
                        },
                    }
                },
                _ => {},
            }
            i = i + 1;
        }
        proof {
            assert(picked.take(m as int) =~= picked);
        }
        proof {
            assert forall|j: int| 0 <= j < facts.len() && is_choice_fact(#[trigger] facts[j]) implies has_key(
                self@.opponent,
                choice_key(facts[j].1),
            ) by {
                lemma_choice_facts_complete(facts, j);
                let k = choose|k: int| 0 <= k < choice_facts(facts).len() && #[trigger] choice_facts(facts)[k] == facts[j];
                assert(has_key(self@.opponent, choice_key(picked[k].1)));
            }
        }
        Ok(())
    }

    /// Whether the choice-request buffers are the only source of facts.
    pub fn buffer_is_authoritative(&self) -> (b: bool)
        ensures
            b == self@.authoritative,
    {
        self.buffer_is_authoritative
    }

    /// Make the choice-request buffers the only source of facts.
    pub fn set_buffer_authoritative(&mut self)
        requires
            old(self).wf(),
        ensures
            final(self).wf(),
            final(self)@ == (NetState { authoritative: true, ..old(self)@ }),
    {
        self.buffer_is_authoritative = true;
    }

    /// Raise the watermark to the action count of a choice received.
    pub fn note_received_choice_ac(&mut self, action_count: u64)
        requires
            old(self).wf(),
        ensures
            final(self).wf(),
            final(self)@ == (NetState {
                watermark: max_u64(old(self)@.watermark, action_count),
                ..old(self)@
            }),
    {
        if action_count > self.max_received_choice_ac {
            self.max_received_choice_ac = action_count;
        }
    }

    /// The highest action count of a choice received.
    pub fn max_received_choice_ac(&self) -> (n: u64)
        ensures
            n == self@.watermark,
    {
        self.max_received_choice_ac
    }

    fn window(&self, after: u64, upto: u64, reorders: bool) -> (r: Vec<u64>)
        requires
            self.wf(),
        ensures
            r@ == window_keys(self@.sync, after, upto, reorders),
    {
        let log = self.state_sync.iter();
        let mut out: Vec<u64> = Vec::new();
        let mut i: usize = 0;
        assert(log@.take(0) =~= Seq::<(u64, StateSyncEntry)>::empty());
        while i < log.len()
            invariant
                i <= log@.len(),
                log@ == self@.sync,
                out@ == window_keys(log@.take(i as int), after, upto, reorders),
            decreases log@.len() - i,
        {
            proof {
                assert(log@.take(i + 1).drop_last() =~= log@.take(i as int));
                assert(log@.take(i + 1).last() == log@[i as int]);
            }
            let k = log[i].0;
            let reorder = match &log[i].1 {
                StateSyncEntry::LibraryReorder { .. } => true,
                _ => false,
            };
            if after < k && k <= upto && reorder == reorders {
                out.push(k);
            }
            i = i + 1;
        }
        assert(log@.take(i as int) =~= log@);
        out
    }

    /// What the game loop at `target_action` applies next. The game-start
    /// orders come first, once. Library reorders are applied by game
    /// position: those after their cursor up to the smaller of
    /// `target_action` and the frontier. Reveals are applied ahead: those
    /// after their cursor up to the smaller of the watermark and the
    /// frontier. When there is something to apply, each cursor moves to its
    /// bound (never back).
    pub fn state_sync_window(&mut self, target_action: u64) -> (w: SyncWindow)
        requires
            old(self).wf(),
        ensures
            final(self).wf(),
            !old(self)@.initial_applied ==> order_views(w.initial_orders@) == order_views(
                old(self)@.initial,
            ),
            old(self)@.initial_applied ==> w.initial_orders@.len() == 0,
            final(self)@.initial_applied,
            match frontier_of(old(self)@.sync) {
                None => w.reorder_keys@.len() == 0 && w.reveal_keys@.len() == 0 && final(self)@ == (NetState {
                    initial_applied: true,
                    ..old(self)@
                }),
                Some(f) => {
                    let rb = min_u64(target_action, f);
                    let vb = min_u64(old(self)@.watermark, f);
                    &&& w.reorder_keys@ == window_keys(old(self)@.sync, old(self)@.reorder_cursor, rb, true)
                    &&& w.reveal_keys@ == window_keys(old(self)@.sync, old(self)@.reveal_cursor, vb, false)
                    &&& if w.reorder_keys@.len() == 0 && w.reveal_keys@.len() == 0 {
                        final(self)@ == (NetState { initial_applied: true, ..old(self)@ })
                    } else {
                        final(self)@ == (NetState {
                            initial_applied: true,
                            reorder_cursor: max_u64(old(self)@.reorder_cursor, rb),
                            reveal_cursor: max_u64(old(self)@.reveal_cursor, vb),
                            ..old(self)@
                        })
                    }
                },
            },
    {
        let mut initial_orders: Vec<(PlayerId, Vec<CardId>)> = Vec::new();
        if !self.initial_library_applied {
            let mut moved: Vec<(PlayerId, Vec<CardId>)> = Vec::new();
            let mut i: usize = 0;
            while i < self.initial_library_orders.len()
                invariant
                    i <= self.initial_library_orders@.len(),
                    moved@.len() == i,
                    forall|k: int| 0 <= k < i ==> #[trigger] moved@[k].0 == self.initial_library_orders@[k].0
                        && moved@[k].1@ == self.initial_library_orders@[k].1@,
                decreases self.initial_library_orders@.len() - i,
            {
                let mut order: Vec<CardId> = Vec::new();
                let src = &self.initial_library_orders[i].1;
                let mut j: usize = 0;
                while j < src.len()
                    invariant
                        j <= src@.len(),
                        order@ == src@.take(j as int),
                    decreases src@.len() - j,
                {
                    order.push(src[j]);
                    j = j + 1;
                    assert(order@ =~= src@.take(j as int));
                }
                assert(src@.take(j as int) =~= src@);
                moved.push((self.initial_library_orders[i].0, order));
                i = i + 1;
            }
            assert(order_views(moved@) =~= order_views(self.initial_library_orders@));
            initial_orders = moved;
            self.initial_library_applied = true;
        }
        let frontier = match self.state_sync.frontier() {
            Some(f) => f,
            None => {
                return SyncWindow { initial_orders, reorder_keys: Vec::new(), reveal_keys: Vec::new() };
            },
        };
        let reorder_bound = if target_action < frontier {
            target_action
        } else {
            frontier
        };
        let reveal_bound = if self.max_received_choice_ac < frontier {
            self.max_received_choice_ac
        } else {
            frontier
        };
        let reorder_keys = self.window(self.last_applied_reorder_ac, reorder_bound, true);
        let reveal_keys = self.window(self.last_applied_reveal_ac, reveal_bound, false);
        if reorder_keys.len() > 0 || reveal_keys.len() > 0 {
            if reorder_bound > self.last_applied_reorder_ac {
                self.last_applied_reorder_ac = reorder_bound;
            }
            if reveal_bound > self.last_applied_reveal_ac {
                self.last_applied_reveal_ac = reveal_bound;
            }
        }
        SyncWindow { initial_orders, reorder_keys, reveal_keys }
    }

    /// The state-sync entry logged at `action_count`, if any.
    pub fn state_sync_entry(&self, action_count: u64) -> (r: Option<&StateSyncEntry>)
        requires
            self.wf(),
        ensures
            match r {
                Some(e) => lookup(self@.sync, action_count) == Some(*e),
                None => lookup(self@.sync, action_count) is None,
            },
    {
        self.state_sync.get(action_count)
    }

    /// Move both state-sync cursors back to the start, and hand out the
    /// game-start orders again, so a rewound game re-applies everything.
    pub fn reset_state_sync_cursor(&mut self)
        requires
            old(self).wf(),
        ensures
            final(self).wf(),
            final(self)@ == (NetState {
                reorder_cursor: 0,
                reveal_cursor: 0,
                initial_applied: false,
                ..old(self)@
            }),
    {
        self.last_applied_reorder_ac = 0;
        self.last_applied_reveal_ac = 0;
        self.initial_library_applied = false;
    }

    /// Whether a wait for the state-sync frontier to reach `count` is over:
    /// `Some(true)` when it did, `Some(false)` when the game is over and it
    /// did not, `None` while the caller must keep waiting.
    pub fn state_sync_frontier_reached(&self, count: u64) -> (r: Option<bool>)
        ensures
            ({
                let f = match frontier_of(self@.sync) {
                    Some(x) => x,
                    None => 0u64,
                };
                if f >= count {
                    r == Some(true)
                } else if self@.terminal {
                    r == Some(false)
                } else {
                    r is None
                }
            }),
    {
        let f = match self.state_sync.frontier() {
            Some(x) => x,
            None => 0,
        };
        if f >= count {
            Some(true)
        } else if self.terminal {
            Some(false)
        } else {
            None
        }
    }

    /// Queue a choice request for the local player.
    pub fn push_local_choice(&mut self, choice: LocalChoiceInfo)
        requires
            old(self).wf(),
        ensures
            final(self).wf(),
            final(self)@ == (NetState { local: old(self)@.local.push(choice), ..old(self)@ }),
    {
        self.local_choice_mvar.put(choice);
    }

    /// Whether `take_local_choice` can answer now.
    pub fn local_choice_ready(&self) -> (b: bool)
        ensures
            b == (self@.local.len() > 0 || self@.local_exit),
    {
        self.local_choice_mvar.is_exit_signaled() || self.local_choice_mvar.len() > 0
    }

    /// Take the oldest local choice request; `None` once exit was signalled
    /// and none is waiting. (Callers wait until `local_choice_ready`.)
    pub fn take_local_choice(&mut self) -> (r: Option<LocalChoiceInfo>)
        requires
            old(self).wf(),
            old(self)@.local.len() > 0 || old(self)@.local_exit,
        ensures
            final(self).wf(),
            old(self)@.local.len() > 0 ==> r == Some(old(self)@.local[0]) && final(self)@ == (NetState {
                local: old(self)@.local.drop_first(),
                ..old(self)@
            }),
            old(self)@.local.len() == 0 ==> r is None && final(self)@ == old(self)@,
    {
        self.local_choice_mvar.take()
    }

    /// Log an opponent choice under its sequence number. A choice already
    /// logged under that number is a re-send and is dropped (`Ok(false)`);
    /// a number not above the last logged is a fault. A fault changes
    /// nothing.
    pub fn push_opponent_choice(&mut self, entry: ChoiceEntry) -> (r: Result<bool, SyncFault>)
        requires
            old(self).wf(),
        ensures
            final(self).wf(),
            choice_push_outcome(old(self)@, final(self)@, entry, r),
    {
        let key = entry.choice_seq as u64;
        if self.opponent_choices.get(key).is_some() {
            return Ok(false);
        }
        match self.opponent_choices.frontier() {
            Some(last) => {
                if last >= key {
                    return Err(SyncFault::OutOfOrderChoice { choice_seq: key });
                }
            },
            None => {},
        }
        self.opponent_choices.push(key, entry);
        Ok(true)
    }

    /// Hand out the next opponent choice after the cursor: its sequence
    /// number, moving the cursor to it; `None` when there is none yet (the
    /// caller waits, unless the game is over).
    pub fn next_opponent_choice(&mut self) -> (r: Option<u64>)
        requires
            old(self).wf(),
        ensures
            final(self).wf(),
            r == first_key_after(old(self)@.opponent, old(self)@.opponent_cursor, 0),
            match r {
                Some(k) => final(self)@ == (NetState { opponent_cursor: k, ..old(self)@ }),
                None => final(self)@ == old(self)@,
            },
    {
        let r = first_key_after_in(self.opponent_choices.iter(), self.opponent_cursor);
        match r {
            Some(k) => {
                self.opponent_cursor = k;
            },
            None => {},
        }
        r
    }

    /// The opponent choice logged under `choice_seq`, if any.
    pub fn opponent_choice(&self, choice_seq: u64) -> (r: Option<&ChoiceEntry>)
        requires
            self.wf(),
        ensures
            match r {
                Some(e) => lookup(self@.opponent, choice_seq) == Some(*e),
                None => lookup(self@.opponent, choice_seq) is None,
            },
    {
        self.opponent_choices.get(choice_seq)
    }

    /// Move the opponent-choice cursor back to the start, so a replay
    /// hands out every choice again.
    pub fn reset_opponent_choice_cursor(&mut self)
        requires
            old(self).wf(),
        ensures
            final(self).wf(),
            final(self)@ == (NetState { opponent_cursor: 0, ..old(self)@ }),
    {
        self.opponent_cursor = 0;
    }

    /// Log the server's acknowledgement of our choice `choice_seq`, with the
    /// card a library search found. A number not above the last logged is
    /// a fault, which changes nothing.
    pub fn push_choice_accepted(&mut self, choice_seq: u32, library_search_result: Option<CardId>) -> (r:
        Result<(), SyncFault>)
        requires
            old(self).wf(),
        ensures
            final(self).wf(),
            accepted_outcome(old(self)@, final(self)@, choice_seq, library_search_result, r),
    {
        let key = choice_seq as u64;
        match self.choice_accepted.frontier() {
            Some(last) => {
                if last >= key {
                    return Err(SyncFault::OutOfOrderChoice { choice_seq: key });
                }
            },
            None => {},
        }
        let entry = ChoiceEntry {
            choice_seq,
            action_count: 0,
            description: String::new(),
            payload: ChoicePayload {
                choice_indices: Vec::new(),
                spell_ability: None,
                library_search_result,
                target_card_ids: None,
            },
        };
        self.choice_accepted.push(key, entry);
        assert(self@.accepted.drop_last() =~= old(self)@.accepted);
        Ok(())
    }

    /// The library-search result of the acknowledgement of our choice
    /// `expected_seq`, once it arrived (moving the cursor up to it);
    /// `None` before (the caller waits, unless the game is over).
    pub fn choice_accepted_for(&mut self, expected_seq: u32) -> (r: Option<Option<CardId>>)
        requires
            old(self).wf(),
        ensures
            final(self).wf(),
            match lookup(old(self)@.accepted, expected_seq as u64) {
                Some(e) => r == Some(e.payload.library_search_result) && final(self)@ == (NetState {
                    accepted_cursor: max_u64(old(self)@.accepted_cursor, expected_seq as u64),
                    ..old(self)@
                }),
                None => r is None && final(self)@ == old(self)@,
            },
    {
        let key = expected_seq as u64;
        let result = match self.choice_accepted.get(key) {
            Some(entry) => entry.payload.library_search_result,
            None => {
                return None;
            },
        };
        if self.accepted_cursor < key {
            self.accepted_cursor = key;
        }
        Some(result)
    }

    /// Move the acknowledgement cursor back to the start.
    pub fn reset_choice_accepted_cursor(&mut self)
        requires
            old(self).wf(),
        ensures
            final(self).wf(),
            final(self)@ == (NetState { accepted_cursor: 0, ..old(self)@ }),
    {
        self.accepted_cursor = 0;
    }

    /// The game is over or the connection gone: waits give up.
    pub fn signal_exit(&mut self)
        requires
            old(self).wf(),
        ensures
            final(self).wf(),
            final(self)@ == (NetState { terminal: true, local_exit: true, ..old(self)@ }),
    {
        self.terminal = true;
        self.local_choice_mvar.signal_exit();
    }

    /// Whether exit was signalled.
    pub fn should_exit(&self) -> (b: bool)
        ensures
            b == self@.terminal,
    {
        self.terminal
    }
}

fn first_key_after_in(log: &[(u64, ChoiceEntry)], cursor: u64) -> (r: Option<u64>)
    ensures
        r == first_key_after(log@, cursor, 0),
{
    let mut i: usize = 0;
    while i < log.len()
        invariant
            i <= log@.len(),
            first_key_after(log@, cursor, 0) == first_key_after(log@, cursor, i as int),
        decreases log@.len() - i,
    {
        if log[i].0 > cursor {
            return Some(log[i].0);
        }
        i = i + 1;
    }
    None
}

// ---------------------------------------------------------------------------
// The connection reader's decisions
// ---------------------------------------------------------------------------
/// Whether the connection reader goes on reading.
#[derive(Debug, Clone, Copy, PartialEq, Eq, Structural)]
pub enum ReaderStep {
    /// Read the next message.
    Continue,
    /// The game is over or failed: stop reading.
    Stop,
}

/// What a message does to the buffers while the choice-request buffers are
/// not yet the only source of facts, or what any message does that is not
/// such a fact.
pub open spec fn message_outcome(old: NetState, new: NetState, msg: NetworkMessage, r: Result<ReaderStep, SyncFault>) -> bool {
    match msg {
        NetworkMessage::CardRevealed { owner, card, reason, action_count } => if old.authoritative {
            new == old && r == Ok::<ReaderStep, SyncFault>(ReaderStep::Continue)
        } else {
            match action_count {
                Some(ac) => exists|pr: Result<bool, SyncFault>|
                    sync_push_outcome(
                        old,
                        new,
                        ac,
                        StateSyncEntry::RevealCard { owner, card: Box::new(card), reason },
                        pr,
                    ) && r == step_after(pr),
                None => new == old && r == Ok::<ReaderStep, SyncFault>(ReaderStep::Continue),
            }
        },
        NetworkMessage::SearchCandidates { searcher, cards, action_count } => if old.authoritative {
            new == old && r == Ok::<ReaderStep, SyncFault>(ReaderStep::Continue)
        } else {
            exists|pr: Result<bool, SyncFault>|
                sync_push_outcome(old, new, action_count, StateSyncEntry::SearchCandidates { searcher, cards }, pr)
                    && r == step_after(pr)
        },
        NetworkMessage::LibraryReordered { player, new_order, action_count } => if old.authoritative {
            new == old && r == Ok::<ReaderStep, SyncFault>(ReaderStep::Continue)
        } else if action_count == 0 {
            new == (NetState { initial: new.initial, ..old }) && order_replaced(
                old.initial,
                new.initial,
                player,
                new_order@,
            ) && r == Ok::<ReaderStep, SyncFault>(ReaderStep::Continue)
        } else {
            exists|pr: Result<bool, SyncFault>|
                sync_push_outcome(old, new, action_count, StateSyncEntry::LibraryReorder { player, new_order }, pr)
                    && r == step_after(pr)
        },
        NetworkMessage::ChoiceRequest {
            action_count,
            choice_seq,
            abilities,
            library_search_names,
            library_search_counts,
            buffer,
        } => {
            let noted = NetState {
                authoritative: true,
                watermark: max_u64(old.watermark, action_count),
                ..old
            };
            match r {
                Ok(step) => step == ReaderStep::Continue && exists|routed: NetState|
                    buffer_outcome(noted, routed, buffer@, Ok(())) && new == (NetState {
                        server_ac: action_count,
                        local: routed.local.push(
                            LocalChoiceInfo::Request {
                                action_count,
                                choice_seq,
                                abilities,
                                library_search_names,
                                library_search_counts,
                            },
                        ),
                        ..routed
                    }),
                Err(fault) => buffer_outcome(noted, new, buffer@, Err(fault)),
            }
        },
        NetworkMessage::ChoiceAccepted { choice_seq, library_search_result, .. } => match r {
            Ok(step) => step == ReaderStep::Continue && accepted_outcome(
                old,
                new,
                choice_seq,
                library_search_result,
                Ok(()),
            ),
            Err(fault) => accepted_outcome(old, new, choice_seq, library_search_result, Err(fault)),
        },
        NetworkMessage::OpponentChoice { action_count, choice_seq, description, payload } => if old.authoritative {
            new == old && r == Ok::<ReaderStep, SyncFault>(ReaderStep::Continue)
        } else {
            let noted = NetState { server_ac: action_count, watermark: max_u64(old.watermark, action_count), ..old };
            exists|pr: Result<bool, SyncFault>|
                choice_push_outcome(
                    noted,
                    new,
                    ChoiceEntry { choice_seq, action_count, description, payload },
                    pr,
                ) && r == step_after(pr)
        },
        NetworkMessage::GameEnded { winner, .. } => r == Ok::<ReaderStep, SyncFault>(ReaderStep::Stop) && new
            == (NetState {
            winner: if old.winner is None {
                Some(winner)
            } else {
                old.winner
            },
            terminal: true,
            local_exit: true,
            local: old.local.push(LocalChoiceInfo::Exit { winner }),
            ..old
        }),
        NetworkMessage::Error { message, fatal } => if fatal {
            r == Ok::<ReaderStep, SyncFault>(ReaderStep::Stop) && new == (NetState {
                terminal: true,
                local_exit: true,
                local: old.local.push(LocalChoiceInfo::Error { message }),
                ..old
            })
        } else {
            new == old && r == Ok::<ReaderStep, SyncFault>(ReaderStep::Continue)
        },
    }
}

/// The reader goes on after a fact was logged or dropped as a re-send, and
/// reports a fault.
pub open spec fn step_after(pr: Result<bool, SyncFault>) -> Result<ReaderStep, SyncFault> {
    match pr {
        Ok(_) => Ok(ReaderStep::Continue),
        Err(f) => Err(f),
    }
}

fn continue_after(pr: Result<bool, SyncFault>) -> (r: Result<ReaderStep, SyncFault>)
    ensures
        r == step_after(pr),
{
    match pr {
        Ok(_) => Ok(ReaderStep::Continue),
        Err(f) => Err(f),
    }
}

impl SharedNetworkState {
    /// Take one message from the server. Facts (reveals, search candidates,
    /// library orders, opponent choices) sent on their own are logged until
    /// the first choice request; from then on only the facts a choice
    /// request carries count, and the others are ignored. A choice request
    /// marks its position as read, routes its facts and queues the request
    /// for the local player; an acknowledgement is logged; the end of the
    /// game records the winner, releases every wait and stops the reader, as
    /// does a fatal error. A fault (a desync) is returned with the buffers
    /// as far as they got.
    pub fn apply_network_message(&mut self, msg: NetworkMessage) -> (r: Result<ReaderStep, SyncFault>)
        requires
            old(self).wf(),
        ensures
            final(self).wf(),
            message_outcome(old(self)@, final(self)@, msg, r),
    {
        match msg {
            NetworkMessage::CardRevealed { owner, card, reason, action_count } => {
                if self.buffer_is_authoritative {
                    return Ok(ReaderStep::Continue);
                }
                match action_count {
                    Some(ac) => {
                        let entry = StateSyncEntry::RevealCard { owner, card: Box::new(card), reason };
                        let ghost ge = entry;
                        let pr = self.push_state_sync_at(ac, entry);
                        proof {
                            assert(sync_push_outcome(old(self)@, self@, ac, ge, pr));
                        }
                        continue_after(pr)
                    },
                    None => Ok(ReaderStep::Continue),
                }
            },
            NetworkMessage::SearchCandidates { searcher, cards, action_count } => {
                if self.buffer_is_authoritative {
                    return Ok(ReaderStep::Continue);
                }
                let entry = StateSyncEntry::SearchCandidates { searcher, cards };
                let ghost ge = entry;
                let pr = self.push_state_sync_at(action_count, entry);
                proof {
                    assert(sync_push_outcome(old(self)@, self@, action_count, ge, pr));
                }
                continue_after(pr)
            },
            NetworkMessage::LibraryReordered { player, new_order, action_count } => {
                if self.buffer_is_authoritative {
                    return Ok(ReaderStep::Continue);
                }
                if action_count == 0 {
                    self.add_initial_library_order(player, new_order);
                    Ok(ReaderStep::Continue)
                } else {
                    let entry = StateSyncEntry::LibraryReorder { player, new_order };
                    let ghost ge = entry;
                    let pr = self.push_state_sync_at(action_count, entry);
                    proof {
                        assert(sync_push_outcome(old(self)@, self@, action_count, ge, pr));
                    }
                    continue_after(pr)
                }
            },
            NetworkMessage::ChoiceRequest {
                action_count,
                choice_seq,
                abilities,
                library_search_names,
                library_search_counts,
                buffer,
            } => {
                self.set_buffer_authoritative();
                self.note_received_choice_ac(action_count);
                let ghost noted = self@;
                let ghost buffer_view = buffer@;
                match self.apply_choice_buffer(buffer) {
                    Ok(()) => {},
                    Err(fault) => {
                        return Err(fault);
                    },
                }
                let ghost routed = self@;
                proof {
                    assert(buffer_outcome(noted, routed, buffer_view, Ok(())));
                }
                self.update_server_action_count(action_count);
                self.push_local_choice(
                    LocalChoiceInfo::Request {
                        action_count,
                        choice_seq,
                        abilities,
                        library_search_names,
                        library_search_counts,
                    },
                );
                Ok(ReaderStep::Continue)
            },
            NetworkMessage::ChoiceAccepted { choice_seq, library_search_result, .. } => {
                match self.push_choice_accepted(choice_seq, library_search_result) {
                    Ok(()) => Ok(ReaderStep::Continue),
                    Err(fault) => Err(fault),
                }
            },
            NetworkMessage::OpponentChoice { action_count, choice_seq, description, payload } => {
                if self.buffer_is_authoritative {
                    return Ok(ReaderStep::Continue);
                }
                self.update_server_action_count(action_count);
                self.note_received_choice_ac(action_count);
                let ghost noted = self@;
                let entry = ChoiceEntry { choice_seq, action_count, description, payload };
                let ghost ge = entry;
                let pr = self.push_opponent_choice(entry);
                proof {
                    assert(choice_push_outcome(noted, self@, ge, pr));
                }
                continue_after(pr)
            },
            NetworkMessage::GameEnded { winner, .. } => {
                self.set_server_winner(winner);
                self.signal_exit();
                self.push_local_choice(LocalChoiceInfo::Exit { winner });
                Ok(ReaderStep::Stop)
            },
            NetworkMessage::Error { message, fatal } => {
                if fatal {
                    self.signal_exit();
                    self.push_local_choice(LocalChoiceInfo::Error { message });
                    Ok(ReaderStep::Stop)
                } else {
                    Ok(ReaderStep::Continue)
                }
            },
        }
    }

    /// The server closed the connection: every wait is released and the
    /// local player is told the game ended without a reported winner.
    pub fn connection_closed(&mut self)
        requires
            old(self).wf(),
        ensures
            final(self).wf(),
            final(self)@ == (NetState {
                terminal: true,
                local_exit: true,
                local: old(self)@.local.push(LocalChoiceInfo::Exit { winner: None }),
                ..old(self)@
            }),
    {
        self.signal_exit();
        self.push_local_choice(LocalChoiceInfo::Exit { winner: None });
    }

    /// The connection failed with `message`: every wait is released and the
    /// local player is told of the error.
    pub fn connection_failed(&mut self, message: String)
        requires
            old(self).wf(),
        ensures
            final(self).wf(),
            final(self)@ == (NetState {
                terminal: true,
                local_exit: true,
                local: old(self)@.local.push(LocalChoiceInfo::Error { message }),
                ..old(self)@
            }),
    {
        self.signal_exit();
        self.push_local_choice(LocalChoiceInfo::Error { message });
    }
}

/// A window holds exactly the logged positions of its kind in its range:
/// a key is handed out iff an entry of that kind is logged there and the
/// key lies after the cursor and no further than the bound. Since each
/// window moves the cursor of its kind to its bound, successive windows
/// never hand out a position twice.
pub proof fn law_window_is_range(log: Seq<(u64, StateSyncEntry)>, after: u64, upto: u64, reorders: bool)
    ensures
        forall|k: u64|
            #[trigger] window_keys(log, after, upto, reorders).contains(k) <==> exists|i: int|
                0 <= i < log.len() && #[trigger] log[i].0 == k && after < k <= upto && is_reorder(log[i].1)
                    == reorders,
    decreases log.len(),
{
    if log.len() > 0 {
        let init = log.drop_last();
        law_window_is_range(init, after, upto, reorders);
        let w = window_keys(log, after, upto, reorders);
        let wi = window_keys(init, after, upto, reorders);
        assert forall|k: u64|
            #[trigger] w.contains(k) <==> exists|i: int|
                0 <= i < log.len() && #[trigger] log[i].0 == k && after < k <= upto && is_reorder(log[i].1)
                    == reorders by {
            if w.contains(k) {
                if wi.contains(k) {
                    let i = choose|i: int|
                        0 <= i < init.len() && #[trigger] init[i].0 == k && after < k <= upto && is_reorder(
                            init[i].1,
                        ) == reorders;
                    assert(log[i] == init[i]);
                } else {
                    let j = choose|j: int| 0 <= j < w.len() && w[j] == k;
                    assert(w != wi);
                    assert(w == wi.push(log.last().0));
                    assert(j == wi.len()) by {
                        if j < wi.len() {
                            assert(w[j] == wi[j]);
                        }
                    }
                    assert(log[log.len() - 1].0 == k);
                }
            }
            if exists|i: int|
                0 <= i < log.len() && #[trigger] log[i].0 == k && after < k <= upto && is_reorder(log[i].1)
                    == reorders {
                let i = choose|i: int|
                    0 <= i < log.len() && #[trigger] log[i].0 == k && after < k <= upto && is_reorder(log[i].1)
                        == reorders;
                if i < log.len() - 1 {
                    assert(init[i] == log[i]);
                    assert(wi.contains(k));
                    let j = choose|j: int| 0 <= j < wi.len() && wi[j] == k;
                    assert(w[j] == wi[j]);
                } else {
                    assert(w == wi.push(k));
                    assert(w[wi.len() as int] == k);
                }
            }
        }
    }
}

/// Opponent choices are handed out once each, in sequence order: after a
/// reset (cursor `0`) the first logged choice with a positive number comes
/// first, after handing out one choice the next logged one comes, and after
/// the last nothing does.
pub proof fn law_opponent_choices_in_order(log: Seq<(u64, ChoiceEntry)>, i: int)
    requires
        keys_strictly_increasing(log),
        0 <= i < log.len(),
    ensures
        i + 1 < log.len() ==> first_key_after(log, log[i].0, 0) == Some(log[i + 1].0),
        i + 1 == log.len() ==> first_key_after(log, log[i].0, 0) is None,
        log[0].0 > 0 ==> first_key_after(log, 0, 0) == Some(log[0].0),
{
    assert forall|t: int| 0 <= t < i + 1 implies #[trigger] log[t].0 <= log[i].0 by {
        if t < i {
            assert(log[t].0 < log[i].0);
        }
    }
    lemma_first_key_skips(log, log[i].0, 0, i + 1);
    if i + 1 < log.len() {
        assert(log[i].0 < log[i + 1].0);
    }
}

proof fn lemma_first_key_skips(log: Seq<(u64, ChoiceEntry)>, cursor: u64, j: int, stop: int)
    requires
        keys_strictly_increasing(log),
        0 <= j <= stop <= log.len(),
        forall|t: int| j <= t < stop ==> #[trigger] log[t].0 <= cursor,
    ensures
        first_key_after(log, cursor, j) == first_key_after(log, cursor, stop),
    decreases stop - j,
{
    if j < stop {
        lemma_first_key_skips(log, cursor, j + 1, stop);
    }
}

/// The first key after `cursor` at or after position `j`.
pub open spec fn first_key_after(log: Seq<(u64, ChoiceEntry)>, cursor: u64, j: int) -> Option<u64>
    decreases log.len() - j,
{
    if j < 0 || j >= log.len() {
        None
    } else if log[j].0 > cursor {
        Some(log[j].0)
    } else {
        first_key_after(log, cursor, j + 1)
    }
}

} // verus!
