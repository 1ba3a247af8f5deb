//! The server-side controller of a remote player.
//!
//! When the game needs a decision from a remote player, the controller
//! sends a `ChoiceRequest` over a channel to the connection's handler,
//! waits for the `ChoiceResponse`, and checks it: the response must answer
//! this request (its sequence number) and every index it names must be an
//! offered option. A response that fails the check is a desync, and a
//! desync is fatal: it is reported, never papered over.
use crate::game_types::{
    ability_card, card_debug, land_type_name, mana_text, player_debug, push_card_debug,
    push_player_debug, BasicLandType, CardId, ManaCost, PlayerId, SpellAbility, Zone,
};
use crate::protocol::ChoiceType;
use crate::sync_debug::DebugSyncInfo;
use crate::text::{dec, num_list, push_dec, push_str, push_usize_list, to_string, usize_nats};
use std::sync::atomic::{AtomicUsize, Ordering};
use std::sync::mpsc::{Receiver, Sender};
use std::sync::Arc;
use vstd::prelude::*;

verus! {

#[verifier::external_type_specification]
#[verifier::external_body]
#[verifier::reject_recursive_types(T)]
pub struct ExSender<T>(Sender<T>);

#[verifier::external_type_specification]
#[verifier::external_body]
#[verifier::reject_recursive_types(T)]
pub struct ExReceiver<T>(Receiver<T>);

// ---------------------------------------------------------------------------
// Requests, responses and errors
// ---------------------------------------------------------------------------
/// A card revealed to the player since their last choice.
#[derive(Debug, Clone, Copy, PartialEq, Eq, Structural)]
pub struct CardRevealInfo {
    /// The card revealed.
    pub card_id: CardId,
    /// Who owns the card.
    pub owner: PlayerId,
    /// The zone it came from.
    pub from_zone: Zone,
    /// The zone it went to.
    pub to_zone: Zone,
}

/// A request handed to the connection's handler.
#[derive(Debug, Clone)]
pub struct ChoiceRequest {
    /// Sequence number, matched by the response.
    pub choice_seq: u32,
    /// The kind of choice.
    pub choice_type: ChoiceType,
    /// The options, as shown.
    pub options: Vec<String>,
    /// Hash of the public game state.
    pub state_hash: u64,
    /// Length of the undo log at this choice.
    pub action_count: u64,
    /// Cards revealed since the player's last choice.
    pub reveals: Vec<CardRevealInfo>,
    /// Debug snapshot, when network debugging is on.
    pub debug_info: Option<DebugSyncInfo>,
    /// For priority choices, the ability of each option (`None` for pass).
    pub abilities: Option<Vec<Option<SpellAbility>>>,
    /// For library searches, every candidate card in option order.
    pub library_search_cards: Option<Vec<CardId>>,
    /// Library reorders to broadcast before the request.
    pub library_reorders: Vec<(PlayerId, Vec<CardId>)>,
}

/// The handler's answer to a request.
#[derive(Debug, Clone)]
pub struct ChoiceResponse {
    /// Sequence number of the request answered.
    pub choice_seq: u32,
    /// Indices of the chosen options.
    pub choice_indices: Vec<usize>,
    /// The ability the client chose, for checking priority choices.
    pub spell_ability: Option<SpellAbility>,
    /// The cards a targeting or damage choice names.
    pub target_card_ids: Option<Vec<CardId>>,
}

/// A checked response.
#[derive(Debug, Clone)]
pub struct NetworkChoiceResult {
    pub indices: Vec<usize>,
    pub spell_ability: Option<SpellAbility>,
    pub target_card_ids: Option<Vec<CardId>>,
}

/// What can go wrong talking to the remote player.
#[derive(Debug, Clone)]
pub enum NetworkError {
    /// The client disconnected.
    Disconnected,
    /// The request timed out.
    Timeout,
    /// The response answers another request.
    SequenceMismatch { expected: u32, got: u32 },
    /// An index out of range.
    InvalidChoice { max: usize, got: usize },
    /// The channel failed.
    ChannelError(String),
    /// Client and server state diverged: always fatal.
    DesyncError(String),
}

/// The message of a network error.
pub open spec fn error_text(e: NetworkError) -> Seq<char> {
    match e {
        NetworkError::Disconnected => "Client disconnected"@,
        NetworkError::Timeout => "Request timed out"@,
        NetworkError::SequenceMismatch { expected, got } => "Sequence mismatch: expected "@ + dec(
            expected as nat,
        ) + ", got "@ + dec(got as nat),
        NetworkError::InvalidChoice { max, got } => "Invalid choice index: "@ + dec(got as nat)
            + " (max "@ + dec(max as nat) + ")"@,
        NetworkError::ChannelError(m) => "Channel error: "@ + m@,
        NetworkError::DesyncError(m) => "FATAL DESYNC: "@ + m@,
    }
}

impl NetworkError {
    /// The error's message.
    pub fn message(&self) -> (s: String)
        ensures
            s@ == error_text(*self),
    {
        let mut buf: Vec<char> = Vec::new();
        match self {
            NetworkError::Disconnected => push_str(&mut buf, "Client disconnected"),
            NetworkError::Timeout => push_str(&mut buf, "Request timed out"),
            NetworkError::SequenceMismatch { expected, got } => {
                push_str(&mut buf, "Sequence mismatch: expected ");
                push_dec(&mut buf, *expected as u64);
                push_str(&mut buf, ", got ");
                push_dec(&mut buf, *got as u64);
            },
            NetworkError::InvalidChoice { max, got } => {
                push_str(&mut buf, "Invalid choice index: ");
                push_dec(&mut buf, *got as u64);
                push_str(&mut buf, " (max ");
                push_dec(&mut buf, *max as u64);
                push_str(&mut buf, ")");
            },
            NetworkError::ChannelError(m) => {
                push_str(&mut buf, "Channel error: ");
                push_str(&mut buf, m.as_str());
            },
            NetworkError::DesyncError(m) => {
                push_str(&mut buf, "FATAL DESYNC: ");
                push_str(&mut buf, m.as_str());
            },
        }
        assert(buf@ =~= error_text(*self));
        to_string(&buf)
    }
}

/// The message of a response that names an option that does not exist.
pub open spec fn desync_text(player: PlayerId, idx: usize, n: nat, indices: Seq<usize>) -> Seq<char> {
    "DESYNC DETECTED: NetworkController "@ + player_debug(player) + " received invalid choice index "@
        + dec(idx as nat) + " (only "@ + dec(n) + " options available). Client sent indices "@
        + num_list(usize_nats(indices))
        + ". This indicates client/server state divergence - a fundamental bug that must be fixed, NOT papered over with clamping."@
}

/// The first index of a response that must name an option and does not:
/// every index is checked, but for a library search only the first (the
/// name; the second picks among the cards of that name).
pub open spec fn first_bad_index(indices: Seq<usize>, n: nat, library_search: bool) -> Option<int> {
    if exists|i: int| 0 <= i < indices.len() && (!library_search || i == 0) && indices[i] >= n {
        Some(
            choose|i: int|
                0 <= i < indices.len() && (!library_search || i == 0) && indices[i] >= n && forall|
                    k: int,
                |
                    0 <= k < i && (!library_search || k == 0) ==> indices[k] < n,
        )
    } else {
        None
    }
}

/// `r` is what checking a response gives: a sequence mismatch when it
/// answers another request, else a desync at its first bad index, else
/// success.
pub open spec fn response_checked(
    r: Result<(), NetworkError>,
    expected_seq: u32,
    n: nat,
    library_search: bool,
    player: PlayerId,
    response: ChoiceResponse,
) -> bool {
    let indices = response.choice_indices@;
    if response.choice_seq != expected_seq {
        r matches Err(NetworkError::SequenceMismatch { expected, got }) && expected == expected_seq
            && got == response.choice_seq
    } else {
        match first_bad_index(indices, n, library_search) {
            Some(i) => r matches Err(NetworkError::DesyncError(m)) && m@ == desync_text(
                player,
                indices[i],
                n,
                indices,
            ),
            None => r is Ok,
        }
    }
}

/// What the controller makes of `response` to a request with sequence
/// number `expected_seq` and `n` options: the chosen indices, ability and
/// cards when the response passes the check, else the error the check
/// gives.
pub open spec fn reply_taken(
    r: Result<NetworkChoiceResult, NetworkError>,
    expected_seq: u32,
    n: nat,
    library_search: bool,
    player: PlayerId,
    response: ChoiceResponse,
) -> bool {
    match r {
        Ok(res) => response_checked(Ok(()), expected_seq, n, library_search, player, response) && res
            == NetworkChoiceResult {
            indices: response.choice_indices,
            spell_ability: response.spell_ability,
            target_card_ids: response.target_card_ids,
        },
        Err(e) => response_checked(Err(e), expected_seq, n, library_search, player, response),
    }
}

/// Check a response against the request it should answer: sequence number
/// `expected_seq`, `n` options.
pub fn check_choice_response(
    expected_seq: u32,
    n: usize,
    library_search: bool,
    player: PlayerId,
    response: &ChoiceResponse,
) -> (r: Result<(), NetworkError>)
    ensures
        response_checked(r, expected_seq, n as nat, library_search, player, *response),
{
    if response.choice_seq != expected_seq {
        return Err(NetworkError::SequenceMismatch { expected: expected_seq, got: response.choice_seq });
    }
    let indices = &response.choice_indices;
    let mut i: usize = 0;
    while i < indices.len()
        invariant
            i <= indices@.len(),
            indices@ == response.choice_indices@,
            response.choice_seq == expected_seq,
            forall|k: int| 0 <= k < i && (!library_search || k == 0) ==> indices@[k] < n,
        decreases indices@.len() - i,
    {
        if !(library_search && i >= 1) && indices[i] >= n {
            let mut buf: Vec<char> = Vec::new();
            push_str(&mut buf, "DESYNC DETECTED: NetworkController ");
            push_player_debug(&mut buf, player);
            push_str(&mut buf, " received invalid choice index ");
            push_dec(&mut buf, indices[i] as u64);
            push_str(&mut buf, " (only ");
            push_dec(&mut buf, n as u64);
            push_str(&mut buf, " options available). Client sent indices ");
            push_usize_list(&mut buf, indices.as_slice());
            push_str(
                &mut buf,
                ". This indicates client/server state divergence - a fundamental bug that must be fixed, NOT papered over with clamping.",
            );
            proof {
                let ii = i as int;
                assert(0 <= ii < indices@.len() && (!library_search || ii == 0) && indices@[ii] >= n);
                let c = choose|c: int|
                    0 <= c < indices@.len() && (!library_search || c == 0) && indices@[c] >= n
                        && forall|k: int| 0 <= k < c && (!library_search || k == 0) ==> indices@[k] < n;
                assert(first_bad_index(indices@, n as nat, library_search) == Some(c));
                if c < ii {
                    assert(indices@[c] < n);
                }
                if ii < c {
                    assert(indices@[ii] < n);
                }
                assert(c == ii);
                assert(buf@ =~= desync_text(player, indices@[ii], n as nat, indices@));
            }
            return Err(NetworkError::DesyncError(to_string(&buf)));
        }
        i = i + 1;
    }
    Ok(())
}

// ---------------------------------------------------------------------------
// Reveals
// ---------------------------------------------------------------------------
/// Who a reveal is shown to.
#[derive(Debug, Clone, Copy, PartialEq, Eq, Structural)]
pub enum RevealTarget {
    /// Everybody: the card went to a public zone.
    All,
    /// One player.
    Player(PlayerId),
}

/// What the reveal collection reads of an undo-log action.
#[derive(Debug, Clone, Copy, PartialEq, Eq, Structural)]
pub enum LoggedAction {
    /// A card moved between zones.
    MoveCard { card_id: CardId, to_zone: Zone },
    /// A player made a choice.
    ChoicePoint { player_id: PlayerId },
    /// A card was revealed; `named` says whether the reveal carries the
    /// card's name (reveals to an opponent carry none).
    RevealCard { card_id: CardId, named: bool, revealed_to: RevealTarget },
    /// Any other action.
    Other,
}

/// The action is a named reveal shown to `player`.
pub open spec fn is_visible_reveal(a: LoggedAction, player: PlayerId) -> bool {
    match a {
        LoggedAction::RevealCard { named, revealed_to, .. } => named && match revealed_to {
            RevealTarget::All => true,
            RevealTarget::Player(t) => t == player,
        },
        _ => false,
    }
}

/// The card of a reveal.
pub open spec fn revealed_card(a: LoggedAction) -> CardId {
    match a {
        LoggedAction::RevealCard { card_id, .. } => card_id,
        _ => CardId(0),
    }
}

/// Where the scan for reveals starts: just after the player's last choice
/// in `[lo, hi)`, or `lo` when there is none there.
pub open spec fn scan_start(actions: Seq<LoggedAction>, lo: int, hi: int, player: PlayerId) -> int
    decreases hi - lo,
{
    if hi <= lo {
        lo
    } else if actions[hi - 1] matches LoggedAction::ChoicePoint { player_id } && player_id == player {
        hi
    } else {
        scan_start(actions, lo, hi - 1, player)
    }
}

/// The zone the last move of `card` in `[lo, hi)` took it to.
pub open spec fn last_move(actions: Seq<LoggedAction>, lo: int, hi: int, card: CardId) -> Option<Zone>
    decreases hi - lo,
{
    if hi <= lo {
        None
    } else {
        match actions[hi - 1] {
            LoggedAction::MoveCard { card_id, to_zone } => if card_id == card {
                Some(to_zone)
            } else {
                last_move(actions, lo, hi - 1, card)
            },
            _ => last_move(actions, lo, hi - 1, card),
        }
    }
}

/// The owner the first entry for `card` names.
pub open spec fn owner_in(owners: Seq<(CardId, PlayerId)>, card: CardId) -> Option<PlayerId>
    decreases owners.len(),
{
    if owners.len() == 0 {
        None
    } else if owners[0].0 == card {
        Some(owners[0].1)
    } else {
        owner_in(owners.drop_first(), card)
    }
}

/// The reveal of `card`: its owner (the player, when unknown), from the
/// library to where its last move since `lo` took it (the hand, when it
/// did not move).
pub open spec fn reveal_info(
    actions: Seq<LoggedAction>,
    lo: int,
    owners: Seq<(CardId, PlayerId)>,
    player: PlayerId,
    card: CardId,
) -> CardRevealInfo {
    CardRevealInfo {
        card_id: card,
        owner: match owner_in(owners, card) {
            Some(o) => o,
            None => player,
        },
        from_zone: Zone::Library,
        to_zone: match last_move(actions, lo, actions.len() as int, card) {
            Some(z) => z,
            None => Zone::Hand,
        },
    }
}

/// The reveals shown to `player` among the actions in `[from, hi)`, in
/// order.
pub open spec fn reveals_between(
    actions: Seq<LoggedAction>,
    lo: int,
    from: int,
    hi: int,
    owners: Seq<(CardId, PlayerId)>,
    player: PlayerId,
) -> Seq<CardRevealInfo>
    decreases hi - from,
{
    if hi <= from {
        Seq::empty()
    } else {
        let r = reveals_between(actions, lo, from, hi - 1, owners, player);
        if is_visible_reveal(actions[hi - 1], player) {
            r.push(reveal_info(actions, lo, owners, player, revealed_card(actions[hi - 1])))
        } else {
            r
        }
    }
}

/// The reveals shown to `player` since action `last` and since their last
/// choice, in order.
pub open spec fn reveals_since(
    actions: Seq<LoggedAction>,
    last: int,
    owners: Seq<(CardId, PlayerId)>,
    player: PlayerId,
) -> Seq<CardRevealInfo> {
    let n = actions.len() as int;
    reveals_between(actions, last, scan_start(actions, last, n, player), n, owners, player)
}

/// `reveals_since` from a log position.
pub open spec fn reveals_since_at(
    actions: Seq<LoggedAction>,
    last: usize,
    owners: Seq<(CardId, PlayerId)>,
    player: PlayerId,
) -> Seq<CardRevealInfo> {
    reveals_since(actions, last as int, owners, player)
}

fn owner_of(owners: &[(CardId, PlayerId)], card: CardId) -> (r: Option<PlayerId>)
    ensures
        r == owner_in(owners@, card),
{
    let mut i: usize = 0;
    assert(owners@.skip(0) =~= owners@);
    while i < owners.len()
        invariant
            i <= owners@.len(),
            owner_in(owners@, card) == owner_in(owners@.skip(i as int), card),
        decreases owners@.len() - i,
    {
        proof {
            assert(owners@.skip(i as int).drop_first() =~= owners@.skip(i + 1));
        }
        if owners[i].0 == card {
            return Some(owners[i].1);
        }
        i = i + 1;
    }
    proof {
        assert(owners@.skip(i as int).len() == 0);
    }
    None
}

fn last_move_of(actions: &[LoggedAction], lo: usize, card: CardId) -> (r: Option<Zone>)
    requires
        lo <= actions@.len(),
    ensures
        r == last_move(actions@, lo as int, actions@.len() as int, card),
{
    let mut hi: usize = actions.len();
    while hi > lo
        invariant
            lo <= hi <= actions@.len(),
            last_move(actions@, lo as int, actions@.len() as int, card) == last_move(
                actions@,
                lo as int,
                hi as int,
                card,
            ),
        decreases hi,
    {
        match actions[hi - 1] {
            LoggedAction::MoveCard { card_id, to_zone } => {
                if card_id == card {
                    return Some(to_zone);
                }
            },
            _ => {},
        }
        hi = hi - 1;
    }
    None
}

/// The reveals shown to `player` since action `last_reveal_index` and
/// since the player's last choice, in order, with owners taken from
/// `owners`.
pub fn reveals_since_index(
    actions: &[LoggedAction],
    last_reveal_index: usize,
    player: PlayerId,
    owners: &[(CardId, PlayerId)],
) -> (r: Vec<CardRevealInfo>)
    ensures
        r@ == reveals_since(actions@, last_reveal_index as int, owners@, player),
{
    let n = actions.len();
    let mut start: usize = n;
    let mut found = false;
    while start > last_reveal_index && !found
        invariant
            start <= n == actions@.len(),
            found ==> start > last_reveal_index,
            scan_start(actions@, last_reveal_index as int, n as int, player) == if found {
                start as int
            } else {
                scan_start(actions@, last_reveal_index as int, start as int, player)
            },
        decreases start + if found { 0int } else { 1int },
    {
        match actions[start - 1] {
            LoggedAction::ChoicePoint { player_id } => {
                if player_id == player {
                    found = true;
                } else {
                    start = start - 1;
                }
            },
            _ => {
                start = start - 1;
            },
        }
    }
    let ghost lo = last_reveal_index as int;
    let ghost from = scan_start(actions@, lo, n as int, player);
    let first: usize = if found {
        start
    } else {
        last_reveal_index
    };
    assert(from == first);
    let mut out: Vec<CardRevealInfo> = Vec::new();
    if first >= n {
        return out;
    }
    let mut k: usize = first;
    while k < n
        invariant
            first <= k <= n == actions@.len(),
            last_reveal_index <= first,
            lo == last_reveal_index as int,
            from == first,
            out@ == reveals_between(actions@, lo, from, k as int, owners@, player),
        decreases n - k,
    {
        let a = actions[k];
        let visible = match a {
            LoggedAction::RevealCard { named, revealed_to, .. } => named && match revealed_to {
                RevealTarget::All => true,
                RevealTarget::Player(t) => t == player,
            },
            _ => false,
        };
        if visible {
            let card = match a {
                LoggedAction::RevealCard { card_id, .. } => card_id,
                _ => CardId(0),
            };
            let owner = match owner_of(owners, card) {
                Some(o) => o,
                None => player,
            };
            let to_zone = match last_move_of(actions, last_reveal_index, card) {
                Some(z) => z,
                None => Zone::Hand,
            };
            out.push(CardRevealInfo { card_id: card, owner, from_zone: Zone::Library, to_zone });
        }
        k = k + 1;
    }
    out
}

// ---------------------------------------------------------------------------
// The controller
// ---------------------------------------------------------------------------
/// `Receiver::recv`: waits for the handler's response; `Err` with the
/// channel's error text when the handler is gone. Any response may come
/// back.
#[verifier::external_body]
fn receive_response(rx: &Receiver<ChoiceResponse>) -> Result<ChoiceResponse, String> {
    match rx.recv() {
        Ok(r) => Ok(r),
        Err(e) => Err(e.to_string()),
    }
}

/// Controller of a remote player, used by the server.
pub struct NetworkController {
    /// The player this controller decides for.
    player_id: PlayerId,
    /// Channel of requests to the connection's handler.
    request_tx: Sender<ChoiceRequest>,
    /// Channel of responses from the handler.
    response_rx: Receiver<ChoiceResponse>,
    /// Sequence number of the last completed choice.
    choice_seq: u32,
    /// Undo-log position up to which reveals were sent, shared with the
    /// immediate reveal pusher so that a reveal is not sent twice.
    shared_reveal_index: Arc<AtomicUsize>,
    /// Whether requests carry debug snapshots.
    network_debug: bool,
    /// Candidate cards of the next library search.
    pending_library_search_card_ids: Option<Vec<CardId>>,
    /// Every request passed to the request channel, in order. Only
    /// `send_recorded` adds to it.
    sent_requests: Ghost<Seq<ChoiceRequest>>,
}

/// `req` is the request for a choice among `options` made by the
/// controller `c`: the next sequence number, the reveals since the
/// player's last choice, the debug snapshot only when debugging is on, and
/// everything else as given.
pub open spec fn request_made(
    req: ChoiceRequest,
    c: NetworkController,
    actions: Seq<LoggedAction>,
    owners: Seq<(CardId, PlayerId)>,
    action_count: u64,
    debug_snapshot: Option<DebugSyncInfo>,
    library_reorders: Vec<(PlayerId, Vec<CardId>)>,
    choice_type: ChoiceType,
    options: Vec<String>,
    state_hash: u64,
    abilities: Option<Vec<Option<SpellAbility>>>,
    library_search_cards: Option<Vec<CardId>>,
) -> bool {
    &&& req.choice_seq == c.seq() + 1
    &&& req.choice_type == choice_type
    &&& req.options == options
    &&& req.state_hash == state_hash
    &&& req.action_count == action_count
    &&& exists|last: usize| req.reveals@ == reveals_since_at(actions, last, owners, c.player())
    &&& req.debug_info == if c.debug_on() {
        debug_snapshot
    } else {
        None
    }
    &&& req.abilities == abilities
    &&& req.library_search_cards == library_search_cards
    &&& req.library_reorders == library_reorders
}

impl NetworkController {
    /// Every request the controller passed to its request channel, in
    /// order, whether or not the handler was still there to take it.
    pub closed spec fn sent(&self) -> Seq<ChoiceRequest> {
        self.sent_requests@
    }

    /// The controller's player.
    pub closed spec fn player(&self) -> PlayerId {
        self.player_id
    }

    /// Sequence number of the last completed choice.
    pub closed spec fn seq(&self) -> u32 {
        self.choice_seq
    }

    /// Whether requests carry debug snapshots.
    pub closed spec fn debug_on(&self) -> bool {
        self.network_debug
    }

    /// Candidate cards of the next library search.
    pub closed spec fn pending_search(&self) -> Option<Vec<CardId>> {
        self.pending_library_search_card_ids
    }

    /// The reveal index the controller shares with the immediate reveal
    /// pusher.
    pub closed spec fn reveal_cell(&self) -> Arc<AtomicUsize> {
        self.shared_reveal_index
    }

    /// A controller for `player_id` that talks over the given channels.
    pub fn new(
        player_id: PlayerId,
        request_tx: Sender<ChoiceRequest>,
        response_rx: Receiver<ChoiceResponse>,
        shared_reveal_index: Arc<AtomicUsize>,
    ) -> (c: Self)
        ensures
            c.player() == player_id,
            c.seq() == 0,
            !c.debug_on(),
            c.pending_search() is None,
            c.reveal_cell() == shared_reveal_index,
            c.sent().len() == 0,
    {
        NetworkController {
            player_id,
            request_tx,
            response_rx,
            choice_seq: 0,
            shared_reveal_index,
            network_debug: false,
            pending_library_search_card_ids: None,
            sent_requests: Ghost(Seq::empty()),
        }
    }

    /// The controller's player.
    pub fn player_id(&self) -> (p: PlayerId)
        ensures
            p == self.player(),
    {
        self.player_id
    }

    /// Sequence number of the last completed choice.
    pub fn choice_seq(&self) -> (s: u32)
        ensures
            s == self.seq(),
    {
        self.choice_seq
    }

    /// The reveal index shared with the immediate reveal pusher.
    pub fn shared_reveal_index(&self) -> (r: Arc<AtomicUsize>)
        ensures
            r == self.reveal_cell(),
    {
        Arc::clone(&self.shared_reveal_index)
    }

    /// Turn debug snapshots in requests on or off.
    pub fn set_network_debug(&mut self, enabled: bool)
        ensures
            final(self).debug_on() == enabled,
            final(self).player() == old(self).player(),
            final(self).seq() == old(self).seq(),
            final(self).pending_search() == old(self).pending_search(),
    {
        self.network_debug = enabled;
    }

    /// Record the candidate cards of the next library search.
    pub fn set_pending_library_search_card_ids(&mut self, card_ids: &[CardId])
        ensures
            final(self).pending_search() matches Some(v) && v@ == card_ids@,
            final(self).player() == old(self).player(),
            final(self).seq() == old(self).seq(),
            final(self).debug_on() == old(self).debug_on(),
    {
        let mut v: Vec<CardId> = Vec::new();
        let mut i: usize = 0;
        while i < card_ids.len()
            invariant
                i <= card_ids@.len(),
                v@ == card_ids@.take(i as int),
            decreases card_ids@.len() - i,
        {
            v.push(card_ids[i]);
            i = i + 1;
            assert(v@ =~= card_ids@.take(i as int));
        }
        assert(card_ids@.take(i as int) =~= card_ids@);
        self.pending_library_search_card_ids = Some(v);
    }

    /// Take the candidate cards of the library search being requested.
    pub fn take_pending_library_search_card_ids(&mut self) -> (r: Option<Vec<CardId>>)
        ensures
            r == old(self).pending_search(),
            final(self).pending_search() is None,
            final(self).player() == old(self).player(),
            final(self).seq() == old(self).seq(),
            final(self).debug_on() == old(self).debug_on(),
            final(self).sent() == old(self).sent(),
    {
        self.pending_library_search_card_ids.take()
    }

    /// Count a completed choice.
    pub fn increment_choice_seq(&mut self)
        requires
            old(self).seq() < u32::MAX,
        ensures
            final(self).seq() == old(self).seq() + 1,
            final(self).player() == old(self).player(),
            final(self).debug_on() == old(self).debug_on(),
            final(self).pending_search() == old(self).pending_search(),
            final(self).sent() == old(self).sent(),
    {
        self.choice_seq = self.choice_seq + 1;
    }

    /// Whether the controller can be asked for more choices: always, until
    /// the client disconnects.
    pub fn has_more_choices(&self) -> (b: bool)
        ensures
            b,
    {
        true
    }

    /// Collect the reveals shown to this player since the shared reveal
    /// index and since the player's last choice, in order; when there are
    /// any, move the shared index to the end of the log.
    pub fn collect_reveals_since_last_choice(
        &mut self,
        actions: &[LoggedAction],
        owners: &[(CardId, PlayerId)],
    ) -> (r: Vec<CardRevealInfo>)
        ensures
            exists|last: usize| r@ == reveals_since_at(actions@, last, owners@, old(self).player()),
            final(self).player() == old(self).player(),
            final(self).seq() == old(self).seq(),
            final(self).debug_on() == old(self).debug_on(),
            final(self).pending_search() == old(self).pending_search(),
            final(self).sent() == old(self).sent(),
    {
        let last = self.shared_reveal_index.load(Ordering::Acquire);
        let reveals = reveals_since_index(actions, last, self.player_id, owners);
        assert(reveals@ == reveals_since_at(actions@, last, owners@, old(self).player()));
        if reveals.len() > 0 {
            self.shared_reveal_index.store(actions.len(), Ordering::Release);
        }
        reveals
    }

    /// The request for a choice among `options`: it carries the next
    /// sequence number, the reveals since the player's last choice (which
    /// are then counted as sent), and the debug snapshot only when debugging
    /// is on; everything else as given.
    pub fn prepare_request(
        &mut self,
        actions: &[LoggedAction],
        owners: &[(CardId, PlayerId)],
        action_count: u64,
        debug_snapshot: Option<DebugSyncInfo>,
        library_reorders: Vec<(PlayerId, Vec<CardId>)>,
        choice_type: ChoiceType,
        options: Vec<String>,
        state_hash: u64,
        abilities: Option<Vec<Option<SpellAbility>>>,
        library_search_cards: Option<Vec<CardId>>,
    ) -> (r: ChoiceRequest)
        requires
            old(self).seq() < u32::MAX,
        ensures
            r.choice_seq == old(self).seq() + 1,
            r.choice_type == choice_type,
            r.options == options,
            r.state_hash == state_hash,
            r.action_count == action_count,
            exists|last: usize| r.reveals@ == reveals_since_at(actions@, last, owners@, old(self).player()),
            r.debug_info == if old(self).debug_on() {
                debug_snapshot
            } else {
                None
            },
            r.abilities == abilities,
            r.library_search_cards == library_search_cards,
            r.library_reorders == library_reorders,
            final(self).player() == old(self).player(),
            final(self).seq() == old(self).seq(),
            final(self).debug_on() == old(self).debug_on(),
            final(self).pending_search() == old(self).pending_search(),
            final(self).sent() == old(self).sent(),
    {
        let reveals = self.collect_reveals_since_last_choice(actions, owners);
        let debug_info = if self.network_debug {
            debug_snapshot
        } else {
            None
        };
        ChoiceRequest {
            choice_seq: self.choice_seq + 1,
            choice_type,
            options,
            state_hash,
            action_count,
            reveals,
            debug_info,
            abilities,
            library_search_cards,
            library_reorders,
        }
    }

    /// `Sender::send` on the controller's request channel: the request is
    /// passed to the connection's handler and recorded as the last entry of
    /// `sent()`; `Err` with the channel's error text when the handler is
    /// gone. Nothing else of the controller changes. Whether the handler
    /// reads the request is not claimed.
    #[verifier::external_body]
    fn send_recorded(&mut self, request: ChoiceRequest) -> (r: Result<(), String>)
        ensures
            final(self).sent() == old(self).sent().push(request),
            final(self).player() == old(self).player(),
            final(self).seq() == old(self).seq(),
            final(self).debug_on() == old(self).debug_on(),
            final(self).pending_search() == old(self).pending_search(),
            final(self).reveal_cell() == old(self).reveal_cell(),
    {
        match self.request_tx.send(request) {
            Ok(()) => Ok(()),
            Err(e) => Err(e.to_string()),
        }
    }

    /// Send a request for a choice among `options` (as `prepare_request`
    /// builds it) and wait for the checked response. Unless the channel
    /// fails, the result is what the response makes of the request (see
    /// `reply_taken`): whatever the client answers, a success names only
    /// offered options (for a library search, its first index does).
    pub fn request_choice(
        &mut self,
        actions: &[LoggedAction],
        owners: &[(CardId, PlayerId)],
        action_count: u64,
        debug_snapshot: Option<DebugSyncInfo>,
        library_reorders: Vec<(PlayerId, Vec<CardId>)>,
        choice_type: ChoiceType,
        options: Vec<String>,
        state_hash: u64,
        abilities: Option<Vec<Option<SpellAbility>>>,
        library_search_cards: Option<Vec<CardId>>,
    ) -> (r: Result<NetworkChoiceResult, NetworkError>)
        requires
            old(self).seq() < u32::MAX,
        ensures
            final(self).player() == old(self).player(),
            final(self).seq() == old(self).seq(),
            final(self).debug_on() == old(self).debug_on(),
            final(self).pending_search() == old(self).pending_search(),
            match r {
                Ok(res) => forall|i: int|
                    0 <= i < res.indices@.len() && (!(choice_type is LibrarySearchByName) || i == 0)
                        ==> res.indices@[i] < options@.len(),
                Err(e) => e is ChannelError || e is DesyncError || (e matches NetworkError::SequenceMismatch {
                    expected,
                    ..
                } && expected == old(self).seq() + 1),
            },
            final(self).sent().len() == old(self).sent().len() + 1,
            final(self).sent().drop_last() == old(self).sent(),
            request_made(
                final(self).sent().last(),
                *old(self),
                actions@,
                owners@,
                action_count,
                debug_snapshot,
                library_reorders,
                choice_type,
                options,
                state_hash,
                abilities,
                library_search_cards,
            ),
            (r matches Err(NetworkError::ChannelError(_))) || exists|response: ChoiceResponse|
                #[trigger] reply_taken(
                    r,
                    (old(self).seq() + 1) as u32,
                    options@.len(),
                    choice_type is LibrarySearchByName,
                    old(self).player(),
                    response,
                ),
    {
        let is_library_search = match &choice_type {
            ChoiceType::LibrarySearchByName { .. } => true,
            _ => false,
        };
        let n = options.len();
        let expected = self.choice_seq + 1;
        let request = self.prepare_request(
            actions,
            owners,
            action_count,
            debug_snapshot,
            library_reorders,
            choice_type,
            options,
            state_hash,
            abilities,
            library_search_cards,
        );
        match self.send_recorded(request) {
            Ok(()) => {},
            Err(m) => {
                return Err(NetworkError::ChannelError(m));
            },
        }
        let response = match receive_response(&self.response_rx) {
            Ok(resp) => resp,
            Err(m) => {
                return Err(NetworkError::ChannelError(m));
            },
        };
        match check_choice_response(expected, n, is_library_search, self.player_id, &response) {
            Ok(()) => {
                proof {
                    assert(response.choice_seq == expected);
                    if exists|i: int|
                        0 <= i < response.choice_indices@.len() && (!is_library_search || i == 0)
                            && response.choice_indices@[i] >= n {
                        let w = choose|i: int|
                            0 <= i < response.choice_indices@.len() && (!is_library_search || i == 0)
                                && response.choice_indices@[i] >= n;
                        lemma_first_bad_exists(response.choice_indices@, n as nat, is_library_search, w);
                    }
                }
                let ghost answered = response;
                let res = NetworkChoiceResult {
                    indices: response.choice_indices,
                    spell_ability: response.spell_ability,
                    target_card_ids: response.target_card_ids,
                };
                proof {
                    assert(reply_taken(Ok(res), expected, n as nat, is_library_search, old(self).player(), answered));
                }
                Ok(res)
            },
            Err(e) => {
                proof {
                    assert(reply_taken(Err(e), expected, n as nat, is_library_search, old(self).player(), response));
                }
                Err(e)
            },
        }
    }
}

/// A bad index means there is a first bad index.
proof fn lemma_first_bad_exists(indices: Seq<usize>, n: nat, library_search: bool, w: int)
    requires
        0 <= w < indices.len(),
        !library_search || w == 0,
        indices[w] >= n,
    ensures
        first_bad_index(indices, n, library_search) is Some,
    decreases w,
{
    if exists|k: int| 0 <= k < w && (!library_search || k == 0) && indices[k] >= n {
        let k = choose|k: int| 0 <= k < w && (!library_search || k == 0) && indices[k] >= n;
        lemma_first_bad_exists(indices, n, library_search, k);
    } else {
        assert(0 <= w < indices.len() && (!library_search || w == 0) && indices[w] >= n && forall|
            k: int,
        |
            0 <= k < w && (!library_search || k == 0) ==> indices[k] < n);
    }
}

// ---------------------------------------------------------------------------
// Option texts
// ---------------------------------------------------------------------------
/// How a mana cost prints under `Debug`.
pub open spec fn mana_debug(c: ManaCost) -> Seq<char> {
    "ManaCost { generic: "@ + dec(c.generic as nat) + ", white: "@ + dec(c.white as nat)
        + ", blue: "@ + dec(c.blue as nat) + ", black: "@ + dec(c.black as nat) + ", red: "@ + dec(
        c.red as nat,
    ) + ", green: "@ + dec(c.green as nat) + ", colorless: "@ + dec(c.colorless as nat) + " }"@
}

/// How an optional land type prints under `Debug`.
pub open spec fn land_option_debug(t: Option<BasicLandType>) -> Seq<char> {
    match t {
        Some(l) => "Some("@ + land_type_name(l) + ")"@,
        None => "None"@,
    }
}

/// How a spell ability prints under `Debug`.
pub open spec fn ability_debug(a: SpellAbility) -> Seq<char> {
    match a {
        SpellAbility::PlayLand { card_id } => "PlayLand { card_id: "@ + card_debug(card_id) + " }"@,
        SpellAbility::CastSpell { card_id } => "CastSpell { card_id: "@ + card_debug(card_id) + " }"@,
        SpellAbility::ActivateAbility { card_id, ability_index } => "ActivateAbility { card_id: "@
            + card_debug(card_id) + ", ability_index: "@ + dec(ability_index as nat) + " }"@,
        SpellAbility::CastFromExile { card_id, alternative_cost } => "CastFromExile { card_id: "@
            + card_debug(card_id) + ", alternative_cost: "@ + mana_debug(alternative_cost) + " }"@,
        SpellAbility::CastFromCommand { card_id, total_cost } => "CastFromCommand { card_id: "@
            + card_debug(card_id) + ", total_cost: "@ + mana_debug(total_cost) + " }"@,
        SpellAbility::Cycle { card_id, cost, search_type } => "Cycle { card_id: "@ + card_debug(
            card_id,
        ) + ", cost: "@ + mana_debug(cost) + ", search_type: "@ + land_option_debug(search_type)
            + " }"@,
        SpellAbility::CastFromGraveyard { card_id, cost } => "CastFromGraveyard { card_id: "@
            + card_debug(card_id) + ", cost: "@ + mana_debug(cost) + " }"@,
    }
}

fn push_mana_debug(buf: &mut Vec<char>, c: &ManaCost)
    ensures
        final(buf)@ == old(buf)@ + mana_debug(*c),
{
    push_str(buf, "ManaCost { generic: ");
    push_dec(buf, c.generic as u64);
    push_str(buf, ", white: ");
    push_dec(buf, c.white as u64);
    push_str(buf, ", blue: ");
    push_dec(buf, c.blue as u64);
    push_str(buf, ", black: ");
    push_dec(buf, c.black as u64);
    push_str(buf, ", red: ");
    push_dec(buf, c.red as u64);
    push_str(buf, ", green: ");
    push_dec(buf, c.green as u64);
    push_str(buf, ", colorless: ");
    push_dec(buf, c.colorless as u64);
    push_str(buf, " }");
    assert(final(buf)@ =~= old(buf)@ + mana_debug(*c));
}

/// Appends the `Debug` text of a spell ability.
#[verifier::rlimit(40)]
pub fn push_ability_debug(buf: &mut Vec<char>, a: &SpellAbility)
    ensures
        final(buf)@ == old(buf)@ + ability_debug(*a),
{
    match a {
        SpellAbility::PlayLand { card_id } => {
            push_str(buf, "PlayLand { card_id: ");
            push_card_debug(buf, *card_id);
            push_str(buf, " }");
            assert(final(buf)@ =~= old(buf)@ + ability_debug(*a));
        },
        SpellAbility::CastSpell { card_id } => {
            push_str(buf, "CastSpell { card_id: ");
            push_card_debug(buf, *card_id);
            push_str(buf, " }");
            assert(final(buf)@ =~= old(buf)@ + ability_debug(*a));
        },
        SpellAbility::ActivateAbility { card_id, ability_index } => {
            push_str(buf, "ActivateAbility { card_id: ");
            push_card_debug(buf, *card_id);
            push_str(buf, ", ability_index: ");
            push_dec(buf, *ability_index as u64);
            push_str(buf, " }");
            assert(final(buf)@ =~= old(buf)@ + ability_debug(*a));
        },
        SpellAbility::CastFromExile { card_id, alternative_cost } => {
            push_str(buf, "CastFromExile { card_id: ");
            push_card_debug(buf, *card_id);
            push_str(buf, ", alternative_cost: ");
            push_mana_debug(buf, alternative_cost);
            push_str(buf, " }");
            assert(final(buf)@ =~= old(buf)@ + ability_debug(*a));
        },
        SpellAbility::CastFromCommand { card_id, total_cost } => {
            push_str(buf, "CastFromCommand { card_id: ");
            push_card_debug(buf, *card_id);
            push_str(buf, ", total_cost: ");
            push_mana_debug(buf, total_cost);
            push_str(buf, " }");
            assert(final(buf)@ =~= old(buf)@ + ability_debug(*a));
        },
        SpellAbility::Cycle { card_id, cost, search_type } => {
            push_str(buf, "Cycle { card_id: ");
            push_card_debug(buf, *card_id);
            push_str(buf, ", cost: ");
            push_mana_debug(buf, cost);
            push_str(buf, ", search_type: ");
            match search_type {
                Some(l) => {
                    push_str(buf, "Some(");
                    push_str(buf, l.as_str());
                    push_str(buf, ")");
                },
                None => push_str(buf, "None"),
            }
            push_str(buf, " }");
            assert(final(buf)@ =~= old(buf)@ + ability_debug(*a));
        },
        SpellAbility::CastFromGraveyard { card_id, cost } => {
            push_str(buf, "CastFromGraveyard { card_id: ");
            push_card_debug(buf, *card_id);
            push_str(buf, ", cost: ");
            push_mana_debug(buf, cost);
            push_str(buf, " }");
            assert(final(buf)@ =~= old(buf)@ + ability_debug(*a));
        },
    }
}

/// The option text of a spell ability, given its card's name (empty when
/// the name is unknown).
pub open spec fn ability_option_text(a: SpellAbility, name: Seq<char>) -> Seq<char> {
    match a {
        SpellAbility::PlayLand { .. } => "Play land: "@ + name,
        SpellAbility::CastSpell { .. } => "Cast spell: "@ + name,
        SpellAbility::ActivateAbility { ability_index, .. } => "Activate: "@ + name + " (ability "@
            + dec(ability_index as nat) + ")"@,
        SpellAbility::CastFromExile { alternative_cost, .. } => "Cast from exile: "@ + name
            + " (for "@ + mana_text(alternative_cost) + ")"@,
        SpellAbility::CastFromCommand { total_cost, .. } => "Cast from command zone: "@ + name
            + " ("@ + mana_text(total_cost) + ")"@,
        SpellAbility::Cycle { cost, search_type, .. } => match search_type {
            Some(t) => land_type_name(t) + "cycling: "@ + name + " ("@ + mana_text(cost) + ")"@,
            None => "Cycle: "@ + name + " ("@ + mana_text(cost) + ")"@,
        },
        SpellAbility::CastFromGraveyard { .. } => "Cast from graveyard: "@ + name,
    }
}

/// The name given, or nothing.
pub open spec fn name_or_empty(name: Option<&str>) -> Seq<char> {
    match name {
        Some(n) => n@,
        None => Seq::empty(),
    }
}

/// The option text of a card: its name, or `Card #<id>` when unknown.
pub open spec fn card_option_text(card: CardId, name: Option<&str>) -> Seq<char> {
    match name {
        Some(n) => n@,
        None => "Card #"@ + dec(card.0 as nat),
    }
}

impl NetworkController {
    /// The option text of a spell ability whose card is named `card_name`
    /// (the game's name for `ability`'s card, if it knows one).
    pub fn format_spell_ability(&self, ability: &SpellAbility, card_name: Option<&str>) -> (s: String)
        ensures
            s@ == ability_option_text(*ability, name_or_empty(card_name)),
    {
        let mut buf: Vec<char> = Vec::new();
        let ghost name = name_or_empty(card_name);
        match ability {
            SpellAbility::PlayLand { .. } => push_str(&mut buf, "Play land: "),
            SpellAbility::CastSpell { .. } => push_str(&mut buf, "Cast spell: "),
            SpellAbility::ActivateAbility { .. } => push_str(&mut buf, "Activate: "),
            SpellAbility::CastFromExile { .. } => push_str(&mut buf, "Cast from exile: "),
            SpellAbility::CastFromCommand { .. } => push_str(&mut buf, "Cast from command zone: "),
            SpellAbility::Cycle { search_type, .. } => match search_type {
                Some(t) => {
                    push_str(&mut buf, t.as_str());
                    push_str(&mut buf, "cycling: ");
                },
                None => push_str(&mut buf, "Cycle: "),
            },
            SpellAbility::CastFromGraveyard { .. } => push_str(&mut buf, "Cast from graveyard: "),
        }
        let ghost head = buf@;
        match card_name {
            Some(n) => push_str(&mut buf, n),
            None => {},
        }
        assert(buf@ =~= head + name);
        match ability {
            SpellAbility::ActivateAbility { ability_index, .. } => {
                push_str(&mut buf, " (ability ");
                push_dec(&mut buf, *ability_index as u64);
                push_str(&mut buf, ")");
            },
            SpellAbility::CastFromExile { alternative_cost, .. } => {
                push_str(&mut buf, " (for ");
                alternative_cost.push_text(&mut buf);
                push_str(&mut buf, ")");
            },
            SpellAbility::CastFromCommand { total_cost, .. } => {
                push_str(&mut buf, " (");
                total_cost.push_text(&mut buf);
                push_str(&mut buf, ")");
            },
            SpellAbility::Cycle { cost, .. } => {
                push_str(&mut buf, " (");
                cost.push_text(&mut buf);
                push_str(&mut buf, ")");
            },
            _ => {},
        }
        assert(buf@ =~= ability_option_text(*ability, name));
        to_string(&buf)
    }

    /// The option text of a card whose game name is `card_name`.
    pub fn format_card(&self, card_id: CardId, card_name: Option<&str>) -> (s: String)
        ensures
            s@ == card_option_text(card_id, card_name),
    {
        match card_name {
            Some(n) => n.to_owned(),
            None => {
                let mut buf: Vec<char> = Vec::new();
                push_str(&mut buf, "Card #");
                push_dec(&mut buf, card_id.0 as u64);
                assert(buf@ =~= card_option_text(card_id, card_name));
                to_string(&buf)
            },
        }
    }
}

} // verus!
