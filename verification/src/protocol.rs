//! The messages exchanged between client and server, and the values they
//! carry.
//!
//! Every choice message carries an `action_count`: the length of the
//! server's undo log at that point. A `ChoiceRequest` carries the count
//! before the choice; the client echoes it in `SubmitChoice`; the server's
//! `ChoiceAccepted` carries the count after the choice was applied.
use crate::choice_entry::ChoicePayload;
use crate::game_types::{CardId, ManaCost, PlayerId, SpellAbility};
use crate::str_map::StrMap;
use crate::sync_debug::{DebugSyncInfo, SyncErrorDetails};
use crate::text::{hex_char, hex_digit, to_string};
use vstd::prelude::*;

verus! {

/// The default port of the game server.
pub const DEFAULT_PORT: u16 = 17771;

// ---------------------------------------------------------------------------
// Time
// ---------------------------------------------------------------------------
#[verifier::external_type_specification]
#[verifier::external_body]
pub struct ExSystemTime(std::time::SystemTime);

/// `SystemTime::now`: the machine's clock. Nothing is claimed of it.
#[verifier::external_body]
fn system_now() -> std::time::SystemTime {
    std::time::SystemTime::now()
}

/// `SystemTime::duration_since(UNIX_EPOCH)`: the time since the epoch, or
/// `None` when `t` lies before it. Nothing is claimed of the value.
#[verifier::external_body]
fn since_epoch(t: std::time::SystemTime) -> Option<std::time::Duration> {
    match t.duration_since(std::time::UNIX_EPOCH) {
        Ok(d) => Some(d),
        Err(_) => None,
    }
}

/// `Duration::as_millis`: the whole milliseconds of `d`. Nothing is
/// claimed of the value, `Duration` being opaque here.
#[verifier::external_body]
fn whole_millis(d: std::time::Duration) -> u128 {
    d.as_millis()
}

/// Wall-clock milliseconds since the Unix epoch (0 when the clock reads
/// before the epoch; the low 64 bits otherwise).
pub fn now_ms() -> u64 {
    match since_epoch(system_now()) {
        Some(d) => {
            let ms = whole_millis(d);
            #[verifier::truncate]
            (ms as u64)
        },
        None => 0,
    }
}

// ---------------------------------------------------------------------------
// Reconnect tokens
// ---------------------------------------------------------------------------
/// Opaque token a client presents to re-join a game after a dropped
/// connection: 128 random bits written as 32 lower-case hex digits.
#[derive(Debug, Clone, PartialEq, Eq, Hash)]
pub struct ReconnectToken(pub String);

/// A lower-case hexadecimal digit.
pub open spec fn is_lower_hex(c: char) -> bool {
    ('0' <= c && c <= '9') || ('a' <= c && c <= 'f')
}

/// The token text is well formed: 32 lower-case hex digits.
pub open spec fn token_format_ok(s: Seq<char>) -> bool {
    s.len() == 32 && forall|i: int| 0 <= i < s.len() ==> is_lower_hex(#[trigger] s[i])
}

/// The last `width` hexadecimal digits of `n`, most significant first
/// (`{:0width$x}` for an `n` below `16^width`).
pub open spec fn fixed_hex(n: nat, width: nat) -> Seq<char>
    decreases width,
{
    if width == 0 {
        Seq::empty()
    } else {
        fixed_hex(n / 16, (width - 1) as nat).push(hex_char(n % 16))
    }
}

/// `RngCore::try_fill_bytes` on `OsRng`: 16 bytes of operating-system
/// entropy read as a little-endian `u128`, or `None` when the system cannot
/// provide entropy (the call returns an error; it does not panic). Any
/// value may come back.
#[verifier::external_body]
fn os_random_u128() -> Option<u128> {
    let mut bytes = [0u8; 16];
    match rand::RngCore::try_fill_bytes(&mut rand::rngs::OsRng, &mut bytes) {
        Ok(()) => Some(u128::from_le_bytes(bytes)),
        Err(_) => None,
    }
}

/// Appends the last `width` hex digits of `n`.
fn push_fixed_hex(buf: &mut Vec<char>, n: u128, width: u32)
    ensures
        final(buf)@ == old(buf)@ + fixed_hex(n as nat, width as nat),
    decreases width,
{
    if width > 0 {
        push_fixed_hex(buf, n / 16, width - 1);
        let d = (n % 16) as u64;
        buf.push(hex_digit(d));
        assert(fixed_hex(n as nat, width as nat) == fixed_hex((n / 16) as nat, (width - 1) as nat).push(
            hex_char((n % 16) as nat),
        ));
    } else {
        assert(old(buf)@ + fixed_hex(n as nat, 0) =~= old(buf)@);
    }
}

/// A fixed-width hex rendering is well formed text of that width.
proof fn lemma_fixed_hex_chars(n: nat, width: nat)
    ensures
        fixed_hex(n, width).len() == width,
        forall|i: int| 0 <= i < width ==> is_lower_hex(#[trigger] fixed_hex(n, width)[i]),
    decreases width,
{
    if width > 0 {
        lemma_fixed_hex_chars(n / 16, (width - 1) as nat);
        let d = n % 16;
        assert(is_lower_hex(hex_char(d))) by {
            if d < 10 {
                assert(hex_char(d) == ((d as u32) + 48) as char);
            } else {
                assert(hex_char(d) == ((d as u32) + 87) as char);
            }
        }
    }
}

/// The token text for 128 bits: their 32 hex digits.
pub open spec fn token_text(bits: u128) -> Seq<char> {
    fixed_hex(bits as nat, 32)
}

impl ReconnectToken {
    /// The token for the given 128 bits.
    pub fn from_bits(bits: u128) -> (t: Self)
        ensures
            t.0@ == token_text(bits),
    {
        let mut buf: Vec<char> = Vec::new();
        push_fixed_hex(&mut buf, bits, 32);
        assert(buf@ =~= token_text(bits));
        ReconnectToken(to_string(&buf))
    }

    /// A fresh random token, from 128 bits of system entropy; `None` when
    /// the system cannot provide entropy.
    pub fn generate() -> (t: Option<Self>)
        ensures
            t matches Some(tok) ==> token_format_ok(tok.0@) && exists|bits: u128| tok.0@ == token_text(bits),
    {
        match os_random_u128() {
            Some(bits) => {
                let t = Self::from_bits(bits);
                proof {
                    lemma_fixed_hex_chars(bits as nat, 32);
                }
                Some(t)
            },
            None => None,
        }
    }

    /// Whether the token is 32 lower-case hex digits.
    pub fn is_valid_format(&self) -> (b: bool)
        ensures
            b == token_format_ok(self.0@),
    {
        let s = self.0.as_str();
        let n = s.unicode_len();
        if n != 32 {
            return false;
        }
        let mut i: usize = 0;
        while i < n
            invariant
                n == s@.len() == 32,
                s@ == self.0@,
                i <= n,
                forall|k: int| 0 <= k < i ==> is_lower_hex(#[trigger] s@[k]),
            decreases n - i,
        {
            let c = s.get_char(i);
            if !(('0' <= c && c <= '9') || ('a' <= c && c <= 'f')) {
                return false;
            }
            i = i + 1;
        }
        true
    }

    /// The token text.
    pub fn as_str(&self) -> (s: &str)
        ensures
            s@ == self.0@,
    {
        self.0.as_str()
    }
}

/// Every generated token is well formed.
pub proof fn law_generated_tokens_are_valid(bits: u128)
    ensures
        token_format_ok(token_text(bits)),
{
    lemma_fixed_hex_chars(bits as nat, 32);
}

// ---------------------------------------------------------------------------
// Decks
// ---------------------------------------------------------------------------
/// The number of cards a deck list names: the sum of its counts.
pub open spec fn deck_count(entries: Seq<(String, u8)>) -> nat
    decreases entries.len(),
{
    if entries.len() == 0 {
        0
    } else {
        deck_count(entries.drop_last()) + entries.last().1 as nat
    }
}

/// `n`, or `usize::MAX` when `n` is larger.
pub open spec fn saturate(n: nat) -> usize {
    if n > usize::MAX {
        usize::MAX
    } else {
        n as usize
    }
}

/// The number of cards in a deck list, saturating at `usize::MAX`.
pub fn count_cards(entries: &Vec<(String, u8)>) -> (n: usize)
    ensures
        n == saturate(deck_count(entries@)),
{
    let mut total: usize = 0;
    let mut i: usize = 0;
    while i < entries.len()
        invariant
            i <= entries@.len(),
            total == saturate(deck_count(entries@.take(i as int))),
        decreases entries@.len() - i,
    {
        proof {
            assert(entries@.take(i + 1).drop_last() =~= entries@.take(i as int));
        }
        total = total.saturating_add(entries[i].1 as usize);
        i = i + 1;
    }
    assert(entries@.take(i as int) =~= entries@);
    total
}

/// A deck submitted by a client: card names with counts.
#[derive(Debug, Clone)]
pub struct DeckSubmission {
    pub main_deck: Vec<(String, u8)>,
    pub sideboard: Vec<(String, u8)>,
}

impl DeckSubmission {
    /// A submission of the given main deck and sideboard.
    pub fn new(main_deck: Vec<(String, u8)>, sideboard: Vec<(String, u8)>) -> (d: Self)
        ensures
            d.main_deck@ == main_deck@,
            d.sideboard@ == sideboard@,
    {
        DeckSubmission { main_deck, sideboard }
    }

    /// Number of cards in the main deck.
    pub fn main_deck_size(&self) -> (n: usize)
        ensures
            n == saturate(deck_count(self.main_deck@)),
    {
        count_cards(&self.main_deck)
    }

    /// Number of cards in the sideboard.
    pub fn sideboard_size(&self) -> (n: usize)
        ensures
            n == saturate(deck_count(self.sideboard@)),
    {
        count_cards(&self.sideboard)
    }
}

/// A card of a deck list.
#[derive(Debug, Clone)]
pub struct DeckEntry {
    pub card_name: String,
    pub count: u8,
}

/// A deck list the game loader builds a library from.
#[derive(Debug, Clone)]
pub struct DeckList {
    pub main_deck: Vec<DeckEntry>,
    pub sideboard: Vec<DeckEntry>,
    pub commanders: Vec<DeckEntry>,
}

/// The opponent's deck list, as shown to a player at game start.
#[derive(Debug, Clone)]
pub struct DeckListInfo {
    pub main_deck: Vec<(String, u8)>,
    pub sideboard: Vec<(String, u8)>,
    pub main_deck_size: usize,
    pub sideboard_size: usize,
}

/// The name and count views of deck list pairs.
pub open spec fn pair_views(s: Seq<(String, u8)>) -> Seq<(Seq<char>, u8)> {
    s.map_values(|e: (String, u8)| (e.0@, e.1))
}

/// The name and count views of deck entries.
pub open spec fn entry_views(s: Seq<DeckEntry>) -> Seq<(Seq<char>, u8)> {
    s.map_values(|e: DeckEntry| (e.card_name@, e.count))
}

/// A copy of deck list pairs.
pub fn copy_pairs(s: &Vec<(String, u8)>) -> (r: Vec<(String, u8)>)
    ensures
        pair_views(r@) == pair_views(s@),
        deck_count(r@) == deck_count(s@),
{
    let mut r: Vec<(String, u8)> = Vec::new();
    let mut i: usize = 0;
    while i < s.len()
        invariant
            i <= s@.len(),
            r@.len() == i,
            pair_views(r@) == pair_views(s@.take(i as int)),
            deck_count(r@) == deck_count(s@.take(i as int)),
        decreases s@.len() - i,
    {
        let name = s[i].0.clone();
        let ghost before = r@;
        let ghost nv = name@;
        assert(nv == s@[i as int].0@);
        r.push((name, s[i].1));
        proof {
            let t = s@.take(i + 1);
            assert(r@.len() == i + 1);
            assert(pair_views(r@)[i as int] == (nv, s@[i as int].1));
            assert(t.drop_last() =~= s@.take(i as int));
            assert(r@.drop_last() =~= before);
            assert forall|k: int| 0 <= k < i + 1 implies #[trigger] pair_views(r@)[k] == pair_views(
                t,
            )[k] by {
                if k < i {
                    assert(pair_views(before)[k] == pair_views(s@.take(i as int))[k]);
                }
            }
            assert(pair_views(r@) =~= pair_views(t));
        }
        i = i + 1;
    }
    assert(s@.take(i as int) =~= s@);
    r
}

fn entries_of(s: &Vec<(String, u8)>) -> (r: Vec<DeckEntry>)
    ensures
        entry_views(r@) == pair_views(s@),
{
    let mut r: Vec<DeckEntry> = Vec::new();
    let mut i: usize = 0;
    while i < s.len()
        invariant
            i <= s@.len(),
            r@.len() == i,
            entry_views(r@) == pair_views(s@.take(i as int)),
        decreases s@.len() - i,
    {
        let name = s[i].0.clone();
        let ghost before = r@;
        let ghost nv = name@;
        assert(nv == s@[i as int].0@);
        r.push(DeckEntry { card_name: name, count: s[i].1 });
        proof {
            let t = s@.take(i + 1);
            assert(r@.len() == i + 1);
            assert(entry_views(r@)[i as int] == (nv, s@[i as int].1));
            assert forall|k: int| 0 <= k < i + 1 implies #[trigger] entry_views(r@)[k] == pair_views(
                t,
            )[k] by {
                if k < i {
                    assert(entry_views(before)[k] == pair_views(s@.take(i as int))[k]);
                }
            }
            assert(entry_views(r@) =~= pair_views(t));
        }
        i = i + 1;
    }
    assert(s@.take(i as int) =~= s@);
    r
}

/// The name and count pairs of deck entries.
pub fn pairs_of_entries(s: &Vec<DeckEntry>) -> (r: Vec<(String, u8)>)
    ensures
        pair_views(r@) == entry_views(s@),
{
    let mut r: Vec<(String, u8)> = Vec::new();
    let mut i: usize = 0;
    while i < s.len()
        invariant
            i <= s@.len(),
            r@.len() == i,
            pair_views(r@) == entry_views(s@.take(i as int)),
        decreases s@.len() - i,
    {
        let name = s[i].card_name.clone();
        let ghost before = r@;
        let ghost nv = name@;
        assert(nv == s@[i as int].card_name@);
        r.push((name, s[i].count));
        proof {
            let t = s@.take(i + 1);
            assert(pair_views(r@)[i as int] == (nv, s@[i as int].count));
            assert forall|k: int| 0 <= k < i + 1 implies #[trigger] pair_views(r@)[k] == entry_views(
                t,
            )[k] by {
                if k < i {
                    assert(pair_views(before)[k] == entry_views(s@.take(i as int))[k]);
                }
            }
            assert(pair_views(r@) =~= entry_views(t));
        }
        i = i + 1;
    }
    assert(s@.take(i as int) =~= s@);
    r
}

impl DeckListInfo {
    /// The deck list of a submission, with its sizes.
    pub fn from_submission(deck: &DeckSubmission) -> (d: Self)
        ensures
            pair_views(d.main_deck@) == pair_views(deck.main_deck@),
            pair_views(d.sideboard@) == pair_views(deck.sideboard@),
            d.main_deck_size == saturate(deck_count(deck.main_deck@)),
            d.sideboard_size == saturate(deck_count(deck.sideboard@)),
    {
        DeckListInfo {
            main_deck: copy_pairs(&deck.main_deck),
            sideboard: copy_pairs(&deck.sideboard),
            main_deck_size: deck.main_deck_size(),
            sideboard_size: deck.sideboard_size(),
        }
    }

    /// The deck list the loader takes: the same cards, no commanders.
    pub fn to_deck_list(&self) -> (d: DeckList)
        ensures
            entry_views(d.main_deck@) == pair_views(self.main_deck@),
            entry_views(d.sideboard@) == pair_views(self.sideboard@),
            d.commanders@.len() == 0,
    {
        DeckList {
            main_deck: entries_of(&self.main_deck),
            sideboard: entries_of(&self.sideboard),
            commanders: Vec::new(),
        }
    }
}

/// Which card ids belong to which player's deck: P1's cards are numbered
/// from 0, P2's right after them.
#[derive(Debug, Clone, Copy, PartialEq, Eq, Structural)]
pub struct DeckCardIdRanges {
    pub p1_start: u32,
    pub p1_end: u32,
    pub p2_start: u32,
    pub p2_end: u32,
}

impl DeckCardIdRanges {
    /// The ranges for decks of the given sizes (each taken modulo 2^32).
    pub fn from_deck_sizes(p1_size: usize, p2_size: usize) -> (r: Self)
        requires
            (p1_size as u32) + (p2_size as u32) <= u32::MAX,
        ensures
            r.p1_start == 0,
            r.p1_end == p1_size as u32,
            r.p2_start == p1_size as u32,
            r.p2_end == (p1_size as u32) + (p2_size as u32),
    {
        let p1_start = 0u32;
        #[verifier::truncate]
        let p1_end = p1_size as u32;
        let p2_start = p1_end;
        #[verifier::truncate]
        let p2_len = p2_size as u32;
        let p2_end = p2_start + p2_len;
        DeckCardIdRanges { p1_start, p1_end, p2_start, p2_end }
    }

    /// The ids of P1's deck.
    pub fn p1_range(&self) -> (r: std::ops::Range<u32>)
        ensures
            r.start == self.p1_start,
            r.end == self.p1_end,
    {
        self.p1_start..self.p1_end
    }

    /// The ids of P2's deck.
    pub fn p2_range(&self) -> (r: std::ops::Range<u32>)
        ensures
            r.start == self.p2_start,
            r.end == self.p2_end,
    {
        self.p2_start..self.p2_end
    }

    /// The number of deck cards of both players.
    pub fn total_cards(&self) -> (n: u32)
        ensures
            n == self.p2_end,
    {
        self.p2_end
    }

    /// Whether the card belongs to P1's deck.
    pub fn is_p1_card(&self, card_id: CardId) -> (b: bool)
        ensures
            b == (self.p1_start <= card_id.0 && card_id.0 < self.p1_end),
    {
        let id = card_id.as_u32();
        id >= self.p1_start && id < self.p1_end
    }

    /// Whether the card belongs to P2's deck.
    pub fn is_p2_card(&self, card_id: CardId) -> (b: bool)
        ensures
            b == (self.p2_start <= card_id.0 && card_id.0 < self.p2_end),
    {
        let id = card_id.as_u32();
        id >= self.p2_start && id < self.p2_end
    }
}

/// The deck ranges split the ids below the total between the two players:
/// every such card belongs to exactly one of them, and no other card to
/// either.
pub proof fn law_deck_ranges_partition(p1_size: usize, p2_size: usize, r: DeckCardIdRanges, id: u32)
    requires
        r.p1_start == 0,
        r.p1_end == p1_size as u32,
        r.p2_start == p1_size as u32,
        r.p2_end == (p1_size as u32) + (p2_size as u32),
    ensures
        (r.p1_start <= id < r.p1_end) != (r.p2_start <= id < r.p2_end) <==> id < r.p2_end,
        !((r.p1_start <= id < r.p1_end) && (r.p2_start <= id < r.p2_end)),
{
}

// ---------------------------------------------------------------------------
// Cards and choices
// ---------------------------------------------------------------------------
/// What the loader knows of a card: enough for a client to create it.
#[derive(Debug, Clone)]
pub struct CardDefinition {
    pub name: String,
    pub mana_cost: ManaCost,
    pub type_line: String,
    pub oracle_text: String,
    pub power: Option<i32>,
    pub toughness: Option<i32>,
}

/// A card revealed to a player.
#[derive(Debug, Clone)]
pub struct CardReveal {
    pub card_id: CardId,
    pub name: String,
    pub card_def: Option<CardDefinition>,
}

/// Why a card was revealed.
#[derive(Debug, Clone, Copy, PartialEq, Eq, Structural)]
pub enum RevealReason {
    Draw,
    Targeting,
    Played,
    Searched,
    Effect,
    OpeningHand,
    TokenCreated,
}

/// The kind of a choice, with what the client needs to present it.
#[derive(Debug, Clone)]
pub enum ChoiceType {
    Priority { available_count: usize },
    Targets { spell_id: CardId, target_count: usize },
    ManaSources { cost: ManaCost },
    Attackers { available_count: usize },
    Blockers { attacker_count: usize, blocker_count: usize },
    DamageOrder { attacker: CardId, blocker_count: usize },
    Discard { count: usize },
    LibrarySearchByName {
        unique_names: Vec<String>,
        name_counts: Vec<usize>,
        filter_description: String,
    },
    Sacrifice { valid_count: usize, count: usize, card_type_description: String },
    Scry { count: usize, revealed_card_ids: Vec<CardId> },
    Surveil { count: usize, revealed_card_ids: Vec<CardId> },
    Modes {
        spell_id: CardId,
        mode_count: usize,
        min_modes: usize,
        can_repeat: bool,
        available_modes: usize,
    },
    LethalDamageAssignment { attacker: CardId, killable_count: usize, remaining_power: i32 },
    RemainingDamageAssignment { attacker: CardId, blocker_count: usize, remaining_damage: i32 },
}

/// Context shown with a choice.
#[derive(Debug, Clone)]
pub struct ChoiceContext {
    pub spell: Option<CardReveal>,
    pub description: String,
}

/// How a game ended.
#[derive(Debug, Clone, Copy, PartialEq, Eq, Structural)]
pub enum GameEndReason {
    /// The player lost.
    PlayerDeath(PlayerId),
    /// Nobody won.
    Draw,
    /// The game stopped at a snapshot point.
    Snapshot,
}

// ---------------------------------------------------------------------------
// Lobby values
// ---------------------------------------------------------------------------
/// A player's state in a waiting room.
#[derive(Debug, Clone)]
pub struct WaitingRoomPlayerState {
    pub name: String,
    pub deck_selected: bool,
    pub deck_summary: Option<Vec<(String, u8)>>,
    pub ready: bool,
}

/// The name of the game a client joins when it names none.
pub const DEFAULT_LOBBY_GAME: &'static str = "default";

/// Paging and filtering of a game listing.
#[derive(Debug, Clone)]
pub struct ListGamesQuery {
    pub filter: Option<String>,
    pub limit: u32,
    pub offset: u32,
}

impl Default for ListGamesQuery {
    fn default() -> (q: Self)
        ensures
            q.filter is None,
            q.limit == 0,
            q.offset == 0,
    {
        ListGamesQuery { filter: None, limit: 0, offset: 0 }
    }
}

/// Page size of a game listing whose query gives none.
pub const DEFAULT_LIST_GAMES_LIMIT: u32 = 20;

/// Largest page size of a game listing.
pub const MAX_LIST_GAMES_LIMIT: u32 = 100;

/// A game waiting for an opponent, as listed.
#[derive(Debug, Clone)]
pub struct LobbyGameEntry {
    pub name: String,
    pub creator_name: String,
    pub has_password: bool,
    pub created_at_ms: u64,
}

/// Paging and filtering of a player listing.
#[derive(Debug, Clone)]
pub struct ListPlayersQuery {
    pub filter: Option<String>,
    pub limit: u32,
    pub offset: u32,
}

impl Default for ListPlayersQuery {
    fn default() -> (q: Self)
        ensures
            q.filter is None,
            q.limit == 0,
            q.offset == 0,
    {
        ListPlayersQuery { filter: None, limit: 0, offset: 0 }
    }
}

/// Page size of a player listing whose query gives none.
pub const DEFAULT_LIST_PLAYERS_LIMIT: u32 = 20;

/// Largest page size of a player listing.
pub const MAX_LIST_PLAYERS_LIMIT: u32 = 100;

/// A registered player, as listed.
#[derive(Debug, Clone)]
pub struct LobbyPlayerEntry {
    pub name: String,
}

/// Why joining a game failed.
#[derive(Debug, Clone, PartialEq, Eq)]
pub enum JoinFailReason {
    NotFound,
    BadPassword,
    AlreadyInGame,
    BadServerPassword,
    InvalidDeck { detail: String },
}

// ---------------------------------------------------------------------------
// Messages
// ---------------------------------------------------------------------------
/// Messages from client to server.
#[derive(Debug, Clone)]
pub enum ClientMessage {
    Register { password: String, player_name: String },
    Authenticate { password: String, player_name: Option<String>, deck: DeckSubmission },
    ListGames { password: String, query: Option<ListGamesQuery> },
    ListPlayers { password: String, query: Option<ListPlayersQuery> },
    CreateGame {
        password: String,
        game_name: Option<String>,
        game_password: Option<String>,
        player_name: Option<String>,
        deck: DeckSubmission,
        waiting_room: bool,
    },
    JoinGame {
        password: String,
        game_name: String,
        game_password: Option<String>,
        player_name: Option<String>,
        deck: DeckSubmission,
        waiting_room: bool,
    },
    SetDeck { deck: DeckSubmission },
    SetReady { ready: bool },
    Reconnect { token: ReconnectToken, game_name: String },
    BugReport {
        description: String,
        game_logs: String,
        console_logs: String,
        trusted_password: Option<String>,
    },
    SubmitChoice {
        choice_seq: u32,
        choice_indices: Vec<usize>,
        action_count: u64,
        timestamp_ms: u64,
        client_state_hash: Option<u64>,
        debug_info: Option<DebugSyncInfo>,
        spell_ability: Option<SpellAbility>,
        target_card_ids: Option<Vec<CardId>>,
    },
    Disconnect,
    Ping { timestamp_ms: u64 },
}

/// A fact the server buffers with a choice request, keyed by action count.
#[derive(Debug, Clone)]
pub enum BufferedFact {
    Reveal { owner: PlayerId, card: CardReveal, reason: RevealReason },
    LibraryReorder { player: PlayerId, new_order: Vec<CardId> },
    SearchCandidates { searcher: PlayerId, cards: Vec<CardReveal> },
    Choice {
        choice_seq: u32,
        choice_type: ChoiceType,
        description: String,
        payload: ChoicePayload,
    },
}

/// Messages from server to client.
#[derive(Debug, Clone)]
pub enum ServerMessage {
    RegisterResult { success: bool, player_name: String, error: Option<String> },
    AuthResult {
        success: bool,
        error: Option<String>,
        your_player_id: Option<PlayerId>,
        your_name: Option<String>,
    },
    BugReportStored { success: bool, report_dir: Option<String>, error: Option<String> },
    BugReportIssueResult { issue_url: Option<String>, error: Option<String> },
    WaitingForOpponent,
    GameList {
        games: Vec<LobbyGameEntry>,
        total_count: u32,
        system_memory_used_percent: Option<u32>,
        max_memory_percent: u32,
    },
    PlayerList { players: Vec<LobbyPlayerEntry>, total_count: u32 },
    GameCreated { game_name: String, your_player_id: PlayerId, your_name: Option<String> },
    WaitingRoomUpdate { creator: WaitingRoomPlayerState, joiner: Option<WaitingRoomPlayerState> },
    WaitingRoomReady { game_name: String, is_creator: bool },
    ReconnectResult {
        success: bool,
        game_name: String,
        your_player_id: Option<PlayerId>,
        error: Option<String>,
    },
    ServerFull { reason: String },
    JoinFailed { game_name: String, reason: JoinFailReason },
    GameStarted {
        your_player_id: PlayerId,
        opponent_name: String,
        opening_hand: Vec<CardReveal>,
        opponent_hand_count: usize,
        library_size: usize,
        opponent_library_size: usize,
        opponent_decklist: Option<DeckListInfo>,
        starting_life: i32,
        initial_state_hash: u64,
        network_debug: bool,
        deck_card_ids: Option<DeckCardIdRanges>,
        token_definitions: StrMap<CardDefinition>,
        rng_state: Vec<u8>,
        reconnect_token: Option<ReconnectToken>,
    },
    CardRevealed { owner: PlayerId, card: CardReveal, reason: RevealReason, action_count: Option<u64> },
    LibraryReordered { player: PlayerId, new_order: Vec<CardId>, action_count: u64 },
    SearchCandidates { searcher: PlayerId, cards: Vec<CardReveal>, action_count: u64 },
    ChoiceRequest {
        choice_seq: u32,
        for_player: PlayerId,
        choice_type: ChoiceType,
        options: Vec<String>,
        state_hash: u64,
        action_count: u64,
        timestamp_ms: u64,
        context: Option<ChoiceContext>,
        debug_info: Option<DebugSyncInfo>,
        abilities: Option<Vec<Option<SpellAbility>>>,
        buffer: Vec<(u64, BufferedFact)>,
    },
    OpponentChoice {
        choice_seq: u32,
        player: PlayerId,
        choice_type: ChoiceType,
        description: String,
        action_count: u64,
        timestamp_ms: u64,
        payload: ChoicePayload,
        state_hash_after: Option<u64>,
        debug_info: Option<DebugSyncInfo>,
    },
    ChoiceAccepted {
        choice_seq: u32,
        action_count: u64,
        timestamp_ms: u64,
        library_search_result: Option<CardId>,
    },
    GameEnded { winner: Option<PlayerId>, reason: GameEndReason, final_state_hash: u64, action_count: u64 },
    SyncError { details: SyncErrorDetails, fatal: bool },
    Error { message: String, fatal: bool },
    Pong { timestamp_ms: u64 },
    DebugStateDump { state_json: String, reason: String, expected_hash: u64, client_hash: Option<u64> },
}

} // verus!
