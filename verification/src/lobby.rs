//! The lobby of a multi-game server: games waiting for a second player,
//! games being played, and the names players registered.
//!
//! Names of players and games are matched case-insensitively: the
//! registries are keyed by the lower-cased name. Listings are sorted
//! (waiting games by creation time, players by lower-cased name), filtered
//! by a case-insensitive substring and paged.
use crate::id_map::IdMap;
use crate::protocol::{
    DeckSubmission, ListGamesQuery, ListPlayersQuery, LobbyGameEntry, LobbyPlayerEntry,
    ReconnectToken, ServerMessage, WaitingRoomPlayerState, DEFAULT_LIST_GAMES_LIMIT,
    DEFAULT_LIST_PLAYERS_LIMIT, MAX_LIST_GAMES_LIMIT, MAX_LIST_PLAYERS_LIMIT, pair_views, copy_pairs,
};
use crate::stable_sort::{
    keyed_views, lemma_sort_by_key_same_keys, lemma_sort_by_text_same_keys, sort_by_key,
    sort_by_text, stable_sort_by_key, stable_sort_by_text,
};
use crate::str_map::{key_index, has_str_key, map_of, StrMap};
use crate::text::{
    chars_of, contains_chars, contains_text, dec, lowercase, push_dec, push_str, to_lowercase,
    to_string, trim, trim_chars,
};
use std::hash::BuildHasher;
use std::time::Instant;
use vstd::prelude::*;

verus! {

#[verifier::external_type_specification]
#[verifier::external_body]
pub struct ExInstant(Instant);

/// Identifier of a running or pending game: monotonic, unique per server
/// process.
pub type GameId = u64;

/// Default ceiling of host memory use, in percent, above which new games
/// are refused.
pub const DEFAULT_MAX_MEMORY_PERCENT: u32 = 80;

// ---------------------------------------------------------------------------
// Waiting rooms
// ---------------------------------------------------------------------------
/// A player's deck and ready flag in a waiting room.
#[derive(Debug, Clone)]
pub struct WaitingPlayerState {
    /// The last deck submitted, if any.
    pub deck: Option<DeckSubmission>,
    /// Whether the player is ready (with a deck on record).
    pub ready: bool,
}

impl Default for WaitingPlayerState {
    fn default() -> (s: Self)
        ensures
            s.deck is None,
            !s.ready,
    {
        WaitingPlayerState { deck: None, ready: false }
    }
}

/// The protocol state of a player named `name` whose room state is `s`.
pub open spec fn protocol_state_of(s: WaitingPlayerState, name: Seq<char>, p: WaitingRoomPlayerState) -> bool {
    &&& p.name@ == name
    &&& p.deck_selected == s.deck is Some
    &&& p.ready == s.ready
    &&& match s.deck {
        Some(d) => p.deck_summary matches Some(sum) && pair_views(sum@) == pair_views(d.main_deck@),
        None => p.deck_summary is None,
    }
}

impl WaitingPlayerState {
    /// The protocol snapshot of this player's state.
    pub fn to_protocol_state(&self, name: &str) -> (p: WaitingRoomPlayerState)
        ensures
            protocol_state_of(*self, name@, p),
    {
        let deck_summary = match &self.deck {
            Some(d) => Some(copy_pairs(&d.main_deck)),
            None => None,
        };
        WaitingRoomPlayerState {
            name: name.to_owned(),
            deck_selected: self.deck.is_some(),
            deck_summary,
            ready: self.ready,
        }
    }
}

/// A game waiting for its second player.
#[derive(Debug)]
pub struct PendingGame {
    /// Stable id, for logging.
    pub id: GameId,
    /// The name the creator gave, in its case.
    pub name: String,
    /// The creator's name.
    pub creator_name: String,
    /// Whether the creator set a password.
    pub has_password: bool,
    /// Hash of the password, if one was set.
    pub password_hash: Option<u64>,
    /// When the entry was made.
    pub created_at: Instant,
    /// Wall-clock milliseconds when the entry was made.
    pub created_at_ms: u64,
    /// The creator's deck and ready state.
    pub creator_state: WaitingPlayerState,
    /// The joiner's deck and ready state, once someone joined.
    pub joiner_state: Option<WaitingPlayerState>,
    /// The joiner's name, once someone joined.
    pub joiner_name: Option<String>,
    /// Whether both players must be ready before the game starts.
    pub rendezvous: bool,
}

/// A snapshot of a waiting room, sent to both players whenever it changes.
#[derive(Debug, Clone)]
pub struct WaitingRoomSnapshot {
    pub creator_name: String,
    pub creator_state: WaitingPlayerState,
    pub joiner_name: Option<String>,
    pub joiner_state: Option<WaitingPlayerState>,
    /// Set on the snapshot that makes both players ready; never sent.
    pub start_game: bool,
}

impl Default for WaitingRoomSnapshot {
    fn default() -> (s: Self)
        ensures
            s.creator_name@.len() == 0,
            s.creator_state.deck is None,
            !s.creator_state.ready,
            s.joiner_name is None,
            s.joiner_state is None,
            !s.start_game,
    {
        WaitingRoomSnapshot {
            creator_name: String::new(),
            creator_state: WaitingPlayerState::default(),
            joiner_name: None,
            joiner_state: None,
            start_game: false,
        }
    }
}

impl WaitingRoomSnapshot {
    /// The wire message for this snapshot: both players' states; a joiner
    /// whose state is not known yet shows no deck and not ready.
    pub fn to_server_message(&self) -> (m: ServerMessage)
        ensures
            m matches ServerMessage::WaitingRoomUpdate { creator, joiner } && protocol_state_of(
                self.creator_state,
                self.creator_name@,
                creator,
            ) && match self.joiner_name {
                None => joiner is None,
                Some(jn) => joiner matches Some(j) && match self.joiner_state {
                    Some(js) => protocol_state_of(js, jn@, j),
                    None => j.name@ == jn@ && !j.deck_selected && j.deck_summary is None && !j.ready,
                },
            },
    {
        let creator = self.creator_state.to_protocol_state(self.creator_name.as_str());
        let joiner = match &self.joiner_name {
            Some(name) => Some(
                match &self.joiner_state {
                    Some(s) => s.to_protocol_state(name.as_str()),
                    None => WaitingRoomPlayerState {
                        name: name.clone(),
                        deck_selected: false,
                        deck_summary: None,
                        ready: false,
                    },
                },
            ),
            None => None,
        };
        ServerMessage::WaitingRoomUpdate { creator, joiner }
    }
}

/// A game being played.
#[derive(Debug)]
pub struct ActiveGame {
    pub id: GameId,
    pub name: String,
    pub p1_name: String,
    pub p2_name: String,
    pub started_at: Instant,
    /// P1's reconnect token, once the game started.
    pub p1_reconnect_token: Option<ReconnectToken>,
    /// P2's reconnect token, once the game started.
    pub p2_reconnect_token: Option<ReconnectToken>,
}

/// A registered name, held by one connection.
#[derive(Debug, Clone)]
pub struct RegisteredName {
    /// The name as the client gave it.
    pub display_name: String,
    /// The connection holding the name.
    pub connection_id: u64,
}

// ---------------------------------------------------------------------------
// Name rules
// ---------------------------------------------------------------------------
/// Printable ASCII, space to tilde.
pub open spec fn is_printable(c: char) -> bool {
    ' ' <= c && c <= '~'
}

/// Why a name cannot be registered, before looking at who holds what.
pub open spec fn name_format_error(name: &str) -> Option<Seq<char>> {
    if name@.len() == 0 {
        Some("Name must not be empty"@)
    } else if name.len() > 32 {
        Some("Name too long ("@ + dec(name.len() as nat) + " chars; max 32)"@)
    } else if !(forall|i: int| 0 <= i < name@.len() ==> is_printable(#[trigger] name@[i])) {
        Some("Name must contain only printable ASCII characters"@)
    } else if trim(name@).len() == 0 {
        Some("Name must not be blank"@)
    } else {
        None
    }
}

/// Message for a name someone else holds.
pub open spec fn taken_message(holder: Seq<char>) -> Seq<char> {
    "Name '"@ + holder + "' is already taken"@
}

// ---------------------------------------------------------------------------
// Listings
// ---------------------------------------------------------------------------
/// A listed game, by its fields: name, creator, whether it has a password,
/// creation time.
pub type GameRow = (Seq<char>, Seq<char>, bool, u64);

/// The row of a waiting game.
pub open spec fn pending_row(p: PendingGame) -> GameRow {
    (p.name@, p.creator_name@, p.has_password, p.created_at_ms)
}

/// The row of a listed game entry.
pub open spec fn entry_row(e: LobbyGameEntry) -> GameRow {
    (e.name@, e.creator_name@, e.has_password, e.created_at_ms)
}

/// The waiting games, keyed by creation time, in registry order.
pub open spec fn keyed_rows(pairs: Seq<(Seq<char>, PendingGame)>) -> Seq<(u64, GameRow)> {
    pairs.map_values(|e: (Seq<char>, PendingGame)| (e.1.created_at_ms, pending_row(e.1)))
}

/// The waiting games sorted by creation time (stably).
pub open spec fn sorted_rows(pairs: Seq<(Seq<char>, PendingGame)>) -> Seq<GameRow> {
    sort_by_key(keyed_rows(pairs)).map_values(|e: (u64, GameRow)| e.1)
}

/// The rows whose name or creator contains `needle_lc`, case-insensitively.
pub open spec fn matching_rows(rows: Seq<GameRow>, needle_lc: Seq<char>) -> Seq<GameRow>
    decreases rows.len(),
{
    if rows.len() == 0 {
        rows
    } else {
        let r = matching_rows(rows.drop_last(), needle_lc);
        let x = rows.last();
        if contains_text(lowercase(x.0), needle_lc) || contains_text(lowercase(x.1), needle_lc) {
            r.push(x)
        } else {
            r
        }
    }
}

/// The page of `rows` starting at `offset` with at most `limit` rows.
pub open spec fn page_of<T>(rows: Seq<T>, offset: nat, limit: nat) -> Seq<T> {
    if offset >= rows.len() {
        Seq::empty()
    } else if offset + limit < rows.len() {
        rows.subrange(offset as int, (offset + limit) as int)
    } else {
        rows.subrange(offset as int, rows.len() as int)
    }
}

/// The page size a query asks for: the default when it names none, else
/// its size up to the largest.
pub open spec fn page_limit(limit: u32, default: u32, max: u32) -> u32 {
    if limit == 0 {
        default
    } else if limit < max {
        limit
    } else {
        max
    }
}

/// A listing page holds at most the page size asked for, and that size
/// never exceeds the largest one; the page is the run of matching entries
/// that starts at the offset; and the next page (at the offset moved on by
/// the page size) follows it with no entry skipped or repeated.
pub proof fn law_pages_tile_the_listing<T>(rows: Seq<T>, offset: nat, requested: u32, default: u32, max: u32)
    requires
        default <= max,
    ensures
        page_of(rows, offset, page_limit(requested, default, max) as nat).len() <= page_limit(
            requested,
            default,
            max,
        ) <= max,
        forall|i: int|
            0 <= i < page_of(rows, offset, page_limit(requested, default, max) as nat).len() ==> #[trigger] page_of(
                rows,
                offset,
                page_limit(requested, default, max) as nat,
            )[i] == rows[offset + i],
        ({
            let l = page_limit(requested, default, max) as nat;
            page_of(rows, offset, l) + page_of(rows, offset + l, l) == page_of(rows, offset, 2 * l)
        }),
{
    let l = page_limit(requested, default, max) as nat;
    let a = page_of(rows, offset, l);
    let b = page_of(rows, offset + l, l);
    let c = page_of(rows, offset, 2 * l);
    assert(a + b =~= c);
}

/// The filter of a query, when it has a non-empty one.
pub open spec fn active_filter(filter: Option<String>) -> Option<Seq<char>> {
    match filter {
        Some(f) => if f@.len() > 0 {
            Some(f@)
        } else {
            None
        },
        None => None,
    }
}

/// The listed waiting games a query selects, before paging.
pub open spec fn selected_games(pairs: Seq<(Seq<char>, PendingGame)>, filter: Option<Seq<char>>) -> Seq<
    GameRow,
> {
    match filter {
        Some(f) => matching_rows(sorted_rows(pairs), lowercase(f)),
        None => sorted_rows(pairs),
    }
}

/// A listed player, by the lower-cased name it sorts by and its name.
pub type PlayerRow = (Seq<char>, Seq<char>);

/// The registered players, keyed by lower-cased name, in registry order.
pub open spec fn player_rows(pairs: Seq<(Seq<char>, RegisteredName)>) -> Seq<(Seq<char>, Seq<char>)> {
    pairs.map_values(
        |e: (Seq<char>, RegisteredName)| (lowercase(e.1.display_name@), e.1.display_name@),
    )
}

/// The registered players' names sorted by lower-cased name (stably).
pub open spec fn sorted_players(pairs: Seq<(Seq<char>, RegisteredName)>) -> Seq<Seq<char>> {
    sort_by_text(player_rows(pairs)).map_values(|e: (Seq<char>, Seq<char>)| e.1)
}

/// The names that contain `needle_lc`, case-insensitively.
pub open spec fn matching_names(names: Seq<Seq<char>>, needle_lc: Seq<char>) -> Seq<Seq<char>>
    decreases names.len(),
{
    if names.len() == 0 {
        names
    } else {
        let r = matching_names(names.drop_last(), needle_lc);
        if contains_text(lowercase(names.last()), needle_lc) {
            r.push(names.last())
        } else {
            r
        }
    }
}

/// The listed players a query selects, before paging.
pub open spec fn selected_players(pairs: Seq<(Seq<char>, RegisteredName)>, filter: Option<Seq<char>>) -> Seq<
    Seq<char>,
> {
    match filter {
        Some(f) => matching_names(sorted_players(pairs), lowercase(f)),
        None => sorted_players(pairs),
    }
}

proof fn lemma_matching_rows_members(rows: Seq<GameRow>, needle_lc: Seq<char>, x: GameRow)
    ensures
        matching_rows(rows, needle_lc).contains(x) <==> rows.contains(x) && (contains_text(
            lowercase(x.0),
            needle_lc,
        ) || contains_text(lowercase(x.1), needle_lc)),
    decreases rows.len(),
{
    if rows.len() > 0 {
        let init = rows.drop_last();
        let r = matching_rows(init, needle_lc);
        lemma_matching_rows_members(init, needle_lc, x);
        assert(rows =~= init.push(rows.last()));
        if init.contains(x) {
            let i = choose|i: int| 0 <= i < init.len() && init[i] == x;
            assert(rows[i] == x);
        }
        if rows.contains(x) && x != rows.last() {
            let i = choose|i: int| 0 <= i < rows.len() && rows[i] == x;
            assert(init[i] == x);
        }
        if r.contains(x) {
            let i = choose|i: int| 0 <= i < r.len() && r[i] == x;
            assert(r.push(rows.last())[i] == x);
        }
        if r.push(rows.last()).contains(x) && x != rows.last() {
            let i = choose|i: int| 0 <= i < r.len() + 1 && r.push(rows.last())[i] == x;
            assert(r[i] == x);
        }
        assert(r.push(rows.last())[r.len() as int] == rows.last());
        assert(rows[rows.len() - 1] == rows.last());
    }
}

proof fn lemma_matching_names_members(names: Seq<Seq<char>>, needle_lc: Seq<char>, x: Seq<char>)
    ensures
        matching_names(names, needle_lc).contains(x) <==> names.contains(x) && contains_text(
            lowercase(x),
            needle_lc,
        ),
    decreases names.len(),
{
    if names.len() > 0 {
        let init = names.drop_last();
        let r = matching_names(init, needle_lc);
        lemma_matching_names_members(init, needle_lc, x);
        assert(names =~= init.push(names.last()));
        if init.contains(x) {
            let i = choose|i: int| 0 <= i < init.len() && init[i] == x;
            assert(names[i] == x);
        }
        if names.contains(x) && x != names.last() {
            let i = choose|i: int| 0 <= i < names.len() && names[i] == x;
            assert(init[i] == x);
        }
        if r.contains(x) {
            let i = choose|i: int| 0 <= i < r.len() && r[i] == x;
            assert(r.push(names.last())[i] == x);
        }
        if r.push(names.last()).contains(x) && x != names.last() {
            let i = choose|i: int| 0 <= i < r.len() + 1 && r.push(names.last())[i] == x;
            assert(r[i] == x);
        }
        assert(r.push(names.last())[r.len() as int] == names.last());
        assert(names[names.len() - 1] == names.last());
    }
}

proof fn lemma_matching_rows_filter(rows: Seq<GameRow>, needle_lc: Seq<char>)
    ensures
        matching_rows(rows, needle_lc) == rows.filter(
            |x: GameRow| contains_text(lowercase(x.0), needle_lc) || contains_text(lowercase(x.1), needle_lc),
        ),
    decreases rows.len(),
{
    reveal_with_fuel(Seq::filter, 1);
    if rows.len() > 0 {
        lemma_matching_rows_filter(rows.drop_last(), needle_lc);
    }
}

proof fn lemma_matching_names_filter(names: Seq<Seq<char>>, needle_lc: Seq<char>)
    ensures
        matching_names(names, needle_lc) == names.filter(|x: Seq<char>| contains_text(lowercase(x), needle_lc)),
    decreases names.len(),
{
    reveal_with_fuel(Seq::filter, 1);
    if names.len() > 0 {
        lemma_matching_names_filter(names.drop_last(), needle_lc);
    }
}

/// Filtering the waiting games: under a non-empty filter `f`, a game of
/// the unfiltered listing is listed exactly when the lower-cased `f`
/// occurs somewhere in its lower-cased name or in its creator's lower-cased
/// name, and no other game is listed; the listed games keep the order of
/// the unfiltered listing.
pub proof fn law_game_filter_is_case_insensitive_substring(
    pairs: Seq<(Seq<char>, PendingGame)>,
    f: Seq<char>,
    row: GameRow,
)
    requires
        f.len() > 0,
    ensures
        selected_games(pairs, Some(f)).contains(row) <==> sorted_rows(pairs).contains(row) && (
        contains_text(lowercase(row.0), lowercase(f)) || contains_text(lowercase(row.1), lowercase(f))),
        selected_games(pairs, Some(f)) == sorted_rows(pairs).filter(
            |x: GameRow|
                contains_text(lowercase(x.0), lowercase(f)) || contains_text(lowercase(x.1), lowercase(f)),
        ),
{
    lemma_matching_rows_members(sorted_rows(pairs), lowercase(f), row);
    lemma_matching_rows_filter(sorted_rows(pairs), lowercase(f));
}

/// Filtering the players: under a non-empty filter `f`, a player of the
/// unfiltered listing is listed exactly when the lower-cased `f` occurs
/// somewhere in the lower-cased name, and no other player is listed; the
/// listed players keep the order of the unfiltered listing.
pub proof fn law_player_filter_is_case_insensitive_substring(
    pairs: Seq<(Seq<char>, RegisteredName)>,
    f: Seq<char>,
    name: Seq<char>,
)
    requires
        f.len() > 0,
    ensures
        selected_players(pairs, Some(f)).contains(name) <==> sorted_players(pairs).contains(name)
            && contains_text(lowercase(name), lowercase(f)),
        selected_players(pairs, Some(f)) == sorted_players(pairs).filter(
            |x: Seq<char>| contains_text(lowercase(x), lowercase(f)),
        ),
{
    lemma_matching_names_members(sorted_players(pairs), lowercase(f), name);
    lemma_matching_names_filter(sorted_players(pairs), lowercase(f));
}

/// The rows of listed game entries.
pub open spec fn entry_rows(v: Seq<LobbyGameEntry>) -> Seq<GameRow> {
    v.map_values(|e: LobbyGameEntry| entry_row(e))
}

/// The names of listed players.
pub open spec fn player_names(v: Seq<LobbyPlayerEntry>) -> Seq<Seq<char>> {
    v.map_values(|e: LobbyPlayerEntry| e.name@)
}

/// The first active game (in registry order) whose lower-cased name is
/// `key`.
pub open spec fn game_named(games: Seq<(u64, ActiveGame)>, key: Seq<char>) -> Option<int> {
    if exists|i: int| 0 <= i < games.len() && lowercase(#[trigger] games[i].1.name@) == key {
        Some(
            choose|i: int|
                0 <= i < games.len() && lowercase(games[i].1.name@) == key && forall|k: int|
                    0 <= k < i ==> lowercase(#[trigger] games[k].1.name@) != key,
        )
    } else {
        None
    }
}

/// The text of an optional token.
pub open spec fn token_view(t: Option<ReconnectToken>) -> Option<Seq<char>> {
    match t {
        Some(x) => Some(x.0@),
        None => None,
    }
}

// ---------------------------------------------------------------------------
// The lobby
// ---------------------------------------------------------------------------
/// The lobby's state, shared by the accept loop and the connection tasks.
#[derive(Debug)]
pub struct LobbyState {
    /// Games waiting for a second player, keyed by lower-cased name.
    pub waiting_games: StrMap<PendingGame>,
    /// Games being played, keyed by id.
    pub active_games: IdMap<ActiveGame>,
    /// The next game id to hand out.
    pub next_game_id: GameId,
    /// The next connection id to hand out.
    pub next_connection_id: u64,
    /// Registered names, keyed by lower-cased name.
    pub registered_names: StrMap<RegisteredName>,
}

/// The registries are well formed.
pub open spec fn lobby_wf(s: LobbyState) -> bool {
    s.waiting_games.wf() && s.active_games.wf() && s.registered_names.wf()
}

/// A lobby without registries' changes: only counters may differ.
pub open spec fn same_registries(a: LobbyState, b: LobbyState) -> bool {
    &&& a.waiting_games.pairs() == b.waiting_games.pairs()
    &&& a.active_games.pairs() == b.active_games.pairs()
    &&& a.registered_names.pairs() == b.registered_names.pairs()
}

/// What registering a name does to the name registry: a malformed name is
/// refused with its format error; a name whose lower-cased form another
/// connection holds is refused with a message naming the holder; otherwise
/// (the name is free, or this connection holds it already) the name is
/// recorded for this connection under its lower-cased form. A refusal
/// changes nothing.
pub open spec fn register_outcome(
    old: LobbyState,
    new: LobbyState,
    display_name: &str,
    connection_id: u64,
    r: Result<(), String>,
) -> bool {
    match name_format_error(display_name) {
        Some(m) => r matches Err(e) && e@ == m && new.registered_names.pairs()
            == old.registered_names.pairs(),
        None => {
            let key = lowercase(display_name@);
            let old_map = map_of(old.registered_names.pairs());
            if old_map.dom().contains(key) && old_map[key].connection_id != connection_id {
                r matches Err(e) && e@ == taken_message(old_map[key].display_name@)
                    && new.registered_names.pairs() == old.registered_names.pairs()
            } else {
                r is Ok && exists|reg: RegisteredName|
                    reg.display_name@ == display_name@ && reg.connection_id == connection_id
                        && map_of(new.registered_names.pairs()) == old_map.insert(
                        key,
                        reg,
                    )
            }
        },
    }
}

/// What releasing a name does to the name registry: the holder's release
/// removes the name; anyone else's changes nothing.
pub open spec fn release_outcome(old: LobbyState, new: LobbyState, display_name: &str, connection_id: u64) -> bool {
    ({
        let key = lowercase(display_name@);
        let old_map = map_of(old.registered_names.pairs());
        if old_map.dom().contains(key) && old_map[key].connection_id == connection_id {
            map_of(new.registered_names.pairs()) == old_map.remove(key)
        } else {
            new.registered_names.pairs() == old.registered_names.pairs()
        }
    })
}

fn all_printable(chars: &Vec<char>) -> (b: bool)
    ensures
        b == forall|i: int| 0 <= i < chars@.len() ==> is_printable(#[trigger] chars@[i]),
{
    let mut i: usize = 0;
    while i < chars.len()
        invariant
            i <= chars@.len(),
            forall|k: int| 0 <= k < i ==> is_printable(#[trigger] chars@[k]),
        decreases chars@.len() - i,
    {
        let c = chars[i];
        if !(' ' <= c && c <= '~') {
            assert(!is_printable(chars@[i as int]));
            return false;
        }
        i = i + 1;
    }
    true
}

impl LobbyState {
    /// An empty lobby whose first game and connection ids are 1.
    pub fn new() -> (s: Self)
        ensures
            lobby_wf(s),
            s.waiting_games.pairs().len() == 0,
            s.active_games.pairs().len() == 0,
            s.registered_names.pairs().len() == 0,
            s.next_game_id == 1,
            s.next_connection_id == 1,
    {
        LobbyState {
            waiting_games: StrMap::new(),
            active_games: IdMap::new(),
            next_game_id: 1,
            next_connection_id: 1,
            registered_names: StrMap::new(),
        }
    }

    /// Hand out the next connection id.
    pub fn next_connection_id(&mut self) -> (id: u64)
        requires
            old(self).next_connection_id < u64::MAX,
        ensures
            id == old(self).next_connection_id,
            final(self).next_connection_id == old(self).next_connection_id + 1,
            final(self).next_game_id == old(self).next_game_id,
            same_registries(*final(self), *old(self)),
    {
        let id = self.next_connection_id;
        self.next_connection_id = self.next_connection_id + 1;
        id
    }

    /// Hand out the next game id.
    pub fn next_game_id(&mut self) -> (id: GameId)
        requires
            old(self).next_game_id < u64::MAX,
        ensures
            id == old(self).next_game_id,
            final(self).next_game_id == old(self).next_game_id + 1,
            final(self).next_connection_id == old(self).next_connection_id,
            same_registries(*final(self), *old(self)),
    {
        let id = self.next_game_id;
        self.next_game_id = self.next_game_id + 1;
        id
    }

    /// A name for a game whose creator gave none: `game-<next id>`. The id
    /// is not used up.
    pub fn default_game_name(&mut self) -> (s: String)
        ensures
            s@ == "game-"@ + dec(old(self).next_game_id as nat),
            final(self).next_game_id == old(self).next_game_id,
            final(self).next_connection_id == old(self).next_connection_id,
            same_registries(*final(self), *old(self)),
    {
        let mut buf: Vec<char> = Vec::new();
        push_str(&mut buf, "game-");
        push_dec(&mut buf, self.next_game_id);
        to_string(&buf)
    }

    /// Register `display_name` for `connection_id`. A name that is empty,
    /// longer than 32 bytes, not printable ASCII or blank is refused; so is
    /// one whose lower-cased form someone holds (the message names the
    /// holder).
    pub fn try_register_name(&mut self, display_name: &str, connection_id: u64) -> (r: Result<(), String>)
        requires
            lobby_wf(*old(self)),
        ensures
            lobby_wf(*final(self)),
            final(self).next_game_id == old(self).next_game_id,
            final(self).next_connection_id == old(self).next_connection_id,
            final(self).waiting_games.pairs() == old(self).waiting_games.pairs(),
            final(self).active_games.pairs() == old(self).active_games.pairs(),
            register_outcome(*old(self), *final(self), display_name, connection_id, r),
    {
        if display_name.is_empty() {
            return Err("Name must not be empty".to_owned());
        }
        let byte_len = display_name.len();
        if byte_len > 32 {
            let mut buf: Vec<char> = Vec::new();
            push_str(&mut buf, "Name too long (");
            push_dec(&mut buf, byte_len as u64);
            push_str(&mut buf, " chars; max 32)");
            return Err(to_string(&buf));
        }
        let chars = chars_of(display_name);
        if !all_printable(&chars) {
            return Err("Name must contain only printable ASCII characters".to_owned());
        }
        let t = trim_chars(&chars);
        if t.len() == 0 {
            return Err("Name must not be blank".to_owned());
        }
        let key = to_lowercase(display_name);
        match self.registered_names.get(key.as_str()) {
            Some(existing) => {
                if existing.connection_id != connection_id {
                    let mut buf: Vec<char> = Vec::new();
                    push_str(&mut buf, "Name '");
                    push_str(&mut buf, existing.display_name.as_str());
                    push_str(&mut buf, "' is already taken");
                    return Err(to_string(&buf));
                }
            },
            None => {},
        }
        let reg = RegisteredName { display_name: display_name.to_owned(), connection_id };
        let ghost regv = reg;
        self.registered_names.insert(key, reg);
        Ok(())
    }

    /// Give up `display_name` if `connection_id` holds it; otherwise
    /// nothing changes.
    pub fn release_name(&mut self, display_name: &str, connection_id: u64)
        requires
            lobby_wf(*old(self)),
        ensures
            lobby_wf(*final(self)),
            final(self).next_game_id == old(self).next_game_id,
            final(self).next_connection_id == old(self).next_connection_id,
            final(self).waiting_games.pairs() == old(self).waiting_games.pairs(),
            final(self).active_games.pairs() == old(self).active_games.pairs(),
            release_outcome(*old(self), *final(self), display_name, connection_id),
    {
        let key = to_lowercase(display_name);
        let holds = match self.registered_names.get(key.as_str()) {
            Some(entry) => entry.connection_id == connection_id,
            None => false,
        };
        if holds {
            self.registered_names.remove(key.as_str());
        }
    }

    /// The name `connection_id` registered, if any (the first such entry
    /// in registry order).
    pub fn registered_name_for(&self, connection_id: u64) -> (r: Option<&str>)
        ensures
            match r {
                Some(s) => exists|i: int|
                    0 <= i < self.registered_names.pairs().len()
                        && self.registered_names.pairs()[i].1.connection_id == connection_id
                        && s@ == self.registered_names.pairs()[i].1.display_name@ && forall|k: int|
                        0 <= k < i ==> #[trigger] self.registered_names.pairs()[k].1.connection_id
                            != connection_id,
                None => forall|k: int|
                    0 <= k < self.registered_names.pairs().len()
                        ==> #[trigger] self.registered_names.pairs()[k].1.connection_id != connection_id,
            },
    {
        let entries = self.registered_names.entries();
        let ghost pairs = self.registered_names.pairs();
        let mut i: usize = 0;
        while i < entries.len()
            invariant
                entries@.map_values(|e: (String, RegisteredName)| (e.0@, e.1)) == pairs,
                pairs == self.registered_names.pairs(),
                i <= entries@.len(),
                forall|k: int| 0 <= k < i ==> #[trigger] pairs[k].1.connection_id != connection_id,
            decreases entries@.len() - i,
        {
            assert(pairs[i as int] == (entries@[i as int].0@, entries@[i as int].1));
            if entries[i].1.connection_id == connection_id {
                return Some(entries[i].1.display_name.as_str());
            }
            i = i + 1;
        }
        None
    }

    fn find_game(&self, game_name: &str) -> (r: Option<&ActiveGame>)
        ensures
            match game_named(self.active_games.pairs(), lowercase(game_name@)) {
                Some(i) => r == Some(&self.active_games.pairs()[i].1),
                None => r is None,
            },
    {
        let key = to_lowercase(game_name);
        let kc = chars_of(key.as_str());
        let games = self.active_games.entries();
        let ghost pairs = self.active_games.pairs();
        let ghost k = lowercase(game_name@);
        let mut i: usize = 0;
        while i < games.len()
            invariant
                games@ == pairs,
                pairs == self.active_games.pairs(),
                kc@ == k,
                k == lowercase(game_name@),
                i <= games@.len(),
                forall|q: int| 0 <= q < i ==> lowercase(#[trigger] pairs[q].1.name@) != k,
            decreases games@.len() - i,
        {
            let lc = to_lowercase(games[i].1.name.as_str());
            let lcc = chars_of(lc.as_str());
            if crate::text::same_chars(&lcc, &kc) {
                proof {
                    let ii = i as int;
                    assert(0 <= ii < pairs.len() && lowercase(pairs[ii].1.name@) == k);
                    let c = choose|c: int|
                        0 <= c < pairs.len() && lowercase(pairs[c].1.name@) == k && forall|q: int|
                            0 <= q < c ==> lowercase(#[trigger] pairs[q].1.name@) != k;
                    assert(game_named(pairs, k) == Some(c));
                    if c < ii {
                        assert(lowercase(pairs[c].1.name@) != k);
                    }
                    if ii < c {
                        assert(lowercase(pairs[ii].1.name@) != k);
                    }
                }
                return Some(&games[i].1);
            }
            i = i + 1;
        }
        None
    }

    /// The reconnect token of player `player_index` (0 for P1, 1 for P2)
    /// in the active game named `game_name` (case-insensitively), if the
    /// game exists and the token is set.
    pub fn find_reconnect_token(&self, game_name: &str, player_index: usize) -> (r: Option<&ReconnectToken>)
        ensures
            match game_named(self.active_games.pairs(), lowercase(game_name@)) {
                Some(i) => {
                    let g = self.active_games.pairs()[i].1;
                    if player_index == 0 {
                        r == match g.p1_reconnect_token {
                            Some(t) => Some(&t),
                            None => None::<&ReconnectToken>,
                        }
                    } else if player_index == 1 {
                        r == match g.p2_reconnect_token {
                            Some(t) => Some(&t),
                            None => None::<&ReconnectToken>,
                        }
                    } else {
                        r is None
                    }
                },
                None => r is None,
            },
    {
        let game = match self.find_game(game_name) {
            Some(g) => g,
            None => {
                return None;
            },
        };
        if player_index == 0 {
            game.p1_reconnect_token.as_ref()
        } else if player_index == 1 {
            game.p2_reconnect_token.as_ref()
        } else {
            None
        }
    }

    /// Which player of the active game named `game_name` the token belongs
    /// to: `(game id, 0)` for P1, `(game id, 1)` for P2; `None` when there
    /// is no such game or the token is neither player's.
    pub fn validate_reconnect_token(&self, game_name: &str, token: &ReconnectToken) -> (r: Option<(GameId, usize)>)
        ensures
            match game_named(self.active_games.pairs(), lowercase(game_name@)) {
                Some(i) => {
                    let g = self.active_games.pairs()[i].1;
                    if token_view(g.p1_reconnect_token) == Some(token.0@) {
                        r == Some((g.id, 0usize))
                    } else if token_view(g.p2_reconnect_token) == Some(token.0@) {
                        r == Some((g.id, 1usize))
                    } else {
                        r is None
                    }
                },
                None => r is None,
            },
    {
        let game = match self.find_game(game_name) {
            Some(g) => g,
            None => {
                return None;
            },
        };
        let p1 = match &game.p1_reconnect_token {
            Some(t) => t.0 == token.0,
            None => false,
        };
        if p1 {
            return Some((game.id, 0));
        }
        let p2 = match &game.p2_reconnect_token {
            Some(t) => t.0 == token.0,
            None => false,
        };
        if p2 {
            return Some((game.id, 1));
        }
        None
    }

    /// Number of games being played.
    pub fn active_count(&self) -> (n: usize)
        ensures
            n == self.active_games.pairs().len(),
    {
        self.active_games.len()
    }

    /// Number of games waiting for a second player.
    pub fn waiting_count(&self) -> (n: usize)
        ensures
            n == self.waiting_games.pairs().len(),
    {
        self.waiting_games.len()
    }
}

// ---------------------------------------------------------------------------
// Listing
// ---------------------------------------------------------------------------
fn copy_entry(e: &LobbyGameEntry) -> (r: LobbyGameEntry)
    ensures
        entry_row(r) == entry_row(*e),
{
    LobbyGameEntry {
        name: e.name.clone(),
        creator_name: e.creator_name.clone(),
        has_password: e.has_password,
        created_at_ms: e.created_at_ms,
    }
}

fn copy_player(e: &LobbyPlayerEntry) -> (r: LobbyPlayerEntry)
    ensures
        r.name@ == e.name@,
{
    LobbyPlayerEntry { name: e.name.clone() }
}

fn contains_lowercased(text: &str, needle_lc: &Vec<char>) -> (b: bool)
    ensures
        b == contains_text(lowercase(text@), needle_lc@),
{
    let lc = to_lowercase(text);
    let lcc = chars_of(lc.as_str());
    contains_chars(&lcc, needle_lc)
}

fn filter_games(v: &Vec<LobbyGameEntry>, needle_lc: &Vec<char>) -> (r: Vec<LobbyGameEntry>)
    ensures
        entry_rows(r@) == matching_rows(entry_rows(v@), needle_lc@),
{
    let mut out: Vec<LobbyGameEntry> = Vec::new();
    let mut i: usize = 0;
    assert(entry_rows(v@).take(0) =~= Seq::<GameRow>::empty());
    while i < v.len()
        invariant
            i <= v@.len(),
            entry_rows(out@) == matching_rows(entry_rows(v@).take(i as int), needle_lc@),
        decreases v@.len() - i,
    {
        let ghost rows = entry_rows(v@);
        proof {
            assert(rows.take(i + 1).drop_last() =~= rows.take(i as int));
            assert(rows.take(i + 1).last() == entry_row(v@[i as int]));
        }
        let keep = contains_lowercased(v[i].name.as_str(), needle_lc) || contains_lowercased(
            v[i].creator_name.as_str(),
            needle_lc,
        );
        if keep {
            let ghost before = out@;
            let e = copy_entry(&v[i]);
            out.push(e);
            proof {
                assert(entry_rows(out@) =~= entry_rows(before).push(entry_row(v@[i as int])));
            }
        }
        i = i + 1;
    }
    assert(entry_rows(v@).take(i as int) =~= entry_rows(v@));
    out
}

fn filter_players(v: &Vec<LobbyPlayerEntry>, needle_lc: &Vec<char>) -> (r: Vec<LobbyPlayerEntry>)
    ensures
        player_names(r@) == matching_names(player_names(v@), needle_lc@),
{
    let mut out: Vec<LobbyPlayerEntry> = Vec::new();
    let mut i: usize = 0;
    assert(player_names(v@).take(0) =~= Seq::<Seq<char>>::empty());
    while i < v.len()
        invariant
            i <= v@.len(),
            player_names(out@) == matching_names(player_names(v@).take(i as int), needle_lc@),
        decreases v@.len() - i,
    {
        let ghost names = player_names(v@);
        proof {
            assert(names.take(i + 1).drop_last() =~= names.take(i as int));
            assert(names.take(i + 1).last() == v@[i as int].name@);
        }
        if contains_lowercased(v[i].name.as_str(), needle_lc) {
            let ghost before = out@;
            let e = copy_player(&v[i]);
            out.push(e);
            proof {
                assert(player_names(out@) =~= player_names(before).push(v@[i as int].name@));
            }
        }
        i = i + 1;
    }
    assert(player_names(v@).take(i as int) =~= player_names(v@));
    out
}

fn page_bounds(len: usize, offset: u32, limit: u32) -> (r: (usize, usize))
    ensures
        offset >= len ==> r.0 == r.1,
        offset < len ==> r.0 == offset && r.1 == if offset + limit < len {
            offset + limit
        } else {
            len as int
        },
        r.0 <= r.1 <= len,
{
    let off = offset as u64;
    if off >= len as u64 {
        return (0, 0);
    }
    let end = off + limit as u64;
    if end < len as u64 {
        (off as usize, end as usize)
    } else {
        (off as usize, len)
    }
}

fn page_games(v: &Vec<LobbyGameEntry>, offset: u32, limit: u32) -> (r: Vec<LobbyGameEntry>)
    ensures
        entry_rows(r@) == page_of(entry_rows(v@), offset as nat, limit as nat),
{
    let (lo, hi) = page_bounds(v.len(), offset, limit);
    let mut out: Vec<LobbyGameEntry> = Vec::new();
    let mut i: usize = lo;
    while i < hi
        invariant
            lo <= i <= hi <= v@.len(),
            out@.len() == i - lo,
            entry_rows(out@) == entry_rows(v@).subrange(lo as int, i as int),
        decreases hi - i,
    {
        let ghost before = out@;
        let e = copy_entry(&v[i]);
        out.push(e);
        proof {
            assert forall|q: int| 0 <= q < out@.len() implies #[trigger] entry_rows(out@)[q]
                == entry_rows(v@).subrange(lo as int, i + 1)[q] by {
                if q < before.len() {
                    assert(out@[q] == before[q]);
                    assert(entry_rows(before)[q] == entry_rows(v@).subrange(lo as int, i as int)[q]);
                }
            }
            assert(entry_rows(out@) =~= entry_rows(v@).subrange(lo as int, i + 1));
        }
        i = i + 1;
    }
    assert(entry_rows(out@) =~= page_of(entry_rows(v@), offset as nat, limit as nat));
    out
}

fn page_players(v: &Vec<LobbyPlayerEntry>, offset: u32, limit: u32) -> (r: Vec<LobbyPlayerEntry>)
    ensures
        player_names(r@) == page_of(player_names(v@), offset as nat, limit as nat),
{
    let (lo, hi) = page_bounds(v.len(), offset, limit);
    let mut out: Vec<LobbyPlayerEntry> = Vec::new();
    let mut i: usize = lo;
    while i < hi
        invariant
            lo <= i <= hi <= v@.len(),
            out@.len() == i - lo,
            player_names(out@) == player_names(v@).subrange(lo as int, i as int),
        decreases hi - i,
    {
        let ghost before = out@;
        let e = copy_player(&v[i]);
        out.push(e);
        proof {
            assert forall|q: int| 0 <= q < out@.len() implies #[trigger] player_names(out@)[q]
                == player_names(v@).subrange(lo as int, i + 1)[q] by {
                if q < before.len() {
                    assert(out@[q] == before[q]);
                    assert(player_names(before)[q] == player_names(v@).subrange(lo as int, i as int)[q]);
                }
            }
            assert(player_names(out@) =~= player_names(v@).subrange(lo as int, i + 1));
        }
        i = i + 1;
    }
    assert(player_names(out@) =~= page_of(player_names(v@), offset as nat, limit as nat));
    out
}

fn limit_for(limit: u32, default: u32, max: u32) -> (r: u32)
    ensures
        r == page_limit(limit, default, max),
{
    if limit == 0 {
        default
    } else if limit < max {
        limit
    } else {
        max
    }
}

/// The needle of a filter, lower-cased, when the filter is not empty.
fn needle_of(filter: &Option<String>) -> (r: Option<Vec<char>>)
    ensures
        match active_filter(*filter) {
            Some(f) => r matches Some(n) && n@ == lowercase(f),
            None => r is None,
        },
{
    match filter {
        Some(f) => {
            if f.as_str().is_empty() {
                None
            } else {
                let lc = to_lowercase(f.as_str());
                Some(chars_of(lc.as_str()))
            }
        },
        None => None,
    }
}

fn count_u32(n: usize) -> (r: u32)
    ensures
        r == n as u32,
{
    #[verifier::truncate]
    (n as u32)
}

impl LobbyState {
    fn waiting_sorted(&self) -> (r: Vec<LobbyGameEntry>)
        ensures
            entry_rows(r@) == sorted_rows(self.waiting_games.pairs()),
    {
        let entries = self.waiting_games.entries();
        let ghost pairs = self.waiting_games.pairs();
        let ghost keyed = keyed_rows(pairs);
        let mut rows: Vec<(u64, LobbyGameEntry)> = Vec::new();
        let mut i: usize = 0;
        while i < entries.len()
            invariant
                entries@.map_values(|e: (String, PendingGame)| (e.0@, e.1)) == pairs,
                keyed == keyed_rows(pairs),
                i <= entries@.len(),
                rows@.len() == i,
                forall|q: int|
                    0 <= q < i ==> #[trigger] rows@[q].0 == keyed[q].0 && entry_row(rows@[q].1)
                        == keyed[q].1,
            decreases entries@.len() - i,
        {
            let pg = &entries[i].1;
            assert(pairs[i as int].1 == entries@[i as int].1);
            let e = LobbyGameEntry {
                name: pg.name.clone(),
                creator_name: pg.creator_name.clone(),
                has_password: pg.has_password,
                created_at_ms: pg.created_at_ms,
            };
            rows.push((pg.created_at_ms, e));
            i = i + 1;
        }
        let ghost unsorted = rows@;
        let sorted = stable_sort_by_key(rows);
        let ghost rel = |a: LobbyGameEntry, b: GameRow| entry_row(a) == b;
        proof {
            assert(unsorted.len() == keyed.len());
            assert forall|q: int| 0 <= q < unsorted.len() implies #[trigger] unsorted[q].0 == keyed[q].0
                && rel(unsorted[q].1, keyed[q].1) by {
                assert(unsorted[q].0 == keyed[q].0);
                assert(entry_row(unsorted[q].1) == keyed[q].1);
            }
            lemma_sort_by_key_same_keys(unsorted, keyed, rel);
            assert forall|q: int| 0 <= q < sorted@.len() implies #[trigger] entry_row(sorted@[q].1)
                == sort_by_key(keyed)[q].1 by {
                assert(sort_by_key(unsorted)[q].0 == sort_by_key(keyed)[q].0);
                assert(rel(sort_by_key(unsorted)[q].1, sort_by_key(keyed)[q].1));
            }
        }
        let mut out: Vec<LobbyGameEntry> = Vec::new();
        let mut k: usize = 0;
        while k < sorted.len()
            invariant
                k <= sorted@.len(),
                sorted@ == sort_by_key(unsorted),
                sorted@.len() == sort_by_key(keyed).len(),
                forall|q: int|
                    0 <= q < sorted@.len() ==> #[trigger] entry_row(sorted@[q].1) == sort_by_key(
                        keyed,
                    )[q].1,
                out@.len() == k,
                entry_rows(out@) == sorted_rows(pairs).take(k as int),
                keyed == keyed_rows(pairs),
            decreases sorted@.len() - k,
        {
            let ghost before = out@;
            assert(entry_row(sorted@[k as int].1) == sort_by_key(keyed)[k as int].1);
            let e = copy_entry(&sorted[k].1);
            out.push(e);
            proof {
                let t = sorted_rows(pairs);
                assert(t[k as int] == sort_by_key(keyed)[k as int].1);
                assert forall|q: int| 0 <= q < out@.len() implies #[trigger] entry_rows(out@)[q] == t.take(
                    k + 1,
                )[q] by {
                    if q < before.len() {
                        assert(out@[q] == before[q]);
                        assert(entry_rows(before)[q] == t.take(k as int)[q]);
                    }
                }
                assert(entry_rows(out@) =~= t.take(k + 1));
            }
            k = k + 1;
        }
        assert(sorted_rows(pairs).take(k as int) =~= sorted_rows(pairs));
        out
    }

    /// Every waiting game, sorted by creation time.
    pub fn list_waiting(&self) -> (r: Vec<LobbyGameEntry>)
        ensures
            entry_rows(r@) == sorted_rows(self.waiting_games.pairs()),
    {
        self.waiting_sorted()
    }

    /// The waiting games sorted by creation time, filtered by the query's
    /// filter (a case-insensitive substring of the game's name or its
    /// creator's), and paged; with the number of games the filter selects.
    /// Without a query, every game and their number.
    pub fn list_waiting_paged(&self, query: Option<&ListGamesQuery>) -> (r: (Vec<LobbyGameEntry>, u32))
        ensures
            match query {
                None => entry_rows(r.0@) == sorted_rows(self.waiting_games.pairs()) && r.1
                    == sorted_rows(self.waiting_games.pairs()).len() as u32,
                Some(q) => {
                    let sel = selected_games(self.waiting_games.pairs(), active_filter(q.filter));
                    entry_rows(r.0@) == page_of(
                        sel,
                        q.offset as nat,
                        page_limit(q.limit, DEFAULT_LIST_GAMES_LIMIT, MAX_LIST_GAMES_LIMIT) as nat,
                    ) && r.1 == sel.len() as u32
                },
            },
    {
        let all = self.waiting_sorted();
        match query {
            None => {
                let total = count_u32(all.len());
                (all, total)
            },
            Some(q) => {
                let selected = match needle_of(&q.filter) {
                    Some(n) => filter_games(&all, &n),
                    None => all,
                };
                let total = count_u32(selected.len());
                let limit = limit_for(q.limit, DEFAULT_LIST_GAMES_LIMIT, MAX_LIST_GAMES_LIMIT);
                let page = page_games(&selected, q.offset, limit);
                (page, total)
            },
        }
    }

    fn players_sorted(&self) -> (r: Vec<LobbyPlayerEntry>)
        ensures
            player_names(r@) == sorted_players(self.registered_names.pairs()),
    {
        let entries = self.registered_names.entries();
        let ghost pairs = self.registered_names.pairs();
        let ghost keyed = player_rows(pairs);
        let mut rows: Vec<(Vec<char>, LobbyPlayerEntry)> = Vec::new();
        let mut i: usize = 0;
        while i < entries.len()
            invariant
                entries@.map_values(|e: (String, RegisteredName)| (e.0@, e.1)) == pairs,
                keyed == player_rows(pairs),
                i <= entries@.len(),
                rows@.len() == i,
                forall|q: int|
                    0 <= q < i ==> #[trigger] keyed_views(rows@)[q].0 == keyed[q].0
                        && keyed_views(rows@)[q].1.name@ == keyed[q].1,
            decreases entries@.len() - i,
        {
            let reg = &entries[i].1;
            assert(pairs[i as int].1 == entries@[i as int].1);
            let lc = to_lowercase(reg.display_name.as_str());
            let key = chars_of(lc.as_str());
            let e = LobbyPlayerEntry { name: reg.display_name.clone() };
            let ghost before = rows@;
            rows.push((key, e));
            proof {
                assert forall|q: int| 0 <= q < i + 1 implies #[trigger] keyed_views(rows@)[q].0
                    == keyed[q].0 && keyed_views(rows@)[q].1.name@ == keyed[q].1 by {
                    if q < i {
                        assert(rows@[q] == before[q]);
                        assert(keyed_views(before)[q] == keyed_views(rows@)[q]);
                    }
                }
            }
            i = i + 1;
        }
        let ghost unsorted = keyed_views(rows@);
        let sorted = stable_sort_by_text(rows);
        let ghost rel = |a: LobbyPlayerEntry, b: Seq<char>| a.name@ == b;
        proof {
            assert(unsorted.len() == keyed.len());
            assert forall|q: int| 0 <= q < unsorted.len() implies #[trigger] unsorted[q].0 == keyed[q].0
                && rel(unsorted[q].1, keyed[q].1) by {
                assert(keyed_views(rows@)[q].0 == keyed[q].0);
                assert(keyed_views(rows@)[q].1.name@ == keyed[q].1);
            }
            lemma_sort_by_text_same_keys(unsorted, keyed, rel);
            assert forall|q: int| 0 <= q < sorted@.len() implies #[trigger] sort_by_text(unsorted)[q].1.name@
                == sort_by_text(keyed)[q].1 by {
                assert(sort_by_text(unsorted)[q].0 == sort_by_text(keyed)[q].0);
                assert(rel(sort_by_text(unsorted)[q].1, sort_by_text(keyed)[q].1));
            }
        }
        let mut out: Vec<LobbyPlayerEntry> = Vec::new();
        let mut k: usize = 0;
        while k < sorted.len()
            invariant
                k <= sorted@.len(),
                keyed_views(sorted@) == sort_by_text(unsorted),
                sorted@.len() == sort_by_text(keyed).len(),
                forall|q: int|
                    0 <= q < sorted@.len() ==> #[trigger] sort_by_text(unsorted)[q].1.name@
                        == sort_by_text(keyed)[q].1,
                out@.len() == k,
                player_names(out@) == sorted_players(pairs).take(k as int),
                keyed == player_rows(pairs),
            decreases sorted@.len() - k,
        {
            let ghost before = out@;
            assert(keyed_views(sorted@)[k as int].1 == sorted@[k as int].1);
            assert(sort_by_text(unsorted)[k as int].1.name@ == sort_by_text(keyed)[k as int].1);
            let e = copy_player(&sorted[k].1);
            out.push(e);
            proof {
                let t = sorted_players(pairs);
                assert(t[k as int] == sort_by_text(keyed)[k as int].1);
                assert forall|q: int| 0 <= q < out@.len() implies #[trigger] player_names(out@)[q] == t.take(
                    k + 1,
                )[q] by {
                    if q < before.len() {
                        assert(out@[q] == before[q]);
                        assert(player_names(before)[q] == t.take(k as int)[q]);
                    }
                }
                assert(player_names(out@) =~= t.take(k + 1));
            }
            k = k + 1;
        }
        assert(sorted_players(pairs).take(k as int) =~= sorted_players(pairs));
        out
    }

    /// The registered players sorted by lower-cased name, filtered by the
    /// query's filter (a case-insensitive substring of the name), and
    /// paged; with the number of players the filter selects. Without a
    /// query, every player and their number.
    pub fn list_players_paged(&self, query: Option<&ListPlayersQuery>) -> (r: (Vec<LobbyPlayerEntry>, u32))
        ensures
            match query {
                None => player_names(r.0@) == sorted_players(self.registered_names.pairs()) && r.1
                    == sorted_players(self.registered_names.pairs()).len() as u32,
                Some(q) => {
                    let sel = selected_players(self.registered_names.pairs(), active_filter(q.filter));
                    player_names(r.0@) == page_of(
                        sel,
                        q.offset as nat,
                        page_limit(q.limit, DEFAULT_LIST_PLAYERS_LIMIT, MAX_LIST_PLAYERS_LIMIT) as nat,
                    ) && r.1 == sel.len() as u32
                },
            },
    {
        let all = self.players_sorted();
        match query {
            None => {
                let total = count_u32(all.len());
                (all, total)
            },
            Some(q) => {
                let selected = match needle_of(&q.filter) {
                    Some(n) => filter_players(&all, &n),
                    None => all,
                };
                let total = count_u32(selected.len());
                let limit = limit_for(q.limit, DEFAULT_LIST_PLAYERS_LIMIT, MAX_LIST_PLAYERS_LIMIT);
                let page = page_players(&selected, q.offset, limit);
                (page, total)
            },
        }
    }
}

// ---------------------------------------------------------------------------
// Passwords and refusals
// ---------------------------------------------------------------------------
/// What hashing a password with the standard library's `DefaultHasher`
/// (created by `DefaultHasher::new`, whose keys are fixed) gives: a
/// function of the password alone.
pub uninterp spec fn password_hash(plain: Seq<char>) -> u64;

/// `BuildHasher::hash_one` with a default-built `DefaultHasher` (a fresh
/// `DefaultHasher::new()`, the `str` hashed into it, then `finish()`): the
/// hash of the password, named `password_hash`. Which value that is for a
/// given password is not claimed.
#[verifier::external_body]
fn default_hash(plain: &str) -> (h: u64)
    ensures
        h == password_hash(plain@),
{
    std::hash::BuildHasherDefault::<std::collections::hash_map::DefaultHasher>::default().hash_one(plain)
}

/// Names are exclusive, ignoring case: once a name is registered, a
/// registration by another connection of any name with the same lower-cased
/// form is refused with a message naming the holder, and the registry stays
/// as it was.
pub proof fn law_registered_name_is_exclusive(
    a: LobbyState,
    b: LobbyState,
    c: LobbyState,
    first: &str,
    second: &str,
    first_conn: u64,
    second_conn: u64,
    r1: Result<(), String>,
    r2: Result<(), String>,
)
    requires
        register_outcome(a, b, first, first_conn, r1),
        r1 is Ok,
        register_outcome(b, c, second, second_conn, r2),
        name_format_error(second) is None,
        lowercase(second@) == lowercase(first@),
        second_conn != first_conn,
    ensures
        r2 matches Err(e) && e@ == taken_message(first@),
        c.registered_names.pairs() == b.registered_names.pairs(),
{
    let key = lowercase(first@);
    assert(name_format_error(first) is None);
    let old_map = map_of(a.registered_names.pairs());
    let reg = choose|reg: RegisteredName|
        reg.display_name@ == first@ && reg.connection_id == first_conn && map_of(b.registered_names.pairs())
            == old_map.insert(key, reg);
    assert(map_of(b.registered_names.pairs()).dom().contains(key));
    assert(map_of(b.registered_names.pairs())[key] == reg);
}

/// The holder's release undoes a registration: registering a free name and
/// then releasing it from the same connection leaves the registry holding
/// what it held before.
pub proof fn law_release_undoes_register(
    a: LobbyState,
    b: LobbyState,
    c: LobbyState,
    name: &str,
    connection_id: u64,
    r: Result<(), String>,
)
    requires
        !map_of(a.registered_names.pairs()).dom().contains(lowercase(name@)),
        register_outcome(a, b, name, connection_id, r),
        r is Ok,
        release_outcome(b, c, name, connection_id),
    ensures
        map_of(c.registered_names.pairs()) == map_of(a.registered_names.pairs()),
{
    let key = lowercase(name@);
    assert(name_format_error(name) is None);
    let old_map = map_of(a.registered_names.pairs());
    assert(!old_map.dom().contains(key));
    let reg = choose|reg: RegisteredName|
        reg.display_name@ == name@ && reg.connection_id == connection_id && map_of(b.registered_names.pairs())
            == old_map.insert(key, reg);
    assert(map_of(b.registered_names.pairs())[key].connection_id == connection_id);
    assert(old_map.insert(key, reg).remove(key) =~= old_map);
}


/// Hash of a game password. Not cryptographic: it only keeps a lobby slot
/// from accidental use.
pub fn hash_game_password(plain: &str) -> (h: u64)
    ensures
        h == password_hash(plain@),
{
    default_hash(plain)
}

/// The refusal sent when host memory is too high. The reason is one fixed,
/// generic sentence: the memory figures are never sent.
pub fn build_server_full_message(used_percent: Option<u32>, ceiling_percent: u32) -> (m: ServerMessage)
    ensures
        m matches ServerMessage::ServerFull { reason } && reason@ == "Server is full, try again later."@,
{
    ServerMessage::ServerFull { reason: "Server is full, try again later.".to_owned() }
}

} // verus!
