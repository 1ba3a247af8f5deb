//! The decisions of a client session around the game: where to connect,
//! what an authentication reply means, when the game has started, which
//! opening reveals are still owed, and who won.
//!
//! The session itself reads and writes a WebSocket; each of its waits hands
//! the message it got to one of these functions, which say what to do next.
use crate::cli::ControllerType;
use crate::client::{ClientConfig, PendingLibraryReorder};
use crate::game_types::{CardId, PlayerId};
use crate::protocol::{
    entry_views, pair_views, CardDefinition, CardReveal, DeckCardIdRanges, DeckList, DeckListInfo, RevealReason,
    ServerMessage,
};
use crate::str_map::StrMap;
use crate::text::{
    chars_of, contains_chars, contains_text, dec, has_prefix, opt_text, push_chars, push_dec, push_str, starts_with, to_string,
};
use vstd::prelude::*;

verus! {

// ---------------------------------------------------------------------------
// Connecting
// ---------------------------------------------------------------------------
/// The WebSocket address of a server: as given when it names the `ws://`
/// or `wss://` scheme, else `ws://` before it.
pub open spec fn url_of(server: Seq<char>) -> Seq<char> {
    if starts_with(server, "ws://"@) || starts_with(server, "wss://"@) {
        server
    } else {
        "ws://"@ + server
    }
}

/// The WebSocket address to connect to for `server`.
pub fn server_url(server: &str) -> (u: String)
    ensures
        u@ == url_of(server@),
{
    let s = chars_of(server);
    let mut ws = chars_of("ws://");
    let wss = chars_of("wss://");
    if has_prefix(&s, &ws) || has_prefix(&s, &wss) {
        to_string(&s)
    } else {
        push_chars(&mut ws, &s);
        to_string(&ws)
    }
}

/// Whether `url` asks for TLS (`wss://`).
pub fn uses_tls(url: &str) -> (b: bool)
    ensures
        b == starts_with(url@, "wss://"@),
{
    let s = chars_of(url);
    let wss = chars_of("wss://");
    has_prefix(&s, &wss)
}

/// Whether the connection to `url` skips certificate checks: only over
/// TLS, and only when the configuration accepts invalid certificates.
pub fn skips_certificate_checks(url: &str, accept_invalid_certs: bool) -> (b: bool)
    ensures
        b == (starts_with(url@, "wss://"@) && accept_invalid_certs),
{
    uses_tls(url) && accept_invalid_certs
}

/// The text of an optional message, empty when there is none.
pub open spec fn or_empty(o: Option<String>) -> Seq<char> {
    match o {
        Some(s) => s@,
        None => Seq::empty(),
    }
}

/// What an answer to `Authenticate` means: the name the server assigned
/// (if any) when it accepted, else the error to report.
pub open spec fn auth_reply(msg: ServerMessage) -> Result<Option<Seq<char>>, Seq<char>> {
    match msg {
        ServerMessage::AuthResult { success, error, your_name, .. } => if success {
            Ok(opt_text(your_name))
        } else {
            Err("Authentication failed: "@ + or_empty(error))
        },
        ServerMessage::GameCreated { your_name, .. } => Ok(opt_text(your_name)),
        _ => Err("Unexpected response: expected AuthResult or GameCreated"@),
    }
}

impl ClientConfig {
    /// Read the server's answer to `Authenticate`: the joiner gets
    /// `AuthResult`, the creator of the default game `GameCreated`. On
    /// success, a name the server assigned replaces ours.
    pub fn accept_auth_reply(&mut self, msg: ServerMessage) -> (r: Result<(), String>)
        ensures
            match auth_reply(msg) {
                Ok(assigned) => r is Ok && opt_text(final(self).player_name) == match assigned {
                    Some(n) => Some(n),
                    None => opt_text(old(self).player_name),
                },
                Err(m) => r matches Err(e) && e@ == m && final(self).player_name == old(self).player_name,
            },
            final(self).server == old(self).server,
            final(self).password == old(self).password,
            final(self).deck_path == old(self).deck_path,
            final(self).cardsfolder == old(self).cardsfolder,
            final(self).accept_invalid_certs == old(self).accept_invalid_certs,
    {
        match msg {
            ServerMessage::AuthResult { success, error, your_name, .. } => {
                if !success {
                    let mut buf = chars_of("Authentication failed: ");
                    match error {
                        Some(e) => push_chars(&mut buf, &chars_of(e.as_str())),
                        None => {},
                    }
                    return Err(to_string(&buf));
                }
                if let Some(n) = your_name {
                    self.player_name = Some(n);
                }
                Ok(())
            },
            ServerMessage::GameCreated { your_name, .. } => {
                if let Some(n) = your_name {
                    self.player_name = Some(n);
                }
                Ok(())
            },
            _ => Err("Unexpected response: expected AuthResult or GameCreated".to_owned()),
        }
    }
}

// ---------------------------------------------------------------------------
// Waiting for the game to start
// ---------------------------------------------------------------------------
/// What `GameStarted` tells a client.
#[derive(Debug, Clone)]
pub struct GameStartInfo {
    pub our_player_id: PlayerId,
    pub opponent_name: String,
    /// How many cards our opening hand has.
    pub our_hand_count: usize,
    pub opponent_hand_count: usize,
    pub starting_life: i32,
    pub initial_state_hash: u64,
    pub opponent_decklist: Option<DeckListInfo>,
    pub network_debug: bool,
    pub deck_card_ids: Option<DeckCardIdRanges>,
    pub token_definitions: StrMap<CardDefinition>,
    pub rng_state: Vec<u8>,
}

/// What to do with a message while waiting for the game to start.
#[derive(Debug, Clone)]
pub enum StartStep {
    /// Keep waiting.
    Wait,
    /// The game started.
    Started(GameStartInfo),
    /// Give up with this error.
    Fail(String),
}

/// Decide on a message received while waiting for the game to start:
/// `GameStarted` starts it, a fatal server error ends the wait, anything
/// else (a non-fatal error too) is waited past.
pub fn game_start_step(msg: ServerMessage) -> (s: StartStep)
    ensures
        match msg {
            ServerMessage::GameStarted {
                your_player_id,
                opponent_name,
                opening_hand,
                opponent_hand_count,
                opponent_decklist,
                starting_life,
                initial_state_hash,
                network_debug,
                deck_card_ids,
                token_definitions,
                rng_state,
                ..
            } => s matches StartStep::Started(i) && i.our_player_id == your_player_id && i.opponent_name
                == opponent_name && i.our_hand_count == opening_hand@.len() && i.opponent_hand_count
                == opponent_hand_count && i.starting_life == starting_life && i.initial_state_hash
                == initial_state_hash && i.opponent_decklist == opponent_decklist && i.network_debug
                == network_debug && i.deck_card_ids == deck_card_ids && i.token_definitions == token_definitions
                && i.rng_state == rng_state,
            ServerMessage::Error { message, fatal } => if fatal {
                s matches StartStep::Fail(m) && m@ == "Server error: "@ + message@
            } else {
                s is Wait
            },
            _ => s is Wait,
        },
{
    match msg {
        ServerMessage::GameStarted {
            your_player_id,
            opponent_name,
            opening_hand,
            opponent_hand_count,
            opponent_decklist,
            starting_life,
            initial_state_hash,
            network_debug,
            deck_card_ids,
            token_definitions,
            rng_state,
            ..
        } => StartStep::Started(
            GameStartInfo {
                our_player_id: your_player_id,
                opponent_name,
                our_hand_count: opening_hand.len(),
                opponent_hand_count,
                starting_life,
                initial_state_hash,
                opponent_decklist,
                network_debug,
                deck_card_ids,
                token_definitions,
                rng_state,
            },
        ),
        ServerMessage::Error { message, fatal } => {
            if fatal {
                StartStep::Fail(server_error(&message))
            } else {
                StartStep::Wait
            }
        },
        _ => StartStep::Wait,
    }
}

/// `Server error: ` and the message.
fn server_error(message: &String) -> (m: String)
    ensures
        m@ == "Server error: "@ + message@,
{
    let mut buf = chars_of("Server error: ");
    push_chars(&mut buf, &chars_of(message.as_str()));
    to_string(&buf)
}

/// The opponent's deck, which the shadow game needs to number the cards as
/// the server does.
pub fn opponent_deck(info: &GameStartInfo) -> (r: Result<DeckList, String>)
    ensures
        match info.opponent_decklist {
            Some(d) => r matches Ok(l) && entry_views(l.main_deck@) == pair_views(d.main_deck@) && entry_views(
                l.sideboard@,
            ) == pair_views(d.sideboard@) && l.commanders@.len() == 0,
            None => r matches Err(m) && m@ == "Server did not send opponent deck list - cannot synchronize card IDs"@,
        },
{
    match &info.opponent_decklist {
        Some(d) => Ok(d.to_deck_list()),
        None => Err("Server did not send opponent deck list - cannot synchronize card IDs".to_owned()),
    }
}

/// Whether we are the first player: player 0 seats first.
pub fn we_are_p1(our_player_id: PlayerId) -> (b: bool)
    ensures
        b == (our_player_id.0 == 0),
{
    our_player_id.0 == 0
}

/// The names of the first and second player: ours (`Player` when the
/// server assigned none) in our seat, the opponent's in the other.
pub fn seat_names(our_name: &Option<String>, opponent_name: &String, we_are_first: bool) -> (r: (String, String))
    ensures
        ({
            let ours = match our_name {
                Some(n) => n@,
                None => "Player"@,
            };
            if we_are_first {
                r.0@ == ours && r.1@ == opponent_name@
            } else {
                r.0@ == opponent_name@ && r.1@ == ours
            }
        }),
{
    let ours = match our_name {
        Some(n) => to_string(&chars_of(n.as_str())),
        None => "Player".to_owned(),
    };
    let theirs = to_string(&chars_of(opponent_name.as_str()));
    if we_are_first {
        (ours, theirs)
    } else {
        (theirs, ours)
    }
}

// ---------------------------------------------------------------------------
// Opening hands
// ---------------------------------------------------------------------------
/// The opening-hand phase: how many reveals the server owes, how many came,
/// the cards whose identity they showed, and the library orders sent
/// meanwhile.
#[derive(Debug, Clone)]
pub struct OpeningHands {
    pub expected: usize,
    pub received: usize,
    /// Each card revealed by name, with its owner.
    pub known: Vec<(PlayerId, CardReveal)>,
    /// Library orders to apply before the first draw.
    pub reorders: Vec<PendingLibraryReorder>,
}

/// One step of the opening-hand phase on a message: a reveal counts (one
/// without a name hides an opponent's card and teaches nothing), a library
/// order is kept, a fatal error ends the phase, anything else is skipped.
pub open spec fn opening_step(old: OpeningHands, new: OpeningHands, msg: ServerMessage, r: Result<bool, String>) -> bool {
    match msg {
        ServerMessage::CardRevealed { owner, card, .. } => {
            &&& new.expected == old.expected
            &&& new.received == old.received + 1
            &&& new.known@ == if card.name@.len() == 0 {
                old.known@
            } else {
                old.known@.push((owner, card))
            }
            &&& new.reorders@ == old.reorders@
            &&& r == Ok::<bool, String>(new.received >= new.expected)
        },
        ServerMessage::LibraryReordered { player, new_order, .. } => {
            &&& new.expected == old.expected
            &&& new.received == old.received
            &&& new.known@ == old.known@
            &&& new.reorders@ == old.reorders@.push(PendingLibraryReorder { player, new_order })
            &&& r == Ok::<bool, String>(new.received >= new.expected)
        },
        ServerMessage::Error { message, fatal } => {
            &&& new == old
            &&& if fatal {
                r matches Err(m) && m@ == "Server error: "@ + message@
            } else {
                r == Ok::<bool, String>(old.received >= old.expected)
            }
        },
        _ => new == old && r == Ok::<bool, String>(old.received >= old.expected),
    }
}

impl OpeningHands {
    /// The phase after `GameStarted`: both opening hands are owed, one
    /// reveal per card.
    pub fn new(info: &GameStartInfo) -> (h: Self)
        requires
            info.our_hand_count + info.opponent_hand_count <= usize::MAX,
        ensures
            h.expected == info.our_hand_count + info.opponent_hand_count,
            h.received == 0,
            h.known@.len() == 0,
            h.reorders@.len() == 0,
    {
        OpeningHands {
            expected: info.our_hand_count + info.opponent_hand_count,
            received: 0,
            known: Vec::new(),
            reorders: Vec::new(),
        }
    }

    /// Whether every owed reveal came.
    pub fn is_complete(&self) -> (b: bool)
        ensures
            b == (self.received >= self.expected),
    {
        self.received >= self.expected
    }

    /// Take one message of the phase; `Ok(true)` once every owed reveal
    /// came, `Ok(false)` while some are owed, `Err` on a fatal error.
    pub fn step(&mut self, msg: ServerMessage) -> (r: Result<bool, String>)
        requires
            old(self).received < usize::MAX,
        ensures
            opening_step(*old(self), *final(self), msg, r),
    {
        match msg {
            ServerMessage::CardRevealed { owner, card, .. } => {
                if card.name.as_str().unicode_len() > 0 {
                    self.known.push((owner, card));
                }
                self.received = self.received + 1;
                Ok(self.received >= self.expected)
            },
            ServerMessage::LibraryReordered { player, new_order, .. } => {
                self.reorders.push(PendingLibraryReorder { player, new_order });
                Ok(self.received >= self.expected)
            },
            ServerMessage::Error { message, fatal } => {
                if fatal {
                    Err(server_error(&message))
                } else {
                    Ok(self.received >= self.expected)
                }
            },
            _ => Ok(self.received >= self.expected),
        }
    }
}

// ---------------------------------------------------------------------------
// The end of the game
// ---------------------------------------------------------------------------
/// How the shadow game loop ended.
#[derive(Debug, Clone)]
pub enum LoopEnd {
    /// It ran to the end, with the winner it saw.
    Finished(Option<PlayerId>),
    /// It failed with this error.
    Failed(String),
    /// Its thread panicked or was cancelled.
    Aborted(String),
}

/// The winner of a finished game. The server's `GameEnded` verdict wins
/// over what the shadow game saw; a loop stopped by the player leaving
/// takes the server's verdict, or no winner.
pub open spec fn game_outcome(end: LoopEnd, server_winner: Option<Option<PlayerId>>) -> Result<Option<PlayerId>, Seq<char>> {
    match end {
        LoopEnd::Finished(local) => Ok(
            match server_winner {
                Some(w) => w,
                None => local,
            },
        ),
        LoopEnd::Failed(e) => if contains_text(e@, "Game exit requested"@) {
            Ok(
                match server_winner {
                    Some(w) => w,
                    None => None,
                },
            )
        } else {
            Err("Game error: "@ + e@)
        },
        LoopEnd::Aborted(e) => Err("Game thread panic: "@ + e@),
    }
}

/// The result of a game: the winner, or the error that ended it.
pub fn finish_game(end: LoopEnd, server_winner: Option<Option<PlayerId>>) -> (r: Result<Option<PlayerId>, String>)
    ensures
        match game_outcome(end, server_winner) {
            Ok(w) => r == Ok::<Option<PlayerId>, String>(w),
            Err(m) => r matches Err(e) && e@ == m,
        },
{
    match end {
        LoopEnd::Finished(local) => Ok(
            match server_winner {
                Some(w) => w,
                None => local,
            },
        ),
        LoopEnd::Failed(e) => {
            let text = chars_of(e.as_str());
            if contains_chars(&text, &chars_of("Game exit requested")) {
                Ok(
                    match server_winner {
                        Some(w) => w,
                        None => None,
                    },
                )
            } else {
                let mut buf = chars_of("Game error: ");
                push_chars(&mut buf, &text);
                Err(to_string(&buf))
            }
        },
        LoopEnd::Aborted(e) => {
            let mut buf = chars_of("Game thread panic: ");
            push_chars(&mut buf, &chars_of(e.as_str()));
            Err(to_string(&buf))
        },
    }
}

/// Whether a loop end is a normal one: the game ran out, or the player
/// left.
pub open spec fn ends_normally(end: LoopEnd) -> bool {
    match end {
        LoopEnd::Finished(_) => true,
        LoopEnd::Failed(e) => contains_text(e@, "Game exit requested"@),
        LoopEnd::Aborted(_) => false,
    }
}

/// Two clients that both saw the server's `GameEnded` verdict report the
/// same winner, that verdict, however each one's game loop ended, as long
/// as it ended normally.
pub proof fn law_clients_agree_on_the_winner(a: LoopEnd, b: LoopEnd, verdict: Option<PlayerId>)
    requires
        ends_normally(a),
        ends_normally(b),
    ensures
        game_outcome(a, Some(verdict)) == Ok::<Option<PlayerId>, Seq<char>>(verdict),
        game_outcome(a, Some(verdict)) == game_outcome(b, Some(verdict)),
{
}

// ---------------------------------------------------------------------------
// Playing games one after another
// ---------------------------------------------------------------------------
/// Check the controller chosen for a network game before connecting: a
/// fixed-script controller needs its inputs.
pub fn check_connect_controller(controller: ControllerType, has_fixed_inputs: bool) -> (r: Result<(), String>)
    ensures
        (controller == ControllerType::Fixed && !has_fixed_inputs) ==> (r matches Err(m) && m@
            == "--fixed-inputs is required when --controller=fixed"@),
        !(controller == ControllerType::Fixed && !has_fixed_inputs) ==> r is Ok,
{
    match controller {
        ControllerType::Fixed => {
            if !has_fixed_inputs {
                return Err("--fixed-inputs is required when --controller=fixed".to_owned());
            }
            Ok(())
        },
        _ => Ok(()),
    }
}

/// Whether a controller can play over the network: all but the fancy
/// scripted one.
pub fn network_controller_supported(controller: ControllerType) -> (r: Result<(), String>)
    ensures
        controller == ControllerType::FancyFixed ==> (r matches Err(m) && m@
            == "FancyFixed controller requires --fixed-inputs (not yet fully supported in network mode)."@),
        controller != ControllerType::FancyFixed ==> r is Ok,
{
    match controller {
        ControllerType::FancyFixed => Err(
            "FancyFixed controller requires --fixed-inputs (not yet fully supported in network mode).".to_owned(),
        ),
        _ => Ok(()),
    }
}

/// What happened to one game of a session.
#[derive(Debug, Clone)]
pub enum GameAttempt {
    /// Connecting or authenticating failed.
    ConnectFailed(String),
    /// The game did not start.
    StartFailed(String),
    /// The game ended with this winner (`None`: a draw).
    Finished(Option<PlayerId>),
    /// The game failed.
    Failed(String),
}

/// What the session does after a game.
#[derive(Debug, Clone)]
pub enum SessionStep {
    /// Try again after this many seconds (counted as the next game).
    Retry(u64),
    /// Report this and go on with the next game.
    Next(String),
    /// Report this and stop.
    Stop(String),
    /// Stop with this error.
    Fail(String),
}

/// How a finished game is reported to the player.
pub open spec fn game_over_message(game: nat, winner: Option<PlayerId>, us: PlayerId) -> Seq<char> {
    "Game "@ + dec(game) + match winner {
        Some(w) => if w == us {
            " ended. You won!"@
        } else {
            " ended. You lost."@
        },
        None => " ended in a draw"@,
    }
}

/// `s` ends with `t`.
pub open spec fn ends_with(s: Seq<char>, t: Seq<char>) -> bool {
    t.len() <= s.len() && s.subrange(s.len() - t.len(), s.len() as int) == t
}

/// The game-over message names the game that ended, and congratulates us
/// exactly when the winner is our own player; any other winner is reported
/// as our loss, and a draw as neither.
pub proof fn law_game_over_names_the_right_winner(game: nat, winner: Option<PlayerId>, us: PlayerId)
    ensures
        ends_with(game_over_message(game, winner, us), "You won!"@) <==> winner == Some(us),
        ends_with(game_over_message(game, winner, us), "You lost."@) <==> (winner is Some && winner
            != Some(us)),
        crate::text::starts_with(game_over_message(game, winner, us), "Game "@ + dec(game) + " ended"@),
{
    reveal_strlit("You won!");
    reveal_strlit("You lost.");
    reveal_strlit(" ended. You won!");
    reveal_strlit(" ended. You lost.");
    reveal_strlit(" ended in a draw");
    reveal_strlit(" ended");
    let m = game_over_message(game, winner, us);
    let head = "Game "@ + dec(game);
    let won = "You won!"@;
    let lost = "You lost."@;
    let opening = "Game "@ + dec(game) + " ended"@;
    match winner {
        Some(w) => {
            if w == us {
                let tail = " ended. You won!"@;
                assert(m == head + tail);
                assert(m.subrange(0, opening.len() as int) =~= opening);
                assert(m.subrange(m.len() - won.len(), m.len() as int) =~= won);
                assert(m.subrange(m.len() - lost.len(), m.len() as int)[1] != lost[1]);
            } else {
                let tail = " ended. You lost."@;
                assert(m == head + tail);
                assert(m.subrange(0, opening.len() as int) =~= opening);
                assert(m.subrange(m.len() - lost.len(), m.len() as int) =~= lost);
                assert(m.subrange(m.len() - won.len(), m.len() as int)[0] != won[0]);
            }
        },
        None => {
            let tail = " ended in a draw"@;
            assert(m == head + tail);
            assert(m.subrange(0, opening.len() as int) =~= opening);
            assert(m.subrange(m.len() - won.len(), m.len() as int)[0] != won[0]);
            assert(m.subrange(m.len() - lost.len(), m.len() as int)[0] != lost[0]);
        },
    }
}

/// A session of network games: whether it reconnects after each game, and
/// the number of the current game.
#[derive(Debug, Clone, Copy, PartialEq, Eq, Structural)]
pub struct GameSession {
    pub reconnect: bool,
    pub game_number: u32,
}

impl GameSession {
    /// A session that has played no game yet.
    pub fn new(reconnect: bool) -> (s: Self)
        ensures
            s.reconnect == reconnect,
            s.game_number == 0,
    {
        GameSession { reconnect, game_number: 0 }
    }

    /// Begin the next game: its number goes up by one, and every game after
    /// the first waits a second for the server to reset. Returns that wait
    /// in seconds.
    pub fn begin_game(&mut self) -> (delay_secs: u64)
        requires
            old(self).game_number < u32::MAX,
        ensures
            final(self).game_number == old(self).game_number + 1,
            final(self).reconnect == old(self).reconnect,
            delay_secs == if final(self).game_number > 1 {
                1u64
            } else {
                0u64
            },
    {
        self.game_number = self.game_number + 1;
        if self.game_number > 1 {
            1
        } else {
            0
        }
    }

    /// What the session does after `attempt`, where `us` is our player:
    /// without reconnecting, a failure ends it with the error and a finished
    /// game ends it; when reconnecting, failures to connect or start are
    /// retried after two seconds, and every game is followed by the next.
    pub fn next_step(&self, attempt: GameAttempt, us: PlayerId) -> (r: SessionStep)
        ensures
            match attempt {
                GameAttempt::ConnectFailed(e) => if self.reconnect {
                    r == SessionStep::Retry(2)
                } else {
                    r matches SessionStep::Fail(m) && m@ == "Connection error: "@ + e@
                },
                GameAttempt::StartFailed(e) => if self.reconnect {
                    r == SessionStep::Retry(2)
                } else {
                    r matches SessionStep::Fail(m) && m@ == "Game start error: "@ + e@
                },
                GameAttempt::Finished(w) => if self.reconnect {
                    r matches SessionStep::Next(m) && m@ == game_over_message(self.game_number as nat, w, us)
                } else {
                    r matches SessionStep::Stop(m) && m@ == game_over_message(self.game_number as nat, w, us)
                },
                GameAttempt::Failed(e) => if self.reconnect {
                    r matches SessionStep::Next(m) && m@ == "Game "@ + dec(self.game_number as nat) + " error: "@ + e@
                        + ". Will reconnect..."@
                } else {
                    r matches SessionStep::Fail(m) && m@ == "Game error: "@ + e@
                },
            },
    {
        match attempt {
            GameAttempt::ConnectFailed(e) => {
                if self.reconnect {
                    SessionStep::Retry(2)
                } else {
                    SessionStep::Fail(prefixed("Connection error: ", &e))
                }
            },
            GameAttempt::StartFailed(e) => {
                if self.reconnect {
                    SessionStep::Retry(2)
                } else {
                    SessionStep::Fail(prefixed("Game start error: ", &e))
                }
            },
            GameAttempt::Finished(w) => {
                let mut buf = chars_of("Game ");
                push_dec(&mut buf, self.game_number as u64);
                match w {
                    Some(p) => {
                        if p == us {
                            push_str(&mut buf, " ended. You won!");
                        } else {
                            push_str(&mut buf, " ended. You lost.");
                        }
                    },
                    None => push_str(&mut buf, " ended in a draw"),
                }
                let m = to_string(&buf);
                if self.reconnect {
                    SessionStep::Next(m)
                } else {
                    SessionStep::Stop(m)
                }
            },
            GameAttempt::Failed(e) => {
                if self.reconnect {
                    let mut buf = chars_of("Game ");
                    push_dec(&mut buf, self.game_number as u64);
                    push_str(&mut buf, " error: ");
                    push_chars(&mut buf, &chars_of(e.as_str()));
                    push_str(&mut buf, ". Will reconnect...");
                    SessionStep::Next(to_string(&buf))
                } else {
                    SessionStep::Fail(prefixed("Game error: ", &e))
                }
            },
        }
    }
}

fn prefixed(prefix: &str, text: &String) -> (m: String)
    ensures
        m@ == prefix@ + text@,
{
    let mut buf = chars_of(prefix);
    push_chars(&mut buf, &chars_of(text.as_str()));
    to_string(&buf)
}

// ---------------------------------------------------------------------------
// The shadow game
// ---------------------------------------------------------------------------
/// The other player of a two-player game: player 1 for player 0, player 0
/// for anyone else.
pub fn opponent_of(us: PlayerId) -> (them: PlayerId)
    ensures
        them.0 == if us.0 == 0 {
            1u32
        } else {
            0u32
        },
{
    if us.0 == 0 {
        PlayerId(1)
    } else {
        PlayerId(0)
    }
}

/// What the shadow game does with a revealed card.
#[derive(Debug, Clone, Copy, PartialEq, Eq, Structural)]
pub enum RevealPlacement {
    /// Fill the card's reserved slot with it.
    FillSlot,
    /// The slot already holds the card: leave it.
    KeepExisting,
    /// A new token: add it, on the battlefield, unless its number is taken.
    PlaceToken,
}

/// What the shadow game does with a card revealed for `reason`, where
/// `already_revealed` says whether its slot is filled: a created token is
/// placed; any other card fills its reserved slot once, the first time it
/// is revealed.
pub fn reveal_placement(reason: RevealReason, already_revealed: bool) -> (p: RevealPlacement)
    ensures
        p == if reason == RevealReason::TokenCreated {
            RevealPlacement::PlaceToken
        } else if already_revealed {
            RevealPlacement::KeepExisting
        } else {
            RevealPlacement::FillSlot
        },
{
    match reason {
        RevealReason::TokenCreated => RevealPlacement::PlaceToken,
        _ => {
            if already_revealed {
                RevealPlacement::KeepExisting
            } else {
                RevealPlacement::FillSlot
            }
        },
    }
}

} // verus!
