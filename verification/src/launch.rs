//! The decisions taken before a local game starts: which sources the game
//! comes from, the starting life, whether logs are coloured, which
//! controllers a resumed game gets and the seed of each player's random
//! controller.
use crate::cli::ControllerType;
use crate::text::{chars_of, dec, push_dec, push_str, to_string};
use vstd::prelude::*;

verus! {

// ---------------------------------------------------------------------------
// Where the game comes from
// ---------------------------------------------------------------------------
/// Which starting points were given on the command line.
#[derive(Debug, Clone, Copy, PartialEq, Eq, Structural)]
pub struct GameSources {
    /// A snapshot to resume (`--start-from`).
    pub start_from: bool,
    pub deck1: bool,
    pub deck2: bool,
    pub puzzle: bool,
    /// A fixed opening hand for player 1 (`--p1-draw`).
    pub p1_draw: bool,
    pub p2_draw: bool,
}

/// The error for sources that cannot go together: a snapshot excludes deck
/// and puzzle files, and fixed opening hands only apply at game start.
pub open spec fn sources_conflict(s: GameSources) -> Option<Seq<char>> {
    if s.start_from && (s.deck1 || s.deck2 || s.puzzle) {
        Some("Cannot specify both --start-from and deck/puzzle files"@)
    } else if s.start_from && (s.p1_draw || s.p2_draw) {
        Some("--p1-draw and --p2-draw only work at game start (not when resuming from snapshot)"@)
    } else {
        None
    }
}

/// Check that the given starting points can go together.
pub fn check_game_sources(s: GameSources) -> (r: Result<(), String>)
    ensures
        match sources_conflict(s) {
            None => r is Ok,
            Some(m) => r matches Err(e) && e@ == m,
        },
{
    if s.start_from && (s.deck1 || s.deck2 || s.puzzle) {
        return Err("Cannot specify both --start-from and deck/puzzle files".to_owned());
    }
    if s.start_from && (s.p1_draw || s.p2_draw) {
        return Err("--p1-draw and --p2-draw only work at game start (not when resuming from snapshot)".to_owned());
    }
    Ok(())
}

/// The life each player starts with: 40 when either deck is a commander
/// deck, else 20.
pub fn starting_life(deck1_is_commander: bool, deck2_is_commander: bool) -> (life: i32)
    ensures
        life == if deck1_is_commander || deck2_is_commander {
            40i32
        } else {
            20i32
        },
{
    if deck1_is_commander || deck2_is_commander {
        40
    } else {
        20
    }
}

/// Whether game logs are coloured: unless `--no-color-logs` is given or the
/// `NO_COLOR` environment variable is set.
pub fn colors_enabled(no_color_logs: bool, no_color_env_set: bool) -> (b: bool)
    ensures
        b == (!no_color_logs && !no_color_env_set),
{
    !no_color_logs && !no_color_env_set
}

// ---------------------------------------------------------------------------
// Controller seeds
// ---------------------------------------------------------------------------
/// The salt of player 1's controller seed.
pub const P1_SEED_SALT: u64 = 0x1234_5678_9ABC_DEF0;

/// The salt of player 2's controller seed.
pub const P2_SEED_SALT: u64 = 0xFEDC_BA98_7654_3210;

/// The salt of a player's controller seed (players 1 and 2).
pub open spec fn seed_salt(first_player: bool) -> u64 {
    if first_player {
        P1_SEED_SALT
    } else {
        P2_SEED_SALT
    }
}

/// A controller seed derived from the master seed: master plus salt,
/// modulo 2^64.
pub open spec fn derived_seed(master: u64, first_player: bool) -> u64 {
    ((master + seed_salt(first_player)) % 0x1_0000_0000_0000_0000) as u64
}

/// The seed derived from `master` for player 1 (`first_player`) or 2.
pub fn derive_controller_seed(master: u64, first_player: bool) -> (s: u64)
    ensures
        s == derived_seed(master, first_player),
{
    let salt = if first_player {
        P1_SEED_SALT
    } else {
        P2_SEED_SALT
    };
    master.wrapping_add(salt)
}

/// The seed of a player's random controller in a new game: the player's
/// own seed, else one derived from the master seed, else none.
pub open spec fn new_game_seed(own: Option<u64>, master: Option<u64>, first_player: bool) -> Option<u64> {
    match own {
        Some(s) => Some(s),
        None => match master {
            Some(m) => Some(derived_seed(m, first_player)),
            None => None,
        },
    }
}

/// The seed of a player's random controller in a new game.
pub fn controller_seed(own: Option<u64>, master: Option<u64>, first_player: bool) -> (s: Option<u64>)
    ensures
        s == new_game_seed(own, master, first_player),
{
    match own {
        Some(s) => Some(s),
        None => match master {
            Some(m) => Some(derive_controller_seed(m, first_player)),
            None => None,
        },
    }
}

/// The seed of a player's random controller in a resumed game: when the
/// controller is overridden, as in a new game; when it is restored, only
/// the player's own override seed (else the snapshot's state stands).
pub fn resumed_controller_seed(overridden: bool, own: Option<u64>, master: Option<u64>, first_player: bool) -> (s:
    Option<u64>)
    ensures
        s == if overridden {
            new_game_seed(own, master, first_player)
        } else {
            own
        },
{
    if overridden {
        controller_seed(own, master, first_player)
    } else {
        own
    }
}

/// Where a random controller's state comes from.
#[derive(Debug, Clone, Copy, PartialEq, Eq, Structural)]
pub enum RandomSource {
    /// The state saved in the snapshot.
    Saved,
    /// A fresh controller with this seed.
    Seeded(u64),
    /// A fresh controller seeded from entropy (with a warning).
    Entropy,
}

/// Where a random controller's state comes from: a saved state wins when
/// it may be used, then a seed, then entropy.
pub fn random_source(saved_state_usable: bool, seed: Option<u64>) -> (r: RandomSource)
    ensures
        r == if saved_state_usable {
            RandomSource::Saved
        } else {
            match seed {
                Some(s) => RandomSource::Seeded(s),
                None => RandomSource::Entropy,
            }
        },
{
    if saved_state_usable {
        RandomSource::Saved
    } else {
        match seed {
            Some(s) => RandomSource::Seeded(s),
            None => RandomSource::Entropy,
        }
    }
}

/// Two players never share a derived seed: whatever the master seed, the
/// two salts give different controller seeds, so the two random
/// controllers draw from different streams.
pub proof fn law_derived_seeds_differ(master: u64)
    ensures
        derived_seed(master, true) != derived_seed(master, false),
{
    let a = master + P1_SEED_SALT;
    let b = master + P2_SEED_SALT;
    assert(P1_SEED_SALT < P2_SEED_SALT);
    assert(0 < b - a < 0x1_0000_0000_0000_0000);
    if a % 0x1_0000_0000_0000_0000 == b % 0x1_0000_0000_0000_0000 {
        assert((b - a) % 0x1_0000_0000_0000_0000 == 0) by (nonlinear_arith)
            requires
                a % 0x1_0000_0000_0000_0000 == b % 0x1_0000_0000_0000_0000,
                a >= 0,
                b >= a,
        ;
        assert(false) by (nonlinear_arith)
            requires
                (b - a) % 0x1_0000_0000_0000_0000 == 0,
                0 < b - a < 0x1_0000_0000_0000_0000,
        ;
    }
}

// ---------------------------------------------------------------------------
// Controllers of a resumed game
// ---------------------------------------------------------------------------
/// The controller types a snapshot records.
#[derive(Debug, Clone, Copy, PartialEq, Eq, Structural)]
pub enum SavedControllerType {
    Zero,
    Random,
    Tui,
    Heuristic,
    Fixed,
    FancyFixed,
    Remote,
    Network,
}

/// The controller a saved controller type restores to; a remote or network
/// controller needs a connection and plays as Zero.
pub open spec fn restored_type(saved: SavedControllerType) -> ControllerType {
    match saved {
        SavedControllerType::Zero => ControllerType::Zero,
        SavedControllerType::Random => ControllerType::Random,
        SavedControllerType::Tui => ControllerType::Tui,
        SavedControllerType::Heuristic => ControllerType::Heuristic,
        SavedControllerType::Fixed => ControllerType::Fixed,
        SavedControllerType::FancyFixed => ControllerType::FancyFixed,
        SavedControllerType::Remote | SavedControllerType::Network => ControllerType::Zero,
    }
}

/// The controller of a player in a resumed game: the override when given,
/// else the one the snapshot restores.
pub fn resumed_controller_type(override_type: Option<ControllerType>, saved: SavedControllerType) -> (t: ControllerType)
    ensures
        t == match override_type {
            Some(o) => o,
            None => restored_type(saved),
        },
{
    match override_type {
        Some(o) => o,
        None => match saved {
            SavedControllerType::Zero => ControllerType::Zero,
            SavedControllerType::Random => ControllerType::Random,
            SavedControllerType::Tui => ControllerType::Tui,
            SavedControllerType::Heuristic => ControllerType::Heuristic,
            SavedControllerType::Fixed => ControllerType::Fixed,
            SavedControllerType::FancyFixed => ControllerType::FancyFixed,
            SavedControllerType::Remote | SavedControllerType::Network => ControllerType::Zero,
        },
    }
}

// ---------------------------------------------------------------------------
// The deck builder
// ---------------------------------------------------------------------------
/// The deck file the deck builder reads, if any, and the one it writes: a
/// given deck is read and, unless another output is given, written back;
/// without either, the output is `output.dck`.
pub fn deck_build_files(deck_file: Option<String>, output_file: Option<String>) -> (r: (Option<String>, String))
    ensures
        match (deck_file, output_file) {
            (Some(d), Some(o)) => r.0 == Some(d) && r.1 == o,
            (Some(d), None) => r.0 == Some(d) && r.1@ == d@,
            (None, Some(o)) => r.0 is None && r.1 == o,
            (None, None) => r.0 is None && r.1@ == "output.dck"@,
        },
{
    match (deck_file, output_file) {
        (Some(d), Some(o)) => (Some(d), o),
        (Some(d), None) => {
            let out = to_string(&chars_of(d.as_str()));
            (Some(d), out)
        },
        (None, Some(o)) => (None, o),
        (None, None) => (None, "output.dck".to_owned()),
    }
}

/// A year bound as shown: the year, or `any`.
pub open spec fn year_text(year: Option<u16>) -> Seq<char> {
    match year {
        Some(y) => dec(y as nat),
        None => "any"@,
    }
}

/// The line reporting the year filter: the range, and the number of cards
/// before and after it.
pub fn year_filter_line(start_year: Option<u16>, end_year: Option<u16>, before: usize, after: usize) -> (s: String)
    ensures
        s@ == "Year filter ("@ + year_text(start_year) + "-"@ + year_text(end_year) + "): "@ + dec(before as nat)
            + " -> "@ + dec(after as nat) + " cards"@,
{
    let mut buf = chars_of("Year filter (");
    push_year(&mut buf, start_year);
    push_str(&mut buf, "-");
    push_year(&mut buf, end_year);
    push_str(&mut buf, "): ");
    push_dec(&mut buf, before as u64);
    push_str(&mut buf, " -> ");
    push_dec(&mut buf, after as u64);
    push_str(&mut buf, " cards");
    to_string(&buf)
}

fn push_year(buf: &mut Vec<char>, year: Option<u16>)
    ensures
        final(buf)@ == old(buf)@ + year_text(year),
{
    match year {
        Some(y) => push_dec(buf, y as u64),
        None => push_str(buf, "any"),
    }
}

} // verus!
