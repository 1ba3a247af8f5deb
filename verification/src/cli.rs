//! Small pieces of the command-line front end that carry logic: timestamp
//! formatting for log file names, default player names, and the parsing of
//! scripted inputs.
use crate::text::{
    chars_of, dec, is_text, lowercase, parse_u64, parse_u64_chars, to_lowercase, push_chars, push_dec, push_str, push_zero_padded, dec_chars, slice_chars,
    split_chars, split_on, to_string, trim, trim_chars, views, zero_pad,
};
use rand::Rng;
use rand::SeedableRng;
use vstd::prelude::*;

verus! {

/// Civil (proleptic Gregorian) date and time of day in UTC for a count of
/// seconds since the UNIX epoch: `(year, month, day, hour, minute, second)`.
///
/// The date follows the days-to-civil algorithm (shift to a March-based
/// year, split into 400-year eras of 146097 days); all quantities are
/// non-negative here because the count of seconds is.
pub open spec fn civil_from_secs(secs: nat) -> (nat, nat, nat, nat, nat, nat) {
    let days = secs / 86400;
    let tod = secs % 86400;
    let z = days + 719468;
    let era = z / 146097;
    let doe = (z - era * 146097) as nat;
    let yoe = ((doe - doe / 1460 + doe / 36524 - doe / 146096) / 365) as nat;
    let y = yoe + era * 400;
    let doy = (doe - (365 * yoe + yoe / 4 - yoe / 100)) as nat;
    let mp = (5 * doy + 2) / 153;
    let d = (doy - (153 * mp + 2) / 5 + 1) as nat;
    let m = if mp < 10 {
        mp + 3
    } else {
        (mp - 9) as nat
    };
    let year = if m <= 2 {
        y + 1
    } else {
        y
    };
    (year, m, d, tod / 3600, (tod % 3600) / 60, tod % 60)
}

/// `YYYYMMDD_HHMMSS` for a count of seconds since the epoch, each field
/// zero-padded (the year to at least four digits).
pub open spec fn timestamp_text(secs: nat) -> Seq<char> {
    let (year, m, d, hh, mm, ss) = civil_from_secs(secs);
    zero_pad(dec(year), 4) + zero_pad(dec(m), 2) + zero_pad(dec(d), 2) + seq!['_'] + zero_pad(
        dec(hh),
        2,
    ) + zero_pad(dec(mm), 2) + zero_pad(dec(ss), 2)
}

proof fn lemma_era_fields(doe: u32)
    requires
        doe <= 146096,
    ensures
        doe / 146096 <= doe - doe / 1460 + doe / 36524,
        ({
            let yoe = (doe - doe / 1460 + doe / 36524 - doe / 146096) / 365;
            &&& yoe <= 399
            &&& yoe / 100 <= 365 * yoe + yoe / 4
            &&& 365 * yoe + yoe / 4 - yoe / 100 <= doe
            &&& doe - (365 * yoe + yoe / 4 - yoe / 100) <= 365
        }),
{
    assert(doe / 146096 <= doe - doe / 1460 + doe / 36524) by (bit_vector)
        requires
            doe <= 146096,
    ;
    assert({
        let yoe = (doe - doe / 1460 + doe / 36524 - doe / 146096) / 365;
        &&& yoe <= 399
        &&& yoe / 100 <= 365 * yoe + yoe / 4
        &&& 365 * yoe + yoe / 4 - yoe / 100 <= doe
        &&& doe - (365 * yoe + yoe / 4 - yoe / 100) <= 365
    }) by (bit_vector)
        requires
            doe <= 146096,
    ;
}

proof fn lemma_month_fields(doy: u32)
    requires
        doy <= 365,
    ensures
        ({
            let mp = (5 * doy + 2) / 153;
            &&& mp <= 11
            &&& (153 * mp + 2) / 5 <= doy
            &&& doy - (153 * mp + 2) / 5 + 1 <= 31
        }),
{
    assert({
        let mp = (5 * doy + 2) / 153;
        &&& mp <= 11
        &&& (153 * mp + 2) / 5 <= doy
        &&& doy - (153 * mp + 2) / 5 + 1 <= 31
    }) by (bit_vector)
        requires
            doy <= 365,
    ;
}

/// Format a UNIX timestamp (seconds since epoch) as `YYYYMMDD_HHMMSS` in UTC.
pub fn format_yyyymmdd_hhmmss_utc(secs: u64) -> (s: String)
    ensures
        s@ == timestamp_text(secs as nat),
{
    let days = secs / 86400;
    let time_of_day = secs % 86400;
    let hour = time_of_day / 3600;
    let minute = (time_of_day % 3600) / 60;
    let second = time_of_day % 60;
    assert(days <= 0x1_0000_0000_0000_0000int / 86400) by (nonlinear_arith)
        requires
            days == secs / 86400,
            secs < 0x1_0000_0000_0000_0000int,
    ;
    let z = days + 719468;
    let era = z / 146097;
    assert(era * 146097 <= z) by (nonlinear_arith)
        requires
            era == z / 146097,
    ;
    assert(z - era * 146097 < 146097) by (nonlinear_arith)
        requires
            era == z / 146097,
    ;
    let doe = z - era * 146097;
    proof {
        lemma_era_fields(doe as u32);
    }
    let yoe = (doe - doe / 1460 + doe / 36524 - doe / 146096) / 365;
    assert(era <= 0x1_0000_0000_0000_0000int / 146097) by (nonlinear_arith)
        requires
            era == z / 146097,
            z < 0x1_0000_0000_0000_0000int,
    ;
    let y = yoe + era * 400;
    let doy = doe - (365 * yoe + yoe / 4 - yoe / 100);
    proof {
        lemma_month_fields(doy as u32);
    }
    let mp = (5 * doy + 2) / 153;
    let d = doy - (153 * mp + 2) / 5 + 1;
    let m = if mp < 10 {
        mp + 3
    } else {
        mp - 9
    };
    let year = if m <= 2 {
        y + 1
    } else {
        y
    };
    let mut buf: Vec<char> = Vec::new();
    push_zero_padded(&mut buf, &dec_chars(year), 4);
    push_zero_padded(&mut buf, &dec_chars(m), 2);
    push_zero_padded(&mut buf, &dec_chars(d), 2);
    buf.push('_');
    push_zero_padded(&mut buf, &dec_chars(hour), 2);
    push_zero_padded(&mut buf, &dec_chars(minute), 2);
    push_zero_padded(&mut buf, &dec_chars(second), 2);
    proof {
        let (sy, sm, sd, sh, smi, ss) = civil_from_secs(secs as nat);
        assert(sy == year && sm == m && sd == d && sh == hour && smi == minute && ss == second);
        assert(buf@ =~= timestamp_text(secs as nat));
    }
    to_string(&buf)
}

/// Controller type for AI agents.
#[derive(Debug, Clone, Copy, PartialEq, Eq, Structural)]
pub enum ControllerType {
    /// Always chooses first meaningful action (for testing)
    Zero,
    /// Makes random choices
    Random,
    /// Text UI controller for human play via stdin
    Tui,
    /// Full-featured TUI (multi-panel interface)
    Fancy,
    /// Heuristic AI controller with strategic decision making
    Heuristic,
    /// Fixed script controller with predetermined choices
    Fixed,
    /// Fancy TUI with fixed scripted inputs
    FancyFixed,
}

/// The name stem for players driven by a controller type.
pub open spec fn controller_base_name(ct: ControllerType) -> Seq<char> {
    match ct {
        ControllerType::Zero => "Zero"@,
        ControllerType::Random => "Random"@,
        ControllerType::Tui | ControllerType::Fancy | ControllerType::FancyFixed => "Human"@,
        ControllerType::Heuristic => "AI-Heuristic"@,
        ControllerType::Fixed => "Fixed"@,
    }
}

impl ControllerType {
    /// The default player name for this controller type: its stem followed
    /// by the player number.
    pub fn default_name(&self, player_number: u8) -> (s: String)
        ensures
            s@ == controller_base_name(*self) + dec(player_number as nat),
    {
        let mut buf: Vec<char> = Vec::new();
        match self {
            ControllerType::Zero => push_str(&mut buf, "Zero"),
            ControllerType::Random => push_str(&mut buf, "Random"),
            ControllerType::Tui | ControllerType::Fancy | ControllerType::FancyFixed => push_str(
                &mut buf,
                "Human",
            ),
            ControllerType::Heuristic => push_str(&mut buf, "AI-Heuristic"),
            ControllerType::Fixed => push_str(&mut buf, "Fixed"),
        }
        push_dec(&mut buf, player_number as u64);
        assert(buf@ =~= controller_base_name(*self) + dec(player_number as nat));
        to_string(&buf)
    }
}

/// The controllers a tournament can run.
#[derive(Debug, Clone, Copy, PartialEq, Eq, Structural)]
pub enum TourneyController {
    Zero,
    Random,
    Heuristic,
}

/// The tournament controller for a controller type: only the automatic
/// ones (Zero, Random, Heuristic) can play in a tournament.
pub fn to_tourney_controller(ct: ControllerType) -> (r: Result<TourneyController, String>)
    ensures
        match ct {
            ControllerType::Zero => r == Ok::<TourneyController, String>(TourneyController::Zero),
            ControllerType::Random => r == Ok::<TourneyController, String>(TourneyController::Random),
            ControllerType::Heuristic => r == Ok::<TourneyController, String>(TourneyController::Heuristic),
            _ => r matches Err(e) && e@ == "Tournament mode only supports Zero, Random, and Heuristic controllers"@,
        },
{
    match ct {
        ControllerType::Zero => Ok(TourneyController::Zero),
        ControllerType::Random => Ok(TourneyController::Random),
        ControllerType::Heuristic => Ok(TourneyController::Heuristic),
        _ => Err("Tournament mode only supports Zero, Random, and Heuristic controllers".to_owned()),
    }
}

/// Non-empty trimmed pieces, in order.
pub open spec fn trimmed_nonempty(pieces: Seq<Seq<char>>) -> Seq<Seq<char>>
    decreases pieces.len(),
{
    if pieces.len() == 0 {
        Seq::empty()
    } else {
        let t = trim(pieces[0]);
        let rest = trimmed_nonempty(pieces.drop_first());
        if t.len() > 0 {
            seq![t] + rest
        } else {
            rest
        }
    }
}

/// The commands of a scripted-input string: split at `;`, each piece
/// trimmed, empty pieces dropped.
pub open spec fn fixed_inputs(input: Seq<char>) -> Seq<Seq<char>> {
    trimmed_nonempty(split_on(input, ';'))
}

/// The views of a vector of strings.
pub open spec fn string_views(v: Seq<String>) -> Seq<Seq<char>> {
    v.map_values(|x: String| x@)
}

/// Parse fixed input string into a vector of choice strings.
///
/// Splits on semicolons to support rich text commands like
/// `"play swamp; cast bolt"`. Never fails.
pub fn parse_fixed_inputs(input: &str) -> (r: Result<Vec<String>, String>)
    ensures
        r matches Ok(v) && string_views(v@) == fixed_inputs(input@),
{
    let chars = chars_of(input);
    let pieces = split_chars(&chars, ';');
    let mut out: Vec<String> = Vec::new();
    let mut i: usize = 0;
    assert(views(pieces@).skip(0) == views(pieces@));
    assert(string_views(out@) + trimmed_nonempty(views(pieces@).skip(0)) =~= fixed_inputs(
        input@,
    ));
    while i < pieces.len()
        invariant
            i <= pieces@.len(),
            views(pieces@) == split_on(input@, ';'),
            string_views(out@) + trimmed_nonempty(views(pieces@).skip(i as int)) == fixed_inputs(
                input@,
            ),
        decreases pieces@.len() - i,
    {
        let t = trim_chars(&pieces[i]);
        proof {
            assert(pieces@[i as int]@ == views(pieces@)[i as int]);
            assert(views(pieces@).skip(i as int)[0] == views(pieces@)[i as int]);
            assert(views(pieces@).skip(i as int).drop_first() == views(pieces@).skip(i + 1));
        }
        if t.len() > 0 {
            let s = to_string(&t);
            proof {
                assert(string_views(out@.push(s)) == string_views(out@).push(s@));
                assert(string_views(out@).push(s@) + trimmed_nonempty(views(pieces@).skip(i + 1))
                    == string_views(out@) + (seq![s@] + trimmed_nonempty(
                    views(pieces@).skip(i + 1),
                )));
            }
            out.push(s);
        }
        i = i + 1;
    }
    assert(views(pieces@).skip(i as int) =~= Seq::<Seq<char>>::empty());
    assert(string_views(out@) + Seq::<Seq<char>>::empty() =~= string_views(out@));
    Ok(out)
}

/// Amount of game output to print, from least to most.
#[derive(Debug, Clone, Copy, PartialEq, Eq, Structural)]
pub enum VerbosityLevel {
    /// No output.
    Silent,
    /// Only essential events.
    Minimal,
    /// The usual game log.
    Normal,
    /// Everything.
    Verbose,
}

/// Position of a verbosity level in the order Silent < Minimal < Normal <
/// Verbose.
pub open spec fn verbosity_rank(v: VerbosityLevel) -> nat {
    match v {
        VerbosityLevel::Silent => 0,
        VerbosityLevel::Minimal => 1,
        VerbosityLevel::Normal => 2,
        VerbosityLevel::Verbose => 3,
    }
}

fn rank_of(v: VerbosityLevel) -> (r: u8)
    ensures
        r == verbosity_rank(v),
{
    match v {
        VerbosityLevel::Silent => 0,
        VerbosityLevel::Minimal => 1,
        VerbosityLevel::Normal => 2,
        VerbosityLevel::Verbose => 3,
    }
}

/// Whether a message of `level` is printed at `verbosity`, unless
/// suppressed.
pub fn should_print(verbosity: VerbosityLevel, level: VerbosityLevel, suppress: bool) -> (b: bool)
    ensures
        b == (verbosity_rank(verbosity) >= verbosity_rank(level) && !suppress),
{
    rank_of(verbosity) >= rank_of(level) && !suppress
}

/// The verbosity a lower-cased command-line word names, if any.
pub open spec fn verbosity_named(lower: Seq<char>) -> Option<VerbosityLevel> {
    if lower == "silent"@ || lower == "0"@ {
        Some(VerbosityLevel::Silent)
    } else if lower == "minimal"@ || lower == "1"@ {
        Some(VerbosityLevel::Minimal)
    } else if lower == "normal"@ || lower == "2"@ {
        Some(VerbosityLevel::Normal)
    } else if lower == "verbose"@ || lower == "3"@ {
        Some(VerbosityLevel::Verbose)
    } else {
        None
    }
}

/// Error text for an unknown verbosity word.
pub open spec fn verbosity_error(s: Seq<char>) -> Seq<char> {
    "invalid verbosity level '"@ + s + "' (expected: silent/0, minimal/1, normal/2, verbose/3)"@
}

/// Parse a verbosity level from its name or number, ignoring case.
pub fn parse_verbosity(s: &str) -> (r: Result<VerbosityLevel, String>)
    ensures
        match r {
            Ok(v) => verbosity_named(lowercase(s@)) == Some(v),
            Err(e) => verbosity_named(lowercase(s@)) is None && e@ == verbosity_error(s@),
        },
{
    let lower = to_lowercase(s);
    let l = chars_of(lower.as_str());
    if is_text(&l, "silent") || is_text(&l, "0") {
        Ok(VerbosityLevel::Silent)
    } else if is_text(&l, "minimal") || is_text(&l, "1") {
        Ok(VerbosityLevel::Minimal)
    } else if is_text(&l, "normal") || is_text(&l, "2") {
        Ok(VerbosityLevel::Normal)
    } else if is_text(&l, "verbose") || is_text(&l, "3") {
        Ok(VerbosityLevel::Verbose)
    } else {
        let mut buf: Vec<char> = Vec::new();
        push_str(&mut buf, "invalid verbosity level '");
        push_str(&mut buf, s);
        push_str(&mut buf, "' (expected: silent/0, minimal/1, normal/2, verbose/3)");
        assert(buf@ =~= verbosity_error(s@));
        Err(to_string(&buf))
    }
}


// ---------------------------------------------------------------------------
// Seeds
// ---------------------------------------------------------------------------
/// A seed given on the command line: a number, or a request for one drawn
/// from system entropy.
#[derive(Debug, Clone, Copy, PartialEq, Eq, Structural)]
pub enum SeedArg {
    /// This seed, for a repeatable run.
    Value(u64),
    /// A seed drawn from system entropy.
    FromEntropy,
}

/// Error text for a seed that is neither a number nor `from_entropy`.
pub open spec fn seed_error(s: Seq<char>) -> Seq<char> {
    "invalid seed '"@ + s + "' (expected: u64 number or 'from_entropy')"@
}

/// Parse a seed: `from_entropy` in any case, or a `u64`.
pub fn parse_seed(s: &str) -> (r: Result<SeedArg, String>)
    ensures
        lowercase(s@) == "from_entropy"@ ==> r == Ok::<SeedArg, String>(SeedArg::FromEntropy),
        lowercase(s@) != "from_entropy"@ ==> match parse_u64(s@) {
            Some(v) => r == Ok::<SeedArg, String>(SeedArg::Value(v as u64)),
            None => r matches Err(e) && e@ == seed_error(s@),
        },
{
    let lower = to_lowercase(s);
    let l = chars_of(lower.as_str());
    if is_text(&l, "from_entropy") {
        return Ok(SeedArg::FromEntropy);
    }
    match parse_u64_chars(&chars_of(s)) {
        Some(v) => Ok(SeedArg::Value(v)),
        None => {
            let mut buf: Vec<char> = Vec::new();
            push_str(&mut buf, "invalid seed '");
            push_str(&mut buf, s);
            push_str(&mut buf, "' (expected: u64 number or 'from_entropy')");
            assert(buf@ =~= seed_error(s@));
            Err(to_string(&buf))
        },
    }
}

#[verifier::external_type_specification]
#[verifier::external_body]
pub struct ExXoshiro256PlusPlus(rand_xoshiro::Xoshiro256PlusPlus);

/// `SeedableRng::from_rng(OsRng)` for `Xoshiro256PlusPlus`: a generator
/// seeded from operating-system entropy, or `None` when the system cannot
/// provide entropy (the seeding returns an error; it does not panic).
/// Nothing is claimed of the generator's state.
#[verifier::external_body]
fn generator_from_os() -> Option<rand_xoshiro::Xoshiro256PlusPlus> {
    match <rand_xoshiro::Xoshiro256PlusPlus as SeedableRng>::from_rng(rand::rngs::OsRng) {
        Ok(g) => Some(g),
        Err(_) => None,
    }
}

/// `Rng::gen::<u64>`: the generator's next `u64`. Any value can come back;
/// nothing is claimed of it.
#[verifier::external_body]
fn next_u64(rng: &mut rand_xoshiro::Xoshiro256PlusPlus) -> u64 {
    rng.gen()
}

impl SeedArg {
    /// The seed to use: the given number, or one drawn from system entropy;
    /// `None` only when a seed is to be drawn and the system cannot provide
    /// entropy.
    pub fn resolve(self) -> (v: Option<u64>)
        ensures
            self matches SeedArg::Value(n) ==> v == Some(n),
    {
        match self {
            SeedArg::Value(v) => Some(v),
            SeedArg::FromEntropy => match generator_from_os() {
                Some(mut rng) => Some(next_u64(&mut rng)),
                None => None,
            },
        }
    }
}

} // verus!
