use mtg_engine::cli::{
    format_yyyymmdd_hhmmss_utc, parse_fixed_inputs, parse_seed, parse_verbosity, should_print, to_tourney_controller,
    ControllerType, SeedArg, TourneyController, VerbosityLevel,
};

#[test]
fn test_format_yyyymmdd_hhmmss_utc_known_values() {
    assert_eq!(format_yyyymmdd_hhmmss_utc(0), "19700101_000000");
    assert_eq!(format_yyyymmdd_hhmmss_utc(946_684_800), "20000101_000000");
    assert_eq!(format_yyyymmdd_hhmmss_utc(1_709_210_096), "20240229_123456");
    assert_eq!(format_yyyymmdd_hhmmss_utc(1_767_225_599), "20251231_235959");
}

#[test]
fn timestamps_across_century_rules() {
    // 2100 is not a leap year: Feb 28 is followed by Mar 1.
    assert_eq!(format_yyyymmdd_hhmmss_utc(4_107_542_399), "21000228_235959");
    assert_eq!(format_yyyymmdd_hhmmss_utc(4_107_542_400), "21000301_000000");
    // 2000 is: Feb 29 exists.
    assert_eq!(format_yyyymmdd_hhmmss_utc(951_782_400), "20000229_000000");
    // Years past 9999 keep all their digits.
    assert_eq!(format_yyyymmdd_hhmmss_utc(253_402_300_800), "100000101_000000");
}

#[test]
fn default_names_per_controller() {
    assert_eq!(ControllerType::Zero.default_name(1), "Zero1");
    assert_eq!(ControllerType::Random.default_name(2), "Random2");
    assert_eq!(ControllerType::Tui.default_name(1), "Human1");
    assert_eq!(ControllerType::Fancy.default_name(2), "Human2");
    assert_eq!(ControllerType::FancyFixed.default_name(10), "Human10");
    assert_eq!(ControllerType::Heuristic.default_name(2), "AI-Heuristic2");
    assert_eq!(ControllerType::Fixed.default_name(0), "Fixed0");
}

#[test]
fn fixed_inputs_split_on_semicolons() {
    assert_eq!(
        parse_fixed_inputs(" play swamp ; cast bolt;;  ;pass ").unwrap(),
        vec!["play swamp".to_string(), "cast bolt".to_string(), "pass".to_string()]
    );
    assert!(parse_fixed_inputs("").unwrap().is_empty());
    assert_eq!(parse_fixed_inputs("0").unwrap(), vec!["0".to_string()]);
}

#[test]
fn verbosity_words_and_numbers() {
    assert_eq!(parse_verbosity("silent"), Ok(VerbosityLevel::Silent));
    assert_eq!(parse_verbosity("1"), Ok(VerbosityLevel::Minimal));
    assert_eq!(parse_verbosity("NORMAL"), Ok(VerbosityLevel::Normal));
    assert_eq!(parse_verbosity("Verbose"), Ok(VerbosityLevel::Verbose));
    assert_eq!(
        parse_verbosity("loud"),
        Err("invalid verbosity level 'loud' (expected: silent/0, minimal/1, normal/2, verbose/3)".to_string())
    );
    assert!(should_print(VerbosityLevel::Normal, VerbosityLevel::Minimal, false));
    assert!(!should_print(VerbosityLevel::Normal, VerbosityLevel::Verbose, false));
    assert!(!should_print(VerbosityLevel::Verbose, VerbosityLevel::Silent, true));
}

#[test]
fn seeds_parse_and_resolve() {
    assert_eq!(parse_seed("42"), Ok(SeedArg::Value(42)));
    assert_eq!(parse_seed("+7"), Ok(SeedArg::Value(7)));
    assert_eq!(parse_seed("18446744073709551615"), Ok(SeedArg::Value(u64::MAX)));
    assert_eq!(parse_seed("From_Entropy"), Ok(SeedArg::FromEntropy));
    assert_eq!(
        parse_seed("18446744073709551616"),
        Err("invalid seed '18446744073709551616' (expected: u64 number or 'from_entropy')".to_string())
    );
    assert!(parse_seed("-1").is_err());
    assert!(parse_seed("").is_err());
    assert_eq!(SeedArg::Value(9).resolve(), Some(9));
    // An entropy seed is some number; two of them almost surely differ.
    let a = SeedArg::FromEntropy.resolve().expect("system entropy");
    let b = SeedArg::FromEntropy.resolve().expect("system entropy");
    let c = SeedArg::FromEntropy.resolve().expect("system entropy");
    assert!(a != b || b != c);
}

#[test]
fn tournaments_take_automatic_controllers_only() {
    assert_eq!(to_tourney_controller(ControllerType::Zero), Ok(TourneyController::Zero));
    assert_eq!(to_tourney_controller(ControllerType::Random), Ok(TourneyController::Random));
    assert_eq!(to_tourney_controller(ControllerType::Heuristic), Ok(TourneyController::Heuristic));
    for ct in [ControllerType::Tui, ControllerType::Fancy, ControllerType::Fixed, ControllerType::FancyFixed] {
        assert_eq!(
            to_tourney_controller(ct),
            Err("Tournament mode only supports Zero, Random, and Heuristic controllers".to_string())
        );
    }
}
