use mtg_engine::cli::ControllerType;
use mtg_engine::launch::{
    check_game_sources, colors_enabled, deck_build_files, year_filter_line, controller_seed, derive_controller_seed, random_source,
    resumed_controller_seed, resumed_controller_type, starting_life, GameSources, RandomSource, SavedControllerType,
    P1_SEED_SALT, P2_SEED_SALT,
};

fn sources() -> GameSources {
    GameSources { start_from: false, deck1: false, deck2: false, puzzle: false, p1_draw: false, p2_draw: false }
}

#[test]
fn a_snapshot_excludes_decks_and_opening_hands() {
    assert_eq!(check_game_sources(GameSources { deck1: true, p1_draw: true, ..sources() }), Ok(()));
    assert_eq!(check_game_sources(GameSources { start_from: true, ..sources() }), Ok(()));
    assert_eq!(
        check_game_sources(GameSources { start_from: true, puzzle: true, ..sources() }),
        Err("Cannot specify both --start-from and deck/puzzle files".to_string())
    );
    assert_eq!(
        check_game_sources(GameSources { start_from: true, p2_draw: true, ..sources() }),
        Err("--p1-draw and --p2-draw only work at game start (not when resuming from snapshot)".to_string())
    );
}

#[test]
fn commander_decks_start_at_forty_life() {
    assert_eq!(starting_life(false, false), 20);
    assert_eq!(starting_life(true, false), 40);
    assert_eq!(starting_life(false, true), 40);
}

#[test]
fn colors_follow_the_flag_and_the_environment() {
    assert!(colors_enabled(false, false));
    assert!(!colors_enabled(true, false));
    assert!(!colors_enabled(false, true));
}

#[test]
fn controller_seeds_are_salted_from_the_master_seed() {
    assert_eq!(derive_controller_seed(42, true), 42u64.wrapping_add(0x1234_5678_9ABC_DEF0));
    assert_eq!(derive_controller_seed(u64::MAX, false), u64::MAX.wrapping_add(0xFEDC_BA98_7654_3210));
    assert_eq!(P1_SEED_SALT, 0x1234_5678_9ABC_DEF0);
    assert_eq!(P2_SEED_SALT, 0xFEDC_BA98_7654_3210);
    assert_eq!(controller_seed(Some(7), Some(42), true), Some(7));
    assert_eq!(controller_seed(None, Some(42), false), Some(42u64.wrapping_add(P2_SEED_SALT)));
    assert_eq!(controller_seed(None, None, true), None);
    for master in [0u64, 1, 42, u64::MAX, 0xEDCB_A987_6543_2110] {
        assert_ne!(derive_controller_seed(master, true), derive_controller_seed(master, false));
    }
}

#[test]
fn resumed_games_keep_restored_seeds_unless_overridden() {
    assert_eq!(resumed_controller_seed(false, None, Some(42), true), None);
    assert_eq!(resumed_controller_seed(false, Some(5), Some(42), true), Some(5));
    assert_eq!(resumed_controller_seed(true, None, Some(42), true), Some(42u64.wrapping_add(P1_SEED_SALT)));
    assert_eq!(random_source(true, Some(3)), RandomSource::Saved);
    assert_eq!(random_source(false, Some(3)), RandomSource::Seeded(3));
    assert_eq!(random_source(false, None), RandomSource::Entropy);
}

#[test]
fn network_controllers_resume_as_zero() {
    assert_eq!(resumed_controller_type(None, SavedControllerType::Remote), ControllerType::Zero);
    assert_eq!(resumed_controller_type(None, SavedControllerType::Network), ControllerType::Zero);
    assert_eq!(resumed_controller_type(None, SavedControllerType::Heuristic), ControllerType::Heuristic);
    assert_eq!(resumed_controller_type(Some(ControllerType::Random), SavedControllerType::Fixed), ControllerType::Random);
}

#[test]
fn the_deck_builder_writes_back_its_input() {
    assert_eq!(deck_build_files(Some("a.dck".to_string()), None), (Some("a.dck".to_string()), "a.dck".to_string()));
    assert_eq!(
        deck_build_files(Some("a.dck".to_string()), Some("b.dck".to_string())),
        (Some("a.dck".to_string()), "b.dck".to_string())
    );
    assert_eq!(deck_build_files(None, Some("b.dck".to_string())), (None, "b.dck".to_string()));
    assert_eq!(deck_build_files(None, None), (None, "output.dck".to_string()));
}

#[test]
fn year_filter_report() {
    assert_eq!(year_filter_line(Some(1993), None, 31000, 1200), "Year filter (1993-any): 31000 -> 1200 cards");
    assert_eq!(year_filter_line(None, Some(2003), 5, 5), "Year filter (any-2003): 5 -> 5 cards");
}
