use mtg_engine::game_types::PlayerId;
use mtg_engine::sync_debug::{DebugSyncInfo, SyncErrorDetails};

fn sample() -> DebugSyncInfo {
    let mut d = DebugSyncInfo::new();
    d.turn = 3;
    d.phase = "Main1".to_string();
    d.active_player = PlayerId::new(1);
    d.priority_player = Some(PlayerId::new(0));
    d.life_totals = [20, -2];
    d.hand_sizes = [7, 6];
    d.library_sizes = [33, 34];
    d.battlefield_count = 4;
    d.stack_size = 1;
    d.graveyard_sizes = [0, 2];
    d.last_actions = vec!["draw".to_string(), "play Forest".to_string()];
    d
}

#[test]
fn new_snapshot_is_blank() {
    let d = DebugSyncInfo::new();
    assert_eq!(d.turn, 0);
    assert!(d.phase.is_empty());
    assert_eq!(d.active_player, PlayerId::new(0));
    assert!(d.priority_player.is_none());
    assert!(d.last_actions.is_empty());
    assert!(d.rng_hash.is_none());
    assert!(DebugSyncInfo::default().diff(&d).is_empty());
}

#[test]
fn summary_is_one_line() {
    assert_eq!(sample().summary(), "T3:Main1 active=P1 life=[20,-2] hands=[7,6] libs=[33,34] bf=4 stack=1");
}

#[test]
fn detailed_lists_every_field() {
    assert_eq!(
        sample().detailed(),
        "  Turn: 3, Phase: Main1\n  Active player: P1\n  Priority: P0\n  Life: P1=20, P2=-2\n  Hands: P1=7, P2=6\n  \
         Libraries: P1=33, P2=34\n  Graveyards: P1=0, P2=2\n  Battlefield: 4 cards, Stack: 1 items\n  Last actions:\n    \
         [1] draw\n    [2] play Forest\n"
    );
    let blank = DebugSyncInfo::new().detailed();
    assert!(!blank.contains("Priority"));
    assert!(!blank.contains("Last actions"));
}

#[test]
fn diff_names_each_differing_field_in_order() {
    let a = sample();
    let mut b = sample();
    assert!(a.diff(&b).is_empty());
    b.turn = 4;
    b.life_totals = [20, -3];
    b.rng_hash = Some(255);
    b.stack_size = 0;
    assert_eq!(
        a.diff(&b),
        vec![
            "turn: 3 vs 4".to_string(),
            "life_totals: [20, -2] vs [20, -3]".to_string(),
            "stack_size: 1 vs 0".to_string(),
            "rng_hash: None vs Some(255)".to_string(),
        ]
    );
}

#[test]
fn hand_ids_compared_only_when_both_sides_sent_them() {
    let mut a = sample();
    let mut b = sample();
    a.requesting_player_hand_ids = vec![1, 2];
    assert!(a.diff(&b).is_empty());
    b.requesting_player_hand_ids = vec![1, 3];
    assert_eq!(a.diff(&b), vec!["HAND DESYNC: server hand_ids=[1, 2] vs client hand_ids=[1, 3]".to_string()]);
}

#[test]
fn sync_error_report() {
    let local = sample();
    let mut remote = sample();
    remote.phase = "Combat".to_string();
    let e = SyncErrorDetails {
        choice_seq: 9,
        expected_action_count: 40,
        actual_action_count: 41,
        expected_hash: 0xabc,
        actual_hash: u64::MAX,
        local_debug_info: local.clone(),
        remote_debug_info: Some(remote.clone()),
        description: "hash differs".to_string(),
    };
    let expected = format!(
        "=== NETWORK SYNC ERROR ===\nDetected at: choice_seq=9, action_count=41 (expected 40)\n\
         Hash mismatch: actual=ffffffffffffffff expected=0000000000000abc\n\nhash differs\n\nLocal state:\n{}\
         \nRemote state:\n{}\nDifferences detected:\n  - phase: Main1 vs Combat\n==========================\n",
        local.detailed(),
        remote.detailed()
    );
    assert_eq!(e.format_report(), expected);
    let no_remote = SyncErrorDetails { remote_debug_info: None, ..e };
    assert!(!no_remote.format_report().contains("Remote state"));
}
