use mtg_engine::action_log::ActionLog;

// A trivial payload type to exercise the generic log.
#[derive(Debug, Clone, PartialEq, Eq)]
struct Payload(u32);

#[derive(Debug, Clone, PartialEq, Eq)]
struct StateSync {
    player: u32,
    order: Vec<u32>,
}

#[test]
fn new_log_is_empty() {
    let log: ActionLog<Payload> = ActionLog::new();
    assert!(log.is_empty());
    assert_eq!(log.len(), 0);
    assert_eq!(log.frontier(), None);
}

#[test]
fn push_extends_frontier() {
    let mut log = ActionLog::new();
    log.push(3, Payload(30));
    assert_eq!(log.frontier(), Some(3));
    log.push(5, Payload(50));
    assert_eq!(log.frontier(), Some(5));
    log.push(8, Payload(80));
    assert_eq!(log.frontier(), Some(8));
    assert_eq!(log.len(), 3);
}

#[test]
fn get_returns_matching_entry() {
    let mut log = ActionLog::new();
    log.push(2, Payload(20));
    log.push(4, Payload(40));
    log.push(7, Payload(70));

    assert_eq!(log.get(2), Some(&Payload(20)));
    assert_eq!(log.get(4), Some(&Payload(40)));
    assert_eq!(log.get(7), Some(&Payload(70)));

    // Gaps and past-frontier reads return None.
    assert_eq!(log.get(0), None);
    assert_eq!(log.get(3), None);
    assert_eq!(log.get(99), None);
}

#[test]
fn reads_are_non_destructive() {
    let mut log = ActionLog::new();
    log.push(10, Payload(100));

    let first = log.get(10).cloned().unwrap();
    let second = log.get(10).cloned().unwrap();
    let third = log.get(10).cloned().unwrap();

    assert_eq!(first, Payload(100));
    assert_eq!(second, Payload(100));
    assert_eq!(third, Payload(100));
    assert_eq!(log.len(), 1, "reads must not remove entries");
    assert_eq!(log.frontier(), Some(10));
}

#[test]
fn frontier_signal_is_the_only_wait_signal() {
    let mut log: ActionLog<Payload> = ActionLog::new();
    assert_eq!(log.frontier(), None);
    assert_eq!(log.get(0), None);

    log.push(5, Payload(50));

    assert!(log.get(5).is_some());
    assert!(log.frontier().unwrap() >= 5);

    assert!(log.get(6).is_none());
    assert!(log.frontier().unwrap() < 6);
}

#[test]
fn insert_sorted_tolerates_out_of_order_arrival() {
    let mut log = ActionLog::new();
    log.insert_sorted(380, Payload(380));
    log.insert_sorted(376, Payload(376));
    log.insert_sorted(8, Payload(8));
    log.insert_sorted(400, Payload(400));
    let acs: Vec<u64> = log.iter().iter().map(|(ac, _)| *ac).collect();
    assert_eq!(acs, vec![8, 376, 380, 400]);
    assert_eq!(log.frontier(), Some(400));
    assert_eq!(log.get(376), Some(&Payload(376)));
    assert_eq!(log.get(380), Some(&Payload(380)));
}

#[test]
fn rewind_then_replay_returns_identical_entries() {
    let mut log = ActionLog::new();
    log.push(3, Payload(3));
    log.push(6, Payload(6));
    log.push(9, Payload(9));
    log.push(12, Payload(12));

    let forward: Vec<Payload> = [3u64, 6, 9, 12].iter().map(|&ac| log.get(ac).cloned().unwrap()).collect();
    let replay: Vec<Payload> = [3u64, 6, 9, 12].iter().map(|&ac| log.get(ac).cloned().unwrap()).collect();
    assert_eq!(forward, replay);
    assert_eq!(log.len(), 4);
}

#[test]
fn iter_yields_entries_in_action_count_order() {
    let mut log = ActionLog::new();
    log.push(1, Payload(1));
    log.push(4, Payload(4));
    log.push(10, Payload(10));

    let acs: Vec<u64> = log.iter().iter().map(|(ac, _)| *ac).collect();
    assert_eq!(acs, vec![1, 4, 10]);
}

#[test]
fn frontier_unchanged_by_failed_lookups() {
    let mut log = ActionLog::new();
    log.push(2, Payload(20));
    let f_before = log.frontier();
    let _ = log.get(100);
    let _ = log.get(0);
    let _ = log.get(2);
    assert_eq!(log.frontier(), f_before);
}

#[test]
fn sparse_action_counts_resolve_correctly() {
    let mut log = ActionLog::new();
    log.push(1, Payload(1));
    log.push(1000, Payload(2));
    log.push(1_000_000, Payload(3));

    assert_eq!(log.get(1), Some(&Payload(1)));
    assert_eq!(log.get(1000), Some(&Payload(2)));
    assert_eq!(log.get(1_000_000), Some(&Payload(3)));
    assert_eq!(log.get(500), None);
    assert_eq!(log.get(999_999), None);
    assert_eq!(log.frontier(), Some(1_000_000));
}

#[test]
fn generic_over_arbitrary_payload_types() {
    let mut strings: ActionLog<String> = ActionLog::new();
    strings.push(1, "first".to_string());
    strings.push(2, "second".to_string());
    assert_eq!(strings.get(1).map(String::as_str), Some("first"));

    let mut syncs: ActionLog<StateSync> = ActionLog::new();
    syncs.push(10, StateSync { player: 0, order: vec![1, 2, 3] });
    assert_eq!(syncs.get(10).unwrap().order, vec![1, 2, 3]);
    assert_eq!(syncs.get(10).unwrap().player, 0);
}

#[test]
fn default_log_is_empty() {
    let log: ActionLog<u8> = ActionLog::default();
    assert!(log.is_empty());
    assert_eq!(log.frontier(), None);
}

#[test]
fn reads_past_the_frontier_are_empty_on_a_concrete_log() {
    let mut log = ActionLog::new();
    log.insert_sorted(40, 'b');
    log.insert_sorted(20, 'a');
    let f = log.frontier().unwrap();
    assert_eq!(f, 40);
    for k in (f + 1)..(f + 50) {
        assert_eq!(log.get(k), None);
    }
    // The frontier is the largest key.
    assert!(log.iter().iter().all(|(k, _)| *k <= f));
}

#[test]
fn an_out_of_order_insert_adds_exactly_one_entry() {
    let mut log: ActionLog<Payload> = ActionLog::new();
    log.push(2, Payload(2));
    log.push(8, Payload(8));
    log.insert_sorted(5, Payload(5));
    assert_eq!(log.len(), 3);
    assert_eq!(log.frontier(), Some(8));
    let keys: Vec<u64> = log.iter().iter().map(|e| e.0).collect();
    assert_eq!(keys, vec![2, 5, 8]);
    log.insert_sorted(9, Payload(9));
    assert_eq!(log.frontier(), Some(9));
}
