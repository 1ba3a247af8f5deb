use mtg_engine::action_log::ActionLog;
use mtg_engine::choice_entry::{ChoiceEntry, ChoicePayload};

fn mk_entry(seq: u32, desc: &str) -> ChoiceEntry {
    mk_entry_ac(seq, 0, desc)
}

fn mk_entry_ac(seq: u32, action_count: u64, desc: &str) -> ChoiceEntry {
    ChoiceEntry {
        choice_seq: seq,
        action_count,
        description: desc.into(),
        payload: ChoicePayload {
            choice_indices: vec![seq as usize],
            spell_ability: None,
            library_search_result: None,
            target_card_ids: None,
        },
    }
}

#[test]
fn choice_seq_key_tolerates_duplicate_action_counts() {
    let mut log: ActionLog<ChoiceEntry> = ActionLog::new();
    log.push(181, mk_entry_ac(181, 978, "lethal damage assignment"));
    log.push(182, mk_entry_ac(182, 978, "remaining damage assignment"));

    assert_eq!(log.len(), 2);
    assert_eq!(log.frontier(), Some(182));
    assert_eq!(log.get(181).unwrap().action_count, 978);
    assert_eq!(log.get(182).unwrap().action_count, 978);
    assert_eq!(log.get(181).unwrap().description, "lethal damage assignment");
}

#[test]
fn choice_entries_round_trip_through_action_log() {
    let mut log: ActionLog<ChoiceEntry> = ActionLog::new();
    log.push(1, mk_entry(10, "pass"));
    log.push(5, mk_entry(11, "play Forest"));
    log.push(9, mk_entry(12, "attack with 2 creatures"));

    assert_eq!(log.len(), 3);
    assert_eq!(log.frontier(), Some(9));
    match log.get(1) {
        Some(e) => {
            assert_eq!(e.choice_seq, 10);
            assert_eq!(e.payload.choice_indices, vec![10]);
            assert_eq!(e.description, "pass");
        }
        None => panic!("expected entry at ac=1"),
    }
    let first = log.get(5).cloned().unwrap();
    let second = log.get(5).cloned().unwrap();
    assert_eq!(first.choice_seq, second.choice_seq);
    assert_eq!(log.len(), 3);
}

#[test]
fn replay_re_reads_entries_deterministically() {
    let mut log: ActionLog<ChoiceEntry> = ActionLog::new();
    log.push(2, mk_entry(1, "a"));
    log.push(4, mk_entry(2, "b"));
    log.push(6, mk_entry(3, "c"));

    let forward: Vec<u32> = [2u64, 4, 6].iter().map(|&ac| log.get(ac).map(|e| e.choice_seq).unwrap()).collect();
    let replay: Vec<u32> = [2u64, 4, 6].iter().map(|&ac| log.get(ac).map(|e| e.choice_seq).unwrap()).collect();
    assert_eq!(forward, replay);
    assert_eq!(log.len(), 3);
}
