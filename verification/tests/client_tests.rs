use mtg_engine::choice_entry::{ChoiceEntry, ChoicePayload};
use mtg_engine::client::{
    deck_to_submission, state_sync_entries_equivalent, ClientConfig, LocalChoiceInfo, NetworkMessage, ReaderStep,
    SharedNetworkState, StateSyncEntry, SyncFault,
};
use mtg_engine::game_types::{CardId, PlayerId};
use mtg_engine::protocol::{
    BufferedFact, CardReveal, ChoiceType, DeckEntry, DeckList, GameEndReason, RevealReason, ServerMessage,
};

fn card_reveal(n: u32, name: &str) -> CardReveal {
    CardReveal { card_id: CardId::new(n), name: name.to_string(), card_def: None }
}

fn reveal_entry(n: u32) -> StateSyncEntry {
    StateSyncEntry::RevealCard { owner: PlayerId::new(0), card: Box::new(card_reveal(n, "Card")), reason: RevealReason::Draw }
}

fn reorder_entry(player: u32, order: &[u32]) -> StateSyncEntry {
    StateSyncEntry::LibraryReorder {
        player: PlayerId::new(player),
        new_order: order.iter().map(|&n| CardId::new(n)).collect(),
    }
}

fn choice_entry(seq: u32, ac: u64, desc: &str) -> ChoiceEntry {
    ChoiceEntry {
        choice_seq: seq,
        action_count: ac,
        description: desc.to_string(),
        payload: ChoicePayload {
            choice_indices: vec![seq as usize],
            spell_ability: None,
            library_search_result: None,
            target_card_ids: None,
        },
    }
}

fn choice_fact(seq: u32, desc: &str) -> BufferedFact {
    BufferedFact::Choice {
        choice_seq: seq,
        choice_type: ChoiceType::Discard { count: 1 },
        description: desc.to_string(),
        payload: ChoicePayload {
            choice_indices: vec![0],
            spell_ability: None,
            library_search_result: None,
            target_card_ids: None,
        },
    }
}

#[test]
fn test_client_config() {
    let config = ClientConfig::new(
        "localhost:17771".to_string(),
        "secret".to_string(),
        Some("Alice".to_string()),
        "deck.dck".to_string(),
    );

    assert_eq!(config.server, "localhost:17771");
    assert_eq!(config.password, "secret");
    assert_eq!(config.player_name, Some("Alice".to_string()));
    assert_eq!(config.deck_path, "deck.dck");
    assert_eq!(config.cardsfolder, "cardsfolder");
    assert!(!config.accept_invalid_certs);
}

#[test]
fn test_deck_to_submission() {
    let deck = DeckList {
        main_deck: vec![
            DeckEntry { card_name: "Lightning Bolt".to_string(), count: 4 },
            DeckEntry { card_name: "Mountain".to_string(), count: 20 },
        ],
        sideboard: vec![DeckEntry { card_name: "Pyroclasm".to_string(), count: 2 }],
        commanders: Vec::new(),
    };

    let submission = deck_to_submission(&deck);
    assert_eq!(submission.main_deck_size(), 24);
    assert_eq!(submission.sideboard_size(), 2);
    assert_eq!(submission.main_deck[0], ("Lightning Bolt".to_string(), 4));
    assert_eq!(submission.sideboard[0], ("Pyroclasm".to_string(), 2));
}

#[test]
fn server_messages_for_the_game_loop() {
    let ended = ServerMessage::GameEnded {
        winner: Some(PlayerId::new(1)),
        reason: GameEndReason::Draw,
        final_state_hash: 5,
        action_count: 99,
    };
    match NetworkMessage::from_server_message(ended) {
        Some(NetworkMessage::GameEnded { winner, action_count }) => {
            assert_eq!(winner, Some(PlayerId::new(1)));
            assert_eq!(action_count, 99);
        }
        other => panic!("unexpected {other:?}"),
    }
    let request = ServerMessage::ChoiceRequest {
        choice_seq: 3,
        for_player: PlayerId::new(0),
        choice_type: ChoiceType::LibrarySearchByName {
            unique_names: vec!["Forest".to_string()],
            name_counts: vec![2],
            filter_description: "a land".to_string(),
        },
        options: vec![],
        state_hash: 0,
        action_count: 12,
        timestamp_ms: 0,
        context: None,
        debug_info: None,
        abilities: None,
        buffer: vec![],
    };
    match NetworkMessage::from_server_message(request) {
        Some(NetworkMessage::ChoiceRequest {
            action_count, choice_seq, library_search_names, library_search_counts, ..
        }) => {
            assert_eq!(action_count, 12);
            assert_eq!(choice_seq, 3);
            assert_eq!(library_search_names, Some(vec!["Forest".to_string()]));
            assert_eq!(library_search_counts, Some(vec![2]));
        }
        other => panic!("unexpected {other:?}"),
    }
    assert!(NetworkMessage::from_server_message(ServerMessage::WaitingForOpponent).is_none());
    assert!(NetworkMessage::from_server_message(ServerMessage::Pong { timestamp_ms: 1 }).is_none());
}

#[test]
fn state_sync_deltas_dedup_conflict_and_loss() {
    let mut s = SharedNetworkState::new();
    assert_eq!(s.push_state_sync_at(5, reveal_entry(1)), Ok(true));
    // The same delta again is a re-send.
    assert_eq!(s.push_state_sync_at(5, reveal_entry(1)), Ok(false));
    // A different delta at the same position is a desync.
    assert_eq!(s.push_state_sync_at(5, reveal_entry(2)), Err(SyncFault::ConflictingDelta { action_count: 5 }));
    assert_eq!(s.push_state_sync_at(3, reorder_entry(0, &[4, 5])), Ok(true));
    assert!(state_sync_entries_equivalent(s.state_sync_entry(3).unwrap(), &reorder_entry(0, &[4, 5])));
    assert!(!state_sync_entries_equivalent(&reorder_entry(0, &[4, 5]), &reorder_entry(0, &[5, 4])));
    // Apply up to position 10: both cursors move to the frontier, 5.
    s.note_received_choice_ac(10);
    let w = s.state_sync_window(10);
    assert_eq!(w.reorder_keys, vec![3]);
    assert_eq!(w.reveal_keys, vec![5]);
    // A new delta behind its cursor came too late.
    assert_eq!(
        s.push_state_sync_at(4, reveal_entry(9)),
        Err(SyncFault::LostDelta { action_count: 4, cursor: 5 })
    );
    assert_eq!(
        s.push_state_sync_at(2, reorder_entry(1, &[1])),
        Err(SyncFault::LostDelta { action_count: 2, cursor: 5 })
    );
}

#[test]
fn windows_apply_reorders_by_position_and_reveals_ahead() {
    let mut s = SharedNetworkState::new();
    s.add_initial_library_order(PlayerId::new(1), vec![CardId::new(9)]);
    s.add_initial_library_order(PlayerId::new(0), vec![CardId::new(7), CardId::new(8)]);
    s.add_initial_library_order(PlayerId::new(1), vec![CardId::new(6)]);
    for (ac, e) in [(2, reveal_entry(1)), (4, reorder_entry(0, &[7])), (6, reveal_entry(2)), (8, reorder_entry(1, &[6]))] {
        assert_eq!(s.push_state_sync_at(ac, e), Ok(true));
    }
    s.note_received_choice_ac(6);
    let w = s.state_sync_window(5);
    // Game-start orders first, by player, the later order replacing the earlier.
    assert_eq!(
        w.initial_orders,
        vec![(PlayerId::new(0), vec![CardId::new(7), CardId::new(8)]), (PlayerId::new(1), vec![CardId::new(6)])]
    );
    assert_eq!(w.reorder_keys, vec![4]);
    assert_eq!(w.reveal_keys, vec![2, 6]);
    // Nothing is handed out twice.
    let w = s.state_sync_window(8);
    assert!(w.initial_orders.is_empty());
    assert_eq!(w.reorder_keys, vec![8]);
    assert!(w.reveal_keys.is_empty());
    // A rewind hands everything out again.
    s.reset_state_sync_cursor();
    let w = s.state_sync_window(8);
    assert_eq!(w.initial_orders.len(), 2);
    assert_eq!(w.reorder_keys, vec![4, 8]);
    assert_eq!(w.reveal_keys, vec![2, 6]);
}

#[test]
fn frontier_wait_outcomes() {
    let mut s = SharedNetworkState::new();
    assert_eq!(s.state_sync_frontier_reached(0), Some(true));
    assert_eq!(s.state_sync_frontier_reached(1), None);
    s.push_state_sync_at(3, reveal_entry(1)).unwrap();
    assert_eq!(s.state_sync_frontier_reached(3), Some(true));
    assert_eq!(s.state_sync_frontier_reached(4), None);
    s.signal_exit();
    assert!(s.should_exit());
    assert_eq!(s.state_sync_frontier_reached(4), Some(false));
}

#[test]
fn opponent_choices_are_handed_out_once_in_order_and_replayed() {
    let mut s = SharedNetworkState::new();
    assert_eq!(s.push_opponent_choice(choice_entry(1, 10, "a")), Ok(true));
    assert_eq!(s.push_opponent_choice(choice_entry(2, 10, "b")), Ok(true));
    assert_eq!(s.push_opponent_choice(choice_entry(2, 10, "b")), Ok(false));
    assert_eq!(s.push_opponent_choice(choice_entry(4, 12, "d")), Ok(true));
    assert_eq!(s.push_opponent_choice(choice_entry(3, 11, "c")), Err(SyncFault::OutOfOrderChoice { choice_seq: 3 }));
    let mut seen = Vec::new();
    while let Some(k) = s.next_opponent_choice() {
        seen.push(s.opponent_choice(k).unwrap().description.clone());
    }
    assert_eq!(seen, vec!["a", "b", "d"]);
    s.reset_opponent_choice_cursor();
    assert_eq!(s.next_opponent_choice(), Some(1));
}

#[test]
fn choice_buffer_routes_reveals_before_choices() {
    let mut s = SharedNetworkState::new();
    let buffer = vec![
        (0, BufferedFact::LibraryReorder { player: PlayerId::new(1), new_order: vec![CardId::new(3)] }),
        (4, BufferedFact::Reveal { owner: PlayerId::new(1), card: card_reveal(11, "Bear"), reason: RevealReason::Played }),
        (5, choice_fact(1, "cast Bear")),
        (6, BufferedFact::SearchCandidates { searcher: PlayerId::new(1), cards: vec![card_reveal(12, "Forest")] }),
        (7, BufferedFact::LibraryReorder { player: PlayerId::new(0), new_order: vec![CardId::new(1), CardId::new(2)] }),
        (8, choice_fact(2, "pass")),
    ];
    assert_eq!(s.apply_choice_buffer(buffer), Ok(()));
    assert!(s.state_sync_entry(4).is_some());
    assert!(s.state_sync_entry(6).is_some());
    assert!(matches!(s.state_sync_entry(7), Some(StateSyncEntry::LibraryReorder { .. })));
    assert!(s.state_sync_entry(0).is_none());
    let first = s.opponent_choice(1).unwrap();
    assert_eq!(first.action_count, 5);
    assert_eq!(first.description, "cast Bear");
    assert_eq!(s.opponent_choice(2).unwrap().action_count, 8);
    // The game-start order went to the initial orders.
    s.note_received_choice_ac(8);
    let w = s.state_sync_window(8);
    assert_eq!(w.initial_orders, vec![(PlayerId::new(1), vec![CardId::new(3)])]);
    assert_eq!(w.reveal_keys, vec![4, 6]);
    assert_eq!(w.reorder_keys, vec![7]);
    // The same buffer again is all re-sends.
    let again = vec![
        (4, BufferedFact::Reveal { owner: PlayerId::new(1), card: card_reveal(11, "Bear"), reason: RevealReason::Played }),
        (5, choice_fact(1, "cast Bear")),
    ];
    assert_eq!(s.apply_choice_buffer(again), Ok(()));
    // A conflicting fact is a fault.
    let bad = vec![(4, BufferedFact::Reveal { owner: PlayerId::new(0), card: card_reveal(11, "Bear"), reason: RevealReason::Played })];
    assert_eq!(s.apply_choice_buffer(bad), Err(SyncFault::ConflictingDelta { action_count: 4 }));
}

#[test]
fn acknowledgements_and_local_choices() {
    let mut s = SharedNetworkState::new();
    assert_eq!(s.choice_accepted_for(1), None);
    assert_eq!(s.push_choice_accepted(1, None), Ok(()));
    assert_eq!(s.push_choice_accepted(2, Some(CardId::new(40))), Ok(()));
    assert_eq!(s.push_choice_accepted(2, None), Err(SyncFault::OutOfOrderChoice { choice_seq: 2 }));
    assert_eq!(s.choice_accepted_for(2), Some(Some(CardId::new(40))));
    assert_eq!(s.choice_accepted_for(1), Some(None));
    s.reset_choice_accepted_cursor();

    assert!(!s.local_choice_ready());
    s.push_local_choice(LocalChoiceInfo::Exit { winner: None });
    assert!(s.local_choice_ready());
    assert!(matches!(s.take_local_choice(), Some(LocalChoiceInfo::Exit { winner: None })));
    s.signal_exit();
    assert!(s.local_choice_ready());
    assert!(s.take_local_choice().is_none());

    s.set_server_winner(Some(PlayerId::new(0)));
    s.set_server_winner(None);
    assert_eq!(s.server_winner(), Some(Some(PlayerId::new(0))));
    s.update_server_action_count(33);
    assert_eq!(s.server_action_count(), 33);
    assert!(!s.buffer_is_authoritative());
    s.set_buffer_authoritative();
    assert!(s.buffer_is_authoritative());
    s.note_received_choice_ac(9);
    s.note_received_choice_ac(4);
    assert_eq!(s.max_received_choice_ac(), 9);
}

#[test]
fn reader_logs_eager_facts_until_the_first_choice_request() {
    let mut s = SharedNetworkState::new();
    let eager = NetworkMessage::CardRevealed {
        owner: PlayerId::new(1),
        card: card_reveal(5, "Elf"),
        reason: RevealReason::Draw,
        action_count: Some(2),
    };
    assert_eq!(s.apply_network_message(eager), Ok(ReaderStep::Continue));
    assert!(s.state_sync_entry(2).is_some());
    // A reveal without a position is skipped.
    let unplaced = NetworkMessage::CardRevealed {
        owner: PlayerId::new(1),
        card: card_reveal(6, "Elf"),
        reason: RevealReason::Draw,
        action_count: None,
    };
    assert_eq!(s.apply_network_message(unplaced), Ok(ReaderStep::Continue));
    let order = NetworkMessage::LibraryReordered { player: PlayerId::new(0), new_order: vec![CardId::new(1)], action_count: 0 };
    assert_eq!(s.apply_network_message(order), Ok(ReaderStep::Continue));
    let opp = NetworkMessage::OpponentChoice {
        action_count: 3,
        choice_seq: 1,
        description: "pass".to_string(),
        payload: ChoicePayload { choice_indices: vec![0], spell_ability: None, library_search_result: None, target_card_ids: None },
    };
    assert_eq!(s.apply_network_message(opp), Ok(ReaderStep::Continue));
    assert_eq!(s.server_action_count(), 3);
    assert_eq!(s.max_received_choice_ac(), 3);
    assert_eq!(s.opponent_choice(1).unwrap().description, "pass");

    let request = NetworkMessage::ChoiceRequest {
        action_count: 9,
        choice_seq: 4,
        abilities: None,
        library_search_names: None,
        library_search_counts: None,
        buffer: vec![(7, choice_fact(2, "attack"))],
    };
    assert_eq!(s.apply_network_message(request), Ok(ReaderStep::Continue));
    assert!(s.buffer_is_authoritative());
    assert_eq!(s.server_action_count(), 9);
    assert_eq!(s.max_received_choice_ac(), 9);
    assert_eq!(s.opponent_choice(2).unwrap().action_count, 7);
    match s.take_local_choice() {
        Some(LocalChoiceInfo::Request { choice_seq, action_count, .. }) => {
            assert_eq!(choice_seq, 4);
            assert_eq!(action_count, 9);
        }
        other => panic!("unexpected {other:?}"),
    }
    // From now on eager facts are ignored.
    let late = NetworkMessage::CardRevealed {
        owner: PlayerId::new(1),
        card: card_reveal(8, "Elk"),
        reason: RevealReason::Draw,
        action_count: Some(10),
    };
    assert_eq!(s.apply_network_message(late), Ok(ReaderStep::Continue));
    assert!(s.state_sync_entry(10).is_none());

    let ack = NetworkMessage::ChoiceAccepted { choice_seq: 4, action_count: 10, library_search_result: None };
    assert_eq!(s.apply_network_message(ack), Ok(ReaderStep::Continue));
    assert_eq!(s.choice_accepted_for(4), Some(None));

    let warn = NetworkMessage::Error { message: "slow".to_string(), fatal: false };
    assert_eq!(s.apply_network_message(warn), Ok(ReaderStep::Continue));
    assert!(!s.should_exit());
    let end = NetworkMessage::GameEnded { winner: Some(PlayerId::new(0)), action_count: 20 };
    assert_eq!(s.apply_network_message(end), Ok(ReaderStep::Stop));
    assert!(s.should_exit());
    assert_eq!(s.server_winner(), Some(Some(PlayerId::new(0))));
    assert!(matches!(s.take_local_choice(), Some(LocalChoiceInfo::Exit { winner: Some(_) })));
}

#[test]
fn reader_stops_on_fatal_errors_and_lost_connections() {
    let mut s = SharedNetworkState::new();
    let fatal = NetworkMessage::Error { message: "boom".to_string(), fatal: true };
    assert_eq!(s.apply_network_message(fatal), Ok(ReaderStep::Stop));
    assert!(s.should_exit());
    assert!(matches!(s.take_local_choice(), Some(LocalChoiceInfo::Error { .. })));

    let mut s = SharedNetworkState::new();
    s.connection_closed();
    assert!(s.should_exit());
    assert!(matches!(s.take_local_choice(), Some(LocalChoiceInfo::Exit { winner: None })));
    let mut s = SharedNetworkState::new();
    s.connection_failed("reset".to_string());
    assert!(matches!(s.take_local_choice(), Some(LocalChoiceInfo::Error { message }) if message == "reset"));

    // A conflicting eager fact is a desync.
    let mut s = SharedNetworkState::new();
    let a = NetworkMessage::SearchCandidates { searcher: PlayerId::new(0), cards: vec![card_reveal(1, "A")], action_count: 4 };
    let b = NetworkMessage::SearchCandidates { searcher: PlayerId::new(0), cards: vec![card_reveal(2, "B")], action_count: 4 };
    assert_eq!(s.apply_network_message(a), Ok(ReaderStep::Continue));
    assert_eq!(s.apply_network_message(b), Err(SyncFault::ConflictingDelta { action_count: 4 }));
}

#[test]
fn choice_buffer_faults_only_where_owed() {
    let mut s = SharedNetworkState::new();
    // A fresh reveal is logged; nothing conflicts.
    let fresh = vec![
        (3, BufferedFact::Reveal { owner: PlayerId::new(0), card: card_reveal(10, "Elf"), reason: RevealReason::Draw }),
        (9, choice_fact(4, "attack")),
        (10, choice_fact(5, "pass")),
    ];
    assert_eq!(s.apply_choice_buffer(fresh), Ok(()));
    assert!(s.state_sync_entry(3).is_some());
    assert_eq!(s.opponent_choice(4).unwrap().action_count, 9);
    assert_eq!(s.opponent_choice(5).unwrap().action_count, 10);
    // A choice numbered below the last logged one is out of order; the
    // choices before it in the buffer are logged.
    let late = vec![(11, choice_fact(6, "block")), (12, choice_fact(2, "stale"))];
    assert_eq!(s.apply_choice_buffer(late), Err(SyncFault::OutOfOrderChoice { choice_seq: 2 }));
    assert_eq!(s.opponent_choice(6).unwrap().action_count, 11);
    assert!(s.opponent_choice(2).is_none());
    // A state-sync fault comes first: no choice of that buffer is logged.
    let conflict = vec![
        (13, choice_fact(7, "cast")),
        (3, BufferedFact::Reveal { owner: PlayerId::new(1), card: card_reveal(10, "Elf"), reason: RevealReason::Draw }),
    ];
    assert_eq!(s.apply_choice_buffer(conflict), Err(SyncFault::ConflictingDelta { action_count: 3 }));
    assert!(s.opponent_choice(7).is_none());
}
