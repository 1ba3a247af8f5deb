use mtg_engine::lobby::{
    build_server_full_message, hash_game_password, ActiveGame, GameId, LobbyState, PendingGame, WaitingPlayerState,
    WaitingRoomSnapshot,
};
use mtg_engine::protocol::{DeckSubmission, ListGamesQuery, ListPlayersQuery, ReconnectToken, ServerMessage};
use std::time::Instant;

fn pending(id: GameId, name: &str, created_ms: u64, has_pw: bool) -> PendingGame {
    PendingGame {
        id,
        name: name.to_string(),
        creator_name: format!("Creator{id}"),
        has_password: has_pw,
        password_hash: if has_pw { Some(hash_game_password("secret")) } else { None },
        created_at: Instant::now(),
        created_at_ms: created_ms,
        creator_state: WaitingPlayerState::default(),
        joiner_state: None,
        joiner_name: None,
        rendezvous: false,
    }
}

fn active(id: GameId, name: &str, p1: Option<ReconnectToken>, p2: Option<ReconnectToken>) -> ActiveGame {
    ActiveGame {
        id,
        name: name.to_string(),
        p1_name: "alice".to_string(),
        p2_name: "bob".to_string(),
        started_at: Instant::now(),
        p1_reconnect_token: p1,
        p2_reconnect_token: p2,
    }
}

fn lobby_with_players(names: &[&str]) -> LobbyState {
    let mut s = LobbyState::new();
    for (i, name) in names.iter().enumerate() {
        s.try_register_name(name, i as u64 + 1).unwrap_or_else(|e| panic!("register {name} failed: {e}"));
    }
    s
}

#[test]
fn next_game_id_is_monotonic_starting_at_one() {
    let mut s = LobbyState::new();
    assert_eq!(s.next_game_id(), 1);
    assert_eq!(s.next_game_id(), 2);
    assert_eq!(s.next_game_id(), 3);
}

#[test]
fn next_connection_id_is_monotonic_starting_at_one() {
    let mut s = LobbyState::new();
    assert_eq!(s.next_connection_id(), 1);
    assert_eq!(s.next_connection_id(), 2);
    assert_eq!(s.next_connection_id(), 3);
}

#[test]
fn register_name_succeeds_for_unique_name() {
    let mut s = LobbyState::new();
    let conn_id = s.next_connection_id();
    assert!(s.try_register_name("Alice", conn_id).is_ok());
    assert!(s.registered_names.contains_key("alice"));
}

#[test]
fn register_name_rejects_duplicate_case_insensitively() {
    let mut s = LobbyState::new();
    let conn1 = s.next_connection_id();
    s.try_register_name("Alice", conn1).unwrap();
    let conn2 = s.next_connection_id();
    let err = s.try_register_name("ALICE", conn2).unwrap_err();
    assert!(err.contains("Alice"), "error should mention the existing holder: {err}");
}

#[test]
fn register_name_rejects_empty_name() {
    let mut s = LobbyState::new();
    let conn = s.next_connection_id();
    assert!(s.try_register_name("", conn).is_err());
}

#[test]
fn register_name_rejects_blank_name() {
    let mut s = LobbyState::new();
    let conn = s.next_connection_id();
    assert!(s.try_register_name("   ", conn).is_err());
}

#[test]
fn register_name_rejects_too_long_name() {
    let mut s = LobbyState::new();
    let conn = s.next_connection_id();
    let long_name = "A".repeat(33);
    let err = s.try_register_name(&long_name, conn).unwrap_err();
    assert!(err.contains("too long"), "error: {err}");
}

#[test]
fn register_name_rejects_non_printable_ascii() {
    let mut s = LobbyState::new();
    let conn = s.next_connection_id();
    assert!(s.try_register_name("Alice\tSmith", conn).is_err());
}

#[test]
fn register_name_error_messages() {
    let mut s = LobbyState::new();
    assert_eq!(s.try_register_name("", 1).unwrap_err(), "Name must not be empty");
    assert_eq!(s.try_register_name(&"A".repeat(33), 1).unwrap_err(), "Name too long (33 chars; max 32)");
    assert_eq!(
        s.try_register_name("Tab\there", 1).unwrap_err(),
        "Name must contain only printable ASCII characters"
    );
    assert_eq!(s.try_register_name("  ", 1).unwrap_err(), "Name must not be blank");
    s.try_register_name("Alice", 1).unwrap();
    assert_eq!(s.try_register_name("aLiCe", 2).unwrap_err(), "Name 'Alice' is already taken");
    // Exactly 32 bytes is allowed.
    assert!(s.try_register_name(&"b".repeat(32), 3).is_ok());
}

#[test]
fn release_name_frees_reservation() {
    let mut s = LobbyState::new();
    let conn = s.next_connection_id();
    s.try_register_name("Alice", conn).unwrap();
    s.release_name("Alice", conn);
    assert!(!s.registered_names.contains_key("alice"));
    let conn2 = s.next_connection_id();
    assert!(s.try_register_name("Alice", conn2).is_ok());
}

#[test]
fn release_name_is_noop_for_wrong_connection() {
    let mut s = LobbyState::new();
    let conn1 = s.next_connection_id();
    s.try_register_name("Alice", conn1).unwrap();
    let conn2 = s.next_connection_id();
    s.release_name("Alice", conn2);
    assert!(s.registered_names.contains_key("alice"), "name should still be reserved");
}

#[test]
fn release_after_register_restores_the_registry() {
    let mut s = lobby_with_players(&["Zed"]);
    s.try_register_name("Alice", 7).unwrap();
    s.release_name("ALICE", 7);
    assert_eq!(s.registered_names.len(), 1);
    assert!(s.registered_names.contains_key("zed"));
    assert!(!s.registered_names.contains_key("alice"));
}

#[test]
fn registered_name_for_returns_display_name() {
    let mut s = LobbyState::new();
    let conn = s.next_connection_id();
    s.try_register_name("MixedCase", conn).unwrap();
    assert_eq!(s.registered_name_for(conn), Some("MixedCase"));
    assert_eq!(s.registered_name_for(conn + 99), None);
}

#[test]
fn validate_reconnect_token_accepts_valid_p1_token() {
    let mut s = LobbyState::new();
    let token = ReconnectToken("abcd1234abcd1234abcd1234abcd1234".to_string());
    s.active_games.insert(1, active(1, "my-game", Some(token.clone()), None));
    assert_eq!(s.validate_reconnect_token("my-game", &token), Some((1, 0)));
    assert_eq!(s.validate_reconnect_token("MY-GAME", &token), Some((1, 0)));
}

#[test]
fn validate_reconnect_token_accepts_valid_p2_token() {
    let mut s = LobbyState::new();
    let p2_token = ReconnectToken("ff00ff00ff00ff00ff00ff00ff00ff00".to_string());
    s.active_games.insert(2, active(2, "other-game", None, Some(p2_token.clone())));
    assert_eq!(s.validate_reconnect_token("other-game", &p2_token), Some((2, 1)));
}

#[test]
fn validate_reconnect_token_rejects_wrong_token() {
    let mut s = LobbyState::new();
    let real = ReconnectToken("aaaa0000aaaa0000aaaa0000aaaa0000".to_string());
    let fake = ReconnectToken("bbbb1111bbbb1111bbbb1111bbbb1111".to_string());
    s.active_games.insert(3, active(3, "game3", Some(real), None));
    assert_eq!(s.validate_reconnect_token("game3", &fake), None);
}

#[test]
fn validate_reconnect_token_rejects_unknown_game() {
    let s = LobbyState::new();
    let token = ReconnectToken("aaaa0000aaaa0000aaaa0000aaaa0000".to_string());
    assert_eq!(s.validate_reconnect_token("no-such-game", &token), None);
}

#[test]
fn find_reconnect_token_by_seat() {
    let mut s = LobbyState::new();
    let t1 = ReconnectToken("11111111111111111111111111111111".to_string());
    let t2 = ReconnectToken("22222222222222222222222222222222".to_string());
    s.active_games.insert(4, active(4, "Seats", Some(t1.clone()), Some(t2.clone())));
    assert_eq!(s.find_reconnect_token("seats", 0), Some(&t1));
    assert_eq!(s.find_reconnect_token("SEATS", 1), Some(&t2));
    assert_eq!(s.find_reconnect_token("seats", 2), None);
    assert_eq!(s.find_reconnect_token("other", 0), None);
}

#[test]
fn waiting_player_state_default_is_not_ready() {
    let state = WaitingPlayerState::default();
    assert!(!state.ready);
    assert!(state.deck.is_none());
    let proto = state.to_protocol_state("Alice");
    assert_eq!(proto.name, "Alice");
    assert!(!proto.deck_selected);
    assert!(!proto.ready);
    assert!(proto.deck_summary.is_none());
}

#[test]
fn waiting_player_with_deck_reports_its_main_deck() {
    let state = WaitingPlayerState {
        deck: Some(DeckSubmission::new(vec![("Forest".to_string(), 20)], vec![("Fog".to_string(), 2)])),
        ready: true,
    };
    let proto = state.to_protocol_state("Bob");
    assert!(proto.deck_selected);
    assert!(proto.ready);
    assert_eq!(proto.deck_summary, Some(vec![("Forest".to_string(), 20)]));
}

#[test]
fn waiting_room_snapshot_to_server_message_without_joiner() {
    let snap = WaitingRoomSnapshot {
        creator_name: "Alice".to_string(),
        creator_state: WaitingPlayerState::default(),
        joiner_name: None,
        joiner_state: None,
        start_game: false,
    };
    let msg = snap.to_server_message();
    match msg {
        ServerMessage::WaitingRoomUpdate { creator, joiner } => {
            assert_eq!(creator.name, "Alice");
            assert!(joiner.is_none());
        }
        other => panic!("wrong variant: {other:?}"),
    }
}

#[test]
fn waiting_room_snapshot_to_server_message_with_joiner() {
    let snap = WaitingRoomSnapshot {
        creator_name: "Alice".to_string(),
        creator_state: WaitingPlayerState::default(),
        joiner_name: Some("Bob".to_string()),
        joiner_state: Some(WaitingPlayerState::default()),
        start_game: false,
    };
    let msg = snap.to_server_message();
    match msg {
        ServerMessage::WaitingRoomUpdate { creator: _, joiner } => {
            let j = joiner.expect("joiner should be present");
            assert_eq!(j.name, "Bob");
            assert!(!j.ready);
        }
        other => panic!("wrong variant: {other:?}"),
    }
}

#[test]
fn default_game_name_uses_next_id_without_consuming() {
    let mut s = LobbyState::new();
    assert_eq!(s.default_game_name(), "game-1");
    assert_eq!(s.next_game_id(), 1, "naming must not consume the id");
    assert_eq!(s.default_game_name(), "game-2");
}

#[test]
fn list_waiting_is_sorted_by_creation_time() {
    let mut s = LobbyState::new();
    s.waiting_games.insert("b".to_string(), pending(1, "b", 200, false));
    s.waiting_games.insert("a".to_string(), pending(2, "a", 100, true));
    s.waiting_games.insert("c".to_string(), pending(3, "c", 300, false));
    let list = s.list_waiting();
    assert_eq!(list.iter().map(|e| e.name.as_str()).collect::<Vec<_>>(), vec!["a", "b", "c"]);
    assert!(list[0].has_password);
    assert!(!list[1].has_password);
}

#[test]
fn list_waiting_paged_filters_case_insensitive_on_name_or_creator() {
    let mut s = LobbyState::new();
    s.waiting_games.insert("alpha-game".into(), pending(1, "alpha-game", 100, false));
    s.waiting_games.insert("BRAVO-game".into(), pending(2, "BRAVO-game", 200, false));
    s.waiting_games.insert("charlie-game".into(), pending(3, "charlie-game", 300, false));

    let q = ListGamesQuery { filter: Some("BRAVO".into()), limit: 0, offset: 0 };
    let (page, total) = s.list_waiting_paged(Some(&q));
    assert_eq!(total, 1);
    assert_eq!(page.len(), 1);
    assert_eq!(page[0].name, "BRAVO-game");

    let q = ListGamesQuery { filter: Some("creator2".into()), limit: 0, offset: 0 };
    let (page, total) = s.list_waiting_paged(Some(&q));
    assert_eq!(total, 1);
    assert_eq!(page[0].creator_name, "Creator2");

    let q = ListGamesQuery { filter: Some(String::new()), limit: 0, offset: 0 };
    let (_, total) = s.list_waiting_paged(Some(&q));
    assert_eq!(total, 3);
}

#[test]
fn list_waiting_paged_respects_limit_and_offset() {
    let mut s = LobbyState::new();
    for i in 0..5 {
        let name = format!("g{i}");
        s.waiting_games.insert(name.clone(), pending(i + 1, &name, 100 + i, false));
    }
    let q = ListGamesQuery { filter: None, limit: 2, offset: 1 };
    let (page, total) = s.list_waiting_paged(Some(&q));
    assert_eq!(total, 5);
    assert_eq!(page.len(), 2);
    assert_eq!(page[0].name, "g1");
    assert_eq!(page[1].name, "g2");
}

#[test]
fn list_waiting_paged_clamps_limit_to_max() {
    let mut s = LobbyState::new();
    s.waiting_games.insert("x".into(), pending(1, "x", 100, false));
    let q = ListGamesQuery { filter: None, limit: 9999, offset: 0 };
    let (page, total) = s.list_waiting_paged(Some(&q));
    assert_eq!(page.len(), 1);
    assert_eq!(total, 1);
}

#[test]
fn list_waiting_paged_clamp_cuts_long_listings() {
    let mut s = LobbyState::new();
    for i in 0..150u64 {
        let name = format!("g{i:03}");
        s.waiting_games.insert(name.clone(), pending(i + 1, &name, i, false));
    }
    let q = ListGamesQuery { filter: None, limit: 9999, offset: 0 };
    let (page, total) = s.list_waiting_paged(Some(&q));
    assert_eq!(total, 150);
    assert_eq!(page.len(), 100);
    // Without a query everything is listed; a query without a limit gets
    // the default page.
    let (page, _) = s.list_waiting_paged(None);
    assert_eq!(page.len(), 150);
    let q = ListGamesQuery { filter: None, limit: 0, offset: 140 };
    let (page, total) = s.list_waiting_paged(Some(&q));
    assert_eq!(total, 150);
    assert_eq!(page.len(), 10);
    assert_eq!(page[0].name, "g140");
}

#[test]
fn list_waiting_paged_none_query_returns_all() {
    let mut s = LobbyState::new();
    for i in 0..3 {
        let name = format!("g{i}");
        s.waiting_games.insert(name.clone(), pending(i + 1, &name, 100 + i, false));
    }
    let (page, total) = s.list_waiting_paged(None);
    assert_eq!(page.len(), 3);
    assert_eq!(total, 3);
}

#[test]
fn list_players_paged_filters_case_insensitive_on_name() {
    let s = lobby_with_players(&["Alice", "BOB", "carol"]);
    let q = ListPlayersQuery { filter: Some("bo".into()), limit: 0, offset: 0 };
    let (page, total) = s.list_players_paged(Some(&q));
    assert_eq!(total, 1);
    assert_eq!(page.len(), 1);
    assert_eq!(page[0].name, "BOB");

    let q = ListPlayersQuery { filter: Some(String::new()), limit: 0, offset: 0 };
    let (_, total) = s.list_players_paged(Some(&q));
    assert_eq!(total, 3);
}

#[test]
fn list_players_paged_respects_limit_and_offset() {
    let s = lobby_with_players(&["p0", "p1", "p2", "p3", "p4"]);
    let q = ListPlayersQuery { filter: None, limit: 2, offset: 1 };
    let (page, total) = s.list_players_paged(Some(&q));
    assert_eq!(total, 5);
    assert_eq!(page.len(), 2);
    assert_eq!(page[0].name, "p1");
    assert_eq!(page[1].name, "p2");
}

#[test]
fn list_players_paged_clamps_limit_to_max() {
    let s = lobby_with_players(&["solo"]);
    let q = ListPlayersQuery { filter: None, limit: 9999, offset: 0 };
    let (page, total) = s.list_players_paged(Some(&q));
    assert_eq!(page.len(), 1);
    assert_eq!(total, 1);
}

#[test]
fn list_players_paged_none_query_returns_all() {
    let s = lobby_with_players(&["a", "b", "c"]);
    let (page, total) = s.list_players_paged(None);
    assert_eq!(page.len(), 3);
    assert_eq!(total, 3);
}

#[test]
fn list_players_paged_offset_past_end_is_empty() {
    let s = lobby_with_players(&["only"]);
    let q = ListPlayersQuery { filter: None, limit: 10, offset: 5 };
    let (page, total) = s.list_players_paged(Some(&q));
    assert!(page.is_empty());
    assert_eq!(total, 1);
}

#[test]
fn list_players_sorted_by_lowercased_name() {
    let s = lobby_with_players(&["carol", "Alice", "BOB"]);
    let (page, _) = s.list_players_paged(None);
    assert_eq!(page.iter().map(|p| p.name.as_str()).collect::<Vec<_>>(), vec!["Alice", "BOB", "carol"]);
}

#[test]
fn hash_game_password_is_deterministic_per_string() {
    assert_eq!(hash_game_password("hunter2"), hash_game_password("hunter2"));
    assert_ne!(hash_game_password("hunter2"), hash_game_password("hunter3"));
}

#[test]
fn build_server_full_message_does_not_leak_host_memory() {
    for (used, ceiling) in [(Some(85u32), 80u32), (None, 90u32), (Some(99), 1)] {
        let msg = build_server_full_message(used, ceiling);
        match msg {
            ServerMessage::ServerFull { reason } => {
                assert!(
                    reason.eq_ignore_ascii_case("Server is full, try again later."),
                    "reason was {reason:?} (must be the fixed generic string)"
                );
                assert!(!reason.contains('%'), "reason leaks a percent sign: {reason}");
                if let Some(u) = used {
                    assert!(!reason.contains(&u.to_string()), "reason leaks used_percent={u}: {reason}");
                }
                assert!(!reason.contains(&ceiling.to_string()), "reason leaks ceiling_percent={ceiling}: {reason}");
                assert!(!reason.to_lowercase().contains("memory"), "reason leaks the word 'memory': {reason}");
                assert!(!reason.to_lowercase().contains("ceiling"), "reason leaks the word 'ceiling': {reason}");
            }
            other => panic!("expected ServerFull, got {other:?}"),
        }
    }
}

#[test]
fn active_and_waiting_counts() {
    let mut s = LobbyState::new();
    s.waiting_games.insert("g1".to_string(), pending(1, "g1", 100, false));
    s.active_games.insert(2, active(2, "g2", None, None));
    assert_eq!(s.waiting_count(), 1);
    assert_eq!(s.active_count(), 1);
}

#[test]
fn consecutive_pages_cover_the_listing_once() {
    let s = lobby_with_players(&["ann", "bob", "cat", "dan", "eve"]);
    let names = |offset: u32, limit: u32| -> Vec<String> {
        let q = ListPlayersQuery { filter: None, limit, offset };
        let (page, total) = s.list_players_paged(Some(&q));
        assert_eq!(total, 5);
        assert!(page.len() <= limit as usize);
        page.into_iter().map(|p| p.name).collect()
    };
    let mut joined = names(0, 2);
    joined.extend(names(2, 2));
    assert_eq!(joined, names(0, 4));
    let mut rest = names(4, 2);
    assert_eq!(rest.len(), 1);
    rest.extend(names(6, 2));
    assert_eq!(rest, names(4, 4));
}

#[test]
fn the_holder_may_register_its_name_again() {
    let mut s = LobbyState::new();
    s.try_register_name("alice", 7).unwrap();
    assert_eq!(s.try_register_name("Alice", 7), Ok(()));
    assert_eq!(s.registered_name_for(7), Some("Alice"));
    assert_eq!(s.try_register_name("ALICE", 8), Err("Name 'Alice' is already taken".to_string()));
}
