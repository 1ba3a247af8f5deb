use mtg_engine::client::ClientConfig;
use mtg_engine::game_types::{CardId, PlayerId};
use mtg_engine::protocol::{CardReveal, DeckListInfo, RevealReason, ServerMessage};
use mtg_engine::cli::ControllerType;
use mtg_engine::session::{
    check_connect_controller, network_controller_supported, opponent_of, reveal_placement, GameAttempt, GameSession,
    RevealPlacement, SessionStep,
    finish_game, game_start_step, opponent_deck, seat_names, server_url, skips_certificate_checks, uses_tls,
    we_are_p1, LoopEnd, OpeningHands, StartStep,
};
use mtg_engine::str_map::StrMap;

fn config() -> ClientConfig {
    ClientConfig::new("localhost:17171".to_string(), String::new(), None, "deck.dck".to_string())
}

fn card_reveal(id: u32, name: &str) -> CardReveal {
    CardReveal { card_id: CardId::new(id), name: name.to_string(), card_def: None }
}

fn card_revealed(owner: u32, id: u32, name: &str) -> ServerMessage {
    ServerMessage::CardRevealed {
        owner: PlayerId::new(owner),
        card: card_reveal(id, name),
        reason: RevealReason::Draw,
        action_count: None,
    }
}

fn game_started(decklist: Option<DeckListInfo>) -> ServerMessage {
    ServerMessage::GameStarted {
        your_player_id: PlayerId::new(1),
        opponent_name: "Alice".to_string(),
        opening_hand: vec![card_reveal(40, "Forest"), card_reveal(41, "Island")],
        opponent_hand_count: 3,
        library_size: 58,
        opponent_library_size: 57,
        opponent_decklist: decklist,
        starting_life: 20,
        initial_state_hash: 99,
        network_debug: true,
        deck_card_ids: None,
        token_definitions: StrMap::new(),
        rng_state: vec![1, 2, 3],
        reconnect_token: None,
    }
}

#[test]
fn server_addresses_get_a_scheme() {
    assert_eq!(server_url("localhost:17171"), "ws://localhost:17171");
    assert_eq!(server_url("ws://host:1"), "ws://host:1");
    assert_eq!(server_url("wss://deepscry.net:8080/lobby"), "wss://deepscry.net:8080/lobby");
    assert!(uses_tls("wss://host"));
    assert!(!uses_tls("ws://host"));
    assert!(skips_certificate_checks("wss://host", true));
    assert!(!skips_certificate_checks("ws://host", true));
    assert!(!skips_certificate_checks("wss://host", false));
}

#[test]
fn an_accepted_authentication_takes_the_assigned_name() {
    let mut c = config();
    let reply = ServerMessage::AuthResult {
        success: true,
        error: None,
        your_player_id: Some(PlayerId::new(1)),
        your_name: Some("Bob".to_string()),
    };
    assert_eq!(c.accept_auth_reply(reply), Ok(()));
    assert_eq!(c.player_name, Some("Bob".to_string()));
    let created = ServerMessage::GameCreated {
        game_name: "g".to_string(),
        your_player_id: PlayerId::new(0),
        your_name: None,
    };
    assert_eq!(c.accept_auth_reply(created), Ok(()));
    assert_eq!(c.player_name, Some("Bob".to_string()));
}

#[test]
fn a_refused_authentication_is_an_error() {
    let mut c = config();
    let reply = ServerMessage::AuthResult {
        success: false,
        error: Some("bad password".to_string()),
        your_player_id: None,
        your_name: None,
    };
    assert_eq!(c.accept_auth_reply(reply), Err("Authentication failed: bad password".to_string()));
    assert_eq!(
        c.accept_auth_reply(ServerMessage::WaitingForOpponent),
        Err("Unexpected response: expected AuthResult or GameCreated".to_string())
    );
    assert_eq!(c.player_name, None);
}

#[test]
fn waiting_for_the_start() {
    assert!(matches!(game_start_step(ServerMessage::WaitingForOpponent), StartStep::Wait));
    assert!(matches!(
        game_start_step(ServerMessage::Error { message: "slow".to_string(), fatal: false }),
        StartStep::Wait
    ));
    match game_start_step(ServerMessage::Error { message: "gone".to_string(), fatal: true }) {
        StartStep::Fail(m) => assert_eq!(m, "Server error: gone"),
        _ => panic!("expected a failure"),
    }
    match game_start_step(game_started(None)) {
        StartStep::Started(info) => {
            assert_eq!(info.our_player_id, PlayerId::new(1));
            assert_eq!(info.our_hand_count, 2);
            assert_eq!(info.opponent_hand_count, 3);
            assert_eq!(info.opponent_name, "Alice");
            assert!(info.network_debug);
            assert_eq!(info.rng_state, vec![1, 2, 3]);
            assert_eq!(
                opponent_deck(&info).err(),
                Some("Server did not send opponent deck list - cannot synchronize card IDs".to_string())
            );
        },
        _ => panic!("expected the game to start"),
    }
}

#[test]
fn the_opponent_deck_comes_from_the_start_message() {
    let list = DeckListInfo {
        main_deck: vec![("Forest".to_string(), 20)],
        sideboard: vec![],
        main_deck_size: 20,
        sideboard_size: 0,
    };
    match game_start_step(game_started(Some(list))) {
        StartStep::Started(info) => {
            let deck = opponent_deck(&info).unwrap();
            assert_eq!(deck.main_deck.len(), 1);
            assert_eq!(deck.main_deck[0].card_name, "Forest");
            assert_eq!(deck.main_deck[0].count, 20);
        },
        _ => panic!("expected the game to start"),
    }
}

#[test]
fn seats_follow_the_player_number() {
    assert!(we_are_p1(PlayerId::new(0)));
    assert!(!we_are_p1(PlayerId::new(1)));
    assert_eq!(seat_names(&None, &"Alice".to_string(), true), ("Player".to_string(), "Alice".to_string()));
    assert_eq!(
        seat_names(&Some("Bob".to_string()), &"Alice".to_string(), false),
        ("Alice".to_string(), "Bob".to_string())
    );
}

#[test]
fn opening_hands_count_every_reveal() {
    let info = match game_start_step(game_started(None)) {
        StartStep::Started(info) => info,
        _ => panic!("expected the game to start"),
    };
    let mut hands = OpeningHands::new(&info);
    assert_eq!(hands.expected, 5);
    assert_eq!(hands.step(card_revealed(1, 40, "Forest")), Ok(false));
    assert_eq!(hands.step(card_revealed(0, 10, "")), Ok(false));
    let reorder = ServerMessage::LibraryReordered { player: PlayerId::new(0), new_order: vec![CardId::new(3)], action_count: 0 };
    assert_eq!(hands.step(reorder), Ok(false));
    assert_eq!(hands.step(ServerMessage::WaitingForOpponent), Ok(false));
    assert_eq!(hands.step(card_revealed(1, 41, "Island")), Ok(false));
    assert_eq!(hands.step(card_revealed(0, 11, "")), Ok(false));
    assert_eq!(hands.step(card_revealed(0, 12, "")), Ok(true));
    assert!(hands.is_complete());
    assert_eq!(hands.received, 5);
    assert_eq!(hands.known.len(), 2);
    assert_eq!(hands.known[1].1.name, "Island");
    assert_eq!(hands.reorders.len(), 1);
    assert_eq!(
        hands.step(ServerMessage::Error { message: "lost".to_string(), fatal: true }),
        Err("Server error: lost".to_string())
    );
}

#[test]
fn the_server_verdict_wins() {
    let p0 = Some(PlayerId::new(0));
    let p1 = Some(PlayerId::new(1));
    assert_eq!(finish_game(LoopEnd::Finished(p0), Some(p1)), Ok(p1));
    assert_eq!(finish_game(LoopEnd::Finished(p0), None), Ok(p0));
    assert_eq!(finish_game(LoopEnd::Finished(p0), Some(None)), Ok(None));
    assert_eq!(finish_game(LoopEnd::Failed("Game exit requested by controller".to_string()), Some(p1)), Ok(p1));
    assert_eq!(finish_game(LoopEnd::Failed("Game exit requested".to_string()), None), Ok(None));
    assert_eq!(finish_game(LoopEnd::Failed("boom".to_string()), Some(p1)), Err("Game error: boom".to_string()));
    assert_eq!(finish_game(LoopEnd::Aborted("cancelled".to_string()), None), Err("Game thread panic: cancelled".to_string()));
}

#[test]
fn connect_checks_the_controller() {
    assert_eq!(
        check_connect_controller(ControllerType::Fixed, false),
        Err("--fixed-inputs is required when --controller=fixed".to_string())
    );
    assert_eq!(check_connect_controller(ControllerType::Fixed, true), Ok(()));
    assert_eq!(check_connect_controller(ControllerType::Random, false), Ok(()));
    assert!(network_controller_supported(ControllerType::FancyFixed).is_err());
    assert_eq!(network_controller_supported(ControllerType::Heuristic), Ok(()));
}

#[test]
fn a_single_game_session_stops_after_its_game() {
    let mut session = GameSession::new(false);
    assert_eq!(session.begin_game(), 0);
    let us = PlayerId::new(1);
    match session.next_step(GameAttempt::Finished(Some(us)), us) {
        SessionStep::Stop(m) => assert_eq!(m, "Game 1 ended. You won!"),
        _ => panic!("expected the session to stop"),
    }
    match session.next_step(GameAttempt::ConnectFailed("refused".to_string()), us) {
        SessionStep::Fail(m) => assert_eq!(m, "Connection error: refused"),
        _ => panic!("expected a failure"),
    }
    match session.next_step(GameAttempt::StartFailed("no deck".to_string()), us) {
        SessionStep::Fail(m) => assert_eq!(m, "Game start error: no deck"),
        _ => panic!("expected a failure"),
    }
    match session.next_step(GameAttempt::Failed("desync".to_string()), us) {
        SessionStep::Fail(m) => assert_eq!(m, "Game error: desync"),
        _ => panic!("expected a failure"),
    }
}

#[test]
fn a_reconnecting_session_goes_on() {
    let mut session = GameSession::new(true);
    assert_eq!(session.begin_game(), 0);
    assert_eq!(session.begin_game(), 1);
    let us = PlayerId::new(0);
    assert!(matches!(session.next_step(GameAttempt::ConnectFailed("x".to_string()), us), SessionStep::Retry(2)));
    assert!(matches!(session.next_step(GameAttempt::StartFailed("x".to_string()), us), SessionStep::Retry(2)));
    match session.next_step(GameAttempt::Finished(Some(PlayerId::new(1))), us) {
        SessionStep::Next(m) => assert_eq!(m, "Game 2 ended. You lost."),
        _ => panic!("expected the next game"),
    }
    match session.next_step(GameAttempt::Finished(None), us) {
        SessionStep::Next(m) => assert_eq!(m, "Game 2 ended in a draw"),
        _ => panic!("expected the next game"),
    }
    match session.next_step(GameAttempt::Failed("lost".to_string()), us) {
        SessionStep::Next(m) => assert_eq!(m, "Game 2 error: lost. Will reconnect..."),
        _ => panic!("expected the next game"),
    }
}

#[test]
fn the_shadow_game_places_reveals_once() {
    assert_eq!(opponent_of(PlayerId::new(0)), PlayerId::new(1));
    assert_eq!(opponent_of(PlayerId::new(1)), PlayerId::new(0));
    assert_eq!(reveal_placement(RevealReason::Draw, false), RevealPlacement::FillSlot);
    assert_eq!(reveal_placement(RevealReason::Searched, true), RevealPlacement::KeepExisting);
    assert_eq!(reveal_placement(RevealReason::TokenCreated, true), RevealPlacement::PlaceToken);
}
