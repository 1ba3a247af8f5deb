use mtg_engine::controller::{
    check_choice_response, reveals_since_index, ChoiceRequest, ChoiceResponse, LoggedAction, NetworkController,
    NetworkError, RevealTarget,
};
use mtg_engine::game_types::{BasicLandType, CardId, ManaCost, PlayerId, SpellAbility, Zone};
use mtg_engine::protocol::ChoiceType;
use std::sync::atomic::{AtomicUsize, Ordering};
use std::sync::mpsc;
use std::sync::Arc;

fn controller_with_channels() -> (NetworkController, mpsc::Receiver<ChoiceRequest>, mpsc::Sender<ChoiceResponse>) {
    let (request_tx, request_rx) = mpsc::channel();
    let (response_tx, response_rx) = mpsc::channel();
    let shared_reveal_index = Arc::new(AtomicUsize::new(0));
    let controller = NetworkController::new(PlayerId::new(1), request_tx, response_rx, shared_reveal_index);
    (controller, request_rx, response_tx)
}

fn response(choice_seq: u32, choice_indices: Vec<usize>) -> ChoiceResponse {
    ChoiceResponse { choice_seq, choice_indices, spell_ability: None, target_card_ids: None }
}

#[test]
fn test_network_controller_creation() {
    let (request_tx, _request_rx) = mpsc::channel();
    let (_response_tx, response_rx) = mpsc::channel();
    let shared_reveal_index = Arc::new(AtomicUsize::new(0));

    let controller = NetworkController::new(PlayerId::new(1), request_tx, response_rx, shared_reveal_index);

    assert_eq!(controller.player_id(), PlayerId::new(1));
    assert_eq!(controller.choice_seq(), 0);
}

#[test]
fn test_network_error_display() {
    assert_eq!(NetworkError::Disconnected.message(), "Client disconnected");
    assert_eq!(NetworkError::Timeout.message(), "Request timed out");
    assert_eq!(
        NetworkError::SequenceMismatch { expected: 1, got: 2 }.message(),
        "Sequence mismatch: expected 1, got 2"
    );
    assert_eq!(NetworkError::InvalidChoice { max: 5, got: 10 }.message(), "Invalid choice index: 10 (max 5)");
}

#[test]
fn test_choice_request_response() {
    let (mut controller, request_rx, response_tx) = controller_with_channels();
    // The handler's answer is queued before the request goes out.
    response_tx.send(response(1, vec![2])).unwrap();
    let options = vec!["Option A".to_string(), "Option B".to_string(), "Option C".to_string()];
    let result = controller.request_choice(
        &[],
        &[],
        0,
        None,
        Vec::new(),
        ChoiceType::Priority { available_count: 2 },
        options,
        0x12345678,
        None,
        None,
    );
    let request = request_rx.recv().unwrap();
    assert_eq!(request.choice_seq, 1);
    assert_eq!(request.options.len(), 3);
    assert!(request.reveals.is_empty());
    assert_eq!(request.state_hash, 0x12345678);
    assert_eq!(result.unwrap().indices, vec![2]);
}

#[test]
fn test_sequence_mismatch_error() {
    let (mut controller, _request_rx, response_tx) = controller_with_channels();
    response_tx.send(response(999, vec![0])).unwrap();
    let result = controller.request_choice(
        &[],
        &[],
        0,
        None,
        Vec::new(),
        ChoiceType::Priority { available_count: 0 },
        vec!["Pass".to_string()],
        0,
        None,
        None,
    );
    match result {
        Err(NetworkError::SequenceMismatch { expected: 1, got: 999 }) => {}
        _ => panic!("Expected SequenceMismatch error"),
    }
}

#[test]
fn test_invalid_choice_returns_desync_error() {
    let (mut controller, _request_rx, response_tx) = controller_with_channels();
    response_tx.send(response(1, vec![10])).unwrap();
    let result = controller.request_choice(
        &[],
        &[],
        0,
        None,
        Vec::new(),
        ChoiceType::Priority { available_count: 1 },
        vec!["Pass".to_string(), "Play land".to_string()],
        0,
        None,
        None,
    );
    match result {
        Err(NetworkError::DesyncError(msg)) => {
            assert!(msg.contains("DESYNC DETECTED"), "Error should mention desync: {}", msg);
            assert!(msg.contains("10"), "Error should mention invalid index 10: {}", msg);
            assert!(msg.contains("2"), "Error should mention only 2 options: {}", msg);
        }
        Ok(_) => panic!("Expected DesyncError, got Ok"),
        Err(e) => panic!("Expected DesyncError, got {:?}", e),
    }
}

#[test]
fn closed_channel_is_a_channel_error() {
    let (mut controller, request_rx, response_tx) = controller_with_channels();
    drop(response_tx);
    let result = controller.request_choice(
        &[],
        &[],
        0,
        None,
        Vec::new(),
        ChoiceType::Discard { count: 1 },
        vec!["a".to_string()],
        0,
        None,
        None,
    );
    assert!(matches!(result, Err(NetworkError::ChannelError(_))));
    assert_eq!(request_rx.recv().unwrap().choice_seq, 1);
}

#[test]
fn desync_message_is_exact() {
    let r = check_choice_response(3, 2, false, PlayerId::new(1), &response(3, vec![1, 7, 9]));
    match r {
        Err(NetworkError::DesyncError(msg)) => assert_eq!(
            msg,
            format!(
                "DESYNC DETECTED: NetworkController {:?} received invalid choice index 7 (only 2 options available). \
                 Client sent indices [1, 7, 9]. This indicates client/server state divergence - a fundamental bug \
                 that must be fixed, NOT papered over with clamping.",
                PlayerId::new(1)
            )
        ),
        other => panic!("expected a desync, got {:?}", other),
    }
    // A library search checks the name index only.
    assert!(check_choice_response(3, 2, true, PlayerId::new(1), &response(3, vec![1, 7])).is_ok());
    assert!(check_choice_response(3, 2, false, PlayerId::new(1), &response(3, vec![])).is_ok());
}

#[test]
fn reveals_since_last_choice_are_collected_once() {
    let (mut controller, _request_rx, _response_tx) = controller_with_channels();
    let me = PlayerId::new(1);
    let actions = [
        LoggedAction::RevealCard { card_id: CardId::new(1), named: true, revealed_to: RevealTarget::All },
        LoggedAction::ChoicePoint { player_id: me },
        LoggedAction::RevealCard { card_id: CardId::new(2), named: true, revealed_to: RevealTarget::Player(me) },
        LoggedAction::RevealCard {
            card_id: CardId::new(3),
            named: true,
            revealed_to: RevealTarget::Player(PlayerId::new(0)),
        },
        LoggedAction::RevealCard { card_id: CardId::new(4), named: false, revealed_to: RevealTarget::All },
        LoggedAction::MoveCard { card_id: CardId::new(2), to_zone: Zone::Battlefield },
        LoggedAction::Other,
    ];
    let owners = [(CardId::new(2), PlayerId::new(0))];
    let reveals = controller.collect_reveals_since_last_choice(&actions, &owners);
    assert_eq!(reveals.len(), 1);
    assert_eq!(reveals[0].card_id, CardId::new(2));
    assert_eq!(reveals[0].owner, PlayerId::new(0));
    assert_eq!(reveals[0].from_zone, Zone::Library);
    assert_eq!(reveals[0].to_zone, Zone::Battlefield);
    assert_eq!(controller.shared_reveal_index().load(Ordering::Acquire), actions.len());
    // Nothing new since: the cursor moved past the reveals.
    assert!(controller.collect_reveals_since_last_choice(&actions, &owners).is_empty());
    // From the start, an unknown owner defaults to the player and an
    // unmoved card to the hand.
    let all = reveals_since_index(&actions[..1], 0, me, &[]);
    assert_eq!(all.len(), 1);
    assert_eq!(all[0].owner, me);
    assert_eq!(all[0].to_zone, Zone::Hand);
}

#[test]
fn controller_settings_and_sequence() {
    let (mut controller, _request_rx, _response_tx) = controller_with_channels();
    controller.increment_choice_seq();
    controller.increment_choice_seq();
    assert_eq!(controller.choice_seq(), 2);
    assert!(controller.has_more_choices());
    controller.set_network_debug(true);
    controller.set_pending_library_search_card_ids(&[CardId::new(5), CardId::new(6)]);
    assert_eq!(controller.take_pending_library_search_card_ids(), Some(vec![CardId::new(5), CardId::new(6)]));
    assert_eq!(controller.take_pending_library_search_card_ids(), None);
}

#[test]
fn spell_ability_option_texts() {
    let (controller, _request_rx, _response_tx) = controller_with_channels();
    let cost = ManaCost { generic: 2, white: 0, blue: 0, black: 0, red: 1, green: 0, colorless: 0 };
    let card = CardId::new(7);
    assert_eq!(controller.format_spell_ability(&SpellAbility::PlayLand { card_id: card }, Some("Forest")), "Play land: Forest");
    assert_eq!(
        controller.format_spell_ability(&SpellAbility::ActivateAbility { card_id: card, ability_index: 3 }, Some("Relic")),
        "Activate: Relic (ability 3)"
    );
    assert_eq!(
        controller.format_spell_ability(&SpellAbility::CastFromExile { card_id: card, alternative_cost: cost }, Some("Bolt")),
        "Cast from exile: Bolt (for {2}{R})"
    );
    assert_eq!(
        controller.format_spell_ability(
            &SpellAbility::Cycle { card_id: card, cost, search_type: Some(BasicLandType::Mountain) },
            Some("Canyon")
        ),
        "Mountaincycling: Canyon ({2}{R})"
    );
    assert_eq!(
        controller.format_spell_ability(&SpellAbility::Cycle { card_id: card, cost, search_type: None }, None),
        "Cycle:  ({2}{R})"
    );
    assert_eq!(controller.format_card(card, Some("Forest")), "Forest");
    assert_eq!(controller.format_card(card, None), "Card #7");
    let empty = ManaCost { generic: 0, white: 0, blue: 0, black: 0, red: 0, green: 0, colorless: 0 };
    assert_eq!(empty.text(), "{0}");
}

#[test]
fn the_reveal_index_is_shared_not_copied() {
    let (request_tx, _request_rx) = mpsc::channel();
    let (_response_tx, response_rx) = mpsc::channel();
    let shared = Arc::new(AtomicUsize::new(0));
    let controller = NetworkController::new(PlayerId::new(0), request_tx, response_rx, Arc::clone(&shared));
    let handed_out = controller.shared_reveal_index();
    assert!(Arc::ptr_eq(&handed_out, &shared));
    shared.store(7, Ordering::SeqCst);
    assert_eq!(handed_out.load(Ordering::SeqCst), 7);
}
