use mtg_engine::choice_outcomes::ChoiceResult;
use mtg_engine::controller::{ChoiceRequest, ChoiceResponse, NetworkController};
use mtg_engine::game_types::{CardId, ManaCost, PlayerId, SpellAbility};
use mtg_engine::protocol::{CardDefinition, ChoiceType};
use mtg_engine::remote_choices::{
    blocker_option_texts, labeled_options, lethal_option_texts, library_option_texts, remaining_option_texts,
    ChoiceView,
};
use std::sync::atomic::AtomicUsize;
use std::sync::mpsc;
use std::sync::Arc;

fn controller_with_channels() -> (NetworkController, mpsc::Receiver<ChoiceRequest>, mpsc::Sender<ChoiceResponse>) {
    let (request_tx, request_rx) = mpsc::channel();
    let (response_tx, response_rx) = mpsc::channel();
    let shared_reveal_index = Arc::new(AtomicUsize::new(0));
    let controller = NetworkController::new(PlayerId::new(1), request_tx, response_rx, shared_reveal_index);
    (controller, request_rx, response_tx)
}

fn answer(choice_seq: u32, choice_indices: Vec<usize>) -> ChoiceResponse {
    ChoiceResponse { choice_seq, choice_indices, spell_ability: None, target_card_ids: None }
}

fn names() -> Vec<(CardId, String)> {
    vec![(CardId::new(1), "Grizzly Bears".to_string()), (CardId::new(2), "Llanowar Elves".to_string())]
}

fn view() -> ChoiceView {
    ChoiceView {
        actions: Vec::new(),
        owners: Vec::new(),
        card_names: names(),
        action_count: 4,
        state_hash: 77,
        debug_snapshot: None,
        library_reorders: Vec::new(),
    }
}

fn definition(name: &str) -> CardDefinition {
    CardDefinition {
        name: name.to_string(),
        mana_cost: ManaCost { generic: 0, white: 0, blue: 0, black: 0, red: 0, green: 1, colorless: 0 },
        type_line: "Creature".to_string(),
        oracle_text: String::new(),
        power: Some(1),
        toughness: Some(1),
    }
}

#[test]
fn labeled_options_use_names_and_fall_back_to_numbers() {
    let cards = [CardId::new(2), CardId::new(9)];
    assert_eq!(
        labeled_options(&names(), "Discard: ", &cards),
        vec!["Discard: Llanowar Elves".to_string(), "Discard: Card #9".to_string()]
    );
    assert!(labeled_options(&names(), "Scry: ", &[]).is_empty());
}

#[test]
fn blocker_options_pair_each_blocker_with_each_attacker() {
    let blockers = [CardId::new(1), CardId::new(3)];
    let attackers = [CardId::new(2), CardId::new(4)];
    assert_eq!(
        blocker_option_texts(&names(), &blockers, &attackers),
        vec![
            "Done selecting blockers".to_string(),
            "Grizzly Bears blocks Llanowar Elves".to_string(),
            "Grizzly Bears blocks Card #4".to_string(),
            "Card #3 blocks Llanowar Elves".to_string(),
            "Card #3 blocks Card #4".to_string(),
        ]
    );
}

#[test]
fn damage_options_show_the_damage() {
    assert_eq!(
        lethal_option_texts(&names(), &[(CardId::new(1), 2), (CardId::new(5), 3)]),
        vec![
            "Kill Grizzly Bears first (needs 2 damage)".to_string(),
            "Kill Card #5 first (needs 3 damage)".to_string()
        ]
    );
    assert_eq!(
        remaining_option_texts(&names(), &[CardId::new(2)], -1),
        vec!["Assign -1 remaining damage to Llanowar Elves".to_string()]
    );
}

#[test]
fn library_options_start_with_declining() {
    let cards = [definition("Forest"), definition("Island")];
    assert_eq!(
        library_option_texts(&cards),
        vec!["Decline to find".to_string(), "Forest".to_string(), "Island".to_string()]
    );
}

#[test]
fn attackers_are_read_from_one_based_indices() {
    let (mut controller, request_rx, response_tx) = controller_with_channels();
    response_tx.send(answer(1, vec![2, 0, 1])).unwrap();
    let creatures = [CardId::new(1), CardId::new(2)];
    let result = controller.choose_attackers(view(), &creatures);
    assert_eq!(result, ChoiceResult::Done(vec![CardId::new(2), CardId::new(1)]));
    assert_eq!(controller.choice_seq(), 1);
    let request = request_rx.recv().unwrap();
    assert_eq!(request.choice_seq, 1);
    assert_eq!(
        request.options,
        vec![
            "Done selecting attackers".to_string(),
            "Attack with: Grizzly Bears".to_string(),
            "Attack with: Llanowar Elves".to_string()
        ]
    );
    assert_eq!(request.state_hash, 77);
    assert_eq!(request.action_count, 4);
    assert!(matches!(request.choice_type, ChoiceType::Attackers { available_count: 2 }));
}

#[test]
fn a_wrong_sequence_number_leaves_the_sequence_alone() {
    let (mut controller, _request_rx, response_tx) = controller_with_channels();
    response_tx.send(answer(5, vec![0])).unwrap();
    let result = controller.choose_cards_to_discard(view(), &[CardId::new(1)], 1);
    assert_eq!(result, ChoiceResult::Error("Sequence mismatch: expected 1, got 5".to_string()));
    assert_eq!(controller.choice_seq(), 0);
}

#[test]
fn priority_choice_maps_zero_to_passing() {
    let (mut controller, request_rx, response_tx) = controller_with_channels();
    response_tx.send(answer(1, vec![0])).unwrap();
    response_tx.send(answer(2, vec![1])).unwrap();
    let land = SpellAbility::PlayLand { card_id: CardId::new(1) };
    assert_eq!(controller.choose_spell_ability_to_play(view(), &[land]), ChoiceResult::Done(None));
    assert_eq!(controller.choose_spell_ability_to_play(view(), &[land]), ChoiceResult::Done(Some(land)));
    let request = request_rx.recv().unwrap();
    assert_eq!(request.options, vec!["Pass priority".to_string(), "Play land: Grizzly Bears".to_string()]);
    assert_eq!(controller.choice_seq(), 2);
}

#[test]
fn scry_splits_the_revealed_cards() {
    let (mut controller, _request_rx, response_tx) = controller_with_channels();
    response_tx.send(answer(1, vec![1])).unwrap();
    let revealed = [CardId::new(10), CardId::new(11), CardId::new(12)];
    match controller.choose_scry_order(view(), &revealed) {
        ChoiceResult::Done(d) => {
            assert_eq!(d.bottom, vec![CardId::new(11)]);
            assert_eq!(d.top, vec![CardId::new(12), CardId::new(10)]);
        },
        _ => panic!("expected a scry decision"),
    }
}

#[test]
fn modes_are_sent_as_given() {
    let (mut controller, request_rx, response_tx) = controller_with_channels();
    response_tx.send(answer(1, vec![1, 0])).unwrap();
    let descriptions = vec!["Deal 2 damage".to_string(), "Gain 2 life".to_string()];
    let result = controller.choose_modes(view(), CardId::new(3), &descriptions, 2, 1, false);
    assert_eq!(result, ChoiceResult::Done(vec![1, 0]));
    let request = request_rx.recv().unwrap();
    assert_eq!(request.options, descriptions);
}

#[test]
fn untapping_is_never_refused() {
    let (mut controller, _request_rx, _response_tx) = controller_with_channels();
    assert_eq!(controller.choose_permanents_to_not_untap(view(), &[CardId::new(1)]), ChoiceResult::Done(Vec::new()));
    assert_eq!(controller.choice_seq(), 0);
}

#[test]
fn library_search_answers_the_card_position() {
    let (mut controller, _request_rx, response_tx) = controller_with_channels();
    response_tx.send(answer(1, vec![2])).unwrap();
    let cards = [definition("Forest"), definition("Island")];
    assert_eq!(controller.choose_from_library(view(), &cards), ChoiceResult::Done(Some(1)));
}

#[test]
fn a_closed_connection_is_an_error() {
    let (mut controller, _request_rx, response_tx) = controller_with_channels();
    drop(response_tx);
    let result = controller.choose_attackers(view(), &[CardId::new(1)]);
    assert!(matches!(result, ChoiceResult::Error(_)));
    assert_eq!(controller.choice_seq(), 0);
}

#[test]
fn targets_are_read_from_the_first_index() {
    let (mut controller, request_rx, response_tx) = controller_with_channels();
    response_tx.send(answer(1, vec![1])).unwrap();
    let targets = [CardId::new(4), CardId::new(5)];
    let labels = vec!["Bear (yours)".to_string(), "Elf (theirs)".to_string()];
    assert_eq!(controller.choose_targets(view(), CardId::new(9), &targets, labels.clone()), ChoiceResult::Done(vec![CardId::new(5)]));
    let request = request_rx.recv().unwrap();
    assert_eq!(request.options, labels);
    assert!(matches!(request.choice_type, ChoiceType::Targets { target_count: 1, .. }));
    assert_eq!(controller.choose_targets(view(), CardId::new(9), &[], Vec::new()), ChoiceResult::Done(Vec::new()));
    assert_eq!(controller.choice_seq(), 1);
}

#[test]
fn a_target_index_out_of_range_is_an_error() {
    let (mut controller, _request_rx, response_tx) = controller_with_channels();
    // The response names an offered option that has no target behind it.
    response_tx.send(answer(1, vec![1])).unwrap();
    let labels = vec!["Bear".to_string(), "Player 2 (them)".to_string()];
    let result = controller.choose_targets(view(), CardId::new(9), &[CardId::new(4)], labels);
    assert_eq!(result, ChoiceResult::Error("Invalid target index from network".to_string()));
}

fn answer_with_targets(choice_seq: u32, choice_indices: Vec<usize>, targets: Vec<CardId>) -> ChoiceResponse {
    ChoiceResponse { choice_seq, choice_indices, spell_ability: None, target_card_ids: Some(targets) }
}

#[test]
fn blocks_are_read_from_pair_indices() {
    let (mut controller, request_rx, response_tx) = controller_with_channels();
    response_tx.send(answer(1, vec![4, 0, 1])).unwrap();
    let blockers = [CardId::new(1), CardId::new(3)];
    let attackers = [CardId::new(2), CardId::new(4)];
    let result = controller.choose_blockers(view(), &blockers, &attackers);
    assert_eq!(
        result,
        ChoiceResult::Done(vec![(CardId::new(3), CardId::new(4)), (CardId::new(1), CardId::new(2))])
    );
    let request = request_rx.recv().unwrap();
    assert_eq!(request.options.len(), 5);
    assert!(matches!(request.choice_type, ChoiceType::Blockers { attacker_count: 2, blocker_count: 2 }));
}

#[test]
fn mana_sources_and_sacrifices() {
    let (mut controller, _request_rx, response_tx) = controller_with_channels();
    response_tx.send(answer(1, vec![1])).unwrap();
    response_tx.send(answer(2, vec![0, 1])).unwrap();
    let cost = ManaCost { generic: 1, white: 0, blue: 0, black: 0, red: 0, green: 1, colorless: 0 };
    let sources = [CardId::new(6), CardId::new(7)];
    assert_eq!(controller.choose_mana_sources_to_pay(view(), &cost, &sources), ChoiceResult::Done(vec![CardId::new(7)]));
    let result = controller.choose_permanents_to_sacrifice(view(), &sources, 2, "creature");
    assert_eq!(result, ChoiceResult::Done(vec![CardId::new(6), CardId::new(7)]));
    assert_eq!(controller.choice_seq(), 2);
}

#[test]
fn damage_order_puts_the_chosen_blocker_first() {
    let (mut controller, _request_rx, response_tx) = controller_with_channels();
    response_tx.send(answer(1, vec![2])).unwrap();
    let blockers = [CardId::new(1), CardId::new(2), CardId::new(3)];
    let result = controller.choose_damage_assignment_order(view(), CardId::new(9), &blockers);
    assert_eq!(result, ChoiceResult::Done(vec![CardId::new(3), CardId::new(1), CardId::new(2)]));
}

#[test]
fn damage_targets_prefer_the_submitted_card() {
    let (mut controller, request_rx, response_tx) = controller_with_channels();
    response_tx.send(answer_with_targets(1, vec![0], vec![CardId::new(2)])).unwrap();
    response_tx.send(answer_with_targets(2, vec![1], vec![CardId::new(42)])).unwrap();
    let killable = [(CardId::new(1), 2), (CardId::new(2), 3)];
    assert_eq!(controller.choose_blocker_for_lethal_damage(view(), CardId::new(9), &killable, 5), ChoiceResult::Done(CardId::new(2)));
    let remaining = [CardId::new(1), CardId::new(2)];
    assert_eq!(controller.choose_blocker_for_remaining_damage(view(), CardId::new(9), &remaining, 2), ChoiceResult::Done(CardId::new(2)));
    let first = request_rx.recv().unwrap();
    assert_eq!(first.options[1], "Kill Llanowar Elves first (needs 3 damage)");
    let second = request_rx.recv().unwrap();
    assert_eq!(second.options[0], "Assign 2 remaining damage to Grizzly Bears");
}

#[test]
fn surveil_sends_the_named_cards_to_the_graveyard() {
    let (mut controller, _request_rx, response_tx) = controller_with_channels();
    response_tx.send(answer(1, vec![0])).unwrap();
    let revealed = [CardId::new(10), CardId::new(11)];
    match controller.choose_surveil(view(), &revealed) {
        ChoiceResult::Done(d) => {
            assert_eq!(d.graveyard, vec![CardId::new(10)]);
            assert_eq!(d.top, vec![CardId::new(11)]);
        },
        _ => panic!("expected a surveil decision"),
    }
}
