use mtg_engine::choice_outcomes::{
    attackers_outcome, blockers_outcome, damage_order_outcome, discard_outcome, from_library_outcome,
    lethal_damage_outcome, mana_sources_outcome, modes_outcome, not_untap_outcome, remaining_damage_outcome,
    sacrifice_outcome, scry_outcome, split_pile, spell_ability_outcome, surveil_outcome, targets_outcome,
    ChoiceResult, PileError,
};
use mtg_engine::controller::{NetworkChoiceResult, NetworkError};
use mtg_engine::game_types::{CardId, SpellAbility};

fn id(n: u32) -> CardId {
    CardId::new(n)
}

fn ok(indices: Vec<usize>) -> Result<NetworkChoiceResult, NetworkError> {
    Ok(NetworkChoiceResult { indices, spell_ability: None, target_card_ids: None })
}

fn err_text<T: std::fmt::Debug>(r: ChoiceResult<T>) -> String {
    match r {
        ChoiceResult::Error(e) => e,
        other => panic!("expected an error, got {other:?}"),
    }
}

#[test]
fn priority_answers() {
    let land = SpellAbility::PlayLand { card_id: id(1) };
    let spell = SpellAbility::CastSpell { card_id: id(2) };
    let available = [land, spell];
    assert_eq!(spell_ability_outcome(ok(vec![0]), &available), ChoiceResult::Done(None));
    assert_eq!(spell_ability_outcome(ok(vec![2]), &available), ChoiceResult::Done(Some(spell)));
    assert_eq!(
        err_text(spell_ability_outcome(ok(vec![5]), &available)),
        "FATAL DESYNC: Invalid ability index 4 from network (available: 2)"
    );
    let mismatched = Ok(NetworkChoiceResult { indices: vec![1], spell_ability: Some(spell), target_card_ids: None });
    assert_eq!(
        err_text(spell_ability_outcome(mismatched, &available)),
        "FATAL DESYNC: Choice mismatch - index 1 selected PlayLand { card_id: CardId(1) }, but client expected \
         CastSpell { card_id: CardId(2) }"
    );
    assert_eq!(spell_ability_outcome(Err(NetworkError::Disconnected), &available), ChoiceResult::ExitGame);
    assert_eq!(
        spell_ability_outcome(Err(NetworkError::Timeout), &available),
        ChoiceResult::Error("Request timed out".to_string())
    );
}

#[test]
fn ability_debug_text_matches_derived_debug() {
    let land = SpellAbility::PlayLand { card_id: id(1) };
    let mismatched = Ok(NetworkChoiceResult { indices: vec![1], spell_ability: Some(land), target_card_ids: None });
    // Same ability: no mismatch.
    assert_eq!(spell_ability_outcome(mismatched, &[land]), ChoiceResult::Done(Some(land)));
    let other = SpellAbility::ActivateAbility { card_id: id(3), ability_index: 2 };
    let r = Ok(NetworkChoiceResult { indices: vec![1], spell_ability: Some(other), target_card_ids: None });
    let text = err_text(spell_ability_outcome(r, &[land]));
    assert!(text.ends_with(&format!("client expected {:?}", other)), "{text}");
    assert!(text.contains(&format!("selected {:?}", land)), "{text}");
}

#[test]
fn single_card_choices() {
    let targets = [id(5), id(6)];
    assert_eq!(targets_outcome(ok(vec![1]), &targets), ChoiceResult::Done(vec![id(6)]));
    assert_eq!(targets_outcome(ok(vec![]), &targets), ChoiceResult::Done(vec![id(5)]));
    assert_eq!(err_text(targets_outcome(ok(vec![2]), &targets)), "Invalid target index from network");
    assert_eq!(err_text(mana_sources_outcome(ok(vec![9]), &targets)), "Invalid mana source index from network");
}

#[test]
fn attack_and_block_choices() {
    let creatures = [id(10), id(11)];
    assert_eq!(attackers_outcome(ok(vec![0]), &creatures), ChoiceResult::Done(vec![]));
    assert_eq!(attackers_outcome(ok(vec![2, 0, 1]), &creatures), ChoiceResult::Done(vec![id(11), id(10)]));
    assert_eq!(err_text(attackers_outcome(ok(vec![1, 3]), &creatures)), "Invalid attacker index 3 from network");

    let blockers = [id(20), id(21)];
    let attackers = [id(30), id(31)];
    assert_eq!(
        blockers_outcome(ok(vec![4, 1]), &blockers, &attackers),
        ChoiceResult::Done(vec![(id(21), id(31)), (id(20), id(30))])
    );
    assert_eq!(blockers_outcome(ok(vec![0]), &blockers, &[]), ChoiceResult::Done(vec![]));
    assert_eq!(err_text(blockers_outcome(ok(vec![5]), &blockers, &attackers)), "Invalid blocker index 5 from network");
}

#[test]
fn discard_and_damage_order() {
    let hand = [id(1), id(2), id(3)];
    assert_eq!(discard_outcome(ok(vec![2, 0]), &hand), ChoiceResult::Done(vec![id(3), id(1)]));
    assert_eq!(err_text(discard_outcome(ok(vec![3]), &hand)), "Invalid discard index 3 from network");

    let blockers = [id(7), id(8), id(9)];
    assert_eq!(damage_order_outcome(ok(vec![2, 0, 1]), &blockers), ChoiceResult::Done(vec![id(9), id(7), id(8)]));
    // One index: that blocker first, the rest in their order.
    assert_eq!(damage_order_outcome(ok(vec![1]), &blockers), ChoiceResult::Done(vec![id(8), id(7), id(9)]));
    assert_eq!(err_text(damage_order_outcome(ok(vec![4]), &blockers)), "Invalid damage order index from network");
    assert_eq!(
        err_text(damage_order_outcome(ok(vec![0, 1, 5]), &blockers)),
        "Invalid damage order index 5 from network"
    );
}

#[test]
fn combat_damage_targets() {
    let killable = [(id(50), 2), (id(51), 3)];
    assert_eq!(lethal_damage_outcome(ok(vec![1]), &killable), ChoiceResult::Done(id(51)));
    let by_id = Ok(NetworkChoiceResult { indices: vec![0], spell_ability: None, target_card_ids: Some(vec![id(51)]) });
    assert_eq!(lethal_damage_outcome(by_id, &killable), ChoiceResult::Done(id(51)));
    assert_eq!(
        err_text(lethal_damage_outcome(ok(vec![2]), &killable)),
        "FATAL DESYNC: Invalid lethal damage blocker index 2 (only 2 killable)"
    );
    let remaining = [id(60)];
    assert_eq!(remaining_damage_outcome(ok(vec![]), &remaining), ChoiceResult::Done(id(60)));
    assert_eq!(
        err_text(remaining_damage_outcome(ok(vec![1]), &remaining)),
        "FATAL DESYNC: Invalid remaining damage blocker index 1 (only 1 blockers)"
    );
}

#[test]
fn scry_and_surveil_split_the_pile() {
    let revealed = [id(1), id(2), id(3), id(4)];
    match scry_outcome(ok(vec![2, 0]), &revealed) {
        ChoiceResult::Done(d) => {
            assert_eq!(d.bottom, vec![id(3), id(1)]);
            assert_eq!(d.top, vec![id(4), id(2)]);
        }
        _ => panic!("expected a scry decision"),
    }
    match surveil_outcome(ok(vec![]), &revealed) {
        ChoiceResult::Done(d) => {
            assert!(d.graveyard.is_empty());
            assert_eq!(d.top, vec![id(4), id(3), id(2), id(1)]);
        }
        _ => panic!("expected a surveil decision"),
    }
    match scry_outcome(ok(vec![4]), &revealed) {
        ChoiceResult::Error(e) => assert_eq!(e, "Invalid scry index 4 (only 4 revealed)"),
        _ => panic!("expected an error"),
    }
    match surveil_outcome(ok(vec![1, 1]), &revealed) {
        ChoiceResult::Error(e) => assert_eq!(e, "Duplicate surveil index 1"),
        _ => panic!("expected an error"),
    }
    assert!(matches!(split_pile(&revealed, &vec![0, 9]), Err(PileError::OutOfRange(9))));
    match split_pile(&revealed, &vec![3, 1]) {
        Ok(p) => {
            assert_eq!(p.top.len() + p.moved.len(), revealed.len());
            assert_eq!(p.moved, vec![id(4), id(2)]);
        }
        Err(_) => panic!("expected a split"),
    }
}

#[test]
fn library_sacrifice_modes_untap() {
    assert_eq!(from_library_outcome(ok(vec![]), 3), ChoiceResult::Done(None));
    assert_eq!(from_library_outcome(ok(vec![0, 1]), 3), ChoiceResult::Done(None));
    assert_eq!(from_library_outcome(ok(vec![3, 0]), 3), ChoiceResult::Done(Some(2)));
    assert_eq!(
        err_text(from_library_outcome(ok(vec![4]), 3)),
        "Invalid library search index from network"
    );

    let valid = [id(1), id(2)];
    assert_eq!(sacrifice_outcome(ok(vec![1, 1, 0]), &valid), ChoiceResult::Done(vec![id(2), id(1)]));
    assert_eq!(err_text(sacrifice_outcome(ok(vec![2]), &valid)), "Invalid sacrifice index 2 (max 1)");

    assert_eq!(modes_outcome(ok(vec![2, 0]), 3, 2, 1, false), ChoiceResult::Done(vec![2, 0]));
    assert_eq!(modes_outcome(ok(vec![1, 1]), 3, 2, 1, true), ChoiceResult::Done(vec![1, 1]));
    assert_eq!(
        err_text(modes_outcome(ok(vec![1, 1]), 3, 2, 1, false)),
        "Duplicate mode 1 selected (repeats not allowed)"
    );
    assert_eq!(err_text(modes_outcome(ok(vec![3]), 3, 1, 1, false)), "Invalid mode index 3 (max 2)");
    assert_eq!(err_text(modes_outcome(ok(vec![]), 3, 2, 1, false)), "Too few modes selected: 0 (minimum 1)");
    assert_eq!(
        err_text(modes_outcome(ok(vec![0, 1, 2]), 3, 2, 1, false)),
        "Too many modes selected: 3 (maximum 2)"
    );
    assert_eq!(modes_outcome(Err(NetworkError::Disconnected), 3, 2, 1, false), ChoiceResult::ExitGame);
    assert_eq!(not_untap_outcome(), ChoiceResult::Done(vec![]));
}

#[test]
fn a_scry_keeps_every_revealed_card() {
    let revealed = [id(1), id(2), id(3), id(4), id(5)];
    for indices in [vec![], vec![0], vec![4, 1], vec![3, 0, 2], vec![0, 1, 2, 3, 4]] {
        match scry_outcome(ok(indices.clone()), &revealed) {
            ChoiceResult::Done(d) => {
                let mut all: Vec<u32> = d.top.iter().chain(d.bottom.iter()).map(|c| c.as_u32()).collect();
                all.sort();
                assert_eq!(all, vec![1, 2, 3, 4, 5], "positions {:?}", indices);
            },
            _ => panic!("positions {:?} are valid", indices),
        }
    }
}

#[test]
fn chosen_modes_form_a_valid_selection() {
    for indices in [vec![0], vec![2, 1], vec![1, 1], vec![3], vec![], vec![0, 1, 2]] {
        if let ChoiceResult::Done(modes) = modes_outcome(ok(indices.clone()), 3, 2, 1, false) {
            assert!(modes.iter().all(|&m| m < 3));
            assert!((1..=2).contains(&modes.len()));
            let mut sorted = modes.clone();
            sorted.sort();
            sorted.dedup();
            assert_eq!(sorted.len(), modes.len());
        }
    }
    assert_eq!(modes_outcome(ok(vec![2, 1]), 3, 2, 1, false), ChoiceResult::Done(vec![2, 1]));
}

#[test]
fn only_offered_cards_come_back() {
    let offered = [id(10), id(11), id(12)];
    for indices in [vec![1], vec![3, 0, 2], vec![2, 2], vec![0]] {
        if let ChoiceResult::Done(v) = attackers_outcome(ok(indices.clone()), &offered) {
            assert!(v.iter().all(|c| offered.contains(c)));
        }
        if let ChoiceResult::Done(v) = sacrifice_outcome(ok(indices.clone()), &offered) {
            assert!(v.iter().all(|c| offered.contains(c)));
        }
        if let ChoiceResult::Done(v) = discard_outcome(ok(indices.clone()), &offered) {
            assert!(v.iter().all(|c| offered.contains(c)));
        }
    }
    let attackers = [id(20), id(21)];
    if let ChoiceResult::Done(pairs) = blockers_outcome(ok(vec![1, 6, 4]), &offered, &attackers) {
        assert_eq!(pairs, vec![(id(10), id(20)), (id(12), id(21)), (id(11), id(21))]);
    } else {
        panic!("the blocks are valid");
    }
}
