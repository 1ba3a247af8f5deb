use mtg_engine::choice_decode::{decode_attackers, decode_blockers, decode_subset, resolve_combat_blocker};
use mtg_engine::choice_encode::{
    attacker_indices, blocker_indices, choice_info, connection_end_message, library_index, pick_indices,
    route_reader_message, spell_ability_index, submit_choice, ReaderRoute,
};
use mtg_engine::client::{LocalChoiceInfo, NetworkMessage};
use mtg_engine::game_types::{CardId, PlayerId, SpellAbility};
use mtg_engine::protocol::{CardReveal, ClientMessage, RevealReason};

fn id(n: u32) -> CardId {
    CardId::new(n)
}

#[test]
fn attackers_one_based_with_zero_pass() {
    let creatures = [id(10), id(11), id(12)];
    assert!(decode_attackers(&[0], &creatures).is_empty());
    let got: Vec<_> = decode_attackers(&[1, 3], &creatures).into_iter().collect();
    assert_eq!(got, vec![id(10), id(12)]);
    let got: Vec<_> = decode_attackers(&[2, 9], &creatures).into_iter().collect();
    assert_eq!(got, vec![id(11)]);
}

#[test]
fn blockers_pair_encoding() {
    let blockers = [id(20), id(21)];
    let attackers = [id(30), id(31)];
    let got: Vec<_> = decode_blockers(&[1, 4], &blockers, &attackers).into_iter().collect();
    assert_eq!(got, vec![(id(20), id(30)), (id(21), id(31))]);
    assert!(decode_blockers(&[0], &blockers, &attackers).is_empty());
    assert!(decode_blockers(&[1], &blockers, &[]).is_empty());
}

#[test]
fn subset_zero_based_skip_out_of_range() {
    let hand = [id(40), id(41), id(42)];
    let got: Vec<CardId> = decode_subset(&[0, 2, 5], &hand);
    assert_eq!(got, vec![id(40), id(42)]);
}

#[test]
fn combat_blocker_prefers_cardid() {
    let valid = [id(50), id(51)];
    assert_eq!(resolve_combat_blocker(&[0], Some(&[id(51)]), &valid, "lethal-damage"), Ok(id(51)));
    assert!(resolve_combat_blocker(&[0], Some(&[id(99)]), &valid, "lethal-damage").is_err());
    assert_eq!(resolve_combat_blocker(&[1], None, &valid, "remaining-damage"), Ok(id(51)));
    assert!(resolve_combat_blocker(&[9], None, &valid, "remaining-damage").is_err());
}

#[test]
fn combat_blocker_error_messages() {
    let valid = [id(50), id(51)];
    let foreign = resolve_combat_blocker(&[0], Some(&[id(99)]), &valid, "lethal-damage").unwrap_err();
    assert_eq!(
        foreign,
        format!(
            "FATAL DESYNC: RemoteController lethal-damage blocker {:?} not in valid_blockers [50, 51] \
             (combat-state divergence; index fallback removed \u{2014} mtg-731)",
            id(99)
        )
    );
    let out_of_range = resolve_combat_blocker(&[], Some(&[]), &[], "remaining-damage").unwrap_err();
    assert_eq!(
        out_of_range,
        "FATAL DESYNC: RemoteController received invalid remaining-damage blocker index 0 \
         (only 0 valid blockers); client/server state divergence."
    );
}

#[test]
fn picks_are_sent_as_positions_and_read_back() {
    let options = [id(1), id(2), id(3), id(2)];
    let chosen = [id(3), id(9), id(2)];
    let sent = pick_indices(&chosen, &options);
    // The card not offered is dropped; a repeated option is found at its
    // first position.
    assert_eq!(sent, vec![2, 1]);
    assert_eq!(decode_subset(&sent, &options), vec![id(3), id(2)]);
    assert!(pick_indices(&[], &options).is_empty());
}

#[test]
fn attackers_are_sent_one_based_and_read_back() {
    let available = [id(10), id(11), id(12)];
    let sent = attacker_indices(&[id(12), id(10)], &available);
    assert_eq!(sent, vec![3, 1]);
    assert_eq!(decode_attackers(&sent, &available), vec![id(12), id(10)]);
    // No attacker (or none that was offered) is the single index 0.
    assert_eq!(attacker_indices(&[], &available), vec![0]);
    assert_eq!(attacker_indices(&[id(77)], &available), vec![0]);
    assert!(decode_attackers(&[0], &available).is_empty());
}

#[test]
fn blocks_are_sent_as_pair_codes_and_read_back() {
    let blockers = [id(20), id(21), id(22)];
    let attackers = [id(30), id(31)];
    let blocks = [(id(21), id(31)), (id(20), id(30)), (id(22), id(99))];
    let sent = blocker_indices(&blocks, &blockers, &attackers);
    // (1 * 2 + 1) + 1 = 4 and (0 * 2 + 0) + 1 = 1; the third block names an
    // attacker that is not there.
    assert_eq!(sent, vec![4, 1]);
    assert_eq!(decode_blockers(&sent, &blockers, &attackers), vec![(id(21), id(31)), (id(20), id(30))]);
    assert_eq!(blocker_indices(&[], &blockers, &attackers), vec![0]);
    assert_eq!(blocker_indices(&[(id(20), id(30))], &blockers, &[]), vec![0]);
}

#[test]
fn priority_and_library_indices() {
    let land = SpellAbility::PlayLand { card_id: id(5) };
    let spell = SpellAbility::CastSpell { card_id: id(6) };
    let available = [land, spell];
    assert_eq!(spell_ability_index(&None, &available), 0);
    assert_eq!(spell_ability_index(&Some(spell), &available), 2);
    assert_eq!(spell_ability_index(&Some(land), &available), 1);
    assert_eq!(spell_ability_index(&Some(SpellAbility::PlayLand { card_id: id(8) }), &available), 0);

    let valid = [id(40), id(41)];
    assert_eq!(library_index(Some(id(41)), &valid), 1);
    assert_eq!(library_index(Some(id(99)), &valid), 2);
    assert_eq!(library_index(None, &valid), 2);
}

#[test]
fn choice_info_reads_requests_only() {
    let request = LocalChoiceInfo::Request {
        action_count: 17,
        choice_seq: 4,
        abilities: None,
        library_search_names: None,
        library_search_counts: None,
    };
    assert_eq!(choice_info(Some(request)), Some((4, 17)));
    assert_eq!(choice_info(Some(LocalChoiceInfo::Exit { winner: Some(PlayerId::new(1)) })), None);
    assert_eq!(choice_info(Some(LocalChoiceInfo::Error { message: "boom".to_string() })), None);
    assert_eq!(choice_info(None), None);
}

#[test]
fn submitted_choice_carries_its_fields() {
    match submit_choice(7, vec![2, 0], 31, Some(99), None, None, Some(vec![id(3)])) {
        ClientMessage::SubmitChoice {
            choice_seq,
            choice_indices,
            action_count,
            timestamp_ms,
            client_state_hash,
            debug_info,
            spell_ability,
            target_card_ids,
        } => {
            assert_eq!(choice_seq, 7);
            assert_eq!(choice_indices, vec![2, 0]);
            assert_eq!(action_count, 31);
            assert_eq!(timestamp_ms, 0);
            assert_eq!(client_state_hash, Some(99));
            assert!(debug_info.is_none());
            assert!(spell_ability.is_none());
            assert_eq!(target_card_ids, Some(vec![id(3)]));
        }
        other => panic!("wrong variant: {:?}", other),
    }
}

fn revealed(n: u32, name: &str) -> CardReveal {
    CardReveal { card_id: id(n), name: name.to_string(), card_def: None }
}

#[test]
fn reveals_go_to_the_reveal_buffer() {
    let msg = NetworkMessage::CardRevealed {
        owner: PlayerId::new(0),
        card: revealed(5, "Forest"),
        reason: RevealReason::Draw,
        action_count: Some(3),
    };
    match route_reader_message(msg) {
        ReaderRoute::Buffer(v) => {
            assert_eq!(v.len(), 1);
            assert_eq!(v[0].card.name, "Forest");
            assert_eq!(v[0].reason, RevealReason::Draw);
        },
        ReaderRoute::Forward(_) => panic!("a reveal is buffered"),
    }
}

#[test]
fn search_candidates_become_searched_reveals() {
    let msg = NetworkMessage::SearchCandidates {
        searcher: PlayerId::new(1),
        cards: vec![revealed(7, "Island"), revealed(8, "Swamp")],
        action_count: 9,
    };
    match route_reader_message(msg) {
        ReaderRoute::Buffer(v) => {
            assert_eq!(v.len(), 2);
            assert!(v.iter().all(|r| r.owner == PlayerId::new(1) && r.reason == RevealReason::Searched));
            assert_eq!(v[1].card.card_id, id(8));
        },
        ReaderRoute::Forward(_) => panic!("candidates are buffered"),
    }
}

#[test]
fn other_messages_go_to_the_controllers() {
    let msg = NetworkMessage::GameEnded { winner: Some(PlayerId::new(0)), action_count: 12 };
    assert!(matches!(
        route_reader_message(msg),
        ReaderRoute::Forward(NetworkMessage::GameEnded { action_count: 12, .. })
    ));
    assert!(matches!(
        connection_end_message(None),
        NetworkMessage::GameEnded { winner: None, action_count: 0 }
    ));
    match connection_end_message(Some("reset".to_string())) {
        NetworkMessage::Error { message, fatal } => {
            assert_eq!(message, "reset");
            assert!(fatal);
        },
        _ => panic!("expected an error"),
    }
}
