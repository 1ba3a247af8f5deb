use mtg_engine::game_types::CardId;
use mtg_engine::protocol::{
    now_ms, DeckCardIdRanges, DeckListInfo, DeckSubmission, ReconnectToken, DEFAULT_PORT,
};

#[test]
fn test_deck_card_id_ranges_from_deck_sizes() {
    let ranges = DeckCardIdRanges::from_deck_sizes(40, 40);
    assert_eq!(ranges.p1_start, 0);
    assert_eq!(ranges.p1_end, 40);
    assert_eq!(ranges.p2_start, 40);
    assert_eq!(ranges.p2_end, 80);
    assert_eq!(ranges.total_cards(), 80);
}

#[test]
fn test_deck_card_id_ranges_ranges() {
    let ranges = DeckCardIdRanges::from_deck_sizes(60, 40);
    assert_eq!(ranges.p1_range(), 0..60);
    assert_eq!(ranges.p2_range(), 60..100);
}

#[test]
fn test_deck_card_id_ranges_ownership() {
    let ranges = DeckCardIdRanges::from_deck_sizes(40, 40);
    assert!(ranges.is_p1_card(CardId::new(0)));
    assert!(ranges.is_p1_card(CardId::new(39)));
    assert!(!ranges.is_p1_card(CardId::new(40)));
    assert!(!ranges.is_p2_card(CardId::new(39)));
    assert!(ranges.is_p2_card(CardId::new(40)));
    assert!(ranges.is_p2_card(CardId::new(79)));
    assert!(!ranges.is_p2_card(CardId::new(80)));
}

#[test]
fn test_deck_card_id_ranges_asymmetric_decks() {
    let ranges = DeckCardIdRanges::from_deck_sizes(100, 40);
    assert_eq!(ranges.p1_start, 0);
    assert_eq!(ranges.p1_end, 100);
    assert_eq!(ranges.p2_start, 100);
    assert_eq!(ranges.p2_end, 140);
    assert!(ranges.is_p1_card(CardId::new(99)));
    assert!(!ranges.is_p1_card(CardId::new(100)));
    assert!(ranges.is_p2_card(CardId::new(100)));
    assert!(ranges.is_p2_card(CardId::new(139)));
}

#[test]
fn every_card_id_belongs_to_exactly_one_deck_or_none() {
    let ranges = DeckCardIdRanges::from_deck_sizes(7, 5);
    for n in 0..20u32 {
        let c = CardId::new(n);
        let owners = ranges.is_p1_card(c) as u32 + ranges.is_p2_card(c) as u32;
        assert_eq!(owners, if n < 12 { 1 } else { 0 });
    }
    let empty = DeckCardIdRanges::from_deck_sizes(0, 0);
    assert_eq!(empty.total_cards(), 0);
    assert!(!empty.is_p1_card(CardId::new(0)));
    assert!(!empty.is_p2_card(CardId::new(0)));
}

#[test]
fn deck_submission_counts_cards() {
    let deck = DeckSubmission::new(
        vec![("Lightning Bolt".to_string(), 4), ("Mountain".to_string(), 20)],
        vec![("Pyroclasm".to_string(), 2)],
    );
    assert_eq!(deck.main_deck_size(), 24);
    assert_eq!(deck.sideboard_size(), 2);
    let empty = DeckSubmission::new(Vec::new(), Vec::new());
    assert_eq!(empty.main_deck_size(), 0);
}

#[test]
fn deck_list_info_round_trips_to_a_deck_list() {
    let deck = DeckSubmission::new(vec![("Island".to_string(), 17)], vec![("Negate".to_string(), 3)]);
    let info = DeckListInfo::from_submission(&deck);
    assert_eq!(info.main_deck, vec![("Island".to_string(), 17)]);
    assert_eq!(info.main_deck_size, 17);
    assert_eq!(info.sideboard_size, 3);
    let list = info.to_deck_list();
    assert_eq!(list.main_deck.len(), 1);
    assert_eq!(list.main_deck[0].card_name, "Island");
    assert_eq!(list.main_deck[0].count, 17);
    assert_eq!(list.sideboard[0].card_name, "Negate");
    assert!(list.commanders.is_empty());
}

#[test]
fn reconnect_token_text_and_format() {
    let t = ReconnectToken::from_bits(0x0123_4567_89ab_cdef_0011_2233_4455_6677);
    assert_eq!(t.as_str(), "0123456789abcdef0011223344556677");
    assert!(t.is_valid_format());
    assert_eq!(ReconnectToken::from_bits(0).as_str(), "00000000000000000000000000000000");
    assert!(!ReconnectToken("ABCD1234ABCD1234ABCD1234ABCD1234".to_string()).is_valid_format());
    assert!(!ReconnectToken("abcd".to_string()).is_valid_format());
    assert!(!ReconnectToken("abcd1234abcd1234abcd1234abcd123g".to_string()).is_valid_format());
}

#[test]
fn generated_tokens_are_well_formed() {
    for _ in 0..20 {
        let t = ReconnectToken::generate().expect("system entropy");
        assert!(t.is_valid_format());
        assert_eq!(t.as_str().len(), 32);
    }
    assert_ne!(ReconnectToken::generate().expect("entropy"), ReconnectToken::generate().expect("entropy"));
}

#[test]
fn clock_reads_after_the_epoch() {
    // 2020-01-01 in milliseconds.
    assert!(now_ms() > 1_577_836_800_000);
    assert!(DEFAULT_PORT > 0);
}
