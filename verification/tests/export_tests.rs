use mtg_engine::export::plan_deck_pack;
use mtg_engine::str_map::StrMap;

fn strings(v: &[&str]) -> Vec<String> {
    v.iter().map(|s| s.to_string()).collect()
}

#[test]
fn a_pack_holds_the_found_cards_and_their_tokens() {
    let mut catalogue: StrMap<Vec<String>> = StrMap::new();
    catalogue.insert("Raise the Alarm".to_string(), strings(&["w_1_1_soldier"]));
    catalogue.insert("Forest".to_string(), Vec::new());
    catalogue.insert("Hordeling Outburst".to_string(), strings(&["r_1_1_goblin", "w_1_1_soldier", "c_treasure"]));
    let mut tokens: StrMap<u32> = StrMap::new();
    tokens.insert("w_1_1_soldier".to_string(), 1);
    tokens.insert("r_1_1_goblin".to_string(), 2);

    let names = strings(&["Forest", "Raise the Alarm", "Black Lotus", "Hordeling Outburst"]);
    let plan = plan_deck_pack(&names, &catalogue, &tokens);
    assert_eq!(plan.cards, strings(&["Forest", "Raise the Alarm", "Hordeling Outburst"]));
    assert_eq!(plan.missing_cards, strings(&["Black Lotus"]));
    assert_eq!(plan.tokens, strings(&["w_1_1_soldier", "r_1_1_goblin"]));
    assert_eq!(plan.missing_tokens, strings(&["c_treasure"]));
}

#[test]
fn an_empty_deck_needs_nothing() {
    let catalogue: StrMap<Vec<String>> = StrMap::new();
    let tokens: StrMap<u32> = StrMap::new();
    let plan = plan_deck_pack(&Vec::new(), &catalogue, &tokens);
    assert!(plan.cards.is_empty() && plan.missing_cards.is_empty());
    assert!(plan.tokens.is_empty() && plan.missing_tokens.is_empty());
}
