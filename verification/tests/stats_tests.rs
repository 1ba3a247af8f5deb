use mtg_engine::stats::{
    cmc_histogram, collect_names, count_cards_with, push_padded_left, push_padded_right, rank_by_count,
    statistics_report, tally, CardFlag, CardSummary, NameField,
};

fn strings(v: &[&str]) -> Vec<String> {
    v.iter().map(|s| s.to_string()).collect()
}

fn card(types: &[&str], colors: &[&str], subtypes: &[&str], keywords: &[&str], cmc: u32) -> CardSummary {
    CardSummary {
        types: strings(types),
        colors: strings(colors),
        subtypes: strings(subtypes),
        keywords: strings(keywords),
        has_raw_abilities: !keywords.is_empty(),
        has_raw_keywords: !keywords.is_empty(),
        has_triggers: false,
        has_activated_abilities: cmc == 0,
        cmc,
    }
}

#[test]
fn tally_counts_in_order_of_first_appearance() {
    let items = strings(&["Creature", "Land", "Creature", "Instant", "Creature", "Land"]);
    assert_eq!(
        tally(&items),
        vec![("Creature".to_string(), 3), ("Land".to_string(), 2), ("Instant".to_string(), 1)]
    );
    assert!(tally(&Vec::new()).is_empty());
}

#[test]
fn ranking_puts_the_largest_counts_first_and_keeps_ties_in_order() {
    let counts = vec![
        ("a".to_string(), 1),
        ("b".to_string(), 4),
        ("c".to_string(), 1),
        ("d".to_string(), 4),
        ("e".to_string(), 2),
    ];
    let ranked: Vec<(String, usize)> = rank_by_count(counts);
    let names: Vec<&str> = ranked.iter().map(|e| e.0.as_str()).collect();
    assert_eq!(names, vec!["b", "d", "e", "a", "c"]);
}

#[test]
fn padding_matches_the_width_formats() {
    let mut buf = Vec::new();
    push_padded_right(&mut buf, &"Land".chars().collect(), 6);
    push_padded_left(&mut buf, &"42".chars().collect(), 5);
    push_padded_right(&mut buf, &"Planeswalker".chars().collect(), 4);
    assert_eq!(buf.iter().collect::<String>(), format!("{:6}{:>5}{:4}", "Land", "42", "Planeswalker"));
}

#[test]
fn collecting_names_and_counting_flags() {
    let cards = vec![
        card(&["Creature"], &["Green"], &["Elf", "Druid"], &["Haste"], 1),
        card(&["Land"], &[], &["Forest"], &[], 0),
        card(&["Artifact", "Creature"], &[], &[], &[], 9),
    ];
    assert_eq!(collect_names(&cards, NameField::Types), strings(&["Creature", "Land", "Artifact", "Creature"]));
    assert_eq!(collect_names(&cards, NameField::Subtypes), strings(&["Elf", "Druid", "Forest"]));
    assert_eq!(count_cards_with(&cards, CardFlag::RawKeywords), 1);
    assert_eq!(count_cards_with(&cards, CardFlag::ActivatedAbilities), 1);
    assert_eq!(count_cards_with(&cards, CardFlag::Triggers), 0);
    assert_eq!(cmc_histogram(&cards), vec![1, 1, 0, 0, 0, 0, 0, 0, 1]);
}

#[test]
fn an_empty_collection_has_no_statistics() {
    assert_eq!(statistics_report(&[]), vec!["No cards loaded.".to_string()]);
}

#[test]
fn report_lines_are_formatted_as_the_command_prints_them() {
    let cards = vec![
        card(&["Creature"], &["Green"], &["Elf"], &["Haste"], 1),
        card(&["Land"], &[], &["Forest"], &[], 0),
        card(&["Creature"], &["Green"], &["Elf"], &[], 8),
    ];
    let lines = statistics_report(&cards);
    let expected: Vec<String> = vec![
        "=== Card Database Statistics ===".to_string(),
        String::new(),
        "--- Card Types ---".to_string(),
        format!("  {:12} {:6}", "Creature", 2),
        format!("  {:12} {:6}", "Land", 1),
        String::new(),
        "--- Colors ---".to_string(),
        format!("  {:12} {:6}", "Green", 2),
        String::new(),
        "--- Top 30 Subtypes ---".to_string(),
        "  Total distinct subtypes: 2".to_string(),
        format!("  {:20} {:6}", "Elf", 2),
        format!("  {:20} {:6}", "Forest", 1),
        String::new(),
        "--- Top 30 Keywords ---".to_string(),
        "  Total distinct keywords: 1".to_string(),
        format!("  {:25} {:6}", "Haste", 1),
        String::new(),
        "--- Ability Statistics ---".to_string(),
        format!("  Cards with raw abilities:  {:6}", 1),
        format!("  Cards with keywords:       {:6}", 1),
        format!("  Cards with triggers:       {:6}", 0),
        format!("  Cards with activated abs:  {:6}", 1),
        String::new(),
        "--- Mana Cost Distribution ---".to_string(),
        format!("  CMC {}:                     {:6}", 0, 1),
        format!("  CMC {}:                     {:6}", 1, 1),
        format!("  CMC {}:                     {:6}", 2, 0),
        format!("  CMC {}:                     {:6}", 3, 0),
        format!("  CMC {}:                     {:6}", 4, 0),
        format!("  CMC {}:                     {:6}", 5, 0),
        format!("  CMC {}:                     {:6}", 6, 0),
        format!("  CMC {}:                     {:6}", 7, 0),
        format!("  CMC 8+:                    {:6}", 1),
    ];
    assert_eq!(lines, expected);
}

#[test]
fn only_thirty_subtypes_are_listed() {
    let names: Vec<String> = (0..35).map(|i| format!("Type{i}")).collect();
    let refs: Vec<&str> = names.iter().map(|s| s.as_str()).collect();
    let cards = vec![card(&["Creature"], &[], &refs, &[], 2)];
    let lines = statistics_report(&cards);
    assert!(lines.contains(&"  Total distinct subtypes: 35".to_string()));
    let listed = lines.iter().filter(|l| l.starts_with("  Type")).count();
    assert_eq!(listed, 30);
}
