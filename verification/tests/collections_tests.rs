use mtg_engine::game_types::{push_card_debug, push_player_debug, CardId, ManaCost, PlayerId, SpellAbility};
use mtg_engine::id_map::IdMap;
use mtg_engine::stable_sort::{stable_sort_by_key, stable_sort_by_text, text_before};
use mtg_engine::str_map::StrMap;

#[test]
fn sort_by_key_is_stable() {
    let sorted = stable_sort_by_key(vec![(3, 'a'), (1, 'b'), (3, 'c'), (0, 'd'), (1, 'e')]);
    assert_eq!(sorted, vec![(0, 'd'), (1, 'b'), (1, 'e'), (3, 'a'), (3, 'c')]);
    assert!(stable_sort_by_key::<u8>(Vec::new()).is_empty());
}

#[test]
fn sort_by_text_is_stable_and_lexicographic() {
    let key = |s: &str| s.chars().collect::<Vec<char>>();
    let sorted = stable_sort_by_text(vec![(key("bob"), 1), (key("al"), 2), (key("bob"), 3), (key("alice"), 4)]);
    let order: Vec<i32> = sorted.iter().map(|(_, v)| *v).collect();
    assert_eq!(order, vec![2, 4, 1, 3]);
    assert!(text_before(&key("al"), &key("alice")));
    assert!(!text_before(&key("b"), &key("a")));
    assert!(!text_before(&key("a"), &key("a")));
}

#[test]
fn str_map_insert_get_remove() {
    let mut m: StrMap<u32> = StrMap::new();
    assert_eq!(m.insert("a".to_string(), 1), None);
    assert_eq!(m.insert("b".to_string(), 2), None);
    assert_eq!(m.insert("a".to_string(), 3), Some(1));
    assert_eq!(m.len(), 2);
    assert_eq!(m.get("a"), Some(&3));
    assert!(m.contains_key("b"));
    assert_eq!(m.remove("b"), Some(2));
    assert_eq!(m.remove("b"), None);
    assert!(!m.contains_key("b"));
    assert_eq!(m.entries().len(), 1);
}

#[test]
fn id_map_keeps_insertion_order() {
    let mut m: IdMap<&str> = IdMap::new();
    m.insert(5, "five");
    m.insert(2, "two");
    m.insert(5, "FIVE");
    assert_eq!(m.len(), 2);
    let ids: Vec<u64> = m.entries().iter().map(|(k, _)| *k).collect();
    assert_eq!(ids, vec![5, 2]);
    assert_eq!(m.entries()[0].1, "FIVE");
}

#[test]
fn debug_texts_match_derived_debug() {
    let mut buf: Vec<char> = Vec::new();
    push_card_debug(&mut buf, CardId::new(42));
    assert_eq!(buf.iter().collect::<String>(), format!("{:?}", CardId::new(42)));
    let mut buf: Vec<char> = Vec::new();
    push_player_debug(&mut buf, PlayerId::new(1));
    assert_eq!(buf.iter().collect::<String>(), format!("{:?}", PlayerId::new(1)));
}

#[test]
fn mana_costs_are_written_generic_first() {
    let cost = ManaCost { generic: 3, white: 1, blue: 0, black: 2, red: 0, green: 0, colorless: 1 };
    assert_eq!(cost.text(), "{3}{W}{B}{B}{C}");
    let colored = ManaCost { generic: 0, white: 0, blue: 2, black: 0, red: 0, green: 1, colorless: 0 };
    assert_eq!(colored.text(), "{U}{U}{G}");
}

#[test]
fn every_spell_ability_names_its_card() {
    let cost = ManaCost { generic: 1, white: 0, blue: 0, black: 0, red: 0, green: 0, colorless: 0 };
    let c = CardId::new(9);
    for a in [
        SpellAbility::PlayLand { card_id: c },
        SpellAbility::CastSpell { card_id: c },
        SpellAbility::ActivateAbility { card_id: c, ability_index: 1 },
        SpellAbility::CastFromExile { card_id: c, alternative_cost: cost },
        SpellAbility::CastFromCommand { card_id: c, total_cost: cost },
        SpellAbility::Cycle { card_id: c, cost, search_type: None },
        SpellAbility::CastFromGraveyard { card_id: c, cost },
    ] {
        assert_eq!(a.card_id(), c);
    }
    assert_eq!(CardId::new(7).as_u32(), 7);
    assert_eq!(PlayerId::new(1).as_u32(), 1);
}
