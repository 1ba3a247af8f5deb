use mtg_engine::str_map::StrMap;
use mtg_engine::svar_parser::{
    get_effect_def, get_static_ability, parse_all_svars, parse_svar, uses_remembered, ApiType, ComputedValueExpr,
    ParsedSVar, StaticAbilityMode,
};

#[test]
fn test_parse_boolean_flag() {
    assert_eq!(parse_svar("TRUE"), ParsedSVar::BooleanFlag(true));
    assert_eq!(parse_svar("true"), ParsedSVar::BooleanFlag(true));
    assert_eq!(parse_svar("FALSE"), ParsedSVar::BooleanFlag(false));
}

#[test]
fn test_parse_sacrificed_expr() {
    match parse_svar("Sacrificed$CardPower") {
        ParsedSVar::ComputedValue(ComputedValueExpr::SacrificedCardPower) => {}
        other => panic!("Expected SacrificedCardPower, got {:?}", other),
    }
}

#[test]
fn test_parse_static_ability_cant_block_by() {
    let svar = "Mode$ CantBlockBy | ValidAttacker$ Card.IsRemembered | Description$ This creature can't be blocked.";
    match parse_svar(svar) {
        ParsedSVar::StaticAbility(def) => {
            assert_eq!(def.mode, StaticAbilityMode::CantBlockBy);
            assert_eq!(def.params.get("ValidAttacker"), Some(&"Card.IsRemembered".to_string()));
            assert!(def.description.is_some());
        }
        other => panic!("Expected StaticAbility, got {:?}", other),
    }
}

#[test]
fn test_parse_static_ability_continuous() {
    let svar = "Mode$ Continuous | Affected$ Card.IsRemembered | AffectedZone$ Exile | MayPlay$ True | MayPlayWithoutManaCost$ True";
    match parse_svar(svar) {
        ParsedSVar::StaticAbility(def) => {
            assert_eq!(def.mode, StaticAbilityMode::Continuous);
            assert_eq!(def.params.get("Affected"), Some(&"Card.IsRemembered".to_string()));
            assert_eq!(def.params.get("AffectedZone"), Some(&"Exile".to_string()));
            assert_eq!(def.params.get("MayPlay"), Some(&"True".to_string()));
        }
        other => panic!("Expected StaticAbility, got {:?}", other),
    }
}

#[test]
fn test_parse_effect_def_db() {
    let svar = "DB$ Draw | NumCards$ 1";
    match parse_svar(svar) {
        ParsedSVar::Effect(def) => {
            assert!(!def.is_activated);
            assert_eq!(def.api_type, ApiType::Draw);
        }
        other => panic!("Expected Effect, got {:?}", other),
    }
}

#[test]
fn test_parse_effect_def_with_subability() {
    let svar = "DB$ Pump | Defined$ Self | KW$ Flying | SubAbility$ DBGainLife";
    match parse_svar(svar) {
        ParsedSVar::Effect(def) => {
            assert!(!def.is_activated);
            assert_eq!(def.api_type, ApiType::Pump);
            assert_eq!(def.sub_ability, Some("DBGainLife".to_string()));
        }
        other => panic!("Expected Effect, got {:?}", other),
    }
}

#[test]
fn test_uses_remembered() {
    let svar = "Mode$ CantBlockBy | ValidAttacker$ Card.IsRemembered";
    if let ParsedSVar::StaticAbility(def) = parse_svar(svar) {
        assert!(uses_remembered(&def));
    } else {
        panic!("Expected StaticAbility");
    }
}

#[test]
fn activated_effect_keeps_its_parameters() {
    match parse_svar("AB$ DealDamage | Cost$ T | NumDmg$ 2") {
        ParsedSVar::Effect(def) => {
            assert!(def.is_activated);
            assert_eq!(def.api_type, ApiType::DealDamage);
            assert_eq!(def.params.get("NumDmg"), Some(&"2".to_string()));
            assert_eq!(def.params.get("Cost"), Some(&"T".to_string()));
            assert_eq!(def.sub_ability, None);
        }
        other => panic!("Expected Effect, got {:?}", other),
    }
}

#[test]
fn unknown_api_type_is_kept_by_name() {
    match parse_svar("DB$ Fateseal | Defined$ You") {
        ParsedSVar::Effect(def) => assert_eq!(def.api_type, ApiType::Other("Fateseal".to_string())),
        other => panic!("Expected Effect, got {:?}", other),
    }
}

#[test]
fn unknown_mode_is_kept_by_name_and_round_trips() {
    let mode = StaticAbilityMode::parse("Exotic");
    assert_eq!(mode, StaticAbilityMode::Unknown("Exotic".to_string()));
    assert_eq!(mode.as_str(), "Exotic");
    assert_eq!(StaticAbilityMode::parse("CantBlockBy").as_str(), "CantBlockBy");
}

#[test]
fn computed_values_and_raw_text() {
    assert_eq!(
        parse_svar("Sacrificed$CardToughness"),
        ParsedSVar::ComputedValue(ComputedValueExpr::SacrificedCardToughness)
    );
    assert_eq!(
        parse_svar("Sacrificed$Other"),
        ParsedSVar::ComputedValue(ComputedValueExpr::Raw("Sacrificed$Other".to_string()))
    );
    match parse_svar("  Count$Valid Creature.YouCtrl  ") {
        ParsedSVar::ComputedValue(ComputedValueExpr::Count { expression }) => {
            assert_eq!(expression, "Count$Valid Creature.YouCtrl")
        }
        other => panic!("Expected Count, got {:?}", other),
    }
    assert_eq!(parse_svar("just some words"), ParsedSVar::Raw("just some words".to_string()));
}

#[test]
fn static_ability_with_empty_mode_is_unknown() {
    match parse_svar("Mode$ | Affected$ Card.Self") {
        ParsedSVar::StaticAbility(def) => {
            assert_eq!(def.mode, StaticAbilityMode::Unknown(String::new()));
            assert_eq!(def.params.get("Affected"), Some(&"Card.Self".to_string()));
            assert_eq!(def.description, None);
        }
        other => panic!("Expected StaticAbility, got {:?}", other),
    }
}

#[test]
fn parse_all_and_lookups() {
    let mut raw: StrMap<String> = StrMap::new();
    raw.insert("Stat".to_string(), "Mode$ CantBlockBy | ValidAttacker$ Creature".to_string());
    raw.insert("Eff".to_string(), "DB$ Draw | NumCards$ 2".to_string());
    raw.insert("Flag".to_string(), "FALSE".to_string());
    let parsed = parse_all_svars(&raw);
    assert_eq!(parsed.len(), 3);
    assert!(get_static_ability(&parsed, "Stat").is_some());
    assert!(get_static_ability(&parsed, "Eff").is_none());
    assert_eq!(get_effect_def(&parsed, "Eff").map(|d| d.api_type.clone()), Some(ApiType::Draw));
    assert!(get_effect_def(&parsed, "Flag").is_none());
    assert!(get_effect_def(&parsed, "Missing").is_none());
    let def = get_static_ability(&parsed, "Stat").unwrap();
    assert!(!uses_remembered(def));
}

#[test]
fn only_attacker_and_affected_parameters_count_as_remembered() {
    let check = |body: &str| match parse_svar(body) {
        ParsedSVar::StaticAbility(def) => uses_remembered(&def),
        _ => panic!("expected a static ability"),
    };
    assert!(check("Mode$ CantBlockBy | ValidAttacker$ Card.IsRemembered"));
    assert!(check("Mode$ Continuous | Affected$ Creature.IsRemembered | AddPower$ 1"));
    assert!(!check("Mode$ CantBlockBy | ValidBlocker$ Card.IsRemembered"));
    assert!(!check("Mode$ CantBlockBy | ValidAttacker$ Creature"));
}

#[test]
fn surrounding_whitespace_does_not_change_a_parse() {
    for body in ["  TRUE ", "\tCount$ xPaid\n", "  Mode$ CantAttack | ValidCard$ Creature  ", " DB$ Draw | NumCards$ 1 ", "  something  "] {
        assert_eq!(parse_svar(body), parse_svar(body.trim()), "body {:?}", body);
    }
}

#[test]
fn parse_all_svars_parses_each_body_as_parse_svar_does() {
    let bodies = [
        ("Stat", "  Mode$ Continuous | Affected$ Creature.YouCtrl | AddPower$ 1 "),
        ("Eff", "AB$ Pump | NumAtt$ +2 | SubAbility$ DBDraw"),
        ("Cnt", "Count$ Valid Creature.YouCtrl"),
        ("Flag", "true"),
        ("Other", "Number$ 3"),
    ];
    let mut raw: StrMap<String> = StrMap::new();
    for (name, body) in bodies {
        raw.insert(name.to_string(), body.to_string());
    }
    let parsed = parse_all_svars(&raw);
    assert_eq!(parsed.len(), bodies.len());
    for (name, body) in bodies {
        assert_eq!(parsed.get(name), Some(&parse_svar(body)), "name {:?}", name);
        assert_eq!(parse_svar(body), parse_svar(body.trim()));
    }
    assert!(parsed.get("Missing").is_none());
}

#[test]
fn parsing_a_body_twice_gives_equal_values() {
    for body in ["Mode$ CantBlockBy | ValidAttacker$ Creature | Mode$ Attacks", "DB$ Frobnicate | X$ 1", "Sacrificed$CardPower", "Sacrificed$Other"] {
        assert_eq!(parse_svar(body), parse_svar(body));
    }
}
