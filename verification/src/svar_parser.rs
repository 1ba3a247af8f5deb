//! Parsing of card script variables (SVars).
//!
//! An SVar line has the form `SVar:NAME:body`; this module parses the body.
//! A body is one of:
//! - `TRUE` / `FALSE` (any ASCII case): a boolean flag;
//! - `Sacrificed$...` or `Count$...`: a computed value;
//! - `Mode$ Type | Key$ Value | ...`: a static ability;
//! - `DB$ Api | Key$ Value | ...` or `AB$ Api | ...`: an effect;
//! - anything else, kept as raw text.
//!
//! Pipe-separated parts are read as `Key$ Value`: the text before the first
//! `$` is the key and the text after it the value, both trimmed; a part
//! without `$` is ignored, and a later part with the same key replaces an
//! earlier one.
use crate::str_map::{has_str_key, key_index, keys_distinct, lemma_key_index, map_of, text_map, StrMap};
use crate::text::{
    chars_of, contains_chars, eq_ignore_ascii_case, find_char, find_char_exec, has_prefix,
    lemma_find_char, opt_text, same_ignoring_ascii_case, slice_chars, split_chars, split_on,
    starts_with, is_text, to_string, trim, trim_chars, views, contains_text,
};
use vstd::prelude::*;

verus! {

// ---------------------------------------------------------------------------
// Types
// ---------------------------------------------------------------------------
/// A parsed SVar definition.
#[derive(Debug, Clone, PartialEq, Eq)]
pub enum ParsedSVar {
    /// A static ability definition (`Mode$ ...`).
    StaticAbility(StaticAbilityDef),
    /// An effect definition (`DB$ ...` or `AB$ ...`), which `Execute$` or
    /// `SubAbility$` can refer to.
    Effect(EffectDef),
    /// A boolean flag (`TRUE`, `FALSE`).
    BooleanFlag(bool),
    /// A computed value expression (`Count$`, `Sacrificed$`).
    ComputedValue(ComputedValueExpr),
    /// Content in no supported form, kept as it is.
    Raw(String),
}

/// A static ability definition parsed from a `Mode$` SVar.
#[derive(Debug, Clone, PartialEq, Eq)]
pub struct StaticAbilityDef {
    /// The mode (type) of the static ability.
    pub mode: StaticAbilityMode,
    /// The parameters other than `Mode` and `Description`.
    pub params: StrMap<String>,
    /// The `Description$` text, if any.
    pub description: Option<String>,
}

/// Types of static abilities (the `Mode$` parameter).
#[derive(Debug, Clone, PartialEq, Eq, Hash)]
pub enum StaticAbilityMode {
    /// Prevents certain creatures from blocking.
    CantBlockBy,
    /// Prevents creatures from attacking.
    CantAttack,
    /// Prevents creatures from blocking.
    CantBlock,
    /// A general continuous effect.
    Continuous,
    /// Triggers when a creature attacks.
    Attacks,
    /// Triggers on zone changes.
    ChangesZone,
    /// Triggers at specific phases.
    Phase,
    /// Triggers when spells are cast.
    SpellCast,
    /// Triggers when lands are played.
    LandPlayed,
    /// Triggers when permanents are sacrificed.
    Sacrificed,
    /// The affected creature attacks each combat if able.
    MustAttack,
    /// Any other mode, kept by name.
    Unknown(String),
}

/// An effect definition parsed from a `DB$` or `AB$` SVar.
#[derive(Debug, Clone, PartialEq, Eq)]
pub struct EffectDef {
    /// Whether this is `AB$` (activated) rather than `DB$`.
    pub is_activated: bool,
    /// The effect's API type (Draw, DealDamage, Pump, ...).
    pub api_type: ApiType,
    /// The parameters other than the API type and `SubAbility`.
    pub params: StrMap<String>,
    /// The `SubAbility$` reference, if any.
    pub sub_ability: Option<String>,
}

/// The API type of an effect: what the effect does.
#[derive(Debug, Clone, PartialEq, Eq, Hash)]
pub enum ApiType {
    Draw,
    DealDamage,
    Pump,
    PumpAll,
    GainLife,
    LoseLife,
    Destroy,
    DestroyAll,
    ChangeZone,
    Token,
    PutCounter,
    Sacrifice,
    Discard,
    Mill,
    Tap,
    Untap,
    Counter,
    Effect,
    /// Any other API type, kept by name.
    Other(String),
}

/// A computed value expression.
#[derive(Debug, Clone, PartialEq, Eq)]
pub enum ComputedValueExpr {
    /// `Sacrificed$CardPower`: power of the sacrificed card.
    SacrificedCardPower,
    /// `Sacrificed$CardToughness`: toughness of the sacrificed card.
    SacrificedCardToughness,
    /// `Count$...`: a count of matching objects.
    Count { expression: String },
    /// A conditional value.
    Compare { expression: String },
    /// An expression in no supported form.
    Raw(String),
}

// ---------------------------------------------------------------------------
// Specification
// ---------------------------------------------------------------------------
/// The mode a known `Mode$` name stands for.
pub open spec fn mode_for(s: Seq<char>) -> Option<StaticAbilityMode> {
    if s == "CantBlockBy"@ {
        Some(StaticAbilityMode::CantBlockBy)
    } else if s == "CantAttack"@ {
        Some(StaticAbilityMode::CantAttack)
    } else if s == "CantBlock"@ {
        Some(StaticAbilityMode::CantBlock)
    } else if s == "Continuous"@ {
        Some(StaticAbilityMode::Continuous)
    } else if s == "Attacks"@ {
        Some(StaticAbilityMode::Attacks)
    } else if s == "ChangesZone"@ {
        Some(StaticAbilityMode::ChangesZone)
    } else if s == "Phase"@ {
        Some(StaticAbilityMode::Phase)
    } else if s == "SpellCast"@ {
        Some(StaticAbilityMode::SpellCast)
    } else if s == "LandPlayed"@ {
        Some(StaticAbilityMode::LandPlayed)
    } else if s == "Sacrificed"@ {
        Some(StaticAbilityMode::Sacrificed)
    } else if s == "MustAttack"@ {
        Some(StaticAbilityMode::MustAttack)
    } else {
        None
    }
}

/// The name of a mode.
pub open spec fn mode_name(m: StaticAbilityMode) -> Seq<char> {
    match m {
        StaticAbilityMode::CantBlockBy => "CantBlockBy"@,
        StaticAbilityMode::CantAttack => "CantAttack"@,
        StaticAbilityMode::CantBlock => "CantBlock"@,
        StaticAbilityMode::Continuous => "Continuous"@,
        StaticAbilityMode::Attacks => "Attacks"@,
        StaticAbilityMode::ChangesZone => "ChangesZone"@,
        StaticAbilityMode::Phase => "Phase"@,
        StaticAbilityMode::SpellCast => "SpellCast"@,
        StaticAbilityMode::LandPlayed => "LandPlayed"@,
        StaticAbilityMode::Sacrificed => "Sacrificed"@,
        StaticAbilityMode::MustAttack => "MustAttack"@,
        StaticAbilityMode::Unknown(s) => s@,
    }
}

/// `m` is the mode the name `s` gives: the known mode it names, or
/// `Unknown` holding `s`.
pub open spec fn mode_parsed_from(s: Seq<char>, m: StaticAbilityMode) -> bool {
    match mode_for(s) {
        Some(k) => m == k,
        None => m matches StaticAbilityMode::Unknown(u) && u@ == s,
    }
}

/// The API type a known API name stands for.
pub open spec fn api_for(s: Seq<char>) -> Option<ApiType> {
    if s == "Draw"@ {
        Some(ApiType::Draw)
    } else if s == "DealDamage"@ {
        Some(ApiType::DealDamage)
    } else if s == "Pump"@ {
        Some(ApiType::Pump)
    } else if s == "PumpAll"@ {
        Some(ApiType::PumpAll)
    } else if s == "GainLife"@ {
        Some(ApiType::GainLife)
    } else if s == "LoseLife"@ {
        Some(ApiType::LoseLife)
    } else if s == "Destroy"@ {
        Some(ApiType::Destroy)
    } else if s == "DestroyAll"@ {
        Some(ApiType::DestroyAll)
    } else if s == "ChangeZone"@ {
        Some(ApiType::ChangeZone)
    } else if s == "Token"@ {
        Some(ApiType::Token)
    } else if s == "PutCounter"@ {
        Some(ApiType::PutCounter)
    } else if s == "Sacrifice"@ {
        Some(ApiType::Sacrifice)
    } else if s == "Discard"@ {
        Some(ApiType::Discard)
    } else if s == "Mill"@ {
        Some(ApiType::Mill)
    } else if s == "Tap"@ {
        Some(ApiType::Tap)
    } else if s == "Untap"@ {
        Some(ApiType::Untap)
    } else if s == "Counter"@ {
        Some(ApiType::Counter)
    } else if s == "Effect"@ {
        Some(ApiType::Effect)
    } else {
        None
    }
}

/// `a` is the API type the name `s` gives.
pub open spec fn api_parsed_from(s: Seq<char>, a: ApiType) -> bool {
    match api_for(s) {
        Some(k) => a == k,
        None => a matches ApiType::Other(u) && u@ == s,
    }
}

/// The name of an API type.
pub open spec fn api_name(a: ApiType) -> Seq<char> {
    match a {
        ApiType::Draw => "Draw"@,
        ApiType::DealDamage => "DealDamage"@,
        ApiType::Pump => "Pump"@,
        ApiType::PumpAll => "PumpAll"@,
        ApiType::GainLife => "GainLife"@,
        ApiType::LoseLife => "LoseLife"@,
        ApiType::Destroy => "Destroy"@,
        ApiType::DestroyAll => "DestroyAll"@,
        ApiType::ChangeZone => "ChangeZone"@,
        ApiType::Token => "Token"@,
        ApiType::PutCounter => "PutCounter"@,
        ApiType::Sacrifice => "Sacrifice"@,
        ApiType::Discard => "Discard"@,
        ApiType::Mill => "Mill"@,
        ApiType::Tap => "Tap"@,
        ApiType::Untap => "Untap"@,
        ApiType::Counter => "Counter"@,
        ApiType::Effect => "Effect"@,
        ApiType::Other(s) => s@,
    }
}

/// Key and value of a `Key$ Value` part: the trimmed part split at its
/// first `$`, each side trimmed.
pub open spec fn key_value(part: Seq<char>) -> Option<(Seq<char>, Seq<char>)> {
    let p = trim(part);
    match find_char(p, '$') {
        Some(i) => Some((trim(p.take(i)), trim(p.skip(i + 1)))),
        None => None,
    }
}

/// The value of the last part whose key is `key`.
pub open spec fn last_value_for(parts: Seq<Seq<char>>, key: Seq<char>) -> Option<Seq<char>>
    decreases parts.len(),
{
    if parts.len() == 0 {
        None
    } else {
        match key_value(parts.last()) {
            Some(kv) => if kv.0 == key {
                Some(kv.1)
            } else {
                last_value_for(parts.drop_last(), key)
            },
            None => last_value_for(parts.drop_last(), key),
        }
    }
}

/// The parameters of a static ability: every `Key$ Value` part but `Mode`
/// and `Description`, later parts winning.
pub open spec fn static_params(parts: Seq<Seq<char>>) -> Map<Seq<char>, Seq<char>>
    decreases parts.len(),
{
    if parts.len() == 0 {
        Map::empty()
    } else {
        let m = static_params(parts.drop_last());
        match key_value(parts.last()) {
            Some(kv) => if kv.0 == "Mode"@ || kv.0 == "Description"@ {
                m
            } else {
                m.insert(kv.0, kv.1)
            },
            None => m,
        }
    }
}

/// The parameters of an effect: every `Key$ Value` part but `SubAbility`,
/// later parts winning.
pub open spec fn effect_params(parts: Seq<Seq<char>>) -> Map<Seq<char>, Seq<char>>
    decreases parts.len(),
{
    if parts.len() == 0 {
        Map::empty()
    } else {
        let m = effect_params(parts.drop_last());
        match key_value(parts.last()) {
            Some(kv) => if kv.0 == "SubAbility"@ {
                m
            } else {
                m.insert(kv.0, kv.1)
            },
            None => m,
        }
    }
}

/// `def` is the static ability the (trimmed) body describes.
pub open spec fn static_def_matches(body: Seq<char>, def: StaticAbilityDef) -> bool {
    let parts = split_on(body, '|');
    &&& match last_value_for(parts, "Mode"@) {
        Some(m) => mode_parsed_from(m, def.mode),
        None => def.mode matches StaticAbilityMode::Unknown(u) && u@.len() == 0,
    }
    &&& def.params.wf()
    &&& text_map(def.params.pairs()) == static_params(parts)
    &&& opt_text(def.description) == last_value_for(parts, "Description"@)
}

/// The API name of an effect body: the value of its first part.
pub open spec fn effect_api_name(body: Seq<char>) -> Seq<char> {
    match key_value(split_on(body, '|')[0]) {
        Some(kv) => kv.1,
        None => Seq::empty(),
    }
}

/// `r` is what an effect body (`DB$ ...` or `AB$ ...`) parses to. A body
/// with an empty API name is malformed and kept raw.
pub open spec fn effect_matches(body: Seq<char>, r: ParsedSVar) -> bool {
    let rest = split_on(body, '|').drop_first();
    let name = effect_api_name(body);
    if name.len() == 0 {
        r matches ParsedSVar::Raw(s) && s@ == body
    } else {
        &&& r matches ParsedSVar::Effect(def)
        &&& def.is_activated == starts_with(body, "AB$"@)
        &&& api_parsed_from(name, def.api_type)
        &&& def.params.wf()
        &&& text_map(def.params.pairs()) == effect_params(rest)
        &&& opt_text(def.sub_ability) == last_value_for(rest, "SubAbility"@)
    }
}

/// The expression of a `Sacrificed$` body: the body without that prefix.
pub open spec fn sacrificed_expr(body: Seq<char>) -> Seq<char> {
    if starts_with(body, "Sacrificed$"@) {
        body.skip("Sacrificed$"@.len() as int)
    } else {
        body
    }
}

/// `r` is what a `Sacrificed$` body parses to.
pub open spec fn sacrificed_matches(body: Seq<char>, r: ParsedSVar) -> bool {
    let expr = sacrificed_expr(body);
    if expr == "CardPower"@ {
        r == ParsedSVar::ComputedValue(ComputedValueExpr::SacrificedCardPower)
    } else if expr == "CardToughness"@ {
        r == ParsedSVar::ComputedValue(ComputedValueExpr::SacrificedCardToughness)
    } else {
        r matches ParsedSVar::ComputedValue(ComputedValueExpr::Raw(s)) && s@ == body
    }
}

/// `r` is what the SVar body `body` parses to.
pub open spec fn svar_matches(body: Seq<char>, r: ParsedSVar) -> bool {
    let b = trim(body);
    if eq_ignore_ascii_case(b, "TRUE"@) {
        r == ParsedSVar::BooleanFlag(true)
    } else if eq_ignore_ascii_case(b, "FALSE"@) {
        r == ParsedSVar::BooleanFlag(false)
    } else if starts_with(b, "Sacrificed$"@) {
        sacrificed_matches(b, r)
    } else if starts_with(b, "Count$"@) {
        r matches ParsedSVar::ComputedValue(ComputedValueExpr::Count { expression }) && expression@
            == b
    } else if starts_with(b, "Mode$"@) {
        r matches ParsedSVar::StaticAbility(def) && static_def_matches(b, def)
    } else if starts_with(b, "DB$"@) || starts_with(b, "AB$"@) {
        effect_matches(b, r)
    } else {
        r matches ParsedSVar::Raw(s) && s@ == b
    }
}

/// Surrounding whitespace does not matter: a body parses to exactly what
/// its trimmed form parses to.
pub proof fn law_parse_ignores_surrounding_whitespace(body: Seq<char>, r: ParsedSVar)
    ensures
        svar_matches(body, r) == svar_matches(trim(body), r),
{
    crate::text::lemma_trim_idempotent(body);
}

/// `a` and `b` are the same mode: the same known mode, or both unknown
/// under the same name.
pub open spec fn same_mode(a: StaticAbilityMode, b: StaticAbilityMode) -> bool {
    match a {
        StaticAbilityMode::Unknown(x) => b matches StaticAbilityMode::Unknown(y) && x@ == y@,
        _ => a == b,
    }
}

/// `a` and `b` are the same API type: the same known type, or both other
/// types under the same name.
pub open spec fn same_api(a: ApiType, b: ApiType) -> bool {
    match a {
        ApiType::Other(x) => b matches ApiType::Other(y) && x@ == y@,
        _ => a == b,
    }
}

/// `a` and `b` are the same computed value expression, texts compared by
/// their characters.
pub open spec fn same_computed(a: ComputedValueExpr, b: ComputedValueExpr) -> bool {
    match a {
        ComputedValueExpr::Count { expression: x } => b matches ComputedValueExpr::Count {
            expression: y,
        } && x@ == y@,
        ComputedValueExpr::Compare { expression: x } => b matches ComputedValueExpr::Compare {
            expression: y,
        } && x@ == y@,
        ComputedValueExpr::Raw(x) => b matches ComputedValueExpr::Raw(y) && x@ == y@,
        _ => a == b,
    }
}

/// `a` and `b` are equal as values: the same variant holding the same
/// texts (by their characters) and the same parameter entries.
pub open spec fn same_svar(a: ParsedSVar, b: ParsedSVar) -> bool {
    match a {
        ParsedSVar::StaticAbility(x) => {
            &&& b matches ParsedSVar::StaticAbility(y)
            &&& same_mode(x.mode, y.mode)
            &&& text_map(x.params.pairs()) == text_map(y.params.pairs())
            &&& opt_text(x.description) == opt_text(y.description)
        },
        ParsedSVar::Effect(x) => {
            &&& b matches ParsedSVar::Effect(y)
            &&& x.is_activated == y.is_activated
            &&& same_api(x.api_type, y.api_type)
            &&& text_map(x.params.pairs()) == text_map(y.params.pairs())
            &&& opt_text(x.sub_ability) == opt_text(y.sub_ability)
        },
        ParsedSVar::BooleanFlag(_) => b == a,
        ParsedSVar::ComputedValue(x) => b matches ParsedSVar::ComputedValue(y) && same_computed(
            x,
            y,
        ),
        ParsedSVar::Raw(x) => b matches ParsedSVar::Raw(y) && x@ == y@,
    }
}

/// Parsing depends on the body alone: any two results that a body parses
/// to are equal as values.
pub proof fn law_parse_svar_deterministic(body: Seq<char>, r1: ParsedSVar, r2: ParsedSVar)
    requires
        svar_matches(body, r1),
        svar_matches(body, r2),
    ensures
        same_svar(r1, r2),
{
    let b = trim(body);
    if eq_ignore_ascii_case(b, "TRUE"@) || eq_ignore_ascii_case(b, "FALSE"@) {
    } else if starts_with(b, "Sacrificed$"@) {
        assert(sacrificed_matches(b, r1) && sacrificed_matches(b, r2));
    } else if starts_with(b, "Count$"@) {
    } else if starts_with(b, "Mode$"@) {
        let d1 = r1->StaticAbility_0;
        let d2 = r2->StaticAbility_0;
        assert(static_def_matches(b, d1) && static_def_matches(b, d2));
        let parts = split_on(b, '|');
        match last_value_for(parts, "Mode"@) {
            Some(m) => {
                assert(mode_parsed_from(m, d1.mode) && mode_parsed_from(m, d2.mode));
            },
            None => {
                assert(d1.mode->Unknown_0@ =~= d2.mode->Unknown_0@);
            },
        }
    } else if starts_with(b, "DB$"@) || starts_with(b, "AB$"@) {
        assert(effect_matches(b, r1) && effect_matches(b, r2));
        if effect_api_name(b).len() != 0 {
            let d1 = r1->Effect_0;
            let d2 = r2->Effect_0;
            assert(api_parsed_from(effect_api_name(b), d1.api_type));
            assert(api_parsed_from(effect_api_name(b), d2.api_type));
        }
    } else {
    }
}

/// A body and its trimmed form parse to equal values.
pub proof fn law_parse_svar_of_trimmed_body(body: Seq<char>, r1: ParsedSVar, r2: ParsedSVar)
    requires
        svar_matches(body, r1),
        svar_matches(trim(body), r2),
    ensures
        same_svar(r1, r2),
{
    law_parse_ignores_surrounding_whitespace(body, r2);
    law_parse_svar_deterministic(body, r1, r2);
}

/// The parameter `key` is present and its value mentions remembered cards
/// (contains `IsRemembered`).
pub open spec fn param_mentions_remembered(m: Map<Seq<char>, Seq<char>>, key: Seq<char>) -> bool {
    m.dom().contains(key) && contains_text(m[key], "IsRemembered"@)
}

/// The `ValidAttacker$` or the `Affected$` parameter mentions remembered
/// cards (`Card.IsRemembered`); no other parameter is looked at.
pub open spec fn mentions_remembered(m: Map<Seq<char>, Seq<char>>) -> bool {
    param_mentions_remembered(m, "ValidAttacker"@) || param_mentions_remembered(m, "Affected"@)
}

// ---------------------------------------------------------------------------
// Modes and API types
// ---------------------------------------------------------------------------
impl StaticAbilityMode {
    /// Parse a `Mode$` value.
    pub fn parse(s: &str) -> (m: Self)
        ensures
            mode_parsed_from(s@, m),
    {
        let v = chars_of(s);
        if is_text(&v, "CantBlockBy") {
            StaticAbilityMode::CantBlockBy
        } else if is_text(&v, "CantAttack") {
            StaticAbilityMode::CantAttack
        } else if is_text(&v, "CantBlock") {
            StaticAbilityMode::CantBlock
        } else if is_text(&v, "Continuous") {
            StaticAbilityMode::Continuous
        } else if is_text(&v, "Attacks") {
            StaticAbilityMode::Attacks
        } else if is_text(&v, "ChangesZone") {
            StaticAbilityMode::ChangesZone
        } else if is_text(&v, "Phase") {
            StaticAbilityMode::Phase
        } else if is_text(&v, "SpellCast") {
            StaticAbilityMode::SpellCast
        } else if is_text(&v, "LandPlayed") {
            StaticAbilityMode::LandPlayed
        } else if is_text(&v, "Sacrificed") {
            StaticAbilityMode::Sacrificed
        } else if is_text(&v, "MustAttack") {
            StaticAbilityMode::MustAttack
        } else {
            StaticAbilityMode::Unknown(s.to_owned())
        }
    }

    /// The mode's name.
    pub fn as_str(&self) -> (s: &str)
        ensures
            s@ == mode_name(*self),
    {
        match self {
            StaticAbilityMode::CantBlockBy => "CantBlockBy",
            StaticAbilityMode::CantAttack => "CantAttack",
            StaticAbilityMode::CantBlock => "CantBlock",
            StaticAbilityMode::Continuous => "Continuous",
            StaticAbilityMode::Attacks => "Attacks",
            StaticAbilityMode::ChangesZone => "ChangesZone",
            StaticAbilityMode::Phase => "Phase",
            StaticAbilityMode::SpellCast => "SpellCast",
            StaticAbilityMode::LandPlayed => "LandPlayed",
            StaticAbilityMode::Sacrificed => "Sacrificed",
            StaticAbilityMode::MustAttack => "MustAttack",
            StaticAbilityMode::Unknown(s) => s.as_str(),
        }
    }
}

impl ApiType {
    /// Parse an API name.
    pub fn parse(v: &Vec<char>) -> (a: Self)
        ensures
            api_parsed_from(v@, a),
    {
        if is_text(v, "Draw") {
            ApiType::Draw
        } else if is_text(v, "DealDamage") {
            ApiType::DealDamage
        } else if is_text(v, "Pump") {
            ApiType::Pump
        } else if is_text(v, "PumpAll") {
            ApiType::PumpAll
        } else if is_text(v, "GainLife") {
            ApiType::GainLife
        } else if is_text(v, "LoseLife") {
            ApiType::LoseLife
        } else if is_text(v, "Destroy") {
            ApiType::Destroy
        } else if is_text(v, "DestroyAll") {
            ApiType::DestroyAll
        } else if is_text(v, "ChangeZone") {
            ApiType::ChangeZone
        } else if is_text(v, "Token") {
            ApiType::Token
        } else if is_text(v, "PutCounter") {
            ApiType::PutCounter
        } else if is_text(v, "Sacrifice") {
            ApiType::Sacrifice
        } else if is_text(v, "Discard") {
            ApiType::Discard
        } else if is_text(v, "Mill") {
            ApiType::Mill
        } else if is_text(v, "Tap") {
            ApiType::Tap
        } else if is_text(v, "Untap") {
            ApiType::Untap
        } else if is_text(v, "Counter") {
            ApiType::Counter
        } else if is_text(v, "Effect") {
            ApiType::Effect
        } else {
            ApiType::Other(to_string(v))
        }
    }
}

/// Parsing an API type's name gives the type back: every known API type
/// is read from its own name and from no other. (An `Other` type that holds
/// the name of a known type parses to that known type instead.)
pub proof fn law_api_name_round_trip(a: ApiType)
    requires
        !(a matches ApiType::Other(u) && api_for(u@) is Some),
    ensures
        api_parsed_from(api_name(a), a),
{
    reveal_strlit("Draw");
    reveal_strlit("DealDamage");
    reveal_strlit("Pump");
    reveal_strlit("PumpAll");
    reveal_strlit("GainLife");
    reveal_strlit("LoseLife");
    reveal_strlit("Destroy");
    reveal_strlit("DestroyAll");
    reveal_strlit("ChangeZone");
    reveal_strlit("Token");
    reveal_strlit("PutCounter");
    reveal_strlit("Sacrifice");
    reveal_strlit("Discard");
    reveal_strlit("Mill");
    reveal_strlit("Tap");
    reveal_strlit("Untap");
    reveal_strlit("Counter");
    reveal_strlit("Effect");
    match a {
        ApiType::Draw => {},
        ApiType::DealDamage => {
            assert("DealDamage"@.len() != "Draw"@.len());
        },
        ApiType::Pump => {
            lemma_differ("Pump"@, "Draw"@, 0);
            assert("Pump"@.len() != "DealDamage"@.len());
        },
        ApiType::PumpAll => {
            assert("PumpAll"@.len() != "Draw"@.len());
            assert("PumpAll"@.len() != "DealDamage"@.len());
            assert("PumpAll"@.len() != "Pump"@.len());
        },
        ApiType::GainLife => {
            assert("GainLife"@.len() != "Draw"@.len());
            assert("GainLife"@.len() != "DealDamage"@.len());
            assert("GainLife"@.len() != "Pump"@.len());
            assert("GainLife"@.len() != "PumpAll"@.len());
        },
        ApiType::LoseLife => {
            assert("LoseLife"@.len() != "Draw"@.len());
            assert("LoseLife"@.len() != "DealDamage"@.len());
            assert("LoseLife"@.len() != "Pump"@.len());
            assert("LoseLife"@.len() != "PumpAll"@.len());
            lemma_differ("LoseLife"@, "GainLife"@, 0);
        },
        ApiType::Destroy => {
            assert("Destroy"@.len() != "Draw"@.len());
            assert("Destroy"@.len() != "DealDamage"@.len());
            assert("Destroy"@.len() != "Pump"@.len());
            lemma_differ("Destroy"@, "PumpAll"@, 0);
            assert("Destroy"@.len() != "GainLife"@.len());
            assert("Destroy"@.len() != "LoseLife"@.len());
        },
        ApiType::DestroyAll => {
            assert("DestroyAll"@.len() != "Draw"@.len());
            lemma_differ("DestroyAll"@, "DealDamage"@, 2);
            assert("DestroyAll"@.len() != "Pump"@.len());
            assert("DestroyAll"@.len() != "PumpAll"@.len());
            assert("DestroyAll"@.len() != "GainLife"@.len());
            assert("DestroyAll"@.len() != "LoseLife"@.len());
            assert("DestroyAll"@.len() != "Destroy"@.len());
        },
        ApiType::ChangeZone => {
            assert("ChangeZone"@.len() != "Draw"@.len());
            lemma_differ("ChangeZone"@, "DealDamage"@, 0);
            assert("ChangeZone"@.len() != "Pump"@.len());
            assert("ChangeZone"@.len() != "PumpAll"@.len());
            assert("ChangeZone"@.len() != "GainLife"@.len());
            assert("ChangeZone"@.len() != "LoseLife"@.len());
            assert("ChangeZone"@.len() != "Destroy"@.len());
            lemma_differ("ChangeZone"@, "DestroyAll"@, 0);
        },
        ApiType::Token => {
            assert("Token"@.len() != "Draw"@.len());
            assert("Token"@.len() != "DealDamage"@.len());
            assert("Token"@.len() != "Pump"@.len());
            assert("Token"@.len() != "PumpAll"@.len());
            assert("Token"@.len() != "GainLife"@.len());
            assert("Token"@.len() != "LoseLife"@.len());
            assert("Token"@.len() != "Destroy"@.len());
            assert("Token"@.len() != "DestroyAll"@.len());
            assert("Token"@.len() != "ChangeZone"@.len());
        },
        ApiType::PutCounter => {
            assert("PutCounter"@.len() != "Draw"@.len());
            lemma_differ("PutCounter"@, "DealDamage"@, 0);
            assert("PutCounter"@.len() != "Pump"@.len());
            assert("PutCounter"@.len() != "PumpAll"@.len());
            assert("PutCounter"@.len() != "GainLife"@.len());
            assert("PutCounter"@.len() != "LoseLife"@.len());
            assert("PutCounter"@.len() != "Destroy"@.len());
            lemma_differ("PutCounter"@, "DestroyAll"@, 0);
            lemma_differ("PutCounter"@, "ChangeZone"@, 0);
            assert("PutCounter"@.len() != "Token"@.len());
        },
        ApiType::Sacrifice => {
            assert("Sacrifice"@.len() != "Draw"@.len());
            assert("Sacrifice"@.len() != "DealDamage"@.len());
            assert("Sacrifice"@.len() != "Pump"@.len());
            assert("Sacrifice"@.len() != "PumpAll"@.len());
            assert("Sacrifice"@.len() != "GainLife"@.len());
            assert("Sacrifice"@.len() != "LoseLife"@.len());
            assert("Sacrifice"@.len() != "Destroy"@.len());
            assert("Sacrifice"@.len() != "DestroyAll"@.len());
            assert("Sacrifice"@.len() != "ChangeZone"@.len());
            assert("Sacrifice"@.len() != "Token"@.len());
            assert("Sacrifice"@.len() != "PutCounter"@.len());
        },
        ApiType::Discard => {
            assert("Discard"@.len() != "Draw"@.len());
            assert("Discard"@.len() != "DealDamage"@.len());
            assert("Discard"@.len() != "Pump"@.len());
            lemma_differ("Discard"@, "PumpAll"@, 0);
            assert("Discard"@.len() != "GainLife"@.len());
            assert("Discard"@.len() != "LoseLife"@.len());
            lemma_differ("Discard"@, "Destroy"@, 1);
            assert("Discard"@.len() != "DestroyAll"@.len());
            assert("Discard"@.len() != "ChangeZone"@.len());
            assert("Discard"@.len() != "Token"@.len());
            assert("Discard"@.len() != "PutCounter"@.len());
            assert("Discard"@.len() != "Sacrifice"@.len());
        },
        ApiType::Mill => {
            lemma_differ("Mill"@, "Draw"@, 0);
            assert("Mill"@.len() != "DealDamage"@.len());
            lemma_differ("Mill"@, "Pump"@, 0);
            assert("Mill"@.len() != "PumpAll"@.len());
            assert("Mill"@.len() != "GainLife"@.len());
            assert("Mill"@.len() != "LoseLife"@.len());
            assert("Mill"@.len() != "Destroy"@.len());
            assert("Mill"@.len() != "DestroyAll"@.len());
            assert("Mill"@.len() != "ChangeZone"@.len());
            assert("Mill"@.len() != "Token"@.len());
            assert("Mill"@.len() != "PutCounter"@.len());
            assert("Mill"@.len() != "Sacrifice"@.len());
            assert("Mill"@.len() != "Discard"@.len());
        },
        ApiType::Tap => {
            assert("Tap"@.len() != "Draw"@.len());
            assert("Tap"@.len() != "DealDamage"@.len());
            assert("Tap"@.len() != "Pump"@.len());
            assert("Tap"@.len() != "PumpAll"@.len());
            assert("Tap"@.len() != "GainLife"@.len());
            assert("Tap"@.len() != "LoseLife"@.len());
            assert("Tap"@.len() != "Destroy"@.len());
            assert("Tap"@.len() != "DestroyAll"@.len());
            assert("Tap"@.len() != "ChangeZone"@.len());
            assert("Tap"@.len() != "Token"@.len());
            assert("Tap"@.len() != "PutCounter"@.len());
            assert("Tap"@.len() != "Sacrifice"@.len());
            assert("Tap"@.len() != "Discard"@.len());
            assert("Tap"@.len() != "Mill"@.len());
        },
        ApiType::Untap => {
            assert("Untap"@.len() != "Draw"@.len());
            assert("Untap"@.len() != "DealDamage"@.len());
            assert("Untap"@.len() != "Pump"@.len());
            assert("Untap"@.len() != "PumpAll"@.len());
            assert("Untap"@.len() != "GainLife"@.len());
            assert("Untap"@.len() != "LoseLife"@.len());
            assert("Untap"@.len() != "Destroy"@.len());
            assert("Untap"@.len() != "DestroyAll"@.len());
            assert("Untap"@.len() != "ChangeZone"@.len());
            lemma_differ("Untap"@, "Token"@, 0);
            assert("Untap"@.len() != "PutCounter"@.len());
            assert("Untap"@.len() != "Sacrifice"@.len());
            assert("Untap"@.len() != "Discard"@.len());
            assert("Untap"@.len() != "Mill"@.len());
            assert("Untap"@.len() != "Tap"@.len());
        },
        ApiType::Counter => {
            assert("Counter"@.len() != "Draw"@.len());
            assert("Counter"@.len() != "DealDamage"@.len());
            assert("Counter"@.len() != "Pump"@.len());
            lemma_differ("Counter"@, "PumpAll"@, 0);
            assert("Counter"@.len() != "GainLife"@.len());
            assert("Counter"@.len() != "LoseLife"@.len());
            lemma_differ("Counter"@, "Destroy"@, 0);
            assert("Counter"@.len() != "DestroyAll"@.len());
            assert("Counter"@.len() != "ChangeZone"@.len());
            assert("Counter"@.len() != "Token"@.len());
            assert("Counter"@.len() != "PutCounter"@.len());
            assert("Counter"@.len() != "Sacrifice"@.len());
            lemma_differ("Counter"@, "Discard"@, 0);
            assert("Counter"@.len() != "Mill"@.len());
            assert("Counter"@.len() != "Tap"@.len());
            assert("Counter"@.len() != "Untap"@.len());
        },
        ApiType::Effect => {
            assert("Effect"@.len() != "Draw"@.len());
            assert("Effect"@.len() != "DealDamage"@.len());
            assert("Effect"@.len() != "Pump"@.len());
            assert("Effect"@.len() != "PumpAll"@.len());
            assert("Effect"@.len() != "GainLife"@.len());
            assert("Effect"@.len() != "LoseLife"@.len());
            assert("Effect"@.len() != "Destroy"@.len());
            assert("Effect"@.len() != "DestroyAll"@.len());
            assert("Effect"@.len() != "ChangeZone"@.len());
            assert("Effect"@.len() != "Token"@.len());
            assert("Effect"@.len() != "PutCounter"@.len());
            assert("Effect"@.len() != "Sacrifice"@.len());
            assert("Effect"@.len() != "Discard"@.len());
            assert("Effect"@.len() != "Mill"@.len());
            assert("Effect"@.len() != "Tap"@.len());
            assert("Effect"@.len() != "Untap"@.len());
            assert("Effect"@.len() != "Counter"@.len());
        },
        ApiType::Other(_) => {},
    }
}

/// Parsing a mode's name gives the mode back. (An `Unknown` mode that holds
/// the name of a known mode parses to that known mode instead.)
pub proof fn law_mode_name_round_trip(m: StaticAbilityMode)
    requires
        !(m matches StaticAbilityMode::Unknown(u) && mode_for(u@) is Some),
    ensures
        mode_parsed_from(mode_name(m), m),
{
    reveal_strlit("CantBlockBy");
    reveal_strlit("CantAttack");
    reveal_strlit("CantBlock");
    reveal_strlit("Continuous");
    reveal_strlit("Attacks");
    reveal_strlit("ChangesZone");
    reveal_strlit("Phase");
    reveal_strlit("SpellCast");
    reveal_strlit("LandPlayed");
    reveal_strlit("Sacrificed");
    reveal_strlit("MustAttack");
    match m {
        StaticAbilityMode::CantAttack => {
            assert("CantAttack"@.len() != "CantBlockBy"@.len());
        },
        StaticAbilityMode::CantBlock => {
            assert("CantBlock"@.len() != "CantBlockBy"@.len());
            assert("CantBlock"@.len() != "CantAttack"@.len());
        },
        StaticAbilityMode::Continuous => {
            assert("Continuous"@.len() != "CantBlockBy"@.len());
            lemma_differ("Continuous"@, "CantAttack"@, 1);
            assert("Continuous"@.len() != "CantBlock"@.len());
        },
        StaticAbilityMode::Attacks => {
            assert("Attacks"@.len() != "CantBlockBy"@.len());
            assert("Attacks"@.len() != "CantAttack"@.len());
            assert("Attacks"@.len() != "CantBlock"@.len());
            assert("Attacks"@.len() != "Continuous"@.len());
        },
        StaticAbilityMode::ChangesZone => {
            lemma_differ("ChangesZone"@, "CantBlockBy"@, 1);
            assert("ChangesZone"@.len() != "CantAttack"@.len());
            assert("ChangesZone"@.len() != "CantBlock"@.len());
            assert("ChangesZone"@.len() != "Continuous"@.len());
            assert("ChangesZone"@.len() != "Attacks"@.len());
        },
        StaticAbilityMode::Phase => {
            assert("Phase"@.len() != "CantBlockBy"@.len());
            assert("Phase"@.len() != "CantAttack"@.len());
            assert("Phase"@.len() != "CantBlock"@.len());
            assert("Phase"@.len() != "Continuous"@.len());
            assert("Phase"@.len() != "Attacks"@.len());
            assert("Phase"@.len() != "ChangesZone"@.len());
        },
        StaticAbilityMode::SpellCast => {
            assert("SpellCast"@.len() != "CantBlockBy"@.len());
            assert("SpellCast"@.len() != "CantAttack"@.len());
            lemma_differ("SpellCast"@, "CantBlock"@, 0);
            assert("SpellCast"@.len() != "Continuous"@.len());
            assert("SpellCast"@.len() != "Attacks"@.len());
            assert("SpellCast"@.len() != "ChangesZone"@.len());
            assert("SpellCast"@.len() != "Phase"@.len());
        },
        StaticAbilityMode::LandPlayed => {
            assert("LandPlayed"@.len() != "CantBlockBy"@.len());
            lemma_differ("LandPlayed"@, "CantAttack"@, 0);
            assert("LandPlayed"@.len() != "CantBlock"@.len());
            lemma_differ("LandPlayed"@, "Continuous"@, 0);
            assert("LandPlayed"@.len() != "Attacks"@.len());
            assert("LandPlayed"@.len() != "ChangesZone"@.len());
            assert("LandPlayed"@.len() != "Phase"@.len());
            assert("LandPlayed"@.len() != "SpellCast"@.len());
        },
        StaticAbilityMode::Sacrificed => {
            assert("Sacrificed"@.len() != "CantBlockBy"@.len());
            lemma_differ("Sacrificed"@, "CantAttack"@, 0);
            assert("Sacrificed"@.len() != "CantBlock"@.len());
            lemma_differ("Sacrificed"@, "Continuous"@, 0);
            assert("Sacrificed"@.len() != "Attacks"@.len());
            assert("Sacrificed"@.len() != "ChangesZone"@.len());
            assert("Sacrificed"@.len() != "Phase"@.len());
            assert("Sacrificed"@.len() != "SpellCast"@.len());
            lemma_differ("Sacrificed"@, "LandPlayed"@, 0);
        },
        StaticAbilityMode::MustAttack => {
            assert("MustAttack"@.len() != "CantBlockBy"@.len());
            lemma_differ("MustAttack"@, "CantAttack"@, 0);
            assert("MustAttack"@.len() != "CantBlock"@.len());
            lemma_differ("MustAttack"@, "Continuous"@, 0);
            assert("MustAttack"@.len() != "Attacks"@.len());
            assert("MustAttack"@.len() != "ChangesZone"@.len());
            assert("MustAttack"@.len() != "Phase"@.len());
            assert("MustAttack"@.len() != "SpellCast"@.len());
            lemma_differ("MustAttack"@, "LandPlayed"@, 0);
            lemma_differ("MustAttack"@, "Sacrificed"@, 0);
        },
        _ => {},
    }
}

/// Two sequences that differ at some index are different.
proof fn lemma_differ(a: Seq<char>, b: Seq<char>, i: int)
    requires
        0 <= i < a.len(),
        i < b.len(),
        a[i] != b[i],
    ensures
        a != b,
{
}

// ---------------------------------------------------------------------------
// Parsing
// ---------------------------------------------------------------------------
/// Split a part at its first `$` into trimmed key and value.
fn split_key_value(part: &Vec<char>) -> (r: Option<(Vec<char>, Vec<char>)>)
    ensures
        match r {
            Some(kv) => key_value(part@) == Some((kv.0@, kv.1@)),
            None => key_value(part@) is None,
        },
{
    let p = trim_chars(part);
    match find_char_exec(&p, '$') {
        Some(i) => {
            proof {
                lemma_find_char(p@, '$');
            }
            let n = p.len();
            let k = slice_chars(&p, 0, i);
            let v = slice_chars(&p, i + 1, n);
            assert(k@ == p@.take(i as int));
            assert(v@ == p@.skip(i + 1));
            Some((trim_chars(&k), trim_chars(&v)))
        },
        None => None,
    }
}

proof fn lemma_take_step(s: Seq<Seq<char>>, i: int)
    requires
        0 <= i < s.len(),
    ensures
        s.take(i + 1).drop_last() == s.take(i),
        s.take(i + 1).last() == s[i],
        s.take(i + 1).len() == i + 1,
{
    assert(s.take(i + 1).drop_last() =~= s.take(i));
}

proof fn lemma_split_nonempty(s: Seq<char>, sep: char)
    ensures
        split_on(s, sep).len() >= 1,
{
    reveal_with_fuel(split_on, 1);
}

/// The new text map after inserting `k => v` into a map of strings.
proof fn lemma_text_map_insert(
    old_pairs: Seq<(Seq<char>, String)>,
    new_pairs: Seq<(Seq<char>, String)>,
    k: Seq<char>,
    v: String,
)
    requires
        map_of(new_pairs) == map_of(old_pairs).insert(k, v),
    ensures
        text_map(new_pairs) == text_map(old_pairs).insert(k, v@),
{
    assert(text_map(new_pairs) =~= text_map(old_pairs).insert(k, v@));
}

/// Parse a single SVar body (everything after `SVar:NAME:`).
pub fn parse_svar(body: &str) -> (r: ParsedSVar)
    ensures
        svar_matches(body@, r),
{
    let all = chars_of(body);
    let b = trim_chars(&all);
    if same_ignoring_ascii_case(&b, &chars_of("TRUE")) {
        return ParsedSVar::BooleanFlag(true);
    }
    if same_ignoring_ascii_case(&b, &chars_of("FALSE")) {
        return ParsedSVar::BooleanFlag(false);
    }
    let bs = to_string(&b);
    if has_prefix(&b, &chars_of("Sacrificed$")) {
        return parse_sacrificed_expr(bs.as_str());
    }
    if has_prefix(&b, &chars_of("Count$")) {
        return ParsedSVar::ComputedValue(ComputedValueExpr::Count { expression: bs });
    }
    if has_prefix(&b, &chars_of("Mode$")) {
        return parse_static_ability(bs.as_str());
    }
    if has_prefix(&b, &chars_of("DB$")) || has_prefix(&b, &chars_of("AB$")) {
        return parse_effect_def(bs.as_str());
    }
    ParsedSVar::Raw(bs)
}

/// Parse a `Sacrificed$` expression.
fn parse_sacrificed_expr(body: &str) -> (r: ParsedSVar)
    ensures
        sacrificed_matches(body@, r),
{
    let b = chars_of(body);
    let prefix = chars_of("Sacrificed$");
    let expr = if has_prefix(&b, &prefix) {
        slice_chars(&b, prefix.len(), b.len())
    } else {
        slice_chars(&b, 0, b.len())
    };
    assert(b@.subrange(0, b@.len() as int) == b@);
    assert(expr@ == sacrificed_expr(body@));
    if is_text(&expr, "CardPower") {
        ParsedSVar::ComputedValue(ComputedValueExpr::SacrificedCardPower)
    } else if is_text(&expr, "CardToughness") {
        ParsedSVar::ComputedValue(ComputedValueExpr::SacrificedCardToughness)
    } else {
        ParsedSVar::ComputedValue(ComputedValueExpr::Raw(body.to_owned()))
    }
}

/// Parse a static ability definition (`Mode$ ...`).
fn parse_static_ability(body: &str) -> (r: ParsedSVar)
    ensures
        r matches ParsedSVar::StaticAbility(def) && static_def_matches(body@, def),
{
    let b = chars_of(body);
    let parts = split_chars(&b, '|');
    let ghost ps = split_on(body@, '|');
    let mut params: StrMap<String> = StrMap::new();
    let mut mode_text: Option<Vec<char>> = None;
    let mut description: Option<String> = None;
    let mut i: usize = 0;
    assert(ps.take(0) =~= Seq::<Seq<char>>::empty());
    assert(text_map(params.pairs()) =~= static_params(ps.take(0)));
    while i < parts.len()
        invariant
            views(parts@) == ps,
            i <= parts@.len(),
            params.wf(),
            text_map(params.pairs()) == static_params(ps.take(i as int)),
            match mode_text {
                Some(t) => last_value_for(ps.take(i as int), "Mode"@) == Some(t@),
                None => last_value_for(ps.take(i as int), "Mode"@) is None,
            },
            opt_text(description) == last_value_for(ps.take(i as int), "Description"@),
        decreases parts@.len() - i,
    {
        let kv = split_key_value(&parts[i]);
        proof {
            lemma_take_step(ps, i as int);
            assert(parts@[i as int]@ == ps[i as int]);
            reveal_strlit("Mode");
            reveal_strlit("Description");
        }
        match kv {
            Some((k, v)) => {
                if is_text(&k, "Mode") {
                    assert("Mode"@.len() != "Description"@.len());
                    mode_text = Some(v);
                } else if is_text(&k, "Description") {
                    description = Some(to_string(&v));
                } else {
                    let ghost old_pairs = params.pairs();
                    let vs = to_string(&v);
                    let ks = to_string(&k);
                    params.insert(ks, vs);
                    proof {
                        lemma_text_map_insert(old_pairs, params.pairs(), k@, vs);
                    }
                }
            },
            None => {},
        }
        i = i + 1;
    }
    assert(ps.take(i as int) =~= ps);
    let mode = match mode_text {
        Some(t) => StaticAbilityMode::parse(to_string(&t).as_str()),
        None => StaticAbilityMode::Unknown(String::new()),
    };
    ParsedSVar::StaticAbility(StaticAbilityDef { mode, params, description })
}

/// Parse an effect definition (`DB$ ...` or `AB$ ...`). The first part
/// names the API type; a body whose API name is empty is kept raw.
fn parse_effect_def(body: &str) -> (r: ParsedSVar)
    ensures
        effect_matches(body@, r),
{
    let b = chars_of(body);
    let is_activated = has_prefix(&b, &chars_of("AB$"));
    let parts = split_chars(&b, '|');
    let ghost ps = split_on(body@, '|');
    let ghost rest = ps.drop_first();
    proof {
        lemma_split_nonempty(body@, '|');
    }
    assert(parts@[0]@ == ps[0]);
    let name = match split_key_value(&parts[0]) {
        Some((_k, v)) => v,
        None => Vec::new(),
    };
    assert(name@ == effect_api_name(body@));
    if name.len() == 0 {
        return ParsedSVar::Raw(body.to_owned());
    }
    let api_type = ApiType::parse(&name);
    let mut params: StrMap<String> = StrMap::new();
    let mut sub_ability: Option<String> = None;
    let mut i: usize = 1;
    assert(rest.take(0) =~= Seq::<Seq<char>>::empty());
    assert(text_map(params.pairs()) =~= effect_params(rest.take(0)));
    while i < parts.len()
        invariant
            views(parts@) == ps,
            rest == ps.drop_first(),
            1 <= i <= parts@.len(),
            params.wf(),
            text_map(params.pairs()) == effect_params(rest.take(i - 1)),
            opt_text(sub_ability) == last_value_for(rest.take(i - 1), "SubAbility"@),
        decreases parts@.len() - i,
    {
        let kv = split_key_value(&parts[i]);
        proof {
            lemma_take_step(rest, i - 1);
            assert(parts@[i as int]@ == ps[i as int]);
            assert(rest[i - 1] == ps[i as int]);
        }
        match kv {
            Some((k, v)) => {
                if is_text(&k, "SubAbility") {
                    sub_ability = Some(to_string(&v));
                } else {
                    let ghost old_pairs = params.pairs();
                    let vs = to_string(&v);
                    let ks = to_string(&k);
                    params.insert(ks, vs);
                    proof {
                        lemma_text_map_insert(old_pairs, params.pairs(), k@, vs);
                    }
                }
            },
            None => {},
        }
        i = i + 1;
    }
    assert(rest.take(i - 1) =~= rest);
    ParsedSVar::Effect(EffectDef { is_activated, api_type, params, sub_ability })
}

/// `out` has the names of `raw`, in the same order, each with what its
/// body parses to.
pub open spec fn parsed_entrywise(
    raw: Seq<(Seq<char>, String)>,
    out: Seq<(Seq<char>, ParsedSVar)>,
) -> bool {
    &&& out.len() == raw.len()
    &&& forall|i: int|
        0 <= i < out.len() ==> #[trigger] out[i].0 == raw[i].0 && svar_matches(raw[i].1@, out[i].1)
}

/// Parsing all SVars parses each as `parse_svar` does: the result has
/// exactly the names of the input, and under each name a value equal to
/// what that name's body parses to on its own.
pub proof fn law_parse_all_svars_parses_each(
    raw_svars: StrMap<String>,
    parsed: StrMap<ParsedSVar>,
    name: Seq<char>,
    alone: ParsedSVar,
)
    requires
        raw_svars.wf(),
        parsed.wf(),
        parsed_entrywise(raw_svars.pairs(), parsed.pairs()),
        map_of(raw_svars.pairs()).dom().contains(name),
        svar_matches(map_of(raw_svars.pairs())[name]@, alone),
    ensures
        map_of(parsed.pairs()).dom() == map_of(raw_svars.pairs()).dom(),
        same_svar(map_of(parsed.pairs())[name], alone),
{
    let raw = raw_svars.pairs();
    let out = parsed.pairs();
    assert forall|k: Seq<char>| has_str_key(out, k) <==> has_str_key(raw, k) by {
        if has_str_key(out, k) {
            let i = choose|i: int| 0 <= i < out.len() && #[trigger] out[i].0 == k;
            assert(raw[i].0 == k);
        }
        if has_str_key(raw, k) {
            let i = choose|i: int| 0 <= i < raw.len() && #[trigger] raw[i].0 == k;
            assert(out[i].0 == k);
        }
    }
    assert(map_of(out).dom() =~= map_of(raw).dom());
    let i = key_index(raw, name);
    lemma_key_index(raw, i);
    assert(out[i].0 == name);
    lemma_key_index(out, i);
    law_parse_svar_deterministic(raw[i].1@, out[i].1, alone);
}

/// Parse every SVar of a card: the result has the same names, in the same
/// order, each with its parsed body.
pub fn parse_all_svars(raw_svars: &StrMap<String>) -> (r: StrMap<ParsedSVar>)
    requires
        raw_svars.wf(),
    ensures
        r.wf(),
        parsed_entrywise(raw_svars.pairs(), r.pairs()),
{
    let entries = raw_svars.entries();
    let ghost raw = raw_svars.pairs();
    let mut out: StrMap<ParsedSVar> = StrMap::new();
    let mut i: usize = 0;
    while i < entries.len()
        invariant
            entries@.map_values(|e: (String, String)| (e.0@, e.1)) == raw,
            keys_distinct(raw),
            i <= entries@.len(),
            out.wf(),
            out.pairs().len() == i,
            forall|j: int|
                0 <= j < i ==> #[trigger] out.pairs()[j].0 == raw[j].0 && svar_matches(
                    raw[j].1@,
                    out.pairs()[j].1,
                ),
        decreases entries@.len() - i,
    {
        let name = entries[i].0.clone();
        let parsed = parse_svar(entries[i].1.as_str());
        proof {
            assert(raw[i as int] == (entries@[i as int].0@, entries@[i as int].1));
            assert forall|j: int| 0 <= j < out.pairs().len() implies #[trigger] out.pairs()[j].0
                != name@ by {
                assert(out.pairs()[j].0 == raw[j].0);
            }
        }
        let ghost before = out.pairs();
        out.insert(name, parsed);
        proof {
            assert(out.pairs() == before.push((raw[i as int].0, parsed)));
        }
        i = i + 1;
    }
    out
}

/// The static ability defined under `name`, if that SVar is one.
pub fn get_static_ability<'a>(parsed_svars: &'a StrMap<ParsedSVar>, name: &str) -> (r: Option<
    &'a StaticAbilityDef,
>)
    requires
        parsed_svars.wf(),
    ensures
        match r {
            Some(def) => map_of(parsed_svars.pairs()).dom().contains(name@) && map_of(
                parsed_svars.pairs(),
            )[name@] == ParsedSVar::StaticAbility(*def),
            None => !(map_of(parsed_svars.pairs()).dom().contains(name@) && map_of(
                parsed_svars.pairs(),
            )[name@] is StaticAbility),
        },
{
    match parsed_svars.get(name) {
        Some(ParsedSVar::StaticAbility(def)) => Some(def),
        _ => None,
    }
}

/// The effect defined under `name`, if that SVar is one.
pub fn get_effect_def<'a>(parsed_svars: &'a StrMap<ParsedSVar>, name: &str) -> (r: Option<
    &'a EffectDef,
>)
    requires
        parsed_svars.wf(),
    ensures
        match r {
            Some(def) => map_of(parsed_svars.pairs()).dom().contains(name@) && map_of(
                parsed_svars.pairs(),
            )[name@] == ParsedSVar::Effect(*def),
            None => !(map_of(parsed_svars.pairs()).dom().contains(name@) && map_of(
                parsed_svars.pairs(),
            )[name@] is Effect),
        },
{
    match parsed_svars.get(name) {
        Some(ParsedSVar::Effect(def)) => Some(def),
        _ => None,
    }
}

fn param_remembered(def: &StaticAbilityDef, key: &str) -> (b: bool)
    requires
        def.params.wf(),
    ensures
        b == param_mentions_remembered(text_map(def.params.pairs()), key@),
{
    match def.params.get(key) {
        Some(v) => {
            let r = contains_chars(&chars_of(v.as_str()), &chars_of("IsRemembered"));
            assert(text_map(def.params.pairs())[key@] == v@);
            r
        },
        None => false,
    }
}

/// Whether the static ability's `ValidAttacker$` or `Affected$` parameter
/// refers to remembered cards (`Card.IsRemembered`).
pub fn uses_remembered(def: &StaticAbilityDef) -> (b: bool)
    requires
        def.params.wf(),
    ensures
        b == mentions_remembered(text_map(def.params.pairs())),
{
    param_remembered(def, "ValidAttacker") || param_remembered(def, "Affected")
}

} // verus!
