//! The game values that the network layer carries: card and player
//! identifiers, zones, mana costs and the spell abilities a player can
//! choose to play.
use crate::text::{dec, push_dec, push_str, to_string};
use vstd::prelude::*;

verus! {

/// Identifies a card within one game.
#[derive(Debug, Clone, Copy, PartialEq, Eq, Hash, PartialOrd, Ord, Structural)]
pub struct CardId(pub u32);

impl CardId {
    /// The card with number `n`.
    pub fn new(n: u32) -> (c: Self)
        ensures
            c.0 == n,
    {
        CardId(n)
    }

    /// The card's number.
    pub fn as_u32(&self) -> (n: u32)
        ensures
            n == self.0,
    {
        self.0
    }
}

/// Identifies a player: P1 is `PlayerId(0)`, P2 is `PlayerId(1)`.
#[derive(Debug, Clone, Copy, PartialEq, Eq, Hash, PartialOrd, Ord, Structural)]
pub struct PlayerId(pub u32);

impl PlayerId {
    /// The player with number `n`.
    pub fn new(n: u32) -> (p: Self)
        ensures
            p.0 == n,
    {
        PlayerId(n)
    }

    /// The player's number.
    pub fn as_u32(&self) -> (n: u32)
        ensures
            n == self.0,
    {
        self.0
    }
}

/// How `Debug` prints a player id: `PlayerId(n)`.
pub open spec fn player_debug(p: PlayerId) -> Seq<char> {
    "PlayerId("@ + dec(p.0 as nat) + ")"@
}

/// How `Debug` prints a card id: `CardId(n)`.
pub open spec fn card_debug(c: CardId) -> Seq<char> {
    "CardId("@ + dec(c.0 as nat) + ")"@
}

/// Appends `PlayerId(n)`.
pub fn push_player_debug(buf: &mut Vec<char>, p: PlayerId)
    ensures
        final(buf)@ == old(buf)@ + player_debug(p),
{
    push_str(buf, "PlayerId(");
    push_dec(buf, p.0 as u64);
    push_str(buf, ")");
    assert(final(buf)@ =~= old(buf)@ + player_debug(p));
}

/// Appends `CardId(n)`.
pub fn push_card_debug(buf: &mut Vec<char>, c: CardId)
    ensures
        final(buf)@ == old(buf)@ + card_debug(c),
{
    push_str(buf, "CardId(");
    push_dec(buf, c.0 as u64);
    push_str(buf, ")");
    assert(final(buf)@ =~= old(buf)@ + card_debug(c));
}

/// The zones a card can be in.
#[derive(Debug, Clone, Copy, PartialEq, Eq, Hash, Structural)]
pub enum Zone {
    Library,
    Hand,
    Battlefield,
    Graveyard,
    Stack,
    Exile,
    Command,
}

/// A mana cost: an amount of generic mana and the colored and colorless
/// symbols.
#[derive(Debug, Clone, Copy, PartialEq, Eq, Hash, Structural)]
pub struct ManaCost {
    pub generic: u8,
    pub white: u8,
    pub blue: u8,
    pub black: u8,
    pub red: u8,
    pub green: u8,
    pub colorless: u8,
}

/// `n` copies of the symbol `{s}`.
pub open spec fn symbols(s: char, n: nat) -> Seq<char>
    decreases n,
{
    if n == 0 {
        Seq::empty()
    } else {
        symbols(s, (n - 1) as nat) + seq!['{', s, '}']
    }
}

/// How a mana cost is written: `{N}` for the generic part (shown when it is
/// not zero, or when the cost is empty), then one `{W}`, `{U}`, `{B}`,
/// `{R}`, `{G}` or `{C}` per symbol, in that order.
pub open spec fn mana_text(c: ManaCost) -> Seq<char> {
    let colored = c.white + c.blue + c.black + c.red + c.green + c.colorless;
    let generic = if c.generic > 0 || colored == 0 {
        "{"@ + dec(c.generic as nat) + "}"@
    } else {
        Seq::empty()
    };
    generic + symbols('W', c.white as nat) + symbols('U', c.blue as nat) + symbols(
        'B',
        c.black as nat,
    ) + symbols('R', c.red as nat) + symbols('G', c.green as nat) + symbols(
        'C',
        c.colorless as nat,
    )
}

fn push_symbols(buf: &mut Vec<char>, s: char, n: u8)
    ensures
        final(buf)@ == old(buf)@ + symbols(s, n as nat),
{
    let ghost start = buf@;
    let mut i: u8 = 0;
    while i < n
        invariant
            i <= n,
            buf@ == start + symbols(s, i as nat),
        decreases n - i,
    {
        buf.push('{');
        buf.push(s);
        buf.push('}');
        i = i + 1;
        assert(buf@ =~= start + symbols(s, i as nat));
    }
}

impl ManaCost {
    /// Appends the cost as it is written.
    pub fn push_text(&self, buf: &mut Vec<char>)
        ensures
            final(buf)@ == old(buf)@ + mana_text(*self),
    {
        let ghost start = buf@;
        let colored: u32 = self.white as u32 + self.blue as u32 + self.black as u32
            + self.red as u32 + self.green as u32 + self.colorless as u32;
        if self.generic > 0 || colored == 0 {
            push_str(buf, "{");
            push_dec(buf, self.generic as u64);
            push_str(buf, "}");
        }
        let ghost g = buf@;
        push_symbols(buf, 'W', self.white);
        push_symbols(buf, 'U', self.blue);
        push_symbols(buf, 'B', self.black);
        push_symbols(buf, 'R', self.red);
        push_symbols(buf, 'G', self.green);
        push_symbols(buf, 'C', self.colorless);
        assert(final(buf)@ =~= start + mana_text(*self));
    }

    /// The cost as it is written.
    pub fn text(&self) -> (s: String)
        ensures
            s@ == mana_text(*self),
    {
        let mut buf: Vec<char> = Vec::new();
        self.push_text(&mut buf);
        assert(buf@ =~= mana_text(*self));
        to_string(&buf)
    }
}

/// The basic land types, which landcycling searches for.
#[derive(Debug, Clone, Copy, PartialEq, Eq, Hash, Structural)]
pub enum BasicLandType {
    Plains,
    Island,
    Swamp,
    Mountain,
    Forest,
}

/// The name of a basic land type.
pub open spec fn land_type_name(t: BasicLandType) -> Seq<char> {
    match t {
        BasicLandType::Plains => "Plains"@,
        BasicLandType::Island => "Island"@,
        BasicLandType::Swamp => "Swamp"@,
        BasicLandType::Mountain => "Mountain"@,
        BasicLandType::Forest => "Forest"@,
    }
}

impl BasicLandType {
    /// The name of the land type.
    pub fn as_str(&self) -> (s: &str)
        ensures
            s@ == land_type_name(*self),
    {
        match self {
            BasicLandType::Plains => "Plains",
            BasicLandType::Island => "Island",
            BasicLandType::Swamp => "Swamp",
            BasicLandType::Mountain => "Mountain",
            BasicLandType::Forest => "Forest",
        }
    }
}

/// Something a player can do when holding priority.
#[derive(Debug, Clone, Copy, PartialEq, Eq, Hash, Structural)]
pub enum SpellAbility {
    /// Play a land from hand.
    PlayLand { card_id: CardId },
    /// Cast a spell from hand.
    CastSpell { card_id: CardId },
    /// Activate an ability of a permanent.
    ActivateAbility { card_id: CardId, ability_index: usize },
    /// Cast a card from exile for an alternative cost.
    CastFromExile { card_id: CardId, alternative_cost: ManaCost },
    /// Cast a commander from the command zone.
    CastFromCommand { card_id: CardId, total_cost: ManaCost },
    /// Cycle a card, searching for a land type when it is landcycling.
    Cycle { card_id: CardId, cost: ManaCost, search_type: Option<BasicLandType> },
    /// Cast a card from the graveyard.
    CastFromGraveyard { card_id: CardId, cost: ManaCost },
}

/// The card a spell ability belongs to.
pub open spec fn ability_card(a: SpellAbility) -> CardId {
    match a {
        SpellAbility::PlayLand { card_id } => card_id,
        SpellAbility::CastSpell { card_id } => card_id,
        SpellAbility::ActivateAbility { card_id, .. } => card_id,
        SpellAbility::CastFromExile { card_id, .. } => card_id,
        SpellAbility::CastFromCommand { card_id, .. } => card_id,
        SpellAbility::Cycle { card_id, .. } => card_id,
        SpellAbility::CastFromGraveyard { card_id, .. } => card_id,
    }
}

impl SpellAbility {
    /// The card this ability belongs to.
    pub fn card_id(&self) -> (c: CardId)
        ensures
            c == ability_card(*self),
    {
        match self {
            SpellAbility::PlayLand { card_id } => *card_id,
            SpellAbility::CastSpell { card_id } => *card_id,
            SpellAbility::ActivateAbility { card_id, .. } => *card_id,
            SpellAbility::CastFromExile { card_id, .. } => *card_id,
            SpellAbility::CastFromCommand { card_id, .. } => *card_id,
            SpellAbility::Cycle { card_id, .. } => *card_id,
            SpellAbility::CastFromGraveyard { card_id, .. } => *card_id,
        }
    }
}

} // verus!
