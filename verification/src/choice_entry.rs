//! The payload of one player choice, as it is buffered and replayed.
//!
//! A controller keeps its choices in an `ActionLog<ChoiceEntry>` keyed by
//! choice sequence number; replaying a game reads the entries back in
//! order.
use crate::game_types::{CardId, SpellAbility};
use vstd::prelude::*;

verus! {

/// What a player chose: the option indices and, where the choice needs
/// them, the chosen ability and the cards it names.
#[derive(Debug, Clone, PartialEq, Eq)]
pub struct ChoicePayload {
    /// Indices of the chosen options.
    pub choice_indices: Vec<usize>,
    /// The ability chosen, for priority choices.
    pub spell_ability: Option<SpellAbility>,
    /// The card a library search found.
    pub library_search_result: Option<CardId>,
    /// The cards a targeting or damage choice names.
    pub target_card_ids: Option<Vec<CardId>>,
}

/// One buffered choice.
#[derive(Debug, Clone)]
pub struct ChoiceEntry {
    /// The choice's sequence number.
    pub choice_seq: u32,
    /// The action count at which the choice was made.
    pub action_count: u64,
    /// What the choice was, for people.
    pub description: String,
    /// What was chosen.
    pub payload: ChoicePayload,
}

} // verus!
