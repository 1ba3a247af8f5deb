//! Verified core of a networked Magic: The Gathering engine.
use vstd::prelude::*;

pub mod action_log;
pub mod text;
pub mod memory;
pub mod cli;
pub mod str_map;
pub mod svar_parser;
pub mod game_types;
pub mod choice_decode;
pub mod choice_entry;
pub mod sync_debug;
pub mod protocol;
pub mod controller;
pub mod choice_outcomes;
pub mod stable_sort;
pub mod id_map;
pub mod lobby;
pub mod mvar;
pub mod client;
pub mod choice_encode;
pub mod remote_choices;
pub mod session;
pub mod launch;
pub mod stats;
pub mod export;

verus! {

} // verus!
