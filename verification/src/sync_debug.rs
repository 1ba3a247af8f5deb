//! Debug information for finding where client and server diverged.
//!
//! When a state hash does not match, both sides can send a
//! `DebugSyncInfo` snapshot of what they see; `diff` names the fields that
//! differ, and `SyncErrorDetails::format_report` writes the whole report.
use crate::game_types::PlayerId;
use crate::text::{
    dec, dec_int, hex, num_list, push_chars, push_dec, push_dec_i64, push_hex, push_str,
    push_u32_list, push_zero_padded, starts_with, to_string, u32_nats, zero_pad,
};
use vstd::prelude::*;

verus! {

/// What one side sees of the game, for sync debugging.
#[derive(Debug, Clone)]
pub struct DebugSyncInfo {
    /// Current turn number.
    pub turn: u32,
    /// Current phase name.
    pub phase: String,
    /// The player whose turn it is.
    pub active_player: PlayerId,
    /// The player with priority, if any.
    pub priority_player: Option<PlayerId>,
    /// Life totals of P1 and P2.
    pub life_totals: [i32; 2],
    /// Hand sizes of P1 and P2.
    pub hand_sizes: [usize; 2],
    /// Library sizes of P1 and P2.
    pub library_sizes: [usize; 2],
    /// Number of permanents on the battlefield.
    pub battlefield_count: usize,
    /// Number of items on the stack.
    pub stack_size: usize,
    /// Graveyard sizes of P1 and P2.
    pub graveyard_sizes: [usize; 2],
    /// The last actions of the undo log, as text.
    pub last_actions: Vec<String>,
    /// Hash of the random generator's state.
    pub rng_hash: Option<u64>,
    /// Card ids in the requesting player's hand, sorted.
    pub requesting_player_hand_ids: Vec<u32>,
    /// `(card_id, is_tapped, controller)` of each battlefield card.
    pub battlefield_detail: Vec<(u32, bool, u32)>,
    /// Graveyard card ids of P1 and P2.
    pub graveyard_ids: [Vec<u32>; 2],
    /// Library card ids of P1 and P2.
    pub library_ids: [Vec<u32>; 2],
    /// Known hand card ids of P1 and P2.
    pub hand_ids: [Vec<u32>; 2],
}

/// Every field is zero, empty or absent, and the active player is P1.
pub open spec fn is_blank(d: DebugSyncInfo) -> bool {
    &&& d.turn == 0
    &&& d.phase@.len() == 0
    &&& d.active_player == PlayerId(0)
    &&& d.priority_player is None
    &&& d.life_totals@ == seq![0i32, 0i32]
    &&& d.hand_sizes@ == seq![0usize, 0usize]
    &&& d.library_sizes@ == seq![0usize, 0usize]
    &&& d.battlefield_count == 0
    &&& d.stack_size == 0
    &&& d.graveyard_sizes@ == seq![0usize, 0usize]
    &&& d.last_actions@.len() == 0
    &&& d.rng_hash is None
    &&& d.requesting_player_hand_ids@.len() == 0
    &&& d.battlefield_detail@.len() == 0
    &&& d.graveyard_ids@[0]@.len() == 0 && d.graveyard_ids@[1]@.len() == 0
    &&& d.library_ids@[0]@.len() == 0 && d.library_ids@[1]@.len() == 0
    &&& d.hand_ids@[0]@.len() == 0 && d.hand_ids@[1]@.len() == 0
}

/// `a`, `,` and `b`.
pub open spec fn pair_text(a: Seq<char>, b: Seq<char>) -> Seq<char> {
    a + ","@ + b
}

/// The one-line summary.
pub open spec fn summary_text(d: DebugSyncInfo) -> Seq<char> {
    "T"@ + dec(d.turn as nat) + ":"@ + d.phase@ + " active=P"@ + dec(d.active_player.0 as nat)
        + " life=["@ + pair_text(dec_int(d.life_totals@[0] as int), dec_int(d.life_totals@[1] as int))
        + "] hands=["@ + pair_text(dec(d.hand_sizes@[0] as nat), dec(d.hand_sizes@[1] as nat))
        + "] libs=["@ + pair_text(dec(d.library_sizes@[0] as nat), dec(d.library_sizes@[1] as nat))
        + "] bf="@ + dec(d.battlefield_count as nat) + " stack="@ + dec(d.stack_size as nat)
}

/// `"  <label>: P1=<a>, P2=<b>\n"`.
pub open spec fn per_player_line(label: Seq<char>, a: Seq<char>, b: Seq<char>) -> Seq<char> {
    "  "@ + label + ": P1="@ + a + ", P2="@ + b + "\n"@
}

/// The numbered lines of the last actions: `"    [i] action\n"`, from 1.
pub open spec fn numbered_actions(acts: Seq<String>) -> Seq<char>
    decreases acts.len(),
{
    if acts.len() == 0 {
        Seq::empty()
    } else {
        numbered_actions(acts.drop_last()) + "    ["@ + dec(acts.len()) + "] "@ + acts.last()@
            + "\n"@
    }
}

/// The first lines of the description: turn, phase and active player.
pub open spec fn detail_head(d: DebugSyncInfo) -> Seq<char> {
    "  Turn: "@ + dec(d.turn as nat) + ", Phase: "@ + d.phase@ + "\n"@ + "  Active player: P"@ + dec(
        d.active_player.0 as nat,
    ) + "\n"@
}

/// The priority line of the description, when a player has priority.
pub open spec fn detail_priority(d: DebugSyncInfo) -> Seq<char> {
    match d.priority_player {
        Some(p) => "  Priority: P"@ + dec(p.0 as nat) + "\n"@,
        None => Seq::empty(),
    }
}

/// The per-player counts and the battlefield line of the description.
pub open spec fn detail_counts(d: DebugSyncInfo) -> Seq<char> {
    per_player_line("Life"@, dec_int(d.life_totals@[0] as int), dec_int(d.life_totals@[1] as int))
        + per_player_line("Hands"@, dec(d.hand_sizes@[0] as nat), dec(d.hand_sizes@[1] as nat))
        + per_player_line(
        "Libraries"@,
        dec(d.library_sizes@[0] as nat),
        dec(d.library_sizes@[1] as nat),
    ) + per_player_line(
        "Graveyards"@,
        dec(d.graveyard_sizes@[0] as nat),
        dec(d.graveyard_sizes@[1] as nat),
    ) + "  Battlefield: "@ + dec(d.battlefield_count as nat) + " cards, Stack: "@ + dec(
        d.stack_size as nat,
    ) + " items\n"@
}

/// The last actions part of the description, when there are any.
pub open spec fn detail_actions(d: DebugSyncInfo) -> Seq<char> {
    if d.last_actions@.len() > 0 {
        "  Last actions:\n"@ + numbered_actions(d.last_actions@)
    } else {
        Seq::empty()
    }
}

/// The multi-line description.
pub open spec fn detailed_text(d: DebugSyncInfo) -> Seq<char> {
    detail_head(d) + detail_priority(d) + detail_counts(d) + detail_actions(d)
}

/// A two-element array as `Debug` prints it: `[a, b]`.
pub open spec fn array_text(a: Seq<char>, b: Seq<char>) -> Seq<char> {
    "["@ + a + ", "@ + b + "]"@
}

/// An optional hash as `Debug` prints it.
pub open spec fn opt_u64_text(o: Option<u64>) -> Seq<char> {
    match o {
        Some(x) => "Some("@ + dec(x as nat) + ")"@,
        None => "None"@,
    }
}

/// `seq![t]` when `c` holds, else nothing.
pub open spec fn item_if(c: bool, t: Seq<char>) -> Seq<Seq<char>> {
    if c {
        seq![t]
    } else {
        Seq::empty()
    }
}

/// The difference of the turn numbers, if any.
pub open spec fn turn_diff(a: DebugSyncInfo, b: DebugSyncInfo) -> Seq<Seq<char>> {
    item_if(a.turn != b.turn, "turn: "@ + dec(a.turn as nat) + " vs "@ + dec(b.turn as nat))
}

/// The difference of the phases, if any.
pub open spec fn phase_diff(a: DebugSyncInfo, b: DebugSyncInfo) -> Seq<Seq<char>> {
    item_if(a.phase@ != b.phase@, "phase: "@ + a.phase@ + " vs "@ + b.phase@)
}

/// The difference of the active players, if any.
pub open spec fn active_diff(a: DebugSyncInfo, b: DebugSyncInfo) -> Seq<Seq<char>> {
    item_if(a.active_player != b.active_player, "active_player: P"@ + dec(a.active_player.0 as nat) + " vs P"@ + dec(b.active_player.0 as nat))
}

/// The difference of the life totals, if any.
pub open spec fn life_diff(a: DebugSyncInfo, b: DebugSyncInfo) -> Seq<Seq<char>> {
    item_if(a.life_totals@ != b.life_totals@, "life_totals: "@ + array_text(dec_int(a.life_totals@[0] as int), dec_int(a.life_totals@[1] as int)) + " vs "@ + array_text(dec_int(b.life_totals@[0] as int), dec_int(b.life_totals@[1] as int)))
}

/// The difference of the hand sizes, if any.
pub open spec fn hands_diff(a: DebugSyncInfo, b: DebugSyncInfo) -> Seq<Seq<char>> {
    item_if(a.hand_sizes@ != b.hand_sizes@, "hand_sizes: "@ + array_text(dec(a.hand_sizes@[0] as nat), dec(a.hand_sizes@[1] as nat)) + " vs "@ + array_text(dec(b.hand_sizes@[0] as nat), dec(b.hand_sizes@[1] as nat)))
}

/// The difference of the library sizes, if any.
pub open spec fn libs_diff(a: DebugSyncInfo, b: DebugSyncInfo) -> Seq<Seq<char>> {
    item_if(a.library_sizes@ != b.library_sizes@, "library_sizes: "@ + array_text(dec(a.library_sizes@[0] as nat), dec(a.library_sizes@[1] as nat)) + " vs "@ + array_text(dec(b.library_sizes@[0] as nat), dec(b.library_sizes@[1] as nat)))
}

/// The difference of the battlefield counts, if any.
pub open spec fn bf_diff(a: DebugSyncInfo, b: DebugSyncInfo) -> Seq<Seq<char>> {
    item_if(a.battlefield_count != b.battlefield_count, "battlefield_count: "@ + dec(a.battlefield_count as nat) + " vs "@ + dec(b.battlefield_count as nat))
}

/// The difference of the stack sizes, if any.
pub open spec fn stack_diff(a: DebugSyncInfo, b: DebugSyncInfo) -> Seq<Seq<char>> {
    item_if(a.stack_size != b.stack_size, "stack_size: "@ + dec(a.stack_size as nat) + " vs "@ + dec(b.stack_size as nat))
}

/// The difference of the graveyard sizes, if any.
pub open spec fn gy_diff(a: DebugSyncInfo, b: DebugSyncInfo) -> Seq<Seq<char>> {
    item_if(a.graveyard_sizes@ != b.graveyard_sizes@, "graveyard_sizes: "@ + array_text(dec(a.graveyard_sizes@[0] as nat), dec(a.graveyard_sizes@[1] as nat)) + " vs "@ + array_text(dec(b.graveyard_sizes@[0] as nat), dec(b.graveyard_sizes@[1] as nat)))
}

/// The difference of the generator hashes, if any.
pub open spec fn rng_diff(a: DebugSyncInfo, b: DebugSyncInfo) -> Seq<Seq<char>> {
    item_if(a.rng_hash != b.rng_hash, "rng_hash: "@ + opt_u64_text(a.rng_hash) + " vs "@ + opt_u64_text(b.rng_hash))
}

/// The difference of the hand ids, when both sides sent them, if any.
pub open spec fn hand_ids_diff(a: DebugSyncInfo, b: DebugSyncInfo) -> Seq<Seq<char>> {
    item_if(a.requesting_player_hand_ids@.len() > 0 && b.requesting_player_hand_ids@.len() > 0 && a.requesting_player_hand_ids@ != b.requesting_player_hand_ids@, "HAND DESYNC: server hand_ids="@ + num_list(u32_nats(a.requesting_player_hand_ids@)) + " vs client hand_ids="@ + num_list(u32_nats(b.requesting_player_hand_ids@)))
}

/// The differences between two snapshots, in field order.
pub open spec fn diff_items(a: DebugSyncInfo, b: DebugSyncInfo) -> Seq<Seq<char>> {
    turn_diff(a, b) + phase_diff(a, b) + active_diff(a, b) + life_diff(a, b) + hands_diff(a, b) + libs_diff(a, b) + bf_diff(a, b) + stack_diff(a, b) + gy_diff(a, b) + rng_diff(a, b) + hand_ids_diff(a, b)
}

/// Some item of `items` begins with `label`.
pub open spec fn has_labelled_item(items: Seq<Seq<char>>, label: Seq<char>) -> bool {
    exists|i: int| 0 <= i < items.len() && #[trigger] starts_with(items[i], label)
}

proof fn lemma_labelled_concat(x: Seq<Seq<char>>, y: Seq<Seq<char>>, label: Seq<char>)
    ensures
        has_labelled_item(x, label) || has_labelled_item(y, label) ==> has_labelled_item(x + y, label),
{
    if has_labelled_item(x, label) {
        let i = choose|i: int| 0 <= i < x.len() && #[trigger] starts_with(x[i], label);
        assert((x + y)[i] == x[i]);
    } else if has_labelled_item(y, label) {
        let i = choose|i: int| 0 <= i < y.len() && #[trigger] starts_with(y[i], label);
        assert((x + y)[x.len() + i] == y[i]);
    }
}

proof fn lemma_part_labelled(part: Seq<Seq<char>>, label: Seq<char>)
    requires
        part.len() == 1,
        label.len() <= part[0].len(),
        part[0].subrange(0, label.len() as int) == label,
    ensures
        has_labelled_item(part, label),
{
    assert(starts_with(part[0], label));
}

/// An item of a field's part of the diff is an item of the whole diff.
proof fn lemma_diff_labelled(a: DebugSyncInfo, b: DebugSyncInfo, label: Seq<char>)
    ensures
        has_labelled_item(turn_diff(a, b), label) || has_labelled_item(phase_diff(a, b), label)
            || has_labelled_item(active_diff(a, b), label) || has_labelled_item(life_diff(a, b), label)
            || has_labelled_item(hands_diff(a, b), label) || has_labelled_item(libs_diff(a, b), label)
            || has_labelled_item(bf_diff(a, b), label) || has_labelled_item(stack_diff(a, b), label)
            || has_labelled_item(gy_diff(a, b), label) || has_labelled_item(rng_diff(a, b), label)
            || has_labelled_item(hand_ids_diff(a, b), label) ==> has_labelled_item(diff_items(a, b), label),
{
    let s1 = turn_diff(a, b);
    let s2 = s1 + phase_diff(a, b);
    let s3 = s2 + active_diff(a, b);
    let s4 = s3 + life_diff(a, b);
    let s5 = s4 + hands_diff(a, b);
    let s6 = s5 + libs_diff(a, b);
    let s7 = s6 + bf_diff(a, b);
    let s8 = s7 + stack_diff(a, b);
    let s9 = s8 + gy_diff(a, b);
    let s10 = s9 + rng_diff(a, b);
    lemma_labelled_concat(s1, phase_diff(a, b), label);
    lemma_labelled_concat(s2, active_diff(a, b), label);
    lemma_labelled_concat(s3, life_diff(a, b), label);
    lemma_labelled_concat(s4, hands_diff(a, b), label);
    lemma_labelled_concat(s5, libs_diff(a, b), label);
    lemma_labelled_concat(s6, bf_diff(a, b), label);
    lemma_labelled_concat(s7, stack_diff(a, b), label);
    lemma_labelled_concat(s8, gy_diff(a, b), label);
    lemma_labelled_concat(s9, rng_diff(a, b), label);
    lemma_labelled_concat(s10, hand_ids_diff(a, b), label);
}

proof fn lemma_turn_reported(a: DebugSyncInfo, b: DebugSyncInfo)
    requires
        a.turn != b.turn,
    ensures
        has_labelled_item(diff_items(a, b), "turn: "@),
{
    assert(turn_diff(a, b)[0].subrange(0, "turn: "@.len() as int) =~= "turn: "@);
    lemma_part_labelled(turn_diff(a, b), "turn: "@);
    lemma_diff_labelled(a, b, "turn: "@);
}

proof fn lemma_phase_reported(a: DebugSyncInfo, b: DebugSyncInfo)
    requires
        a.phase@ != b.phase@,
    ensures
        has_labelled_item(diff_items(a, b), "phase: "@),
{
    assert(phase_diff(a, b)[0].subrange(0, "phase: "@.len() as int) =~= "phase: "@);
    lemma_part_labelled(phase_diff(a, b), "phase: "@);
    lemma_diff_labelled(a, b, "phase: "@);
}

proof fn lemma_active_reported(a: DebugSyncInfo, b: DebugSyncInfo)
    requires
        a.active_player != b.active_player,
    ensures
        has_labelled_item(diff_items(a, b), "active_player: "@),
{
    reveal_strlit("active_player: ");
    reveal_strlit("active_player: P");
    assert(active_diff(a, b)[0].subrange(0, "active_player: "@.len() as int) =~= "active_player: "@);
    lemma_part_labelled(active_diff(a, b), "active_player: "@);
    lemma_diff_labelled(a, b, "active_player: "@);
}

proof fn lemma_life_reported(a: DebugSyncInfo, b: DebugSyncInfo)
    requires
        a.life_totals@ != b.life_totals@,
    ensures
        has_labelled_item(diff_items(a, b), "life_totals: "@),
{
    assert(life_diff(a, b)[0].subrange(0, "life_totals: "@.len() as int) =~= "life_totals: "@);
    lemma_part_labelled(life_diff(a, b), "life_totals: "@);
    lemma_diff_labelled(a, b, "life_totals: "@);
}

proof fn lemma_hands_reported(a: DebugSyncInfo, b: DebugSyncInfo)
    requires
        a.hand_sizes@ != b.hand_sizes@,
    ensures
        has_labelled_item(diff_items(a, b), "hand_sizes: "@),
{
    assert(hands_diff(a, b)[0].subrange(0, "hand_sizes: "@.len() as int) =~= "hand_sizes: "@);
    lemma_part_labelled(hands_diff(a, b), "hand_sizes: "@);
    lemma_diff_labelled(a, b, "hand_sizes: "@);
}

proof fn lemma_libs_reported(a: DebugSyncInfo, b: DebugSyncInfo)
    requires
        a.library_sizes@ != b.library_sizes@,
    ensures
        has_labelled_item(diff_items(a, b), "library_sizes: "@),
{
    assert(libs_diff(a, b)[0].subrange(0, "library_sizes: "@.len() as int) =~= "library_sizes: "@);
    lemma_part_labelled(libs_diff(a, b), "library_sizes: "@);
    lemma_diff_labelled(a, b, "library_sizes: "@);
}

proof fn lemma_bf_reported(a: DebugSyncInfo, b: DebugSyncInfo)
    requires
        a.battlefield_count != b.battlefield_count,
    ensures
        has_labelled_item(diff_items(a, b), "battlefield_count: "@),
{
    assert(bf_diff(a, b)[0].subrange(0, "battlefield_count: "@.len() as int) =~= "battlefield_count: "@);
    lemma_part_labelled(bf_diff(a, b), "battlefield_count: "@);
    lemma_diff_labelled(a, b, "battlefield_count: "@);
}

proof fn lemma_stack_reported(a: DebugSyncInfo, b: DebugSyncInfo)
    requires
        a.stack_size != b.stack_size,
    ensures
        has_labelled_item(diff_items(a, b), "stack_size: "@),
{
    assert(stack_diff(a, b)[0].subrange(0, "stack_size: "@.len() as int) =~= "stack_size: "@);
    lemma_part_labelled(stack_diff(a, b), "stack_size: "@);
    lemma_diff_labelled(a, b, "stack_size: "@);
}

proof fn lemma_gy_reported(a: DebugSyncInfo, b: DebugSyncInfo)
    requires
        a.graveyard_sizes@ != b.graveyard_sizes@,
    ensures
        has_labelled_item(diff_items(a, b), "graveyard_sizes: "@),
{
    assert(gy_diff(a, b)[0].subrange(0, "graveyard_sizes: "@.len() as int) =~= "graveyard_sizes: "@);
    lemma_part_labelled(gy_diff(a, b), "graveyard_sizes: "@);
    lemma_diff_labelled(a, b, "graveyard_sizes: "@);
}

proof fn lemma_rng_reported(a: DebugSyncInfo, b: DebugSyncInfo)
    requires
        a.rng_hash != b.rng_hash,
    ensures
        has_labelled_item(diff_items(a, b), "rng_hash: "@),
{
    assert(rng_diff(a, b)[0].subrange(0, "rng_hash: "@.len() as int) =~= "rng_hash: "@);
    lemma_part_labelled(rng_diff(a, b), "rng_hash: "@);
    lemma_diff_labelled(a, b, "rng_hash: "@);
}

proof fn lemma_hand_ids_reported(a: DebugSyncInfo, b: DebugSyncInfo)
    requires
        a.requesting_player_hand_ids@.len() > 0 && b.requesting_player_hand_ids@.len() > 0 && a.requesting_player_hand_ids@ != b.requesting_player_hand_ids@,
    ensures
        has_labelled_item(diff_items(a, b), "HAND DESYNC: "@),
{
    reveal_strlit("HAND DESYNC: ");
    reveal_strlit("HAND DESYNC: server hand_ids=");
    assert(hand_ids_diff(a, b)[0].subrange(0, "HAND DESYNC: "@.len() as int) =~= "HAND DESYNC: "@);
    lemma_part_labelled(hand_ids_diff(a, b), "HAND DESYNC: "@);
    lemma_diff_labelled(a, b, "HAND DESYNC: "@);
}

/// Every compared field that differs is reported: the diff then holds an
/// item that begins with that field's label. Each player's entry of the
/// per-player fields counts on its own; hand ids count when both sides
/// sent some.
pub proof fn law_diff_reports_each_differing_field(a: DebugSyncInfo, b: DebugSyncInfo)
    ensures
        a.turn != b.turn ==> has_labelled_item(diff_items(a, b), "turn: "@),
        a.phase@ != b.phase@ ==> has_labelled_item(diff_items(a, b), "phase: "@),
        a.active_player != b.active_player ==> has_labelled_item(diff_items(a, b), "active_player: "@),
        a.life_totals@[0] != b.life_totals@[0] || a.life_totals@[1] != b.life_totals@[1]
            ==> has_labelled_item(diff_items(a, b), "life_totals: "@),
        a.hand_sizes@[0] != b.hand_sizes@[0] || a.hand_sizes@[1] != b.hand_sizes@[1]
            ==> has_labelled_item(diff_items(a, b), "hand_sizes: "@),
        a.library_sizes@[0] != b.library_sizes@[0] || a.library_sizes@[1] != b.library_sizes@[1]
            ==> has_labelled_item(diff_items(a, b), "library_sizes: "@),
        a.battlefield_count != b.battlefield_count ==> has_labelled_item(
            diff_items(a, b),
            "battlefield_count: "@,
        ),
        a.stack_size != b.stack_size ==> has_labelled_item(diff_items(a, b), "stack_size: "@),
        a.graveyard_sizes@[0] != b.graveyard_sizes@[0] || a.graveyard_sizes@[1] != b.graveyard_sizes@[1]
            ==> has_labelled_item(diff_items(a, b), "graveyard_sizes: "@),
        a.rng_hash != b.rng_hash ==> has_labelled_item(diff_items(a, b), "rng_hash: "@),
        a.requesting_player_hand_ids@.len() > 0 && b.requesting_player_hand_ids@.len() > 0
            && a.requesting_player_hand_ids@ != b.requesting_player_hand_ids@ ==> has_labelled_item(
            diff_items(a, b),
            "HAND DESYNC: "@,
        ),
{
    if a.turn != b.turn {
        lemma_turn_reported(a, b);
    }
    if a.phase@ != b.phase@ {
        lemma_phase_reported(a, b);
    }
    if a.active_player != b.active_player {
        lemma_active_reported(a, b);
    }
    if a.life_totals@ != b.life_totals@ {
        lemma_life_reported(a, b);
    }
    if a.hand_sizes@ != b.hand_sizes@ {
        lemma_hands_reported(a, b);
    }
    if a.library_sizes@ != b.library_sizes@ {
        lemma_libs_reported(a, b);
    }
    if a.battlefield_count != b.battlefield_count {
        lemma_bf_reported(a, b);
    }
    if a.stack_size != b.stack_size {
        lemma_stack_reported(a, b);
    }
    if a.graveyard_sizes@ != b.graveyard_sizes@ {
        lemma_gy_reported(a, b);
    }
    if a.rng_hash != b.rng_hash {
        lemma_rng_reported(a, b);
    }
    if a.requesting_player_hand_ids@.len() > 0 && b.requesting_player_hand_ids@.len() > 0 && a.requesting_player_hand_ids@ != b.requesting_player_hand_ids@ {
        lemma_hand_ids_reported(a, b);
    }
}

/// The diff is empty exactly when the two snapshots agree on every compared
/// field: turn, phase, active player, both players' life totals, hand,
/// library and graveyard sizes, battlefield count, stack size, generator
/// hash, and the hand ids when both sides sent some.
pub proof fn law_diff_empty_iff_snapshots_agree(a: DebugSyncInfo, b: DebugSyncInfo)
    ensures
        diff_items(a, b).len() == 0 <==> {
            &&& a.turn == b.turn
            &&& a.phase@ == b.phase@
            &&& a.active_player == b.active_player
            &&& a.life_totals@[0] == b.life_totals@[0] && a.life_totals@[1] == b.life_totals@[1]
            &&& a.hand_sizes@[0] == b.hand_sizes@[0] && a.hand_sizes@[1] == b.hand_sizes@[1]
            &&& a.library_sizes@[0] == b.library_sizes@[0] && a.library_sizes@[1] == b.library_sizes@[1]
            &&& a.battlefield_count == b.battlefield_count
            &&& a.stack_size == b.stack_size
            &&& a.graveyard_sizes@[0] == b.graveyard_sizes@[0] && a.graveyard_sizes@[1]
                == b.graveyard_sizes@[1]
            &&& a.rng_hash == b.rng_hash
            &&& (a.requesting_player_hand_ids@.len() > 0 && b.requesting_player_hand_ids@.len() > 0
                ==> a.requesting_player_hand_ids@ == b.requesting_player_hand_ids@)
        },
{
    assert(a.life_totals@[0] == b.life_totals@[0] && a.life_totals@[1] == b.life_totals@[1]
        ==> a.life_totals@ =~= b.life_totals@);
    assert(a.hand_sizes@[0] == b.hand_sizes@[0] && a.hand_sizes@[1] == b.hand_sizes@[1]
        ==> a.hand_sizes@ =~= b.hand_sizes@);
    assert(a.library_sizes@[0] == b.library_sizes@[0] && a.library_sizes@[1] == b.library_sizes@[1]
        ==> a.library_sizes@ =~= b.library_sizes@);
    assert(a.graveyard_sizes@[0] == b.graveyard_sizes@[0] && a.graveyard_sizes@[1]
        == b.graveyard_sizes@[1] ==> a.graveyard_sizes@ =~= b.graveyard_sizes@);
}

/// The views of some strings.
pub open spec fn texts(v: Seq<String>) -> Seq<Seq<char>> {
    v.map_values(|s: String| s@)
}

fn push_pair_i32(buf: &mut Vec<char>, a: i32, b: i32)
    ensures
        final(buf)@ == old(buf)@ + pair_text(dec_int(a as int), dec_int(b as int)),
{
    push_dec_i64(buf, a as i64);
    push_str(buf, ",");
    push_dec_i64(buf, b as i64);
    assert(final(buf)@ =~= old(buf)@ + pair_text(dec_int(a as int), dec_int(b as int)));
}

fn push_pair_usize(buf: &mut Vec<char>, a: usize, b: usize)
    ensures
        final(buf)@ == old(buf)@ + pair_text(dec(a as nat), dec(b as nat)),
{
    push_dec(buf, a as u64);
    push_str(buf, ",");
    push_dec(buf, b as u64);
    assert(final(buf)@ =~= old(buf)@ + pair_text(dec(a as nat), dec(b as nat)));
}

fn push_array_i32(buf: &mut Vec<char>, v: &[i32; 2])
    ensures
        final(buf)@ == old(buf)@ + array_text(dec_int(v@[0] as int), dec_int(v@[1] as int)),
{
    push_str(buf, "[");
    push_dec_i64(buf, v[0] as i64);
    push_str(buf, ", ");
    push_dec_i64(buf, v[1] as i64);
    push_str(buf, "]");
    assert(final(buf)@ =~= old(buf)@ + array_text(dec_int(v@[0] as int), dec_int(v@[1] as int)));
}

fn push_array_usize(buf: &mut Vec<char>, v: &[usize; 2])
    ensures
        final(buf)@ == old(buf)@ + array_text(dec(v@[0] as nat), dec(v@[1] as nat)),
{
    push_str(buf, "[");
    push_dec(buf, v[0] as u64);
    push_str(buf, ", ");
    push_dec(buf, v[1] as u64);
    push_str(buf, "]");
    assert(final(buf)@ =~= old(buf)@ + array_text(dec(v@[0] as nat), dec(v@[1] as nat)));
}

fn push_opt_u64(buf: &mut Vec<char>, o: Option<u64>)
    ensures
        final(buf)@ == old(buf)@ + opt_u64_text(o),
{
    match o {
        Some(x) => {
            push_str(buf, "Some(");
            push_dec(buf, x);
            push_str(buf, ")");
        },
        None => {
            push_str(buf, "None");
        },
    }
    assert(final(buf)@ =~= old(buf)@ + opt_u64_text(o));
}

fn push_per_player_i32(buf: &mut Vec<char>, label: &str, a: i32, b: i32)
    ensures
        final(buf)@ == old(buf)@ + per_player_line(label@, dec_int(a as int), dec_int(b as int)),
{
    push_str(buf, "  ");
    push_str(buf, label);
    push_str(buf, ": P1=");
    push_dec_i64(buf, a as i64);
    push_str(buf, ", P2=");
    push_dec_i64(buf, b as i64);
    push_str(buf, "\n");
    assert(final(buf)@ =~= old(buf)@ + per_player_line(label@, dec_int(a as int), dec_int(b as int)));
}

fn push_per_player_usize(buf: &mut Vec<char>, label: &str, a: usize, b: usize)
    ensures
        final(buf)@ == old(buf)@ + per_player_line(label@, dec(a as nat), dec(b as nat)),
{
    push_str(buf, "  ");
    push_str(buf, label);
    push_str(buf, ": P1=");
    push_dec(buf, a as u64);
    push_str(buf, ", P2=");
    push_dec(buf, b as u64);
    push_str(buf, "\n");
    assert(final(buf)@ =~= old(buf)@ + per_player_line(label@, dec(a as nat), dec(b as nat)));
}

fn same_u32s(a: &Vec<u32>, b: &Vec<u32>) -> (r: bool)
    ensures
        r == (a@ == b@),
{
    if a.len() != b.len() {
        return false;
    }
    let mut i: usize = 0;
    while i < a.len()
        invariant
            a@.len() == b@.len(),
            i <= a@.len(),
            forall|k: int| 0 <= k < i ==> a@[k] == b@[k],
        decreases a@.len() - i,
    {
        if a[i] != b[i] {
            return false;
        }
        i = i + 1;
    }
    assert(a@ =~= b@);
    true
}

fn same_opt_u64(a: Option<u64>, b: Option<u64>) -> (r: bool)
    ensures
        r == (a == b),
{
    match (a, b) {
        (Some(x), Some(y)) => x == y,
        (None, None) => true,
        _ => false,
    }
}

fn push_item(items: &mut Vec<String>, buf: &Vec<char>)
    ensures
        texts(final(items)@) == texts(old(items)@).push(buf@),
{
    let s = to_string(buf);
    items.push(s);
    assert(texts(final(items)@) =~= texts(old(items)@).push(buf@));
}

impl DebugSyncInfo {
    /// A snapshot with every field zero, empty or absent.
    pub fn new() -> (d: Self)
        ensures
            is_blank(d),
    {
        let d = DebugSyncInfo {
            turn: 0,
            phase: String::new(),
            active_player: PlayerId::new(0),
            priority_player: None,
            life_totals: [0, 0],
            hand_sizes: [0, 0],
            library_sizes: [0, 0],
            battlefield_count: 0,
            stack_size: 0,
            graveyard_sizes: [0, 0],
            last_actions: Vec::new(),
            rng_hash: None,
            requesting_player_hand_ids: Vec::new(),
            battlefield_detail: Vec::new(),
            graveyard_ids: [Vec::new(), Vec::new()],
            library_ids: [Vec::new(), Vec::new()],
            hand_ids: [Vec::new(), Vec::new()],
        };
        assert(d.life_totals@ =~= seq![0i32, 0i32]);
        assert(d.hand_sizes@ =~= seq![0usize, 0usize]);
        assert(d.library_sizes@ =~= seq![0usize, 0usize]);
        assert(d.graveyard_sizes@ =~= seq![0usize, 0usize]);
        d
    }

    /// A concise one-line summary.
    pub fn summary(&self) -> (s: String)
        ensures
            s@ == summary_text(*self),
    {
        let mut buf: Vec<char> = Vec::new();
        push_str(&mut buf, "T");
        push_dec(&mut buf, self.turn as u64);
        push_str(&mut buf, ":");
        push_str(&mut buf, self.phase.as_str());
        push_str(&mut buf, " active=P");
        push_dec(&mut buf, self.active_player.0 as u64);
        push_str(&mut buf, " life=[");
        push_pair_i32(&mut buf, self.life_totals[0], self.life_totals[1]);
        push_str(&mut buf, "] hands=[");
        push_pair_usize(&mut buf, self.hand_sizes[0], self.hand_sizes[1]);
        push_str(&mut buf, "] libs=[");
        push_pair_usize(&mut buf, self.library_sizes[0], self.library_sizes[1]);
        push_str(&mut buf, "] bf=");
        push_dec(&mut buf, self.battlefield_count as u64);
        push_str(&mut buf, " stack=");
        push_dec(&mut buf, self.stack_size as u64);
        assert(buf@ =~= summary_text(*self));
        to_string(&buf)
    }

    fn push_actions(&self, buf: &mut Vec<char>)
        ensures
            final(buf)@ == old(buf)@ + numbered_actions(self.last_actions@),
    {
        let ghost start = buf@;
        let mut i: usize = 0;
        assert(self.last_actions@.take(0) =~= Seq::<String>::empty());
        assert(buf@ =~= start + numbered_actions(self.last_actions@.take(0)));
        while i < self.last_actions.len()
            invariant
                i <= self.last_actions@.len(),
                buf@ == start + numbered_actions(self.last_actions@.take(i as int)),
            decreases self.last_actions@.len() - i,
        {
            let ghost before = buf@;
            push_str(buf, "    [");
            push_dec(buf, (i + 1) as u64);
            push_str(buf, "] ");
            push_str(buf, self.last_actions[i].as_str());
            push_str(buf, "\n");
            proof {
                let t = self.last_actions@.take(i + 1);
                assert(t.drop_last() =~= self.last_actions@.take(i as int));
                assert(t.last() == self.last_actions@[i as int]);
                assert(buf@ =~= start + numbered_actions(t));
            }
            i = i + 1;
        }
        assert(self.last_actions@.take(i as int) =~= self.last_actions@);
    }

    /// A multi-line description for diagnostics.
    #[verifier::spinoff_prover]
    #[verifier::rlimit(50)]
    pub fn detailed(&self) -> (s: String)
        ensures
            s@ == detailed_text(*self),
    {
        let mut buf: Vec<char> = Vec::new();
        push_str(&mut buf, "  Turn: ");
        push_dec(&mut buf, self.turn as u64);
        push_str(&mut buf, ", Phase: ");
        push_str(&mut buf, self.phase.as_str());
        push_str(&mut buf, "\n");
        push_str(&mut buf, "  Active player: P");
        push_dec(&mut buf, self.active_player.0 as u64);
        push_str(&mut buf, "\n");
        assert(buf@ =~= detail_head(*self));
        match self.priority_player {
            Some(p) => {
                push_str(&mut buf, "  Priority: P");
                push_dec(&mut buf, p.0 as u64);
                push_str(&mut buf, "\n");
            },
            None => {},
        }
        assert(buf@ =~= detail_head(*self) + detail_priority(*self));
        let ghost before_counts = buf@;
        push_per_player_i32(&mut buf, "Life", self.life_totals[0], self.life_totals[1]);
        push_per_player_usize(&mut buf, "Hands", self.hand_sizes[0], self.hand_sizes[1]);
        push_per_player_usize(&mut buf, "Libraries", self.library_sizes[0], self.library_sizes[1]);
        push_per_player_usize(
            &mut buf,
            "Graveyards",
            self.graveyard_sizes[0],
            self.graveyard_sizes[1],
        );
        push_str(&mut buf, "  Battlefield: ");
        push_dec(&mut buf, self.battlefield_count as u64);
        push_str(&mut buf, " cards, Stack: ");
        push_dec(&mut buf, self.stack_size as u64);
        push_str(&mut buf, " items\n");
        assert(buf@ =~= before_counts + detail_counts(*self));
        let ghost before_actions = buf@;
        if self.last_actions.len() > 0 {
            push_str(&mut buf, "  Last actions:\n");
            self.push_actions(&mut buf);
        }
        assert(buf@ =~= before_actions + detail_actions(*self));
        assert(buf@ =~= detailed_text(*self));
        to_string(&buf)
    }

    /// The fields that differ from `other`, one line each, in field order.
    /// Hand ids are compared only when both sides sent them.
    pub fn diff(&self, other: &DebugSyncInfo) -> (r: Vec<String>)
        ensures
            texts(r@) == diff_items(*self, *other),
    {
        let mut diffs: Vec<String> = Vec::new();
        assert(texts(diffs@) =~= Seq::<Seq<char>>::empty());
        add_turn_diff(&mut diffs, self, other);
        add_phase_diff(&mut diffs, self, other);
        add_active_diff(&mut diffs, self, other);
        add_life_diff(&mut diffs, self, other);
        add_hands_diff(&mut diffs, self, other);
        add_libs_diff(&mut diffs, self, other);
        add_bf_diff(&mut diffs, self, other);
        add_stack_diff(&mut diffs, self, other);
        add_gy_diff(&mut diffs, self, other);
        add_rng_diff(&mut diffs, self, other);
        add_hand_ids_diff(&mut diffs, self, other);
        assert(texts(diffs@) =~= diff_items(*self, *other));
        diffs
    }
}

/// Appends the text in `buf` when `c` holds.
fn add_if(items: &mut Vec<String>, c: bool, buf: &Vec<char>)
    ensures
        texts(final(items)@) == texts(old(items)@) + item_if(c, buf@),
{
    if c {
        push_item(items, buf);
        assert(texts(final(items)@) =~= texts(old(items)@) + item_if(c, buf@));
    } else {
        assert(texts(final(items)@) =~= texts(old(items)@) + item_if(c, buf@));
    }
}

fn add_turn_diff(items: &mut Vec<String>, a: &DebugSyncInfo, b: &DebugSyncInfo)
    ensures
        texts(final(items)@) == texts(old(items)@) + turn_diff(*a, *b),
{
    let mut t: Vec<char> = Vec::new();
    push_str(&mut t, "turn: ");
    push_dec(&mut t, a.turn as u64);
    push_str(&mut t, " vs ");
    push_dec(&mut t, b.turn as u64);
    assert(t@ =~= "turn: "@ + dec(a.turn as nat) + " vs "@ + dec(b.turn as nat));
    add_if(items, a.turn != b.turn, &t);
}

fn add_phase_diff(items: &mut Vec<String>, a: &DebugSyncInfo, b: &DebugSyncInfo)
    ensures
        texts(final(items)@) == texts(old(items)@) + phase_diff(*a, *b),
{
    let mut t: Vec<char> = Vec::new();
    push_str(&mut t, "phase: ");
    push_str(&mut t, a.phase.as_str());
    push_str(&mut t, " vs ");
    push_str(&mut t, b.phase.as_str());
    assert(t@ =~= "phase: "@ + a.phase@ + " vs "@ + b.phase@);
    add_if(items, a.phase != b.phase, &t);
}

fn add_active_diff(items: &mut Vec<String>, a: &DebugSyncInfo, b: &DebugSyncInfo)
    ensures
        texts(final(items)@) == texts(old(items)@) + active_diff(*a, *b),
{
    let mut t: Vec<char> = Vec::new();
    push_str(&mut t, "active_player: P");
    push_dec(&mut t, a.active_player.0 as u64);
    push_str(&mut t, " vs P");
    push_dec(&mut t, b.active_player.0 as u64);
    assert(t@ =~= "active_player: P"@ + dec(a.active_player.0 as nat) + " vs P"@ + dec(
        b.active_player.0 as nat,
    ));
    add_if(items, a.active_player.0 != b.active_player.0, &t);
}

fn add_life_diff(items: &mut Vec<String>, a: &DebugSyncInfo, b: &DebugSyncInfo)
    ensures
        texts(final(items)@) == texts(old(items)@) + life_diff(*a, *b),
{
    let mut t: Vec<char> = Vec::new();
    push_str(&mut t, "life_totals: ");
    push_array_i32(&mut t, &a.life_totals);
    push_str(&mut t, " vs ");
    push_array_i32(&mut t, &b.life_totals);
    assert(t@ =~= "life_totals: "@ + array_text(
        dec_int(a.life_totals@[0] as int),
        dec_int(a.life_totals@[1] as int),
    ) + " vs "@ + array_text(dec_int(b.life_totals@[0] as int), dec_int(b.life_totals@[1] as int)));
    let c = a.life_totals[0] != b.life_totals[0] || a.life_totals[1] != b.life_totals[1];
    assert(c == (a.life_totals@ != b.life_totals@)) by {
        if !c {
            assert(a.life_totals@ =~= b.life_totals@);
        }
    }
    add_if(items, c, &t);
}

fn add_hands_diff(items: &mut Vec<String>, a: &DebugSyncInfo, b: &DebugSyncInfo)
    ensures
        texts(final(items)@) == texts(old(items)@) + hands_diff(*a, *b),
{
    let mut t: Vec<char> = Vec::new();
    push_str(&mut t, "hand_sizes: ");
    push_array_usize(&mut t, &a.hand_sizes);
    push_str(&mut t, " vs ");
    push_array_usize(&mut t, &b.hand_sizes);
    assert(t@ =~= "hand_sizes: "@ + array_text(dec(a.hand_sizes@[0] as nat), dec(a.hand_sizes@[1] as nat))
        + " vs "@ + array_text(dec(b.hand_sizes@[0] as nat), dec(b.hand_sizes@[1] as nat)));
    let c = a.hand_sizes[0] != b.hand_sizes[0] || a.hand_sizes[1] != b.hand_sizes[1];
    assert(c == (a.hand_sizes@ != b.hand_sizes@)) by {
        if !c {
            assert(a.hand_sizes@ =~= b.hand_sizes@);
        }
    }
    add_if(items, c, &t);
}

fn add_libs_diff(items: &mut Vec<String>, a: &DebugSyncInfo, b: &DebugSyncInfo)
    ensures
        texts(final(items)@) == texts(old(items)@) + libs_diff(*a, *b),
{
    let mut t: Vec<char> = Vec::new();
    push_str(&mut t, "library_sizes: ");
    push_array_usize(&mut t, &a.library_sizes);
    push_str(&mut t, " vs ");
    push_array_usize(&mut t, &b.library_sizes);
    assert(t@ =~= "library_sizes: "@ + array_text(
        dec(a.library_sizes@[0] as nat),
        dec(a.library_sizes@[1] as nat),
    ) + " vs "@ + array_text(dec(b.library_sizes@[0] as nat), dec(b.library_sizes@[1] as nat)));
    let c = a.library_sizes[0] != b.library_sizes[0] || a.library_sizes[1] != b.library_sizes[1];
    assert(c == (a.library_sizes@ != b.library_sizes@)) by {
        if !c {
            assert(a.library_sizes@ =~= b.library_sizes@);
        }
    }
    add_if(items, c, &t);
}

fn add_bf_diff(items: &mut Vec<String>, a: &DebugSyncInfo, b: &DebugSyncInfo)
    ensures
        texts(final(items)@) == texts(old(items)@) + bf_diff(*a, *b),
{
    let mut t: Vec<char> = Vec::new();
    push_str(&mut t, "battlefield_count: ");
    push_dec(&mut t, a.battlefield_count as u64);
    push_str(&mut t, " vs ");
    push_dec(&mut t, b.battlefield_count as u64);
    assert(t@ =~= "battlefield_count: "@ + dec(a.battlefield_count as nat) + " vs "@ + dec(
        b.battlefield_count as nat,
    ));
    add_if(items, a.battlefield_count != b.battlefield_count, &t);
}

fn add_stack_diff(items: &mut Vec<String>, a: &DebugSyncInfo, b: &DebugSyncInfo)
    ensures
        texts(final(items)@) == texts(old(items)@) + stack_diff(*a, *b),
{
    let mut t: Vec<char> = Vec::new();
    push_str(&mut t, "stack_size: ");
    push_dec(&mut t, a.stack_size as u64);
    push_str(&mut t, " vs ");
    push_dec(&mut t, b.stack_size as u64);
    assert(t@ =~= "stack_size: "@ + dec(a.stack_size as nat) + " vs "@ + dec(b.stack_size as nat));
    add_if(items, a.stack_size != b.stack_size, &t);
}

fn add_gy_diff(items: &mut Vec<String>, a: &DebugSyncInfo, b: &DebugSyncInfo)
    ensures
        texts(final(items)@) == texts(old(items)@) + gy_diff(*a, *b),
{
    let mut t: Vec<char> = Vec::new();
    push_str(&mut t, "graveyard_sizes: ");
    push_array_usize(&mut t, &a.graveyard_sizes);
    push_str(&mut t, " vs ");
    push_array_usize(&mut t, &b.graveyard_sizes);
    assert(t@ =~= "graveyard_sizes: "@ + array_text(
        dec(a.graveyard_sizes@[0] as nat),
        dec(a.graveyard_sizes@[1] as nat),
    ) + " vs "@ + array_text(dec(b.graveyard_sizes@[0] as nat), dec(b.graveyard_sizes@[1] as nat)));
    let c = a.graveyard_sizes[0] != b.graveyard_sizes[0] || a.graveyard_sizes[1]
        != b.graveyard_sizes[1];
    assert(c == (a.graveyard_sizes@ != b.graveyard_sizes@)) by {
        if !c {
            assert(a.graveyard_sizes@ =~= b.graveyard_sizes@);
        }
    }
    add_if(items, c, &t);
}

fn add_rng_diff(items: &mut Vec<String>, a: &DebugSyncInfo, b: &DebugSyncInfo)
    ensures
        texts(final(items)@) == texts(old(items)@) + rng_diff(*a, *b),
{
    let mut t: Vec<char> = Vec::new();
    push_str(&mut t, "rng_hash: ");
    push_opt_u64(&mut t, a.rng_hash);
    push_str(&mut t, " vs ");
    push_opt_u64(&mut t, b.rng_hash);
    assert(t@ =~= "rng_hash: "@ + opt_u64_text(a.rng_hash) + " vs "@ + opt_u64_text(b.rng_hash));
    add_if(items, !same_opt_u64(a.rng_hash, b.rng_hash), &t);
}

fn add_hand_ids_diff(items: &mut Vec<String>, a: &DebugSyncInfo, b: &DebugSyncInfo)
    ensures
        texts(final(items)@) == texts(old(items)@) + hand_ids_diff(*a, *b),
{
    let mut t: Vec<char> = Vec::new();
    push_str(&mut t, "HAND DESYNC: server hand_ids=");
    push_u32_list(&mut t, a.requesting_player_hand_ids.as_slice());
    push_str(&mut t, " vs client hand_ids=");
    push_u32_list(&mut t, b.requesting_player_hand_ids.as_slice());
    assert(t@ =~= "HAND DESYNC: server hand_ids="@ + num_list(u32_nats(a.requesting_player_hand_ids@))
        + " vs client hand_ids="@ + num_list(u32_nats(b.requesting_player_hand_ids@)));
    let c = a.requesting_player_hand_ids.len() > 0 && b.requesting_player_hand_ids.len() > 0
        && !same_u32s(&a.requesting_player_hand_ids, &b.requesting_player_hand_ids);
    add_if(items, c, &t);
}

impl Default for DebugSyncInfo {
    fn default() -> (d: Self)
        ensures
            is_blank(d),
    {
        DebugSyncInfo::new()
    }
}

/// Details of a state hash mismatch.
#[derive(Debug, Clone)]
pub struct SyncErrorDetails {
    /// The choice at which the mismatch was found.
    pub choice_seq: u32,
    /// The action count expected.
    pub expected_action_count: u64,
    /// The action count reported.
    pub actual_action_count: u64,
    /// The state hash expected.
    pub expected_hash: u64,
    /// The state hash reported.
    pub actual_hash: u64,
    /// What the side that found the mismatch sees.
    pub local_debug_info: DebugSyncInfo,
    /// What the other side sees, if it sent it.
    pub remote_debug_info: Option<DebugSyncInfo>,
    /// What the mismatch is, for people.
    pub description: String,
}

/// A 64-bit hash as `{:016x}` prints it.
pub open spec fn hash_text(h: u64) -> Seq<char> {
    zero_pad(hex(h as nat), 16)
}

/// The differences as a bullet list, one `"  - <item>\n"` each.
pub open spec fn bullets(items: Seq<Seq<char>>) -> Seq<char>
    decreases items.len(),
{
    if items.len() == 0 {
        Seq::empty()
    } else {
        bullets(items.drop_last()) + "  - "@ + items.last() + "\n"@
    }
}

/// The part of the report about the other side.
pub open spec fn remote_text(local: DebugSyncInfo, remote: Option<DebugSyncInfo>) -> Seq<char> {
    match remote {
        Some(r) => "\nRemote state:\n"@ + detailed_text(r) + {
            let d = diff_items(local, r);
            if d.len() > 0 {
                "\nDifferences detected:\n"@ + bullets(d)
            } else {
                Seq::empty()
            }
        },
        None => Seq::empty(),
    }
}

/// The whole sync error report.
pub open spec fn report_text(e: SyncErrorDetails) -> Seq<char> {
    "=== NETWORK SYNC ERROR ===\n"@ + "Detected at: choice_seq="@ + dec(e.choice_seq as nat)
        + ", action_count="@ + dec(e.actual_action_count as nat) + " (expected "@ + dec(
        e.expected_action_count as nat,
    ) + ")\n"@ + "Hash mismatch: actual="@ + hash_text(e.actual_hash) + " expected="@ + hash_text(
        e.expected_hash,
    ) + "\n"@ + "\n"@ + e.description@ + "\n"@ + "\nLocal state:\n"@ + detailed_text(
        e.local_debug_info,
    ) + remote_text(e.local_debug_info, e.remote_debug_info) + "==========================\n"@
}

fn push_hash(buf: &mut Vec<char>, h: u64)
    ensures
        final(buf)@ == old(buf)@ + hash_text(h),
{
    let digits = crate::text::hex_chars(h);
    push_zero_padded(buf, &digits, 16);
}

fn push_bullets(buf: &mut Vec<char>, items: &Vec<String>)
    ensures
        final(buf)@ == old(buf)@ + bullets(texts(items@)),
{
    let ghost start = buf@;
    let ghost ts = texts(items@);
    let mut i: usize = 0;
    assert(ts.take(0) =~= Seq::<Seq<char>>::empty());
    assert(buf@ =~= start + bullets(ts.take(0)));
    while i < items.len()
        invariant
            i <= items@.len(),
            ts == texts(items@),
            buf@ == start + bullets(ts.take(i as int)),
        decreases items@.len() - i,
    {
        push_str(buf, "  - ");
        push_str(buf, items[i].as_str());
        push_str(buf, "\n");
        proof {
            let t = ts.take(i + 1);
            assert(t.drop_last() =~= ts.take(i as int));
            assert(t.last() == items@[i as int]@);
            assert(buf@ =~= start + bullets(t));
        }
        i = i + 1;
    }
    assert(ts.take(i as int) =~= ts);
}

impl SyncErrorDetails {
    /// The full report, for logging.
    #[verifier::spinoff_prover]
    #[verifier::rlimit(50)]
    pub fn format_report(&self) -> (s: String)
        ensures
            s@ == report_text(*self),
    {
        let mut buf: Vec<char> = Vec::new();
        push_str(&mut buf, "=== NETWORK SYNC ERROR ===\n");
        push_str(&mut buf, "Detected at: choice_seq=");
        push_dec(&mut buf, self.choice_seq as u64);
        push_str(&mut buf, ", action_count=");
        push_dec(&mut buf, self.actual_action_count);
        push_str(&mut buf, " (expected ");
        push_dec(&mut buf, self.expected_action_count);
        push_str(&mut buf, ")\n");
        push_str(&mut buf, "Hash mismatch: actual=");
        push_hash(&mut buf, self.actual_hash);
        push_str(&mut buf, " expected=");
        push_hash(&mut buf, self.expected_hash);
        push_str(&mut buf, "\n");
        push_str(&mut buf, "\n");
        push_str(&mut buf, self.description.as_str());
        push_str(&mut buf, "\n");
        push_str(&mut buf, "\nLocal state:\n");
        let local = self.local_debug_info.detailed();
        push_str(&mut buf, local.as_str());
        let ghost head = buf@;
        match &self.remote_debug_info {
            Some(remote) => {
                push_str(&mut buf, "\nRemote state:\n");
                let rd = remote.detailed();
                push_str(&mut buf, rd.as_str());
                let diffs = self.local_debug_info.diff(remote);
                if diffs.len() > 0 {
                    push_str(&mut buf, "\nDifferences detected:\n");
                    push_bullets(&mut buf, &diffs);
                }
            },
            None => {},
        }
        assert(buf@ =~= head + remote_text(self.local_debug_info, self.remote_debug_info));
        push_str(&mut buf, "==========================\n");
        assert(buf@ =~= report_text(*self));
        to_string(&buf)
    }
}

} // verus!
