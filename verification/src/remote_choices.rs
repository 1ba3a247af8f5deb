//! The choices of a remote player, asked over the network.
//!
//! Each choice is shown as a list of option texts, sent with the game
//! position the request is made at, and the checked response is read back
//! into the game's answer (see `choice_outcomes`). What the choice needs of
//! the game state comes in a `ChoiceView`: the undo log as the reveal
//! collection reads it, card owners and names, the position, the state
//! hash, the debug snapshot and the library orders to broadcast.
use crate::choice_outcomes::{
    attackers_decoded, attackers_outcome, blockers_decoded, blockers_outcome, damage_order_decoded,
    damage_order_outcome, damage_target_decoded, discard_decoded, discard_outcome, failure,
    killable_cards, lethal_damage_outcome, lethal_message, library_decoded, from_library_outcome,
    mana_sources_outcome, modes_decoded, modes_outcome, not_untap_outcome, priority_decoded, remaining_damage_outcome,
    remaining_message, sacrifice_decoded, sacrifice_outcome, scry_decoded, scry_outcome,
    single_decoded, spell_ability_outcome, targets_outcome, surveil_decoded, surveil_outcome, yields, yields_seq,
    ChoiceResult, Decoded, ScryDecision, SurveilDecision,
};
use crate::controller::{
    ability_option_text, name_or_empty, LoggedAction, NetworkChoiceResult, NetworkController,
    NetworkError,
};
use crate::game_types::{ability_card, CardId, ManaCost, PlayerId, SpellAbility};
use crate::protocol::{CardDefinition, ChoiceType};
use crate::sync_debug::DebugSyncInfo;
use crate::text::{dec, dec_int, push_dec, push_dec_i64, push_str, to_string};
use vstd::prelude::*;

verus! {

/// What a remote choice reads of the game state.
pub struct ChoiceView {
    /// The undo log, as the reveal collection reads it.
    pub actions: Vec<LoggedAction>,
    /// The owner of each card the game knows.
    pub owners: Vec<(CardId, PlayerId)>,
    /// The name of each card the game can name.
    pub card_names: Vec<(CardId, String)>,
    /// The length of the undo log.
    pub action_count: u64,
    /// The hash of the public game state.
    pub state_hash: u64,
    /// The debug snapshot sent in network debug mode.
    pub debug_snapshot: Option<DebugSyncInfo>,
    /// Library orders to broadcast before the request.
    pub library_reorders: Vec<(PlayerId, Vec<CardId>)>,
}

// ---------------------------------------------------------------------------
// Option texts
// ---------------------------------------------------------------------------
/// The name the first entry for `card` gives, if any.
pub open spec fn name_in(names: Seq<(CardId, String)>, card: CardId) -> Option<Seq<char>>
    decreases names.len(),
{
    if names.len() == 0 {
        None
    } else if names[0].0 == card {
        Some(names[0].1@)
    } else {
        name_in(names.drop_first(), card)
    }
}

/// How a card is shown: its name, or `Card #<id>` when it has none.
pub open spec fn card_label(names: Seq<(CardId, String)>, card: CardId) -> Seq<char> {
    match name_in(names, card) {
        Some(n) => n,
        None => "Card #"@ + dec(card.0 as nat),
    }
}

/// `prefix` and the label of each card, one option per card.
pub open spec fn labeled(names: Seq<(CardId, String)>, prefix: Seq<char>, cards: Seq<CardId>) -> Seq<Seq<char>> {
    cards.map_values(|c: CardId| prefix + card_label(names, c))
}

/// The views of some strings.
pub open spec fn string_views(v: Seq<String>) -> Seq<Seq<char>> {
    v.map_values(|s: String| s@)
}

/// The options of a priority choice: passing, then each ability.
pub open spec fn priority_options(names: Seq<(CardId, String)>, available: Seq<SpellAbility>) -> Seq<Seq<char>> {
    seq!["Pass priority"@] + available.map_values(
        |a: SpellAbility|
            ability_option_text(
                a,
                match name_in(names, ability_card(a)) {
                    Some(n) => n,
                    None => Seq::empty(),
                },
            ),
    )
}

/// The options of a declare-blockers choice after "done": each blocker
/// with each attacker, blocker by blocker.
pub open spec fn block_pairs(names: Seq<(CardId, String)>, blockers: Seq<CardId>, attackers: Seq<CardId>) -> Seq<
    Seq<char>,
>
    decreases blockers.len(),
{
    if blockers.len() == 0 {
        Seq::empty()
    } else {
        block_pairs(names, blockers.drop_last(), attackers) + attackers.map_values(
            |a: CardId| card_label(names, blockers.last()) + " blocks "@ + card_label(names, a),
        )
    }
}

/// The options of a lethal-damage choice.
pub open spec fn lethal_options(names: Seq<(CardId, String)>, killable: Seq<(CardId, i32)>) -> Seq<Seq<char>> {
    killable.map_values(
        |k: (CardId, i32)|
            "Kill "@ + card_label(names, k.0) + " first (needs "@ + dec_int(k.1 as int) + " damage)"@,
    )
}

/// The options of a remaining-damage choice.
pub open spec fn remaining_options(names: Seq<(CardId, String)>, blockers: Seq<CardId>, damage: i32) -> Seq<
    Seq<char>,
> {
    blockers.map_values(
        |c: CardId| "Assign "@ + dec_int(damage as int) + " remaining damage to "@ + card_label(names, c),
    )
}

/// The options of a library search: declining, then each card's name.
pub open spec fn library_options(cards: Seq<CardDefinition>) -> Seq<Seq<char>> {
    seq!["Decline to find"@] + cards.map_values(|d: CardDefinition| d.name@)
}

fn name_of(names: &Vec<(CardId, String)>, card: CardId) -> (r: Option<&String>)
    ensures
        match r {
            Some(n) => name_in(names@, card) == Some(n@),
            None => name_in(names@, card) is None,
        },
{
    let mut i: usize = 0;
    assert(names@.skip(0) =~= names@);
    while i < names.len()
        invariant
            i <= names@.len(),
            name_in(names@, card) == name_in(names@.skip(i as int), card),
        decreases names@.len() - i,
    {
        proof {
            assert(names@.skip(i as int).drop_first() =~= names@.skip(i + 1));
        }
        if names[i].0 == card {
            return Some(&names[i].1);
        }
        i = i + 1;
    }
    None
}

fn push_label(buf: &mut Vec<char>, names: &Vec<(CardId, String)>, card: CardId)
    ensures
        final(buf)@ == old(buf)@ + card_label(names@, card),
{
    match name_of(names, card) {
        Some(n) => push_str(buf, n.as_str()),
        None => {
            push_str(buf, "Card #");
            push_dec(buf, card.0 as u64);
        },
    }
}

/// `prefix` followed by the label of each card, one option per card.
pub fn labeled_options(names: &Vec<(CardId, String)>, prefix: &str, cards: &[CardId]) -> (r: Vec<String>)
    ensures
        string_views(r@) == labeled(names@, prefix@, cards@),
{
    let mut out: Vec<String> = Vec::new();
    let mut i: usize = 0;
    while i < cards.len()
        invariant
            i <= cards@.len(),
            string_views(out@) == labeled(names@, prefix@, cards@.take(i as int)),
        decreases cards@.len() - i,
    {
        let mut buf: Vec<char> = Vec::new();
        push_str(&mut buf, prefix);
        push_label(&mut buf, names, cards[i]);
        let text = to_string(&buf);
        proof {
            assert(labeled(names@, prefix@, cards@.take(i + 1)) =~= labeled(names@, prefix@, cards@.take(i as int)).push(
                prefix@ + card_label(names@, cards@[i as int]),
            ));
        }
        out.push(text);
        proof {
            assert(string_views(out@) =~= labeled(names@, prefix@, cards@.take(i + 1)));
        }
        i = i + 1;
    }
    assert(cards@.take(i as int) =~= cards@);
    out
}

/// The options of a priority choice.
pub fn priority_option_texts(controller: &NetworkController, names: &Vec<(CardId, String)>, available: &[SpellAbility]) -> (r:
    Vec<String>)
    ensures
        string_views(r@) == priority_options(names@, available@),
{
    let mut out: Vec<String> = Vec::new();
    out.push("Pass priority".to_owned());
    let mut i: usize = 0;
    assert(string_views(out@) =~= priority_options(names@, available@.take(0)));
    while i < available.len()
        invariant
            i <= available@.len(),
            string_views(out@) == priority_options(names@, available@.take(i as int)),
        decreases available@.len() - i,
    {
        let a = available[i];
        let text = match name_of(names, a.card_id()) {
            Some(n) => controller.format_spell_ability(&a, Some(n.as_str())),
            None => controller.format_spell_ability(&a, None),
        };
        proof {
            assert(priority_options(names@, available@.take(i + 1)) =~= priority_options(
                names@,
                available@.take(i as int),
            ).push(text@));
        }
        out.push(text);
        proof {
            assert(string_views(out@) =~= priority_options(names@, available@.take(i + 1)));
        }
        i = i + 1;
    }
    assert(available@.take(i as int) =~= available@);
    out
}

/// The options of a declare-blockers choice: "done", then each blocker with
/// each attacker.
pub fn blocker_option_texts(names: &Vec<(CardId, String)>, blockers: &[CardId], attackers: &[CardId]) -> (r: Vec<
    String,
>)
    ensures
        string_views(r@) == seq!["Done selecting blockers"@] + block_pairs(names@, blockers@, attackers@),
{
    let mut out: Vec<String> = Vec::new();
    out.push("Done selecting blockers".to_owned());
    let mut i: usize = 0;
    assert(blockers@.take(0) =~= Seq::<CardId>::empty());
    assert(string_views(out@) =~= seq!["Done selecting blockers"@] + block_pairs(names@, blockers@.take(0), attackers@));
    while i < blockers.len()
        invariant
            i <= blockers@.len(),
            string_views(out@) == seq!["Done selecting blockers"@] + block_pairs(
                names@,
                blockers@.take(i as int),
                attackers@,
            ),
        decreases blockers@.len() - i,
    {
        let b = blockers[i];
        let ghost before = string_views(out@);
        let mut j: usize = 0;
        while j < attackers.len()
            invariant
                i < blockers@.len(),
                b == blockers@[i as int],
                j <= attackers@.len(),
                string_views(out@) == before + attackers@.take(j as int).map_values(
                    |a: CardId| card_label(names@, b) + " blocks "@ + card_label(names@, a),
                ),
            decreases attackers@.len() - j,
        {
            let mut buf: Vec<char> = Vec::new();
            push_label(&mut buf, names, b);
            push_str(&mut buf, " blocks ");
            push_label(&mut buf, names, attackers[j]);
            let text = to_string(&buf);
            let ghost prev = out@;
            out.push(text);
            proof {
                assert(string_views(out@) =~= string_views(prev).push(text@));
                assert(attackers@.take(j + 1).map_values(
                    |a: CardId| card_label(names@, b) + " blocks "@ + card_label(names@, a),
                ) =~= attackers@.take(j as int).map_values(
                    |a: CardId| card_label(names@, b) + " blocks "@ + card_label(names@, a),
                ).push(text@));
                assert(string_views(out@) =~= before + attackers@.take(j + 1).map_values(
                    |a: CardId| card_label(names@, b) + " blocks "@ + card_label(names@, a),
                ));
            }
            j = j + 1;
        }
        proof {
            assert(attackers@.take(j as int) =~= attackers@);
            assert(blockers@.take(i + 1).drop_last() =~= blockers@.take(i as int));
            assert(blockers@.take(i + 1).last() == b);
            assert(string_views(out@) =~= seq!["Done selecting blockers"@] + block_pairs(
                names@,
                blockers@.take(i + 1),
                attackers@,
            ));
        }
        i = i + 1;
    }
    assert(blockers@.take(i as int) =~= blockers@);
    out
}

/// The options of a lethal-damage choice.
pub fn lethal_option_texts(names: &Vec<(CardId, String)>, killable: &[(CardId, i32)]) -> (r: Vec<String>)
    ensures
        string_views(r@) == lethal_options(names@, killable@),
{
    let mut out: Vec<String> = Vec::new();
    let mut i: usize = 0;
    while i < killable.len()
        invariant
            i <= killable@.len(),
            string_views(out@) == lethal_options(names@, killable@.take(i as int)),
        decreases killable@.len() - i,
    {
        let (card, lethal) = killable[i];
        let mut buf: Vec<char> = Vec::new();
        push_str(&mut buf, "Kill ");
        push_label(&mut buf, names, card);
        push_str(&mut buf, " first (needs ");
        push_dec_i64(&mut buf, lethal as i64);
        push_str(&mut buf, " damage)");
        let text = to_string(&buf);
        proof {
            assert(lethal_options(names@, killable@.take(i + 1)) =~= lethal_options(names@, killable@.take(i as int)).push(
                text@,
            ));
        }
        out.push(text);
        proof {
            assert(string_views(out@) =~= lethal_options(names@, killable@.take(i + 1)));
        }
        i = i + 1;
    }
    assert(killable@.take(i as int) =~= killable@);
    out
}

/// The options of a remaining-damage choice.
pub fn remaining_option_texts(names: &Vec<(CardId, String)>, blockers: &[CardId], damage: i32) -> (r: Vec<String>)
    ensures
        string_views(r@) == remaining_options(names@, blockers@, damage),
{
    let mut out: Vec<String> = Vec::new();
    let mut i: usize = 0;
    while i < blockers.len()
        invariant
            i <= blockers@.len(),
            string_views(out@) == remaining_options(names@, blockers@.take(i as int), damage),
        decreases blockers@.len() - i,
    {
        let mut buf: Vec<char> = Vec::new();
        push_str(&mut buf, "Assign ");
        push_dec_i64(&mut buf, damage as i64);
        push_str(&mut buf, " remaining damage to ");
        push_label(&mut buf, names, blockers[i]);
        let text = to_string(&buf);
        proof {
            assert(remaining_options(names@, blockers@.take(i + 1), damage) =~= remaining_options(
                names@,
                blockers@.take(i as int),
                damage,
            ).push(text@));
        }
        out.push(text);
        proof {
            assert(string_views(out@) =~= remaining_options(names@, blockers@.take(i + 1), damage));
        }
        i = i + 1;
    }
    assert(blockers@.take(i as int) =~= blockers@);
    out
}

/// The options of a library search.
pub fn library_option_texts(cards: &[CardDefinition]) -> (r: Vec<String>)
    ensures
        string_views(r@) == library_options(cards@),
{
    let mut out: Vec<String> = Vec::new();
    out.push("Decline to find".to_owned());
    let mut i: usize = 0;
    assert(string_views(out@) =~= library_options(cards@.take(0)));
    while i < cards.len()
        invariant
            i <= cards@.len(),
            string_views(out@) == library_options(cards@.take(i as int)),
        decreases cards@.len() - i,
    {
        let name = cards[i].name.clone();
        proof {
            assert(library_options(cards@.take(i + 1)) =~= library_options(cards@.take(i as int)).push(name@));
        }
        out.push(name);
        proof {
            assert(string_views(out@) =~= library_options(cards@.take(i + 1)));
        }
        i = i + 1;
    }
    assert(cards@.take(i as int) =~= cards@);
    out
}


// ---------------------------------------------------------------------------
// Asking
// ---------------------------------------------------------------------------
/// What a request for a choice among the options `shown` did to the
/// controller and what came back: one request was sent, with the next
/// sequence number and these option texts; the sequence number moves on
/// when a response was accepted; an accepted response names options that
/// exist (for a library search, its first index); a failed one is a channel
/// error, a desync or an answer to another request.
pub open spec fn asked(
    old: NetworkController,
    new: NetworkController,
    resp: Result<NetworkChoiceResult, NetworkError>,
    shown: Seq<Seq<char>>,
    library_search: bool,
) -> bool {
    let n = shown.len();
    &&& new.sent().len() == old.sent().len() + 1
    &&& new.sent().drop_last() == old.sent()
    &&& new.sent().last().choice_seq == old.seq() + 1
    &&& string_views(new.sent().last().options@) == shown
    &&& new.player() == old.player()
    &&& new.debug_on() == old.debug_on()
    &&& new.seq() == old.seq() + (if resp is Ok { 1int } else { 0int })
    &&& match resp {
        Ok(res) => forall|i: int|
            0 <= i < res.indices@.len() && (!library_search || i == 0) ==> res.indices@[i] < n,
        Err(e) => e is ChannelError || e is DesyncError || (e matches NetworkError::SequenceMismatch {
            expected,
            ..
        } && expected == old.seq() + 1),
    }
}

impl NetworkController {
    fn ask(
        &mut self,
        view: ChoiceView,
        choice_type: ChoiceType,
        options: Vec<String>,
        abilities: Option<Vec<Option<SpellAbility>>>,
        library_search_cards: Option<Vec<CardId>>,
    ) -> (resp: Result<NetworkChoiceResult, NetworkError>)
        requires
            old(self).seq() < u32::MAX,
        ensures
            asked(*old(self), *final(self), resp, string_views(options@), choice_type is LibrarySearchByName),
            final(self).pending_search() == old(self).pending_search(),
    {
        let resp = self.request_choice(
            view.actions.as_slice(),
            view.owners.as_slice(),
            view.action_count,
            view.debug_snapshot,
            view.library_reorders,
            choice_type,
            options,
            view.state_hash,
            abilities,
            library_search_cards,
        );
        if resp.is_ok() {
            self.increment_choice_seq();
        }
        resp
    }

    /// Ask the remote player what to do with priority: pass, or play one of
    /// `available`.
    pub fn choose_spell_ability_to_play(&mut self, view: ChoiceView, available: &[SpellAbility]) -> (r: ChoiceResult<
        Option<SpellAbility>,
    >)
        requires
            old(self).seq() < u32::MAX,
        ensures
            final(self).pending_search() == old(self).pending_search(),
            exists|resp: Result<NetworkChoiceResult, NetworkError>|
                asked(*old(self), *final(self), resp, priority_options(view.card_names@, available@), false) && yields(
                    r,
                    priority_decoded(resp, available@),
                ),
    {
        let options = priority_option_texts(self, &view.card_names, available);
        proof {
            assert(string_views(options@).len() == options@.len());
            assert(priority_options(view.card_names@, available@).len() == available@.len() + 1);
        }
        let mut abilities: Vec<Option<SpellAbility>> = Vec::new();
        abilities.push(None);
        let mut i: usize = 0;
        while i < available.len()
            invariant
                i <= available@.len(),
                abilities@.len() == i + 1,
            decreases available@.len() - i,
        {
            abilities.push(Some(available[i]));
            i = i + 1;
        }
        let resp = self.ask(view, ChoiceType::Priority { available_count: available.len() }, options, Some(abilities), None);
        spell_ability_outcome(resp, available)
    }

    /// Ask the remote player which of `valid_targets` `spell` targets; the
    /// options shown are `target_labels`, as the game's choice formatter
    /// wrote them. With no options there is nothing to ask: no target.
    pub fn choose_targets(&mut self, view: ChoiceView, spell: CardId, valid_targets: &[CardId], target_labels: Vec<
        String,
    >) -> (r: ChoiceResult<Vec<CardId>>)
        requires
            old(self).seq() < u32::MAX,
        ensures
            final(self).pending_search() == old(self).pending_search(),
            target_labels@.len() == 0 ==> *final(self) == *old(self),
            target_labels@.len() == 0 ==> (r matches ChoiceResult::Done(v) && v@.len() == 0),
            target_labels@.len() > 0 ==> exists|resp: Result<NetworkChoiceResult, NetworkError>|
                asked(*old(self), *final(self), resp, string_views(target_labels@), false) && yields_seq(
                    r,
                    single_decoded(resp, valid_targets@, "Invalid target index from network"@),
                ),
    {
        if target_labels.len() == 0 {
            return ChoiceResult::Done(Vec::new());
        }
        let resp = self.ask(view, ChoiceType::Targets { spell_id: spell, target_count: 1 }, target_labels, None, None);
        targets_outcome(resp, valid_targets)
    }

    /// Ask the remote player which of `available_sources` pays `cost`.
    pub fn choose_mana_sources_to_pay(&mut self, view: ChoiceView, cost: &ManaCost, available_sources: &[CardId]) -> (r:
        ChoiceResult<Vec<CardId>>)
        requires
            old(self).seq() < u32::MAX,
        ensures
            final(self).pending_search() == old(self).pending_search(),
            exists|resp: Result<NetworkChoiceResult, NetworkError>|
                asked(*old(self), *final(self), resp, labeled(view.card_names@, ""@, available_sources@), false) && yields_seq(
                    r,
                    single_decoded(resp, available_sources@, "Invalid mana source index from network"@),
                ),
    {
        let options = labeled_options(&view.card_names, "", available_sources);
        proof {
            assert(string_views(options@).len() == options@.len());
        }
        let resp = self.ask(view, ChoiceType::ManaSources { cost: *cost }, options, None, None);
        mana_sources_outcome(resp, available_sources)
    }

    /// Ask the remote player which of `available_creatures` attack.
    pub fn choose_attackers(&mut self, view: ChoiceView, available_creatures: &[CardId]) -> (r: ChoiceResult<Vec<CardId>>)
        requires
            old(self).seq() < u32::MAX,
        ensures
            final(self).pending_search() == old(self).pending_search(),
            exists|resp: Result<NetworkChoiceResult, NetworkError>|
                asked(
                    *old(self),
                    *final(self),
                    resp,
                    seq!["Done selecting attackers"@] + labeled(view.card_names@, "Attack with: "@, available_creatures@),
                    false,
                ) && yields_seq(
                    r,
                    attackers_decoded(resp, available_creatures@),
                ),
    {
        let mut options = labeled_options(&view.card_names, "Attack with: ", available_creatures);
        proof {
            assert(string_views(options@).len() == options@.len());
        }
        let ghost before = options@;
        let done = "Done selecting attackers".to_owned();
        options.insert(0, done);
        proof {
            assert(options@ == before.insert(0, done));
            assert(string_views(options@) =~= seq!["Done selecting attackers"@] + string_views(before));
        }
        let resp = self.ask(
            view,
            ChoiceType::Attackers { available_count: available_creatures.len() },
            options,
            None,
            None,
        );
        attackers_outcome(resp, available_creatures)
    }

    /// Ask the remote player which of `available_blockers` block which of
    /// `attackers`.
    pub fn choose_blockers(&mut self, view: ChoiceView, available_blockers: &[CardId], attackers: &[CardId]) -> (r:
        ChoiceResult<Vec<(CardId, CardId)>>)
        requires
            old(self).seq() < u32::MAX,
        ensures
            final(self).pending_search() == old(self).pending_search(),
            exists|resp: Result<NetworkChoiceResult, NetworkError>|
                asked(
                    *old(self),
                    *final(self),
                    resp,
                    seq!["Done selecting blockers"@] + block_pairs(view.card_names@, available_blockers@, attackers@),
                    false,
                ) && yields_seq(r, blockers_decoded(resp, available_blockers@, attackers@)),
    {
        let options = blocker_option_texts(&view.card_names, available_blockers, attackers);
        proof {
            assert(string_views(options@).len() == options@.len());
        }
        let choice_type = ChoiceType::Blockers {
            attacker_count: attackers.len(),
            blocker_count: available_blockers.len(),
        };
        let resp = self.ask(view, choice_type, options, None, None);
        blockers_outcome(resp, available_blockers, attackers)
    }

    /// Ask the remote player in which order `attacker` deals damage to
    /// `blockers`.
    pub fn choose_damage_assignment_order(&mut self, view: ChoiceView, attacker: CardId, blockers: &[CardId]) -> (r:
        ChoiceResult<Vec<CardId>>)
        requires
            old(self).seq() < u32::MAX,
        ensures
            final(self).pending_search() == old(self).pending_search(),
            exists|resp: Result<NetworkChoiceResult, NetworkError>|
                asked(
                    *old(self),
                    *final(self),
                    resp,
                    labeled(view.card_names@, "Assign damage first to: "@, blockers@),
                    false,
                ) && yields_seq(
                    r,
                    damage_order_decoded(resp, blockers@),
                ),
    {
        let options = labeled_options(&view.card_names, "Assign damage first to: ", blockers);
        proof {
            assert(string_views(options@).len() == options@.len());
        }
        let resp = self.ask(
            view,
            ChoiceType::DamageOrder { attacker, blocker_count: blockers.len() },
            options,
            None,
            None,
        );
        damage_order_outcome(resp, blockers)
    }

    /// Ask the remote player which of `killable_blockers` (each with the
    /// damage that kills it) `attacker` kills first.
    pub fn choose_blocker_for_lethal_damage(
        &mut self,
        view: ChoiceView,
        attacker: CardId,
        killable_blockers: &[(CardId, i32)],
        remaining_power: i32,
    ) -> (r: ChoiceResult<CardId>)
        requires
            old(self).seq() < u32::MAX,
        ensures
            final(self).pending_search() == old(self).pending_search(),
            exists|resp: Result<NetworkChoiceResult, NetworkError>|
                asked(*old(self), *final(self), resp, lethal_options(view.card_names@, killable_blockers@), false) && yields(
                    r,
                    damage_target_decoded(
                        resp,
                        killable_cards(killable_blockers@),
                        lethal_message(killable_blockers@.len()),
                    ),
                ),
    {
        let options = lethal_option_texts(&view.card_names, killable_blockers);
        proof {
            assert(string_views(options@).len() == options@.len());
        }
        let choice_type = ChoiceType::LethalDamageAssignment {
            attacker,
            killable_count: killable_blockers.len(),
            remaining_power,
        };
        let resp = self.ask(view, choice_type, options, None, None);
        lethal_damage_outcome(resp, killable_blockers)
    }

    /// Ask the remote player which of `remaining_blockers` gets the
    /// `remaining_damage` of `attacker`.
    pub fn choose_blocker_for_remaining_damage(
        &mut self,
        view: ChoiceView,
        attacker: CardId,
        remaining_blockers: &[CardId],
        remaining_damage: i32,
    ) -> (r: ChoiceResult<CardId>)
        requires
            old(self).seq() < u32::MAX,
        ensures
            final(self).pending_search() == old(self).pending_search(),
            exists|resp: Result<NetworkChoiceResult, NetworkError>|
                asked(
                    *old(self),
                    *final(self),
                    resp,
                    remaining_options(view.card_names@, remaining_blockers@, remaining_damage),
                    false,
                ) && yields(
                    r,
                    damage_target_decoded(resp, remaining_blockers@, remaining_message(remaining_blockers@.len())),
                ),
    {
        let options = remaining_option_texts(&view.card_names, remaining_blockers, remaining_damage);
        proof {
            assert(string_views(options@).len() == options@.len());
        }
        let choice_type = ChoiceType::RemainingDamageAssignment {
            attacker,
            blocker_count: remaining_blockers.len(),
            remaining_damage,
        };
        let resp = self.ask(view, choice_type, options, None, None);
        remaining_damage_outcome(resp, remaining_blockers)
    }

    /// Ask the remote player which `count` cards of `hand` to discard.
    pub fn choose_cards_to_discard(&mut self, view: ChoiceView, hand: &[CardId], count: usize) -> (r: ChoiceResult<
        Vec<CardId>,
    >)
        requires
            old(self).seq() < u32::MAX,
        ensures
            final(self).pending_search() == old(self).pending_search(),
            exists|resp: Result<NetworkChoiceResult, NetworkError>|
                asked(*old(self), *final(self), resp, labeled(view.card_names@, "Discard: "@, hand@), false) && yields_seq(
                    r,
                    discard_decoded(resp, hand@),
                ),
    {
        let options = labeled_options(&view.card_names, "Discard: ", hand);
        proof {
            assert(string_views(options@).len() == options@.len());
        }
        let resp = self.ask(view, ChoiceType::Discard { count }, options, None, None);
        discard_outcome(resp, hand)
    }

    /// Ask the remote player which of the `revealed` cards go to the bottom.
    pub fn choose_scry_order(&mut self, view: ChoiceView, revealed: &[CardId]) -> (r: ChoiceResult<ScryDecision>)
        requires
            old(self).seq() < u32::MAX,
        ensures
            final(self).pending_search() == old(self).pending_search(),
            exists|resp: Result<NetworkChoiceResult, NetworkError>|
                asked(*old(self), *final(self), resp, labeled(view.card_names@, "Scry: "@, revealed@), false) && match scry_decoded(
                    resp,
                    revealed@,
                ) {
                    Decoded::Chosen(split) => r matches ChoiceResult::Done(d) && d.top@ == split.0
                        && d.bottom@ == split.1,
                    Decoded::Failed(m) => r matches ChoiceResult::Error(e) && e@ == m,
                    Decoded::Exit => r is ExitGame,
                },
    {
        let options = labeled_options(&view.card_names, "Scry: ", revealed);
        proof {
            assert(string_views(options@).len() == options@.len());
        }
        let ids = card_ids(revealed);
        let resp = self.ask(view, ChoiceType::Scry { count: revealed.len(), revealed_card_ids: ids }, options, None, None);
        scry_outcome(resp, revealed)
    }

    /// Ask the remote player which of the `revealed` cards go to the
    /// graveyard.
    pub fn choose_surveil(&mut self, view: ChoiceView, revealed: &[CardId]) -> (r: ChoiceResult<SurveilDecision>)
        requires
            old(self).seq() < u32::MAX,
        ensures
            final(self).pending_search() == old(self).pending_search(),
            exists|resp: Result<NetworkChoiceResult, NetworkError>|
                asked(*old(self), *final(self), resp, labeled(view.card_names@, "Surveil: "@, revealed@), false) && match surveil_decoded(
                    resp,
                    revealed@,
                ) {
                    Decoded::Chosen(split) => r matches ChoiceResult::Done(d) && d.top@ == split.0
                        && d.graveyard@ == split.1,
                    Decoded::Failed(m) => r matches ChoiceResult::Error(e) && e@ == m,
                    Decoded::Exit => r is ExitGame,
                },
    {
        let options = labeled_options(&view.card_names, "Surveil: ", revealed);
        proof {
            assert(string_views(options@).len() == options@.len());
        }
        let ids = card_ids(revealed);
        let resp = self.ask(view, ChoiceType::Surveil { count: revealed.len(), revealed_card_ids: ids }, options, None, None);
        surveil_outcome(resp, revealed)
    }

    /// Ask the remote player which of `valid_cards` to find in a library
    /// search, sending the candidate cards set aside for it (which are
    /// then used up).
    pub fn choose_from_library(&mut self, view: ChoiceView, valid_cards: &[CardDefinition]) -> (r: ChoiceResult<
        Option<usize>,
    >)
        requires
            old(self).seq() < u32::MAX,
        ensures
            final(self).pending_search() is None,
            exists|resp: Result<NetworkChoiceResult, NetworkError>|
                asked(*old(self), *final(self), resp, library_options(valid_cards@), true) && yields(
                    r,
                    library_decoded(resp, valid_cards@.len() as nat),
                ),
    {
        let options = library_option_texts(valid_cards);
        proof {
            assert(string_views(options@).len() == options@.len());
        }
        let mut unique_names: Vec<String> = Vec::new();
        let mut name_counts: Vec<usize> = Vec::new();
        let mut i: usize = 0;
        while i < valid_cards.len()
            invariant
                i <= valid_cards@.len(),
            decreases valid_cards@.len() - i,
        {
            unique_names.push(valid_cards[i].name.clone());
            name_counts.push(1);
            i = i + 1;
        }
        let choice_type = ChoiceType::LibrarySearchByName {
            unique_names,
            name_counts,
            filter_description: "matching cards".to_owned(),
        };
        let library_search_cards = self.take_pending_library_search_card_ids();
        let ghost shown = string_views(options@);
        let resp = self.ask(view, choice_type, options, None, library_search_cards);
        proof {
            assert(shown == library_options(valid_cards@));
            assert(asked(*old(self), *self, resp, library_options(valid_cards@), true));
        }
        from_library_outcome(resp, valid_cards.len())
    }

    /// Ask the remote player which `count` of `valid_permanents` to
    /// sacrifice.
    pub fn choose_permanents_to_sacrifice(
        &mut self,
        view: ChoiceView,
        valid_permanents: &[CardId],
        count: usize,
        card_type_description: &str,
    ) -> (r: ChoiceResult<Vec<CardId>>)
        requires
            old(self).seq() < u32::MAX,
        ensures
            final(self).pending_search() == old(self).pending_search(),
            exists|resp: Result<NetworkChoiceResult, NetworkError>|
                asked(*old(self), *final(self), resp, labeled(view.card_names@, "Sacrifice: "@, valid_permanents@), false) && yields_seq(
                    r,
                    sacrifice_decoded(resp, valid_permanents@),
                ),
    {
        let options = labeled_options(&view.card_names, "Sacrifice: ", valid_permanents);
        proof {
            assert(string_views(options@).len() == options@.len());
        }
        let choice_type = ChoiceType::Sacrifice {
            valid_count: valid_permanents.len(),
            count,
            card_type_description: card_type_description.to_owned(),
        };
        let resp = self.ask(view, choice_type, options, None, None);
        sacrifice_outcome(resp, valid_permanents)
    }

    /// Which of `may_not_untap_permanents` stay tapped: none, without
    /// asking (the protocol has no such choice yet).
    pub fn choose_permanents_to_not_untap(&mut self, view: ChoiceView, may_not_untap_permanents: &[CardId]) -> (r:
        ChoiceResult<Vec<CardId>>)
        ensures
            *final(self) == *old(self),
            r matches ChoiceResult::Done(v) && v@.len() == 0,
    {
        not_untap_outcome()
    }

    /// Ask the remote player which modes of `spell_id` to choose among
    /// `mode_descriptions`.
    pub fn choose_modes(
        &mut self,
        view: ChoiceView,
        spell_id: CardId,
        mode_descriptions: &Vec<String>,
        mode_count: usize,
        min_modes: usize,
        can_repeat: bool,
    ) -> (r: ChoiceResult<Vec<usize>>)
        requires
            old(self).seq() < u32::MAX,
        ensures
            final(self).pending_search() == old(self).pending_search(),
            exists|resp: Result<NetworkChoiceResult, NetworkError>|
                asked(*old(self), *final(self), resp, string_views(mode_descriptions@), false) && yields_seq(
                    r,
                    modes_decoded(
                        resp,
                        mode_descriptions@.len() as nat,
                        mode_count as nat,
                        min_modes as nat,
                        can_repeat,
                    ),
                ),
    {
        let mut options: Vec<String> = Vec::new();
        let mut i: usize = 0;
        while i < mode_descriptions.len()
            invariant
                i <= mode_descriptions@.len(),
                string_views(options@) == string_views(mode_descriptions@.take(i as int)),
            decreases mode_descriptions@.len() - i,
        {
            let d = mode_descriptions[i].clone();
            let ghost prev = options@;
            options.push(d);
            proof {
                assert(mode_descriptions@.take(i + 1) =~= mode_descriptions@.take(i as int).push(mode_descriptions@[i as int]));
                assert(options@ =~= prev.push(d));
                assert(string_views(prev.push(d)) =~= string_views(prev).push(d@));
                assert(string_views(mode_descriptions@.take(i + 1)) =~= string_views(mode_descriptions@.take(i as int)).push(
                    mode_descriptions@[i as int]@,
                ));
                assert(string_views(options@) =~= string_views(mode_descriptions@.take(i + 1)));
            }
            i = i + 1;
        }
        proof {
            assert(mode_descriptions@.take(i as int) =~= mode_descriptions@);
            assert(string_views(options@).len() == options@.len());
        }
        let choice_type = ChoiceType::Modes {
            spell_id,
            mode_count,
            min_modes,
            can_repeat,
            available_modes: mode_descriptions.len(),
        };
        let resp = self.ask(view, choice_type, options, None, None);
        modes_outcome(resp, mode_descriptions.len(), mode_count, min_modes, can_repeat)
    }
}

/// A copy of some card ids.
fn card_ids(cards: &[CardId]) -> (r: Vec<CardId>)
    ensures
        r@ == cards@,
{
    let mut out: Vec<CardId> = Vec::new();
    let mut i: usize = 0;
    while i < cards.len()
        invariant
            i <= cards@.len(),
            out@ == cards@.take(i as int),
        decreases cards@.len() - i,
    {
        out.push(cards[i]);
        i = i + 1;
        assert(out@ =~= cards@.take(i as int));
    }
    assert(cards@.take(i as int) =~= cards@);
    out
}

} // verus!
