//! Combat: effects of played cards on the player's and the enemy's tokens,
//! the end of a fight, and the turn structure.
use crate::library::concrete::{percent_of, pct_of, template_of};
use crate::library::costs::{all_affordable, deduct_b, deduct_fits_b, effect_player_costs, pay_effect_costs, preview_effect_costs, totals_fit, Balances};
use crate::library::game_state::{class_hand, counts_fit, draws_by_type, after_death_check, CardClass, GameState};
use crate::library::types::{
    duplicate_effects, duplicate_enemy_deck, effects_view, CardKind, CombatPhase, EncounterKind, EncounterPhase, EncounterState,
    EnemyCardDef, HasDeckCounts, LibraryCard, same_enemy_cards,
};
use crate::library::rolls::{sum_discard_exec, sum_hand_exec, copies, deck_draw_random, deck_play_random, deck_shuffle_hand, same_cards, sum_deck, sum_discard, sum_hand, total_fits, lemma_total_fits_draw, lemma_same_cards_refl, lemma_same_cards_trans, lemma_sums_nonneg};
use rand_pcg::Lcg64Xsh32;
use crate::library::token_map::{bal, bset, get0, TokenMap};
use crate::library::types::{
    dodge_key, persistent_key, CardEffectKind, CardEffectKindView, CombatEncounterState, ConcreteEffect,
    ConcreteEffectView, EffectTarget, EncounterOutcome, Token, TokenKey, TokenType,
};
use crate::library::Library;
use vstd::prelude::*;

verus! {

/// A value that an `i64` holds.
pub open spec fn fits(x: int) -> bool {
    i64::MIN <= x <= i64::MAX
}

pub open spec fn min_int(a: int, b: int) -> int {
    if a <= b { a } else { b }
}

pub open spec fn max_int(a: int, b: int) -> int {
    if a >= b { a } else { b }
}

/// Whether an effect with `target`, played by the player (`is_player`) or by
/// the enemy, lands on the player's tokens.
pub open spec fn on_player(target: EffectTarget, is_player: bool) -> bool {
    (target == EffectTarget::OnSelf) == is_player
}

/// Damage to health: a dodge removes the whole attack (one dodge is spent);
/// with no dodge, shield absorbs first and health takes the rest; no balance
/// goes below zero. `None` where the game's `i64` arithmetic would overflow.
pub open spec fn health_damage(b: Balances, damage: int) -> Option<Balances> {
    let dodge = get0(b.0, dodge_key());
    if damage > 0 && dodge > 0 {
        Some(bset(b, dodge_key(), (dodge - 1) as i64))
    } else {
        let b1 = bset(b, dodge_key(), max_int(dodge, 0) as i64);
        let shield = get0(b1.0, persistent_key(TokenType::Shield));
        let sa = min_int(shield, damage);
        let b2 = bset(b1, persistent_key(TokenType::Shield), max_int(shield - sa, 0) as i64);
        let remaining = damage - sa;
        let health = get0(b2.0, persistent_key(TokenType::Health));
        if !(fits(shield - sa) && fits(remaining)) {
            None
        } else if remaining > 0 {
            if fits(health - remaining) {
                Some(bset(b2, persistent_key(TokenType::Health), max_int(health - remaining, 0) as i64))
            } else {
                None
            }
        } else {
            Some(b2)
        }
    }
}

/// Losing `damage` of a token type: health goes through dodge and shield, any
/// other type loses from its persistent counter, never below zero.
pub open spec fn lose(b: Balances, tt: TokenType, damage: int) -> Option<Balances> {
    if tt == TokenType::Health {
        health_damage(b, damage)
    } else {
        let v = get0(b.0, persistent_key(tt));
        if fits(v - damage) {
            Some(bset(b, persistent_key(tt), max_int(v - damage, 0) as i64))
        } else {
            None
        }
    }
}

/// The amount a gain effect grants: `cap * gain_percent / 100`, limited so
/// that the balance does not pass the cap; without a rolled cap, the rolled value.
pub open spec fn grant_amount(b: Balances, tt: TokenType, c: ConcreteEffectView) -> Option<int> {
    match (c.rolled_cap, c.rolled_gain_percent) {
        (Some(cap), Some(pct)) => {
            let cur = get0(b.0, persistent_key(tt));
            if fits(cap * pct) && fits(cap - cur) {
                Some(min_int(pct_of(cap as int, pct as int), max_int(cap - cur, 0)))
            } else {
                None
            }
        },
        _ => Some(c.rolled_value as int),
    }
}

/// Gaining tokens of a type on its persistent counter, never below zero.
pub open spec fn gain(b: Balances, tt: TokenType, c: ConcreteEffectView) -> Option<Balances> {
    match grant_amount(b, tt, c) {
        Some(g) => {
            let v = get0(b.0, persistent_key(tt));
            if fits(v + g) {
                Some(bset(b, persistent_key(tt), max_int(v + g, 0) as i64))
            } else {
                None
            }
        },
        None => None,
    }
}

/// Insight always goes to the player's persistent counter.
pub open spec fn add_insight(b: Balances, value: int) -> Option<Balances> {
    let v = get0(b.0, persistent_key(TokenType::Insight));
    if fits(v + value) {
        Some(bset(b, persistent_key(TokenType::Insight), (v + value) as i64))
    } else {
        None
    }
}

/// One effect applied to the player's (`p`) and the enemy's (`e`) balances.
pub open spec fn apply_one(
    p: Balances,
    e: Balances,
    c: ConcreteEffectView,
    k: Option<CardEffectKindView>,
    is_player: bool,
) -> Option<(Balances, Balances)> {
    match k {
        Some(CardEffectKindView::GainTokens { target, token_type, .. }) => {
            if on_player(target, is_player) {
                match gain(p, token_type, c) {
                    Some(p1) => Some((p1, e)),
                    None => None,
                }
            } else {
                match gain(e, token_type, c) {
                    Some(e1) => Some((p, e1)),
                    None => None,
                }
            }
        },
        Some(CardEffectKindView::LoseTokens { target, token_type, .. }) => {
            if on_player(target, is_player) {
                match lose(p, token_type, c.rolled_value as int) {
                    Some(p1) => Some((p1, e)),
                    None => None,
                }
            } else {
                match lose(e, token_type, c.rolled_value as int) {
                    Some(e1) => Some((p, e1)),
                    None => None,
                }
            }
        },
        Some(CardEffectKindView::Insight { .. }) => match add_insight(p, c.rolled_value as int) {
            Some(p1) => Some((p1, e)),
            None => None,
        },
        _ => Some((p, e)),
    }
}

/// The effects applied one after the other, from the first.
pub open spec fn apply_effects(
    p: Balances,
    e: Balances,
    effects: Seq<ConcreteEffect>,
    lib: Library,
    is_player: bool,
) -> Option<(Balances, Balances)>
    decreases effects.len(),
{
    if effects.len() == 0 {
        Some((p, e))
    } else {
        match apply_one(p, e, effects[0]@, template_of(lib, effects[0].effect_id), is_player) {
            Some((p1, e1)) => apply_effects(p1, e1, effects.drop_first(), lib, is_player),
            None => None,
        }
    }
}

fn take_health_damage(m: &mut TokenMap, damage: i64)
    requires
        health_damage(bal(*old(m)), damage as int) is Some,
    ensures
        bal(*final(m)) == health_damage(bal(*old(m)), damage as int)->Some_0,
{
    let dodge = m.value(&Token::dodge());
    if damage > 0 && dodge > 0 {
        m.insert(Token::dodge(), dodge - 1);
        return;
    }
    m.insert(Token::dodge(), if dodge > 0 { dodge } else { 0 });
    let shield_key = Token::persistent(TokenType::Shield);
    let shield = m.value(&shield_key);
    let sa = if shield <= damage { shield } else { damage };
    let ns = shield - sa;
    m.insert(Token::persistent(TokenType::Shield), if ns > 0 { ns } else { 0 });
    let remaining = damage - sa;
    if remaining > 0 {
        let health = m.value(&Token::persistent(TokenType::Health));
        let nh = health - remaining;
        m.insert(Token::persistent(TokenType::Health), if nh > 0 { nh } else { 0 });
    }
}

fn lose_tokens(m: &mut TokenMap, tt: TokenType, damage: i64)
    requires
        lose(bal(*old(m)), tt, damage as int) is Some,
    ensures
        bal(*final(m)) == lose(bal(*old(m)), tt, damage as int)->Some_0,
{
    if tt == TokenType::Health {
        take_health_damage(m, damage);
    } else {
        let v = m.value(&Token::persistent(tt));
        let nv = v - damage;
        m.insert(Token::persistent(tt), if nv > 0 { nv } else { 0 });
    }
}

fn gain_tokens(m: &mut TokenMap, tt: TokenType, c: &ConcreteEffect)
    requires
        gain(bal(*old(m)), tt, c@) is Some,
    ensures
        bal(*final(m)) == gain(bal(*old(m)), tt, c@)->Some_0,
{
    let grant = match (c.rolled_cap, c.rolled_gain_percent) {
        (Some(cap), Some(pct)) => {
            let current = m.value(&Token::persistent(tt));
            let raw = percent_of(cap, pct);
            let room = cap - current;
            let room = if room > 0 { room } else { 0 };
            if raw <= room { raw } else { room }
        },
        _ => c.rolled_value,
    };
    let v = m.value(&Token::persistent(tt));
    let nv = v + grant;
    m.insert(Token::persistent(tt), if nv > 0 { nv } else { 0 });
}

/// One effect applied: a gain or loss lands on the side it targets, insight
/// on the player; draw effects change no tokens.
pub fn apply_one_effect(
    effect: &ConcreteEffect,
    is_player: bool,
    player_tokens: &mut TokenMap,
    enemy_tokens: &mut TokenMap,
    library: &Library,
)
    requires
        apply_one(bal(*old(player_tokens)), bal(*old(enemy_tokens)), effect@, template_of(*library, effect.effect_id), is_player) is Some,
    ensures
        (bal(*final(player_tokens)), bal(*final(enemy_tokens))) == apply_one(
            bal(*old(player_tokens)),
            bal(*old(enemy_tokens)),
            effect@,
            template_of(*library, effect.effect_id),
            is_player,
        )->Some_0,
{
    match library.effect_kind(effect.effect_id) {
        Some(CardEffectKind::GainTokens { target, token_type, .. }) => {
            if (*target == EffectTarget::OnSelf) == is_player {
                gain_tokens(player_tokens, *token_type, effect);
            } else {
                gain_tokens(enemy_tokens, *token_type, effect);
            }
        },
        Some(CardEffectKind::LoseTokens { target, token_type, .. }) => {
            if (*target == EffectTarget::OnSelf) == is_player {
                lose_tokens(player_tokens, *token_type, effect.rolled_value);
            } else {
                lose_tokens(enemy_tokens, *token_type, effect.rolled_value);
            }
        },
        Some(CardEffectKind::Insight { .. }) => {
            let v = player_tokens.value(&Token::persistent(TokenType::Insight));
            player_tokens.insert(Token::persistent(TokenType::Insight), v + effect.rolled_value);
        },
        _ => {},
    }
}

/// Apply card effects to combat using concrete rolled values, one after the
/// other: gains and losses land on the side the effect targets, insight on
/// the player; draw effects are left to the caller.
pub fn apply_card_effects(
    effects: &[ConcreteEffect],
    is_player: bool,
    player_tokens: &mut TokenMap,
    enemy_tokens: &mut TokenMap,
    library: &Library,
)
    requires
        apply_effects(bal(*old(player_tokens)), bal(*old(enemy_tokens)), effects@, *library, is_player) is Some,
    ensures
        (bal(*final(player_tokens)), bal(*final(enemy_tokens))) == apply_effects(
            bal(*old(player_tokens)),
            bal(*old(enemy_tokens)),
            effects@,
            *library,
            is_player,
        )->Some_0,
{
    let ghost total = apply_effects(bal(*player_tokens), bal(*enemy_tokens), effects@, *library, is_player);
    assert(effects@.subrange(0, effects@.len() as int) =~= effects@);
    let mut i: usize = 0;
    while i < effects.len()
        invariant
            i <= effects.len(),
            total is Some,
            total == apply_effects(bal(*player_tokens), bal(*enemy_tokens), effects@.subrange(i as int, effects@.len() as int), *library, is_player),
        decreases effects.len() - i,
    {
        let ghost rest = effects@.subrange(i as int, effects@.len() as int);
        proof {
            assert(rest[0] == effects@[i as int]);
            assert(rest.drop_first() =~= effects@.subrange(i + 1, effects@.len() as int));
        }
        apply_one_effect(&effects[i], is_player, player_tokens, enemy_tokens, library);
        i += 1;
    }
    proof {
        assert(effects@.subrange(effects@.len() as int, effects@.len() as int) =~= Seq::<ConcreteEffect>::empty());
    }
}

/// The outcome after a play: once either side's health is at zero or below,
/// the player wins unless only the player is out (a double knock-out counts
/// for the player); otherwise the outcome stays as it was.
pub open spec fn combat_end_outcome(player_health: int, enemy_health: int, cur: EncounterOutcome) -> EncounterOutcome {
    if enemy_health <= 0 || player_health <= 0 {
        if player_health <= 0 && enemy_health > 0 {
            EncounterOutcome::PlayerLost
        } else {
            EncounterOutcome::PlayerWon
        }
    } else {
        cur
    }
}

/// Check if combat has ended (either side at 0 health).
pub fn check_combat_end(player_tokens: &TokenMap, combat: &mut CombatEncounterState)
    ensures
        final(combat).outcome == combat_end_outcome(
            player_tokens.spec_value(persistent_key(TokenType::Health)),
            old(combat).enemy_tokens.spec_value(persistent_key(TokenType::Health)),
            old(combat).outcome,
        ),
        final(combat).round == old(combat).round,
        final(combat).phase == old(combat).phase,
        final(combat).enemy_tokens == old(combat).enemy_tokens,
        final(combat).encounter_card_id == old(combat).encounter_card_id,
        final(combat).enemy_attack_deck == old(combat).enemy_attack_deck,
        final(combat).enemy_defence_deck == old(combat).enemy_defence_deck,
        final(combat).enemy_resource_deck == old(combat).enemy_resource_deck,
{
    let player_health = player_tokens.value(&Token::persistent(TokenType::Health));
    let enemy_health = combat.enemy_tokens.value(&Token::persistent(TokenType::Health));
    if enemy_health <= 0 || player_health <= 0 {
        combat.outcome = if player_health <= 0 && enemy_health > 0 {
            EncounterOutcome::PlayerLost
        } else {
            EncounterOutcome::PlayerWon
        };
    }
}


/// Why a combat action was refused.
#[derive(Clone, Copy, Debug, PartialEq, Eq, Structural)]
pub enum CombatError {
    /// No combat encounter is active.
    NoActiveCombat,
    /// The library has no card with this id.
    CardNotFound { card_id: usize },
    /// Only attack, defence and resource cards can be played in combat.
    NotAnActionCard { card_id: usize },
    /// The card has effects but the player can pay for none of them.
    NoPayableEffect { card_id: usize },
    /// The card is not a combat encounter.
    NotACombatEncounter { card_id: usize },
}

/// The effects of an attack, defence or resource card.
pub open spec fn action_effects(k: CardKind) -> Option<Seq<ConcreteEffect>> {
    match k {
        CardKind::Attack { effects } => Some(effects@),
        CardKind::Defence { effects } => Some(effects@),
        CardKind::Resource { effects } => Some(effects@),
        _ => None,
    }
}

/// An effect is payable when it costs nothing or the player can afford its costs.
pub open spec fn effect_payable(e: ConcreteEffect, b: Balances) -> bool {
    e.rolled_costs@.len() == 0 || all_affordable(effect_player_costs(e), b)
}

/// Some effect of the list is payable.
pub open spec fn any_payable(effects: Seq<ConcreteEffect>, b: Balances) -> bool {
    exists|i: int| 0 <= i < effects.len() && #[trigger] effect_payable(effects[i], b)
}

/// The cards drawn by an effect template, per player deck.
pub open spec fn draw_counts(k: Option<CardEffectKindView>) -> (int, int, int) {
    match k {
        Some(CardEffectKindView::DrawCards { attack, defence, resource }) => (attack as int, defence as int, resource as int),
        _ => (0, 0, 0),
    }
}

/// A player's card played effect by effect: an effect whose costs cannot all
/// be paid is skipped; otherwise its costs are deducted and it is applied,
/// and its draws counted. `None` where the game's arithmetic would overflow.
pub open spec fn play_effects(p: Balances, e: Balances, effects: Seq<ConcreteEffect>, lib: Library) -> Option<(Balances, Balances, int, int, int)>
    decreases effects.len(),
{
    if effects.len() == 0 {
        Some((p, e, 0, 0, 0))
    } else {
        let eff = effects[0];
        let costs = effect_player_costs(eff);
        let k = template_of(lib, eff.effect_id);
        if !totals_fit(p) {
            None
        } else if !all_affordable(costs, p) {
            play_effects(p, e, effects.drop_first(), lib)
        } else if !deduct_fits_b(costs, p) {
            None
        } else {
            match apply_one(deduct_b(p, costs), e, eff@, k, true) {
                Some((p2, e2)) => match play_effects(p2, e2, effects.drop_first(), lib) {
                    Some((p3, e3, a, d, r)) => Some((p3, e3, a + draw_counts(k).0, d + draw_counts(k).1, r + draw_counts(k).2)),
                    None => None,
                },
                None => None,
            }
        }
    }
}

/// `play_effects` from some point on, with the draws counted so far added.
pub open spec fn acc_play(p: Balances, e: Balances, rest: Seq<ConcreteEffect>, lib: Library, a: int, d: int, r: int) -> Option<(Balances, Balances, int, int, int)> {
    match play_effects(p, e, rest, lib) {
        Some((p3, e3, a3, d3, r3)) => Some((p3, e3, a + a3, d + d3, r + r3)),
        None => None,
    }
}

pub proof fn lemma_play_draws_nonneg(p: Balances, e: Balances, effects: Seq<ConcreteEffect>, lib: Library)
    ensures
        play_effects(p, e, effects, lib) matches Some((_, _, a, d, r)) ==> a >= 0 && d >= 0 && r >= 0,
    decreases effects.len(),
{
    if effects.len() > 0 {
        let eff = effects[0];
        let costs = effect_player_costs(eff);
        lemma_play_draws_nonneg(p, e, effects.drop_first(), lib);
        if totals_fit(p) && all_affordable(costs, p) && deduct_fits_b(costs, p) {
            match apply_one(deduct_b(p, costs), e, eff@, template_of(lib, eff.effect_id), true) {
                Some((p2, e2)) => lemma_play_draws_nonneg(p2, e2, effects.drop_first(), lib),
                None => {},
            }
        }
    }
}

/// A card in hand that can be played in combat.
pub open spec fn is_combat_hand_card(c: LibraryCard) -> bool {
    c.counts.hand > 0 && action_effects(c.kind) is Some
}

/// A card none of whose effects can be paid: it has effects, each has costs, and none is affordable.
pub open spec fn card_unpayable(c: LibraryCard, b: Balances) -> bool {
    match action_effects(c.kind) {
        Some(effs) => effs.len() > 0 && forall|i: int| 0 <= i < effs.len() ==> (#[trigger] effs[i]).rolled_costs@.len() > 0
            && !all_affordable(effect_player_costs(effs[i]), b),
        None => false,
    }
}

/// A card with any costless effect is always playable: it never counts as
/// unpayable, whatever the balances.
pub proof fn law_costless_effect_keeps_card_playable(c: LibraryCard, b: Balances, i: int)
    requires
        action_effects(c.kind) matches Some(effs) && 0 <= i < effs.len() && effs[i].rolled_costs@.len() == 0,
    ensures
        !card_unpayable(c, b),
{
    let effs = action_effects(c.kind)->Some_0;
    assert(!((effs[i]).rolled_costs@.len() > 0));
}

/// The player holds combat cards in hand and can pay for none of them.
pub open spec fn all_unpayable(cards: Seq<LibraryCard>, b: Balances) -> bool {
    &&& exists|i: int| 0 <= i < cards.len() && is_combat_hand_card(#[trigger] cards[i])
    &&& forall|i: int| 0 <= i < cards.len() && is_combat_hand_card(#[trigger] cards[i]) ==> card_unpayable(cards[i], b)
}

/// The combat encounter in progress, if any.
pub open spec fn combat_of(enc: Option<EncounterState>) -> Option<CombatEncounterState> {
    match enc {
        Some(EncounterState::Combat(c)) => Some(c),
        _ => None,
    }
}

/// Why playing card `id` is refused, if it is.
pub open spec fn player_card_error(s: GameState, id: usize) -> Option<CombatError> {
    if combat_of(s.current_encounter) is None {
        Some(CombatError::NoActiveCombat)
    } else if id >= s.library.cards@.len() {
        Some(CombatError::CardNotFound { card_id: id })
    } else if action_effects(s.library.cards@[id as int].kind) is None {
        Some(CombatError::NotAnActionCard { card_id: id })
    } else if action_effects(s.library.cards@[id as int].kind)->Some_0.len() > 0 && !any_payable(
        action_effects(s.library.cards@[id as int].kind)->Some_0,
        bal(s.token_balances),
    ) {
        Some(CombatError::NoPayableEffect { card_id: id })
    } else {
        None
    }
}

/// The balances, draws and outcome of playing card `id` (when it is not refused).
pub open spec fn player_play(s: GameState, id: usize) -> Option<(Balances, Balances, int, int, int)> {
    play_effects(
        bal(s.token_balances),
        bal(combat_of(s.current_encounter)->Some_0.enemy_tokens),
        action_effects(s.library.cards@[id as int].kind)->Some_0,
        s.library,
    )
}

/// The health on a side's balances.
pub open spec fn health_of(b: Balances) -> int {
    get0(b.0, persistent_key(TokenType::Health))
}

/// The outcome after a play: the end-of-combat check, then a loss when the
/// player can pay for no card left in hand.
pub open spec fn outcome_after(cur: EncounterOutcome, p: Balances, e: Balances, cards: Seq<LibraryCard>) -> EncounterOutcome {
    let o = combat_end_outcome(health_of(p), health_of(e), cur);
    if o == EncounterOutcome::Undecided && all_unpayable(cards, p) {
        EncounterOutcome::PlayerLost
    } else {
        o
    }
}

/// The player's balances once a finished fight is settled: a win grants
/// milestone insight, then a death is checked for.
pub open spec fn settle_balances(p: Balances, outcome: EncounterOutcome, s: GameState) -> Balances {
    let p1 = if outcome == EncounterOutcome::PlayerWon {
        bset(p, persistent_key(TokenType::MilestoneInsight), (get0(p.0, persistent_key(TokenType::MilestoneInsight)) + 100) as i64)
    } else {
        p
    };
    after_death_check(p1, s.game_rules.general)
}

/// What settling a finished fight needs to stay in range.
pub open spec fn settle_fits(p: Balances, outcome: EncounterOutcome) -> bool {
    &&& outcome == EncounterOutcome::PlayerWon ==> get0(p.0, persistent_key(TokenType::MilestoneInsight)) + 100 <= i64::MAX
    &&& get0(p.0, persistent_key(TokenType::PlayerDeaths)) < i64::MAX
}

/// The combat state after a play that did not end the fight.
pub open spec fn combat_continues(before: CombatEncounterState, after: CombatEncounterState, e: Balances) -> bool {
    &&& after.round == before.round
    &&& after.phase == before.phase
    &&& after.encounter_card_id == before.encounter_card_id
    &&& after.outcome == EncounterOutcome::Undecided
    &&& bal(after.enemy_tokens) == e
    &&& after.enemy_attack_deck == before.enemy_attack_deck
    &&& after.enemy_defence_deck == before.enemy_defence_deck
    &&& after.enemy_resource_deck == before.enemy_resource_deck
}

/// The state after a play given its outcome: either the fight goes on with
/// the new balances, or it is over: the outcome is recorded and scouting follows.
pub open spec fn after_play(s: GameState, t: GameState, c: CombatEncounterState, p: Balances, e: Balances, outcome: EncounterOutcome) -> bool {
    if outcome == EncounterOutcome::Undecided {
        &&& combat_of(t.current_encounter) matches Some(c2) && combat_continues(c, c2, e)
        &&& bal(t.token_balances) == p
        &&& t.encounter_phase == s.encounter_phase
        &&& t.encounter_results@ == s.encounter_results@
        &&& t.last_encounter_result == s.last_encounter_result
        &&& t.last_death_occurred == s.last_death_occurred
    } else {
        &&& t.current_encounter is None
        &&& t.encounter_phase == EncounterPhase::Scouting
        &&& t.last_encounter_result == Some(outcome)
        &&& t.encounter_results@ == s.encounter_results@.push(outcome)
        &&& bal(t.token_balances) == settle_balances(p, outcome, s)
        &&& t.last_death_occurred == (s.last_death_occurred || health_of(
            if outcome == EncounterOutcome::PlayerWon {
                bset(p, persistent_key(TokenType::MilestoneInsight), (get0(p.0, persistent_key(TokenType::MilestoneInsight)) + 100) as i64)
            } else {
                p
            },
        ) <= 0)
    }
}

impl GameState {
    /// Check if all combat hand cards (attack, defence, resource) are unpayable.
    /// A card is unpayable if it has effects and each has costs the player cannot afford.
    pub fn all_combat_hand_cards_unpayable(&self) -> (r: bool)
        requires
            totals_fit(bal(self.token_balances)),
        ensures
            r == all_unpayable(self.library.cards@, bal(self.token_balances)),
    {
        proof {
            crate::library::costs::lemma_bal_facts(self.token_balances);
        }
        let cards = &self.library.cards;
        let mut any = false;
        let mut i: usize = 0;
        while i < cards.len()
            invariant
                i <= cards.len(),
                cards@ == self.library.cards@,
                totals_fit(bal(self.token_balances)),
                crate::library::costs::balances_fit(self.token_balances),
                any == exists|j: int| 0 <= j < i && is_combat_hand_card(#[trigger] cards@[j]),
                forall|j: int| 0 <= j < i && is_combat_hand_card(#[trigger] cards@[j]) ==> card_unpayable(cards@[j], bal(self.token_balances)),
            decreases cards.len() - i,
        {
            let card = &cards[i];
            if card.counts.hand > 0 {
                let effects = match &card.kind {
                    CardKind::Attack { effects } => Some(effects),
                    CardKind::Defence { effects } => Some(effects),
                    CardKind::Resource { effects } => Some(effects),
                    _ => None,
                };
                match effects {
                    Some(effects) => {
                        any = true;
                        if effects.len() == 0 {
                            return false;
                        }
                        let mut k: usize = 0;
                        while k < effects.len()
                            invariant
                                k <= effects.len(),
                                i < cards.len(),
                                *card == cards@[i as int],
                                card.counts.hand > 0,
                                cards@ == self.library.cards@,
                                action_effects(card.kind) == Some(effects@),
                                crate::library::costs::balances_fit(self.token_balances),
                                forall|j: int| 0 <= j < k ==> (#[trigger] effects@[j]).rolled_costs@.len() > 0
                                    && !all_affordable(effect_player_costs(effects@[j]), bal(self.token_balances)),
                            decreases effects.len() - k,
                        {
                            if effects[k].rolled_costs.len() == 0 {
                                proof {
                                    assert(!card_unpayable(*card, bal(self.token_balances)));
                                    assert(is_combat_hand_card(cards@[i as int]));
                                }
                                return false;
                            }
                            if preview_effect_costs(&effects[k], &self.token_balances) {
                                proof {
                                    assert(!card_unpayable(*card, bal(self.token_balances)));
                                    assert(is_combat_hand_card(cards@[i as int]));
                                }
                                return false;
                            }
                            k += 1;
                        }
                    },
                    None => {},
                }
            }
            i += 1;
        }
        any
    }
}


impl GameState {
    /// Resolve a player card play against the current combat encounter.
    ///
    /// Each effect of the card is evaluated on its own: one whose costs the
    /// player cannot pay is skipped, the others are paid and applied, and the
    /// draws of draw effects add up. The fight then ends when a side is out of
    /// health, or is lost when no card left in hand can be paid for; a won
    /// fight grants 100 milestone insight. A finished fight is recorded,
    /// scouting follows and a death is checked for. Last, the drawn cards
    /// come into the hand.
    pub fn resolve_player_card(&mut self, card_id: usize, rng: &mut Lcg64Xsh32) -> (r: Result<(), CombatError>)
        requires
            player_card_error(*old(self), card_id) is None ==> {
                let s = *old(self);
                &&& player_play(s, card_id) matches Some((p, e, a, d, rr)) && {
                    let o = outcome_after(combat_of(s.current_encounter)->Some_0.outcome, p, e, s.library.cards@);
                    let fin = if o == EncounterOutcome::Undecided { p } else { settle_balances(p, o, s) };
                    &&& totals_fit(p)
                    &&& o != EncounterOutcome::Undecided ==> settle_fits(p, o)
                    &&& i64::MIN <= fin.1[TokenType::AttackMaxHand] <= i64::MAX
                    &&& i64::MIN <= fin.1[TokenType::DefenceMaxHand] <= i64::MAX
                    &&& i64::MIN <= fin.1[TokenType::ResourceMaxHand] <= i64::MAX
                    &&& a <= u32::MAX && d <= u32::MAX && rr <= u32::MAX
                    &&& class_hand(s.library.cards@, CardClass::Attack) + a <= u32::MAX
                    &&& class_hand(s.library.cards@, CardClass::Defence) + d <= u32::MAX
                    &&& class_hand(s.library.cards@, CardClass::Resource) + rr <= u32::MAX
                }
                &&& counts_fit(s.library.cards@)
            },
            combat_of(old(self).current_encounter) is Some && card_id < old(self).library.cards@.len()
                && action_effects(old(self).library.cards@[card_id as int].kind) is Some ==> totals_fit(bal(old(self).token_balances)),
        ensures
            match player_card_error(*old(self), card_id) {
                Some(err) => r == Err::<(), CombatError>(err) && *final(self) == *old(self),
                None => r is Ok && {
                    let s = *old(self);
                    let (p, e, a, d, rr) = player_play(s, card_id)->Some_0;
                    let c = combat_of(s.current_encounter)->Some_0;
                    let o = outcome_after(c.outcome, p, e, s.library.cards@);
                    &&& after_play(s, *final(self), c, p, e, o)
                    &&& draws_by_type(s.library.cards@, final(self).library.cards@, a, d, rr)
                    &&& final(self).game_rules == s.game_rules
                },
            },
    {
        proof {
            crate::library::costs::lemma_bal_facts(self.token_balances);
        }
        let enc = self.current_encounter.take();
        let mut combat = match enc {
            Some(EncounterState::Combat(c)) => c,
            other => {
                self.current_encounter = other;
                return Err(CombatError::NoActiveCombat);
            },
        };
        if card_id >= self.library.cards.len() {
            self.current_encounter = Some(EncounterState::Combat(combat));
            return Err(CombatError::CardNotFound { card_id });
        }
        let effects = match &self.library.cards[card_id].kind {
            CardKind::Attack { effects } => effects,
            CardKind::Defence { effects } => effects,
            CardKind::Resource { effects } => effects,
            _ => {
                self.current_encounter = Some(EncounterState::Combat(combat));
                return Err(CombatError::NotAnActionCard { card_id });
            },
        };
        let ghost s0 = *old(self);
        let ghost c0 = combat;
        assert(action_effects(s0.library.cards@[card_id as int].kind) == Some(effects@));
        // Pre-check: if no effect on the card can be paid, reject the play.
        let mut any_payable_found = false;
        let mut j: usize = 0;
        while j < effects.len()
            invariant
                j <= effects.len(),
                self.token_balances == s0.token_balances,
                totals_fit(bal(s0.token_balances)),
                crate::library::costs::balances_fit(s0.token_balances),
                any_payable_found == exists|m: int| 0 <= m < j && #[trigger] effect_payable(effects@[m], bal(s0.token_balances)),
            decreases effects.len() - j,
        {
            if effects[j].rolled_costs.len() == 0 || preview_effect_costs(&effects[j], &self.token_balances) {
                any_payable_found = true;
                proof {
                    assert(effect_payable(effects@[j as int], bal(s0.token_balances)));
                }
            }
            j += 1;
        }
        if !any_payable_found && effects.len() > 0 {
            self.current_encounter = Some(EncounterState::Combat(combat));
            return Err(CombatError::NoPayableEffect { card_id });
        }
        assert(player_card_error(s0, card_id) is None);
        let ghost total = player_play(s0, card_id);
        let mut atk: u32 = 0;
        let mut def: u32 = 0;
        let mut res: u32 = 0;
        let mut i: usize = 0;
        assert(effects@.subrange(0, effects@.len() as int) =~= effects@);
        while i < effects.len()
            invariant
                i <= effects.len(),
                total is Some,
                total->Some_0.2 <= u32::MAX && total->Some_0.3 <= u32::MAX && total->Some_0.4 <= u32::MAX,
                total == acc_play(bal(self.token_balances), bal(combat.enemy_tokens), effects@.subrange(i as int, effects@.len() as int), self.library, atk as int, def as int, res as int),
                self.library == s0.library,
                combat.round == c0.round,
                combat.phase == c0.phase,
                combat.encounter_card_id == c0.encounter_card_id,
                combat.outcome == c0.outcome,
                combat.enemy_attack_deck == c0.enemy_attack_deck,
                combat.enemy_defence_deck == c0.enemy_defence_deck,
                combat.enemy_resource_deck == c0.enemy_resource_deck,
                self.current_encounter is None,
                self.encounter_phase == s0.encounter_phase,
                self.encounter_results@ == s0.encounter_results@,
                self.last_encounter_result == s0.last_encounter_result,
                self.last_death_occurred == s0.last_death_occurred,
                self.game_rules == s0.game_rules,
            decreases effects.len() - i,
        {
            let ghost rest = effects@.subrange(i as int, effects@.len() as int);
            proof {
                assert(rest[0] == effects@[i as int]);
                assert(rest.drop_first() =~= effects@.subrange(i + 1, effects@.len() as int));
                crate::library::costs::lemma_bal_facts(self.token_balances);
            }
            let effect = &effects[i];
            let ghost p_before = bal(self.token_balances);
            let paid = pay_effect_costs(effect, &mut self.token_balances);
            if paid {
                let (da, dd, dr) = match self.library.effect_kind(effect.effect_id) {
                    Some(CardEffectKind::DrawCards { attack, defence, resource }) => (*attack, *defence, *resource),
                    _ => (0u32, 0u32, 0u32),
                };
                proof {
                    let k = template_of(self.library, effect.effect_id);
                    let p2e2 = apply_one(deduct_b(p_before, effect_player_costs(*effect)), bal(combat.enemy_tokens), effect@, k, true)->Some_0;
                    lemma_play_draws_nonneg(p2e2.0, p2e2.1, rest.drop_first(), self.library);
                    assert(draw_counts(k) == (da as int, dd as int, dr as int));
                }
                atk = atk + da;
                def = def + dd;
                res = res + dr;
                apply_one_effect(effect, true, &mut self.token_balances, &mut combat.enemy_tokens, &self.library);
            }
            i += 1;
        }
        proof {
            assert(effects@.subrange(effects@.len() as int, effects@.len() as int) =~= Seq::<ConcreteEffect>::empty());
            crate::library::costs::lemma_bal_facts(self.token_balances);
            crate::library::costs::lemma_bal_facts(combat.enemy_tokens);
            assert(bal(self.token_balances) == total->Some_0.0);
            assert(bal(combat.enemy_tokens) == total->Some_0.1);
        }
        check_combat_end(&self.token_balances, &mut combat);
        if combat.outcome == EncounterOutcome::Undecided {
            if self.all_combat_hand_cards_unpayable() {
                combat.outcome = EncounterOutcome::PlayerLost;
            }
        }
        let outcome = combat.outcome;
        assert(outcome == outcome_after(c0.outcome, total->Some_0.0, total->Some_0.1, s0.library.cards@));
        if outcome != EncounterOutcome::Undecided {
            if outcome == EncounterOutcome::PlayerWon {
                let v = self.token_balances.value(&Token::persistent(TokenType::MilestoneInsight));
                self.token_balances.insert(Token::persistent(TokenType::MilestoneInsight), v + 100);
            }
            self.last_encounter_result = Some(outcome);
            self.encounter_results.push(outcome);
            self.current_encounter = None;
            self.encounter_phase = EncounterPhase::Scouting;
            proof {
                crate::library::costs::lemma_bal_facts(self.token_balances);
            }
            self.check_player_death();
        } else {
            self.current_encounter = Some(EncounterState::Combat(combat));
        }
        proof {
            crate::library::costs::lemma_bal_facts(self.token_balances);
        }
        self.draw_player_cards_by_type(atk, def, res, rng);
        Ok(())
    }
}


/// No token recorded.
pub open spec fn empty_bal() -> Balances {
    (Map::empty(), Map::new(|tt: TokenType| true, |tt: TokenType| 0int))
}

/// The balances holding the listed tokens, later entries replacing earlier ones.
pub open spec fn tokens_bal(init: Seq<(Token, u64)>) -> Balances
    decreases init.len(),
{
    if init.len() == 0 {
        empty_bal()
    } else {
        bset(tokens_bal(init.drop_last()), init.last().0@, init.last().1 as i64)
    }
}

/// An enemy deck made from its definition: the same cards in the same
/// order, each with its copies, and the same totals in deck, hand and discard.
pub open spec fn deck_from_def(d: Seq<EnemyCardDef>, def: Seq<EnemyCardDef>) -> bool {
    &&& d.len() == def.len()
    &&& forall|i: int| 0 <= i < d.len() ==> effects_view((#[trigger] d[i]).effects@) == effects_view(def[i].effects@)
        && copies(d[i].counts) == copies(def[i].counts)
    &&& sum_deck(d) == sum_deck(def)
    &&& sum_hand(d) == sum_hand(def)
    &&& sum_discard(d) == sum_discard(def)
}

pub proof fn lemma_sums_same_counts(a: Seq<EnemyCardDef>, b: Seq<EnemyCardDef>)
    requires
        a.len() == b.len(),
        forall|i: int| 0 <= i < a.len() ==> (#[trigger] a[i]).counts == b[i].counts,
    ensures
        sum_deck(a) == sum_deck(b),
        sum_hand(a) == sum_hand(b),
        sum_discard(a) == sum_discard(b),
    decreases a.len(),
{
    if a.len() > 0 {
        lemma_sums_same_counts(a.drop_last(), b.drop_last());
        assert(a[a.len() - 1].counts == b[b.len() - 1].counts);
    }
}

fn enemy_tokens_from(init: &Vec<(Token, u64)>) -> (r: TokenMap)
    ensures
        bal(r) == tokens_bal(init@),
{
    let mut m = TokenMap::new();
    proof {
        assert(bal(m).0 =~= empty_bal().0);
        assert(bal(m).1 =~= empty_bal().1);
    }
    let mut i: usize = 0;
    while i < init.len()
        invariant
            i <= init.len(),
            bal(m) == tokens_bal(init@.subrange(0, i as int)),
        decreases init.len() - i,
    {
        proof {
            assert(init@.subrange(0, i + 1).drop_last() =~= init@.subrange(0, i as int));
        }
        let t = init[i].0.duplicate();
        let v = #[verifier::truncate] (init[i].1 as i64);
        m.insert(t, v);
        i += 1;
    }
    assert(init@.subrange(0, init@.len() as int) =~= init@);
    m
}

fn deck_for_combat(rng: &mut Lcg64Xsh32, def: &Vec<EnemyCardDef>) -> (r: Vec<EnemyCardDef>)
    requires
        total_fits(def@),
    ensures
        deck_from_def(r@, def@),
        total_fits(r@),
{
    let mut d = duplicate_enemy_deck(def);
    let ghost dup = d@;
    proof {
        lemma_sums_same_counts(dup, def@);
    }
    deck_shuffle_hand(rng, &mut d);
    proof {
        assert forall|i: int| 0 <= i < d@.len() implies effects_view((#[trigger] d@[i]).effects@) == effects_view(def@[i].effects@)
            && copies(d@[i].counts) == copies(def@[i].counts) by {
            assert(d@[i] == dup[i].with_counts(d@[i].spec_counts()));
            assert(copies(d@[i].spec_counts()) == copies(dup[i].spec_counts()));
        }
    }
    d
}

/// Every enemy deck of a definition keeps its copies below `u32::MAX`.
pub open spec fn enemy_decks_fit(c: CombatEncounterState) -> bool {
    total_fits(c.enemy_attack_deck@) && total_fits(c.enemy_defence_deck@) && total_fits(c.enemy_resource_deck@)
}

impl GameState {
    /// Initialize combat from a Library Encounter card: the enemy starts with
    /// its listed tokens, its three decks are dealt from the definition, and
    /// the fight opens in the Defending phase of round 1.
    pub fn start_combat(&mut self, encounter_card_id: usize, rng: &mut Lcg64Xsh32) -> (r: Result<(), CombatError>)
        requires
            encounter_card_id < old(self).library.cards@.len() ==> match old(self).library.cards@[encounter_card_id as int].kind {
                CardKind::Encounter { encounter_kind: EncounterKind::Combat { combatant_def } } =>
                    total_fits(combatant_def.attack_deck@) && total_fits(combatant_def.defence_deck@) && total_fits(combatant_def.resource_deck@),
                _ => true,
            },
        ensures
            encounter_card_id >= old(self).library.cards@.len() ==> r == Err::<(), CombatError>(CombatError::CardNotFound { card_id: encounter_card_id })
                && *final(self) == *old(self),
            encounter_card_id < old(self).library.cards@.len() ==> match old(self).library.cards@[encounter_card_id as int].kind {
                CardKind::Encounter { encounter_kind: EncounterKind::Combat { combatant_def } } => {
                    &&& r is Ok
                    &&& combat_of(final(self).current_encounter) matches Some(c) && {
                        &&& c.round == 1
                        &&& c.phase == CombatPhase::Defending
                        &&& c.encounter_card_id == encounter_card_id
                        &&& c.outcome == EncounterOutcome::Undecided
                        &&& bal(c.enemy_tokens) == tokens_bal(combatant_def.initial_tokens@)
                        &&& deck_from_def(c.enemy_attack_deck@, combatant_def.attack_deck@)
                        &&& deck_from_def(c.enemy_defence_deck@, combatant_def.defence_deck@)
                        &&& deck_from_def(c.enemy_resource_deck@, combatant_def.resource_deck@)
                        &&& enemy_decks_fit(c)
                    }
                    &&& final(self).encounter_phase == EncounterPhase::InEncounter
                    &&& final(self).token_balances == old(self).token_balances
                    &&& final(self).library == old(self).library
                    &&& final(self).encounter_results@ == old(self).encounter_results@
                    &&& final(self).last_encounter_result == old(self).last_encounter_result
                },
                _ => r == Err::<(), CombatError>(CombatError::NotACombatEncounter { card_id: encounter_card_id }) && *final(self) == *old(self),
            },
    {
        if encounter_card_id >= self.library.cards.len() {
            return Err(CombatError::CardNotFound { card_id: encounter_card_id });
        }
        let def = match &self.library.cards[encounter_card_id].kind {
            CardKind::Encounter { encounter_kind: EncounterKind::Combat { combatant_def } } => combatant_def,
            _ => {
                return Err(CombatError::NotACombatEncounter { card_id: encounter_card_id });
            },
        };
        let enemy_attack_deck = deck_for_combat(rng, &def.attack_deck);
        let enemy_defence_deck = deck_for_combat(rng, &def.defence_deck);
        let enemy_resource_deck = deck_for_combat(rng, &def.resource_deck);
        let enemy_tokens = enemy_tokens_from(&def.initial_tokens);
        let snapshot = CombatEncounterState {
            round: 1,
            phase: CombatPhase::Defending,
            enemy_tokens,
            encounter_card_id,
            outcome: EncounterOutcome::Undecided,
            enemy_attack_deck,
            enemy_defence_deck,
            enemy_resource_deck,
        };
        self.current_encounter = Some(EncounterState::Combat(snapshot));
        self.encounter_phase = EncounterPhase::InEncounter;
        Ok(())
    }

    /// Advance combat phase to next (Defending → Attacking → Resourcing → Defending).
    pub fn advance_combat_phase(&mut self) -> (r: Result<(), CombatError>)
        ensures
            combat_of(old(self).current_encounter) is None ==> r == Err::<(), CombatError>(CombatError::NoActiveCombat) && *final(self) == *old(self),
            combat_of(old(self).current_encounter) matches Some(c) ==> r is Ok && (combat_of(final(self).current_encounter) matches Some(c2) && {
                &&& c2.phase == c.phase.spec_next()
                &&& c2.round == c.round
                &&& c2.encounter_card_id == c.encounter_card_id
                &&& c2.outcome == c.outcome
                &&& c2.enemy_tokens == c.enemy_tokens
                &&& c2.enemy_attack_deck == c.enemy_attack_deck
                &&& c2.enemy_defence_deck == c.enemy_defence_deck
                &&& c2.enemy_resource_deck == c.enemy_resource_deck
            }),
            final(self).token_balances == old(self).token_balances,
            final(self).library == old(self).library,
            final(self).encounter_phase == old(self).encounter_phase,
            final(self).encounter_results == old(self).encounter_results,
            final(self).last_encounter_result == old(self).last_encounter_result,
            final(self).last_death_occurred == old(self).last_death_occurred,
            final(self).game_rules == old(self).game_rules,
    {
        let enc = self.current_encounter.take();
        match enc {
            Some(EncounterState::Combat(mut c)) => {
                c.phase = c.phase.next();
                self.current_encounter = Some(EncounterState::Combat(c));
                Ok(())
            },
            other => {
                self.current_encounter = other;
                Err(CombatError::NoActiveCombat)
            },
        }
    }
}


/// The enemy deck that plays in the current phase.
pub open spec fn phase_deck(c: CombatEncounterState) -> Seq<EnemyCardDef> {
    match c.phase {
        CombatPhase::Attacking => c.enemy_attack_deck@,
        CombatPhase::Defending => c.enemy_defence_deck@,
        CombatPhase::Resourcing => c.enemy_resource_deck@,
    }
}

/// The cards drawn by all draw effects of a list, per enemy deck.
pub open spec fn enemy_draws(effects: Seq<ConcreteEffect>, lib: Library) -> (int, int, int)
    decreases effects.len(),
{
    if effects.len() == 0 {
        (0, 0, 0)
    } else {
        let prev = enemy_draws(effects.drop_last(), lib);
        let k = draw_counts(template_of(lib, effects.last().effect_id));
        (prev.0 + k.0, prev.1 + k.1, prev.2 + k.2)
    }
}

pub proof fn lemma_enemy_draws_prefix(effects: Seq<ConcreteEffect>, lib: Library, i: int)
    requires
        0 <= i <= effects.len(),
    ensures
        0 <= enemy_draws(effects.subrange(0, i), lib).0 <= enemy_draws(effects, lib).0,
        0 <= enemy_draws(effects.subrange(0, i), lib).1 <= enemy_draws(effects, lib).1,
        0 <= enemy_draws(effects.subrange(0, i), lib).2 <= enemy_draws(effects, lib).2,
    decreases effects.len() - i,
{
    if i < effects.len() {
        lemma_enemy_draws_prefix(effects, lib, i + 1);
        assert(effects.subrange(0, i + 1).drop_last() =~= effects.subrange(0, i));
        lemma_enemy_draws_nonneg(effects.subrange(0, i), lib);
    } else {
        assert(effects.subrange(0, i) =~= effects);
        lemma_enemy_draws_nonneg(effects, lib);
    }
}

pub proof fn lemma_enemy_draws_nonneg(effects: Seq<ConcreteEffect>, lib: Library)
    ensures
        enemy_draws(effects, lib).0 >= 0 && enemy_draws(effects, lib).1 >= 0 && enemy_draws(effects, lib).2 >= 0,
    decreases effects.len(),
{
    if effects.len() > 0 {
        lemma_enemy_draws_nonneg(effects.drop_last(), lib);
    }
}

fn enemy_draw_counts(effects: &Vec<ConcreteEffect>, library: &Library) -> (r: (u32, u32, u32))
    requires
        enemy_draws(effects@, *library).0 <= u32::MAX,
        enemy_draws(effects@, *library).1 <= u32::MAX,
        enemy_draws(effects@, *library).2 <= u32::MAX,
    ensures
        r.0 == enemy_draws(effects@, *library).0,
        r.1 == enemy_draws(effects@, *library).1,
        r.2 == enemy_draws(effects@, *library).2,
{
    let mut a: u32 = 0;
    let mut d: u32 = 0;
    let mut r: u32 = 0;
    let mut i: usize = 0;
    while i < effects.len()
        invariant
            i <= effects.len(),
            enemy_draws(effects@, *library).0 <= u32::MAX,
            enemy_draws(effects@, *library).1 <= u32::MAX,
            enemy_draws(effects@, *library).2 <= u32::MAX,
            (a as int, d as int, r as int) == enemy_draws(effects@.subrange(0, i as int), *library),
        decreases effects.len() - i,
    {
        proof {
            assert(effects@.subrange(0, i + 1).drop_last() =~= effects@.subrange(0, i as int));
            lemma_enemy_draws_prefix(effects@, *library, i + 1);
        }
        match library.effect_kind(effects[i].effect_id) {
            Some(CardEffectKind::DrawCards { attack, defence, resource }) => {
                a = a + *attack;
                d = d + *defence;
                r = r + *resource;
            },
            _ => {},
        }
        i += 1;
    }
    assert(effects@.subrange(0, effects@.len() as int) =~= effects@);
    (a, d, r)
}

/// Draw `count` cards into an enemy hand, one at a time, the discard going
/// back into the deck when the deck is empty.
fn enemy_draw_n(rng: &mut Lcg64Xsh32, deck: &mut Vec<EnemyCardDef>, count: u32)
    requires
        total_fits(old(deck)@),
    ensures
        same_cards(final(deck)@, old(deck)@),
        total_fits(final(deck)@),
        sum_deck(final(deck)@) + sum_hand(final(deck)@) + sum_discard(final(deck)@) == sum_deck(old(deck)@) + sum_hand(old(deck)@) + sum_discard(old(deck)@),
        sum_hand(old(deck)@) <= sum_hand(final(deck)@) <= sum_hand(old(deck)@) + count,
        sum_hand(final(deck)@) == sum_hand(old(deck)@) + (if count <= sum_deck(old(deck)@) + sum_discard(old(deck)@) {
            count as int
        } else {
            sum_deck(old(deck)@) + sum_discard(old(deck)@)
        }),
{
    let ghost d0 = deck@;
    let ghost a0 = sum_deck(d0) + sum_discard(d0);
    proof {
        lemma_same_cards_refl(d0);
        lemma_sums_nonneg(d0);
    }
    let mut n: u32 = 0;
    while n < count
        invariant
            n <= count,
            same_cards(deck@, d0),
            total_fits(deck@),
            sum_deck(deck@) + sum_hand(deck@) + sum_discard(deck@) == sum_deck(d0) + sum_hand(d0) + sum_discard(d0),
            sum_hand(d0) <= sum_hand(deck@) <= sum_hand(d0) + n,
            a0 == sum_deck(d0) + sum_discard(d0),
            a0 >= 0,
            sum_hand(deck@) == sum_hand(d0) + (if (n as int) <= a0 { n as int } else { a0 }),
        decreases count - n,
    {
        let ghost before = deck@;
        proof {
            lemma_total_fits_draw(deck@);
        }
        proof {
            lemma_sums_nonneg(before);
        }
        deck_draw_random(rng, deck);
        proof {
            lemma_same_cards_trans(deck@, before, d0);
            lemma_sums_nonneg(deck@);
        }
        n += 1;
    }
}

/// The state after the enemy played card `idx` of its phase deck.
pub open spec fn enemy_played(s: GameState, t: GameState, idx: int) -> bool {
    let c = combat_of(s.current_encounter)->Some_0;
    let d = phase_deck(c);
    let pe = apply_effects(bal(s.token_balances), bal(c.enemy_tokens), d[idx].effects@, s.library, false)->Some_0;
    let o = combat_end_outcome(health_of(pe.0), health_of(pe.1), c.outcome);
    &&& 0 <= idx < d.len()
    &&& if o == EncounterOutcome::Undecided {
        &&& combat_of(t.current_encounter) matches Some(c2) && {
            &&& c2.round == c.round
            &&& c2.phase == c.phase
            &&& c2.encounter_card_id == c.encounter_card_id
            &&& c2.outcome == EncounterOutcome::Undecided
            &&& bal(c2.enemy_tokens) == pe.1
            &&& same_cards(c2.enemy_attack_deck@, c.enemy_attack_deck@)
            &&& same_cards(c2.enemy_defence_deck@, c.enemy_defence_deck@)
            &&& same_cards(c2.enemy_resource_deck@, c.enemy_resource_deck@)
            &&& enemy_decks_fit(c2)
        }
        &&& bal(t.token_balances) == pe.0
        &&& t.encounter_phase == s.encounter_phase
        &&& t.encounter_results@ == s.encounter_results@
        &&& t.last_encounter_result == s.last_encounter_result
    } else {
        after_play(s, t, c, pe.0, pe.1, o)
    }
}

/// What an enemy play needs to stay in range, whichever card of the phase
/// deck is played, from the player's balances `p`, the enemy's `e`.
pub open spec fn enemy_fits_b(p: Balances, e: Balances, c: CombatEncounterState, lib: Library) -> bool {
    let d = phase_deck(c);
    &&& enemy_decks_fit(c)
    &&& forall|i: int| 0 <= i < d.len() ==> {
        let effs = (#[trigger] d[i]).effects@;
        &&& apply_effects(p, e, effs, lib, false) matches Some(pe) && {
            let o = combat_end_outcome(health_of(pe.0), health_of(pe.1), c.outcome);
            o != EncounterOutcome::Undecided ==> settle_fits(pe.0, o)
        }
        &&& enemy_draws(effs, lib).0 <= u32::MAX
        &&& enemy_draws(effs, lib).1 <= u32::MAX
        &&& enemy_draws(effs, lib).2 <= u32::MAX
    }
}

/// What an enemy play needs to stay in range, whichever card of the phase deck is played.
pub open spec fn enemy_play_fits(s: GameState) -> bool {
    let c = combat_of(s.current_encounter)->Some_0;
    enemy_fits_b(bal(s.token_balances), bal(c.enemy_tokens), c, s.library)
}

/// Two libraries with the same effect templates.
pub open spec fn same_templates(a: Library, b: Library) -> bool {
    forall|id: usize| #[trigger] template_of(a, id) == template_of(b, id)
}

pub proof fn lemma_same_templates(a: Library, b: Library)
    requires
        crate::library::game_state::only_counts_moved(a.cards@, b.cards@),
    ensures
        same_templates(a, b),
{
    assert forall|id: usize| #[trigger] template_of(a, id) == template_of(b, id) by {
        if id < a.cards@.len() {
            assert(b.cards@[id as int] == crate::library::with_card_counts(a.cards@[id as int], b.cards@[id as int].counts));
        }
    }
}

pub proof fn lemma_apply_effects_cong(p: Balances, e: Balances, effs: Seq<ConcreteEffect>, a: Library, b: Library, is_player: bool)
    requires
        same_templates(a, b),
    ensures
        apply_effects(p, e, effs, a, is_player) == apply_effects(p, e, effs, b, is_player),
    decreases effs.len(),
{
    if effs.len() > 0 {
        assert(template_of(a, effs[0].effect_id) == template_of(b, effs[0].effect_id));
        match apply_one(p, e, effs[0]@, template_of(a, effs[0].effect_id), is_player) {
            Some((p1, e1)) => lemma_apply_effects_cong(p1, e1, effs.drop_first(), a, b, is_player),
            None => {},
        }
    }
}

pub proof fn lemma_play_effects_cong(p: Balances, e: Balances, effs: Seq<ConcreteEffect>, a: Library, b: Library)
    requires
        same_templates(a, b),
    ensures
        play_effects(p, e, effs, a) == play_effects(p, e, effs, b),
    decreases effs.len(),
{
    if effs.len() > 0 {
        let eff = effs[0];
        let costs = effect_player_costs(eff);
        assert(template_of(a, eff.effect_id) == template_of(b, eff.effect_id));
        lemma_play_effects_cong(p, e, effs.drop_first(), a, b);
        if totals_fit(p) && all_affordable(costs, p) && deduct_fits_b(costs, p) {
            match apply_one(deduct_b(p, costs), e, eff@, template_of(a, eff.effect_id), true) {
                Some((p2, e2)) => lemma_play_effects_cong(p2, e2, effs.drop_first(), a, b),
                None => {},
            }
        }
    }
}

pub proof fn lemma_enemy_draws_cong(effs: Seq<ConcreteEffect>, a: Library, b: Library)
    requires
        same_templates(a, b),
    ensures
        enemy_draws(effs, a) == enemy_draws(effs, b),
    decreases effs.len(),
{
    if effs.len() > 0 {
        lemma_enemy_draws_cong(effs.drop_last(), a, b);
        assert(template_of(a, effs.last().effect_id) == template_of(b, effs.last().effect_id));
    }
}

pub proof fn lemma_enemy_fits_cong(p: Balances, e: Balances, c: CombatEncounterState, c2: CombatEncounterState, a: Library, b: Library)
    requires
        same_templates(a, b),
        enemy_fits_b(p, e, c, a),
        c2.phase == c.phase,
        c2.outcome == c.outcome,
        c2.enemy_attack_deck == c.enemy_attack_deck,
        c2.enemy_defence_deck == c.enemy_defence_deck,
        c2.enemy_resource_deck == c.enemy_resource_deck,
    ensures
        enemy_fits_b(p, e, c2, b),
{
    let d = phase_deck(c);
    assert(phase_deck(c2) == d);
    assert forall|i: int| 0 <= i < d.len() implies {
        let effs = (#[trigger] d[i]).effects@;
        &&& apply_effects(p, e, effs, b, false) matches Some(pe) && {
            let o = combat_end_outcome(health_of(pe.0), health_of(pe.1), c2.outcome);
            o != EncounterOutcome::Undecided ==> settle_fits(pe.0, o)
        }
        &&& enemy_draws(effs, b).0 <= u32::MAX
        &&& enemy_draws(effs, b).1 <= u32::MAX
        &&& enemy_draws(effs, b).2 <= u32::MAX
    } by {
        lemma_apply_effects_cong(p, e, d[i].effects@, a, b, false);
        lemma_enemy_draws_cong(d[i].effects@, a, b);
    }
}

impl GameState {
    /// Resolve an enemy card play from hand in the current combat phase.
    /// A random card of the phase deck's hand (the discard taken back first
    /// when the hand is empty) goes to the discard and its effects apply;
    /// unless the fight ends, its draw effects fill each enemy hand.
    pub fn resolve_enemy_play(&mut self, rng: &mut Lcg64Xsh32) -> (r: Result<(), CombatError>)
        requires
            combat_of(old(self).current_encounter) is Some ==> enemy_play_fits(*old(self)),
        ensures
            combat_of(old(self).current_encounter) is None ==> r == Err::<(), CombatError>(CombatError::NoActiveCombat) && *final(self) == *old(self),
            combat_of(old(self).current_encounter) matches Some(c) ==> {
                let d = phase_deck(c);
                &&& r is Ok
                &&& sum_hand(d) + sum_discard(d) == 0 ==> *final(self) == *old(self)
                &&& sum_hand(d) + sum_discard(d) > 0 ==> exists|idx: int| enemy_played(*old(self), *final(self), idx)
                &&& final(self).library == old(self).library
                &&& final(self).game_rules == old(self).game_rules
            },
    {
        proof {
            crate::library::costs::lemma_bal_facts(self.token_balances);
        }
        let enc = self.current_encounter.take();
        let mut combat = match enc {
            Some(EncounterState::Combat(c)) => c,
            other => {
                self.current_encounter = other;
                return Err(CombatError::NoActiveCombat);
            },
        };
        let ghost s0 = *old(self);
        let ghost c0 = combat;
        let phase = combat.phase;
        proof {
            lemma_total_fits_draw(combat.enemy_attack_deck@);
            lemma_total_fits_draw(combat.enemy_defence_deck@);
            lemma_total_fits_draw(combat.enemy_resource_deck@);
            lemma_sums_nonneg(combat.enemy_attack_deck@);
            lemma_sums_nonneg(combat.enemy_defence_deck@);
            lemma_sums_nonneg(combat.enemy_resource_deck@);
            lemma_same_cards_refl(c0.enemy_attack_deck@);
            lemma_same_cards_refl(c0.enemy_defence_deck@);
            lemma_same_cards_refl(c0.enemy_resource_deck@);
        }
        let (in_hand, discarded) = match phase {
            CombatPhase::Attacking => (sum_hand_exec(&combat.enemy_attack_deck), sum_discard_exec(&combat.enemy_attack_deck)),
            CombatPhase::Defending => (sum_hand_exec(&combat.enemy_defence_deck), sum_discard_exec(&combat.enemy_defence_deck)),
            CombatPhase::Resourcing => (sum_hand_exec(&combat.enemy_resource_deck), sum_discard_exec(&combat.enemy_resource_deck)),
        };
        if in_hand == 0 && discarded == 0 {
            self.current_encounter = Some(EncounterState::Combat(combat));
            return Ok(());
        }
        let played = match phase {
            CombatPhase::Attacking => deck_play_random(rng, &mut combat.enemy_attack_deck),
            CombatPhase::Defending => deck_play_random(rng, &mut combat.enemy_defence_deck),
            CombatPhase::Resourcing => deck_play_random(rng, &mut combat.enemy_resource_deck),
        };
        let idx = match played {
            Some(i) => i,
            None => {
                self.current_encounter = Some(EncounterState::Combat(combat));
                return Ok(());
            },
        };
        proof {
            lemma_sums_nonneg(combat.enemy_attack_deck@);
            lemma_sums_nonneg(combat.enemy_defence_deck@);
            lemma_sums_nonneg(combat.enemy_resource_deck@);
            assert(enemy_decks_fit(combat));
            assert(same_cards(combat.enemy_attack_deck@, c0.enemy_attack_deck@));
            assert(same_cards(combat.enemy_defence_deck@, c0.enemy_defence_deck@));
            assert(same_cards(combat.enemy_resource_deck@, c0.enemy_resource_deck@));
        }
        let ghost c1 = combat;
        let ghost effs = phase_deck(c0)[idx as int].effects@;
        let (atk, def, res) = match phase {
            CombatPhase::Attacking => {
                assert(combat.enemy_attack_deck@[idx as int] == c0.enemy_attack_deck@[idx as int].with_counts(combat.enemy_attack_deck@[idx as int].spec_counts()));
                let (a, d, r) = enemy_draw_counts(&combat.enemy_attack_deck[idx].effects, &self.library);
                apply_card_effects(&combat.enemy_attack_deck[idx].effects, false, &mut self.token_balances, &mut combat.enemy_tokens, &self.library);
                (a, d, r)
            },
            CombatPhase::Defending => {
                assert(combat.enemy_defence_deck@[idx as int] == c0.enemy_defence_deck@[idx as int].with_counts(combat.enemy_defence_deck@[idx as int].spec_counts()));
                let (a, d, r) = enemy_draw_counts(&combat.enemy_defence_deck[idx].effects, &self.library);
                apply_card_effects(&combat.enemy_defence_deck[idx].effects, false, &mut self.token_balances, &mut combat.enemy_tokens, &self.library);
                (a, d, r)
            },
            CombatPhase::Resourcing => {
                assert(combat.enemy_resource_deck@[idx as int] == c0.enemy_resource_deck@[idx as int].with_counts(combat.enemy_resource_deck@[idx as int].spec_counts()));
                let (a, d, r) = enemy_draw_counts(&combat.enemy_resource_deck[idx].effects, &self.library);
                apply_card_effects(&combat.enemy_resource_deck[idx].effects, false, &mut self.token_balances, &mut combat.enemy_tokens, &self.library);
                (a, d, r)
            },
        };
        let ghost pe = apply_effects(bal(s0.token_balances), bal(c0.enemy_tokens), effs, s0.library, false)->Some_0;
        proof {
            crate::library::costs::lemma_bal_facts(self.token_balances);
            crate::library::costs::lemma_bal_facts(combat.enemy_tokens);
        }
        check_combat_end(&self.token_balances, &mut combat);
        if combat.outcome == EncounterOutcome::Undecided {
            enemy_draw_n(rng, &mut combat.enemy_attack_deck, atk);
            enemy_draw_n(rng, &mut combat.enemy_defence_deck, def);
            enemy_draw_n(rng, &mut combat.enemy_resource_deck, res);
            proof {
                lemma_same_cards_trans(combat.enemy_attack_deck@, c1.enemy_attack_deck@, c0.enemy_attack_deck@);
                lemma_same_cards_trans(combat.enemy_defence_deck@, c1.enemy_defence_deck@, c0.enemy_defence_deck@);
                lemma_same_cards_trans(combat.enemy_resource_deck@, c1.enemy_resource_deck@, c0.enemy_resource_deck@);
            }
        }
        let outcome = combat.outcome;
        if outcome != EncounterOutcome::Undecided {
            if outcome == EncounterOutcome::PlayerWon {
                let v = self.token_balances.value(&Token::persistent(TokenType::MilestoneInsight));
                self.token_balances.insert(Token::persistent(TokenType::MilestoneInsight), v + 100);
            }
            self.last_encounter_result = Some(outcome);
            self.encounter_results.push(outcome);
            self.current_encounter = None;
            self.encounter_phase = EncounterPhase::Scouting;
            proof {
                crate::library::costs::lemma_bal_facts(self.token_balances);
            }
            self.check_player_death();
        } else {
            self.current_encounter = Some(EncounterState::Combat(combat));
        }
        proof {
            assert(enemy_played(s0, *self, idx as int));
        }
        Ok(())
    }
}


/// A dodge removes a whole attack: any dodge present takes the hit (one dodge
/// is spent) and shield and health stay as they were. Without a dodge, shield
/// absorbs first and health takes only what is left; no balance drops below
/// zero, and together they lose exactly the damage, or all they hold when the
/// damage is larger.
pub proof fn law_damage_absorption(b: Balances, damage: int)
    requires
        damage >= 0,
        get0(b.0, dodge_key()) >= 0,
        get0(b.0, persistent_key(TokenType::Shield)) >= 0,
        get0(b.0, persistent_key(TokenType::Health)) >= 0,
        health_damage(b, damage) is Some,
    ensures
        ({
            let after = health_damage(b, damage)->Some_0;
            let dodge = get0(b.0, dodge_key());
            let shield = get0(b.0, persistent_key(TokenType::Shield));
            let health = get0(b.0, persistent_key(TokenType::Health));
            let dodge2 = get0(after.0, dodge_key());
            let shield2 = get0(after.0, persistent_key(TokenType::Shield));
            let health2 = get0(after.0, persistent_key(TokenType::Health));
            &&& dodge > 0 && damage > 0 ==> dodge2 == dodge - 1 && shield2 == shield && health2 == health
            &&& dodge == 0 ==> {
                &&& dodge2 == 0
                &&& shield2 == max_int(shield - damage, 0)
                &&& health2 == max_int(health - max_int(damage - shield, 0), 0)
                &&& (shield - shield2) + (health - health2) == min_int(damage, shield + health)
            }
        }),
{
    assert(dodge_key() != persistent_key(TokenType::Shield));
    assert(dodge_key() != persistent_key(TokenType::Health));
    assert(persistent_key(TokenType::Shield) != persistent_key(TokenType::Health));
}

/// The combat phases cycle: Defending, Attacking, Resourcing, and back;
/// every phase differs from the next.
pub proof fn law_phase_cycle(p: CombatPhase)
    ensures
        p.spec_next().spec_next().spec_next() == p,
        p.spec_next() != p,
{
}

/// A play that does not end the fight keeps the fight where it was, and a
/// play that ends it leaves no combat behind: scouting follows.
pub proof fn law_fight_ends_in_scouting(s: GameState, t: GameState, c: CombatEncounterState, p: Balances, e: Balances, o: EncounterOutcome)
    requires
        after_play(s, t, c, p, e, o),
    ensures
        o == EncounterOutcome::Undecided ==> combat_of(t.current_encounter) is Some && t.encounter_phase == s.encounter_phase,
        o != EncounterOutcome::Undecided ==> t.current_encounter is None && t.encounter_phase == EncounterPhase::Scouting
            && t.encounter_results@.last() == o,
{
}

/// A gain with a rolled cap grants `cap * gain_percent / 100`, but never more
/// than the room left under the cap: from a balance of `before`, the balance
/// becomes `before + min(cap * gain_percent / 100, max(cap - before, 0))`,
/// and it never ends above the larger of the cap and the balance before; no
/// other token changes.
pub proof fn law_capped_gain_stays_under_cap(b: Balances, tt: TokenType, c: ConcreteEffectView, cap: i64, pct: u32)
    requires
        c.rolled_cap == Some(cap),
        c.rolled_gain_percent == Some(pct),
        0 <= cap,
        gain(b, tt, c) is Some,
    ensures
        ({
            let before = get0(b.0, persistent_key(tt));
            let after = get0(gain(b, tt, c)->Some_0.0, persistent_key(tt));
            let room = if cap - before >= 0 { cap - before } else { 0 };
            let raw = cap * pct / 100;
            &&& after <= (if cap >= before { cap as int } else { before })
            &&& before >= 0 ==> after == before + (if raw <= room { raw } else { room })
            &&& forall|k: TokenKey| k != persistent_key(tt) ==> #[trigger] get0(gain(b, tt, c)->Some_0.0, k) == get0(b.0, k)
        }),
{
    assert(cap * pct >= 0) by (nonlinear_arith)
        requires cap >= 0, pct >= 0;
    assert(cap * pct / 100 >= 0);
}

/// A gain without a rolled cap adds the rolled value to the counter, which
/// never goes below zero; no other token changes.
pub proof fn law_uncapped_gain_adds_the_rolled_value(b: Balances, tt: TokenType, c: ConcreteEffectView)
    requires
        c.rolled_cap is None || c.rolled_gain_percent is None,
        gain(b, tt, c) is Some,
    ensures
        ({
            let before = get0(b.0, persistent_key(tt));
            let after = get0(gain(b, tt, c)->Some_0.0, persistent_key(tt));
            &&& after == (if before + c.rolled_value >= 0 { before + c.rolled_value } else { 0 })
            &&& forall|k: TokenKey| k != persistent_key(tt) ==> #[trigger] get0(gain(b, tt, c)->Some_0.0, k) == get0(b.0, k)
        }),
{
}

/// A gain lands on the side it targets: on the player where the player plays
/// it on itself or the enemy plays it on its opponent, else on the enemy; the
/// other side's balances stay as they were.
pub proof fn law_gain_lands_on_its_target(p: Balances, e: Balances, c: ConcreteEffectView, k: Option<CardEffectKindView>, is_player: bool)
    requires
        k matches Some(CardEffectKindView::GainTokens { .. }),
        apply_one(p, e, c, k, is_player) is Some,
    ensures
        ({
            let target = k->Some_0->GainTokens_target;
            let tt = k->Some_0->GainTokens_token_type;
            let (p1, e1) = apply_one(p, e, c, k, is_player)->Some_0;
            if (target == EffectTarget::OnSelf) == is_player {
                e1 == e && gain(p, tt, c) == Some(p1)
            } else {
                p1 == p && gain(e, tt, c) == Some(e1)
            }
        }),
{
}

} // verus!
