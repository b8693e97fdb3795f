//! Deterministic, pure-data combat resolution: card plays applied to a combat
//! snapshot as token changes, with the seeded generator as the only chance.
use crate::library::disciplines::combat::fits;
use crate::library::token_map::{bal, bset, get0, TokenMap};
use crate::library::types::{
    duplicate_enemy_deck, same_enemy_cards, CombatAction, CombatPhase, EffectTarget, EnemyCardDef, Token, TokenKey,
    TokenLifecycle, TokenType,
};
use crate::rng::next_u64;
use rand_pcg::Lcg64Xsh32;
use std::collections::HashMap;
use vstd::prelude::*;

verus! {

broadcast use vstd::std_specs::hash::group_hash_axioms;

/// What a card effect does.
#[derive(Debug)]
pub enum CardEffectKind {
    /// Change a token of the target by `amount`; a token never drops below zero.
    ChangeTokens { target: EffectTarget, token_type: TokenType, amount: i64 },
    /// Draw cards (no token change).
    DrawCards { amount: u32 },
}

/// A single effect a card applies when played.
#[derive(Debug)]
pub struct CardEffect {
    pub kind: CardEffectKind,
    pub lifecycle: TokenLifecycle,
    pub card_effect_id: Option<usize>,
}

/// Canonical card definition.
#[derive(Debug)]
pub struct CardDef {
    pub id: u64,
    pub card_type: String,
    pub effects: Vec<CardEffect>,
}

/// Outcome of a simulated combat.
#[derive(Clone, Copy, Debug, PartialEq, Eq, Structural)]
pub enum CombatOutcome {
    Undecided,
    PlayerWon,
    EnemyWon,
}

/// Snapshot of combat state for deterministic simulation.
#[derive(Debug)]
pub struct CombatState {
    pub round: u64,
    pub player_turn: bool,
    pub phase: CombatPhase,
    pub enemy_tokens: TokenMap,
    pub encounter_card_id: Option<usize>,
    pub is_finished: bool,
    pub outcome: CombatOutcome,
    pub enemy_attack_deck: Vec<EnemyCardDef>,
    pub enemy_defence_deck: Vec<EnemyCardDef>,
    pub enemy_resource_deck: Vec<EnemyCardDef>,
}

/// Why a combat tick was refused.
#[derive(Clone, Copy, Debug, PartialEq, Eq, Structural)]
pub enum CombatTickError {
    UnknownCard { card_id: u64 },
}

/// What a simulation tracks: the player's and the enemy's balances, whether
/// the fight is over, and its outcome.
pub struct SimView {
    pub player: (Map<TokenKey, i64>, Map<TokenType, int>),
    pub enemy: (Map<TokenKey, i64>, Map<TokenType, int>),
    pub finished: bool,
    pub outcome: CombatOutcome,
}

/// The effect changes the actor's own tokens: its own side when it targets
/// itself, the other side otherwise.
pub open spec fn hits_player(target: EffectTarget, is_player: bool) -> bool {
    (target == EffectTarget::OnSelf) == is_player
}

/// The token an effect changes.
pub open spec fn effect_key(token_type: TokenType, lifecycle: TokenLifecycle) -> TokenKey {
    TokenKey { token_type, lifecycle: lifecycle@ }
}

/// The new amount of a token changed by `amount`: never below zero.
pub open spec fn floored(cur: int, amount: int) -> int {
    if cur + amount < 0 { 0 } else { cur + amount }
}

/// One effect applied: the target's token changes (never below zero), and a
/// health token brought to zero ends the fight, lost by the side it belongs to.
pub open spec fn effect_step(v: SimView, eff: CardEffect, is_player: bool) -> SimView {
    match eff.kind {
        CardEffectKind::DrawCards { .. } => v,
        CardEffectKind::ChangeTokens { target, token_type, amount } => {
            let on_player = hits_player(target, is_player);
            let key = effect_key(token_type, eff.lifecycle);
            let m = if on_player { v.player } else { v.enemy };
            let nv = floored(get0(m.0, key), amount as int);
            let m2 = bset(m, key, nv as i64);
            let ends = token_type == TokenType::Health && nv == 0;
            SimView {
                player: if on_player { m2 } else { v.player },
                enemy: if on_player { v.enemy } else { m2 },
                finished: if ends { true } else { v.finished },
                outcome: if ends {
                    if on_player { CombatOutcome::EnemyWon } else { CombatOutcome::PlayerWon }
                } else {
                    v.outcome
                },
            }
        },
    }
}

/// The effects applied in order.
pub open spec fn effects_applied(v: SimView, effs: Seq<CardEffect>, is_player: bool) -> SimView
    decreases effs.len(),
{
    if effs.len() == 0 {
        v
    } else {
        effect_step(effects_applied(v, effs.drop_last(), is_player), effs.last(), is_player)
    }
}

/// One effect stays within the machine's integers.
pub open spec fn step_fits(v: SimView, eff: CardEffect, is_player: bool) -> bool {
    match eff.kind {
        CardEffectKind::DrawCards { .. } => true,
        CardEffectKind::ChangeTokens { target, token_type, amount } => {
            let m = if hits_player(target, is_player) { v.player } else { v.enemy };
            fits(get0(m.0, effect_key(token_type, eff.lifecycle)) + amount)
        },
    }
}

/// Every effect, applied in order, stays within the machine's integers.
pub open spec fn effects_fit(v: SimView, effs: Seq<CardEffect>, is_player: bool) -> bool
    decreases effs.len(),
{
    if effs.len() == 0 {
        true
    } else {
        effects_fit(v, effs.drop_last(), is_player) && step_fits(effects_applied(v, effs.drop_last(), is_player), effs.last(), is_player)
    }
}

proof fn lemma_fit_prefix(v: SimView, effs: Seq<CardEffect>, is_player: bool, j: int)
    requires
        effects_fit(v, effs, is_player),
        0 <= j < effs.len(),
    ensures
        effects_fit(v, effs.take(j + 1), is_player),
        step_fits(effects_applied(v, effs.take(j), is_player), effs[j], is_player),
    decreases effs.len(),
{
    if j + 1 == effs.len() {
        assert(effs.take(j + 1) =~= effs);
        assert(effs.take(j) =~= effs.drop_last());
    } else {
        assert(effs.drop_last().take(j + 1) =~= effs.take(j + 1));
        assert(effs.drop_last().take(j) =~= effs.take(j));
        lemma_fit_prefix(v, effs.drop_last(), is_player, j);
    }
}

/// The view of a snapshot and the player's tokens.
pub open spec fn sim_view(st: CombatState, player: TokenMap) -> SimView {
    SimView { player: bal(player), enemy: bal(st.enemy_tokens), finished: st.is_finished, outcome: st.outcome }
}

/// Combat state `t` is `s` after one tick of the effects `effs` played by
/// the player (or the enemy): the tokens, end and outcome as the effects
/// leave them, the turn passing while the fight goes on, all else kept.
pub open spec fn ticked(s: CombatState, p: TokenMap, effs: Seq<CardEffect>, is_player: bool, t: CombatState, q: TokenMap) -> bool {
    &&& sim_view(t, q) == effects_applied(sim_view(s, p), effs, is_player)
    &&& t.player_turn == (if t.is_finished { s.player_turn } else { !s.player_turn })
    &&& t.round == s.round
    &&& t.phase == s.phase
    &&& t.encounter_card_id == s.encounter_card_id
    &&& same_enemy_cards(t.enemy_attack_deck@, s.enemy_attack_deck@)
    &&& same_enemy_cards(t.enemy_defence_deck@, s.enemy_defence_deck@)
    &&& same_enemy_cards(t.enemy_resource_deck@, s.enemy_resource_deck@)
}

fn apply_effect(player: &mut TokenMap, enemy: &mut TokenMap, finished: &mut bool, outcome: &mut CombatOutcome, eff: &CardEffect, is_player: bool)
    requires
        step_fits(SimView { player: bal(*old(player)), enemy: bal(*old(enemy)), finished: *old(finished), outcome: *old(outcome) }, *eff, is_player),
    ensures
        (SimView { player: bal(*final(player)), enemy: bal(*final(enemy)), finished: *final(finished), outcome: *final(outcome) })
            == effect_step(SimView { player: bal(*old(player)), enemy: bal(*old(enemy)), finished: *old(finished), outcome: *old(outcome) }, *eff, is_player),
{
    match &eff.kind {
        CardEffectKind::DrawCards { .. } => {},
        CardEffectKind::ChangeTokens { target, token_type, amount } => {
            let on_player = match target {
                EffectTarget::OnSelf => is_player,
                EffectTarget::OnOpponent => !is_player,
            };
            let key = Token { token_type: *token_type, lifecycle: eff.lifecycle.duplicate() };
            let cur = if on_player { player.value(&key) } else { enemy.value(&key) };
            let nv: i64 = if cur + *amount < 0 { 0 } else { cur + *amount };
            if on_player {
                player.insert(key, nv);
            } else {
                enemy.insert(key, nv);
            }
            if *token_type == TokenType::Health && nv == 0 {
                *finished = true;
                *outcome = if on_player { CombatOutcome::EnemyWon } else { CombatOutcome::PlayerWon };
            }
        },
    }
}

/// Resolve a single combat action (card play): look up the card, apply its
/// effects in order as token changes (see `effect_step`), and pass the turn
/// unless the fight ended. One value is drawn from the generator and
/// returned. An unknown card is refused.
pub fn resolve_combat_tick(
    current_state: &CombatState,
    player_tokens: &TokenMap,
    action: &CombatAction,
    card_defs: &HashMap<u64, CardDef>,
    rng: &mut Lcg64Xsh32,
) -> (r: Result<(CombatState, TokenMap, Vec<u64>), CombatTickError>)
    requires
        card_defs@.contains_key(action.card_id)
            ==> effects_fit(sim_view(*current_state, *player_tokens), card_defs@[action.card_id].effects@, action.is_player),
    ensures
        !card_defs@.contains_key(action.card_id) ==> r == Err::<(CombatState, TokenMap, Vec<u64>), CombatTickError>(
            CombatTickError::UnknownCard { card_id: action.card_id }),
        card_defs@.contains_key(action.card_id) ==> (r matches Ok((t, q, vals)) && vals@.len() == 1
            && ticked(*current_state, *player_tokens, card_defs@[action.card_id].effects@, action.is_player, t, q)),
{
    let card = match card_defs.get(&action.card_id) {
        Some(c) => c,
        None => {
            return Err(CombatTickError::UnknownCard { card_id: action.card_id });
        },
    };
    let mut vals: Vec<u64> = Vec::new();
    let v = next_u64(rng);
    vals.push(v);
    let mut player = player_tokens.duplicate();
    let mut enemy = current_state.enemy_tokens.duplicate();
    let mut finished = current_state.is_finished;
    let mut outcome = current_state.outcome;
    let ghost v0 = sim_view(*current_state, *player_tokens);
    let ghost effs = card.effects@;
    proof {
        assert(bal(player).0 =~= bal(*player_tokens).0);
        assert(bal(player).1 =~= bal(*player_tokens).1);
        assert(bal(enemy).0 =~= bal(current_state.enemy_tokens).0);
        assert(bal(enemy).1 =~= bal(current_state.enemy_tokens).1);
        assert(effs.take(0) =~= Seq::<CardEffect>::empty());
    }
    let mut i: usize = 0;
    while i < card.effects.len()
        invariant
            i <= effs.len(),
            effs == card.effects@,
            effects_fit(v0, effs, action.is_player),
            (SimView { player: bal(player), enemy: bal(enemy), finished, outcome }) == effects_applied(v0, effs.take(i as int), action.is_player),
        decreases effs.len() - i,
    {
        proof {
            lemma_fit_prefix(v0, effs, action.is_player, i as int);
            assert(effs.take(i + 1).drop_last() =~= effs.take(i as int));
        }
        apply_effect(&mut player, &mut enemy, &mut finished, &mut outcome, &card.effects[i], action.is_player);
        i += 1;
    }
    proof {
        assert(effs.take(effs.len() as int) =~= effs);
    }
    let st = CombatState {
        round: current_state.round,
        player_turn: if finished { current_state.player_turn } else { !current_state.player_turn },
        phase: current_state.phase,
        enemy_tokens: enemy,
        encounter_card_id: current_state.encounter_card_id,
        is_finished: finished,
        outcome,
        enemy_attack_deck: duplicate_enemy_deck(&current_state.enemy_attack_deck),
        enemy_defence_deck: duplicate_enemy_deck(&current_state.enemy_defence_deck),
        enemy_resource_deck: duplicate_enemy_deck(&current_state.enemy_resource_deck),
    };
    Ok((st, player, vals))
}

proof fn lemma_same_enemy_trans(a: Seq<EnemyCardDef>, b: Seq<EnemyCardDef>, c: Seq<EnemyCardDef>)
    requires
        same_enemy_cards(a, b),
        same_enemy_cards(b, c),
    ensures
        same_enemy_cards(a, c),
{
    assert forall|i: int| 0 <= i < a.len() implies #[trigger] a[i].counts == c[i].counts
        && crate::library::types::effects_view(a[i].effects@) == crate::library::types::effects_view(c[i].effects@) by {
        assert(a[i].counts == b[i].counts);
        assert(b[i].counts == c[i].counts);
    }
}

/// Where a simulation stands: the balances and end (see `SimView`), whose
/// turn it is, and whether it has stopped.
pub struct SimRun {
    pub view: SimView,
    pub player_turn: bool,
    pub stopped: bool,
}

/// One action of a simulation: once stopped nothing changes; an unknown card
/// stops it; else the card's tick is applied (see `ticked`), and the
/// simulation stops when the fight is over.
pub open spec fn run_step(st: SimRun, a: CombatAction, defs: Map<u64, CardDef>) -> SimRun {
    if st.stopped {
        st
    } else if !defs.contains_key(a.card_id) {
        SimRun { stopped: true, ..st }
    } else {
        let v2 = effects_applied(st.view, defs[a.card_id].effects@, a.is_player);
        SimRun {
            view: v2,
            player_turn: if v2.finished { st.player_turn } else { !st.player_turn },
            stopped: v2.finished,
        }
    }
}

/// The actions applied in order.
pub open spec fn run_all(st: SimRun, actions: Seq<CombatAction>, defs: Map<u64, CardDef>) -> SimRun
    decreases actions.len(),
{
    if actions.len() == 0 {
        st
    } else {
        run_step(run_all(st, actions.drop_last(), defs), actions.last(), defs)
    }
}

/// The action applied where the simulation stands stays within the
/// machine's integers.
pub open spec fn run_step_fits(st: SimRun, a: CombatAction, defs: Map<u64, CardDef>) -> bool {
    st.stopped || !defs.contains_key(a.card_id) || effects_fit(st.view, defs[a.card_id].effects@, a.is_player)
}

/// Simulate a combat from a seed and an initial snapshot: the actions are
/// resolved in turn (see `resolve_combat_tick`), with a generator seeded by
/// `seed`, until the fight is over or a card is unknown.
pub fn simulate_combat(
    initial_state: CombatState,
    initial_player_tokens: TokenMap,
    seed: u64,
    actions: Vec<CombatAction>,
    card_defs: &HashMap<u64, CardDef>,
) -> (r: (CombatState, TokenMap))
    requires
        forall|k: int| 0 <= k < actions@.len() ==> #[trigger] run_step_fits(
            run_all(SimRun { view: sim_view(initial_state, initial_player_tokens), player_turn: initial_state.player_turn, stopped: false },
                actions@.take(k), card_defs@),
            actions@[k], card_defs@),
    ensures
        ({
            let end = run_all(SimRun { view: sim_view(initial_state, initial_player_tokens), player_turn: initial_state.player_turn, stopped: false },
                actions@, card_defs@);
            &&& sim_view(r.0, r.1) == end.view
            &&& r.0.player_turn == end.player_turn
            &&& r.0.round == initial_state.round
            &&& r.0.phase == initial_state.phase
            &&& r.0.encounter_card_id == initial_state.encounter_card_id
            &&& same_enemy_cards(r.0.enemy_attack_deck@, initial_state.enemy_attack_deck@)
            &&& same_enemy_cards(r.0.enemy_defence_deck@, initial_state.enemy_defence_deck@)
            &&& same_enemy_cards(r.0.enemy_resource_deck@, initial_state.enemy_resource_deck@)
        }),
{
    let mut rng = crate::action::rng_from_seed(seed);
    let ghost st0 = SimRun { view: sim_view(initial_state, initial_player_tokens), player_turn: initial_state.player_turn, stopped: false };
    let ghost s0 = initial_state;
    let mut current_state = initial_state;
    let mut player_tokens = initial_player_tokens;
    let mut stopped = false;
    let mut i: usize = 0;
    while i < actions.len()
        invariant
            i <= actions@.len(),
            forall|k: int| 0 <= k < actions@.len() ==> #[trigger] run_step_fits(run_all(st0, actions@.take(k), card_defs@), actions@[k], card_defs@),
            run_all(st0, actions@.take(i as int), card_defs@) == (SimRun {
                view: sim_view(current_state, player_tokens),
                player_turn: current_state.player_turn,
                stopped,
            }),
            current_state.round == s0.round,
            current_state.phase == s0.phase,
            current_state.encounter_card_id == s0.encounter_card_id,
            same_enemy_cards(current_state.enemy_attack_deck@, s0.enemy_attack_deck@),
            same_enemy_cards(current_state.enemy_defence_deck@, s0.enemy_defence_deck@),
            same_enemy_cards(current_state.enemy_resource_deck@, s0.enemy_resource_deck@),
        decreases actions@.len() - i,
    {
        proof {
            assert(actions@.take(i + 1).drop_last() =~= actions@.take(i as int));
            assert(actions@.take(i + 1).last() == actions@[i as int]);
            assert(run_step_fits(run_all(st0, actions@.take(i as int), card_defs@), actions@[i as int], card_defs@));
        }
        if !stopped {
            match resolve_combat_tick(&current_state, &player_tokens, &actions[i], card_defs, &mut rng) {
                Ok((next_state, next_tokens, _vals)) => {
                    proof {
                        lemma_same_enemy_trans(next_state.enemy_attack_deck@, current_state.enemy_attack_deck@, s0.enemy_attack_deck@);
                        lemma_same_enemy_trans(next_state.enemy_defence_deck@, current_state.enemy_defence_deck@, s0.enemy_defence_deck@);
                        lemma_same_enemy_trans(next_state.enemy_resource_deck@, current_state.enemy_resource_deck@, s0.enemy_resource_deck@);
                    }
                    current_state = next_state;
                    player_tokens = next_tokens;
                    stopped = current_state.is_finished;
                },
                Err(_) => {
                    stopped = true;
                },
            }
        }
        i += 1;
    }
    proof {
        assert(actions@.take(actions@.len() as int) =~= actions@);
    }
    (current_state, player_tokens)
}

} // verus!
