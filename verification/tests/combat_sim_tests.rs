use my_little_cardgame::library::combat::{
    resolve_combat_tick, simulate_combat, CardDef, CardEffect, CardEffectKind, CombatOutcome, CombatState,
    CombatTickError,
};
use my_little_cardgame::library::token_map::TokenMap;
use my_little_cardgame::library::types::{CombatAction, CombatPhase, EffectTarget, Token, TokenLifecycle, TokenType};
use rand::SeedableRng;
use rand_pcg::Lcg64Xsh32;
use std::collections::HashMap;

fn change(target: EffectTarget, token_type: TokenType, amount: i64) -> CardEffect {
    CardEffect {
        kind: CardEffectKind::ChangeTokens { target, token_type, amount },
        lifecycle: TokenLifecycle::PersistentCounter,
        card_effect_id: None,
    }
}

fn health(n: i64) -> TokenMap {
    let mut m = TokenMap::new();
    m.insert(Token::persistent(TokenType::Health), n);
    m
}

fn state(enemy_health: i64) -> CombatState {
    CombatState {
        round: 1,
        player_turn: true,
        phase: CombatPhase::Attacking,
        enemy_tokens: health(enemy_health),
        encounter_card_id: None,
        is_finished: false,
        outcome: CombatOutcome::Undecided,
        enemy_attack_deck: vec![],
        enemy_defence_deck: vec![],
        enemy_resource_deck: vec![],
    }
}

/// A strike (1) that takes 4 health from the opponent, and a draw card (2).
fn defs() -> HashMap<u64, CardDef> {
    let mut m = HashMap::new();
    m.insert(
        1,
        CardDef { id: 1, card_type: "Attack".to_string(), effects: vec![change(EffectTarget::OnOpponent, TokenType::Health, -4)] },
    );
    m.insert(2, CardDef { id: 2, card_type: "Draw".to_string(), effects: vec![CardEffect {
        kind: CardEffectKind::DrawCards { amount: 1 },
        lifecycle: TokenLifecycle::PersistentCounter,
        card_effect_id: None,
    }] });
    m
}

fn hp(m: &TokenMap) -> i64 {
    m.value(&Token::persistent(TokenType::Health))
}

#[test]
fn a_tick_applies_the_cards_effects_and_passes_the_turn() {
    let mut rng = Lcg64Xsh32::from_seed([1u8; 16]);
    let (st, pt, vals) =
        resolve_combat_tick(&state(10), &health(20), &CombatAction { is_player: true, card_id: 1 }, &defs(), &mut rng)
            .expect("known card");
    assert_eq!(hp(&st.enemy_tokens), 6);
    assert_eq!(hp(&pt), 20);
    assert!(!st.player_turn);
    assert!(!st.is_finished);
    assert_eq!(vals.len(), 1);
    // the enemy's strike lands on the player
    let (st2, pt2, _) =
        resolve_combat_tick(&st, &pt, &CombatAction { is_player: false, card_id: 1 }, &defs(), &mut rng).expect("known card");
    assert_eq!(hp(&pt2), 16);
    assert!(st2.player_turn);
}

#[test]
fn a_tick_floors_health_at_zero_and_ends_the_fight() {
    let mut rng = Lcg64Xsh32::from_seed([1u8; 16]);
    let (st, _, _) =
        resolve_combat_tick(&state(3), &health(20), &CombatAction { is_player: true, card_id: 1 }, &defs(), &mut rng)
            .expect("known card");
    assert_eq!(hp(&st.enemy_tokens), 0);
    assert!(st.is_finished);
    assert_eq!(st.outcome, CombatOutcome::PlayerWon);
    // the turn stays with the winner
    assert!(st.player_turn);
}

#[test]
fn an_unknown_card_is_refused() {
    let mut rng = Lcg64Xsh32::from_seed([1u8; 16]);
    let r = resolve_combat_tick(&state(10), &health(20), &CombatAction { is_player: true, card_id: 9 }, &defs(), &mut rng);
    assert!(matches!(r, Err(CombatTickError::UnknownCard { card_id: 9 })));
}

#[test]
fn a_simulation_runs_until_the_fight_is_over() {
    let strike = CombatAction { is_player: true, card_id: 1 };
    let actions = vec![strike, CombatAction { is_player: false, card_id: 2 }, strike, strike, strike];
    let (st, pt) = simulate_combat(state(8), health(20), 7, actions, &defs());
    assert!(st.is_finished);
    assert_eq!(st.outcome, CombatOutcome::PlayerWon);
    assert_eq!(hp(&st.enemy_tokens), 0);
    assert_eq!(hp(&pt), 20);
}

#[test]
fn a_simulation_stops_at_an_unknown_card() {
    let strike = CombatAction { is_player: true, card_id: 1 };
    let actions = vec![strike, CombatAction { is_player: false, card_id: 5 }, strike];
    let (st, _) = simulate_combat(state(20), health(20), 7, actions, &defs());
    assert_eq!(hp(&st.enemy_tokens), 16);
    assert!(!st.is_finished);
    assert!(!st.player_turn);
}
