use my_little_cardgame::action::{rng_from_seed, seed_bytes, ActionError, PlayerActions};
use my_little_cardgame::library::concrete::{roll_best_concrete_effect, roll_concrete_effect};
use my_little_cardgame::library::costs::{
    check_and_deduct_gathering_costs, extract_gathering_costs_from_effects, extract_rest_token_cost, preview_gathering_costs,
    CostError,
};
use my_little_cardgame::library::disciplines::combat::{apply_card_effects, CombatError};
use my_little_cardgame::library::disciplines::rest::RestError;
use my_little_cardgame::library::encounter::{
    apply_action, can_scout, derive_preview_count, is_finished, is_in_combat, EncounterAction, EncounterPhase as LoopPhase,
    EncounterState as LoopState,
};
use my_little_cardgame::library::game_state::{
    CombatRules, CraftingRules, GameRulesConfig, GameState, GeneralRules, ResearchRules,
};
use my_little_cardgame::library::registry::{TokenRegistry, TokenRegistryEntry};
use my_little_cardgame::library::token_map::TokenMap;
use my_little_cardgame::library::types::{
    CardCounts, CardEffectCost, CardEffectKind, CardKind, CombatPhase, CombatantDef, ConcreteEffect, ConcreteEffectCost,
    DeckCounts, Discipline, EffectTarget, EncounterKind, EncounterOutcome, EncounterPhase, EncounterState, EnemyCardDef,
    RestDef, Token, TokenAmount, TokenLifecycle, TokenType,
};
use my_little_cardgame::library::validate::{EffectHolder, EffectRefError};
use my_little_cardgame::library::Library;
use rand::{RngCore, SeedableRng};
use rand_pcg::Lcg64Xsh32;

fn rules() -> GameRulesConfig {
    GameRulesConfig {
        general: GeneralRules { death_reset_health: 20, death_reset_stamina: 5 },
        combat: CombatRules { milestone_insight_on_win: 100 },
        research: ResearchRules { max_hand_size: 5, base_insight_cost: 10, insight_cost_multiplier: 2 },
        crafting: CraftingRules {
            initial_draw_count: 3,
            durability_material_cost: 10,
            durability_grant: 100,
            min_craft_token_cost: 1,
            base_cost_divisor: 10,
            max_material_percent: 80,
            material_token_min: 1,
            material_token_max: 5,
            cost_reduction_floor_percent: 10,
            cost_formula_divisor: 100,
        },
    }
}

fn effect(effect_id: usize, value: i64) -> ConcreteEffect {
    ConcreteEffect { effect_id, rolled_value: value, rolled_costs: vec![], rolled_cap: None, rolled_gain_percent: None }
}

fn loss_template(target: EffectTarget, min: i64, max: i64) -> CardEffectKind {
    CardEffectKind::LoseTokens {
        target,
        token_type: TokenType::Health,
        min,
        max,
        costs: vec![],
        duration: TokenLifecycle::PersistentCounter,
    }
}

fn enemy_card(effect_id: usize, value: i64) -> EnemyCardDef {
    EnemyCardDef { effects: vec![effect(effect_id, value)], counts: DeckCounts { deck: 1, hand: 1, discard: 0 } }
}

fn counts(library: u32, deck: u32, hand: u32) -> CardCounts {
    CardCounts { library, deck, hand, discard: 0 }
}

/// A library with a player damage template (0), an enemy damage template
/// (1), an attack card (2) and a combat encounter (3).
fn combat_library(rng: &mut Lcg64Xsh32, enemy_damage: i64, enemy_health: u64) -> Library {
    let mut lib = Library::new();
    lib.add_card(CardKind::PlayerCardEffect { kind: loss_template(EffectTarget::OnOpponent, 30, 30) }, counts(1, 0, 0), rng, vec![Discipline::Combat]);
    lib.add_card(CardKind::EnemyCardEffect { kind: loss_template(EffectTarget::OnOpponent, 5, 5) }, counts(1, 0, 0), rng, vec![Discipline::Combat]);
    lib.add_card(CardKind::Attack { effects: vec![effect(0, 30)] }, counts(0, 0, 1), rng, vec![Discipline::Combat]);
    let def = CombatantDef {
        initial_tokens: vec![(Token::persistent(TokenType::Health), enemy_health)],
        attack_deck: vec![enemy_card(1, enemy_damage)],
        defence_deck: vec![enemy_card(1, enemy_damage)],
        resource_deck: vec![enemy_card(1, enemy_damage)],
    };
    lib.add_card(
        CardKind::Encounter { encounter_kind: EncounterKind::Combat { combatant_def: def } },
        counts(0, 0, 1),
        rng,
        vec![Discipline::Combat],
    );
    lib
}

fn balances(pairs: &[(TokenType, i64)]) -> TokenMap {
    let mut m = TokenMap::new();
    for (t, v) in pairs {
        m.insert(Token::persistent(*t), *v);
    }
    m
}

fn enemy_health(gs: &GameState) -> i64 {
    match &gs.current_encounter {
        Some(EncounterState::Combat(c)) => c.enemy_tokens.value(&Token::persistent(TokenType::Health)),
        _ => panic!("no combat"),
    }
}

#[test]
fn validate_card_effects_accepts_good_references() {
    let mut rng = Lcg64Xsh32::from_seed([3u8; 16]);
    let lib = combat_library(&mut rng, 5, 40);
    assert!(lib.validate_card_effects().is_ok());
}

#[test]
fn validate_card_effects_reports_each_bad_reference() {
    let mut rng = Lcg64Xsh32::from_seed([3u8; 16]);
    let mut lib = combat_library(&mut rng, 5, 40);
    // an attack card pointing at the enemy template, and one at a missing id
    lib.add_card(CardKind::Attack { effects: vec![effect(1, 1), effect(99, 1)] }, counts(0, 1, 0), &mut rng, vec![]);
    let errs = lib.validate_card_effects().unwrap_err();
    assert_eq!(
        errs,
        vec![
            EffectRefError { card_id: 4, holder: EffectHolder::PlayerCard, effect_id: 1 },
            EffectRefError { card_id: 4, holder: EffectHolder::PlayerCard, effect_id: 99 },
        ]
    );
}

#[test]
fn roll_concrete_effect_stays_in_ranges() {
    let mut rng = Lcg64Xsh32::from_seed([5u8; 16]);
    let mut lib = Library::new();
    lib.add_card(
        CardKind::PlayerCardEffect {
            kind: CardEffectKind::GainTokens {
                target: EffectTarget::OnSelf,
                token_type: TokenType::Shield,
                cap_min: 100,
                cap_max: 200,
                gain_min_percent: 50,
                gain_max_percent: 60,
                costs: vec![CardEffectCost { token_type: TokenType::Stamina, min_percent: 10, max_percent: 20 }],
                duration: TokenLifecycle::PersistentCounter,
            },
        },
        counts(1, 0, 0),
        &mut rng,
        vec![],
    );
    for _ in 0..20 {
        let e = roll_concrete_effect(&mut rng, 0, &lib);
        let cap = e.rolled_cap.unwrap();
        let g = e.rolled_gain_percent.unwrap() as i64;
        assert!((100..=200).contains(&cap));
        assert!((50..=60).contains(&g));
        assert_eq!(e.rolled_value, cap * g / 100);
        assert_eq!(e.rolled_costs.len(), 1);
        assert!((10..=20).contains(&e.rolled_costs[0].rolled_percent));
    }
    let best = roll_best_concrete_effect(0, &lib);
    assert_eq!(best.rolled_value, 120);
    assert_eq!(best.rolled_cap, Some(200));
    assert_eq!(best.rolled_costs, vec![ConcreteEffectCost { token_type: TokenType::Stamina, rolled_percent: 20 }]);
    // an id that is no template rolls an empty effect
    let none = roll_concrete_effect(&mut rng, 7, &lib);
    assert_eq!(none.rolled_value, 0);
    assert!(none.rolled_costs.is_empty());
}

#[test]
fn costs_are_percentages_of_the_rolled_value() {
    let e = ConcreteEffect {
        effect_id: 0,
        rolled_value: -200,
        rolled_costs: vec![
            ConcreteEffectCost { token_type: TokenType::Stamina, rolled_percent: 50 },
            ConcreteEffectCost { token_type: TokenType::Mana, rolled_percent: 0 },
            ConcreteEffectCost { token_type: TokenType::RestToken, rolled_percent: 1 },
        ],
        rolled_cap: None,
        rolled_gain_percent: None,
    };
    let costs = extract_gathering_costs_from_effects(&[e]);
    assert_eq!(
        costs,
        vec![
            TokenAmount { token_type: TokenType::Stamina, amount: 100, cap: None },
            TokenAmount { token_type: TokenType::RestToken, amount: 2, cap: None },
        ]
    );
}

#[test]
fn rest_token_cost_sums_rest_costs() {
    let e = ConcreteEffect {
        effect_id: 0,
        rolled_value: 10,
        rolled_costs: vec![
            ConcreteEffectCost { token_type: TokenType::RestToken, rolled_percent: 100 },
            ConcreteEffectCost { token_type: TokenType::RestToken, rolled_percent: 50 },
            ConcreteEffectCost { token_type: TokenType::Stamina, rolled_percent: 100 },
        ],
        rolled_cap: None,
        rolled_gain_percent: None,
    };
    assert_eq!(extract_rest_token_cost(&[e]), 15);
}

#[test]
fn preview_and_deduct_costs() {
    let costs = vec![
        TokenAmount { token_type: TokenType::Ore, amount: 5, cap: None },
        TokenAmount { token_type: TokenType::Stamina, amount: 9, cap: None },
    ];
    let mut m = balances(&[(TokenType::Ore, 7), (TokenType::Stamina, 8)]);
    assert_eq!(
        preview_gathering_costs(&costs, &m),
        Err(CostError::Insufficient { token_type: TokenType::Stamina, need: 9, have: 8 })
    );
    // a refused payment changes nothing
    assert!(check_and_deduct_gathering_costs(&costs, &mut m).is_err());
    assert_eq!(m.value(&Token::persistent(TokenType::Ore)), 7);
    m.insert(Token::persistent(TokenType::Stamina), 10);
    assert!(check_and_deduct_gathering_costs(&costs, &mut m).is_ok());
    assert_eq!(m.value(&Token::persistent(TokenType::Ore)), 2);
    assert_eq!(m.value(&Token::persistent(TokenType::Stamina)), 1);
}

#[test]
fn damage_goes_through_dodge_then_shield_then_health() {
    let mut rng = Lcg64Xsh32::from_seed([1u8; 16]);
    let lib = combat_library(&mut rng, 5, 40);
    let mut player = TokenMap::new();
    let mut enemy = balances(&[(TokenType::Shield, 10), (TokenType::Health, 100)]);
    enemy.insert(Token::dodge(), 5);
    // the attack card's effect deals 30 to the opponent: a dodge removes it whole
    apply_card_effects(&[effect(0, 30)], true, &mut player, &mut enemy, &lib);
    assert_eq!(enemy.value(&Token::dodge()), 4);
    assert_eq!(enemy.value(&Token::persistent(TokenType::Shield)), 10);
    assert_eq!(enemy.value(&Token::persistent(TokenType::Health)), 100);
    // without a dodge the shield absorbs first and health takes the rest
    let mut enemy1 = balances(&[(TokenType::Shield, 10), (TokenType::Health, 100)]);
    apply_card_effects(&[effect(0, 30)], true, &mut player, &mut enemy1, &lib);
    assert_eq!(enemy1.value(&Token::persistent(TokenType::Shield)), 0);
    assert_eq!(enemy1.value(&Token::persistent(TokenType::Health)), 80);
    // smaller damage only eats into the shield
    let mut enemy2 = balances(&[(TokenType::Shield, 10), (TokenType::Health, 100)]);
    apply_card_effects(&[effect(0, 4)], true, &mut player, &mut enemy2, &lib);
    assert_eq!(enemy2.value(&Token::persistent(TokenType::Shield)), 6);
    assert_eq!(enemy2.value(&Token::persistent(TokenType::Health)), 100);
    // health never goes below zero
    let mut enemy3 = balances(&[(TokenType::Health, 10)]);
    apply_card_effects(&[effect(0, 30)], true, &mut player, &mut enemy3, &lib);
    assert_eq!(enemy3.value(&Token::persistent(TokenType::Health)), 0);
}

#[test]
fn combat_is_won_and_scouting_follows() {
    let mut rng = Lcg64Xsh32::from_seed([9u8; 16]);
    let lib = combat_library(&mut rng, 5, 40);
    let mut gs = GameState::from_parts(lib, balances(&[(TokenType::Health, 20)]), rules());
    assert_eq!(gs.resolve_player_card(2, &mut rng), Err(CombatError::NoActiveCombat));
    assert!(gs.start_combat(3, &mut rng).is_ok());
    assert_eq!(gs.encounter_phase, EncounterPhase::InEncounter);
    assert_eq!(enemy_health(&gs), 40);
    match &gs.current_encounter {
        Some(EncounterState::Combat(c)) => {
            assert_eq!(c.phase, CombatPhase::Defending);
            assert_eq!(c.round, 1);
        },
        _ => panic!("no combat"),
    }
    assert_eq!(gs.resolve_player_card(99, &mut rng), Err(CombatError::CardNotFound { card_id: 99 }));
    assert_eq!(gs.resolve_player_card(0, &mut rng), Err(CombatError::NotAnActionCard { card_id: 0 }));
    assert!(gs.resolve_player_card(2, &mut rng).is_ok());
    assert_eq!(enemy_health(&gs), 10);
    assert!(gs.resolve_player_card(2, &mut rng).is_ok());
    assert!(gs.current_encounter.is_none());
    assert_eq!(gs.encounter_phase, EncounterPhase::Scouting);
    assert_eq!(gs.last_encounter_result, Some(EncounterOutcome::PlayerWon));
    assert_eq!(gs.encounter_results, vec![EncounterOutcome::PlayerWon]);
    assert_eq!(gs.token_balances.value(&Token::persistent(TokenType::MilestoneInsight)), 100);
}

#[test]
fn card_without_payable_effect_is_refused() {
    let mut rng = Lcg64Xsh32::from_seed([9u8; 16]);
    let mut lib = combat_library(&mut rng, 5, 40);
    let costly = ConcreteEffect {
        effect_id: 0,
        rolled_value: 30,
        rolled_costs: vec![ConcreteEffectCost { token_type: TokenType::Stamina, rolled_percent: 100 }],
        rolled_cap: None,
        rolled_gain_percent: None,
    };
    lib.add_card(CardKind::Attack { effects: vec![costly] }, counts(0, 0, 1), &mut rng, vec![]);
    let mut gs = GameState::from_parts(lib, balances(&[(TokenType::Health, 20), (TokenType::Stamina, 29)]), rules());
    assert!(gs.start_combat(3, &mut rng).is_ok());
    assert_eq!(gs.resolve_player_card(4, &mut rng), Err(CombatError::NoPayableEffect { card_id: 4 }));
    assert_eq!(enemy_health(&gs), 40);
    // with enough stamina the card is paid and applied
    gs.token_balances.insert(Token::persistent(TokenType::Stamina), 30);
    assert!(gs.resolve_player_card(4, &mut rng).is_ok());
    assert_eq!(enemy_health(&gs), 10);
    assert_eq!(gs.token_balances.value(&Token::persistent(TokenType::Stamina)), 0);
}

#[test]
fn enemy_play_kills_player_and_death_resets() {
    let mut rng = Lcg64Xsh32::from_seed([4u8; 16]);
    let lib = combat_library(&mut rng, 5, 40);
    let mut gs = GameState::from_parts(
        lib,
        balances(&[(TokenType::Health, 5), (TokenType::Ore, 12), (TokenType::Stamina, 1)]),
        rules(),
    );
    assert!(gs.start_combat(3, &mut rng).is_ok());
    assert!(gs.resolve_enemy_play(&mut rng).is_ok());
    assert!(gs.current_encounter.is_none());
    assert_eq!(gs.encounter_results, vec![EncounterOutcome::PlayerLost]);
    assert!(gs.last_death_occurred);
    assert_eq!(gs.token_balances.value(&Token::persistent(TokenType::Health)), 20);
    assert_eq!(gs.token_balances.value(&Token::persistent(TokenType::Stamina)), 5);
    assert_eq!(gs.token_balances.value(&Token::persistent(TokenType::Ore)), 0);
    assert_eq!(gs.token_balances.value(&Token::persistent(TokenType::PlayerDeaths)), 1);
}

#[test]
fn combat_phase_advances_in_a_cycle() {
    let mut rng = Lcg64Xsh32::from_seed([4u8; 16]);
    let lib = combat_library(&mut rng, 5, 40);
    let mut gs = GameState::from_parts(lib, balances(&[(TokenType::Health, 50)]), rules());
    assert_eq!(gs.advance_combat_phase(), Err(CombatError::NoActiveCombat));
    assert!(gs.start_combat(3, &mut rng).is_ok());
    let mut seen = vec![];
    for _ in 0..3 {
        assert!(gs.advance_combat_phase().is_ok());
        if let Some(EncounterState::Combat(c)) = &gs.current_encounter {
            seen.push(c.phase);
        }
    }
    assert_eq!(seen, vec![CombatPhase::Attacking, CombatPhase::Resourcing, CombatPhase::Defending]);
}

fn rest_library(rng: &mut Lcg64Xsh32) -> Library {
    let mut lib = Library::new();
    lib.add_card(
        CardKind::PlayerCardEffect {
            kind: CardEffectKind::GainTokens {
                target: EffectTarget::OnSelf,
                token_type: TokenType::Stamina,
                cap_min: 10,
                cap_max: 10,
                gain_min_percent: 100,
                gain_max_percent: 100,
                costs: vec![],
                duration: TokenLifecycle::PersistentCounter,
            },
        },
        counts(1, 0, 0),
        rng,
        vec![Discipline::Rest],
    );
    let rest_effect = ConcreteEffect {
        effect_id: 0,
        rolled_value: 10,
        rolled_costs: vec![ConcreteEffectCost { token_type: TokenType::RestToken, rolled_percent: 100 }],
        rolled_cap: None,
        rolled_gain_percent: None,
    };
    lib.add_card(CardKind::Rest { effects: vec![rest_effect], rest_token_cost: 10 }, counts(0, 1, 0), rng, vec![Discipline::Rest]);
    lib.add_card(
        CardKind::Encounter { encounter_kind: EncounterKind::Rest { rest_def: RestDef { rest_token_min: 10, rest_token_max: 10 } } },
        counts(0, 0, 1),
        rng,
        vec![Discipline::Rest],
    );
    lib
}

#[test]
fn rest_encounter_runs_until_rest_tokens_are_spent() {
    let mut rng = Lcg64Xsh32::from_seed([6u8; 16]);
    let lib = rest_library(&mut rng);
    let mut gs = GameState::from_parts(lib, balances(&[(TokenType::RestMaxHand, 3), (TokenType::Stamina, 2)]), rules());
    assert_eq!(gs.resolve_rest_card_play(1, &mut rng), Err(RestError::NotInHand { card_id: 1 }));
    assert!(gs.start_rest_encounter(2, &mut rng).is_ok());
    match &gs.current_encounter {
        Some(EncounterState::Rest(r)) => assert_eq!(r.rest_tokens, 10),
        _ => panic!("no rest"),
    }
    assert_eq!(gs.library.cards[1].counts.hand, 1);
    assert_eq!(gs.resolve_rest_card_play(2, &mut rng), Err(RestError::NotARestCard { card_id: 2 }));
    assert!(gs.resolve_rest_card_play(1, &mut rng).is_ok());
    assert_eq!(gs.token_balances.value(&Token::persistent(TokenType::Stamina)), 12);
    assert!(gs.current_encounter.is_none());
    assert_eq!(gs.encounter_phase, EncounterPhase::Scouting);
    assert_eq!(gs.encounter_results, vec![EncounterOutcome::PlayerWon]);
    assert_eq!(gs.last_encounter_card, Some(2));
}

#[test]
fn token_registry_canonical_and_register() {
    let mut r = TokenRegistry::with_canonical();
    assert!(r.contains(&TokenType::Health));
    assert!(r.contains(&TokenType::Durability));
    assert!(!r.contains(&TokenType::Ore));
    r.register(TokenRegistryEntry { id: TokenType::Ore, cap: None });
    assert!(r.contains(&TokenType::Ore));
    assert!(!TokenRegistry::new().contains(&TokenType::Health));
}

#[test]
fn encounter_loop_transitions() {
    let ready = LoopState { phase: LoopPhase::Ready };
    let combat = apply_action(&ready, EncounterAction::PickEncounter { card_id: "7".to_string() }).unwrap();
    assert!(is_in_combat(&combat));
    assert_eq!(apply_action(&combat, EncounterAction::PlayCard { card_id: 1 }), Some(combat));
    let done = apply_action(&combat, EncounterAction::FinishEncounter).unwrap();
    assert!(is_finished(&done));
    assert_eq!(apply_action(&done, EncounterAction::FinishEncounter), None);
    let scouting = LoopState { phase: LoopPhase::Scouting };
    assert!(can_scout(&scouting));
    assert_eq!(apply_action(&scouting, EncounterAction::ApplyScouting { card_ids: vec![] }), Some(scouting));
    assert_eq!(apply_action(&ready, EncounterAction::PlayCard { card_id: 1 }), None);
    assert_eq!(derive_preview_count(0), 1);
    assert_eq!(derive_preview_count(2), 3);
}

#[test]
fn seed_bytes_repeat_little_endian_bytes() {
    let b = seed_bytes(0x0102030405060708);
    assert_eq!(b, [8, 7, 6, 5, 4, 3, 2, 1, 8, 7, 6, 5, 4, 3, 2, 1]);
    // the same seed gives the same generator
    let mut a = rng_from_seed(42);
    let mut c = rng_from_seed(42);
    assert_eq!(a.next_u64(), c.next_u64());
}

#[test]
fn actions_are_refused_where_they_do_not_apply() {
    let mut rng = Lcg64Xsh32::from_seed([2u8; 16]);
    let lib = combat_library(&mut rng, 5, 40);
    let mut gs = GameState::from_parts(lib, balances(&[(TokenType::Health, 20)]), rules());
    assert_eq!(
        gs.handle_action(&PlayerActions::EncounterPickEncounter { card_id: 2 }, &mut rng),
        Err(ActionError::EncounterNotInHand { card_id: 2 })
    );
    assert_eq!(gs.handle_action(&PlayerActions::EncounterPlayCard { card_id: 2 }, &mut rng), Err(ActionError::NoActiveEncounter));
    assert_eq!(gs.handle_action(&PlayerActions::EncounterAbort, &mut rng), Err(ActionError::NoEncounterToAbort));
    assert_eq!(
        gs.handle_action(&PlayerActions::EncounterApplyScouting { card_ids: vec![3] }, &mut rng),
        Err(ActionError::NotInScoutingPhase)
    );
}

#[test]
fn picking_and_playing_through_actions() {
    let mut rng = Lcg64Xsh32::from_seed([2u8; 16]);
    let lib = combat_library(&mut rng, 5, 40);
    let mut gs = GameState::from_parts(lib, balances(&[(TokenType::Health, 20)]), rules());
    assert!(gs.handle_action(&PlayerActions::EncounterPickEncounter { card_id: 3 }, &mut rng).is_ok());
    assert_eq!(gs.library.cards[3].counts.discard, 1);
    assert_eq!(gs.handle_action(&PlayerActions::EncounterAbort, &mut rng), Err(ActionError::CannotAbortCombat));
    // the combat opens in the Defending phase: an attack card does not fit
    assert_eq!(
        gs.handle_action(&PlayerActions::EncounterPlayCard { card_id: 2 }, &mut rng),
        Err(ActionError::NotPlayableInPhase { card_id: 2, phase: CombatPhase::Defending })
    );
}

#[test]
fn accepted_actions_are_listed_as_possible() {
    let mut rng = Lcg64Xsh32::from_seed([2u8; 16]);
    let lib = combat_library(&mut rng, 5, 40);
    let mut gs = GameState::from_parts(lib, balances(&[(TokenType::Health, 20)]), rules());
    let listed = gs.possible_actions();
    assert!(listed.iter().any(|a| matches!(a, PlayerActions::NewGame { seed: None })));
    assert!(listed.iter().any(|a| matches!(a, PlayerActions::EncounterPickEncounter { card_id: 0 })));
    assert!(!listed.iter().any(|a| matches!(a, PlayerActions::EncounterPlayCard { .. })));
    assert!(gs.handle_action(&PlayerActions::EncounterPickEncounter { card_id: 3 }, &mut rng).is_ok());
    // in combat no abort is listed, and the abort is refused
    let listed = gs.possible_actions();
    assert!(!listed.iter().any(|a| matches!(a, PlayerActions::EncounterAbort)));
    assert_eq!(gs.handle_action(&PlayerActions::EncounterAbort, &mut rng), Err(ActionError::CannotAbortCombat));
}

#[test]
fn picking_a_combat_gives_an_unset_health_twenty() {
    let mut rng = Lcg64Xsh32::from_seed([2u8; 16]);
    let lib = combat_library(&mut rng, 5, 40);
    let mut gs = GameState::from_parts(lib, balances(&[(TokenType::Stamina, 3)]), rules());
    assert!(gs.handle_action(&PlayerActions::EncounterPickEncounter { card_id: 3 }, &mut rng).is_ok());
    assert_eq!(gs.token_balances.value(&Token::persistent(TokenType::Health)), 20);
    assert_eq!(gs.token_balances.value(&Token::persistent(TokenType::Stamina)), 3);
    // a set health is kept
    let lib = combat_library(&mut rng, 5, 40);
    let mut gs = GameState::from_parts(lib, balances(&[(TokenType::Health, 7)]), rules());
    assert!(gs.handle_action(&PlayerActions::EncounterPickEncounter { card_id: 3 }, &mut rng).is_ok());
    assert_eq!(gs.token_balances.value(&Token::persistent(TokenType::Health)), 7);
}

#[test]
fn a_replayed_log_gives_the_game_back() {
    let actions = vec![
        PlayerActions::EncounterPickEncounter { card_id: 3 },
        PlayerActions::EncounterPlayCard { card_id: 2 },
        PlayerActions::EncounterAbort,
    ];
    // the live game
    let mut rng = Lcg64Xsh32::from_seed([6u8; 16]);
    let lib = combat_library(&mut rng, 5, 40);
    let mut live = GameState::from_parts(lib, balances(&[(TokenType::Health, 20)]), rules());
    let mut live_rng = Lcg64Xsh32::from_seed([7u8; 16]);
    let mut answers = Vec::new();
    for a in &actions {
        answers.push(live.handle_action(a, &mut live_rng));
    }
    assert_eq!(answers[2], Err(ActionError::CannotAbortCombat));
    // the same start and seed, replayed
    let mut rng = Lcg64Xsh32::from_seed([6u8; 16]);
    let lib = combat_library(&mut rng, 5, 40);
    let fresh = GameState::from_parts(lib, balances(&[(TokenType::Health, 20)]), rules());
    let mut replay_rng = Lcg64Xsh32::from_seed([7u8; 16]);
    let replayed = GameState::replay_from_log(fresh, &actions, &mut replay_rng);
    assert_eq!(replayed.encounter_phase, live.encounter_phase);
    assert_eq!(replayed.encounter_results, live.encounter_results);
    assert_eq!(format!("{:?}", replayed.token_balances.to_vec()), format!("{:?}", live.token_balances.to_vec()));
    let counts = |g: &GameState| g.library.cards.iter().map(|c| (c.counts.deck, c.counts.hand, c.counts.discard)).collect::<Vec<_>>();
    assert_eq!(counts(&replayed), counts(&live));
}

#[test]
fn a_log_replayed_in_two_parts_gives_the_same_game() {
    let actions = vec![
        PlayerActions::EncounterPickEncounter { card_id: 3 },
        PlayerActions::EncounterPlayCard { card_id: 2 },
    ];
    let mut rng = Lcg64Xsh32::from_seed([6u8; 16]);
    let lib = combat_library(&mut rng, 5, 40);
    let fresh = GameState::from_parts(lib, balances(&[(TokenType::Health, 20)]), rules());
    let mut whole_rng = Lcg64Xsh32::from_seed([8u8; 16]);
    let whole = GameState::replay_from_log(fresh, &actions, &mut whole_rng);
    let mut rng = Lcg64Xsh32::from_seed([6u8; 16]);
    let lib = combat_library(&mut rng, 5, 40);
    let fresh = GameState::from_parts(lib, balances(&[(TokenType::Health, 20)]), rules());
    let mut parts_rng = Lcg64Xsh32::from_seed([8u8; 16]);
    let head = vec![PlayerActions::EncounterPickEncounter { card_id: 3 }];
    let tail = vec![PlayerActions::EncounterPlayCard { card_id: 2 }];
    let first = GameState::replay_from_log(fresh, &head, &mut parts_rng);
    let second = GameState::replay_from_log(first, &tail, &mut parts_rng);
    assert_eq!(format!("{:?}", whole.token_balances.to_vec()), format!("{:?}", second.token_balances.to_vec()));
    assert_eq!(whole.encounter_phase, second.encounter_phase);
    assert_eq!(format!("{:?}", whole.current_encounter), format!("{:?}", second.current_encounter));
}
