use my_little_cardgame::action::PlayerActions;
use my_little_cardgame::library::disciplines::woodcutting::{
    chop_stats, evaluate_best_pattern, first_matching_rule, WoodcuttingError, WoodcuttingPatternRule,
};
use my_little_cardgame::library::game_state::{
    CombatRules, CraftingRules, GameRulesConfig, GameState, GeneralRules, ResearchRules,
};
use my_little_cardgame::library::token_map::TokenMap;
use my_little_cardgame::library::types::{
    CardCounts, CardEffectKind, CardKind, ChopType, ConcreteEffect, ConcreteEffectCost, Discipline, EncounterKind, EncounterOutcome, EncounterPhase,
    EncounterState, PlayedWoodcuttingCard, Token, TokenType, WoodcuttingDef,
};
use my_little_cardgame::library::Library;
use rand::SeedableRng;
use rand_pcg::Lcg64Xsh32;

fn rules() -> GameRulesConfig {
    GameRulesConfig {
        general: GeneralRules { death_reset_health: 20, death_reset_stamina: 5 },
        combat: CombatRules { milestone_insight_on_win: 100 },
        research: ResearchRules { max_hand_size: 5, base_insight_cost: 10, insight_cost_multiplier: 2 },
        crafting: CraftingRules {
            initial_draw_count: 3,
            durability_material_cost: 10,
            durability_grant: 100,
            min_craft_token_cost: 1,
            base_cost_divisor: 10,
            max_material_percent: 80,
            material_token_min: 1,
            material_token_max: 5,
            cost_reduction_floor_percent: 10,
            cost_formula_divisor: 100,
        },
    }
}

fn effect(effect_id: usize, value: i64) -> ConcreteEffect {
    ConcreteEffect { effect_id, rolled_value: value, rolled_costs: vec![], rolled_cap: None, rolled_gain_percent: None }
}

fn counts(library: u32, deck: u32, hand: u32) -> CardCounts {
    CardCounts { library, deck, hand, discard: 0 }
}

fn balances(pairs: &[(TokenType, i64)]) -> TokenMap {
    let mut m = TokenMap::new();
    for (t, v) in pairs {
        m.insert(Token::persistent(*t), *v);
    }
    m
}

fn rule(name: &str, type_count: usize, straight: usize, distinct: usize, second: usize, freq: usize, pct: u64) -> WoodcuttingPatternRule {
    WoodcuttingPatternRule {
        name: name.to_string(),
        min_type_count: type_count,
        min_straight: straight,
        min_distinct_types: distinct,
        second_type_min: second,
        value_freq_min: freq,
        multiplier_percent: pct,
    }
}

/// Poker-like rules, strongest first.
fn patterns() -> Vec<WoodcuttingPatternRule> {
    vec![
        rule("Flush", 3, 0, 0, 0, 0, 300),
        rule("Straight", 0, 3, 0, 0, 0, 250),
        rule("Two Pair", 2, 0, 0, 2, 0, 200),
        rule("Pair", 0, 0, 0, 0, 2, 150),
    ]
}

fn chop(card_id: usize, chop_types: Vec<ChopType>, chop_values: Vec<u32>) -> PlayedWoodcuttingCard {
    PlayedWoodcuttingCard { card_id, chop_types, chop_values }
}

fn chop_template(t: ChopType) -> CardKind {
    CardKind::PlayerCardEffect { kind: CardEffectKind::WoodcuttingChop { chop_type: t, min_value: 1, max_value: 10, costs: vec![] } }
}

/// Templates: light (0), heavy (1), medium (2) chops. Woodcutting cards: a
/// light 4 (3), a light 5 (4), a heavy 6 (5). Encounters: 6 (two plays,
/// 10 lumber), 7 (three plays, no reward).
fn woodcutting_library(rng: &mut Lcg64Xsh32) -> Library {
    let mut lib = Library::new();
    let tags = vec![Discipline::Woodcutting];
    lib.add_card(chop_template(ChopType::LightChop), counts(1, 0, 0), rng, tags.clone());
    lib.add_card(chop_template(ChopType::HeavyChop), counts(1, 0, 0), rng, tags.clone());
    lib.add_card(chop_template(ChopType::MediumChop), counts(1, 0, 0), rng, tags.clone());
    lib.add_card(CardKind::Woodcutting { effects: vec![effect(0, 4)] }, counts(0, 1, 1), rng, tags.clone());
    lib.add_card(CardKind::Woodcutting { effects: vec![effect(0, 5)] }, counts(0, 1, 1), rng, tags.clone());
    lib.add_card(CardKind::Woodcutting { effects: vec![effect(1, 6)] }, counts(0, 1, 1), rng, tags.clone());
    lib.add_card(
        CardKind::Encounter {
            encounter_kind: EncounterKind::Woodcutting {
                woodcutting_def: WoodcuttingDef { max_plays: 2, base_rewards: balances(&[(TokenType::Lumber, 10)]) },
            },
        },
        counts(0, 0, 1),
        rng,
        tags.clone(),
    );
    lib.add_card(
        CardKind::Encounter {
            encounter_kind: EncounterKind::Woodcutting { woodcutting_def: WoodcuttingDef { max_plays: 3, base_rewards: TokenMap::new() } },
        },
        counts(0, 0, 1),
        rng,
        tags,
    );
    lib.woodcutting_patterns = patterns();
    lib
}

fn player() -> TokenMap {
    balances(&[(TokenType::Health, 20), (TokenType::WoodcuttingDurability, 100), (TokenType::WoodcuttingMaxHand, 10)])
}

fn played(gs: &GameState) -> Vec<(usize, Vec<u32>)> {
    match &gs.current_encounter {
        Some(EncounterState::Woodcutting(w)) => w.played_cards.iter().map(|c| (c.card_id, c.chop_values.clone())).collect(),
        _ => panic!("no woodcutting encounter"),
    }
}

#[test]
fn chop_statistics_count_types_straights_and_pairs() {
    let cards = vec![
        chop(1, vec![ChopType::LightChop, ChopType::LightChop], vec![4, 5]),
        chop(2, vec![ChopType::HeavyChop], vec![6]),
        chop(3, vec![ChopType::LightChop], vec![5]),
    ];
    let st = chop_stats(&cards);
    assert_eq!(st.max_type_count, 3);
    assert_eq!(st.second_type_count, 1);
    assert_eq!(st.distinct_types, 2);
    assert_eq!(st.longest_straight, 3);
    assert_eq!(st.top_value_freq, 2);
    let none = chop_stats(&vec![]);
    assert_eq!((none.max_type_count, none.distinct_types, none.longest_straight, none.top_value_freq), (0, 0, 0, 0));
}

#[test]
fn the_first_matching_rule_scores() {
    let cards = vec![chop(1, vec![ChopType::LightChop, ChopType::HeavyChop], vec![2, 3]), chop(2, vec![ChopType::MediumChop], vec![4])];
    // no three of a type, but a straight of three
    assert_eq!(first_matching_rule(&patterns(), &chop_stats(&cards)), Some(1));
    assert_eq!(evaluate_best_pattern(&cards, &patterns()), ("Straight".to_string(), 250));
    let scattered = vec![chop(1, vec![ChopType::LightChop], vec![1]), chop(2, vec![ChopType::HeavyChop], vec![9])];
    assert_eq!(first_matching_rule(&patterns(), &chop_stats(&scattered)), None);
    assert_eq!(evaluate_best_pattern(&scattered, &patterns()), ("High Card".to_string(), 100));
}

#[test]
fn woodcutting_encounter_starts_from_its_definition() {
    let mut rng = Lcg64Xsh32::from_seed([4u8; 16]);
    let mut gs = GameState::from_parts(woodcutting_library(&mut rng), player(), rules());
    assert_eq!(gs.start_woodcutting_encounter(99, &mut rng), Err(WoodcuttingError::CardNotFound { card_id: 99 }));
    assert_eq!(gs.start_woodcutting_encounter(3, &mut rng), Err(WoodcuttingError::NotAWoodcuttingEncounter { card_id: 3 }));
    assert!(gs.start_woodcutting_encounter(6, &mut rng).is_ok());
    assert_eq!(gs.encounter_phase, EncounterPhase::InEncounter);
    assert_eq!(played(&gs), vec![]);
}

#[test]
fn every_play_used_scores_the_chops_and_grants_the_rewards() {
    let mut rng = Lcg64Xsh32::from_seed([4u8; 16]);
    let mut gs = GameState::from_parts(woodcutting_library(&mut rng), player(), rules());
    assert!(gs.start_woodcutting_encounter(6, &mut rng).is_ok());
    assert!(gs.resolve_player_woodcutting_card(3, &mut rng).is_ok());
    assert_eq!(played(&gs), vec![(3, vec![4])]);
    // 4 then 5: a pair of light chops, no straight of three: "Two Pair" needs a
    // second type, so the pair of types scores nothing, and the values differ
    assert!(gs.resolve_player_woodcutting_card(4, &mut rng).is_ok());
    assert!(gs.current_encounter.is_none());
    assert_eq!(gs.encounter_phase, EncounterPhase::Scouting);
    assert_eq!(gs.encounter_results, vec![EncounterOutcome::PlayerWon]);
    assert_eq!(gs.token_balances.value(&Token::persistent(TokenType::Lumber)), 10);
}

#[test]
fn a_scored_pattern_scales_the_rewards() {
    let mut rng = Lcg64Xsh32::from_seed([4u8; 16]);
    let mut lib = woodcutting_library(&mut rng);
    lib.woodcutting_patterns = vec![rule("Pair of Types", 2, 0, 0, 0, 0, 150)];
    let mut gs = GameState::from_parts(lib, player(), rules());
    assert!(gs.start_woodcutting_encounter(6, &mut rng).is_ok());
    assert!(gs.resolve_player_woodcutting_card(3, &mut rng).is_ok());
    assert!(gs.resolve_player_woodcutting_card(4, &mut rng).is_ok());
    assert_eq!(gs.encounter_results, vec![EncounterOutcome::PlayerWon]);
    assert_eq!(gs.token_balances.value(&Token::persistent(TokenType::Lumber)), 15);
}

#[test]
fn running_out_of_durability_loses_woodcutting() {
    let mut rng = Lcg64Xsh32::from_seed([4u8; 16]);
    let mut lib = Library::new();
    let tags = vec![Discipline::Woodcutting];
    lib.add_card(
        CardKind::PlayerCardEffect {
            kind: CardEffectKind::WoodcuttingChop {
                chop_type: ChopType::LightChop,
                min_value: 1,
                max_value: 1,
                costs: vec![],
            },
        },
        counts(1, 0, 0),
        &mut rng,
        tags.clone(),
    );
    let e = ConcreteEffect {
        effect_id: 0,
        rolled_value: 100,
        rolled_costs: vec![ConcreteEffectCost { token_type: TokenType::WoodcuttingDurability, rolled_percent: 100 }],
        rolled_cap: None,
        rolled_gain_percent: None,
    };
    lib.add_card(CardKind::Woodcutting { effects: vec![e] }, counts(0, 1, 1), &mut rng, tags.clone());
    lib.add_card(
        CardKind::Encounter {
            encounter_kind: EncounterKind::Woodcutting {
                woodcutting_def: WoodcuttingDef { max_plays: 3, base_rewards: balances(&[(TokenType::Lumber, 10)]) },
            },
        },
        counts(0, 0, 1),
        &mut rng,
        tags,
    );
    let mut gs = GameState::from_parts(lib, player(), rules());
    assert!(gs.start_woodcutting_encounter(2, &mut rng).is_ok());
    assert!(gs.resolve_player_woodcutting_card(1, &mut rng).is_ok());
    assert!(gs.current_encounter.is_none());
    assert_eq!(gs.encounter_results, vec![EncounterOutcome::PlayerLost]);
    assert_eq!(gs.token_balances.value(&Token::persistent(TokenType::WoodcuttingDurability)), 0);
}

#[test]
fn woodcutting_plays_are_refused_with_their_reason() {
    let mut rng = Lcg64Xsh32::from_seed([4u8; 16]);
    let mut gs = GameState::from_parts(woodcutting_library(&mut rng), player(), rules());
    assert_eq!(gs.resolve_player_woodcutting_card(3, &mut rng), Err(WoodcuttingError::NoActiveWoodcutting));
    assert!(gs.start_woodcutting_encounter(6, &mut rng).is_ok());
    assert_eq!(gs.resolve_player_woodcutting_card(42, &mut rng), Err(WoodcuttingError::CardNotFound { card_id: 42 }));
    assert_eq!(gs.resolve_player_woodcutting_card(6, &mut rng), Err(WoodcuttingError::NotAWoodcuttingCard { card_id: 6 }));
}

#[test]
fn concluding_woodcutting_needs_a_reward() {
    let mut rng = Lcg64Xsh32::from_seed([4u8; 16]);
    let mut gs = GameState::from_parts(woodcutting_library(&mut rng), player(), rules());
    assert_eq!(gs.conclude_woodcutting_encounter(), Err(WoodcuttingError::NoActiveWoodcutting));
    assert!(gs.start_woodcutting_encounter(7, &mut rng).is_ok());
    assert_eq!(gs.conclude_woodcutting_encounter(), Err(WoodcuttingError::NoRewards));
    let mut gs = GameState::from_parts(woodcutting_library(&mut rng), player(), rules());
    assert!(gs.start_woodcutting_encounter(6, &mut rng).is_ok());
    assert!(gs.resolve_player_woodcutting_card(5, &mut rng).is_ok());
    assert!(gs.conclude_woodcutting_encounter().is_ok());
    assert_eq!(gs.encounter_results, vec![EncounterOutcome::PlayerWon]);
    assert_eq!(gs.token_balances.value(&Token::persistent(TokenType::Lumber)), 10);
}

#[test]
fn picking_a_woodcutting_encounter_starts_it() {
    let mut rng = Lcg64Xsh32::from_seed([4u8; 16]);
    let mut gs = GameState::from_parts(woodcutting_library(&mut rng), player(), rules());
    assert!(gs.handle_action(&PlayerActions::EncounterPickEncounter { card_id: 6 }, &mut rng).is_ok());
    assert!(matches!(gs.current_encounter, Some(EncounterState::Woodcutting(_))));
    assert!(gs.handle_action(&PlayerActions::EncounterPlayCard { card_id: 5 }, &mut rng).is_ok());
    assert_eq!(played(&gs), vec![(5, vec![6])]);
}

#[test]
fn scaled_rewards_round_half_away_from_zero() {
    let mut rng = Lcg64Xsh32::from_seed([4u8; 16]);
    let mut lib = woodcutting_library(&mut rng);
    lib.add_card(
        CardKind::Encounter {
            encounter_kind: EncounterKind::Woodcutting {
                woodcutting_def: WoodcuttingDef {
                    max_plays: 1,
                    base_rewards: balances(&[(TokenType::Lumber, 5), (TokenType::Stamina, -5)]),
                },
            },
        },
        counts(0, 0, 1),
        &mut rng,
        vec![Discipline::Woodcutting],
    );
    lib.woodcutting_patterns = vec![rule("Any Chop", 1, 0, 0, 0, 0, 150)];
    let mut gs = GameState::from_parts(lib, player(), rules());
    assert!(gs.start_woodcutting_encounter(8, &mut rng).is_ok());
    assert!(gs.resolve_player_woodcutting_card(3, &mut rng).is_ok());
    assert_eq!(gs.encounter_results, vec![EncounterOutcome::PlayerWon]);
    assert_eq!(gs.token_balances.value(&Token::persistent(TokenType::Lumber)), 8);
    assert_eq!(gs.token_balances.value(&Token::persistent(TokenType::Stamina)), -8);
}
