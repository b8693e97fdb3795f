use my_little_cardgame::action::{ActionError, PlayerActions};
use my_little_cardgame::library::costs::CostError;
use my_little_cardgame::library::disciplines::mining::MiningError;
use my_little_cardgame::library::game_state::{
    CombatRules, CraftingRules, GameRulesConfig, GameState, GeneralRules, ResearchRules,
};
use my_little_cardgame::library::token_map::TokenMap;
use my_little_cardgame::library::types::{
    CardCounts, CardEffectKind, CardKind, ConcreteEffect, ConcreteEffectCost, DeckCounts, Discipline, EffectTarget,
    EncounterKind, EncounterOutcome, EncounterPhase, EncounterState, MiningDef, OreCard, Token, TokenLifecycle, TokenType,
};
use my_little_cardgame::library::Library;
use rand::SeedableRng;
use rand_pcg::Lcg64Xsh32;

fn rules() -> GameRulesConfig {
    GameRulesConfig {
        general: GeneralRules { death_reset_health: 20, death_reset_stamina: 5 },
        combat: CombatRules { milestone_insight_on_win: 100 },
        research: ResearchRules { max_hand_size: 5, base_insight_cost: 10, insight_cost_multiplier: 2 },
        crafting: CraftingRules {
            initial_draw_count: 3,
            durability_material_cost: 10,
            durability_grant: 100,
            min_craft_token_cost: 1,
            base_cost_divisor: 10,
            max_material_percent: 80,
            material_token_min: 1,
            material_token_max: 5,
            cost_reduction_floor_percent: 10,
            cost_formula_divisor: 100,
        },
    }
}

fn effect(effect_id: usize, value: i64) -> ConcreteEffect {
    ConcreteEffect { effect_id, rolled_value: value, rolled_costs: vec![], rolled_cap: None, rolled_gain_percent: None }
}

fn gain(token_type: TokenType) -> CardKind {
    CardKind::PlayerCardEffect {
        kind: CardEffectKind::GainTokens {
            target: EffectTarget::OnSelf,
            token_type,
            cap_min: 100,
            cap_max: 100,
            gain_min_percent: 100,
            gain_max_percent: 100,
            costs: vec![],
            duration: TokenLifecycle::PersistentCounter,
        },
    }
}

fn counts(library: u32, deck: u32, hand: u32) -> CardCounts {
    CardCounts { library, deck, hand, discard: 0 }
}

/// Templates: mining power (0), light (1), ore strike on durability (2),
/// insight (3); a mining card (4) raising the light by 30 and then mining
/// with power 50; a mining encounter (5) at light 20 whose ore hits for
/// `ore_damage`; a mining card (6) that costs 30 stamina.
fn mining_library(rng: &mut Lcg64Xsh32, ore_damage: i64) -> Library {
    let mut lib = Library::new();
    lib.add_card(gain(TokenType::MiningPower), counts(1, 0, 0), rng, vec![Discipline::Mining]);
    lib.add_card(gain(TokenType::MiningLightLevel), counts(1, 0, 0), rng, vec![Discipline::Mining]);
    lib.add_card(
        CardKind::EnemyCardEffect {
            kind: CardEffectKind::LoseTokens {
                target: EffectTarget::OnOpponent,
                token_type: TokenType::Durability,
                min: 1,
                max: 10,
                costs: vec![],
                duration: TokenLifecycle::PersistentCounter,
            },
        },
        counts(1, 0, 0),
        rng,
        vec![Discipline::Mining],
    );
    lib.add_card(CardKind::PlayerCardEffect { kind: CardEffectKind::Insight { min: 1, max: 5 } }, counts(1, 0, 0), rng, vec![]);
    lib.add_card(CardKind::Mining { effects: vec![effect(1, 30), effect(0, 50)] }, counts(0, 1, 1), rng, vec![Discipline::Mining]);
    let def = MiningDef {
        initial_light_level: 20,
        ore_deck: vec![OreCard {
            damages: vec![],
            effects: vec![effect(2, ore_damage)],
            counts: DeckCounts { deck: 1, hand: 1, discard: 0 },
        }],
    };
    lib.add_card(
        CardKind::Encounter { encounter_kind: EncounterKind::Mining { mining_def: def } },
        counts(0, 0, 1),
        rng,
        vec![Discipline::Mining],
    );
    let costly = ConcreteEffect {
        effect_id: 0,
        rolled_value: 30,
        rolled_costs: vec![ConcreteEffectCost { token_type: TokenType::Stamina, rolled_percent: 100 }],
        rolled_cap: None,
        rolled_gain_percent: None,
    };
    lib.add_card(CardKind::Mining { effects: vec![costly] }, counts(0, 0, 1), rng, vec![Discipline::Mining]);
    lib
}

fn balances(pairs: &[(TokenType, i64)]) -> TokenMap {
    let mut m = TokenMap::new();
    for (t, v) in pairs {
        m.insert(Token::persistent(*t), *v);
    }
    m
}

fn player() -> TokenMap {
    balances(&[
        (TokenType::Health, 20),
        (TokenType::MiningDurability, 100),
        (TokenType::Stamina, 10),
        (TokenType::MiningMaxHand, 5),
    ])
}

fn mining_tokens(gs: &GameState) -> (i64, i64) {
    match &gs.current_encounter {
        Some(EncounterState::Mining(m)) => (
            m.encounter_tokens.value(&Token::persistent(TokenType::MiningLightLevel)),
            m.encounter_tokens.value(&Token::persistent(TokenType::MiningYield)),
        ),
        _ => panic!("no mining encounter"),
    }
}

#[test]
fn mining_encounter_starts_from_its_definition() {
    let mut rng = Lcg64Xsh32::from_seed([5u8; 16]);
    let mut gs = GameState::from_parts(mining_library(&mut rng, 5), player(), rules());
    assert_eq!(gs.start_mining_encounter(99, &mut rng), Err(MiningError::CardNotFound { card_id: 99 }));
    assert_eq!(gs.start_mining_encounter(4, &mut rng), Err(MiningError::NotAMiningEncounter { card_id: 4 }));
    assert!(gs.current_encounter.is_none());
    assert!(gs.start_mining_encounter(5, &mut rng).is_ok());
    assert_eq!(gs.encounter_phase, EncounterPhase::InEncounter);
    assert_eq!(mining_tokens(&gs), (20, 0));
    match &gs.current_encounter {
        Some(EncounterState::Mining(m)) => {
            assert_eq!(m.round, 1);
            assert_eq!(m.encounter_card_id, 5);
            assert_eq!(m.outcome, EncounterOutcome::Undecided);
            let c = m.ore_deck[0].counts;
            assert_eq!(c.deck + c.hand + c.discard, 2);
        },
        _ => panic!("no mining encounter"),
    }
}

#[test]
fn mining_power_turns_light_into_yield() {
    let mut rng = Lcg64Xsh32::from_seed([5u8; 16]);
    let mut gs = GameState::from_parts(mining_library(&mut rng, 5), player(), rules());
    assert!(gs.start_mining_encounter(5, &mut rng).is_ok());
    // light 20 + 30 = 50, then power 50 mines 50 * 50 / 100 = 25
    assert!(gs.resolve_player_mining_card(4, &mut rng).is_ok());
    assert_eq!(mining_tokens(&gs), (50, 25));
    // the ore struck back on the mining durability
    assert_eq!(gs.token_balances.value(&Token::persistent(TokenType::MiningDurability)), 95);
    match &gs.current_encounter {
        Some(EncounterState::Mining(m)) => assert_eq!(m.round, 2),
        _ => panic!("no mining encounter"),
    }
}

#[test]
fn mining_power_alone_uses_the_starting_light() {
    let mut rng = Lcg64Xsh32::from_seed([7u8; 16]);
    let mut lib = mining_library(&mut rng, 0);
    lib.add_card(CardKind::Mining { effects: vec![effect(0, 50), effect(3, 2)] }, counts(0, 0, 1), &mut rng, vec![]);
    let mut gs = GameState::from_parts(lib, player(), rules());
    assert!(gs.start_mining_encounter(5, &mut rng).is_ok());
    // power 50 at light 20 mines 10; the insight goes to the player
    assert!(gs.resolve_player_mining_card(7, &mut rng).is_ok());
    assert_eq!(mining_tokens(&gs), (20, 10));
    assert_eq!(gs.token_balances.value(&Token::persistent(TokenType::Insight)), 2);
}

#[test]
fn mining_plays_are_refused_with_their_reason() {
    let mut rng = Lcg64Xsh32::from_seed([5u8; 16]);
    let mut gs = GameState::from_parts(mining_library(&mut rng, 5), player(), rules());
    assert_eq!(gs.resolve_player_mining_card(4, &mut rng), Err(MiningError::NoActiveMining));
    assert!(gs.start_mining_encounter(5, &mut rng).is_ok());
    assert_eq!(gs.resolve_player_mining_card(99, &mut rng), Err(MiningError::CardNotFound { card_id: 99 }));
    assert_eq!(gs.resolve_player_mining_card(0, &mut rng), Err(MiningError::NotAMiningCard { card_id: 0 }));
    // 30 stamina is needed and 10 is there: nothing changes
    assert_eq!(
        gs.resolve_player_mining_card(6, &mut rng),
        Err(MiningError::Cost(CostError::Insufficient { token_type: TokenType::Stamina, need: 30, have: 10 }))
    );
    assert_eq!(mining_tokens(&gs), (20, 0));
    assert_eq!(gs.token_balances.value(&Token::persistent(TokenType::Stamina)), 10);
}

#[test]
fn ore_hits_stop_at_zero_and_end_the_encounter() {
    let mut rng = Lcg64Xsh32::from_seed([5u8; 16]);
    let mut tokens = player();
    tokens.insert(Token::persistent(TokenType::MiningDurability), 3);
    let mut gs = GameState::from_parts(mining_library(&mut rng, 5), tokens, rules());
    assert!(gs.start_mining_encounter(5, &mut rng).is_ok());
    assert!(gs.resolve_player_mining_card(4, &mut rng).is_ok());
    assert_eq!(gs.token_balances.value(&Token::persistent(TokenType::MiningDurability)), 0);
    assert!(gs.current_encounter.is_none());
    assert_eq!(gs.encounter_phase, EncounterPhase::Scouting);
    assert_eq!(gs.encounter_results, vec![EncounterOutcome::PlayerLost]);
    assert_eq!(gs.last_encounter_result, Some(EncounterOutcome::PlayerLost));
}

#[test]
fn concluding_pays_the_yield_in_stamina() {
    let mut rng = Lcg64Xsh32::from_seed([5u8; 16]);
    let mut gs = GameState::from_parts(mining_library(&mut rng, 5), player(), rules());
    assert_eq!(gs.conclude_mining_encounter(), Err(MiningError::NoActiveMining));
    assert!(gs.start_mining_encounter(5, &mut rng).is_ok());
    assert!(gs.resolve_player_mining_card(4, &mut rng).is_ok());
    assert_eq!(mining_tokens(&gs), (50, 25));
    // the yield is 25 and the stamina 10: 10 ore, all the stamina spent
    assert!(gs.conclude_mining_encounter().is_ok());
    assert_eq!(gs.token_balances.value(&Token::persistent(TokenType::Ore)), 10);
    assert_eq!(gs.token_balances.value(&Token::persistent(TokenType::Stamina)), 0);
    assert!(gs.current_encounter.is_none());
    assert_eq!(gs.encounter_results, vec![EncounterOutcome::PlayerWon]);
    assert_eq!(gs.conclude_mining_encounter(), Err(MiningError::NoActiveMining));
}

#[test]
fn mining_through_actions() {
    let mut rng = Lcg64Xsh32::from_seed([5u8; 16]);
    let mut gs = GameState::from_parts(mining_library(&mut rng, 5), player(), rules());
    assert!(gs.handle_action(&PlayerActions::EncounterPickEncounter { card_id: 5 }, &mut rng).is_ok());
    assert!(matches!(gs.current_encounter, Some(EncounterState::Mining(_))));
    // only mining cards are played in a mining encounter
    assert_eq!(
        gs.handle_action(&PlayerActions::EncounterPlayCard { card_id: 5 }, &mut rng),
        Err(ActionError::NotInHand { card_id: 5 })
    );
    assert!(gs.handle_action(&PlayerActions::EncounterPlayCard { card_id: 4 }, &mut rng).is_ok());
    assert_eq!(mining_tokens(&gs), (50, 25));
    // an unpaid card still goes to the discard; the play is answered
    assert!(gs.handle_action(&PlayerActions::EncounterPlayCard { card_id: 6 }, &mut rng).is_ok());
    assert_eq!(gs.library.cards[6].counts.hand, 0);
    assert!(gs.handle_action(&PlayerActions::EncounterAbort, &mut rng).is_ok());
    assert_eq!(gs.encounter_results, vec![EncounterOutcome::PlayerLost]);
}

#[test]
fn durability_costs_do_not_make_a_card_unpayable() {
    let mut rng = Lcg64Xsh32::from_seed([9u8; 16]);
    let mut lib = Library::new();
    lib.add_card(gain(TokenType::MiningPower), counts(1, 0, 0), &mut rng, vec![Discipline::Mining]);
    lib.add_card(
        CardKind::EnemyCardEffect {
            kind: CardEffectKind::LoseTokens {
                target: EffectTarget::OnOpponent,
                token_type: TokenType::Durability,
                min: 0,
                max: 0,
                costs: vec![],
                duration: TokenLifecycle::PersistentCounter,
            },
        },
        counts(1, 0, 0),
        &mut rng,
        vec![Discipline::Mining],
    );
    lib.add_card(CardKind::Mining { effects: vec![effect(0, 10)] }, counts(0, 0, 1), &mut rng, vec![]);
    let stamina_cost = ConcreteEffect {
        effect_id: 0,
        rolled_value: 30,
        rolled_costs: vec![ConcreteEffectCost { token_type: TokenType::Stamina, rolled_percent: 100 }],
        rolled_cap: None,
        rolled_gain_percent: None,
    };
    lib.add_card(CardKind::Mining { effects: vec![stamina_cost] }, counts(0, 0, 1), &mut rng, vec![]);
    let durability_cost = ConcreteEffect {
        effect_id: 0,
        rolled_value: 500,
        rolled_costs: vec![ConcreteEffectCost { token_type: TokenType::MiningDurability, rolled_percent: 100 }],
        rolled_cap: None,
        rolled_gain_percent: None,
    };
    lib.add_card(CardKind::Mining { effects: vec![durability_cost] }, counts(0, 0, 1), &mut rng, vec![]);
    let def = MiningDef {
        initial_light_level: 20,
        ore_deck: vec![OreCard { damages: vec![], effects: vec![effect(1, 0)], counts: DeckCounts { deck: 0, hand: 1, discard: 0 } }],
    };
    lib.add_card(CardKind::Encounter { encounter_kind: EncounterKind::Mining { mining_def: def } }, counts(0, 0, 1), &mut rng, vec![]);
    let tokens = balances(&[
        (TokenType::Health, 20),
        (TokenType::MiningDurability, 100),
        (TokenType::Stamina, 10),
        (TokenType::MiningMaxHand, 2),
    ]);
    let mut gs = GameState::from_parts(lib, tokens, rules());
    assert!(gs.start_mining_encounter(5, &mut rng).is_ok());
    assert!(gs.resolve_player_mining_card(2, &mut rng).is_ok());
    // card 3 cannot be paid, card 4 costs only durability: the encounter goes on
    assert!(gs.current_encounter.is_some());
    // card 4 itself is refused when played: its durability cost is checked then
    assert_eq!(
        gs.resolve_player_mining_card(4, &mut rng),
        Err(MiningError::Cost(CostError::Insufficient { token_type: TokenType::MiningDurability, need: 500, have: 100 }))
    );
}
