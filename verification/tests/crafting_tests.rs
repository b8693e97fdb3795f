use my_little_cardgame::action::{ActionError, PlayerActions};
use my_little_cardgame::library::costs::CostError;
use my_little_cardgame::library::disciplines::crafting::CraftingError;
use my_little_cardgame::library::game_state::{
    CombatRules, CraftingRules, GameRulesConfig, GameState, GeneralRules, ResearchRules,
};
use my_little_cardgame::library::token_map::TokenMap;
use my_little_cardgame::library::types::{
    CardCounts, CardEffectKind, CardKind, ConcreteEffect, ConcreteEffectCost, CraftingDef, DeckCounts, Discipline,
    EffectTarget, EncounterKind, EncounterOutcome, EncounterPhase, EncounterState, EnemyCraftingCard, Token,
    TokenLifecycle, TokenType,
};
use my_little_cardgame::library::Library;
use rand::SeedableRng;
use rand_pcg::Lcg64Xsh32;

fn rules() -> GameRulesConfig {
    GameRulesConfig {
        general: GeneralRules { death_reset_health: 20, death_reset_stamina: 5 },
        combat: CombatRules { milestone_insight_on_win: 100 },
        research: ResearchRules { max_hand_size: 5, base_insight_cost: 10, insight_cost_multiplier: 2 },
        crafting: CraftingRules {
            initial_draw_count: 3,
            durability_material_cost: 10,
            durability_grant: 100,
            min_craft_token_cost: 1,
            base_cost_divisor: 10,
            max_material_percent: 80,
            material_token_min: 1,
            material_token_max: 5,
            cost_reduction_floor_percent: 10,
            cost_formula_divisor: 100,
        },
    }
}

fn effect(effect_id: usize, value: i64) -> ConcreteEffect {
    ConcreteEffect { effect_id, rolled_value: value, rolled_costs: vec![], rolled_cap: None, rolled_gain_percent: None }
}

fn gain(token_type: TokenType) -> CardEffectKind {
    CardEffectKind::GainTokens {
        target: EffectTarget::OnSelf,
        token_type,
        cap_min: 100,
        cap_max: 100,
        gain_min_percent: 100,
        gain_max_percent: 100,
        costs: vec![],
        duration: TokenLifecycle::PersistentCounter,
    }
}

fn counts(library: u32, deck: u32, hand: u32) -> CardCounts {
    CardCounts { library, deck, hand, discard: 0 }
}

/// Templates: stamina gain (0), enemy ore increase (1), insight (2); an
/// attack card (3) crafted for 150 ore and 60 plant; a crafting card (4)
/// giving 5 stamina and 2 insight; a crafting encounter (5) holding
/// `tokens` crafting tokens; a defence card (6) in the library; a crafting
/// card (7) costing 30 stamina.
fn crafting_library(rng: &mut Lcg64Xsh32, tokens: i64) -> Library {
    let mut lib = Library::new();
    lib.add_card(CardKind::PlayerCardEffect { kind: gain(TokenType::Stamina) }, counts(1, 0, 0), rng, vec![Discipline::Crafting]);
    lib.add_card(CardKind::EnemyCardEffect { kind: gain(TokenType::Ore) }, counts(1, 0, 0), rng, vec![Discipline::Crafting]);
    lib.add_card(CardKind::PlayerCardEffect { kind: CardEffectKind::Insight { min: 1, max: 5 } }, counts(1, 0, 0), rng, vec![]);
    lib.add_card(CardKind::Attack { effects: vec![effect(0, 40)] }, counts(0, 1, 0), rng, vec![Discipline::Combat]);
    lib.cards[3].crafting_cost = vec![(TokenType::Ore, 150), (TokenType::Plant, 60)];
    lib.add_card(CardKind::Crafting { effects: vec![effect(0, 5), effect(2, 2)] }, counts(0, 3, 0), rng, vec![Discipline::Crafting]);
    let def = CraftingDef {
        initial_crafting_tokens: tokens,
        enemy_crafting_deck: vec![EnemyCraftingCard {
            increases: vec![],
            effects: vec![effect(1, 20)],
            counts: DeckCounts { deck: 2, hand: 0, discard: 0 },
        }],
    };
    lib.add_card(
        CardKind::Encounter { encounter_kind: EncounterKind::Crafting { crafting_def: def } },
        counts(0, 0, 1),
        rng,
        vec![Discipline::Crafting],
    );
    lib.add_card(CardKind::Defence { effects: vec![effect(0, 10)] }, counts(1, 0, 0), rng, vec![Discipline::Combat]);
    let costly = ConcreteEffect {
        effect_id: 0,
        rolled_value: 30,
        rolled_costs: vec![ConcreteEffectCost { token_type: TokenType::Stamina, rolled_percent: 100 }],
        rolled_cap: None,
        rolled_gain_percent: None,
    };
    lib.add_card(CardKind::Crafting { effects: vec![costly] }, counts(0, 0, 1), rng, vec![Discipline::Crafting]);
    lib
}

fn player() -> TokenMap {
    let mut m = TokenMap::new();
    for (t, v) in [
        (TokenType::Ore, 200),
        (TokenType::Plant, 100),
        (TokenType::Lumber, 60),
        (TokenType::MiningDurability, 10),
        (TokenType::CraftingMaxHand, 5),
    ] {
        m.insert(Token::persistent(t), v);
    }
    m
}

fn value(gs: &GameState, t: TokenType) -> i64 {
    gs.token_balances.value(&Token::persistent(t))
}

fn crafting_tokens(gs: &GameState) -> i64 {
    match &gs.current_encounter {
        Some(EncounterState::Crafting(c)) => c.crafting_tokens,
        _ => panic!("no crafting encounter"),
    }
}

fn started(seed: u8, tokens: i64) -> (GameState, Lcg64Xsh32) {
    let mut rng = Lcg64Xsh32::from_seed([seed; 16]);
    let lib = crafting_library(&mut rng, tokens);
    let mut gs = GameState::from_parts(lib, player(), rules());
    assert!(gs.start_crafting_encounter(5, &mut rng).is_ok());
    (gs, rng)
}

#[test]
fn crafting_encounter_starts_from_its_definition() {
    let mut rng = Lcg64Xsh32::from_seed([1u8; 16]);
    let lib = crafting_library(&mut rng, 5);
    let mut gs = GameState::from_parts(lib, player(), rules());
    assert_eq!(gs.start_crafting_encounter(99, &mut rng), Err(CraftingError::CardNotFound { card_id: 99 }));
    assert_eq!(gs.start_crafting_encounter(3, &mut rng), Err(CraftingError::NotACraftingEncounter { card_id: 3 }));
    assert!(gs.start_crafting_encounter(5, &mut rng).is_ok());
    assert_eq!(gs.encounter_phase, EncounterPhase::InEncounter);
    match &gs.current_encounter {
        Some(EncounterState::Crafting(c)) => {
            assert_eq!(c.round, 0);
            assert_eq!(c.crafting_tokens, 5);
            assert_eq!(c.outcome, EncounterOutcome::Undecided);
            assert!(c.active_craft.is_none());
            assert_eq!(c.enemy_crafting_deck[0].counts.deck, 2);
        },
        _ => panic!("no crafting encounter"),
    }
    // the player drew the three crafting cards of the deck; the encounter card went to the discard
    assert_eq!(gs.library.cards[4].counts.hand, 3);
    assert_eq!(gs.library.cards[5].counts.discard, 1);
    assert_eq!(gs.start_crafting_encounter(5, &mut rng), Err(CraftingError::AlreadyInEncounter));
}

#[test]
fn swapping_moves_a_deck_card_to_the_library() {
    let (mut gs, _rng) = started(2, 5);
    assert_eq!(gs.resolve_crafting_swap(99, 6), Err(CraftingError::CardNotFound { card_id: 99 }));
    assert_eq!(gs.resolve_crafting_swap(5, 6), Err(CraftingError::NotAPlayerCard { card_id: 5 }));
    assert_eq!(gs.resolve_crafting_swap(6, 3), Err(CraftingError::NotInDeckOrDiscard { card_id: 6 }));
    assert_eq!(gs.resolve_crafting_swap(3, 5), Err(CraftingError::NotAPlayerCard { card_id: 5 }));
    assert!(gs.resolve_crafting_swap(3, 6).is_ok());
    assert_eq!(gs.library.cards[3].counts.deck, 0);
    assert_eq!(gs.library.cards[3].counts.library, 1);
    assert_eq!(gs.library.cards[6].counts.library, 0);
    assert_eq!(gs.library.cards[6].counts.deck, 1);
    assert_eq!(crafting_tokens(&gs), 4);
    assert_eq!(gs.resolve_crafting_swap(6, 6), Err(CraftingError::NotInLibrary { card_id: 6 }));
}

#[test]
fn durability_is_bought_with_materials() {
    let (mut gs, _rng) = started(3, 5);
    assert!(gs.resolve_crafting_add_durability("Mining").is_ok());
    assert_eq!(value(&gs, TokenType::Ore), 150);
    assert_eq!(value(&gs, TokenType::MiningDurability), 510);
    assert!(gs.resolve_crafting_add_durability("Herbalism").is_ok());
    assert_eq!(value(&gs, TokenType::Lumber), 10);
    assert_eq!(value(&gs, TokenType::HerbalismDurability), 500);
    assert_eq!(crafting_tokens(&gs), 3);
    assert_eq!(gs.resolve_crafting_add_durability("Cooking"), Err(CraftingError::UnknownDiscipline));
    assert_eq!(
        gs.resolve_crafting_add_durability("Woodcutting"),
        Err(CraftingError::NotEnoughMaterials { need: 50, have: 10 })
    );
}

#[test]
fn spending_the_last_token_without_a_craft_wins() {
    let (mut gs, _rng) = started(4, 1);
    assert!(gs.resolve_crafting_add_durability("Fishing").is_ok());
    assert_eq!(value(&gs, TokenType::FishingDurability), 500);
    assert!(gs.current_encounter.is_none());
    assert_eq!(gs.encounter_phase, EncounterPhase::Scouting);
    assert_eq!(gs.encounter_results, vec![EncounterOutcome::PlayerWon]);
    assert_eq!(gs.resolve_crafting_add_durability("Mining"), Err(CraftingError::NoActiveCrafting));
}

#[test]
fn a_craft_runs_until_the_tokens_run_out() {
    let (mut gs, mut rng) = started(5, 5);
    assert_eq!(gs.resolve_crafting_play_card(4, &mut rng), Err(CraftingError::NoActiveCraft));
    assert_eq!(gs.resolve_crafting_start_craft(5), Err(CraftingError::NotAPlayerCard { card_id: 5 }));
    // 210 of materials: 3 tokens
    assert!(gs.resolve_crafting_start_craft(3).is_ok());
    assert_eq!(crafting_tokens(&gs), 2);
    assert_eq!(gs.resolve_crafting_start_craft(3), Err(CraftingError::CraftInProgress));
    assert_eq!(gs.abort_crafting_encounter(), Err(CraftingError::CraftInProgress));
    assert_eq!(gs.resolve_crafting_play_card(3, &mut rng), Err(CraftingError::NotACraftingCard { card_id: 3 }));
    assert!(gs.resolve_crafting_play_card(4, &mut rng).is_ok());
    assert_eq!(value(&gs, TokenType::Stamina), 5);
    assert_eq!(value(&gs, TokenType::Insight), 2);
    match &gs.current_encounter {
        Some(EncounterState::Crafting(c)) => {
            assert_eq!(c.crafting_tokens, 1);
            assert_eq!(c.round, 1);
            // the enemy raised the ore cost by 20
            assert_eq!(c.active_craft.as_ref().unwrap().current_costs, vec![(TokenType::Ore, 170), (TokenType::Plant, 60)]);
            assert_eq!(c.active_craft.as_ref().unwrap().original_costs, vec![(TokenType::Ore, 150), (TokenType::Plant, 60)]);
        },
        _ => panic!("no crafting encounter"),
    }
    // the last token: the ore cost reaches 190, paid from 200 ore and 100 plant
    assert!(gs.resolve_crafting_play_card(4, &mut rng).is_ok());
    assert!(gs.current_encounter.is_none());
    assert_eq!(gs.encounter_results, vec![EncounterOutcome::PlayerWon]);
    assert_eq!(value(&gs, TokenType::Ore), 10);
    assert_eq!(value(&gs, TokenType::Plant), 40);
    assert_eq!(gs.library.cards[3].counts.library, 1);
}

#[test]
fn an_unpaid_craft_is_lost_on_concluding() {
    let (mut gs, _rng) = started(6, 5);
    assert!(gs.resolve_crafting_start_craft(3).is_ok());
    gs.token_balances.insert(Token::persistent(TokenType::Ore), 100);
    assert!(gs.conclude_crafting_encounter().is_ok());
    assert_eq!(gs.encounter_results, vec![EncounterOutcome::PlayerLost]);
    assert_eq!(value(&gs, TokenType::Ore), 100);
    assert_eq!(value(&gs, TokenType::Plant), 100);
    assert_eq!(gs.library.cards[3].counts.library, 0);
    assert_eq!(gs.conclude_crafting_encounter(), Err(CraftingError::NoActiveCrafting));
}

#[test]
fn crafting_card_costs_are_checked_first() {
    let (mut gs, mut rng) = started(7, 5);
    assert!(gs.resolve_crafting_start_craft(3).is_ok());
    assert_eq!(
        gs.resolve_crafting_play_card(7, &mut rng),
        Err(CraftingError::Cost(CostError::Insufficient { token_type: TokenType::Stamina, need: 30, have: 0 }))
    );
    assert_eq!(crafting_tokens(&gs), 2);
}

#[test]
fn aborting_without_a_craft_wins() {
    let (mut gs, _rng) = started(8, 5);
    assert!(gs.abort_crafting_encounter().is_ok());
    assert!(gs.current_encounter.is_none());
    assert_eq!(gs.last_encounter_result, Some(EncounterOutcome::PlayerWon));
}

#[test]
fn crafting_runs_through_the_player_actions() {
    let mut rng = Lcg64Xsh32::from_seed([3u8; 16]);
    let lib = crafting_library(&mut rng, 5);
    let mut gs = GameState::from_parts(lib, player(), rules());
    assert!(gs.handle_action(&PlayerActions::EncounterPickEncounter { card_id: 5 }, &mut rng).is_ok());
    assert!(matches!(gs.current_encounter, Some(EncounterState::Crafting(_))));
    assert_eq!(gs.library.cards[5].counts.discard, 1);
    assert_eq!(crafting_tokens(&gs), 5);
    // the attack card leaves the deck for the defence card of the library
    assert!(gs.handle_action(&PlayerActions::EncounterCraftSwap { from_id: 3, to_id: 6 }, &mut rng).is_ok());
    assert_eq!(crafting_tokens(&gs), 4);
    assert_eq!(gs.library.cards[6].counts.deck, 1);
    assert_eq!(
        gs.handle_action(&PlayerActions::EncounterCraftDurability { discipline: "Cooking".to_string() }, &mut rng),
        Err(ActionError::Crafting(CraftingError::UnknownDiscipline))
    );
    assert!(gs.handle_action(&PlayerActions::EncounterConclude, &mut rng).is_ok());
    assert!(gs.current_encounter.is_none());
    assert_eq!(gs.encounter_results, vec![EncounterOutcome::PlayerWon]);
}

#[test]
fn a_crafting_encounter_is_aborted_as_won_and_concluding_needs_an_encounter() {
    let mut rng = Lcg64Xsh32::from_seed([3u8; 16]);
    let lib = crafting_library(&mut rng, 5);
    let mut gs = GameState::from_parts(lib, player(), rules());
    assert_eq!(gs.handle_action(&PlayerActions::EncounterConclude, &mut rng), Err(ActionError::NothingToConclude));
    assert!(gs.handle_action(&PlayerActions::EncounterPickEncounter { card_id: 5 }, &mut rng).is_ok());
    assert!(gs.handle_action(&PlayerActions::EncounterAbort, &mut rng).is_ok());
    assert_eq!(gs.encounter_results, vec![EncounterOutcome::PlayerWon]);
    assert_eq!(gs.encounter_phase, EncounterPhase::Scouting);
}
