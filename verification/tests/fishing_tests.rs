use my_little_cardgame::action::PlayerActions;
use my_little_cardgame::library::disciplines::fishing::{choose_fishing_value, FishingError};
use my_little_cardgame::library::game_state::{
    CombatRules, CraftingRules, GameRulesConfig, GameState, GeneralRules, ResearchRules,
};
use my_little_cardgame::library::token_map::TokenMap;
use my_little_cardgame::library::types::{
    CardCounts, CardEffectKind, CardKind, ConcreteEffect, ConcreteEffectCost, DeckCounts, Discipline, EffectTarget,
    EncounterKind, EncounterOutcome, EncounterPhase, EncounterState, FishCard, FishingDef, Token, TokenLifecycle, TokenType,
};
use my_little_cardgame::library::Library;
use rand::SeedableRng;
use rand_pcg::Lcg64Xsh32;

fn rules() -> GameRulesConfig {
    GameRulesConfig {
        general: GeneralRules { death_reset_health: 20, death_reset_stamina: 5 },
        combat: CombatRules { milestone_insight_on_win: 100 },
        research: ResearchRules { max_hand_size: 5, base_insight_cost: 10, insight_cost_multiplier: 2 },
        crafting: CraftingRules {
            initial_draw_count: 3,
            durability_material_cost: 10,
            durability_grant: 100,
            min_craft_token_cost: 1,
            base_cost_divisor: 10,
            max_material_percent: 80,
            material_token_min: 1,
            material_token_max: 5,
            cost_reduction_floor_percent: 10,
            cost_formula_divisor: 100,
        },
    }
}

fn effect(effect_id: usize, value: i64) -> ConcreteEffect {
    ConcreteEffect { effect_id, rolled_value: value, rolled_costs: vec![], rolled_cap: None, rolled_gain_percent: None }
}

fn counts(library: u32, deck: u32, hand: u32) -> CardCounts {
    CardCounts { library, deck, hand, discard: 0 }
}

fn balances(pairs: &[(TokenType, i64)]) -> TokenMap {
    let mut m = TokenMap::new();
    for (t, v) in pairs {
        m.insert(Token::persistent(*t), *v);
    }
    m
}

/// Templates: a fishing value (0), a fish amount gain (1), insight (2).
/// Fishing cards: value 8 (3), values 20 and 6 (4), two more fish (5 is the
/// encounter), value 100 (7), value 5 paid with 5 fishing durability (8).
/// The encounter (5): range 2..=6, three rounds, two wins needed, one fish
/// of value 3 in hand, a reward of 4 fish.
fn fishing_library(rng: &mut Lcg64Xsh32) -> Library {
    let mut lib = Library::new();
    lib.add_card(
        CardKind::PlayerCardEffect { kind: CardEffectKind::FishingValue { min: 1, max: 100, costs: vec![] } },
        counts(1, 0, 0),
        rng,
        vec![Discipline::Fishing],
    );
    lib.add_card(
        CardKind::PlayerCardEffect {
            kind: CardEffectKind::GainTokens {
                target: EffectTarget::OnSelf,
                token_type: TokenType::FishAmount,
                cap_min: 10,
                cap_max: 10,
                gain_min_percent: 100,
                gain_max_percent: 100,
                costs: vec![],
                duration: TokenLifecycle::PersistentCounter,
            },
        },
        counts(1, 0, 0),
        rng,
        vec![Discipline::Fishing],
    );
    lib.add_card(CardKind::PlayerCardEffect { kind: CardEffectKind::Insight { min: 1, max: 5 } }, counts(1, 0, 0), rng, vec![]);
    lib.add_card(CardKind::Fishing { effects: vec![effect(0, 8)] }, counts(0, 1, 1), rng, vec![Discipline::Fishing]);
    lib.add_card(CardKind::Fishing { effects: vec![effect(0, 20), effect(0, 6)] }, counts(0, 0, 1), rng, vec![Discipline::Fishing]);
    let def = FishingDef {
        valid_range_min: 2,
        valid_range_max: 6,
        max_turns: 3,
        win_turns_needed: 2,
        fish_deck: vec![FishCard { value: 3, effects: vec![], counts: DeckCounts { deck: 0, hand: 1, discard: 0 } }],
        rewards: balances(&[(TokenType::Fish, 4)]),
    };
    lib.add_card(
        CardKind::Encounter { encounter_kind: EncounterKind::Fishing { fishing_def: def } },
        counts(0, 0, 1),
        rng,
        vec![Discipline::Fishing],
    );
    lib.add_card(CardKind::Fishing { effects: vec![effect(1, 2), effect(2, 3)] }, counts(0, 0, 1), rng, vec![Discipline::Fishing]);
    lib.add_card(CardKind::Fishing { effects: vec![effect(0, 100)] }, counts(0, 0, 1), rng, vec![Discipline::Fishing]);
    let worn = ConcreteEffect {
        effect_id: 0,
        rolled_value: 5,
        rolled_costs: vec![ConcreteEffectCost { token_type: TokenType::FishingDurability, rolled_percent: 100 }],
        rolled_cap: None,
        rolled_gain_percent: None,
    };
    lib.add_card(CardKind::Fishing { effects: vec![worn] }, counts(0, 0, 1), rng, vec![Discipline::Fishing]);
    lib
}

fn player() -> TokenMap {
    balances(&[
        (TokenType::Health, 20),
        (TokenType::FishingDurability, 100),
        (TokenType::FishingMaxHand, 6),
    ])
}

fn fishing(gs: &GameState) -> (u64, u32, Option<i64>) {
    match &gs.current_encounter {
        Some(EncounterState::Fishing(f)) => (f.round, f.turns_won, f.current_fish_value),
        _ => panic!("no fishing encounter"),
    }
}

#[test]
fn fishing_encounter_starts_from_its_definition() {
    let mut rng = Lcg64Xsh32::from_seed([3u8; 16]);
    let mut gs = GameState::from_parts(fishing_library(&mut rng), player(), rules());
    assert_eq!(gs.start_fishing_encounter(99, &mut rng), Err(FishingError::CardNotFound { card_id: 99 }));
    assert_eq!(gs.start_fishing_encounter(3, &mut rng), Err(FishingError::NotAFishingEncounter { card_id: 3 }));
    assert!(gs.start_fishing_encounter(5, &mut rng).is_ok());
    assert_eq!(gs.encounter_phase, EncounterPhase::InEncounter);
    assert_eq!(fishing(&gs), (1, 0, Some(3)));
    match &gs.current_encounter {
        Some(EncounterState::Fishing(f)) => {
            assert_eq!(f.encounter_tokens.value(&Token::persistent(TokenType::FishingRangeMin)), 2);
            assert_eq!(f.encounter_tokens.value(&Token::persistent(TokenType::FishingRangeMax)), 6);
            assert_eq!(f.encounter_tokens.value(&Token::persistent(TokenType::FishAmount)), 1);
        },
        _ => panic!("no fishing encounter"),
    }
    // the hand of five fishing cards is refilled to six from the deck
    assert_eq!(gs.library.cards[3].counts.hand, 2);
}

#[test]
fn two_won_rounds_land_the_fish() {
    let mut rng = Lcg64Xsh32::from_seed([3u8; 16]);
    let mut gs = GameState::from_parts(fishing_library(&mut rng), player(), rules());
    assert!(gs.start_fishing_encounter(5, &mut rng).is_ok());
    // 8 against the fish 3 catches 5, inside 2..=6
    assert!(gs.resolve_player_fishing_card(3, &mut rng).is_ok());
    assert_eq!(fishing(&gs), (2, 1, Some(3)));
    // of 20 and 6, only 6 (catch 3) lies in range: the second win
    assert!(gs.resolve_player_fishing_card(4, &mut rng).is_ok());
    assert!(gs.current_encounter.is_none());
    assert_eq!(gs.encounter_phase, EncounterPhase::Scouting);
    assert_eq!(gs.encounter_results, vec![EncounterOutcome::PlayerWon]);
    assert_eq!(gs.token_balances.value(&Token::persistent(TokenType::Fish)), 4);
}

#[test]
fn the_fish_amount_scales_the_rewards() {
    let mut rng = Lcg64Xsh32::from_seed([3u8; 16]);
    let mut gs = GameState::from_parts(fishing_library(&mut rng), player(), rules());
    assert!(gs.start_fishing_encounter(5, &mut rng).is_ok());
    // a card without fishing values: the round passes, two more fish, insight
    assert!(gs.resolve_player_fishing_card(6, &mut rng).is_ok());
    assert_eq!(fishing(&gs), (2, 0, Some(3)));
    assert_eq!(gs.token_balances.value(&Token::persistent(TokenType::Insight)), 3);
    assert!(gs.resolve_player_fishing_card(3, &mut rng).is_ok());
    assert!(gs.resolve_player_fishing_card(4, &mut rng).is_ok());
    assert_eq!(gs.encounter_results, vec![EncounterOutcome::PlayerWon]);
    assert_eq!(gs.token_balances.value(&Token::persistent(TokenType::Fish)), 12);
}

#[test]
fn running_out_of_rounds_loses() {
    let mut rng = Lcg64Xsh32::from_seed([3u8; 16]);
    let mut gs = GameState::from_parts(fishing_library(&mut rng), player(), rules());
    assert!(gs.start_fishing_encounter(5, &mut rng).is_ok());
    // 100 against 3 catches 97: out of range every time
    assert!(gs.resolve_player_fishing_card(7, &mut rng).is_ok());
    assert!(gs.resolve_player_fishing_card(7, &mut rng).is_ok());
    assert_eq!(fishing(&gs), (3, 0, Some(3)));
    assert!(gs.resolve_player_fishing_card(7, &mut rng).is_ok());
    assert!(gs.current_encounter.is_none());
    assert_eq!(gs.encounter_results, vec![EncounterOutcome::PlayerLost]);
    assert_eq!(gs.token_balances.value(&Token::persistent(TokenType::Fish)), 0);
}

#[test]
fn spent_durability_loses_the_encounter() {
    let mut rng = Lcg64Xsh32::from_seed([3u8; 16]);
    let mut tokens = player();
    tokens.insert(Token::persistent(TokenType::FishingDurability), 3);
    let mut gs = GameState::from_parts(fishing_library(&mut rng), tokens, rules());
    assert!(gs.start_fishing_encounter(5, &mut rng).is_ok());
    assert!(gs.resolve_player_fishing_card(8, &mut rng).is_ok());
    assert_eq!(gs.token_balances.value(&Token::persistent(TokenType::FishingDurability)), 0);
    assert!(gs.current_encounter.is_none());
    assert_eq!(gs.encounter_results, vec![EncounterOutcome::PlayerLost]);
}

#[test]
fn fishing_plays_are_refused_with_their_reason() {
    let mut rng = Lcg64Xsh32::from_seed([3u8; 16]);
    let mut gs = GameState::from_parts(fishing_library(&mut rng), player(), rules());
    assert_eq!(gs.resolve_player_fishing_card(3, &mut rng), Err(FishingError::NoActiveFishing));
    assert_eq!(gs.conclude_fishing_encounter(), Err(FishingError::NoActiveFishing));
    assert!(gs.start_fishing_encounter(5, &mut rng).is_ok());
    assert_eq!(gs.resolve_player_fishing_card(99, &mut rng), Err(FishingError::CardNotFound { card_id: 99 }));
    assert_eq!(gs.resolve_player_fishing_card(0, &mut rng), Err(FishingError::NotAFishingCard { card_id: 0 }));
    assert_eq!(fishing(&gs), (1, 0, Some(3)));
}

#[test]
fn concluding_wins_only_with_enough_rounds_won() {
    let mut rng = Lcg64Xsh32::from_seed([3u8; 16]);
    let mut gs = GameState::from_parts(fishing_library(&mut rng), player(), rules());
    assert!(gs.start_fishing_encounter(5, &mut rng).is_ok());
    assert!(gs.resolve_player_fishing_card(3, &mut rng).is_ok());
    assert!(gs.conclude_fishing_encounter().is_ok());
    assert_eq!(gs.encounter_results, vec![EncounterOutcome::PlayerLost]);
    assert_eq!(gs.token_balances.value(&Token::persistent(TokenType::Fish)), 0);
}

#[test]
fn the_best_fishing_value_is_played() {
    // catches 17, 3 and 1 against range 2..=6: only 6 wins
    assert_eq!(choose_fishing_value(&vec![20, 6, 4], 3, 2, 6), 6);
    // catches 4 and 2: the one closest to the bottom of the range
    assert_eq!(choose_fishing_value(&vec![7, 5], 3, 2, 6), 5);
    // equally close: the first
    assert_eq!(choose_fishing_value(&vec![5, 5, 9], 3, 2, 6), 5);
    // none wins: the first value
    assert_eq!(choose_fishing_value(&vec![50, 60], 3, 2, 6), 50);
}

#[test]
fn fishing_through_actions() {
    let mut rng = Lcg64Xsh32::from_seed([3u8; 16]);
    let mut gs = GameState::from_parts(fishing_library(&mut rng), player(), rules());
    assert!(gs.handle_action(&PlayerActions::EncounterPickEncounter { card_id: 5 }, &mut rng).is_ok());
    assert!(matches!(gs.current_encounter, Some(EncounterState::Fishing(_))));
    assert!(gs.handle_action(&PlayerActions::EncounterPlayCard { card_id: 3 }, &mut rng).is_ok());
    assert_eq!(fishing(&gs).1, 1);
    assert!(gs.handle_action(&PlayerActions::EncounterPlayCard { card_id: 4 }, &mut rng).is_ok());
    assert_eq!(gs.encounter_results, vec![EncounterOutcome::PlayerWon]);
    assert_eq!(gs.token_balances.value(&Token::persistent(TokenType::Fish)), 4);
}
