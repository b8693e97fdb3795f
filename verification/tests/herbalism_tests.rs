use my_little_cardgame::action::PlayerActions;
use my_little_cardgame::library::disciplines::herbalism::{select_targets, HerbalismError};
use my_little_cardgame::library::game_state::{
    CombatRules, CraftingRules, GameRulesConfig, GameState, GeneralRules, ResearchRules,
};
use my_little_cardgame::library::token_map::TokenMap;
use my_little_cardgame::library::types::{
    CardCounts, CardEffectKind, CardKind, ConcreteEffect, DeckCounts, Discipline, EffectTarget, EncounterKind,
    EncounterOutcome, EncounterPhase, EncounterState, HerbalismDef, HerbalismMatchMode, PlantCard, PlantCharacteristic as C,
    Token, TokenLifecycle, TokenType,
};
use my_little_cardgame::library::Library;
use rand::SeedableRng;
use rand_pcg::Lcg64Xsh32;

fn rules() -> GameRulesConfig {
    GameRulesConfig {
        general: GeneralRules { death_reset_health: 20, death_reset_stamina: 5 },
        combat: CombatRules { milestone_insight_on_win: 100 },
        research: ResearchRules { max_hand_size: 5, base_insight_cost: 10, insight_cost_multiplier: 2 },
        crafting: CraftingRules {
            initial_draw_count: 3,
            durability_material_cost: 10,
            durability_grant: 100,
            min_craft_token_cost: 1,
            base_cost_divisor: 10,
            max_material_percent: 80,
            material_token_min: 1,
            material_token_max: 5,
            cost_reduction_floor_percent: 10,
            cost_formula_divisor: 100,
        },
    }
}

fn effect(effect_id: usize, value: i64) -> ConcreteEffect {
    ConcreteEffect { effect_id, rolled_value: value, rolled_costs: vec![], rolled_cap: None, rolled_gain_percent: None }
}

fn counts(library: u32, deck: u32, hand: u32) -> CardCounts {
    CardCounts { library, deck, hand, discard: 0 }
}

fn balances(pairs: &[(TokenType, i64)]) -> TokenMap {
    let mut m = TokenMap::new();
    for (t, v) in pairs {
        m.insert(Token::persistent(*t), *v);
    }
    m
}

fn plant(cs: &[C]) -> PlantCard {
    PlantCard { characteristics: cs.to_vec(), effects: vec![], counts: DeckCounts { deck: 0, hand: 1, discard: 0 } }
}

/// Four plants: thorny and aromatic (0), fragile and bitter (1), luminous
/// and thorny (2), aromatic (3).
fn plants() -> Vec<PlantCard> {
    vec![plant(&[C::Thorny, C::Aromatic]), plant(&[C::Fragile, C::Bitter]), plant(&[C::Luminous, C::Thorny]), plant(&[C::Aromatic])]
}

fn matcher(mode: HerbalismMatchMode) -> CardKind {
    CardKind::PlayerCardEffect { kind: CardEffectKind::HerbalismMatch { match_mode: mode, costs: vec![] } }
}

/// Templates: or-thorny (0), and-fragile-bitter (1), most common of one (2),
/// a stamina gain (3), or-thorny-aromatic-bitter (4). Herbalism cards using
/// them: 5, 6, 7, 8, 9. Encounters: 10 (rewards 5 plant), 11 (no rewards).
fn herbalism_library(rng: &mut Lcg64Xsh32) -> Library {
    let mut lib = Library::new();
    let tags = vec![Discipline::Herbalism];
    lib.add_card(matcher(HerbalismMatchMode::Or { types: vec![C::Thorny] }), counts(1, 0, 0), rng, tags.clone());
    lib.add_card(matcher(HerbalismMatchMode::And { types: vec![C::Fragile, C::Bitter] }), counts(1, 0, 0), rng, tags.clone());
    lib.add_card(matcher(HerbalismMatchMode::MostCommon { limit: 1, types: vec![] }), counts(1, 0, 0), rng, tags.clone());
    lib.add_card(
        CardKind::PlayerCardEffect {
            kind: CardEffectKind::GainTokens {
                target: EffectTarget::OnSelf,
                token_type: TokenType::Stamina,
                cap_min: 10,
                cap_max: 10,
                gain_min_percent: 100,
                gain_max_percent: 100,
                costs: vec![],
                duration: TokenLifecycle::PersistentCounter,
            },
        },
        counts(1, 0, 0),
        rng,
        tags.clone(),
    );
    lib.add_card(
        matcher(HerbalismMatchMode::Or { types: vec![C::Thorny, C::Aromatic, C::Bitter] }),
        counts(1, 0, 0),
        rng,
        tags.clone(),
    );
    for t in 0..5usize {
        let e = if t == 3 { effect(3, 4) } else { effect(t, 0) };
        lib.add_card(CardKind::Herbalism { effects: vec![e] }, counts(0, 1, 1), rng, tags.clone());
    }
    lib.add_card(
        CardKind::Encounter {
            encounter_kind: EncounterKind::Herbalism {
                herbalism_def: HerbalismDef { plant_hand: plants(), rewards: balances(&[(TokenType::Plant, 5)]) },
            },
        },
        counts(0, 0, 1),
        rng,
        tags.clone(),
    );
    lib.add_card(
        CardKind::Encounter {
            encounter_kind: EncounterKind::Herbalism { herbalism_def: HerbalismDef { plant_hand: plants(), rewards: TokenMap::new() } },
        },
        counts(0, 0, 1),
        rng,
        tags,
    );
    lib
}

fn player() -> TokenMap {
    balances(&[(TokenType::Health, 20), (TokenType::HerbalismDurability, 100), (TokenType::HerbalismMaxHand, 10)])
}

fn hand_of_plants(gs: &GameState) -> Vec<u32> {
    match &gs.current_encounter {
        Some(EncounterState::Herbalism(h)) => h.plant_hand.iter().map(|p| p.counts.hand).collect(),
        _ => panic!("no herbalism encounter"),
    }
}

fn round(gs: &GameState) -> u64 {
    match &gs.current_encounter {
        Some(EncounterState::Herbalism(h)) => h.round,
        _ => panic!("no herbalism encounter"),
    }
}

#[test]
fn herbalism_encounter_starts_from_its_definition() {
    let mut rng = Lcg64Xsh32::from_seed([4u8; 16]);
    let mut gs = GameState::from_parts(herbalism_library(&mut rng), player(), rules());
    assert_eq!(gs.start_herbalism_encounter(99, &mut rng), Err(HerbalismError::CardNotFound { card_id: 99 }));
    assert_eq!(gs.start_herbalism_encounter(5, &mut rng), Err(HerbalismError::NotAnHerbalismEncounter { card_id: 5 }));
    assert!(gs.start_herbalism_encounter(10, &mut rng).is_ok());
    assert_eq!(gs.encounter_phase, EncounterPhase::InEncounter);
    assert_eq!(hand_of_plants(&gs), vec![1, 1, 1, 1]);
    assert_eq!(round(&gs), 1);
}

#[test]
fn the_last_plant_standing_is_gathered() {
    let mut rng = Lcg64Xsh32::from_seed([4u8; 16]);
    let mut gs = GameState::from_parts(herbalism_library(&mut rng), player(), rules());
    assert!(gs.start_herbalism_encounter(10, &mut rng).is_ok());
    // thorny plants go: 0 and 2
    assert!(gs.resolve_player_herbalism_card(5, &mut rng).is_ok());
    assert_eq!(hand_of_plants(&gs), vec![0, 1, 0, 1]);
    assert_eq!(round(&gs), 2);
    // the fragile and bitter plant goes; the aromatic one is left alone
    assert!(gs.resolve_player_herbalism_card(6, &mut rng).is_ok());
    assert!(gs.current_encounter.is_none());
    assert_eq!(gs.encounter_phase, EncounterPhase::Scouting);
    assert_eq!(gs.encounter_results, vec![EncounterOutcome::PlayerWon]);
    assert_eq!(gs.token_balances.value(&Token::persistent(TokenType::Plant)), 5);
}

#[test]
fn removing_every_plant_loses() {
    let mut rng = Lcg64Xsh32::from_seed([4u8; 16]);
    let mut gs = GameState::from_parts(herbalism_library(&mut rng), player(), rules());
    assert!(gs.start_herbalism_encounter(10, &mut rng).is_ok());
    assert!(gs.resolve_player_herbalism_card(9, &mut rng).is_ok());
    assert!(gs.current_encounter.is_none());
    assert_eq!(gs.encounter_results, vec![EncounterOutcome::PlayerLost]);
    assert_eq!(gs.token_balances.value(&Token::persistent(TokenType::Plant)), 0);
}

#[test]
fn the_most_common_characteristic_is_removed() {
    let mut rng = Lcg64Xsh32::from_seed([4u8; 16]);
    let mut gs = GameState::from_parts(herbalism_library(&mut rng), player(), rules());
    assert!(gs.start_herbalism_encounter(10, &mut rng).is_ok());
    // thorny and aromatic both occur twice: one of them goes
    assert!(gs.resolve_player_herbalism_card(7, &mut rng).is_ok());
    let h = hand_of_plants(&gs);
    assert_eq!(h.iter().sum::<u32>(), 2);
    assert_eq!(h[0], 0);
    assert_eq!(h[1], 1);
}

#[test]
fn a_card_without_a_match_only_grants_its_gains() {
    let mut rng = Lcg64Xsh32::from_seed([4u8; 16]);
    let mut gs = GameState::from_parts(herbalism_library(&mut rng), player(), rules());
    assert!(gs.start_herbalism_encounter(10, &mut rng).is_ok());
    assert!(gs.resolve_player_herbalism_card(8, &mut rng).is_ok());
    assert_eq!(hand_of_plants(&gs), vec![1, 1, 1, 1]);
    assert_eq!(round(&gs), 1);
    assert_eq!(gs.token_balances.value(&Token::persistent(TokenType::Stamina)), 4);
}

#[test]
fn herbalism_plays_are_refused_with_their_reason() {
    let mut rng = Lcg64Xsh32::from_seed([4u8; 16]);
    let mut gs = GameState::from_parts(herbalism_library(&mut rng), player(), rules());
    assert_eq!(gs.resolve_player_herbalism_card(5, &mut rng), Err(HerbalismError::NoActiveHerbalism));
    assert_eq!(gs.conclude_herbalism_encounter(), Err(HerbalismError::NoActiveHerbalism));
    assert!(gs.start_herbalism_encounter(10, &mut rng).is_ok());
    assert_eq!(gs.resolve_player_herbalism_card(99, &mut rng), Err(HerbalismError::CardNotFound { card_id: 99 }));
    assert_eq!(gs.resolve_player_herbalism_card(0, &mut rng), Err(HerbalismError::NotAnHerbalismCard { card_id: 0 }));
    assert_eq!(hand_of_plants(&gs), vec![1, 1, 1, 1]);
}

#[test]
fn concluding_needs_a_reward() {
    let mut rng = Lcg64Xsh32::from_seed([4u8; 16]);
    let mut gs = GameState::from_parts(herbalism_library(&mut rng), player(), rules());
    assert!(gs.start_herbalism_encounter(11, &mut rng).is_ok());
    assert_eq!(gs.conclude_herbalism_encounter(), Err(HerbalismError::NoRewards));
    assert!(gs.current_encounter.is_some());
    let mut gs = GameState::from_parts(herbalism_library(&mut rng), player(), rules());
    assert!(gs.start_herbalism_encounter(10, &mut rng).is_ok());
    assert!(gs.conclude_herbalism_encounter().is_ok());
    assert_eq!(gs.encounter_results, vec![EncounterOutcome::PlayerWon]);
    assert_eq!(gs.token_balances.value(&Token::persistent(TokenType::Plant)), 5);
}

#[test]
fn targets_are_the_most_or_least_common() {
    let mut rng = Lcg64Xsh32::from_seed([4u8; 16]);
    let mut most = select_targets(&plants(), 2, true, &mut rng);
    most.sort_by_key(|c| *c as u8);
    assert_eq!(most, vec![C::Thorny, C::Aromatic]);
    let mut least = select_targets(&plants(), 3, false, &mut rng);
    least.sort_by_key(|c| *c as u8);
    assert_eq!(least, vec![C::Fragile, C::Bitter, C::Luminous]);
    // a limit above the characteristics present takes them all
    assert_eq!(select_targets(&plants(), 9, true, &mut rng).len(), 5);
}

#[test]
fn herbalism_through_actions() {
    let mut rng = Lcg64Xsh32::from_seed([4u8; 16]);
    let mut gs = GameState::from_parts(herbalism_library(&mut rng), player(), rules());
    assert!(gs.handle_action(&PlayerActions::EncounterPickEncounter { card_id: 10 }, &mut rng).is_ok());
    assert!(matches!(gs.current_encounter, Some(EncounterState::Herbalism(_))));
    assert!(gs.handle_action(&PlayerActions::EncounterPlayCard { card_id: 5 }, &mut rng).is_ok());
    assert!(gs.handle_action(&PlayerActions::EncounterPlayCard { card_id: 6 }, &mut rng).is_ok());
    assert_eq!(gs.encounter_results, vec![EncounterOutcome::PlayerWon]);
}
