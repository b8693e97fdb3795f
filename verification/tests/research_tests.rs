use my_little_cardgame::action::{ActionError, PlayerActions};
use my_little_cardgame::library::disciplines::research::{optimal_matching, ResearchError};
use my_little_cardgame::library::game_state::{
    CombatRules, CraftingRules, GameRulesConfig, GameState, GeneralRules, ResearchRules,
};
use my_little_cardgame::library::token_map::TokenMap;
use my_little_cardgame::library::types::{
    CardCounts, CardEffectKind, CardKind, ConcreteEffect, Discipline, EncounterKind, EncounterOutcome, EncounterPhase,
    EncounterState, ResearchDef, ResearchSymbol as S, Token, TokenType,
};
use my_little_cardgame::library::Library;
use rand::SeedableRng;
use rand_pcg::Lcg64Xsh32;

fn rules() -> GameRulesConfig {
    GameRulesConfig {
        general: GeneralRules { death_reset_health: 20, death_reset_stamina: 5 },
        combat: CombatRules { milestone_insight_on_win: 100 },
        research: ResearchRules { max_hand_size: 5, base_insight_cost: 10, insight_cost_multiplier: 2 },
        crafting: CraftingRules {
            initial_draw_count: 3,
            durability_material_cost: 10,
            durability_grant: 100,
            min_craft_token_cost: 1,
            base_cost_divisor: 10,
            max_material_percent: 80,
            material_token_min: 1,
            material_token_max: 5,
            cost_reduction_floor_percent: 10,
            cost_formula_divisor: 100,
        },
    }
}

fn effect(effect_id: usize) -> ConcreteEffect {
    ConcreteEffect { effect_id, rolled_value: 0, rolled_costs: vec![], rolled_cap: None, rolled_gain_percent: None }
}

fn counts(library: u32, deck: u32, hand: u32) -> CardCounts {
    CardCounts { library, deck, hand, discard: 0 }
}

fn probe(symbols: Vec<S>) -> CardKind {
    CardKind::PlayerCardEffect { kind: CardEffectKind::ResearchProbe { symbols, costs: vec![] } }
}

/// Probes: alpha (0), beta (1). Research cards: an alpha card (2) and a beta
/// card (3), two copies each in the deck. An attack card in hand (4). A
/// research encounter of two slots (5).
fn research_library(rng: &mut Lcg64Xsh32) -> Library {
    let mut lib = Library::new();
    let tags = vec![Discipline::Research];
    lib.add_card(probe(vec![S::Alpha]), counts(1, 0, 0), rng, tags.clone());
    lib.add_card(probe(vec![S::Beta]), counts(1, 0, 0), rng, tags.clone());
    lib.add_card(CardKind::Research { effects: vec![effect(0)] }, counts(0, 2, 0), rng, tags.clone());
    lib.add_card(CardKind::Research { effects: vec![effect(1)] }, counts(0, 2, 0), rng, tags.clone());
    lib.add_card(CardKind::Attack { effects: vec![] }, counts(0, 0, 1), rng, vec![Discipline::Combat]);
    let def = ResearchDef { target_size: 2, base_insight_cost: 10, position_match_yield: 5, type_match_yield: 2 };
    lib.add_card(CardKind::Encounter { encounter_kind: EncounterKind::Research { research_def: def } }, counts(0, 0, 1), rng, tags);
    lib
}

fn player() -> TokenMap {
    let mut m = TokenMap::new();
    m.insert(Token::persistent(TokenType::Insight), 100);
    m
}

fn research(gs: &GameState) -> (u32, i64, usize) {
    match &gs.current_encounter {
        Some(EncounterState::Research(r)) => (r.rounds_played, r.accumulated_yield, r.round_history.len()),
        _ => panic!("no research encounter"),
    }
}

#[test]
fn cards_are_placed_on_the_slots_for_the_best_total() {
    let cards = vec![vec![S::Alpha], vec![S::Beta]];
    assert_eq!(optimal_matching(&cards, &vec![S::Alpha, S::Beta], 5, 2), vec![5, 5]);
    assert_eq!(optimal_matching(&cards, &vec![S::Beta, S::Alpha], 5, 2), vec![2, 2]);
    assert_eq!(optimal_matching(&cards, &vec![S::Gamma, S::Gamma], 5, 2), vec![0, 0]);
    // the alpha-beta card on its own slot beats swapping both onto type matches
    let wide = vec![vec![S::Alpha, S::Beta], vec![S::Alpha]];
    assert_eq!(optimal_matching(&wide, &vec![S::Alpha, S::Beta], 5, 2), vec![5, 0]);
    // a total that is not positive yields nothing
    assert_eq!(optimal_matching(&cards, &vec![S::Alpha, S::Beta], -5, -2), vec![0, 0]);
}

#[test]
fn an_experiment_hides_symbols_and_draws_research_cards() {
    let mut rng = Lcg64Xsh32::from_seed([9u8; 16]);
    let mut gs = GameState::from_parts(research_library(&mut rng), player(), rules());
    assert_eq!(gs.start_research_encounter(4), Err(ResearchError::NotAResearchEncounter { card_id: 4 }));
    assert_eq!(gs.research_begin_experiment(&mut rng), Err(ResearchError::NoActiveResearch));
    assert!(gs.start_research_encounter(5).is_ok());
    assert_eq!(gs.start_research_encounter(5), Err(ResearchError::AlreadyInEncounter));
    assert_eq!(gs.encounter_phase, EncounterPhase::InEncounter);
    assert!(gs.research_begin_experiment(&mut rng).is_ok());
    assert_eq!(gs.research_begin_experiment(&mut rng), Err(ResearchError::ExperimentAlreadyActive));
    match &gs.current_encounter {
        Some(EncounterState::Research(r)) => assert_eq!(r.hidden_types.as_ref().map(|h| h.len()), Some(2)),
        _ => panic!("no research encounter"),
    }
    // one copy of each research card, in library order
    assert_eq!((gs.library.cards[2].counts.deck, gs.library.cards[2].counts.hand), (1, 1));
    assert_eq!((gs.library.cards[3].counts.deck, gs.library.cards[3].counts.hand), (1, 1));
}

#[test]
fn playing_a_research_hand_pays_insight_and_keeps_the_yield() {
    let mut rng = Lcg64Xsh32::from_seed([9u8; 16]);
    let mut gs = GameState::from_parts(research_library(&mut rng), player(), rules());
    assert!(gs.start_research_encounter(5).is_ok());
    assert_eq!(gs.research_play_hand(&vec![2, 3], &mut rng), Err(ResearchError::NoActiveExperiment));
    assert!(gs.research_begin_experiment(&mut rng).is_ok());
    assert_eq!(gs.research_play_hand(&vec![2], &mut rng), Err(ResearchError::WrongHandSize { need: 2, got: 1 }));
    assert_eq!(gs.research_play_hand(&vec![2, 4], &mut rng), Err(ResearchError::NotAResearchCard { card_id: 4 }));
    assert_eq!(gs.research_play_hand(&vec![2, 2], &mut rng), Err(ResearchError::TooManyCopies { card_id: 2 }));
    assert!(gs.research_play_hand(&vec![2, 3], &mut rng).is_ok());
    assert_eq!(gs.token_balances.value(&Token::persistent(TokenType::Insight)), 90);
    let (rounds, acc, history) = research(&gs);
    assert_eq!((rounds, history), (1, 1));
    assert!(acc == 0 || acc == 2 || acc == 4 || acc == 5 || acc == 7 || acc == 10);
    // the played copies went to the discard and the last deck copies were
    // drawn; with the research deck empty, the discard returned to it
    assert_eq!(gs.library.cards[2].counts.hand, 1);
    assert_eq!(gs.library.cards[2].counts.deck, 1);
    assert_eq!(gs.library.cards[2].counts.discard, 0);
    assert!(gs.research_play_hand(&vec![2, 3], &mut rng).is_ok());
    // the second round costs twice the base
    assert_eq!(gs.token_balances.value(&Token::persistent(TokenType::Insight)), 70);
    assert_eq!(research(&gs).0, 2);
}

#[test]
fn concluding_an_experiment_returns_the_research_cards() {
    let mut rng = Lcg64Xsh32::from_seed([9u8; 16]);
    let mut gs = GameState::from_parts(research_library(&mut rng), player(), rules());
    assert!(gs.start_research_encounter(5).is_ok());
    assert_eq!(gs.research_conclude_experiment(&mut rng), Err(ResearchError::NoActiveExperiment));
    assert!(gs.research_begin_experiment(&mut rng).is_ok());
    assert!(gs.research_conclude_experiment(&mut rng).is_ok());
    // nothing yielded: the experiment is lost
    assert_eq!(gs.encounter_results, vec![EncounterOutcome::PlayerLost]);
    assert_eq!(gs.library.cards[2].counts.deck, 2);
    assert_eq!(gs.library.cards[2].counts.hand, 0);
    assert!(gs.current_encounter.is_none());
}

#[test]
fn research_encounters_conclude_and_abort_as_won() {
    let mut rng = Lcg64Xsh32::from_seed([9u8; 16]);
    let mut gs = GameState::from_parts(research_library(&mut rng), player(), rules());
    assert_eq!(gs.conclude_research_encounter(), Err(ResearchError::NoActiveResearch));
    assert!(gs.start_research_encounter(5).is_ok());
    assert!(gs.conclude_research_encounter().is_ok());
    assert!(gs.start_research_encounter(5).is_ok());
    assert!(gs.research_begin_experiment(&mut rng).is_ok());
    gs.abort_research_encounter();
    assert_eq!(gs.encounter_results, vec![EncounterOutcome::PlayerWon, EncounterOutcome::PlayerWon]);
    assert_eq!(gs.library.cards[3].counts.deck, 2);
}

#[test]
fn a_research_hand_needs_the_rounds_insight() {
    let mut rng = Lcg64Xsh32::from_seed([9u8; 16]);
    let mut gs = GameState::from_parts(research_library(&mut rng), TokenMap::new(), rules());
    assert!(gs.start_research_encounter(5).is_ok());
    assert!(gs.research_begin_experiment(&mut rng).is_ok());
    assert_eq!(gs.research_play_hand(&vec![2, 3], &mut rng), Err(ResearchError::InsufficientInsight { need: 10, have: 0 }));
}

#[test]
fn a_research_project_is_chosen_selected_and_completed() {
    let mut rng = Lcg64Xsh32::from_seed([9u8; 16]);
    let mut gs = GameState::from_parts(research_library(&mut rng), player(), rules());
    assert_eq!(gs.research_choose_project(Discipline::Research, 1, &mut rng), Err(ResearchError::NoActiveResearch));
    assert!(gs.start_research_encounter(5).is_ok());
    assert_eq!(gs.research_progress(5, &mut rng), Err(ResearchError::NoActiveProject));
    assert_eq!(gs.research_choose_project(Discipline::Research, 0, &mut rng), Err(ResearchError::InvalidTier));
    assert_eq!(
        gs.research_choose_project(Discipline::Fishing, 1, &mut rng),
        Err(ResearchError::NoEffectsForDiscipline)
    );
    assert_eq!(
        gs.research_choose_project(Discipline::Research, 5, &mut rng),
        Err(ResearchError::InsufficientInsight { need: 160, have: 100 })
    );
    assert!(gs.research_choose_project(Discipline::Research, 1, &mut rng).is_ok());
    assert_eq!(gs.token_balances.value(&Token::persistent(TokenType::Insight)), 90);
    match &gs.current_encounter {
        Some(EncounterState::Research(r)) => {
            let cs = r.candidates.as_ref().expect("candidates drawn");
            assert_eq!(cs.len(), 3);
            for c in cs {
                assert_eq!(c.tier_count, 1);
                assert_eq!(c.effects.len(), 1);
                assert!(c.effects[0].effect_id <= 1);
            }
        }
        _ => panic!("no research encounter"),
    }
    assert_eq!(gs.research_select_candidate(3), Err(ResearchError::InvalidCandidate { index: 3 }));
    assert!(gs.research_select_candidate(0).is_ok());
    let p = gs.current_research.as_ref().expect("a project");
    assert_eq!((p.progress, p.total_cost), (0, 20));
    assert_eq!(gs.research_progress(0, &mut rng), Err(ResearchError::NonPositiveAmount));
    // at most a third of the total (rounded up) per action
    assert!(gs.research_progress(50, &mut rng).is_ok());
    assert_eq!(gs.current_research.as_ref().map(|p| p.progress), Some(7));
    assert_eq!(gs.token_balances.value(&Token::persistent(TokenType::Insight)), 83);
    assert!(gs.research_progress(7, &mut rng).is_ok());
    // the last step spends only what the project still needs, and the
    // finished project joins the library as an attack card
    assert!(gs.research_progress(50, &mut rng).is_ok());
    assert!(gs.current_research.is_none());
    assert_eq!(gs.token_balances.value(&Token::persistent(TokenType::Insight)), 70);
    assert_eq!(gs.library.cards.len(), 7);
    assert!(matches!(gs.library.cards[6].kind, CardKind::Attack { .. }));
    assert_eq!(gs.library.cards[6].discipline_tags, vec![Discipline::Research]);
}

#[test]
fn research_runs_through_the_player_actions() {
    let mut rng = Lcg64Xsh32::from_seed([9u8; 16]);
    let mut gs = GameState::from_parts(research_library(&mut rng), player(), rules());
    assert_eq!(
        gs.handle_action(&PlayerActions::ResearchBeginExperiment, &mut rng),
        Err(ActionError::Research(ResearchError::NoActiveResearch))
    );
    assert!(gs.handle_action(&PlayerActions::EncounterPickEncounter { card_id: 5 }, &mut rng).is_ok());
    // the encounter card went from the area hand to the discard
    assert_eq!((gs.library.cards[5].counts.hand, gs.library.cards[5].counts.discard), (0, 1));
    assert!(gs.possible_actions().iter().any(|a| matches!(a, PlayerActions::ResearchPlayHand { .. })));
    assert!(gs.handle_action(&PlayerActions::ResearchBeginExperiment, &mut rng).is_ok());
    assert_eq!(
        gs.handle_action(&PlayerActions::ResearchPlayHand { card_ids: vec![2] }, &mut rng),
        Err(ActionError::Research(ResearchError::WrongHandSize { need: 2, got: 1 }))
    );
    assert!(gs.handle_action(&PlayerActions::ResearchPlayHand { card_ids: vec![2, 3] }, &mut rng).is_ok());
    assert_eq!(gs.token_balances.value(&Token::persistent(TokenType::Insight)), 90);
    assert!(gs.handle_action(&PlayerActions::ResearchConcludeExperiment, &mut rng).is_ok());
    assert!(gs.current_encounter.is_none());
    assert_eq!(gs.encounter_phase, EncounterPhase::Scouting);
    assert_eq!(gs.library.cards[2].counts.deck, 2);
    assert_eq!(
        gs.handle_action(&PlayerActions::ResearchConcludeExperiment, &mut rng),
        Err(ActionError::Research(ResearchError::NoActiveExperiment))
    );
}

#[test]
fn a_research_encounter_is_aborted_as_won_through_the_player_actions() {
    let mut rng = Lcg64Xsh32::from_seed([9u8; 16]);
    let mut gs = GameState::from_parts(research_library(&mut rng), player(), rules());
    assert!(gs.handle_action(&PlayerActions::EncounterPickEncounter { card_id: 5 }, &mut rng).is_ok());
    assert!(gs.handle_action(&PlayerActions::ResearchBeginExperiment, &mut rng).is_ok());
    assert!(gs.handle_action(&PlayerActions::EncounterAbort, &mut rng).is_ok());
    assert_eq!(gs.encounter_results, vec![EncounterOutcome::PlayerWon]);
    assert_eq!(gs.library.cards[3].counts.deck, 2);
    assert_eq!(gs.handle_action(&PlayerActions::EncounterConclude, &mut rng), Err(ActionError::NothingToConclude));
}

#[test]
fn a_research_project_runs_through_the_player_actions() {
    let mut rng = Lcg64Xsh32::from_seed([9u8; 16]);
    let mut gs = GameState::from_parts(research_library(&mut rng), player(), rules());
    assert!(gs.handle_action(&PlayerActions::EncounterPickEncounter { card_id: 5 }, &mut rng).is_ok());
    assert_eq!(
        gs.handle_action(&PlayerActions::ResearchSelectCandidate { candidate_index: 0 }, &mut rng),
        Err(ActionError::Research(ResearchError::NoCandidates))
    );
    let choose = PlayerActions::ResearchChooseProject { discipline: Discipline::Research, tier_count: 1 };
    assert!(gs.handle_action(&choose, &mut rng).is_ok());
    assert!(gs.handle_action(&PlayerActions::ResearchSelectCandidate { candidate_index: 2 }, &mut rng).is_ok());
    assert_eq!(
        gs.handle_action(&PlayerActions::ResearchProgress { amount: -1 }, &mut rng),
        Err(ActionError::Research(ResearchError::NonPositiveAmount))
    );
    assert!(gs.handle_action(&PlayerActions::ResearchProgress { amount: 3 }, &mut rng).is_ok());
    assert_eq!(gs.current_research.as_ref().map(|p| (p.progress, p.total_cost)), Some((3, 20)));
    assert_eq!(gs.token_balances.value(&Token::persistent(TokenType::Insight)), 87);
}
