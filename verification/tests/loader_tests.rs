use my_little_cardgame::actions_log::{select_log_entries, LogEntryKey, LogQuery};
use my_little_cardgame::library::config::{
    CardEffectConfig, CardEntry, CombatantConfig, ConfigError, DisciplineConfig, EffectOwner, EncounterCardConfig,
    EncounterDefConfig, EnemyDeckEntryConfig, PlayerCardConfig, PlayerCardKind, TokensConfig,
};
use my_little_cardgame::library::config_loader::{load_discipline_config, load_library, EffectNameMap, LoadError};
use my_little_cardgame::library::game_state::{CombatRules, CraftingRules, GameRulesConfig, GameState, GeneralRules, ResearchRules};
use my_little_cardgame::library::token_map::TokenMap;
use my_little_cardgame::library::types::{
    CardCounts, CardEffectCost, CardEffectKind, CardKind, DeckCounts, Discipline, EffectTarget, EncounterKind, RestDef,
    Token, TokenLifecycle, TokenType,
};
use my_little_cardgame::library::Library;
use my_little_cardgame::version::{config_hash, version_info};
use rand::SeedableRng;
use rand_pcg::Lcg64Xsh32;

fn rng() -> Lcg64Xsh32 {
    Lcg64Xsh32::from_seed([7u8; 16])
}

fn damage(min: i64, max: i64) -> CardEffectKind {
    CardEffectKind::LoseTokens {
        target: EffectTarget::OnOpponent,
        token_type: TokenType::Health,
        min,
        max,
        costs: vec![],
        duration: TokenLifecycle::PersistentCounter,
    }
}

fn effect_entry(name: &str, owner: EffectOwner, kind: CardEffectKind) -> CardEntry {
    CardEntry::Effect(CardEffectConfig {
        name: name.to_string(),
        owner,
        kind,
        counts: CardCounts { library: 1, deck: 0, hand: 0, discard: 0 },
        valid_disciplines: vec![Discipline::Combat],
    })
}

fn attack_card(refs: &[&str]) -> CardEntry {
    CardEntry::PlayerCard(PlayerCardConfig {
        card_kind: PlayerCardKind::Attack,
        effect_refs: refs.iter().map(|s| s.to_string()).collect(),
        counts: CardCounts { library: 0, deck: 10, hand: 5, discard: 0 },
        valid_disciplines: vec![Discipline::Combat],
    })
}

fn combat_encounter(refs: &[&str]) -> CardEntry {
    CardEntry::Encounter(EncounterCardConfig {
        encounter_def: EncounterDefConfig::Combat {
            combatant: CombatantConfig {
                initial_tokens: vec![(TokenType::Health, 30)],
                attack_deck: vec![EnemyDeckEntryConfig {
                    effect_refs: refs.iter().map(|s| s.to_string()).collect(),
                    counts: DeckCounts { deck: 3, hand: 1, discard: 0 },
                }],
                defence_deck: vec![],
                resource_deck: vec![],
            },
        },
        counts: CardCounts { library: 0, deck: 2, hand: 1, discard: 0 },
        valid_disciplines: vec![],
    })
}

fn combat_config() -> DisciplineConfig {
    DisciplineConfig {
        cards: vec![
            effect_entry("hit", EffectOwner::Player, damage(5, 9)),
            effect_entry("bite", EffectOwner::Enemy, damage(2, 4)),
            attack_card(&["combat:hit", "combat:hit"]),
            combat_encounter(&["combat:bite"]),
        ],
    }
}

fn rules() -> GameRulesConfig {
    GameRulesConfig {
        general: GeneralRules { death_reset_health: 20, death_reset_stamina: 10 },
        combat: CombatRules { milestone_insight_on_win: 1 },
        research: ResearchRules { max_hand_size: 5, base_insight_cost: 10, insight_cost_multiplier: 2 },
        crafting: CraftingRules {
            initial_draw_count: 3,
            durability_material_cost: 1,
            durability_grant: 1,
            min_craft_token_cost: 1,
            base_cost_divisor: 1,
            max_material_percent: 50,
            material_token_min: 1,
            material_token_max: 5,
            cost_reduction_floor_percent: 10,
            cost_formula_divisor: 1,
        },
    }
}

#[test]
fn loading_a_discipline_names_templates_and_rolls_cards() {
    let mut lib = Library::new();
    let mut names = EffectNameMap::new();
    let mut r = rng();
    let config = combat_config();
    assert!(load_discipline_config(&mut lib, &mut r, &config, "combat", &mut names).is_ok());
    assert_eq!(lib.cards.len(), 4);
    assert_eq!(names.get(&"combat:hit".to_string()), Some(0));
    assert_eq!(names.get(&"combat:bite".to_string()), Some(1));
    assert_eq!(names.get(&"hit".to_string()), None);
    assert!(matches!(lib.cards[0].kind, CardKind::PlayerCardEffect { .. }));
    assert!(matches!(lib.cards[1].kind, CardKind::EnemyCardEffect { .. }));
    match &lib.cards[2].kind {
        CardKind::Attack { effects } => {
            assert_eq!(effects.len(), 2);
            for e in effects {
                assert_eq!(e.effect_id, 0);
                assert!(5 <= e.rolled_value && e.rolled_value <= 9);
            }
        }
        other => panic!("expected an attack card, got {:?}", other),
    }
    assert_eq!(lib.cards[2].counts.deck, 10);
    match &lib.cards[3].kind {
        CardKind::Encounter { encounter_kind: EncounterKind::Combat { combatant_def } } => {
            assert_eq!(combatant_def.initial_tokens.len(), 1);
            assert_eq!(combatant_def.initial_tokens[0].1, 30);
            assert!(combatant_def.initial_tokens[0].0.equals(&Token::persistent(TokenType::Health)));
            assert_eq!(combatant_def.attack_deck.len(), 1);
            assert_eq!(combatant_def.attack_deck[0].effects[0].effect_id, 1);
            assert!(2 <= combatant_def.attack_deck[0].effects[0].rolled_value);
            assert!(combatant_def.attack_deck[0].effects[0].rolled_value <= 4);
        }
        other => panic!("expected a combat encounter, got {:?}", other),
    }
}

#[test]
fn unknown_effect_names_are_refused() {
    let mut lib = Library::new();
    let mut names = EffectNameMap::new();
    let mut r = rng();
    let config = DisciplineConfig { cards: vec![attack_card(&["combat:missing"])] };
    match load_discipline_config(&mut lib, &mut r, &config, "combat", &mut names) {
        Err(ConfigError::UnknownEffect { name }) => assert_eq!(name, "combat:missing"),
        other => panic!("expected an unknown effect, got {:?}", other),
    }
}

#[test]
fn a_gain_paid_in_its_own_token_is_refused() {
    let mut lib = Library::new();
    let mut names = EffectNameMap::new();
    let mut r = rng();
    let kind = CardEffectKind::GainTokens {
        target: EffectTarget::OnSelf,
        token_type: TokenType::Stamina,
        cap_min: 10,
        cap_max: 20,
        gain_min_percent: 100,
        gain_max_percent: 100,
        costs: vec![CardEffectCost { token_type: TokenType::Stamina, min_percent: 10, max_percent: 20 }],
        duration: TokenLifecycle::PersistentCounter,
    };
    let config = DisciplineConfig { cards: vec![effect_entry("loop", EffectOwner::Player, kind)] };
    match load_discipline_config(&mut lib, &mut r, &config, "shared", &mut names) {
        Err(ConfigError::GainPaysItself { name }) => assert_eq!(name, "loop"),
        other => panic!("expected a refusal, got {:?}", other),
    }
}

#[test]
fn research_cards_are_loaded_with_their_effects() {
    let mut lib = Library::new();
    let mut names = EffectNameMap::new();
    let mut r = rng();
    let card = CardEntry::PlayerCard(PlayerCardConfig {
        card_kind: PlayerCardKind::Research,
        effect_refs: vec![],
        counts: CardCounts { library: 1, deck: 0, hand: 0, discard: 0 },
        valid_disciplines: vec![],
    });
    let config = DisciplineConfig { cards: vec![card] };
    assert!(load_discipline_config(&mut lib, &mut r, &config, "research", &mut names).is_ok());
    assert_eq!(lib.cards.len(), 1);
    assert!(matches!(&lib.cards[0].kind, CardKind::Research { effects } if effects.is_empty()));
}

#[test]
fn later_names_shadow_earlier_ones() {
    let mut names = EffectNameMap::new();
    names.insert("a".to_string(), 3);
    names.insert("b".to_string(), 4);
    names.insert("a".to_string(), 5);
    assert_eq!(names.get(&"a".to_string()), Some(5));
    assert_eq!(names.get(&"b".to_string()), Some(4));
}

#[test]
fn load_library_and_a_fresh_game() {
    let mut r = rng();
    let configs = vec![("combat".to_string(), combat_config())];
    let lib = load_library(&mut r, &configs).expect("library loads");
    assert_eq!(lib.cards.len(), 4);
    let tokens = TokensConfig { initial_balances: vec![(TokenType::Health, 20), (TokenType::Foresight, 3)] };
    let gs = GameState::new_from_configs(&mut r, &tokens, &configs, rules()).expect("game loads");
    assert_eq!(gs.token_balances.get(&Token::persistent(TokenType::Health)), Some(20));
    assert_eq!(gs.token_balances.get(&Token::persistent(TokenType::Foresight)), Some(3));
    assert_eq!(gs.token_balances.get(&Token::persistent(TokenType::Shield)), Some(0));
    assert!(gs.current_encounter.is_none());
    let bad = vec![("combat".to_string(), DisciplineConfig { cards: vec![attack_card(&["nowhere"])] })];
    match load_library(&mut r, &bad) {
        Err(LoadError::Config { prefix, .. }) => assert_eq!(prefix, "combat"),
        other => panic!("expected a configuration error, got {:?}", other),
    }
}

#[test]
fn a_player_card_on_an_enemy_template_fails_validation() {
    let mut r = rng();
    let config = DisciplineConfig {
        cards: vec![effect_entry("bite", EffectOwner::Enemy, damage(2, 4)), attack_card(&["combat:bite"])],
    };
    let configs = vec![("combat".to_string(), config)];
    match load_library(&mut r, &configs) {
        Err(LoadError::Validation { errors }) => assert_eq!(errors.len(), 1),
        other => panic!("expected a validation error, got {:?}", other),
    }
}

#[test]
fn rest_encounters_keep_their_definition() {
    let mut lib = Library::new();
    let mut names = EffectNameMap::new();
    let mut r = rng();
    let config = DisciplineConfig {
        cards: vec![CardEntry::Encounter(EncounterCardConfig {
            encounter_def: EncounterDefConfig::Rest { rest_def: RestDef { rest_token_min: 2, rest_token_max: 4 } },
            counts: CardCounts { library: 0, deck: 1, hand: 0, discard: 0 },
            valid_disciplines: vec![],
        })],
    };
    assert!(load_discipline_config(&mut lib, &mut r, &config, "rest", &mut names).is_ok());
    match &lib.cards[0].kind {
        CardKind::Encounter { encounter_kind: EncounterKind::Rest { rest_def } } => {
            assert_eq!(*rest_def, RestDef { rest_token_min: 2, rest_token_max: 4 });
        }
        other => panic!("expected a rest encounter, got {:?}", other),
    }
    let _ = TokenMap::new();
}

#[test]
fn config_hash_is_the_sha256_prefix() {
    // SHA-256 of the empty input begins e3b0c442; of "abc", ba7816bf.
    assert_eq!(config_hash(&vec![]), "e3b0c442");
    assert_eq!(config_hash(&vec![b"abc".to_vec()]), "ba7816bf");
    assert_eq!(config_hash(&vec![b"a".to_vec(), b"bc".to_vec()]), "ba7816bf");
    let v = version_info(&vec![b"abc".to_vec()]);
    assert_eq!(v.game_version, "0.0.1");
    assert_eq!(v.config_hash, "ba7816bf");
    assert_eq!(v.version, "0.0.1-ba7816bf");
}

fn key(seq: u64, action_type: &str, ts: Option<u128>) -> LogEntryKey {
    LogEntryKey { seq, action_type: action_type.to_string(), timestamp_ms: ts }
}

#[test]
fn log_pages_filter_and_continue() {
    let entries = vec![
        key(1, "NewGame", Some(100)),
        key(2, "EncounterPlayCard", Some(200)),
        key(3, "EncounterPlayCard", None),
        key(4, "EncounterPlayCard", Some(400)),
        key(5, "EncounterAbort", Some(500)),
    ];
    let all = LogQuery { from_seq: None, action_type: None, since: None, limit: None };
    assert_eq!(select_log_entries(&entries, &all), (vec![0, 1, 2, 3, 4], None));
    let plays = LogQuery { from_seq: None, action_type: Some("EncounterPlayCard".to_string()), since: None, limit: Some(2) };
    assert_eq!(select_log_entries(&entries, &plays), (vec![1, 2], Some(4)));
    let since = LogQuery { from_seq: Some(2), action_type: None, since: Some(300), limit: None };
    assert_eq!(select_log_entries(&entries, &since), (vec![3, 4], None));
    let none = LogQuery { from_seq: None, action_type: None, since: None, limit: Some(0) };
    assert_eq!(select_log_entries(&entries, &none), (vec![], None));
}

#[test]
fn area_counts_sum_encounter_piles() {
    let mut r = rng();
    let mut lib = Library::new();
    let mut names = EffectNameMap::new();
    assert!(load_discipline_config(&mut lib, &mut r, &combat_config(), "combat", &mut names).is_ok());
    assert_eq!(lib.area_pile_counts(), (2, 0));
}
