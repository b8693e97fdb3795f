//! Card, effect and encounter definitions as configured: the plain values
//! that configuration files describe, before they are loaded into the library.
use super::types::{CardCounts, CardEffectKind, DeckCounts, Discipline, PlantCharacteristic, RestDef, TokenType};
use vstd::prelude::*;

verus! {

/// Initial token balances, by type.
#[derive(Debug)]
pub struct TokensConfig {
    pub initial_balances: Vec<(TokenType, i64)>,
}

/// The cards of one discipline's configuration, in order.
#[derive(Debug)]
pub struct DisciplineConfig {
    pub cards: Vec<CardEntry>,
}

/// One configured card.
#[derive(Debug)]
pub enum CardEntry {
    Effect(CardEffectConfig),
    PlayerCard(PlayerCardConfig),
    Encounter(EncounterCardConfig),
}

/// Whose effect template a configured effect is.
#[derive(Clone, Copy, Debug, PartialEq, Eq, Structural)]
pub enum EffectOwner {
    Player,
    Enemy,
}

/// A named effect template.
#[derive(Debug)]
pub struct CardEffectConfig {
    pub name: String,
    pub owner: EffectOwner,
    pub kind: CardEffectKind,
    pub counts: CardCounts,
    pub valid_disciplines: Vec<Discipline>,
}

/// The kind of a configured player card.
#[derive(Clone, Copy, Debug, PartialEq, Eq, Structural)]
pub enum PlayerCardKind {
    Attack,
    Defence,
    Resource,
    Mining,
    Herbalism,
    Woodcutting,
    Fishing,
    Rest,
    Crafting,
    Research,
}

/// A player card whose effects are rolled from named templates.
#[derive(Debug)]
pub struct PlayerCardConfig {
    pub card_kind: PlayerCardKind,
    pub effect_refs: Vec<String>,
    pub counts: CardCounts,
    pub valid_disciplines: Vec<Discipline>,
}

/// An encounter card.
#[derive(Debug)]
pub struct EncounterCardConfig {
    pub encounter_def: EncounterDefConfig,
    pub counts: CardCounts,
    pub valid_disciplines: Vec<Discipline>,
}

/// The definition of a configured encounter.
#[derive(Debug)]
pub enum EncounterDefConfig {
    Combat { combatant: CombatantConfig },
    Mining { mining_def: MiningDefConfig },
    Herbalism { herbalism_def: HerbalismDefConfig },
    Woodcutting { woodcutting_def: WoodcuttingDefConfig },
    Fishing { fishing_def: FishingDefConfig },
    Rest { rest_def: RestDef },
    Crafting { crafting_def: CraftingDefConfig },
}

/// An enemy: starting tokens and three decks.
#[derive(Debug)]
pub struct CombatantConfig {
    pub initial_tokens: Vec<(TokenType, u64)>,
    pub attack_deck: Vec<EnemyDeckEntryConfig>,
    pub defence_deck: Vec<EnemyDeckEntryConfig>,
    pub resource_deck: Vec<EnemyDeckEntryConfig>,
}

/// A card of an enemy deck.
#[derive(Debug)]
pub struct EnemyDeckEntryConfig {
    pub effect_refs: Vec<String>,
    pub counts: DeckCounts,
}

#[derive(Debug)]
pub struct MiningDefConfig {
    pub initial_light_level: i64,
    pub ore_deck: Vec<OreDeckEntryConfig>,
}

#[derive(Debug)]
pub struct OreDeckEntryConfig {
    pub effect_refs: Vec<String>,
    pub counts: DeckCounts,
}

#[derive(Debug)]
pub struct HerbalismDefConfig {
    pub plant_hand: Vec<PlantCardConfig>,
    pub rewards: Vec<(TokenType, i64)>,
}

#[derive(Debug)]
pub struct PlantCardConfig {
    pub characteristics: Vec<PlantCharacteristic>,
    pub effect_refs: Vec<String>,
    pub counts: DeckCounts,
}

#[derive(Debug)]
pub struct WoodcuttingDefConfig {
    pub max_plays: u32,
    pub base_rewards: Vec<(TokenType, i64)>,
}

#[derive(Debug)]
pub struct FishingDefConfig {
    pub valid_range_min: i64,
    pub valid_range_max: i64,
    pub max_turns: u32,
    pub win_turns_needed: u32,
    pub fish_deck: Vec<FishDeckEntryConfig>,
    pub rewards: Vec<(TokenType, i64)>,
}

#[derive(Debug)]
pub struct FishDeckEntryConfig {
    pub value: i64,
    pub effect_refs: Vec<String>,
    pub counts: DeckCounts,
}

#[derive(Debug)]
pub struct CraftingDefConfig {
    pub initial_crafting_tokens: i64,
    pub enemy_crafting_deck: Vec<EnemyCraftingEntryConfig>,
}

#[derive(Debug)]
pub struct EnemyCraftingEntryConfig {
    pub effect_refs: Vec<String>,
    pub counts: DeckCounts,
}

/// Why a configuration could not be loaded.
#[derive(Debug)]
pub enum ConfigError {
    /// No effect of this full name was loaded before.
    UnknownEffect { name: String },
    /// This kind of player card carries no effect list in this game.
    UnsupportedCardKind { kind: PlayerCardKind },
    /// A gain effect that costs the very token type it grants.
    GainPaysItself { name: String },
    /// A template whose ranges cannot be rolled within the game's integers.
    TemplateOutOfRange { name: String },
    /// A player card whose crafting cost does not fit the game's integers.
    CardOutOfRange,
}

} // verus!
