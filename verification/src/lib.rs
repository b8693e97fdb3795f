//! My Little Card Game: the verified game core.
//!
//! Everything in the game is a deck of cards: the player's library of cards,
//! the encounter area, enemy decks. This crate holds the rules: card
//! movement between locations, token bookkeeping, combat resolution and the
//! encounter state machine. Web endpoints, persistence and configuration
//! loading live outside of it.

pub mod action;
pub mod actions_log;
pub mod area_deck;
pub mod combat;
pub mod deck;
pub mod library;
pub mod rng;
pub mod status_messages;
pub mod version;
