//! Combat units and their decks.
pub mod units;
