use vstd::prelude::*;

verus! {

/// Kinds of tokens a unit can hold.
#[derive(Clone, Copy, PartialEq, Eq, Debug, Structural)]
pub enum TokenType {
    /// Health tokens are representing how far the entity is from dying
    Health,
    /// Many cards requires a price to be paid in mana
    Mana,
    /// Many cards requires a price to be paid in stamina
    Stamina,
    /// Damage over time
    Poison,
    /// Avoids an attack
    Dodge,
}

/// The cap of a permanent token.
#[derive(Clone, Copy, PartialEq, Eq, Debug, Structural)]
pub struct PermanentDefinition {
    pub max_count: u32,
}

/// Token permanence defines for how long time the token exists
#[derive(Clone, Copy, PartialEq, Eq, Debug, Structural)]
pub enum TokenPermanence {
    Permanent(PermanentDefinition),
    Instant,
    UsedOnUnit,
    OneAtEndOfRound,
    AllAtEndOfRound,
    OneAtBeginningOfRound,
    AllAtBeginningOfRound,
    EndOutCombat,
}

/// Token defines state. Like how much health is accumulated or if the entity having the token is poisoned.
#[derive(Clone, Copy, PartialEq, Eq, Debug, Structural)]
pub struct Token {
    pub token_type: TokenType,
    pub permanence: TokenPermanence,
    /// The number of tokens
    pub count: u32,
}

} // verus!
