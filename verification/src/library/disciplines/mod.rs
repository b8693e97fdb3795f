//! The rules of each discipline of encounter.
pub mod combat;
pub mod crafting;
pub mod fishing;
pub mod herbalism;
pub mod mining;
pub mod research;
pub mod rest;
pub mod woodcutting;
