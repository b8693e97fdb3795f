//! The encounter loop as a state machine: pure-data transitions of an
//! encounter session driven by the player's actions.
use vstd::prelude::*;

verus! {

/// Phases of an encounter session.
#[derive(Clone, Copy, Debug, PartialEq, Eq, Hash, Structural)]
pub enum EncounterPhase {
    /// Encounter has been drawn; player can start combat
    Ready,
    /// Combat is currently active
    InCombat,
    /// Combat has finished; scouting is available
    Scouting,
    /// No active encounter
    NoEncounter,
}

/// The state of a single encounter session.
#[derive(Clone, Copy, Debug, PartialEq, Eq, Structural)]
pub struct EncounterState {
    pub phase: EncounterPhase,
}

/// User actions during an encounter.
#[derive(Debug)]
pub enum EncounterAction {
    /// Pick an encounter from the area deck and initialize combat
    PickEncounter { card_id: String },
    /// Play a card during combat
    PlayCard { card_id: u64 },
    /// Make a scouting choice post-encounter using card_ids
    ApplyScouting { card_ids: Vec<String> },
    /// System-driven: finish/conclude the encounter (not a player action)
    FinishEncounter,
}

/// The phase an action leads to from `phase`, or `None` where the action is
/// not allowed: picking starts combat, finishing ends the session, playing a
/// card and scouting keep the phase.
pub open spec fn next_phase(phase: EncounterPhase, action: EncounterAction) -> Option<EncounterPhase> {
    match (phase, action) {
        (EncounterPhase::Ready, EncounterAction::PickEncounter { .. }) => Some(EncounterPhase::InCombat),
        (EncounterPhase::Ready, EncounterAction::FinishEncounter) => Some(EncounterPhase::NoEncounter),
        (EncounterPhase::InCombat, EncounterAction::PlayCard { .. }) => Some(EncounterPhase::InCombat),
        (EncounterPhase::InCombat, EncounterAction::FinishEncounter) => Some(EncounterPhase::NoEncounter),
        (EncounterPhase::Scouting, EncounterAction::ApplyScouting { .. }) => Some(EncounterPhase::Scouting),
        (EncounterPhase::Scouting, EncounterAction::FinishEncounter) => Some(EncounterPhase::NoEncounter),
        _ => None,
    }
}

/// Process an EncounterAction and transition state accordingly.
/// Returns `None` if the action is invalid for the current phase.
pub fn apply_action(state: &EncounterState, action: EncounterAction) -> (r: Option<EncounterState>)
    ensures
        match next_phase(state.phase, action) {
            Some(p) => r == Some(EncounterState { phase: p }),
            None => r is None,
        },
{
    match (state.phase, action) {
        (EncounterPhase::Ready, EncounterAction::PickEncounter { .. }) => Some(EncounterState { phase: EncounterPhase::InCombat }),
        (EncounterPhase::Ready, EncounterAction::FinishEncounter) => Some(EncounterState { phase: EncounterPhase::NoEncounter }),
        (EncounterPhase::InCombat, EncounterAction::PlayCard { .. }) => Some(*state),
        (EncounterPhase::InCombat, EncounterAction::FinishEncounter) => Some(EncounterState { phase: EncounterPhase::NoEncounter }),
        (EncounterPhase::Scouting, EncounterAction::ApplyScouting { .. }) => Some(*state),
        (EncounterPhase::Scouting, EncounterAction::FinishEncounter) => Some(EncounterState { phase: EncounterPhase::NoEncounter }),
        _ => None,
    }
}

/// Check if encounter is finished.
pub fn is_finished(state: &EncounterState) -> (r: bool)
    ensures
        r == (state.phase == EncounterPhase::NoEncounter),
{
    state.phase == EncounterPhase::NoEncounter
}

/// Check if combat is active.
pub fn is_in_combat(state: &EncounterState) -> (r: bool)
    ensures
        r == (state.phase == EncounterPhase::InCombat),
{
    state.phase == EncounterPhase::InCombat
}

/// Check if post-encounter scouting is available.
pub fn can_scout(state: &EncounterState) -> (r: bool)
    ensures
        r == (state.phase == EncounterPhase::Scouting),
{
    state.phase == EncounterPhase::Scouting
}

/// Derive preview count from Foresight tokens: the base preview is 1, and
/// each Foresight token adds one more.
pub fn derive_preview_count(foresight_tokens: u64) -> (r: u64)
    requires
        foresight_tokens < u64::MAX,
    ensures
        r == 1 + foresight_tokens,
{
    1 + foresight_tokens
}

/// Finishing is allowed from every phase of an active session and always
/// ends it; nothing leaves a finished session.
pub proof fn law_finish_ends_session(phase: EncounterPhase, action: EncounterAction)
    ensures
        phase != EncounterPhase::NoEncounter ==> next_phase(phase, EncounterAction::FinishEncounter) == Some(EncounterPhase::NoEncounter),
        phase == EncounterPhase::NoEncounter ==> next_phase(phase, action) is None,
{
}

/// Only picking an encounter starts combat, and only from a drawn encounter.
pub proof fn law_combat_starts_by_picking(phase: EncounterPhase, action: EncounterAction)
    ensures
        next_phase(phase, action) == Some(EncounterPhase::InCombat) ==> (phase == EncounterPhase::Ready && action is PickEncounter)
            || (phase == EncounterPhase::InCombat && action is PlayCard),
{
}

} // verus!
