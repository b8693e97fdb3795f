//! The player's actions and how the game state answers them.
use crate::library::costs::totals_fit;
use crate::library::disciplines::combat::{
    action_effects, combat_of, enemy_fits_b, health_of, lemma_enemy_fits_cong, lemma_play_effects_cong,
    lemma_same_templates, player_card_error, player_play, settle_balances, settle_fits, CombatError,
};
use crate::library::disciplines::crafting::{
    craft_finish, craft_finish_fits, craft_started, crafting_card_played, crafting_of, crafting_play_error, crafting_play_fits,
    crafting_started, durability_error, durability_plan, encounter_closed, open_crafting, outcome_of, played_or_same, repaired,
    start_craft_error, swap_error, swapped, tokens_spent, CraftingError,
};
use crate::library::disciplines::mining::{mining_conclude_fits, mining_concluded};
use crate::library::disciplines::fishing::{
    fishing_deficit, fishing_effects, fishing_of, fishing_play_error, fishing_play_fits, fishing_played, fishing_started, FishingError,
};
use crate::library::disciplines::herbalism::{
    herbalism_effects, herbalism_of, herbalism_play_error, herbalism_play_fits, herbalism_played, herbalism_started, HerbalismError,
};
use crate::library::disciplines::woodcutting::{
    woodcutting_effects, woodcutting_of, woodcutting_play_error, woodcutting_play_fits, woodcutting_played, woodcutting_started,
    WoodcuttingError,
};
use crate::library::disciplines::mining::{mining_effects, mining_of, mining_play_error, mining_play_fits, mining_played, MiningError};
use crate::library::disciplines::rest::{rest_of, rest_play_error, RestError};
use crate::library::disciplines::research::{
    begin_error, candidate_selected, choose_error, experiment_begun, experiment_concluded, experiment_error, insight_key,
    open_research, progress_error, progress_made, project_chosen, research_closed, research_hand_played, research_of,
    research_play_error, research_play_fits, research_started, return_research, select_error, two_pow, ResearchError,
};
use crate::library::costs::balances_fit;
use crate::library::game_state::{class_hand, class_of, counts_fit, CardClass, GameState};
use crate::library::rolls::{hi_of, lo_of, total_fits};
use crate::library::token_map::{bal, TokenMap};
use crate::library::types::{
    persistent_key, CardKind, CardLocation, CombatPhase, Discipline, EncounterKind, EncounterOutcome, EncounterPhase, EncounterState,
    LibraryCard, Token, TokenType,
};
use crate::library::queries::{accepted_class, passes};
use crate::library::{draw_encounters, encounter_hand_ids, encounter_hand_total, ids_where, is_encounter, move_fits, spec_move, Library, LibraryError};
use crate::rng::pcg_from_seed;
use rand_pcg::Lcg64Xsh32;
use vstd::prelude::*;

verus! {

/// Player actions.
#[derive(Debug)]
pub enum PlayerActions {
    NewGame { seed: Option<u64> },
    EncounterPickEncounter { card_id: usize },
    EncounterPlayCard { card_id: u64 },
    EncounterApplyScouting { card_ids: Vec<usize> },
    EncounterAbort,
    /// Conclude the encounter under way (mining or crafting) on its terms.
    EncounterConclude,
    /// In a crafting encounter, swap a player card of the deck for one of the library.
    EncounterCraftSwap { from_id: usize, to_id: usize },
    /// In a crafting encounter, start crafting a copy of a player card.
    EncounterCraftCard { target_card_id: usize },
    /// In a crafting encounter, add durability to a gathering discipline.
    EncounterCraftDurability { discipline: String },
    /// In a research encounter, choose a discipline and a tier count for a project.
    ResearchChooseProject { discipline: Discipline, tier_count: u32 },
    /// In a research encounter, select one of the project's candidates.
    ResearchSelectCandidate { candidate_index: usize },
    /// In a research encounter, spend Insight on the project.
    ResearchProgress { amount: i64 },
    /// In a research encounter, begin an experiment.
    ResearchBeginExperiment,
    /// In a research experiment, play a hand of research cards.
    ResearchPlayHand { card_ids: Vec<usize> },
    /// Conclude the research experiment under way.
    ResearchConcludeExperiment,
}

/// Why an action was refused.
#[derive(Clone, Copy, Debug, PartialEq, Eq, Structural)]
pub enum ActionError {
    /// The encounter card is not in the area hand.
    EncounterNotInHand { card_id: usize },
    /// The encounter's discipline is not run by this game core.
    UnsupportedEncounter { card_id: usize },
    /// No encounter is active.
    NoActiveEncounter,
    /// The library has no card with this id.
    CardNotFound { card_id: u64 },
    /// The card has no copy in hand.
    NotInHand { card_id: u64 },
    /// The card does not fit the current combat phase.
    NotPlayableInPhase { card_id: u64, phase: CombatPhase },
    /// The card does not belong to the active encounter's discipline.
    WrongCardForEncounter { card_id: u64 },
    /// Scouting choices are only made in the scouting phase.
    NotInScoutingPhase,
    /// A combat cannot be aborted.
    CannotAbortCombat,
    /// There is no encounter to abort.
    NoEncounterToAbort,
    /// A library move was refused.
    Library(LibraryError),
    /// Starting a combat was refused.
    Combat(CombatError),
    /// A rest action was refused.
    Rest(RestError),
    /// A mining action was refused.
    Mining(MiningError),
    /// A fishing action was refused.
    Fishing(FishingError),
    /// An herbalism action was refused.
    Herbalism(HerbalismError),
    /// A woodcutting action was refused.
    Woodcutting(WoodcuttingError),
    /// A crafting action was refused.
    Crafting(CraftingError),
    /// A research step was refused.
    Research(ResearchError),
    /// The encounter under way cannot be concluded (or there is none).
    NothingToConclude,
}

/// The 16 seed bytes of the generator: the little-endian bytes of `seed`, twice.
pub open spec fn seed_byte(seed: u64, i: int) -> u8 {
    ((seed >> ((8 * (i % 8)) as u64)) & 0xff) as u8
}

/// The seed of a new game's generator: the little-endian bytes of `seed`, twice.
pub fn seed_bytes(seed: u64) -> (r: [u8; 16])
    ensures
        forall|i: int| 0 <= i < 16 ==> #[trigger] r@[i] == seed_byte(seed, i),
{
    let mut b: [u8; 16] = [0u8; 16];
    let mut i: usize = 0;
    while i < 16
        invariant
            i <= 16,
            forall|j: int| 0 <= j < i ==> #[trigger] b@[j] == seed_byte(seed, j),
        decreases 16 - i,
    {
        let shift: u64 = (8 * (i % 8)) as u64;
        let v: u8 = ((seed >> shift) & 0xff) as u8;
        b.set(i, v);
        i += 1;
    }
    b
}

/// The generator of a game started with `seed`.
pub fn rng_from_seed(seed: u64) -> (r: Lcg64Xsh32) {
    pcg_from_seed(seed_bytes(seed))
}

/// The encounter kinds whose discipline this game core runs.
pub open spec fn supported_encounter(k: CardKind) -> bool {
    k matches CardKind::Encounter { encounter_kind } && (encounter_kind is Combat || encounter_kind is Rest || encounter_kind is Mining || encounter_kind is Fishing || encounter_kind is Herbalism
        || encounter_kind is Woodcutting || encounter_kind is Crafting || encounter_kind is Research)
}

/// An encounter card of the research discipline.
pub open spec fn is_research_encounter(k: CardKind) -> bool {
    k matches CardKind::Encounter { encounter_kind: EncounterKind::Research { .. } }
}

/// An encounter card of the crafting discipline.
pub open spec fn is_crafting_encounter(k: CardKind) -> bool {
    k matches CardKind::Encounter { encounter_kind: EncounterKind::Crafting { .. } }
}

/// The encounter under way is of the discipline of encounter card kind `k`.
pub open spec fn started_kind(enc: Option<EncounterState>, k: CardKind) -> bool {
    match k {
        CardKind::Encounter { encounter_kind: EncounterKind::Combat { .. } } => combat_of(enc) is Some,
        CardKind::Encounter { encounter_kind: EncounterKind::Rest { .. } } => rest_of(enc) is Some,
        CardKind::Encounter { encounter_kind: EncounterKind::Mining { .. } } => mining_of(enc) is Some,
        CardKind::Encounter { encounter_kind: EncounterKind::Fishing { .. } } => fishing_of(enc) is Some,
        CardKind::Encounter { encounter_kind: EncounterKind::Herbalism { .. } } => herbalism_of(enc) is Some,
        CardKind::Encounter { encounter_kind: EncounterKind::Woodcutting { .. } } => woodcutting_of(enc) is Some,
        CardKind::Encounter { encounter_kind: EncounterKind::Crafting { .. } } => crafting_of(enc) is Some,
        CardKind::Encounter { encounter_kind: EncounterKind::Research { .. } } => research_of(enc) is Some,
        _ => false,
    }
}

/// How many encounters scouting refills the area hand to: the Foresight
/// counter, or 3 when there is none.
pub open spec fn foresight_target(m: TokenMap) -> usize {
    match m.spec_get(persistent_key(TokenType::Foresight)) {
        Some(v) => v as usize,
        None => 3,
    }
}

/// The library after the active encounter's card returns to the deck, if any.
pub open spec fn scouting_cards(s: GameState) -> Seq<LibraryCard> {
    match s.current_encounter {
        Some(enc) => match spec_move(s.library.cards@, enc.spec_encounter_card_id(), CardLocation::Discard, CardLocation::Deck, 1) {
            Ok(a) => a,
            Err(_) => s.library.cards@,
        },
        None => s.library.cards@,
    }
}

/// The first scouting choice not in the area hand.
pub open spec fn first_missing(cards: Seq<LibraryCard>, ids: Seq<usize>, i: int) -> Option<usize>
    decreases ids.len() - i,
{
    if i < 0 || i >= ids.len() {
        None
    } else if !(ids[i] < cards.len() && is_encounter(cards[ids[i] as int]) && cards[ids[i] as int].counts.hand > 0) {
        Some(ids[i])
    } else {
        first_missing(cards, ids, i + 1)
    }
}

/// The library after the picked encounter card `id` moves from the hand to the discard.
pub open spec fn picked_cards(cards: Seq<LibraryCard>, id: usize) -> Seq<LibraryCard> {
    cards.update(
        id as int,
        crate::library::with_card_counts(cards[id as int], crate::library::moved(cards[id as int].counts, CardLocation::Hand, CardLocation::Discard, 1)),
    )
}

/// The encounter that picking card `id` in state `s` starts, giving `t`: the
/// card is in the discard, and a combat begins (an unset health first becomes
/// 20) with the enemy as its definition gives it, a rest begins with its rest
/// tokens rolled and the rest hand drawn, or a mining begins from its ore deck.
pub open spec fn pick_started(s: GameState, t: GameState, id: usize) -> bool {
    let cards = picked_cards(s.library.cards@, id);
    match s.library.cards@[id as int].kind {
        CardKind::Encounter { encounter_kind: EncounterKind::Combat { combatant_def } } => {
            &&& (if s.token_balances.spec_value(persistent_key(TokenType::Health)) == 0 {
                bal(t.token_balances) == crate::library::token_map::bset(bal(s.token_balances), persistent_key(TokenType::Health), 20)
            } else {
                t.token_balances == s.token_balances
            })
            &&& t.library.cards@ == cards
            &&& combat_of(t.current_encounter) matches Some(c) && {
                &&& c.round == 1
                &&& c.phase == CombatPhase::Defending
                &&& c.encounter_card_id == id
                &&& c.outcome == EncounterOutcome::Undecided
                &&& bal(c.enemy_tokens) == crate::library::disciplines::combat::tokens_bal(combatant_def.initial_tokens@)
                &&& crate::library::disciplines::combat::deck_from_def(c.enemy_attack_deck@, combatant_def.attack_deck@)
                &&& crate::library::disciplines::combat::deck_from_def(c.enemy_defence_deck@, combatant_def.defence_deck@)
                &&& crate::library::disciplines::combat::deck_from_def(c.enemy_resource_deck@, combatant_def.resource_deck@)
            }
            &&& t.last_encounter_result == s.last_encounter_result
        },
        CardKind::Encounter { encounter_kind: EncounterKind::Rest { rest_def } } => {
            &&& t.token_balances == s.token_balances
            &&& rest_of(t.current_encounter) matches Some(st) && {
                &&& st.encounter_card_id == id
                &&& st.outcome == EncounterOutcome::Undecided
                &&& lo_of(rest_def.rest_token_min as int, rest_def.rest_token_max as int) <= st.rest_tokens
                &&& st.rest_tokens <= hi_of(rest_def.rest_token_min as int, rest_def.rest_token_max as int)
            }
            &&& crate::library::game_state::draw_result(cards, t.library.cards@, CardClass::Rest,
                (s.token_balances.spec_balance(TokenType::RestMaxHand) as u32) as int)
        },
        CardKind::Encounter { encounter_kind: EncounterKind::Mining { mining_def } } => {
            &&& t.token_balances == s.token_balances
            &&& t.library.cards@ == cards
            &&& mining_of(t.current_encounter) matches Some(st) && {
                &&& st.round == 1
                &&& st.encounter_card_id == id
                &&& st.outcome == EncounterOutcome::Undecided
                &&& crate::library::disciplines::mining::ore_deck_from_def(st.ore_deck@, mining_def.ore_deck@)
                &&& crate::library::disciplines::mining::start_tokens(st.encounter_tokens, mining_def.initial_light_level)
            }
        },
        CardKind::Encounter { encounter_kind: EncounterKind::Fishing { fishing_def } } => {
            &&& t.token_balances == s.token_balances
            &&& fishing_of(t.current_encounter) matches Some(st) && fishing_started(st, id, fishing_def)
            &&& crate::library::game_state::draw_result(cards, t.library.cards@, CardClass::Fishing, fishing_deficit(s))
        },
        CardKind::Encounter { encounter_kind: EncounterKind::Herbalism { herbalism_def } } => {
            &&& t.token_balances == s.token_balances
            &&& t.library.cards@ == cards
            &&& herbalism_of(t.current_encounter) matches Some(st) && herbalism_started(st, id, herbalism_def)
        },
        CardKind::Encounter { encounter_kind: EncounterKind::Woodcutting { woodcutting_def } } => {
            &&& t.token_balances == s.token_balances
            &&& t.library.cards@ == cards
            &&& woodcutting_of(t.current_encounter) matches Some(st) && woodcutting_started(st, id, woodcutting_def)
        },
        CardKind::Encounter { encounter_kind: EncounterKind::Crafting { crafting_def } } => {
            &&& t.token_balances == s.token_balances
            &&& crafting_of(t.current_encounter) matches Some(st) && crafting_started(st, id, crafting_def)
            &&& exists|drawn: Seq<LibraryCard>| crate::library::game_state::draw_result(s.library.cards@, drawn, CardClass::Crafting, 5)
                && #[trigger] played_or_same(drawn, id) == t.library.cards@
        },
        CardKind::Encounter { encounter_kind: EncounterKind::Research { .. } } => {
            &&& t.token_balances == s.token_balances
            &&& t.library.cards@ == cards
            &&& research_of(t.current_encounter) matches Some(st) && research_started(st, id)
            &&& t.current_research == s.current_research
        },
        _ => true,
    }
}

/// The error an action is refused with in state `s`, if it is refused.
pub open spec fn action_refusal(s: GameState, a: PlayerActions) -> Option<ActionError> {
    let cards = s.library.cards@;
    match a {
        PlayerActions::EncounterPickEncounter { card_id } => if !(card_id < cards.len() && is_encounter(cards[card_id as int])
            && cards[card_id as int].counts.hand > 0) {
            Some(ActionError::EncounterNotInHand { card_id })
        } else if !supported_encounter(cards[card_id as int].kind) {
            Some(ActionError::UnsupportedEncounter { card_id })
        } else if is_crafting_encounter(cards[card_id as int].kind) && s.current_encounter is Some {
            Some(ActionError::Crafting(CraftingError::AlreadyInEncounter))
        } else if is_research_encounter(cards[card_id as int].kind) && s.current_encounter is Some {
            Some(ActionError::Research(ResearchError::AlreadyInEncounter))
        } else {
            None
        },
        PlayerActions::EncounterPlayCard { card_id } => if s.current_encounter is None {
            Some(ActionError::NoActiveEncounter)
        } else if card_id >= cards.len() {
            Some(ActionError::CardNotFound { card_id })
        } else if cards[card_id as int].counts.hand == 0 {
            Some(ActionError::NotInHand { card_id })
        } else {
            match s.current_encounter {
                Some(EncounterState::Combat(c)) => if !c.phase.spec_allows(cards[card_id as int].kind) {
                    Some(ActionError::NotPlayableInPhase { card_id, phase: c.phase })
                } else {
                    None
                },
                Some(EncounterState::Rest(_)) => match rest_play_error(s, card_id as usize) {
                    Some(err) => Some(ActionError::Rest(err)),
                    None => None,
                },
                Some(EncounterState::Mining(_)) => if mining_effects(cards[card_id as int].kind) is None {
                    Some(ActionError::WrongCardForEncounter { card_id })
                } else {
                    None
                },
                Some(EncounterState::Fishing(_)) => if fishing_effects(cards[card_id as int].kind) is None {
                    Some(ActionError::WrongCardForEncounter { card_id })
                } else {
                    None
                },
                Some(EncounterState::Herbalism(_)) => if herbalism_effects(cards[card_id as int].kind) is None {
                    Some(ActionError::WrongCardForEncounter { card_id })
                } else {
                    None
                },
                Some(EncounterState::Woodcutting(_)) => if woodcutting_effects(cards[card_id as int].kind) is None {
                    Some(ActionError::WrongCardForEncounter { card_id })
                } else {
                    None
                },
                Some(EncounterState::Crafting(_)) => match crafting_play_error(s, card_id as usize) {
                    Some(e) => Some(ActionError::Crafting(e)),
                    None => None,
                },
                _ => Some(ActionError::WrongCardForEncounter { card_id }),
            }
        },
        PlayerActions::EncounterApplyScouting { card_ids } => if s.encounter_phase != EncounterPhase::Scouting {
            Some(ActionError::NotInScoutingPhase)
        } else {
            match first_missing(cards, card_ids@, 0) {
                Some(id) => Some(ActionError::EncounterNotInHand { card_id: id }),
                None => None,
            }
        },
        PlayerActions::EncounterAbort => match s.current_encounter {
            Some(EncounterState::Combat(_)) => Some(ActionError::CannotAbortCombat),
            None => Some(ActionError::NoEncounterToAbort),
            Some(EncounterState::Crafting(c)) => if c.active_craft is Some {
                Some(ActionError::Crafting(CraftingError::CraftInProgress))
            } else {
                None
            },
            Some(_) => None,
        },
        PlayerActions::EncounterConclude => match s.current_encounter {
            Some(EncounterState::Crafting(_)) => if open_crafting(s.current_encounter) is None {
                Some(ActionError::Crafting(CraftingError::NoActiveCrafting))
            } else {
                None
            },
            Some(EncounterState::Mining(m)) => if m.outcome != EncounterOutcome::Undecided {
                Some(ActionError::Mining(MiningError::NoActiveMining))
            } else {
                None
            },
            Some(EncounterState::Research(st)) => if st.outcome != EncounterOutcome::Undecided {
                Some(ActionError::Research(ResearchError::NoActiveResearch))
            } else {
                None
            },
            _ => Some(ActionError::NothingToConclude),
        },
        PlayerActions::EncounterCraftSwap { from_id, to_id } => match swap_error(s, from_id, to_id) {
            Some(e) => Some(ActionError::Crafting(e)),
            None => None,
        },
        PlayerActions::EncounterCraftCard { target_card_id } => match start_craft_error(s, target_card_id) {
            Some(e) => Some(ActionError::Crafting(e)),
            None => None,
        },
        PlayerActions::EncounterCraftDurability { discipline } => match durability_error(s, discipline@) {
            Some(e) => Some(ActionError::Crafting(e)),
            None => None,
        },
        PlayerActions::ResearchChooseProject { discipline, tier_count } => match choose_error(s, discipline, tier_count) {
            Some(e) => Some(ActionError::Research(e)),
            None => None,
        },
        PlayerActions::ResearchSelectCandidate { candidate_index } => match select_error(s, candidate_index) {
            Some(e) => Some(ActionError::Research(e)),
            None => None,
        },
        PlayerActions::ResearchProgress { amount } => match progress_error(s, amount) {
            Some(e) => Some(ActionError::Research(e)),
            None => None,
        },
        PlayerActions::ResearchBeginExperiment => match begin_error(s) {
            Some(e) => Some(ActionError::Research(e)),
            None => None,
        },
        PlayerActions::ResearchPlayHand { card_ids } => match research_play_error(s, card_ids@) {
            Some(e) => Some(ActionError::Research(e)),
            None => None,
        },
        PlayerActions::ResearchConcludeExperiment => match experiment_error(s) {
            Some(e) => Some(ActionError::Research(e)),
            None => None,
        },
        PlayerActions::NewGame { .. } => None,
    }
}

/// The library after scouting refills the area hand.
pub open spec fn scouted(s: GameState) -> Seq<LibraryCard> {
    let c1 = scouting_cards(s);
    let have = encounter_hand_total(c1);
    let target = foresight_target(s.token_balances) as int;
    draw_encounters(c1, if have >= target { 0 } else { (target - have) as nat })
}

/// What playing a combat card needs to stay in range: the card's play and
/// whatever follows it, and the enemy's answer.
pub open spec fn combat_play_fits(s: GameState, id: usize) -> bool {
    &&& player_card_error(s, id) is None ==> (player_play(s, id) matches Some((p, e, a, d, rr)) && {
        let c = combat_of(s.current_encounter)->Some_0;
        &&& totals_fit(p)
        &&& settle_fits(p, EncounterOutcome::PlayerWon)
        &&& forall|o: EncounterOutcome| #![trigger settle_balances(p, o, s)] {
            let fin = if o == EncounterOutcome::Undecided { p } else { settle_balances(p, o, s) };
            &&& i64::MIN <= fin.1[TokenType::AttackMaxHand] <= i64::MAX
            &&& i64::MIN <= fin.1[TokenType::DefenceMaxHand] <= i64::MAX
            &&& i64::MIN <= fin.1[TokenType::ResourceMaxHand] <= i64::MAX
        }
        &&& a <= u32::MAX && d <= u32::MAX && rr <= u32::MAX
        &&& class_hand(s.library.cards@, CardClass::Attack) + a <= u32::MAX
        &&& class_hand(s.library.cards@, CardClass::Defence) + d <= u32::MAX
        &&& class_hand(s.library.cards@, CardClass::Resource) + rr <= u32::MAX
        &&& enemy_fits_b(p, e, c, s.library)
    })
    &&& player_card_error(s, id) is Some && combat_of(s.current_encounter) is Some ==> {
        let c = combat_of(s.current_encounter)->Some_0;
        enemy_fits_b(bal(s.token_balances), bal(c.enemy_tokens), c, s.library)
    }
}

/// The player's part of a combat turn from state `s`, card `id` being played
/// to the discard, giving `t`: where no effect of the card can be paid only
/// the card moves; else its effects apply (see `after_play`) and its draws
/// are made.
pub open spec fn combat_player_step(s: GameState, t: GameState, id: usize) -> bool {
    let cards = played_or_same(s.library.cards@, id);
    match player_card_error(s, id) {
        Some(_) => {
            &&& t.library.cards@ == cards
            &&& t.token_balances == s.token_balances
            &&& t.current_encounter == s.current_encounter
            &&& t.encounter_phase == s.encounter_phase
            &&& t.encounter_results == s.encounter_results
            &&& t.last_encounter_result == s.last_encounter_result
            &&& t.last_death_occurred == s.last_death_occurred
            &&& t.game_rules == s.game_rules
        },
        None => {
            let (p, e, a, d, rr) = player_play(s, id)->Some_0;
            let c = combat_of(s.current_encounter)->Some_0;
            let o = crate::library::disciplines::combat::outcome_after(c.outcome, p, e, cards);
            &&& crate::library::disciplines::combat::after_play(s, t, c, p, e, o)
            &&& crate::library::game_state::draws_by_type(cards, t.library.cards@, a, d, rr)
            &&& t.game_rules == s.game_rules
        },
    }
}

/// The enemy's part: while the fight goes on, a card of the phase's deck
/// (where it has one in hand or discard) is played (see `enemy_played`).
pub open spec fn combat_enemy_step(s: GameState, t: GameState) -> bool {
    match combat_of(s.current_encounter) {
        None => t == s,
        Some(c) => {
            let d = crate::library::disciplines::combat::phase_deck(c);
            if crate::library::rolls::sum_hand(d) + crate::library::rolls::sum_discard(d) == 0 {
                t == s
            } else {
                &&& exists|idx: int| crate::library::disciplines::combat::enemy_played(s, t, idx)
                &&& t.library == s.library
                &&& t.game_rules == s.game_rules
            }
        },
    }
}

/// The phase's part: while the fight goes on, the next phase begins.
pub open spec fn combat_phase_step(s: GameState, t: GameState) -> bool {
    match combat_of(s.current_encounter) {
        None => t == s,
        Some(c) => {
            &&& combat_of(t.current_encounter) matches Some(c2) && {
                &&& c2.phase == c.phase.spec_next()
                &&& c2.round == c.round
                &&& c2.encounter_card_id == c.encounter_card_id
                &&& c2.outcome == c.outcome
                &&& c2.enemy_tokens == c.enemy_tokens
                &&& c2.enemy_attack_deck == c.enemy_attack_deck
                &&& c2.enemy_defence_deck == c.enemy_defence_deck
                &&& c2.enemy_resource_deck == c.enemy_resource_deck
            }
            &&& t.token_balances == s.token_balances
            &&& t.library == s.library
            &&& t.encounter_phase == s.encounter_phase
            &&& t.encounter_results == s.encounter_results
            &&& t.last_encounter_result == s.last_encounter_result
            &&& t.last_death_occurred == s.last_death_occurred
            &&& t.game_rules == s.game_rules
        },
    }
}

/// A combat turn through the states `s1` (after the player's card) and `s2`
/// (after the enemy's answer).
pub open spec fn combat_turn_via(s: GameState, s1: GameState, s2: GameState, t: GameState, id: usize) -> bool {
    &&& combat_player_step(s, s1, id)
    &&& combat_enemy_step(s1, s2)
    &&& combat_phase_step(s2, t)
}

/// A combat turn: the player's card, the enemy's answer, the next phase.
pub open spec fn combat_turn(s: GameState, t: GameState, id: usize) -> bool {
    exists|s1: GameState, s2: GameState| #[trigger] combat_turn_via(s, s1, s2, t, id)
}

/// What answering `action` in state `s` needs: no new game (that is the
/// caller's), card counts in range, and for each action what its work needs
/// to stay within the machine's integers.
pub open spec fn action_fits(s: GameState, action: PlayerActions) -> bool {
    &&& !(action is NewGame)
    &&& counts_fit(s.library.cards@)
    &&& action matches PlayerActions::EncounterPickEncounter { card_id } ==> (card_id < s.library.cards@.len() ==> match s.library.cards@[card_id as int].kind {
        CardKind::Encounter { encounter_kind: EncounterKind::Combat { combatant_def } } =>
            total_fits(combatant_def.attack_deck@) && total_fits(combatant_def.defence_deck@) && total_fits(combatant_def.resource_deck@),
        CardKind::Encounter { encounter_kind: EncounterKind::Rest { rest_def } } => {
            &&& hi_of(rest_def.rest_token_min as int, rest_def.rest_token_max as int) - lo_of(rest_def.rest_token_min as int, rest_def.rest_token_max as int) < i64::MAX
            &&& i64::MIN <= s.token_balances.spec_balance(TokenType::RestMaxHand) <= i64::MAX
            &&& class_hand(s.library.cards@, CardClass::Rest) + (s.token_balances.spec_balance(TokenType::RestMaxHand) as u32) <= u32::MAX
        },
        CardKind::Encounter { encounter_kind: EncounterKind::Mining { mining_def } } => total_fits(mining_def.ore_deck@),
        CardKind::Encounter { encounter_kind: EncounterKind::Fishing { fishing_def } } => {
            &&& total_fits(fishing_def.fish_deck@)
            &&& i64::MIN <= s.token_balances.spec_balance(TokenType::FishingMaxHand) <= i64::MAX
            &&& class_hand(s.library.cards@, CardClass::Fishing) + fishing_deficit(s) <= u32::MAX
        },
        CardKind::Encounter { encounter_kind: EncounterKind::Herbalism { herbalism_def } } => total_fits(herbalism_def.plant_hand@),
        CardKind::Encounter { encounter_kind: EncounterKind::Crafting { crafting_def } } => {
            &&& total_fits(crafting_def.enemy_crafting_deck@)
            &&& i64::MIN <= s.token_balances.spec_balance(TokenType::CraftingMaxHand) <= i64::MAX
            &&& class_hand(s.library.cards@, CardClass::Crafting) + 5 <= u32::MAX
        },
        _ => true,
    })
    &&& action matches PlayerActions::EncounterPlayCard { card_id } ==> (card_id < s.library.cards@.len() ==> {
        &&& combat_of(s.current_encounter) is Some && action_effects(s.library.cards@[card_id as int].kind) is Some
            ==> totals_fit(bal(s.token_balances)) && combat_play_fits(s, card_id as usize)
        &&& rest_of(s.current_encounter) is Some ==> {
            &&& rest_play_error(s, card_id as usize) is None ==> {
                let effs = crate::library::disciplines::rest::rest_effects(s.library.cards@[card_id as int].kind)->Some_0;
                let costs = crate::library::costs::player_costs(crate::library::costs::gathering_costs(effs));
                &&& crate::library::costs::deduct_fits(costs, s.token_balances)
                &&& crate::library::disciplines::rest::rest_gains(crate::library::costs::deduct_b(bal(s.token_balances), costs), effs, s.library)
                    matches Some(g) && i64::MIN <= g.1[TokenType::RestMaxHand] <= i64::MAX
                &&& class_hand(s.library.cards@, CardClass::Rest) < u32::MAX
            }
            &&& crate::library::disciplines::rest::rest_effects(s.library.cards@[card_id as int].kind) matches Some(effs)
                ==> crate::library::costs::sum_of_type(crate::library::costs::gathering_costs(effs), TokenType::RestToken) <= i64::MAX
            &&& crate::library::disciplines::rest::rest_effects(s.library.cards@[card_id as int].kind) is Some
                ==> totals_fit(bal(s.token_balances))
        }
        &&& mining_of(s.current_encounter) is Some && mining_effects(s.library.cards@[card_id as int].kind) is Some ==> {
            &&& crate::library::costs::balances_fit(s.token_balances)
            &&& class_hand(s.library.cards@, CardClass::Mining) <= u32::MAX
            &&& mining_play_error(s, card_id as usize) is None ==> mining_play_fits(s, card_id as usize)
        }
        &&& fishing_of(s.current_encounter) is Some && fishing_effects(s.library.cards@[card_id as int].kind) is Some ==> {
            &&& crate::library::costs::balances_fit(s.token_balances)
            &&& class_hand(s.library.cards@, CardClass::Fishing) <= u32::MAX
            &&& fishing_play_error(s, card_id as usize) is None ==> fishing_play_fits(s, card_id as usize)
        }
        &&& herbalism_of(s.current_encounter) is Some && herbalism_effects(s.library.cards@[card_id as int].kind) is Some ==> {
            &&& crate::library::costs::balances_fit(s.token_balances)
            &&& class_hand(s.library.cards@, CardClass::Herbalism) <= u32::MAX
            &&& herbalism_play_error(s, card_id as usize) is None ==> herbalism_play_fits(s, card_id as usize)
        }
        &&& woodcutting_of(s.current_encounter) is Some && woodcutting_effects(s.library.cards@[card_id as int].kind) is Some ==> {
            &&& crate::library::costs::balances_fit(s.token_balances)
            &&& class_hand(s.library.cards@, CardClass::Woodcutting) <= u32::MAX
            &&& woodcutting_play_error(s, card_id as usize) is None ==> woodcutting_play_fits(s, card_id as usize)
        }
        &&& crafting_of(s.current_encounter) is Some ==> {
            &&& crate::library::costs::balances_fit(s.token_balances)
            &&& class_hand(s.library.cards@, CardClass::Crafting) < u32::MAX
            &&& crafting_play_error(s, card_id as usize) is None ==> crafting_play_fits(s, card_id as usize)
        }
    })
    &&& action matches PlayerActions::ResearchChooseProject { tier_count, .. } ==> {
        &&& tier_count <= 60
        &&& crate::library::config_loader::all_rollable(s.library)
        &&& crate::library::disciplines::combat::fits(s.token_balances.spec_value(insight_key()) - 10 * two_pow((tier_count - 1) as nat))
    }
    &&& action is ResearchSelectCandidate ==> (open_research(s) matches Some(st) && st.candidates matches Some(cs) ==>
        forall|i: int| 0 <= i < cs@.len() ==> 1 <= #[trigger] cs@[i].tier_count <= 59)
    &&& action is ResearchProgress ==> {
        &&& s.current_research matches Some(p) ==> {
            &&& 0 <= p.progress
            &&& 0 <= p.total_cost < i64::MAX - 2
            &&& crate::library::base_cost_fits(CardKind::Attack { effects: p.chosen_card.effects })
        }
        &&& i64::MIN < s.token_balances.spec_value(insight_key())
    }
    &&& action matches PlayerActions::ResearchPlayHand { card_ids } ==> {
        &&& balances_fit(s.token_balances)
        &&& research_play_error(s, card_ids@) is None ==> research_play_fits(s, card_ids@)
    }
    &&& action is ResearchConcludeExperiment ==> (research_of(s.current_encounter) matches Some(st)
        && s.current_research matches Some(p) ==> crate::library::disciplines::combat::fits(p.progress + st.accumulated_yield)
        && crate::library::base_cost_fits(CardKind::Attack { effects: p.chosen_card.effects }))
    &&& action is EncounterConclude ==> {
        &&& open_crafting(s.current_encounter) matches Some(st) ==> craft_finish_fits(bal(s.token_balances), st, s.library.cards@)
        &&& mining_conclude_fits(s)
    }
    &&& action matches PlayerActions::EncounterCraftCard { target_card_id } ==> (target_card_id < s.library.cards@.len()
        ==> crate::library::disciplines::crafting::cost_total_fits(s.library.cards@[target_card_id as int].crafting_cost@))
    &&& action matches PlayerActions::EncounterCraftDurability { discipline } ==> (durability_plan(discipline@) matches Some((dt, mt))
        ==> crate::library::disciplines::combat::fits(s.token_balances.spec_value(persistent_key(dt)) + 500))
    &&& action is EncounterApplyScouting && s.encounter_phase == EncounterPhase::Scouting ==> {
        let c1 = scouting_cards(s);
        &&& s.current_encounter matches Some(enc) ==> move_fits(s.library.cards@, enc.spec_encounter_card_id(), CardLocation::Deck, 1)
        &&& encounter_hand_total(c1) <= usize::MAX
        &&& forall|i: int| 0 <= i < c1.len() ==> (#[trigger] c1[i]).counts.hand + c1[i].counts.deck <= u32::MAX
    }
}

/// How state `s` answers `action`, giving `t` and the result `r` (see
/// `GameState::handle_action`).
pub open spec fn action_answered(s: GameState, t: GameState, action: PlayerActions, r: Result<(), ActionError>) -> bool {
    &&& match action {
        PlayerActions::EncounterPickEncounter { card_id } => {
            let cards = s.library.cards@;
            if !(card_id < cards.len() && is_encounter(cards[card_id as int]) && cards[card_id as int].counts.hand > 0) {
                r == Err::<(), ActionError>(ActionError::EncounterNotInHand { card_id }) && t == s
            } else if !supported_encounter(cards[card_id as int].kind) {
                r == Err::<(), ActionError>(ActionError::UnsupportedEncounter { card_id }) && t == s
            } else if is_crafting_encounter(cards[card_id as int].kind) && s.current_encounter is Some {
                r == Err::<(), ActionError>(ActionError::Crafting(CraftingError::AlreadyInEncounter)) && t == s
            } else if is_research_encounter(cards[card_id as int].kind) && s.current_encounter is Some {
                r == Err::<(), ActionError>(ActionError::Research(ResearchError::AlreadyInEncounter)) && t == s
            } else {
                &&& r is Ok
                &&& t.encounter_phase == EncounterPhase::InEncounter
                &&& t.current_encounter matches Some(enc) && enc.spec_encounter_card_id() == card_id
                &&& started_kind(t.current_encounter, cards[card_id as int].kind)
                &&& t.library.cards@.len() == cards.len()
                &&& t.library.cards@[card_id as int].counts
                    == crate::library::moved(cards[card_id as int].counts, CardLocation::Hand, CardLocation::Discard, 1)
                &&& t.encounter_results@ == s.encounter_results@
                &&& pick_started(s, t, card_id as usize)
            }
        },
        PlayerActions::EncounterPlayCard { card_id } => {
            let cards = s.library.cards@;
            if s.current_encounter is None {
                r == Err::<(), ActionError>(ActionError::NoActiveEncounter) && t == s
            } else if card_id >= cards.len() {
                r == Err::<(), ActionError>(ActionError::CardNotFound { card_id }) && t == s
            } else if cards[card_id as int].counts.hand == 0 {
                r == Err::<(), ActionError>(ActionError::NotInHand { card_id }) && t == s
            } else {
                match s.current_encounter {
                    Some(EncounterState::Combat(c)) => if !c.phase.spec_allows(cards[card_id as int].kind) {
                        r == Err::<(), ActionError>(ActionError::NotPlayableInPhase { card_id, phase: c.phase }) && t == s
                    } else {
                        &&& r is Ok
                        &&& combat_turn(s, t, card_id as usize)
                        &&& t.library.cards@.len() == cards.len()
                        &&& (t.current_encounter is None && t.encounter_phase == EncounterPhase::Scouting)
                            || (combat_of(t.current_encounter) matches Some(c2) && c2.phase == c.phase.spec_next()
                                && c2.encounter_card_id == c.encounter_card_id)
                    },
                    Some(EncounterState::Rest(_)) => match rest_play_error(s, card_id as usize) {
                        Some(err) => r == Err::<(), ActionError>(ActionError::Rest(err)) && t == s,
                        None => r is Ok && crate::library::disciplines::rest::rest_played(s, t, card_id as usize),
                    },
                    Some(EncounterState::Mining(_)) => if mining_effects(cards[card_id as int].kind) is None {
                        r == Err::<(), ActionError>(ActionError::WrongCardForEncounter { card_id }) && t == s
                    } else {
                        &&& r is Ok
                        &&& mining_play_error(s, card_id as usize) is Some ==> {
                            &&& t.library.cards@ == played_or_same(cards, card_id as usize)
                            &&& t.token_balances == s.token_balances
                            &&& t.current_encounter == s.current_encounter
                            &&& t.encounter_results == s.encounter_results
                        }
                        &&& mining_play_error(s, card_id as usize) is None
                            ==> mining_played(s, t, card_id as usize, played_or_same(cards, card_id as usize))
                    },
                    Some(EncounterState::Fishing(_)) => if fishing_effects(cards[card_id as int].kind) is None {
                        r == Err::<(), ActionError>(ActionError::WrongCardForEncounter { card_id }) && t == s
                    } else {
                        &&& r is Ok
                        &&& fishing_play_error(s, card_id as usize) matches Some(e) ==> {
                            &&& t.library.cards@ == played_or_same(cards, card_id as usize)
                            &&& t.token_balances == s.token_balances
                            &&& t.current_encounter == s.current_encounter
                            &&& t.encounter_results == s.encounter_results
                        }
                        &&& fishing_play_error(s, card_id as usize) is None
                            ==> fishing_played(s, t, card_id as usize, played_or_same(cards, card_id as usize))
                    },
                    Some(EncounterState::Herbalism(_)) => if herbalism_effects(cards[card_id as int].kind) is None {
                        r == Err::<(), ActionError>(ActionError::WrongCardForEncounter { card_id }) && t == s
                    } else {
                        &&& r is Ok
                        &&& herbalism_play_error(s, card_id as usize) is Some ==> {
                            &&& t.library.cards@ == played_or_same(cards, card_id as usize)
                            &&& t.token_balances == s.token_balances
                            &&& t.current_encounter == s.current_encounter
                            &&& t.encounter_results == s.encounter_results
                        }
                        &&& herbalism_play_error(s, card_id as usize) is None
                            ==> herbalism_played(s, t, card_id as usize, played_or_same(cards, card_id as usize))
                    },
                    Some(EncounterState::Woodcutting(_)) => if woodcutting_effects(cards[card_id as int].kind) is None {
                        r == Err::<(), ActionError>(ActionError::WrongCardForEncounter { card_id }) && t == s
                    } else {
                        &&& r is Ok
                        &&& woodcutting_play_error(s, card_id as usize) is Some ==> {
                            &&& t.library.cards@ == played_or_same(cards, card_id as usize)
                            &&& t.token_balances == s.token_balances
                            &&& t.current_encounter == s.current_encounter
                            &&& t.encounter_results == s.encounter_results
                        }
                        &&& woodcutting_play_error(s, card_id as usize) is None
                            ==> woodcutting_played(s, t, card_id as usize, played_or_same(cards, card_id as usize))
                    },
                    Some(EncounterState::Crafting(_)) => match crafting_play_error(s, card_id as usize) {
                        Some(e) => r == Err::<(), ActionError>(ActionError::Crafting(e)) && t == s,
                        None => r is Ok && crafting_card_played(s, t, card_id as usize),
                    },
                    _ => r == Err::<(), ActionError>(ActionError::WrongCardForEncounter { card_id }) && t == s,
                }
            }
        },
        PlayerActions::EncounterApplyScouting { card_ids } => {
            if s.encounter_phase != EncounterPhase::Scouting {
                r == Err::<(), ActionError>(ActionError::NotInScoutingPhase) && t == s
            } else {
                match first_missing(s.library.cards@, card_ids@, 0) {
                    Some(id) => r == Err::<(), ActionError>(ActionError::EncounterNotInHand { card_id: id }) && t == s,
                    None => {
                        &&& r is Ok
                        &&& t.library.cards@ == scouted(s)
                        &&& t.encounter_phase == EncounterPhase::NoEncounter
                        &&& t.token_balances == s.token_balances
                        &&& t.current_encounter == s.current_encounter
                    },
                }
            }
        },
        PlayerActions::EncounterAbort => match s.current_encounter {
            Some(EncounterState::Combat(_)) => r == Err::<(), ActionError>(ActionError::CannotAbortCombat) && t == s,
            None => r == Err::<(), ActionError>(ActionError::NoEncounterToAbort) && t == s,
            Some(EncounterState::Crafting(c)) => if c.active_craft is Some {
                r == Err::<(), ActionError>(ActionError::Crafting(CraftingError::CraftInProgress)) && t == s
            } else {
                &&& r is Ok
                &&& encounter_closed(s, t, EncounterOutcome::PlayerWon)
                &&& t.token_balances == s.token_balances
                &&& t.library == s.library
            },
            Some(EncounterState::Research(_)) => {
                &&& r is Ok
                &&& research_closed(s, t, EncounterOutcome::PlayerWon, return_research(s.library.cards@))
                &&& t.current_research == s.current_research
            },
            Some(_) => {
                &&& r is Ok
                &&& t.current_encounter is None
                &&& t.encounter_phase == EncounterPhase::Scouting
                &&& t.last_encounter_result == Some(EncounterOutcome::PlayerLost)
                &&& t.encounter_results@ == s.encounter_results@.push(EncounterOutcome::PlayerLost)
                &&& t.token_balances == s.token_balances
                &&& t.library == s.library
            },
        },
        PlayerActions::EncounterConclude => match s.current_encounter {
            Some(EncounterState::Crafting(_)) => match open_crafting(s.current_encounter) {
                None => r == Err::<(), ActionError>(ActionError::Crafting(CraftingError::NoActiveCrafting)) && t == s,
                Some(st) => {
                    let (b, cards, won) = craft_finish(bal(s.token_balances), st, s.library.cards@);
                    &&& r is Ok
                    &&& bal(t.token_balances) == b
                    &&& t.library.cards@ == cards
                    &&& encounter_closed(s, t, outcome_of(won))
                },
            },
            Some(EncounterState::Mining(m)) => if m.outcome != EncounterOutcome::Undecided {
                r == Err::<(), ActionError>(ActionError::Mining(MiningError::NoActiveMining)) && t == s
            } else {
                r is Ok && mining_concluded(s, t, m)
            },
            Some(EncounterState::Research(st)) => if st.outcome != EncounterOutcome::Undecided {
                r == Err::<(), ActionError>(ActionError::Research(ResearchError::NoActiveResearch)) && t == s
            } else {
                &&& r is Ok
                &&& research_closed(s, t, EncounterOutcome::PlayerWon, s.library.cards@)
                &&& t.current_research == s.current_research
            },
            _ => r == Err::<(), ActionError>(ActionError::NothingToConclude) && t == s,
        },
        PlayerActions::EncounterCraftSwap { from_id, to_id } => match swap_error(s, from_id, to_id) {
            Some(e) => r == Err::<(), ActionError>(ActionError::Crafting(e)) && t == s,
            None => {
                &&& r is Ok
                &&& t.library.cards@ == swapped(s.library.cards@, from_id, to_id)
                &&& t.token_balances == s.token_balances
                &&& tokens_spent(s, t, open_crafting(s.current_encounter)->Some_0, 1)
            },
        },
        PlayerActions::EncounterCraftCard { target_card_id } => match start_craft_error(s, target_card_id) {
            Some(e) => r == Err::<(), ActionError>(ActionError::Crafting(e)) && t == s,
            None => r is Ok && craft_started(s, t, target_card_id),
        },
        PlayerActions::EncounterCraftDurability { discipline } => match durability_error(s, discipline@) {
            Some(e) => r == Err::<(), ActionError>(ActionError::Crafting(e)) && t == s,
            None => {
                let (dt, mt) = durability_plan(discipline@)->Some_0;
                &&& r is Ok
                &&& bal(t.token_balances) == repaired(bal(s.token_balances), dt, mt)
                &&& t.library == s.library
                &&& tokens_spent(s, t, open_crafting(s.current_encounter)->Some_0, 1)
            },
        },
        PlayerActions::ResearchChooseProject { discipline, tier_count } => match choose_error(s, discipline, tier_count) {
            Some(e) => r == Err::<(), ActionError>(ActionError::Research(e)) && t == s,
            None => r is Ok && project_chosen(s, t, discipline, tier_count),
        },
        PlayerActions::ResearchSelectCandidate { candidate_index } => match select_error(s, candidate_index) {
            Some(e) => r == Err::<(), ActionError>(ActionError::Research(e)) && t == s,
            None => r is Ok && candidate_selected(s, t, candidate_index),
        },
        PlayerActions::ResearchProgress { amount } => match progress_error(s, amount) {
            Some(e) => r == Err::<(), ActionError>(ActionError::Research(e)) && t == s,
            None => r is Ok && progress_made(s, t, amount),
        },
        PlayerActions::ResearchBeginExperiment => match begin_error(s) {
            Some(e) => r == Err::<(), ActionError>(ActionError::Research(e)) && t == s,
            None => r is Ok && experiment_begun(s, t),
        },
        PlayerActions::ResearchPlayHand { card_ids } => match research_play_error(s, card_ids@) {
            Some(e) => r == Err::<(), ActionError>(ActionError::Research(e)) && t == s,
            None => r is Ok && research_hand_played(s, t, card_ids@),
        },
        PlayerActions::ResearchConcludeExperiment => match experiment_error(s) {
            Some(e) => r == Err::<(), ActionError>(ActionError::Research(e)) && t == s,
            None => r is Ok && experiment_concluded(s, t),
        },
        PlayerActions::NewGame { .. } => true,
    }
    &&& r is Ok <==> action_refusal(s, action) is None
    &&& action_refusal(s, action) matches Some(e) ==> r == Err::<(), ActionError>(e)
}

/// `states` and `results` trace the first `k` actions of `actions` from `s`:
/// each state answers its action (see `action_answered`), giving the next.
pub open spec fn trace_prefix(
    s: GameState,
    actions: Seq<PlayerActions>,
    states: Seq<GameState>,
    results: Seq<Result<(), ActionError>>,
    k: int,
) -> bool {
    &&& 0 <= k <= actions.len()
    &&& states.len() == k + 1
    &&& results.len() == k
    &&& states[0] == s
    &&& forall|i: int| 0 <= i < k ==> #[trigger] action_answered(states[i], states[i + 1], actions[i], results[i])
}

/// The states a run of actions can lead to from `s`: each action answered
/// in turn as `handle_action` answers it (refusals included).
pub open spec fn replayed(s: GameState, actions: Seq<PlayerActions>, t: GameState) -> bool {
    exists|states: Seq<GameState>, results: Seq<Result<(), ActionError>>|
        #[trigger] trace_prefix(s, actions, states, results, actions.len() as int) && states.last() == t
}

/// Every action of the run, from every state the run may reach before it,
/// has what it needs (see `action_fits`).
pub open spec fn replay_fits(s: GameState, actions: Seq<PlayerActions>) -> bool {
    forall|states: Seq<GameState>, results: Seq<Result<(), ActionError>>, k: int|
        #[trigger] trace_prefix(s, actions, states, results, k) && k < actions.len() ==> action_fits(states[k], actions[k])
}

/// Replaying a log in two parts is replaying it whole: the states the whole
/// log can lead to are those the second part can lead to from a state the
/// first part can lead to.
pub proof fn law_replay_in_parts(s: GameState, a: Seq<PlayerActions>, b: Seq<PlayerActions>, t: GameState)
    ensures
        replayed(s, a + b, t) <==> exists|m: GameState| #[trigger] replayed(s, a, m) && replayed(m, b, t),
{
    let ab = a + b;
    let na = a.len() as int;
    if replayed(s, ab, t) {
        let (st, rs) = choose|st: Seq<GameState>, rs: Seq<Result<(), ActionError>>|
            #[trigger] trace_prefix(s, ab, st, rs, ab.len() as int) && st.last() == t;
        let m = st[na];
        let sa = st.take(na + 1);
        let ra = rs.take(na);
        let sb = st.skip(na);
        let rb = rs.skip(na);
        assert forall|i: int| 0 <= i < na implies #[trigger] action_answered(sa[i], sa[i + 1], a[i], ra[i]) by {
            assert(action_answered(st[i], st[i + 1], ab[i], rs[i]));
        }
        assert(trace_prefix(s, a, sa, ra, na));
        assert(sa.last() == m);
        assert forall|i: int| 0 <= i < b.len() implies #[trigger] action_answered(sb[i], sb[i + 1], b[i], rb[i]) by {
            assert(action_answered(st[na + i], st[na + i + 1], ab[na + i], rs[na + i]));
            assert(ab[na + i] == b[i]);
        }
        assert(trace_prefix(m, b, sb, rb, b.len() as int));
        assert(sb.last() == t);
        assert(replayed(s, a, m) && replayed(m, b, t));
    }
    if exists|m: GameState| #[trigger] replayed(s, a, m) && replayed(m, b, t) {
        let m = choose|m: GameState| #[trigger] replayed(s, a, m) && replayed(m, b, t);
        let (sa, ra) = choose|st: Seq<GameState>, rs: Seq<Result<(), ActionError>>|
            #[trigger] trace_prefix(s, a, st, rs, a.len() as int) && st.last() == m;
        let (sb, rb) = choose|st: Seq<GameState>, rs: Seq<Result<(), ActionError>>|
            #[trigger] trace_prefix(m, b, st, rs, b.len() as int) && st.last() == t;
        let st = sa + sb.skip(1);
        let rs = ra + rb;
        assert forall|i: int| 0 <= i < ab.len() implies #[trigger] action_answered(st[i], st[i + 1], ab[i], rs[i]) by {
            if i < na {
                assert(action_answered(sa[i], sa[i + 1], a[i], ra[i]));
                assert(st[i] == sa[i] && st[i + 1] == sa[i + 1] && ab[i] == a[i] && rs[i] == ra[i]);
            } else {
                let j = i - na;
                assert(action_answered(sb[j], sb[j + 1], b[j], rb[j]));
                if j == 0 {
                    assert(st[i] == sa[na]);
                    assert(sa[na] == m);
                } else {
                    assert(st[i] == sb[j]);
                }
                assert(st[i + 1] == sb[j + 1]);
                assert(ab[i] == b[j] && rs[i] == rb[j]);
            }
        }
        assert(trace_prefix(s, ab, st, rs, ab.len() as int));
        if b.len() == 0 {
            assert(st =~= sa);
        } else {
            assert(st.last() == sb.last());
        }
        assert(replayed(s, ab, t));
    }
}

impl GameState {
    /// Start a new game on a freshly loaded state: its library and balances
    /// replace the current ones, and no encounter or result is left.
    pub fn reset_for_new_game(&mut self, fresh: GameState)
        ensures
            final(self).library == fresh.library,
            final(self).token_balances == fresh.token_balances,
            final(self).current_encounter is None,
            final(self).encounter_phase == fresh.encounter_phase,
            final(self).last_encounter_result is None,
            final(self).encounter_results@.len() == 0,
            final(self).game_rules == old(self).game_rules,
    {
        self.library = fresh.library;
        self.token_balances = fresh.token_balances;
        self.current_encounter = None;
        self.encounter_phase = fresh.encounter_phase;
        self.last_encounter_result = None;
        self.encounter_results = Vec::new();
    }

    /// Reconstruct a game from its action log: starting from `fresh` (the
    /// game as the log's new game began it, with the generator `rng` seeded
    /// as it was), every logged action is answered in turn.
    pub fn replay_from_log(fresh: GameState, actions: &Vec<PlayerActions>, rng: &mut Lcg64Xsh32) -> (r: GameState)
        requires
            replay_fits(fresh, actions@),
        ensures
            replayed(fresh, actions@, r),
    {
        let mut gs = fresh;
        let ghost mut states: Seq<GameState> = seq![fresh];
        let ghost mut results: Seq<Result<(), ActionError>> = Seq::empty();
        let mut i: usize = 0;
        while i < actions.len()
            invariant
                i <= actions@.len(),
                replay_fits(fresh, actions@),
                trace_prefix(fresh, actions@, states, results, i as int),
                states.last() == gs,
            decreases actions@.len() - i,
        {
            proof {
                assert(trace_prefix(fresh, actions@, states, results, i as int));
            }
            let ghost m = gs;
            let res = gs.handle_action(&actions[i], rng);
            proof {
                let states2 = states.push(gs);
                let results2 = results.push(res);
                assert forall|q: int| 0 <= q < i + 1 implies #[trigger] action_answered(states2[q], states2[q + 1], actions@[q], results2[q]) by {
                    if q < i {
                        assert(states2[q] == states[q] && states2[q + 1] == states[q + 1] && results2[q] == results[q]);
                    } else {
                        assert(states2[q] == m && states2[q + 1] == gs && results2[q] == res);
                    }
                }
                states = states2;
                results = results2;
            }
            i += 1;
        }
        proof {
            assert(trace_prefix(fresh, actions@, states, results, actions@.len() as int));
        }
        gs
    }

    /// Answer an encounter action.
    ///
    /// Picking moves the encounter card from the area hand to the discard and
    /// starts the encounter (a combat first gives an unset health 20).
    /// Playing a card needs an active encounter and the card in hand: in
    /// combat it must fit the phase; it goes to the discard, resolves, the
    /// enemy answers and the phase advances while the fight goes on. In a
    /// rest, the rest card is resolved. Scouting needs the scouting phase and
    /// every choice in the area hand; the active encounter's card returns to
    /// the deck and the area hand is refilled to the Foresight count.
    /// Aborting ends a non-combat encounter as lost, but a crafting or a
    /// research encounter as won. Concluding ends a mining, crafting or
    /// research encounter on its terms. The crafting and research actions
    /// hand over to the steps of those disciplines.
    pub fn handle_action(&mut self, action: &PlayerActions, rng: &mut Lcg64Xsh32) -> (r: Result<(), ActionError>)
        requires
            action_fits(*old(self), *action),
        ensures
            action_answered(*old(self), *final(self), *action, r),
    {
        match action {
            PlayerActions::EncounterPickEncounter { card_id } => self.pick_encounter(*card_id, rng),
            PlayerActions::EncounterPlayCard { card_id } => self.play_encounter_card(*card_id, rng),
            PlayerActions::EncounterApplyScouting { card_ids } => self.apply_scouting(card_ids),
            PlayerActions::EncounterAbort => match &self.current_encounter {
                Some(EncounterState::Combat(_)) => Err(ActionError::CannotAbortCombat),
                None => Err(ActionError::NoEncounterToAbort),
                Some(EncounterState::Crafting(_)) => match self.abort_crafting_encounter() {
                    Ok(()) => Ok(()),
                    Err(e) => Err(ActionError::Crafting(e)),
                },
                Some(EncounterState::Research(_)) => {
                    self.abort_research_encounter();
                    Ok(())
                },
                Some(_) => {
                    self.abort_encounter();
                    Ok(())
                },
            },
            PlayerActions::EncounterConclude => match &self.current_encounter {
                Some(EncounterState::Crafting(_)) => match self.conclude_crafting_encounter() {
                    Ok(()) => Ok(()),
                    Err(e) => Err(ActionError::Crafting(e)),
                },
                Some(EncounterState::Mining(_)) => match self.conclude_mining_encounter() {
                    Ok(()) => Ok(()),
                    Err(e) => Err(ActionError::Mining(e)),
                },
                Some(EncounterState::Research(_)) => match self.conclude_research_encounter() {
                    Ok(()) => Ok(()),
                    Err(e) => Err(ActionError::Research(e)),
                },
                _ => Err(ActionError::NothingToConclude),
            },
            PlayerActions::EncounterCraftSwap { from_id, to_id } => match self.resolve_crafting_swap(*from_id, *to_id) {
                Ok(()) => Ok(()),
                Err(e) => Err(ActionError::Crafting(e)),
            },
            PlayerActions::EncounterCraftCard { target_card_id } => match self.resolve_crafting_start_craft(*target_card_id) {
                Ok(()) => Ok(()),
                Err(e) => Err(ActionError::Crafting(e)),
            },
            PlayerActions::EncounterCraftDurability { discipline } => match self.resolve_crafting_add_durability(discipline.as_str()) {
                Ok(()) => Ok(()),
                Err(e) => Err(ActionError::Crafting(e)),
            },
            PlayerActions::ResearchChooseProject { discipline, tier_count } => match self.research_choose_project(*discipline, *tier_count, rng) {
                Ok(()) => Ok(()),
                Err(e) => Err(ActionError::Research(e)),
            },
            PlayerActions::ResearchSelectCandidate { candidate_index } => match self.research_select_candidate(*candidate_index) {
                Ok(()) => Ok(()),
                Err(e) => Err(ActionError::Research(e)),
            },
            PlayerActions::ResearchProgress { amount } => match self.research_progress(*amount, rng) {
                Ok(()) => Ok(()),
                Err(e) => Err(ActionError::Research(e)),
            },
            PlayerActions::ResearchBeginExperiment => match self.research_begin_experiment(rng) {
                Ok(()) => Ok(()),
                Err(e) => Err(ActionError::Research(e)),
            },
            PlayerActions::ResearchPlayHand { card_ids } => match self.research_play_hand(card_ids, rng) {
                Ok(()) => Ok(()),
                Err(e) => Err(ActionError::Research(e)),
            },
            PlayerActions::ResearchConcludeExperiment => match self.research_conclude_experiment(rng) {
                Ok(()) => Ok(()),
                Err(e) => Err(ActionError::Research(e)),
            },
            PlayerActions::NewGame { .. } => Ok(()),
        }
    }

    fn pick_encounter(&mut self, card_id: usize, rng: &mut Lcg64Xsh32) -> (r: Result<(), ActionError>)
        requires
            counts_fit(old(self).library.cards@),
            card_id < old(self).library.cards@.len() ==> match old(self).library.cards@[card_id as int].kind {
                CardKind::Encounter { encounter_kind: EncounterKind::Combat { combatant_def } } =>
                    total_fits(combatant_def.attack_deck@) && total_fits(combatant_def.defence_deck@) && total_fits(combatant_def.resource_deck@),
                CardKind::Encounter { encounter_kind: EncounterKind::Rest { rest_def } } => {
                    &&& hi_of(rest_def.rest_token_min as int, rest_def.rest_token_max as int) - lo_of(rest_def.rest_token_min as int, rest_def.rest_token_max as int) < i64::MAX
                    &&& i64::MIN <= old(self).token_balances.spec_balance(TokenType::RestMaxHand) <= i64::MAX
                    &&& class_hand(old(self).library.cards@, CardClass::Rest) + (old(self).token_balances.spec_balance(TokenType::RestMaxHand) as u32) <= u32::MAX
                },
                CardKind::Encounter { encounter_kind: EncounterKind::Mining { mining_def } } => total_fits(mining_def.ore_deck@),
                CardKind::Encounter { encounter_kind: EncounterKind::Fishing { fishing_def } } => {
                    &&& total_fits(fishing_def.fish_deck@)
                    &&& i64::MIN <= old(self).token_balances.spec_balance(TokenType::FishingMaxHand) <= i64::MAX
                    &&& class_hand(old(self).library.cards@, CardClass::Fishing) + fishing_deficit(*old(self)) <= u32::MAX
                },
                CardKind::Encounter { encounter_kind: EncounterKind::Herbalism { herbalism_def } } => total_fits(herbalism_def.plant_hand@),
                CardKind::Encounter { encounter_kind: EncounterKind::Crafting { crafting_def } } => {
                    &&& total_fits(crafting_def.enemy_crafting_deck@)
                    &&& i64::MIN <= old(self).token_balances.spec_balance(TokenType::CraftingMaxHand) <= i64::MAX
                    &&& class_hand(old(self).library.cards@, CardClass::Crafting) + 5 <= u32::MAX
                },
                _ => true,
            },
        ensures
            ({
                let cards = old(self).library.cards@;
                if !(card_id < cards.len() && is_encounter(cards[card_id as int]) && cards[card_id as int].counts.hand > 0) {
                    r == Err::<(), ActionError>(ActionError::EncounterNotInHand { card_id }) && *final(self) == *old(self)
                } else if !supported_encounter(cards[card_id as int].kind) {
                    r == Err::<(), ActionError>(ActionError::UnsupportedEncounter { card_id }) && *final(self) == *old(self)
                } else if is_crafting_encounter(cards[card_id as int].kind) && old(self).current_encounter is Some {
                    r == Err::<(), ActionError>(ActionError::Crafting(CraftingError::AlreadyInEncounter)) && *final(self) == *old(self)
                } else if is_research_encounter(cards[card_id as int].kind) && old(self).current_encounter is Some {
                    r == Err::<(), ActionError>(ActionError::Research(ResearchError::AlreadyInEncounter)) && *final(self) == *old(self)
                } else {
                    &&& r is Ok
                    &&& final(self).encounter_phase == EncounterPhase::InEncounter
                    &&& final(self).current_encounter matches Some(enc) && enc.spec_encounter_card_id() == card_id
                    &&& started_kind(final(self).current_encounter, cards[card_id as int].kind)
                    &&& final(self).library.cards@.len() == cards.len()
                    &&& final(self).library.cards@[card_id as int].counts
                        == crate::library::moved(cards[card_id as int].counts, CardLocation::Hand, CardLocation::Discard, 1)
                    &&& final(self).encounter_results@ == old(self).encounter_results@
                    &&& pick_started(*old(self), *final(self), card_id)
                }
            }),
    {
        if !self.library.encounter_contains(card_id) {
            return Err(ActionError::EncounterNotInHand { card_id });
        }
        if let CardKind::Encounter { encounter_kind: EncounterKind::Crafting { .. } } = &self.library.cards[card_id].kind {
            if self.current_encounter.is_some() {
                return Err(ActionError::Crafting(CraftingError::AlreadyInEncounter));
            }
            let ghost cards0 = self.library.cards@;
            let res = self.start_crafting_encounter(card_id, rng);
            proof {
                let drawn = choose|drawn: Seq<LibraryCard>| crate::library::game_state::draw_result(cards0, drawn, CardClass::Crafting, 5)
                    && #[trigger] played_or_same(drawn, card_id) == self.library.cards@;
                assert(class_of(cards0[card_id as int].kind) == CardClass::Encounter);
                assert(drawn[card_id as int].counts == cards0[card_id as int].counts);
                assert(drawn.len() == cards0.len());
            }
            return match res {
                Ok(()) => Ok(()),
                Err(e) => Err(ActionError::Crafting(e)),
            };
        }
        let research = match &self.library.cards[card_id].kind {
            CardKind::Encounter { encounter_kind: EncounterKind::Research { .. } } => true,
            _ => false,
        };
        if research && self.current_encounter.is_some() {
            return Err(ActionError::Research(ResearchError::AlreadyInEncounter));
        }
        let discipline: u8 = match &self.library.cards[card_id].kind {
            CardKind::Encounter { encounter_kind: EncounterKind::Combat { .. } } => 0,
            CardKind::Encounter { encounter_kind: EncounterKind::Rest { .. } } => 1,
            CardKind::Encounter { encounter_kind: EncounterKind::Mining { .. } } => 2,
            CardKind::Encounter { encounter_kind: EncounterKind::Fishing { .. } } => 3,
            CardKind::Encounter { encounter_kind: EncounterKind::Herbalism { .. } } => 4,
            CardKind::Encounter { encounter_kind: EncounterKind::Woodcutting { .. } } => 5,
            CardKind::Encounter { encounter_kind: EncounterKind::Research { .. } } => 7,
            _ => {
                return Err(ActionError::UnsupportedEncounter { card_id });
            },
        };
        let ghost before = self.library.cards@;
        proof {
            assert(before[card_id as int].counts.spec_total() <= u32::MAX);
        }
        let _ = self.library.play(card_id);
        proof {
            let c = before[card_id as int];
            let moved_card = crate::library::with_card_counts(c, crate::library::moved(c.counts, CardLocation::Hand, CardLocation::Discard, 1));
            assert(self.library.cards@ == before.update(card_id as int, moved_card));
            crate::library::game_state::lemma_class_hand_update(before, card_id as int, moved_card, CardClass::Rest);
            crate::library::game_state::lemma_class_hand_update(before, card_id as int, moved_card, CardClass::Fishing);
            assert forall|j: int| 0 <= j < self.library.cards@.len() implies (#[trigger] self.library.cards@[j]).counts.spec_total() <= u32::MAX by {
                assert(before[j].counts.spec_total() <= u32::MAX);
            }
            assert(self.library.cards@[card_id as int].kind == c.kind);
        }
        if discipline == 0 {
            if self.token_balances.value(&Token::persistent(TokenType::Health)) == 0 {
                self.token_balances.insert(Token::persistent(TokenType::Health), 20);
            }
            match self.start_combat(card_id, rng) {
                Ok(()) => Ok(()),
                Err(e) => Err(ActionError::Combat(e)),
            }
        } else if discipline == 1 {
            match self.start_rest_encounter(card_id, rng) {
                Ok(()) => Ok(()),
                Err(e) => Err(ActionError::Rest(e)),
            }
        } else if discipline == 2 {
            match self.start_mining_encounter(card_id, rng) {
                Ok(()) => Ok(()),
                Err(e) => Err(ActionError::Mining(e)),
            }
        } else if discipline == 3 {
            match self.start_fishing_encounter(card_id, rng) {
                Ok(()) => Ok(()),
                Err(e) => Err(ActionError::Fishing(e)),
            }
        } else if discipline == 4 {
            match self.start_herbalism_encounter(card_id, rng) {
                Ok(()) => Ok(()),
                Err(e) => Err(ActionError::Herbalism(e)),
            }
        } else if discipline == 7 {
            proof {
                assert(crate::library::disciplines::research::research_def_at(self.library.cards@, card_id) is Ok);
            }
            match self.start_research_encounter(card_id) {
                Ok(()) => Ok(()),
                Err(e) => Err(ActionError::Research(e)),
            }
        } else {
            match self.start_woodcutting_encounter(card_id, rng) {
                Ok(()) => Ok(()),
                Err(e) => Err(ActionError::Woodcutting(e)),
            }
        }
    }

    fn play_encounter_card(&mut self, card_id: u64, rng: &mut Lcg64Xsh32) -> (r: Result<(), ActionError>)
        requires
            counts_fit(old(self).library.cards@),
            card_id < old(self).library.cards@.len() ==> {
                &&& combat_of(old(self).current_encounter) is Some && action_effects(old(self).library.cards@[card_id as int].kind) is Some
                    ==> totals_fit(bal(old(self).token_balances)) && combat_play_fits(*old(self), card_id as usize)
                &&& rest_of(old(self).current_encounter) is Some ==> {
                    &&& rest_play_error(*old(self), card_id as usize) is None ==> {
                        let effs = crate::library::disciplines::rest::rest_effects(old(self).library.cards@[card_id as int].kind)->Some_0;
                        let costs = crate::library::costs::player_costs(crate::library::costs::gathering_costs(effs));
                        &&& crate::library::costs::deduct_fits(costs, old(self).token_balances)
                        &&& crate::library::disciplines::rest::rest_gains(crate::library::costs::deduct_b(bal(old(self).token_balances), costs), effs, old(self).library)
                            matches Some(g) && i64::MIN <= g.1[TokenType::RestMaxHand] <= i64::MAX
                        &&& class_hand(old(self).library.cards@, CardClass::Rest) < u32::MAX
                    }
                    &&& crate::library::disciplines::rest::rest_effects(old(self).library.cards@[card_id as int].kind) matches Some(effs)
                        ==> crate::library::costs::sum_of_type(crate::library::costs::gathering_costs(effs), TokenType::RestToken) <= i64::MAX
                    &&& crate::library::disciplines::rest::rest_effects(old(self).library.cards@[card_id as int].kind) is Some
                        ==> totals_fit(bal(old(self).token_balances))
                }
                &&& mining_of(old(self).current_encounter) is Some && mining_effects(old(self).library.cards@[card_id as int].kind) is Some ==> {
                    &&& crate::library::costs::balances_fit(old(self).token_balances)
                    &&& class_hand(old(self).library.cards@, CardClass::Mining) <= u32::MAX
                    &&& mining_play_error(*old(self), card_id as usize) is None ==> mining_play_fits(*old(self), card_id as usize)
                }
                &&& fishing_of(old(self).current_encounter) is Some && fishing_effects(old(self).library.cards@[card_id as int].kind) is Some ==> {
                    &&& crate::library::costs::balances_fit(old(self).token_balances)
                    &&& class_hand(old(self).library.cards@, CardClass::Fishing) <= u32::MAX
                    &&& fishing_play_error(*old(self), card_id as usize) is None ==> fishing_play_fits(*old(self), card_id as usize)
                }
                &&& herbalism_of(old(self).current_encounter) is Some && herbalism_effects(old(self).library.cards@[card_id as int].kind) is Some ==> {
                    &&& crate::library::costs::balances_fit(old(self).token_balances)
                    &&& class_hand(old(self).library.cards@, CardClass::Herbalism) <= u32::MAX
                    &&& herbalism_play_error(*old(self), card_id as usize) is None ==> herbalism_play_fits(*old(self), card_id as usize)
                }
                &&& woodcutting_of(old(self).current_encounter) is Some && woodcutting_effects(old(self).library.cards@[card_id as int].kind) is Some ==> {
                    &&& crate::library::costs::balances_fit(old(self).token_balances)
                    &&& class_hand(old(self).library.cards@, CardClass::Woodcutting) <= u32::MAX
                    &&& woodcutting_play_error(*old(self), card_id as usize) is None ==> woodcutting_play_fits(*old(self), card_id as usize)
                }
                &&& crafting_of(old(self).current_encounter) is Some ==> {
                    &&& crate::library::costs::balances_fit(old(self).token_balances)
                    &&& class_hand(old(self).library.cards@, CardClass::Crafting) < u32::MAX
                    &&& crafting_play_error(*old(self), card_id as usize) is None ==> crafting_play_fits(*old(self), card_id as usize)
                }
            },
        ensures
            ({
                let cards = old(self).library.cards@;
                if old(self).current_encounter is None {
                    r == Err::<(), ActionError>(ActionError::NoActiveEncounter) && *final(self) == *old(self)
                } else if card_id >= cards.len() {
                    r == Err::<(), ActionError>(ActionError::CardNotFound { card_id }) && *final(self) == *old(self)
                } else if cards[card_id as int].counts.hand == 0 {
                    r == Err::<(), ActionError>(ActionError::NotInHand { card_id }) && *final(self) == *old(self)
                } else {
                    match old(self).current_encounter {
                        Some(EncounterState::Combat(c)) => if !c.phase.spec_allows(cards[card_id as int].kind) {
                            r == Err::<(), ActionError>(ActionError::NotPlayableInPhase { card_id, phase: c.phase }) && *final(self) == *old(self)
                        } else {
                            &&& r is Ok
                            &&& combat_turn(*old(self), *final(self), card_id as usize)
                            &&& final(self).library.cards@.len() == cards.len()
                            &&& (final(self).current_encounter is None && final(self).encounter_phase == EncounterPhase::Scouting)
                                || (combat_of(final(self).current_encounter) matches Some(c2) && c2.phase == c.phase.spec_next()
                                    && c2.encounter_card_id == c.encounter_card_id)
                        },
                        Some(EncounterState::Rest(_)) => match rest_play_error(*old(self), card_id as usize) {
                            Some(err) => r == Err::<(), ActionError>(ActionError::Rest(err)) && *final(self) == *old(self),
                            None => r is Ok && crate::library::disciplines::rest::rest_played(*old(self), *final(self), card_id as usize),
                        },
                        Some(EncounterState::Mining(_)) => if mining_effects(cards[card_id as int].kind) is None {
                            r == Err::<(), ActionError>(ActionError::WrongCardForEncounter { card_id }) && *final(self) == *old(self)
                        } else {
                            &&& r is Ok
                            &&& mining_play_error(*old(self), card_id as usize) is Some ==> {
                                &&& final(self).library.cards@ == played_or_same(cards, card_id as usize)
                                &&& final(self).token_balances == old(self).token_balances
                                &&& final(self).current_encounter == old(self).current_encounter
                                &&& final(self).encounter_results == old(self).encounter_results
                            }
                            &&& mining_play_error(*old(self), card_id as usize) is None
                                ==> mining_played(*old(self), *final(self), card_id as usize, played_or_same(cards, card_id as usize))
                        },
                        Some(EncounterState::Fishing(_)) => if fishing_effects(cards[card_id as int].kind) is None {
                            r == Err::<(), ActionError>(ActionError::WrongCardForEncounter { card_id }) && *final(self) == *old(self)
                        } else {
                            &&& r is Ok
                            &&& fishing_play_error(*old(self), card_id as usize) matches Some(e) ==> {
                                &&& final(self).library.cards@ == played_or_same(cards, card_id as usize)
                                &&& final(self).token_balances == old(self).token_balances
                                &&& final(self).current_encounter == old(self).current_encounter
                                &&& final(self).encounter_results == old(self).encounter_results
                            }
                            &&& fishing_play_error(*old(self), card_id as usize) is None
                                ==> fishing_played(*old(self), *final(self), card_id as usize, played_or_same(cards, card_id as usize))
                        },
                        Some(EncounterState::Herbalism(_)) => if herbalism_effects(cards[card_id as int].kind) is None {
                            r == Err::<(), ActionError>(ActionError::WrongCardForEncounter { card_id }) && *final(self) == *old(self)
                        } else {
                            &&& r is Ok
                            &&& herbalism_play_error(*old(self), card_id as usize) is Some ==> {
                                &&& final(self).library.cards@ == played_or_same(cards, card_id as usize)
                                &&& final(self).token_balances == old(self).token_balances
                                &&& final(self).current_encounter == old(self).current_encounter
                                &&& final(self).encounter_results == old(self).encounter_results
                            }
                            &&& herbalism_play_error(*old(self), card_id as usize) is None
                                ==> herbalism_played(*old(self), *final(self), card_id as usize, played_or_same(cards, card_id as usize))
                        },
                        Some(EncounterState::Woodcutting(_)) => if woodcutting_effects(cards[card_id as int].kind) is None {
                            r == Err::<(), ActionError>(ActionError::WrongCardForEncounter { card_id }) && *final(self) == *old(self)
                        } else {
                            &&& r is Ok
                            &&& woodcutting_play_error(*old(self), card_id as usize) is Some ==> {
                                &&& final(self).library.cards@ == played_or_same(cards, card_id as usize)
                                &&& final(self).token_balances == old(self).token_balances
                                &&& final(self).current_encounter == old(self).current_encounter
                                &&& final(self).encounter_results == old(self).encounter_results
                            }
                            &&& woodcutting_play_error(*old(self), card_id as usize) is None
                                ==> woodcutting_played(*old(self), *final(self), card_id as usize, played_or_same(cards, card_id as usize))
                        },
                        Some(EncounterState::Crafting(_)) => match crafting_play_error(*old(self), card_id as usize) {
                            Some(e) => r == Err::<(), ActionError>(ActionError::Crafting(e)) && *final(self) == *old(self),
                            None => r is Ok && crafting_card_played(*old(self), *final(self), card_id as usize),
                        },
                        _ => r == Err::<(), ActionError>(ActionError::WrongCardForEncounter { card_id }) && *final(self) == *old(self),
                    }
                }
            }),
    {
        if self.current_encounter.is_none() {
            return Err(ActionError::NoActiveEncounter);
        }
        if card_id >= self.library.cards.len() as u64 {
            return Err(ActionError::CardNotFound { card_id });
        }
        let id = card_id as usize;
        if self.library.cards[id].counts.hand == 0 {
            return Err(ActionError::NotInHand { card_id });
        }
        let phase = match &self.current_encounter {
            Some(EncounterState::Combat(c)) => c.phase,
            Some(EncounterState::Rest(_)) => {
                return match self.resolve_rest_card_play(id, rng) {
                    Ok(()) => Ok(()),
                    Err(e) => Err(ActionError::Rest(e)),
                };
            },
            Some(EncounterState::Mining(_)) => {
                return self.play_mining_card(id, rng);
            },
            Some(EncounterState::Fishing(_)) => {
                return self.play_fishing_card(id, rng);
            },
            Some(EncounterState::Herbalism(_)) => {
                return self.play_herbalism_card(id, rng);
            },
            Some(EncounterState::Woodcutting(_)) => {
                return self.play_woodcutting_card(id, rng);
            },
            Some(EncounterState::Crafting(_)) => {
                return match self.resolve_crafting_play_card(id, rng) {
                    Ok(()) => Ok(()),
                    Err(e) => Err(ActionError::Crafting(e)),
                };
            },
            _ => {
                return Err(ActionError::WrongCardForEncounter { card_id });
            },
        };
        if !phase.allowed_card_kind(&self.library.cards[id].kind) {
            return Err(ActionError::NotPlayableInPhase { card_id, phase });
        }
        let ghost s0 = *self;
        let ghost before = self.library.cards@;
        proof {
            assert(before[id as int].counts.spec_total() <= u32::MAX);
        }
        let _ = self.library.play(id);
        let ghost s1 = *self;
        proof {
            let c = before[id as int];
            let moved_card = crate::library::with_card_counts(c, crate::library::moved(c.counts, CardLocation::Hand, CardLocation::Discard, 1));
            assert(self.library.cards@ == before.update(id as int, moved_card));
            crate::library::game_state::lemma_class_hand_update(before, id as int, moved_card, CardClass::Attack);
            crate::library::game_state::lemma_class_hand_update(before, id as int, moved_card, CardClass::Defence);
            crate::library::game_state::lemma_class_hand_update(before, id as int, moved_card, CardClass::Resource);
            assert forall|j: int| 0 <= j < self.library.cards@.len() implies (#[trigger] self.library.cards@[j]).counts.spec_total() <= u32::MAX by {
                assert(before[j].counts.spec_total() <= u32::MAX);
            }
            assert(crate::library::game_state::only_counts_moved(before, self.library.cards@)) by {
                assert forall|j: int| #![trigger self.library.cards@[j]] 0 <= j < before.len() implies {
                    &&& self.library.cards@[j] == crate::library::with_card_counts(before[j], self.library.cards@[j].counts)
                    &&& self.library.cards@[j].counts.library == before[j].counts.library
                    &&& self.library.cards@[j].counts.spec_total() == before[j].counts.spec_total()
                } by {
                    if j != id {
                        assert(self.library.cards@[j] == before[j]);
                    }
                }
            }
            lemma_same_templates(s0.library, s1.library);
            lemma_play_effects_cong(
                bal(s0.token_balances),
                bal(combat_of(s0.current_encounter)->Some_0.enemy_tokens),
                action_effects(before[id as int].kind)->Some_0,
                s0.library,
                s1.library,
            );
            assert(player_card_error(s1, id) == player_card_error(s0, id));
            assert(player_play(s1, id) == player_play(s0, id));
            if player_card_error(s0, id) is None {
                let (p, e, a, d, rr) = player_play(s0, id)->Some_0;
                let c = combat_of(s1.current_encounter)->Some_0;
                let o = crate::library::disciplines::combat::outcome_after(c.outcome, p, e, s1.library.cards@);
                assert(settle_balances(p, o, s1) == settle_balances(p, o, s0));
                let _ = settle_balances(p, o, s0);
            }
        }
        let _ = self.resolve_player_card(id, rng);
        let ghost s2 = *self;
        proof {
            let c = combat_of(s0.current_encounter)->Some_0;
            if player_card_error(s0, id) is None {
                crate::library::game_state::lemma_only_counts_moved_trans(before, s1.library.cards@, self.library.cards@);
                if combat_of(self.current_encounter) is Some {
                    let (p, e, a, d, rr) = player_play(s0, id)->Some_0;
                    let c2 = combat_of(self.current_encounter)->Some_0;
                    lemma_same_templates(s0.library, self.library);
                    lemma_enemy_fits_cong(p, e, c, c2, s0.library, self.library);
                }
            } else {
                lemma_same_templates(s0.library, self.library);
                lemma_enemy_fits_cong(bal(s0.token_balances), bal(c.enemy_tokens), c, c, s0.library, self.library);
            }
        }
        proof {
            let c = combat_of(s1.current_encounter)->Some_0;
            if player_card_error(s1, id) is None {
                let (p, e, a, d, rr) = player_play(s1, id)->Some_0;
                let o = crate::library::disciplines::combat::outcome_after(c.outcome, p, e, s1.library.cards@);
                if o == EncounterOutcome::Undecided {
                    assert(combat_of(s2.current_encounter) is Some);
                } else {
                    assert(s2.current_encounter is None);
                }
            }
            assert(s2.current_encounter is None && s2.encounter_phase == EncounterPhase::Scouting
                || (combat_of(s2.current_encounter) matches Some(c2) && c2.phase == c.phase && c2.encounter_card_id == c.encounter_card_id));
        }
        proof {
            assert(played_or_same(s0.library.cards@, id) == s1.library.cards@);
            if player_card_error(s0, id) is None {
                let (p, e, a, d, rr) = player_play(s0, id)->Some_0;
                let c = combat_of(s1.current_encounter)->Some_0;
                let o = crate::library::disciplines::combat::outcome_after(c.outcome, p, e, s1.library.cards@);
                assert(settle_balances(p, o, s1) == settle_balances(p, o, s0));
            }
            assert(combat_player_step(s0, s2, id));
        }
        let ghost mut s3 = s2;
        if self.current_encounter.is_some() {
            let _ = self.resolve_enemy_play(rng);
            proof {
                s3 = *self;
                let c = combat_of(s1.current_encounter)->Some_0;
                let c2 = combat_of(s2.current_encounter)->Some_0;
                let d = crate::library::disciplines::combat::phase_deck(c2);
                crate::library::rolls::lemma_sums_nonneg(d);
                if crate::library::rolls::sum_hand(d) + crate::library::rolls::sum_discard(d) > 0 {
                    let idx = choose|idx: int| crate::library::disciplines::combat::enemy_played(s2, *self, idx);
                    assert(crate::library::disciplines::combat::enemy_played(s2, *self, idx));
                }
                assert(self.current_encounter is None && self.encounter_phase == EncounterPhase::Scouting
                    || (combat_of(self.current_encounter) matches Some(c3) && c3.phase == c.phase && c3.encounter_card_id == c.encounter_card_id));
            }
            if self.current_encounter.is_some() {
                let _ = self.advance_combat_phase();
            }
        }
        proof {
            assert(combat_enemy_step(s2, s3));
            assert(combat_phase_step(s3, *self));
            assert(combat_turn_via(s0, s2, s3, *self, id));
        }
        Ok(())
    }

    /// Play a mining card in the mining encounter: it goes to the discard and
    /// is resolved; a play whose costs the player cannot meet leaves the card
    /// in the discard and changes nothing else.
    fn play_mining_card(&mut self, id: usize, rng: &mut Lcg64Xsh32) -> (r: Result<(), ActionError>)
        requires
            counts_fit(old(self).library.cards@),
            id < old(self).library.cards@.len(),
            old(self).library.cards@[id as int].counts.hand > 0,
            mining_of(old(self).current_encounter) is Some,
            mining_effects(old(self).library.cards@[id as int].kind) is Some ==> {
                &&& crate::library::costs::balances_fit(old(self).token_balances)
                &&& class_hand(old(self).library.cards@, CardClass::Mining) <= u32::MAX
                &&& mining_play_error(*old(self), id) is None ==> mining_play_fits(*old(self), id)
            },
        ensures
            mining_effects(old(self).library.cards@[id as int].kind) is None
                ==> r == Err::<(), ActionError>(ActionError::WrongCardForEncounter { card_id: id as u64 }) && *final(self) == *old(self),
            mining_effects(old(self).library.cards@[id as int].kind) is Some ==> {
                &&& r is Ok
                &&& mining_play_error(*old(self), id) is Some ==> {
                    &&& final(self).library.cards@ == played_or_same(old(self).library.cards@, id)
                    &&& final(self).token_balances == old(self).token_balances
                    &&& final(self).current_encounter == old(self).current_encounter
                    &&& final(self).encounter_results == old(self).encounter_results
                }
                &&& mining_play_error(*old(self), id) is None
                    ==> mining_played(*old(self), *final(self), id, played_or_same(old(self).library.cards@, id))
            },
    {
        match &self.library.cards[id].kind {
            CardKind::Mining { .. } => {},
            _ => {
                return Err(ActionError::WrongCardForEncounter { card_id: id as u64 });
            },
        }
        let ghost s0 = *self;
        let ghost before = self.library.cards@;
        proof {
            assert(before[id as int].counts.spec_total() <= u32::MAX);
        }
        let _ = self.library.play(id);
        proof {
            let c = before[id as int];
            let moved_card = crate::library::with_card_counts(c, crate::library::moved(c.counts, CardLocation::Hand, CardLocation::Discard, 1));
            assert(self.library.cards@ == before.update(id as int, moved_card));
            crate::library::game_state::lemma_class_hand_update(before, id as int, moved_card, CardClass::Mining);
            assert forall|j: int| 0 <= j < self.library.cards@.len() implies (#[trigger] self.library.cards@[j]).counts.spec_total() <= u32::MAX by {
                assert(before[j].counts.spec_total() <= u32::MAX);
            }
            assert(crate::library::game_state::only_counts_moved(before, self.library.cards@)) by {
                assert forall|j: int| #![trigger self.library.cards@[j]] 0 <= j < before.len() implies {
                    &&& self.library.cards@[j] == crate::library::with_card_counts(before[j], self.library.cards@[j].counts)
                    &&& self.library.cards@[j].counts.library == before[j].counts.library
                    &&& self.library.cards@[j].counts.spec_total() == before[j].counts.spec_total()
                } by {
                    if j != id {
                        assert(self.library.cards@[j] == before[j]);
                    }
                }
            }
            crate::library::disciplines::mining::lemma_mining_play_counts_moved(s0, *self, id);
        }
        let ghost s1 = *self;
        let _ = self.resolve_player_mining_card(id, rng);
        proof {
            if mining_play_error(s0, id) is None {
                crate::library::disciplines::mining::lemma_mining_played_counts_moved(s0, s1, *self, id);
            }
        }
        Ok(())
    }

    /// Play a fishing card in the fishing encounter: it goes to the discard and
    /// is resolved; a play the player cannot pay for leaves the card in the
    /// discard and changes nothing else.
    fn play_fishing_card(&mut self, id: usize, rng: &mut Lcg64Xsh32) -> (r: Result<(), ActionError>)
        requires
            counts_fit(old(self).library.cards@),
            id < old(self).library.cards@.len(),
            old(self).library.cards@[id as int].counts.hand > 0,
            fishing_of(old(self).current_encounter) is Some,
            fishing_effects(old(self).library.cards@[id as int].kind) is Some ==> {
                &&& crate::library::costs::balances_fit(old(self).token_balances)
                &&& class_hand(old(self).library.cards@, CardClass::Fishing) <= u32::MAX
                &&& fishing_play_error(*old(self), id) is None ==> fishing_play_fits(*old(self), id)
            },
        ensures
            fishing_effects(old(self).library.cards@[id as int].kind) is None
                ==> r == Err::<(), ActionError>(ActionError::WrongCardForEncounter { card_id: id as u64 }) && *final(self) == *old(self),
            fishing_effects(old(self).library.cards@[id as int].kind) is Some ==> {
                &&& r is Ok
                &&& fishing_play_error(*old(self), id) is Some ==> {
                    &&& final(self).library.cards@ == played_or_same(old(self).library.cards@, id)
                    &&& final(self).token_balances == old(self).token_balances
                    &&& final(self).current_encounter == old(self).current_encounter
                    &&& final(self).encounter_results == old(self).encounter_results
                }
                &&& fishing_play_error(*old(self), id) is None
                    ==> fishing_played(*old(self), *final(self), id, played_or_same(old(self).library.cards@, id))
            },
    {
        match &self.library.cards[id].kind {
            CardKind::Fishing { .. } => {},
            _ => {
                return Err(ActionError::WrongCardForEncounter { card_id: id as u64 });
            },
        }
        let ghost s0 = *self;
        let ghost before = self.library.cards@;
        proof {
            assert(before[id as int].counts.spec_total() <= u32::MAX);
        }
        let _ = self.library.play(id);
        proof {
            let c = before[id as int];
            let moved_card = crate::library::with_card_counts(c, crate::library::moved(c.counts, CardLocation::Hand, CardLocation::Discard, 1));
            assert(self.library.cards@ == before.update(id as int, moved_card));
            crate::library::game_state::lemma_class_hand_update(before, id as int, moved_card, CardClass::Fishing);
            assert forall|j: int| 0 <= j < self.library.cards@.len() implies (#[trigger] self.library.cards@[j]).counts.spec_total() <= u32::MAX by {
                assert(before[j].counts.spec_total() <= u32::MAX);
            }
            assert(crate::library::game_state::only_counts_moved(before, self.library.cards@)) by {
                assert forall|j: int| #![trigger self.library.cards@[j]] 0 <= j < before.len() implies {
                    &&& self.library.cards@[j] == crate::library::with_card_counts(before[j], self.library.cards@[j].counts)
                    &&& self.library.cards@[j].counts.library == before[j].counts.library
                    &&& self.library.cards@[j].counts.spec_total() == before[j].counts.spec_total()
                } by {
                    if j != id {
                        assert(self.library.cards@[j] == before[j]);
                    }
                }
            }
            crate::library::disciplines::fishing::lemma_fishing_play_counts_moved(s0, *self, id);
        }
        let ghost s1 = *self;
        let _ = self.resolve_player_fishing_card(id, rng);
        proof {
            if fishing_play_error(s0, id) is None {
                crate::library::disciplines::fishing::lemma_fishing_played_counts_moved(s0, s1, *self, id);
            }
        }
        Ok(())
    }

    /// Play an herbalism card in the herbalism encounter: it goes to the
    /// discard and is resolved; a play the player cannot pay for leaves the
    /// card in the discard and changes nothing else.
    fn play_herbalism_card(&mut self, id: usize, rng: &mut Lcg64Xsh32) -> (r: Result<(), ActionError>)
        requires
            counts_fit(old(self).library.cards@),
            id < old(self).library.cards@.len(),
            old(self).library.cards@[id as int].counts.hand > 0,
            herbalism_of(old(self).current_encounter) is Some,
            herbalism_effects(old(self).library.cards@[id as int].kind) is Some ==> {
                &&& crate::library::costs::balances_fit(old(self).token_balances)
                &&& class_hand(old(self).library.cards@, CardClass::Herbalism) <= u32::MAX
                &&& herbalism_play_error(*old(self), id) is None ==> herbalism_play_fits(*old(self), id)
            },
        ensures
            herbalism_effects(old(self).library.cards@[id as int].kind) is None
                ==> r == Err::<(), ActionError>(ActionError::WrongCardForEncounter { card_id: id as u64 }) && *final(self) == *old(self),
            herbalism_effects(old(self).library.cards@[id as int].kind) is Some ==> {
                &&& r is Ok
                &&& herbalism_play_error(*old(self), id) is Some ==> {
                    &&& final(self).library.cards@ == played_or_same(old(self).library.cards@, id)
                    &&& final(self).token_balances == old(self).token_balances
                    &&& final(self).current_encounter == old(self).current_encounter
                    &&& final(self).encounter_results == old(self).encounter_results
                }
                &&& herbalism_play_error(*old(self), id) is None
                    ==> herbalism_played(*old(self), *final(self), id, played_or_same(old(self).library.cards@, id))
            },
    {
        match &self.library.cards[id].kind {
            CardKind::Herbalism { .. } => {},
            _ => {
                return Err(ActionError::WrongCardForEncounter { card_id: id as u64 });
            },
        }
        let ghost s0 = *self;
        let ghost before = self.library.cards@;
        proof {
            assert(before[id as int].counts.spec_total() <= u32::MAX);
        }
        let _ = self.library.play(id);
        proof {
            let c = before[id as int];
            let moved_card = crate::library::with_card_counts(c, crate::library::moved(c.counts, CardLocation::Hand, CardLocation::Discard, 1));
            assert(self.library.cards@ == before.update(id as int, moved_card));
            crate::library::game_state::lemma_class_hand_update(before, id as int, moved_card, CardClass::Herbalism);
            assert forall|j: int| 0 <= j < self.library.cards@.len() implies (#[trigger] self.library.cards@[j]).counts.spec_total() <= u32::MAX by {
                assert(before[j].counts.spec_total() <= u32::MAX);
            }
            assert(crate::library::game_state::only_counts_moved(before, self.library.cards@)) by {
                assert forall|j: int| #![trigger self.library.cards@[j]] 0 <= j < before.len() implies {
                    &&& self.library.cards@[j] == crate::library::with_card_counts(before[j], self.library.cards@[j].counts)
                    &&& self.library.cards@[j].counts.library == before[j].counts.library
                    &&& self.library.cards@[j].counts.spec_total() == before[j].counts.spec_total()
                } by {
                    if j != id {
                        assert(self.library.cards@[j] == before[j]);
                    }
                }
            }
            crate::library::disciplines::herbalism::lemma_herbalism_play_counts_moved(s0, *self, id);
        }
        let ghost s1 = *self;
        let _ = self.resolve_player_herbalism_card(id, rng);
        proof {
            if herbalism_play_error(s0, id) is None {
                crate::library::disciplines::herbalism::lemma_herbalism_played_counts_moved(s0, s1, *self, id);
            }
        }
        Ok(())
    }

    /// Play a woodcutting card in the woodcutting encounter: it goes to the
    /// discard and is resolved; a play the player cannot pay for leaves the
    /// card in the discard and changes nothing else.
    fn play_woodcutting_card(&mut self, id: usize, rng: &mut Lcg64Xsh32) -> (r: Result<(), ActionError>)
        requires
            counts_fit(old(self).library.cards@),
            id < old(self).library.cards@.len(),
            old(self).library.cards@[id as int].counts.hand > 0,
            woodcutting_of(old(self).current_encounter) is Some,
            woodcutting_effects(old(self).library.cards@[id as int].kind) is Some ==> {
                &&& crate::library::costs::balances_fit(old(self).token_balances)
                &&& class_hand(old(self).library.cards@, CardClass::Woodcutting) <= u32::MAX
                &&& woodcutting_play_error(*old(self), id) is None ==> woodcutting_play_fits(*old(self), id)
            },
        ensures
            woodcutting_effects(old(self).library.cards@[id as int].kind) is None
                ==> r == Err::<(), ActionError>(ActionError::WrongCardForEncounter { card_id: id as u64 }) && *final(self) == *old(self),
            woodcutting_effects(old(self).library.cards@[id as int].kind) is Some ==> {
                &&& r is Ok
                &&& woodcutting_play_error(*old(self), id) is Some ==> {
                    &&& final(self).library.cards@ == played_or_same(old(self).library.cards@, id)
                    &&& final(self).token_balances == old(self).token_balances
                    &&& final(self).current_encounter == old(self).current_encounter
                    &&& final(self).encounter_results == old(self).encounter_results
                }
                &&& woodcutting_play_error(*old(self), id) is None
                    ==> woodcutting_played(*old(self), *final(self), id, played_or_same(old(self).library.cards@, id))
            },
    {
        match &self.library.cards[id].kind {
            CardKind::Woodcutting { .. } => {},
            _ => {
                return Err(ActionError::WrongCardForEncounter { card_id: id as u64 });
            },
        }
        let ghost s0 = *self;
        let ghost before = self.library.cards@;
        proof {
            assert(before[id as int].counts.spec_total() <= u32::MAX);
        }
        let _ = self.library.play(id);
        proof {
            let c = before[id as int];
            let moved_card = crate::library::with_card_counts(c, crate::library::moved(c.counts, CardLocation::Hand, CardLocation::Discard, 1));
            assert(self.library.cards@ == before.update(id as int, moved_card));
            crate::library::game_state::lemma_class_hand_update(before, id as int, moved_card, CardClass::Woodcutting);
            assert forall|j: int| 0 <= j < self.library.cards@.len() implies (#[trigger] self.library.cards@[j]).counts.spec_total() <= u32::MAX by {
                assert(before[j].counts.spec_total() <= u32::MAX);
            }
            assert(crate::library::game_state::only_counts_moved(before, self.library.cards@)) by {
                assert forall|j: int| #![trigger self.library.cards@[j]] 0 <= j < before.len() implies {
                    &&& self.library.cards@[j] == crate::library::with_card_counts(before[j], self.library.cards@[j].counts)
                    &&& self.library.cards@[j].counts.library == before[j].counts.library
                    &&& self.library.cards@[j].counts.spec_total() == before[j].counts.spec_total()
                } by {
                    if j != id {
                        assert(self.library.cards@[j] == before[j]);
                    }
                }
            }
            crate::library::disciplines::woodcutting::lemma_woodcutting_play_counts_moved(s0, *self, id);
        }
        let ghost s1 = *self;
        let _ = self.resolve_player_woodcutting_card(id, rng);
        proof {
            if woodcutting_play_error(s0, id) is None {
                crate::library::disciplines::woodcutting::lemma_woodcutting_played_counts_moved(s0, s1, *self, id);
            }
        }
        Ok(())
    }

    fn apply_scouting(&mut self, card_ids: &Vec<usize>) -> (r: Result<(), ActionError>)
        requires
            old(self).encounter_phase == EncounterPhase::Scouting ==> {
                let c1 = scouting_cards(*old(self));
                &&& old(self).current_encounter matches Some(enc) ==> move_fits(old(self).library.cards@, enc.spec_encounter_card_id(), CardLocation::Deck, 1)
                &&& encounter_hand_total(c1) <= usize::MAX
                &&& forall|i: int| 0 <= i < c1.len() ==> (#[trigger] c1[i]).counts.hand + c1[i].counts.deck <= u32::MAX
            },
        ensures
            old(self).encounter_phase != EncounterPhase::Scouting ==> r == Err::<(), ActionError>(ActionError::NotInScoutingPhase) && *final(self) == *old(self),
            old(self).encounter_phase == EncounterPhase::Scouting ==> match first_missing(old(self).library.cards@, card_ids@, 0) {
                Some(id) => r == Err::<(), ActionError>(ActionError::EncounterNotInHand { card_id: id }) && *final(self) == *old(self),
                None => {
                    &&& r is Ok
                    &&& final(self).library.cards@ == scouted(*old(self))
                    &&& final(self).encounter_phase == EncounterPhase::NoEncounter
                    &&& final(self).token_balances == old(self).token_balances
                    &&& final(self).current_encounter == old(self).current_encounter
                },
            },
    {
        if self.encounter_phase != EncounterPhase::Scouting {
            return Err(ActionError::NotInScoutingPhase);
        }
        let mut i: usize = 0;
        while i < card_ids.len()
            invariant
                i <= card_ids.len(),
                *self == *old(self),
                self.encounter_phase == EncounterPhase::Scouting,
                first_missing(self.library.cards@, card_ids@, 0) == first_missing(self.library.cards@, card_ids@, i as int),
            decreases card_ids.len() - i,
        {
            if !self.library.encounter_contains(card_ids[i]) {
                return Err(ActionError::EncounterNotInHand { card_id: card_ids[i] });
            }
            i += 1;
        }
        let enc_id = match &self.current_encounter {
            Some(enc) => Some(enc.encounter_card_id()),
            None => None,
        };
        match enc_id {
            Some(id) => {
                let _ = self.library.return_to_deck(id);
            },
            None => {},
        }
        let target: usize = match self.token_balances.get(&Token::persistent(TokenType::Foresight)) {
            Some(v) => #[verifier::truncate] (v as usize),
            None => 3,
        };
        self.library.encounter_draw_to_hand(target);
        self.encounter_phase = EncounterPhase::NoEncounter;
        Ok(())
    }
}


/// The kinds of player actions.
#[derive(Clone, Copy, Debug, PartialEq, Eq, Structural)]
pub enum ActionKind {
    NewGame,
    PickEncounter,
    PlayCard,
    ApplyScouting,
    Abort,
    Conclude,
    CraftSwap,
    CraftCard,
    CraftDurability,
    ResearchChooseProject,
    ResearchSelectCandidate,
    ResearchProgress,
    ResearchBeginExperiment,
    ResearchPlayHand,
    ResearchConcludeExperiment,
}

pub open spec fn kind_of(a: PlayerActions) -> ActionKind {
    match a {
        PlayerActions::NewGame { .. } => ActionKind::NewGame,
        PlayerActions::EncounterPickEncounter { .. } => ActionKind::PickEncounter,
        PlayerActions::EncounterPlayCard { .. } => ActionKind::PlayCard,
        PlayerActions::EncounterApplyScouting { .. } => ActionKind::ApplyScouting,
        PlayerActions::EncounterAbort => ActionKind::Abort,
        PlayerActions::EncounterConclude => ActionKind::Conclude,
        PlayerActions::EncounterCraftSwap { .. } => ActionKind::CraftSwap,
        PlayerActions::EncounterCraftCard { .. } => ActionKind::CraftCard,
        PlayerActions::EncounterCraftDurability { .. } => ActionKind::CraftDurability,
        PlayerActions::ResearchChooseProject { .. } => ActionKind::ResearchChooseProject,
        PlayerActions::ResearchSelectCandidate { .. } => ActionKind::ResearchSelectCandidate,
        PlayerActions::ResearchProgress { .. } => ActionKind::ResearchProgress,
        PlayerActions::ResearchBeginExperiment => ActionKind::ResearchBeginExperiment,
        PlayerActions::ResearchPlayHand { .. } => ActionKind::ResearchPlayHand,
        PlayerActions::ResearchConcludeExperiment => ActionKind::ResearchConcludeExperiment,
    }
}

/// The kinds of the actions the player can take in state `s`, in the order listed.
pub open spec fn possible_kinds(s: GameState) -> Seq<ActionKind> {
    let rest = match s.encounter_phase {
        EncounterPhase::NoEncounter => if crate::library::encounter_hand_ids(s.library.cards@).len() > 0 {
            seq![ActionKind::PickEncounter]
        } else {
            Seq::empty()
        },
        EncounterPhase::InEncounter => match s.current_encounter {
            Some(enc) => {
                let play = if ids_where(
                    s.library.cards@.len(),
                    |i: int| passes(s.library.cards@[i], Some(CardLocation::Hand), Some(accepted_class(enc))),
                ).len() > 0 {
                    seq![ActionKind::PlayCard]
                } else {
                    Seq::empty()
                };
                if enc is Combat {
                    play
                } else if enc is Crafting {
                    play + seq![ActionKind::CraftSwap, ActionKind::CraftCard, ActionKind::CraftDurability, ActionKind::Conclude, ActionKind::Abort]
                } else if enc is Mining {
                    play + seq![ActionKind::Conclude, ActionKind::Abort]
                } else if enc is Research {
                    play + seq![ActionKind::ResearchChooseProject, ActionKind::ResearchSelectCandidate, ActionKind::ResearchProgress,
                        ActionKind::ResearchBeginExperiment, ActionKind::ResearchPlayHand,
                        ActionKind::ResearchConcludeExperiment, ActionKind::Conclude, ActionKind::Abort]
                } else {
                    play.push(ActionKind::Abort)
                }
            },
            None => Seq::empty(),
        },
        EncounterPhase::Scouting => seq![ActionKind::ApplyScouting],
    };
    seq![ActionKind::NewGame] + rest
}

/// The placeholder payloads of listed actions: no seed, card 0, no choices.
pub open spec fn placeholder(a: PlayerActions) -> bool {
    match a {
        PlayerActions::NewGame { seed } => seed is None,
        PlayerActions::EncounterPickEncounter { card_id } => card_id == 0,
        PlayerActions::EncounterPlayCard { card_id } => card_id == 0,
        PlayerActions::EncounterApplyScouting { card_ids } => card_ids@.len() == 0,
        PlayerActions::EncounterAbort => true,
        PlayerActions::EncounterConclude => true,
        PlayerActions::EncounterCraftSwap { from_id, to_id } => from_id == 0 && to_id == 0,
        PlayerActions::EncounterCraftCard { target_card_id } => target_card_id == 0,
        PlayerActions::EncounterCraftDurability { discipline } => discipline@.len() == 0,
        PlayerActions::ResearchChooseProject { discipline, tier_count } => discipline == Discipline::Combat && tier_count == 0,
        PlayerActions::ResearchSelectCandidate { candidate_index } => candidate_index == 0,
        PlayerActions::ResearchProgress { amount } => amount == 0,
        PlayerActions::ResearchBeginExperiment => true,
        PlayerActions::ResearchPlayHand { card_ids } => card_ids@.len() == 0,
        PlayerActions::ResearchConcludeExperiment => true,
    }
}

impl GameState {
    /// The actions the player can take now, each with placeholder values that
    /// show the expected payload: a new game always; picking when the area
    /// hand holds an encounter; playing when a hand card fits the encounter,
    /// and aborting outside combat; scouting in the scouting phase.
    pub fn possible_actions(&self) -> (r: Vec<PlayerActions>)
        ensures
            r@.map_values(|a: PlayerActions| kind_of(a)) == possible_kinds(*self),
            forall|i: int| 0 <= i < r@.len() ==> placeholder(#[trigger] r@[i]),
    {
        let mut actions: Vec<PlayerActions> = Vec::new();
        actions.push(PlayerActions::NewGame { seed: None });
        match self.encounter_phase {
            EncounterPhase::NoEncounter => {
                let hand = self.library.encounter_hand();
                if hand.len() > 0 {
                    actions.push(PlayerActions::EncounterPickEncounter { card_id: 0 });
                }
            },
            EncounterPhase::InEncounter => {
                match &self.current_encounter {
                    Some(enc) => {
                        let playable = self.playable_card_ids();
                        if playable.len() > 0 {
                            actions.push(PlayerActions::EncounterPlayCard { card_id: 0 });
                        }
                        match enc {
                            EncounterState::Combat(_) => {},
                            EncounterState::Crafting(_) => {
                                actions.push(PlayerActions::EncounterCraftSwap { from_id: 0, to_id: 0 });
                                actions.push(PlayerActions::EncounterCraftCard { target_card_id: 0 });
                                actions.push(PlayerActions::EncounterCraftDurability { discipline: String::new() });
                                actions.push(PlayerActions::EncounterConclude);
                                actions.push(PlayerActions::EncounterAbort);
                            },
                            EncounterState::Mining(_) => {
                                actions.push(PlayerActions::EncounterConclude);
                                actions.push(PlayerActions::EncounterAbort);
                            },
                            EncounterState::Research(_) => {
                                actions.push(PlayerActions::ResearchChooseProject { discipline: Discipline::Combat, tier_count: 0 });
                                actions.push(PlayerActions::ResearchSelectCandidate { candidate_index: 0 });
                                actions.push(PlayerActions::ResearchProgress { amount: 0 });
                                actions.push(PlayerActions::ResearchBeginExperiment);
                                actions.push(PlayerActions::ResearchPlayHand { card_ids: Vec::new() });
                                actions.push(PlayerActions::ResearchConcludeExperiment);
                                actions.push(PlayerActions::EncounterConclude);
                                actions.push(PlayerActions::EncounterAbort);
                            },
                            _ => {
                                actions.push(PlayerActions::EncounterAbort);
                            },
                        }
                    },
                    None => {},
                }
            },
            EncounterPhase::Scouting => {
                actions.push(PlayerActions::EncounterApplyScouting { card_ids: Vec::new() });
            },
        }
        proof {
            assert(actions@.map_values(|a: PlayerActions| kind_of(a)) =~= possible_kinds(*self));
        }
        actions
    }
}

proof fn lemma_ids_where_nonempty(n: nat, p: spec_fn(int) -> bool, i: int)
    requires
        0 <= i < n,
        p(i),
    ensures
        ids_where(n, p).len() > 0,
    decreases n,
{
    if !p(n - 1) {
        lemma_ids_where_nonempty((n - 1) as nat, p, i);
    }
}

proof fn lemma_encounter_hand_nonempty(cards: Seq<LibraryCard>, i: int)
    requires
        0 <= i < cards.len(),
        is_encounter(cards[i]),
        cards[i].counts.hand > 0,
    ensures
        encounter_hand_ids(cards).len() > 0,
    decreases cards.len(),
{
    if i < cards.len() - 1 {
        assert(cards.drop_last()[i] == cards[i]);
        lemma_encounter_hand_nonempty(cards.drop_last(), i);
    }
}

/// Every action the game accepts is among the actions it lists as possible.
/// This holds in every state whose phase agrees with whether an encounter is
/// active, except that picking an encounter is accepted in any phase but
/// listed only when no encounter is under way.
pub proof fn law_accepted_actions_are_listed(s: GameState, a: PlayerActions)
    requires
        (s.encounter_phase == EncounterPhase::InEncounter) == (s.current_encounter is Some),
        action_refusal(s, a) is None,
        a is EncounterPickEncounter ==> s.encounter_phase == EncounterPhase::NoEncounter,
        s.library.cards@.len() <= usize::MAX,
    ensures
        possible_kinds(s).contains(kind_of(a)),
{
    let cards = s.library.cards@;
    let k = kind_of(a);
    let rest = possible_kinds(s).drop_first();
    assert(possible_kinds(s) =~= seq![ActionKind::NewGame] + rest);
    match a {
        PlayerActions::NewGame { .. } => {
            assert(possible_kinds(s)[0] == k);
        },
        PlayerActions::EncounterPickEncounter { card_id } => {
            lemma_encounter_hand_nonempty(cards, card_id as int);
            assert(rest =~= seq![ActionKind::PickEncounter]);
            assert(possible_kinds(s)[1] == k);
        },
        PlayerActions::EncounterPlayCard { card_id } => {
            let enc = s.current_encounter->Some_0;
            let p = |i: int| passes(s.library.cards@[i], Some(CardLocation::Hand), Some(accepted_class(enc)));
            let kind = cards[card_id as int].kind;
            match enc {
                EncounterState::Combat(c) => {
                    assert(c.phase.spec_allows(kind));
                    assert(class_of(kind) == accepted_class(enc));
                },
                EncounterState::Rest(_) => {
                    assert(rest_play_error(s, card_id as usize) is None);
                    assert(crate::library::disciplines::rest::rest_effects(kind) is Some);
                    assert(class_of(kind) == accepted_class(enc));
                },
                EncounterState::Crafting(_) => {
                    assert(crafting_play_error(s, card_id as usize) is None);
                    assert(class_of(kind) == accepted_class(enc));
                },
                _ => {},
            }
            assert(p(card_id as int));
            lemma_ids_where_nonempty(cards.len(), p, card_id as int);
            assert(rest[0] == ActionKind::PlayCard);
            assert(possible_kinds(s)[1] == k);
        },
        PlayerActions::EncounterApplyScouting { .. } => {
            assert(rest =~= seq![ActionKind::ApplyScouting]);
            assert(possible_kinds(s)[1] == k);
        },
        PlayerActions::EncounterAbort => {
            assert(rest.last() == ActionKind::Abort);
            assert(possible_kinds(s)[possible_kinds(s).len() - 1] == k);
        },
        PlayerActions::EncounterConclude => {
            assert(rest[rest.len() - 2] == ActionKind::Conclude);
            assert(possible_kinds(s)[possible_kinds(s).len() - 2] == k);
        },
        PlayerActions::EncounterCraftSwap { .. } => {
            assert(s.current_encounter->Some_0 is Crafting);
            assert(rest[rest.len() - 5] == ActionKind::CraftSwap);
            assert(possible_kinds(s)[possible_kinds(s).len() - 5] == k);
        },
        PlayerActions::EncounterCraftCard { .. } => {
            assert(s.current_encounter->Some_0 is Crafting);
            assert(rest[rest.len() - 4] == ActionKind::CraftCard);
            assert(possible_kinds(s)[possible_kinds(s).len() - 4] == k);
        },
        PlayerActions::EncounterCraftDurability { .. } => {
            assert(s.current_encounter->Some_0 is Crafting);
            assert(rest[rest.len() - 3] == ActionKind::CraftDurability);
            assert(possible_kinds(s)[possible_kinds(s).len() - 3] == k);
        },
        PlayerActions::ResearchChooseProject { .. } => {
            assert(s.current_encounter->Some_0 is Research);
            assert(rest[rest.len() - 8] == ActionKind::ResearchChooseProject);
            assert(possible_kinds(s)[possible_kinds(s).len() - 8] == k);
        },
        PlayerActions::ResearchSelectCandidate { .. } => {
            assert(s.current_encounter->Some_0 is Research);
            assert(rest[rest.len() - 7] == ActionKind::ResearchSelectCandidate);
            assert(possible_kinds(s)[possible_kinds(s).len() - 7] == k);
        },
        PlayerActions::ResearchProgress { .. } => {
            assert(s.current_encounter->Some_0 is Research);
            assert(rest[rest.len() - 6] == ActionKind::ResearchProgress);
            assert(possible_kinds(s)[possible_kinds(s).len() - 6] == k);
        },
        PlayerActions::ResearchBeginExperiment => {
            assert(s.current_encounter->Some_0 is Research);
            assert(rest[rest.len() - 5] == ActionKind::ResearchBeginExperiment);
            assert(possible_kinds(s)[possible_kinds(s).len() - 5] == k);
        },
        PlayerActions::ResearchPlayHand { .. } => {
            assert(s.current_encounter->Some_0 is Research);
            assert(rest[rest.len() - 4] == ActionKind::ResearchPlayHand);
            assert(possible_kinds(s)[possible_kinds(s).len() - 4] == k);
        },
        PlayerActions::ResearchConcludeExperiment => {
            assert(s.current_encounter->Some_0 is Research);
            assert(rest[rest.len() - 3] == ActionKind::ResearchConcludeExperiment);
            assert(possible_kinds(s)[possible_kinds(s).len() - 3] == k);
        },
    }
}

} // verus!
