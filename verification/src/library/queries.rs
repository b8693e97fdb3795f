//! Read-only views of the library and the game state: which cards sit where,
//! which cards can be played now.
use super::game_state::{card_class, class_of, CardClass, GameState};
use super::types::{CardKind, CardLocation, EncounterState, LibraryCard};
use super::{encounter_deck_total, ids_where, is_encounter, loc_count, Library};
use vstd::prelude::*;

verus! {

/// A card passes the filter: it has a copy at `loc` (when given) and is of class `cl` (when given).
pub open spec fn passes(c: LibraryCard, loc: Option<CardLocation>, cl: Option<CardClass>) -> bool {
    &&& (loc matches Some(l) ==> loc_count(c.counts, l) > 0)
    &&& (cl matches Some(k) ==> class_of(c.kind) == k)
}

/// The class of card an encounter accepts: the combat phase's deck, or the
/// encounter's discipline.
pub open spec fn accepted_class(enc: EncounterState) -> CardClass {
    match enc {
        EncounterState::Combat(c) => match c.phase {
            super::types::CombatPhase::Defending => CardClass::Defence,
            super::types::CombatPhase::Attacking => CardClass::Attack,
            super::types::CombatPhase::Resourcing => CardClass::Resource,
        },
        EncounterState::Mining(_) => CardClass::Mining,
        EncounterState::Herbalism(_) => CardClass::Herbalism,
        EncounterState::Woodcutting(_) => CardClass::Woodcutting,
        EncounterState::Fishing(_) => CardClass::Fishing,
        EncounterState::Rest(_) => CardClass::Rest,
        EncounterState::Crafting(_) => CardClass::Crafting,
        EncounterState::Research(_) => CardClass::Research,
    }
}

fn accepted_class_exec(enc: &EncounterState) -> (r: CardClass)
    ensures
        r == accepted_class(*enc),
{
    match enc {
        EncounterState::Combat(c) => match c.phase {
            super::types::CombatPhase::Defending => CardClass::Defence,
            super::types::CombatPhase::Attacking => CardClass::Attack,
            super::types::CombatPhase::Resourcing => CardClass::Resource,
        },
        EncounterState::Mining(_) => CardClass::Mining,
        EncounterState::Herbalism(_) => CardClass::Herbalism,
        EncounterState::Woodcutting(_) => CardClass::Woodcutting,
        EncounterState::Fishing(_) => CardClass::Fishing,
        EncounterState::Rest(_) => CardClass::Rest,
        EncounterState::Crafting(_) => CardClass::Crafting,
        EncounterState::Research(_) => CardClass::Research,
    }
}

impl Library {
    /// The ids of the cards with a copy at `location` (any location when
    /// `None`) and of class `class` (any class when `None`), in id order.
    pub fn cards_at(&self, location: Option<CardLocation>, class: Option<CardClass>) -> (r: Vec<usize>)
        ensures
            r@ == ids_where(self.cards@.len(), |i: int| passes(self.cards@[i], location, class)),
    {
        let ghost p = |i: int| passes(self.cards@[i], location, class);
        let mut r: Vec<usize> = Vec::new();
        let mut i: usize = 0;
        while i < self.cards.len()
            invariant
                i <= self.cards@.len(),
                p == (|i: int| passes(self.cards@[i], location, class)),
                r@ == ids_where(i as nat, p),
            decreases self.cards@.len() - i,
        {
            let c = &self.cards[i];
            let at = match location {
                Some(CardLocation::Library) => c.counts.library > 0,
                Some(CardLocation::Deck) => c.counts.deck > 0,
                Some(CardLocation::Hand) => c.counts.hand > 0,
                Some(CardLocation::Discard) => c.counts.discard > 0,
                None => true,
            };
            let kind_ok = match class {
                Some(k) => card_class(&c.kind) == k,
                None => true,
            };
            if at && kind_ok {
                r.push(i);
            }
            i += 1;
        }
        r
    }
}

impl GameState {
    /// The ids of the hand cards that the active encounter accepts: in
    /// combat those of the phase's deck, elsewhere those of the discipline.
    pub fn playable_card_ids(&self) -> (r: Vec<usize>)
        ensures
            match self.current_encounter {
                Some(enc) => r@ == ids_where(
                    self.library.cards@.len(),
                    |i: int| passes(self.library.cards@[i], Some(CardLocation::Hand), Some(accepted_class(enc))),
                ),
                None => r@.len() == 0,
            },
    {
        match &self.current_encounter {
            Some(enc) => {
                let cl = accepted_class_exec(enc);
                self.library.cards_at(Some(CardLocation::Hand), Some(cl))
            },
            None => Vec::new(),
        }
    }
}

/// Encounter copies in the discard.
pub open spec fn encounter_discard_total(cards: Seq<LibraryCard>) -> int
    decreases cards.len(),
{
    if cards.len() == 0 {
        0
    } else {
        encounter_discard_total(cards.drop_last()) + (if is_encounter(cards.last()) { cards.last().counts.discard as int } else { 0 })
    }
}

impl Library {
    /// The area's encounter copies still to draw (in the deck) and already
    /// played (in the discard).
    pub fn area_pile_counts(&self) -> (r: (u128, u128))
        ensures
            r.0 == encounter_deck_total(self.cards@),
            r.1 == encounter_discard_total(self.cards@),
    {
        let mut deck: u128 = 0;
        let mut discard: u128 = 0;
        let mut i: usize = 0;
        while i < self.cards.len()
            invariant
                i <= self.cards@.len(),
                deck == encounter_deck_total(self.cards@.take(i as int)),
                discard == encounter_discard_total(self.cards@.take(i as int)),
                deck <= i * 0xffff_ffff,
                discard <= i * 0xffff_ffff,
            decreases self.cards@.len() - i,
        {
            proof {
                assert(self.cards@.take(i + 1).drop_last() =~= self.cards@.take(i as int));
                assert(self.cards@.take(i + 1).last() == self.cards@[i as int]);
            }
            let c = &self.cards[i];
            if let CardKind::Encounter { .. } = c.kind {
                deck = deck + c.counts.deck as u128;
                discard = discard + c.counts.discard as u128;
            }
            i += 1;
        }
        assert(self.cards@.take(self.cards@.len() as int) =~= self.cards@);
        (deck, discard)
    }
}

} // verus!
