//! Crafting encounters: the player spends crafting tokens to swap cards
//! between the deck and the library, to add durability to a gathering
//! discipline, or to craft a copy of a player card. A craft runs as a
//! mini-game: each crafting card played costs a token, the enemy raises the
//! material costs, and when the tokens run out (or the player concludes) the
//! craft succeeds where the player can pay the costs.
use crate::library::concrete::template_of;
use crate::library::costs::{
    check_and_deduct_gathering_costs, deduct_b, deduct_fits, extract_gathering_costs_from_effects, gathering_costs,
    preview_result, balances_fit, totals_fit, Balances, CostError,
};
use crate::library::disciplines::combat::fits;
use crate::library::game_state::{class_hand, class_of, counts_fit, draw_result, CardClass, GameState};
use crate::library::rolls::{deck_shuffle_hand, lemma_sums_nonneg, same_cards, sum_deck, sum_discard, sum_hand, total_fits};
use crate::library::token_map::{bal, bset, get0, TokenMap};
use crate::library::types::{
    duplicate_crafting_deck, effects_view, persistent_key, HasDeckCounts, CardEffectKind, CardEffectKindView, CardKind, ConcreteEffect,
    CraftingCraftState, CraftingEncounterState, EncounterKind, EncounterOutcome, EncounterPhase, EncounterState,
    EnemyCraftingCard, LibraryCard, Token, TokenType,
};
use crate::library::{loc_count, spec_move, with_card_counts, CardLocation, Library};
use rand_pcg::Lcg64Xsh32;
use vstd::prelude::*;

verus! {

/// Why a crafting action was refused.
#[derive(Clone, Copy, Debug, PartialEq, Eq, Structural)]
pub enum CraftingError {
    /// Another encounter is under way.
    AlreadyInEncounter,
    /// The library has no card with this id.
    CardNotFound { card_id: usize },
    /// The card is not a crafting encounter.
    NotACraftingEncounter { card_id: usize },
    /// No crafting encounter is active (or it is already decided).
    NoActiveCrafting,
    /// The encounter holds fewer crafting tokens than the action needs.
    NotEnoughCraftingTokens { need: i64, have: i64 },
    /// Only player cards can be swapped or crafted.
    NotAPlayerCard { card_id: usize },
    /// The card to swap out has no copy in deck or discard.
    NotInDeckOrDiscard { card_id: usize },
    /// The card to swap in has no copy in the library.
    NotInLibrary { card_id: usize },
    /// Durability is added to Mining, Herbalism, Woodcutting or Fishing only.
    UnknownDiscipline,
    /// The player holds too few materials.
    NotEnoughMaterials { need: i64, have: i64 },
    /// A craft is under way.
    CraftInProgress,
    /// No craft is under way.
    NoActiveCraft,
    /// Only crafting cards are played in a craft.
    NotACraftingCard { card_id: usize },
    /// The player cannot pay the card's costs.
    Cost(CostError),
}

/// The crafting encounter in progress, if any.
pub open spec fn crafting_of(enc: Option<EncounterState>) -> Option<CraftingEncounterState> {
    match enc {
        Some(EncounterState::Crafting(c)) => Some(c),
        _ => None,
    }
}

/// The crafting encounter in progress and still undecided, if any.
pub open spec fn open_crafting(enc: Option<EncounterState>) -> Option<CraftingEncounterState> {
    match crafting_of(enc) {
        Some(c) => if c.outcome == EncounterOutcome::Undecided { Some(c) } else { None },
        None => None,
    }
}

/// The cards a player plays: attack, defence, resource and the gathering,
/// rest and crafting cards.
pub open spec fn is_player_kind(k: CardKind) -> bool {
    ||| k is Attack
    ||| k is Defence
    ||| k is Resource
    ||| k is Mining
    ||| k is Herbalism
    ||| k is Woodcutting
    ||| k is Fishing
    ||| k is Rest
    ||| k is Crafting
}

fn is_player_card(kind: &CardKind) -> (r: bool)
    ensures
        r == is_player_kind(*kind),
{
    match kind {
        CardKind::Attack { .. } | CardKind::Defence { .. } | CardKind::Resource { .. } | CardKind::Mining { .. }
        | CardKind::Herbalism { .. } | CardKind::Woodcutting { .. } | CardKind::Fishing { .. } | CardKind::Rest { .. }
        | CardKind::Crafting { .. } => true,
        _ => false,
    }
}

/// The cards after one copy of card `id` moves from hand to discard, or as
/// they were where it has no copy in hand.
pub open spec fn played_or_same(cards: Seq<LibraryCard>, id: usize) -> Seq<LibraryCard> {
    match spec_move(cards, id, CardLocation::Hand, CardLocation::Discard, 1) {
        Ok(after) => after,
        Err(_) => cards,
    }
}

/// Every cost can be paid from the persistent counter of its type.
pub open spec fn can_pay_costs(costs: Seq<(TokenType, i64)>, b: Balances) -> bool {
    forall|i: int| 0 <= i < costs.len() ==> get0(b.0, persistent_key((#[trigger] costs[i]).0)) >= costs[i].1
}

/// The balances after paying each cost from the persistent counter of its type, in order.
pub open spec fn pay_costs(b: Balances, costs: Seq<(TokenType, i64)>) -> Balances
    decreases costs.len(),
{
    if costs.len() == 0 {
        b
    } else {
        let p = pay_costs(b, costs.drop_last());
        let c = costs.last();
        bset(p, persistent_key(c.0), (get0(p.0, persistent_key(c.0)) - c.1) as i64)
    }
}

/// Paying the costs in order keeps every counter within `i64`.
pub open spec fn pay_fits(b: Balances, costs: Seq<(TokenType, i64)>) -> bool
    decreases costs.len(),
{
    if costs.len() == 0 {
        true
    } else {
        let p = pay_costs(b, costs.drop_last());
        &&& pay_fits(b, costs.drop_last())
        &&& fits(get0(p.0, persistent_key(costs.last().0)) - costs.last().1)
    }
}

/// How a craft ends on balances `b` and cards `cards`: the new balances and
/// cards, and whether the encounter is won. Without a craft the encounter is
/// won as it stands; a craft whose costs cannot all be paid is lost; else the
/// costs are paid and the crafted card gains a library copy (lost where the
/// card does not exist).
pub open spec fn craft_finish(b: Balances, st: CraftingEncounterState, cards: Seq<LibraryCard>) -> (Balances, Seq<LibraryCard>, bool) {
    match st.active_craft {
        None => (b, cards, true),
        Some(c) => if !can_pay_costs(c.current_costs@, b) {
            (b, cards, false)
        } else {
            let b2 = pay_costs(b, c.current_costs@);
            let id = c.target_card_id;
            if id < cards.len() {
                let cc = cards[id as int].counts;
                (b2, cards.update(id as int, with_card_counts(cards[id as int], crate::library::types::CardCounts { library: (cc.library + 1) as u32, ..cc })), true)
            } else {
                (b2, cards, false)
            }
        },
    }
}

/// Finishing the craft stays in range: the payments fit, and so does the
/// crafted card's new library copy.
pub open spec fn craft_finish_fits(b: Balances, st: CraftingEncounterState, cards: Seq<LibraryCard>) -> bool {
    match st.active_craft {
        Some(c) => {
            &&& can_pay_costs(c.current_costs@, b) ==> pay_fits(b, c.current_costs@)
            &&& c.target_card_id < cards.len() ==> cards[c.target_card_id as int].counts.library < u32::MAX
        },
        None => true,
    }
}

/// `t` is `s` with the encounter closed with outcome `o`: recorded, scouting next.
pub open spec fn encounter_closed(s: GameState, t: GameState, o: EncounterOutcome) -> bool {
    &&& t.current_encounter is None
    &&& t.encounter_phase == EncounterPhase::Scouting
    &&& t.last_encounter_result == Some(o)
    &&& t.encounter_results@ == s.encounter_results@.push(o)
}

/// The outcome of a win flag.
pub open spec fn outcome_of(won: bool) -> EncounterOutcome {
    if won { EncounterOutcome::PlayerWon } else { EncounterOutcome::PlayerLost }
}

/// A crafting deck dealt from its definition: the same cards with the same
/// numbers of copies, however they are spread over deck, hand and discard,
/// and the same totals per pile.
pub open spec fn crafting_deck_from_def(d: Seq<EnemyCraftingCard>, def: Seq<EnemyCraftingCard>) -> bool {
    &&& d.len() == def.len()
    &&& forall|i: int| 0 <= i < d.len() ==> {
        &&& (#[trigger] d[i]).increases@ == def[i].increases@
        &&& effects_view(d[i].effects@) == effects_view(def[i].effects@)
        &&& crate::library::rolls::copies(d[i].counts) == crate::library::rolls::copies(def[i].counts)
    }
    &&& sum_deck(d) == sum_deck(def)
    &&& sum_hand(d) == sum_hand(def)
    &&& sum_discard(d) == sum_discard(def)
}

proof fn lemma_sums_same_crafting_counts(a: Seq<EnemyCraftingCard>, b: Seq<EnemyCraftingCard>)
    requires
        a.len() == b.len(),
        forall|i: int| 0 <= i < a.len() ==> (#[trigger] a[i]).counts == b[i].counts,
    ensures
        sum_deck(a) == sum_deck(b),
        sum_hand(a) == sum_hand(b),
        sum_discard(a) == sum_discard(b),
    decreases a.len(),
{
    if a.len() > 0 {
        lemma_sums_same_crafting_counts(a.drop_last(), b.drop_last());
        assert(a[a.len() - 1].counts == b[b.len() - 1].counts);
    }
}

/// A crafting encounter started from encounter card `id` with definition
/// `def`: round zero, undecided, the configured crafting tokens, no craft, and
/// the enemy deck dealt from the definition.
pub open spec fn crafting_started(st: CraftingEncounterState, id: usize, def: crate::library::types::CraftingDef) -> bool {
    &&& st.round == 0
    &&& st.encounter_card_id == id
    &&& st.outcome == EncounterOutcome::Undecided
    &&& st.crafting_tokens == def.initial_crafting_tokens
    &&& st.active_craft is None
    &&& crafting_deck_from_def(st.enemy_crafting_deck@, def.enemy_crafting_deck@)
}

impl GameState {
    /// Start a crafting encounter from a library encounter card: the enemy
    /// deck is dealt from the definition with its hand drawn anew, the
    /// encounter holds the configured crafting tokens, the player draws up to
    /// five crafting cards, and the encounter card goes from hand to discard.
    pub fn start_crafting_encounter(&mut self, encounter_card_id: usize, rng: &mut Lcg64Xsh32) -> (r: Result<(), CraftingError>)
        requires
            counts_fit(old(self).library.cards@),
            class_hand(old(self).library.cards@, CardClass::Crafting) + 5 <= u32::MAX,
            i64::MIN <= old(self).token_balances.spec_balance(TokenType::CraftingMaxHand) <= i64::MAX,
            encounter_card_id < old(self).library.cards@.len() ==> match old(self).library.cards@[encounter_card_id as int].kind {
                CardKind::Encounter { encounter_kind: EncounterKind::Crafting { crafting_def } } => total_fits(crafting_def.enemy_crafting_deck@),
                _ => true,
            },
        ensures
            old(self).current_encounter is Some ==> r == Err::<(), CraftingError>(CraftingError::AlreadyInEncounter) && *final(self) == *old(self),
            old(self).current_encounter is None && encounter_card_id >= old(self).library.cards@.len()
                ==> r == Err::<(), CraftingError>(CraftingError::CardNotFound { card_id: encounter_card_id }) && *final(self) == *old(self),
            old(self).current_encounter is None && encounter_card_id < old(self).library.cards@.len() ==> match old(self).library.cards@[encounter_card_id as int].kind {
                CardKind::Encounter { encounter_kind: EncounterKind::Crafting { crafting_def } } => {
                    &&& r is Ok
                    &&& crafting_of(final(self).current_encounter) matches Some(st) && crafting_started(st, encounter_card_id, crafting_def)
                    &&& final(self).encounter_phase == EncounterPhase::InEncounter
                    &&& exists|drawn: Seq<LibraryCard>| draw_result(old(self).library.cards@, drawn, CardClass::Crafting, 5)
                        && #[trigger] played_or_same(drawn, encounter_card_id) == final(self).library.cards@
                    &&& final(self).token_balances == old(self).token_balances
                    &&& final(self).encounter_results@ == old(self).encounter_results@
                    &&& final(self).last_encounter_result == old(self).last_encounter_result
                    &&& final(self).game_rules == old(self).game_rules
                },
                _ => r == Err::<(), CraftingError>(CraftingError::NotACraftingEncounter { card_id: encounter_card_id })
                    && *final(self) == *old(self),
            },
    {
        if self.current_encounter.is_some() {
            return Err(CraftingError::AlreadyInEncounter);
        }
        if encounter_card_id >= self.library.cards.len() {
            return Err(CraftingError::CardNotFound { card_id: encounter_card_id });
        }
        let (tokens, mut enemy_deck) = match &self.library.cards[encounter_card_id].kind {
            CardKind::Encounter { encounter_kind: EncounterKind::Crafting { crafting_def } } => {
                (crafting_def.initial_crafting_tokens, duplicate_crafting_deck(&crafting_def.enemy_crafting_deck))
            },
            _ => {
                return Err(CraftingError::NotACraftingEncounter { card_id: encounter_card_id });
            },
        };
        let ghost def = match self.library.cards@[encounter_card_id as int].kind {
            CardKind::Encounter { encounter_kind: EncounterKind::Crafting { crafting_def } } => crafting_def.enemy_crafting_deck@,
            _ => Seq::empty(),
        };
        let ghost dealt = enemy_deck@;
        proof {
            lemma_sums_same_crafting_counts(dealt, def);
        }
        deck_shuffle_hand(rng, &mut enemy_deck);
        proof {
            assert forall|i: int| 0 <= i < enemy_deck@.len() implies {
                &&& (#[trigger] enemy_deck@[i]).increases@ == def[i].increases@
                &&& effects_view(enemy_deck@[i].effects@) == effects_view(def[i].effects@)
                &&& crate::library::rolls::copies(enemy_deck@[i].counts) == crate::library::rolls::copies(def[i].counts)
            } by {
                assert(enemy_deck@[i] == dealt[i].with_counts(enemy_deck@[i].spec_counts()));
                assert(crate::library::rolls::copies(enemy_deck@[i].spec_counts()) == crate::library::rolls::copies(dealt[i].spec_counts()));
            }
        }
        self.current_encounter = Some(EncounterState::Crafting(CraftingEncounterState {
            round: 0,
            encounter_card_id,
            outcome: EncounterOutcome::Undecided,
            crafting_tokens: tokens,
            enemy_crafting_deck: enemy_deck,
            active_craft: None,
        }));
        self.encounter_phase = EncounterPhase::InEncounter;
        let ghost before = self.library.cards@;
        self.draw_player_cards_of_kind(5, CardClass::Crafting, rng, Some(TokenType::CraftingMaxHand));
        let ghost drawn = self.library.cards@;
        proof {
            crate::library::game_state::lemma_counts_fit_moved(before, drawn);
            assert(drawn[encounter_card_id as int].counts == before[encounter_card_id as int].counts);
            assert(drawn[encounter_card_id as int].counts.spec_total() <= u32::MAX);
        }
        if self.library.cards[encounter_card_id].counts.hand > 0 {
            let _ = self.library.play(encounter_card_id);
        }
        proof {
            assert(played_or_same(drawn, encounter_card_id) == self.library.cards@);
        }
        Ok(())
    }

    /// Close the crafting encounter with this outcome: it is recorded and
    /// scouting follows.
    fn finish_crafting_encounter(&mut self, is_win: bool)
        ensures
            encounter_closed(*old(self), *final(self), outcome_of(is_win)),
            final(self).token_balances == old(self).token_balances,
            final(self).library == old(self).library,
            final(self).game_rules == old(self).game_rules,
    {
        let outcome = if is_win { EncounterOutcome::PlayerWon } else { EncounterOutcome::PlayerLost };
        self.last_encounter_result = Some(outcome);
        self.encounter_results.push(outcome);
        self.current_encounter = None;
        self.encounter_phase = EncounterPhase::Scouting;
    }

    /// Abort a crafting encounter, which counts as won. Refused while a craft
    /// is under way: only a finished craft ends the encounter then.
    pub fn abort_crafting_encounter(&mut self) -> (r: Result<(), CraftingError>)
        ensures
            crafting_of(old(self).current_encounter) matches Some(c) && c.active_craft is Some
                ==> r == Err::<(), CraftingError>(CraftingError::CraftInProgress) && *final(self) == *old(self),
            !(crafting_of(old(self).current_encounter) matches Some(c) && c.active_craft is Some) ==> {
                &&& r is Ok
                &&& encounter_closed(*old(self), *final(self), EncounterOutcome::PlayerWon)
                &&& final(self).token_balances == old(self).token_balances
                &&& final(self).library == old(self).library
            },
    {
        if let Some(EncounterState::Crafting(c)) = &self.current_encounter {
            if c.active_craft.is_some() {
                return Err(CraftingError::CraftInProgress);
            }
        }
        self.finish_crafting_encounter(true);
        Ok(())
    }

    /// End the crafting encounter by its craft: without a craft it is won;
    /// else the craft's costs are paid where the player can pay them all, and
    /// the crafted card gains a library copy.
    fn finish_active_craft(&mut self)
        requires
            crafting_of(old(self).current_encounter) is Some,
            craft_finish_fits(bal(old(self).token_balances), crafting_of(old(self).current_encounter)->Some_0, old(self).library.cards@),
        ensures
            ({
                let (b, cards, won) = craft_finish(bal(old(self).token_balances), crafting_of(old(self).current_encounter)->Some_0,
                    old(self).library.cards@);
                &&& bal(final(self).token_balances) == b
                &&& final(self).library.cards@ == cards
                &&& encounter_closed(*old(self), *final(self), outcome_of(won))
            }),
            final(self).game_rules == old(self).game_rules,
    {
        let st = match self.current_encounter.take() {
            Some(EncounterState::Crafting(c)) => c,
            _ => {
                proof {
                    assert(false);
                }
                return;
            },
        };
        let ghost st0 = st;
        let craft = match st.active_craft {
            Some(c) => c,
            None => {
                self.finish_crafting_encounter(true);
                return;
            },
        };
        let costs = &craft.current_costs;
        let mut can_pay = true;
        let mut i: usize = 0;
        while i < costs.len()
            invariant
                i <= costs.len(),
                can_pay == forall|j: int| 0 <= j < i ==> get0(bal(self.token_balances).0, persistent_key((#[trigger] costs@[j]).0)) >= costs@[j].1,
            decreases costs.len() - i,
        {
            proof {
                crate::library::costs::lemma_bal_facts(self.token_balances);
            }
            if self.token_balances.value(&Token::persistent(costs[i].0)) < costs[i].1 {
                can_pay = false;
            }
            i += 1;
        }
        if !can_pay {
            self.finish_crafting_encounter(false);
            return;
        }
        let ghost b0 = bal(self.token_balances);
        let mut k: usize = 0;
        while k < costs.len()
            invariant
                k <= costs.len(),
                pay_fits(b0, costs@),
                bal(self.token_balances) == pay_costs(b0, costs@.subrange(0, k as int)),
                self.library == old(self).library,
                self.game_rules == old(self).game_rules,
                self.encounter_results == old(self).encounter_results,
                self.current_encounter is None,
            decreases costs.len() - k,
        {
            proof {
                crate::library::costs::lemma_bal_facts(self.token_balances);
                assert(costs@.subrange(0, k + 1).drop_last() =~= costs@.subrange(0, k as int));
                lemma_pay_fits_prefix(b0, costs@, k + 1);
            }
            let key = Token::persistent(costs[k].0);
            let v = self.token_balances.value(&key);
            self.token_balances.insert(key, v - costs[k].1);
            k += 1;
        }
        proof {
            assert(costs@.subrange(0, costs@.len() as int) =~= costs@);
        }
        if craft.target_card_id < self.library.cards.len() {
            let _ = self.library.increment_library_count(craft.target_card_id, 1);
            self.finish_crafting_encounter(true);
        } else {
            self.finish_crafting_encounter(false);
        }
    }

    /// Conclude the crafting encounter by its craft (see `finish_active_craft`).
    pub fn conclude_crafting_encounter(&mut self) -> (r: Result<(), CraftingError>)
        requires
            open_crafting(old(self).current_encounter) matches Some(st)
                ==> craft_finish_fits(bal(old(self).token_balances), st, old(self).library.cards@),
        ensures
            open_crafting(old(self).current_encounter) is None
                ==> r == Err::<(), CraftingError>(CraftingError::NoActiveCrafting) && *final(self) == *old(self),
            open_crafting(old(self).current_encounter) matches Some(st) ==> {
                let (b, cards, won) = craft_finish(bal(old(self).token_balances), st, old(self).library.cards@);
                &&& r is Ok
                &&& bal(final(self).token_balances) == b
                &&& final(self).library.cards@ == cards
                &&& encounter_closed(*old(self), *final(self), outcome_of(won))
            },
    {
        match &self.current_encounter {
            Some(EncounterState::Crafting(c)) => {
                if c.outcome != EncounterOutcome::Undecided {
                    return Err(CraftingError::NoActiveCrafting);
                }
            },
            _ => {
                return Err(CraftingError::NoActiveCrafting);
            },
        }
        self.finish_active_craft();
        Ok(())
    }
}

proof fn lemma_pay_fits_prefix(b: Balances, costs: Seq<(TokenType, i64)>, n: int)
    requires
        pay_fits(b, costs),
        0 < n <= costs.len(),
    ensures
        pay_fits(b, costs.subrange(0, n)),
        fits(get0(pay_costs(b, costs.subrange(0, n - 1)).0, persistent_key(costs[n - 1].0)) - costs[n - 1].1),
    decreases costs.len() - n,
{
    let pre = costs.subrange(0, n);
    assert(pre.drop_last() =~= costs.subrange(0, n - 1));
    assert(pre.last() == costs[n - 1]);
    if n == costs.len() {
        assert(pre =~= costs);
        assert(pay_fits(b, pre));
    } else {
        lemma_pay_fits_prefix(b, costs, n + 1);
        assert(costs.subrange(0, n + 1).drop_last() =~= costs.subrange(0, n));
    }
}

/// Why swapping card `from` out of the deck for card `to` of the library is
/// refused, if it is.
pub open spec fn swap_error(s: GameState, from: usize, to: usize) -> Option<CraftingError> {
    let cards = s.library.cards@;
    match open_crafting(s.current_encounter) {
        None => Some(CraftingError::NoActiveCrafting),
        Some(st) => if st.crafting_tokens < 1 {
            Some(CraftingError::NotEnoughCraftingTokens { need: 1, have: st.crafting_tokens })
        } else if from >= cards.len() {
            Some(CraftingError::CardNotFound { card_id: from })
        } else if !is_player_kind(cards[from as int].kind) {
            Some(CraftingError::NotAPlayerCard { card_id: from })
        } else if cards[from as int].counts.deck == 0 && cards[from as int].counts.discard == 0 {
            Some(CraftingError::NotInDeckOrDiscard { card_id: from })
        } else if to >= cards.len() {
            Some(CraftingError::CardNotFound { card_id: to })
        } else if !is_player_kind(cards[to as int].kind) {
            Some(CraftingError::NotAPlayerCard { card_id: to })
        } else if cards[to as int].counts.library == 0 {
            Some(CraftingError::NotInLibrary { card_id: to })
        } else {
            None
        },
    }
}

/// The cards after a swap: a copy of `from` leaves the deck (or, where the
/// deck has none, the discard) for the library, then a copy of `to` leaves
/// the library for the deck.
pub open spec fn swapped(cards: Seq<LibraryCard>, from: usize, to: usize) -> Seq<LibraryCard> {
    let src = if cards[from as int].counts.deck > 0 { CardLocation::Deck } else { CardLocation::Discard };
    let a = spec_move(cards, from, src, CardLocation::Library, 1)->Ok_0;
    spec_move(a, to, CardLocation::Library, CardLocation::Deck, 1)->Ok_0
}

/// The encounter after spending `n` crafting tokens on an action: closed as
/// won where the tokens run out with no craft under way, else going on with
/// the tokens spent.
pub open spec fn tokens_spent(s: GameState, t: GameState, st: CraftingEncounterState, n: int) -> bool {
    if st.crafting_tokens - n <= 0 && st.active_craft is None {
        encounter_closed(s, t, EncounterOutcome::PlayerWon)
    } else {
        &&& t.current_encounter == Some(EncounterState::Crafting(CraftingEncounterState { crafting_tokens: (st.crafting_tokens - n) as i64, ..st }))
        &&& t.encounter_phase == s.encounter_phase
        &&& t.encounter_results@ == s.encounter_results@
        &&& t.last_encounter_result == s.last_encounter_result
    }
}

impl GameState {
    /// Spend `n` crafting tokens of the open crafting encounter; the
    /// encounter is won where they run out and no craft is under way.
    fn spend_crafting_tokens(&mut self, n: i64)
        requires
            open_crafting(old(self).current_encounter) matches Some(st) && 0 <= n <= st.crafting_tokens,
        ensures
            tokens_spent(*old(self), *final(self), open_crafting(old(self).current_encounter)->Some_0, n as int),
            final(self).token_balances == old(self).token_balances,
            final(self).library == old(self).library,
            final(self).game_rules == old(self).game_rules,
    {
        let mut st = match self.current_encounter.take() {
            Some(EncounterState::Crafting(c)) => c,
            _ => {
                proof {
                    assert(false);
                }
                return;
            },
        };
        st.crafting_tokens = st.crafting_tokens - n;
        let done = st.crafting_tokens <= 0 && st.active_craft.is_none();
        self.current_encounter = Some(EncounterState::Crafting(st));
        if done {
            self.finish_crafting_encounter(true);
        }
    }

    /// Swap a player card out of the deck (or discard) for a player card of
    /// the library, for one crafting token.
    pub fn resolve_crafting_swap(&mut self, from_id: usize, to_id: usize) -> (r: Result<(), CraftingError>)
        requires
            counts_fit(old(self).library.cards@),
        ensures
            swap_error(*old(self), from_id, to_id) matches Some(e) ==> r == Err::<(), CraftingError>(e) && *final(self) == *old(self),
            swap_error(*old(self), from_id, to_id) is None ==> {
                &&& r is Ok
                &&& final(self).library.cards@ == swapped(old(self).library.cards@, from_id, to_id)
                &&& final(self).token_balances == old(self).token_balances
                &&& tokens_spent(*old(self), *final(self), open_crafting(old(self).current_encounter)->Some_0, 1)
            },
    {
        let tokens = match &self.current_encounter {
            Some(EncounterState::Crafting(c)) => {
                if c.outcome != EncounterOutcome::Undecided {
                    return Err(CraftingError::NoActiveCrafting);
                }
                c.crafting_tokens
            },
            _ => {
                return Err(CraftingError::NoActiveCrafting);
            },
        };
        if tokens < 1 {
            return Err(CraftingError::NotEnoughCraftingTokens { need: 1, have: tokens });
        }
        if from_id >= self.library.cards.len() {
            return Err(CraftingError::CardNotFound { card_id: from_id });
        }
        if !is_player_card(&self.library.cards[from_id].kind) {
            return Err(CraftingError::NotAPlayerCard { card_id: from_id });
        }
        let from_counts = self.library.cards[from_id].counts;
        if from_counts.deck == 0 && from_counts.discard == 0 {
            return Err(CraftingError::NotInDeckOrDiscard { card_id: from_id });
        }
        if to_id >= self.library.cards.len() {
            return Err(CraftingError::CardNotFound { card_id: to_id });
        }
        if !is_player_card(&self.library.cards[to_id].kind) {
            return Err(CraftingError::NotAPlayerCard { card_id: to_id });
        }
        if self.library.cards[to_id].counts.library == 0 {
            return Err(CraftingError::NotInLibrary { card_id: to_id });
        }
        let ghost c0 = self.library.cards@;
        proof {
            assert(c0[from_id as int].counts.spec_total() <= u32::MAX);
            assert(c0[to_id as int].counts.spec_total() <= u32::MAX);
        }
        let src = if from_counts.deck > 0 { CardLocation::Deck } else { CardLocation::Discard };
        let _ = self.library.move_copies(from_id, src, CardLocation::Library, 1);
        let _ = self.library.move_copies(to_id, CardLocation::Library, CardLocation::Deck, 1);
        self.spend_crafting_tokens(1);
        Ok(())
    }
}

/// The durability a discipline's name is repaired in, and the material it
/// costs: mining and fishing take ore, herbalism and woodcutting lumber.
pub open spec fn durability_plan(d: Seq<char>) -> Option<(TokenType, TokenType)> {
    if d == "Mining"@ {
        Some((TokenType::MiningDurability, TokenType::Ore))
    } else if d == "Herbalism"@ {
        Some((TokenType::HerbalismDurability, TokenType::Lumber))
    } else if d == "Woodcutting"@ {
        Some((TokenType::WoodcuttingDurability, TokenType::Lumber))
    } else if d == "Fishing"@ {
        Some((TokenType::FishingDurability, TokenType::Ore))
    } else {
        None
    }
}

/// Why adding durability to discipline `d` is refused, if it is.
pub open spec fn durability_error(s: GameState, d: Seq<char>) -> Option<CraftingError> {
    match open_crafting(s.current_encounter) {
        None => Some(CraftingError::NoActiveCrafting),
        Some(st) => if st.crafting_tokens < 1 {
            Some(CraftingError::NotEnoughCraftingTokens { need: 1, have: st.crafting_tokens })
        } else {
            match durability_plan(d) {
                None => Some(CraftingError::UnknownDiscipline),
                Some((_, material)) => {
                    let have = s.token_balances.spec_value(persistent_key(material));
                    if have < 50 {
                        Some(CraftingError::NotEnoughMaterials { need: 50, have: have as i64 })
                    } else {
                        None
                    }
                },
            }
        },
    }
}

/// The balances after paying 50 of `material` for 500 of `durability`.
pub open spec fn repaired(b: Balances, durability: TokenType, material: TokenType) -> Balances {
    let b1 = bset(b, persistent_key(material), (get0(b.0, persistent_key(material)) - 50) as i64);
    bset(b1, persistent_key(durability), (get0(b1.0, persistent_key(durability)) + 500) as i64)
}

fn durability_of(discipline: &str) -> (r: Option<(TokenType, TokenType)>)
    ensures
        r == durability_plan(discipline@),
{
    proof {
        reveal_strlit("Mining");
        reveal_strlit("Herbalism");
        reveal_strlit("Woodcutting");
        reveal_strlit("Fishing");
    }
    let d = discipline.to_owned();
    if d == "Mining".to_owned() {
        Some((TokenType::MiningDurability, TokenType::Ore))
    } else if d == "Herbalism".to_owned() {
        Some((TokenType::HerbalismDurability, TokenType::Lumber))
    } else if d == "Woodcutting".to_owned() {
        Some((TokenType::WoodcuttingDurability, TokenType::Lumber))
    } else if d == "Fishing".to_owned() {
        Some((TokenType::FishingDurability, TokenType::Ore))
    } else {
        None
    }
}

impl GameState {
    /// Add 500 durability to a gathering discipline (Mining, Herbalism,
    /// Woodcutting or Fishing) for one crafting token and 50 of its material.
    pub fn resolve_crafting_add_durability(&mut self, discipline: &str) -> (r: Result<(), CraftingError>)
        requires
            durability_plan(discipline@) matches Some((dt, mt)) ==> fits(old(self).token_balances.spec_value(persistent_key(dt)) + 500),
        ensures
            durability_error(*old(self), discipline@) matches Some(e) ==> r == Err::<(), CraftingError>(e) && *final(self) == *old(self),
            durability_error(*old(self), discipline@) is None ==> {
                let (dt, mt) = durability_plan(discipline@)->Some_0;
                &&& r is Ok
                &&& bal(final(self).token_balances) == repaired(bal(old(self).token_balances), dt, mt)
                &&& final(self).library == old(self).library
                &&& tokens_spent(*old(self), *final(self), open_crafting(old(self).current_encounter)->Some_0, 1)
            },
    {
        let tokens = match &self.current_encounter {
            Some(EncounterState::Crafting(c)) => {
                if c.outcome != EncounterOutcome::Undecided {
                    return Err(CraftingError::NoActiveCrafting);
                }
                c.crafting_tokens
            },
            _ => {
                return Err(CraftingError::NoActiveCrafting);
            },
        };
        if tokens < 1 {
            return Err(CraftingError::NotEnoughCraftingTokens { need: 1, have: tokens });
        }
        let (durability, material) = match durability_of(discipline) {
            Some(p) => p,
            None => {
                return Err(CraftingError::UnknownDiscipline);
            },
        };
        let cost_key = Token::persistent(material);
        let have = self.token_balances.value(&cost_key);
        if have < 50 {
            return Err(CraftingError::NotEnoughMaterials { need: 50, have });
        }
        proof {
            crate::library::costs::lemma_bal_facts(self.token_balances);
        }
        self.token_balances.insert(cost_key, have - 50);
        let dur_key = Token::persistent(durability);
        let d = self.token_balances.value(&dur_key);
        proof {
            crate::library::costs::lemma_bal_facts(self.token_balances);
        }
        self.token_balances.insert(dur_key, d + 500);
        self.spend_crafting_tokens(1);
        Ok(())
    }
}

/// The total of the material costs.
pub open spec fn cost_total(costs: Seq<(TokenType, i64)>) -> int
    decreases costs.len(),
{
    if costs.len() == 0 {
        0
    } else {
        cost_total(costs.drop_last()) + costs.last().1
    }
}

/// Every partial total of the costs fits in an `i64`.
pub open spec fn cost_total_fits(costs: Seq<(TokenType, i64)>) -> bool {
    forall|i: int| 0 <= i <= costs.len() ==> fits(#[trigger] cost_total(costs.subrange(0, i)))
}

/// The crafting tokens a craft of a card with these material costs takes:
/// one per hundred of their total, plus one, at most the tokens held, and at
/// least two.
pub open spec fn craft_token_cost(costs: Seq<(TokenType, i64)>, tokens: i64) -> int {
    let base = crate::library::disciplines::mining::tdiv100(cost_total(costs)) + 1;
    let capped = if base <= tokens { base } else { tokens as int };
    if capped >= 2 { capped } else { 2 }
}

/// Why starting a craft of card `target` is refused, if it is.
pub open spec fn start_craft_error(s: GameState, target: usize) -> Option<CraftingError> {
    let cards = s.library.cards@;
    match open_crafting(s.current_encounter) {
        None => Some(CraftingError::NoActiveCrafting),
        Some(st) => if st.active_craft is Some {
            Some(CraftingError::CraftInProgress)
        } else if target >= cards.len() {
            Some(CraftingError::CardNotFound { card_id: target })
        } else if !is_player_kind(cards[target as int].kind) {
            Some(CraftingError::NotAPlayerCard { card_id: target })
        } else {
            let need = craft_token_cost(cards[target as int].crafting_cost@, st.crafting_tokens);
            if st.crafting_tokens < need {
                Some(CraftingError::NotEnoughCraftingTokens { need: need as i64, have: st.crafting_tokens })
            } else {
                None
            }
        },
    }
}

fn copy_costs_list(v: &Vec<(TokenType, i64)>) -> (r: Vec<(TokenType, i64)>)
    ensures
        r@ == v@,
{
    let mut r: Vec<(TokenType, i64)> = Vec::new();
    let mut i: usize = 0;
    while i < v.len()
        invariant
            i <= v.len(),
            r@ == v@.subrange(0, i as int),
        decreases v.len() - i,
    {
        r.push(v[i]);
        i += 1;
    }
    assert(v@.subrange(0, v@.len() as int) =~= v@);
    r
}

fn total_of_costs(costs: &Vec<(TokenType, i64)>) -> (r: i64)
    requires
        cost_total_fits(costs@),
    ensures
        r == cost_total(costs@),
{
    let mut total: i64 = 0;
    let mut i: usize = 0;
    assert(costs@.subrange(0, 0) =~= Seq::<(TokenType, i64)>::empty());
    while i < costs.len()
        invariant
            i <= costs.len(),
            cost_total_fits(costs@),
            total == cost_total(costs@.subrange(0, i as int)),
        decreases costs.len() - i,
    {
        proof {
            assert(costs@.subrange(0, i + 1).drop_last() =~= costs@.subrange(0, i as int));
            assert(fits(cost_total(costs@.subrange(0, i + 1))));
        }
        total = total + costs[i].1;
        i += 1;
    }
    assert(costs@.subrange(0, costs@.len() as int) =~= costs@);
    total
}

/// Crafting card `target` started in `s`, giving `t`: the craft takes its
/// crafting tokens (see `craft_token_cost`) and its costs start at the card's
/// crafting costs; nothing else changes.
pub open spec fn craft_started(s: GameState, t: GameState, target: usize) -> bool {
    let st = open_crafting(s.current_encounter)->Some_0;
    let costs = s.library.cards@[target as int].crafting_cost@;
    &&& crafting_of(t.current_encounter) matches Some(st2) && {
        &&& st2.crafting_tokens == st.crafting_tokens - craft_token_cost(costs, st.crafting_tokens)
        &&& st2.active_craft matches Some(c) && c.target_card_id == target
            && c.original_costs@ == costs && c.current_costs@ == costs
        &&& st2.round == st.round
        &&& st2.encounter_card_id == st.encounter_card_id
        &&& st2.outcome == st.outcome
        &&& st2.enemy_crafting_deck == st.enemy_crafting_deck
    }
    &&& t.token_balances == s.token_balances
    &&& t.library == s.library
    &&& t.encounter_phase == s.encounter_phase
    &&& t.encounter_results == s.encounter_results
}

impl GameState {
    /// Start crafting a copy of a player card: the craft takes crafting
    /// tokens by the card's material costs (see `craft_token_cost`), and its
    /// costs start at the card's crafting costs.
    pub fn resolve_crafting_start_craft(&mut self, target_card_id: usize) -> (r: Result<(), CraftingError>)
        requires
            target_card_id < old(self).library.cards@.len() ==> cost_total_fits(old(self).library.cards@[target_card_id as int].crafting_cost@),
        ensures
            start_craft_error(*old(self), target_card_id) matches Some(e) ==> r == Err::<(), CraftingError>(e) && *final(self) == *old(self),
            start_craft_error(*old(self), target_card_id) is None ==> r is Ok && craft_started(*old(self), *final(self), target_card_id),
    {
        let tokens = match &self.current_encounter {
            Some(EncounterState::Crafting(c)) => {
                if c.outcome != EncounterOutcome::Undecided {
                    return Err(CraftingError::NoActiveCrafting);
                }
                if c.active_craft.is_some() {
                    return Err(CraftingError::CraftInProgress);
                }
                c.crafting_tokens
            },
            _ => {
                return Err(CraftingError::NoActiveCrafting);
            },
        };
        if target_card_id >= self.library.cards.len() {
            return Err(CraftingError::CardNotFound { card_id: target_card_id });
        }
        if !is_player_card(&self.library.cards[target_card_id].kind) {
            return Err(CraftingError::NotAPlayerCard { card_id: target_card_id });
        }
        let total = total_of_costs(&self.library.cards[target_card_id].crafting_cost);
        let base = total / 100 + 1;
        let capped = if base <= tokens { base } else { tokens };
        let token_cost = if capped >= 2 { capped } else { 2 };
        if tokens < token_cost {
            return Err(CraftingError::NotEnoughCraftingTokens { need: token_cost, have: tokens });
        }
        let craft = CraftingCraftState {
            target_card_id,
            original_costs: copy_costs_list(&self.library.cards[target_card_id].crafting_cost),
            current_costs: copy_costs_list(&self.library.cards[target_card_id].crafting_cost),
        };
        let mut st = match self.current_encounter.take() {
            Some(EncounterState::Crafting(c)) => c,
            _ => {
                proof {
                    assert(false);
                }
                return Err(CraftingError::NoActiveCrafting);
            },
        };
        st.crafting_tokens = tokens - token_cost;
        st.active_craft = Some(craft);
        self.current_encounter = Some(EncounterState::Crafting(st));
        Ok(())
    }
}

/// The cost increase an enemy effect makes, if any: a gain of its
/// template's token type, by `cap * percent / 100` where both were rolled,
/// else by its rolled value. `None` for other effects; `Some(None)` where the
/// product leaves `i64`.
pub open spec fn enemy_increase(e: ConcreteEffect, k: Option<CardEffectKindView>) -> Option<Option<(TokenType, int)>> {
    match k {
        Some(CardEffectKindView::GainTokens { token_type, .. }) => match (e.rolled_cap, e.rolled_gain_percent) {
            (Some(cap), Some(pct)) => if fits(cap * pct) {
                Some(Some((token_type, crate::library::disciplines::mining::tdiv100(cap * pct))))
            } else {
                Some(None)
            },
            _ => Some(Some((token_type, e.rolled_value as int))),
        },
        _ => None,
    }
}

/// The index of the first cost of type `t`.
pub open spec fn cost_index(costs: Seq<(TokenType, i64)>, t: TokenType) -> Option<int>
    decreases costs.len(),
{
    if costs.len() == 0 {
        None
    } else if costs[0].0 == t {
        Some(0)
    } else {
        match cost_index(costs.drop_first(), t) {
            Some(i) => Some(i + 1),
            None => None,
        }
    }
}

/// The costs with `a` added to the cost of type `t` (a new cost of `a` where
/// there is none); `None` where the sum leaves `i64`.
pub open spec fn add_cost(costs: Seq<(TokenType, i64)>, t: TokenType, a: int) -> Option<Seq<(TokenType, i64)>> {
    match cost_index(costs, t) {
        Some(i) => if fits(costs[i].1 + a) { Some(costs.update(i, (t, (costs[i].1 + a) as i64))) } else { None },
        None => if fits(a) { Some(costs.push((t, a as i64))) } else { None },
    }
}

/// The costs after the increases of the enemy card's effects, in order.
pub open spec fn enemy_increases(costs: Seq<(TokenType, i64)>, effects: Seq<ConcreteEffect>, lib: Library) -> Option<Seq<(TokenType, i64)>>
    decreases effects.len(),
{
    if effects.len() == 0 {
        Some(costs)
    } else {
        match enemy_increase(effects[0], template_of(lib, effects[0].effect_id)) {
            None => enemy_increases(costs, effects.drop_first(), lib),
            Some(None) => None,
            Some(Some((t, a))) => match add_cost(costs, t, a) {
                Some(c2) => enemy_increases(c2, effects.drop_first(), lib),
                None => None,
            },
        }
    }
}

/// Every card's discard went back to its deck; hands are as they were.
pub open spec fn recycled(a: Seq<EnemyCraftingCard>, b: Seq<EnemyCraftingCard>) -> bool {
    &&& same_cards(a, b)
    &&& forall|i: int| 0 <= i < a.len() ==> (#[trigger] a[i].counts).discard == 0 && a[i].counts.hand == b[i].counts.hand
}

/// The enemy's play on crafting state `st`, giving `st2`: where its deck is
/// empty the discard goes back to the deck (`o` is `None`); else card `o`,
/// with a copy in the deck, goes to the discard and its effects raise the
/// craft's costs.
pub open spec fn enemy_crafting_played(st: CraftingEncounterState, st2: CraftingEncounterState, o: Option<usize>, lib: Library) -> bool {
    &&& st2.round == st.round
    &&& st2.encounter_card_id == st.encounter_card_id
    &&& st2.outcome == st.outcome
    &&& st2.crafting_tokens == st.crafting_tokens
    &&& match o {
        None => {
            &&& sum_deck(st.enemy_crafting_deck@) == 0
            &&& recycled(st2.enemy_crafting_deck@, st.enemy_crafting_deck@)
            &&& st2.active_craft == st.active_craft
        },
        Some(i) => {
            let d = st.enemy_crafting_deck@;
            let c = d[i as int].counts;
            &&& i < d.len()
            &&& c.deck > 0
            &&& st2.enemy_crafting_deck@ == d.update(i as int, d[i as int].with_counts(
                crate::library::types::DeckCounts { deck: (c.deck - 1) as u32, hand: c.hand, discard: (c.discard + 1) as u32 }))
            &&& st.active_craft matches Some(cr) && st2.active_craft matches Some(cr2) && {
                &&& cr2.target_card_id == cr.target_card_id
                &&& cr2.original_costs@ == cr.original_costs@
                &&& enemy_increases(cr.current_costs@, d[i as int].effects@, lib) == Some(cr2.current_costs@)
            }
        },
    }
}

/// Whatever card the enemy plays, its increases stay within `i64`.
pub open spec fn enemy_play_fits(st: CraftingEncounterState, lib: Library) -> bool {
    &&& total_fits(st.enemy_crafting_deck@)
    &&& st.active_craft matches Some(cr) && forall|i: int| 0 <= i < st.enemy_crafting_deck@.len()
        ==> enemy_increases(cr.current_costs@, (#[trigger] st.enemy_crafting_deck@[i]).effects@, lib) is Some
}

/// The index of the card whose deck copies cover position `pick` when the
/// deck copies are laid out card by card.
fn weighted_pick(deck: &Vec<EnemyCraftingCard>, pick: u32) -> (r: usize)
    requires
        pick < sum_deck(deck@),
        sum_deck(deck@) <= u32::MAX,
    ensures
        r < deck@.len(),
        deck@[r as int].counts.deck > 0,
        sum_deck(deck@.subrange(0, r as int)) <= pick < sum_deck(deck@.subrange(0, r + 1)),
{
    let mut cumulative: u32 = 0;
    let mut i: usize = 0;
    assert(deck@.subrange(0, 0) =~= Seq::<EnemyCraftingCard>::empty());
    while i < deck.len()
        invariant
            i <= deck@.len(),
            pick < sum_deck(deck@),
            sum_deck(deck@) <= u32::MAX,
            cumulative == sum_deck(deck@.subrange(0, i as int)),
            cumulative <= pick,
        decreases deck@.len() - i,
    {
        proof {
            assert(deck@.subrange(0, i + 1).drop_last() =~= deck@.subrange(0, i as int));
            crate::library::rolls::lemma_prefix_sums(deck@, i + 1);
        }
        let c = cumulative + deck[i].counts.deck;
        if pick < c {
            return i;
        }
        cumulative = c;
        i += 1;
    }
    proof {
        assert(deck@.subrange(0, deck@.len() as int) =~= deck@);
    }
    0
}

impl GameState {
    /// The enemy plays a random card of its deck (weighted by deck copies)
    /// to the discard, raising the craft's costs by its effects; an empty
    /// deck takes its discard back instead. Nothing happens without a craft.
    fn resolve_enemy_crafting_play(&mut self, rng: &mut Lcg64Xsh32) -> (r: Option<usize>)
        requires
            crafting_of(old(self).current_encounter) matches Some(st) && enemy_play_fits(st, old(self).library),
        ensures
            crafting_of(final(self).current_encounter) matches Some(st2)
                && enemy_crafting_played(crafting_of(old(self).current_encounter)->Some_0, st2, r, old(self).library),
            final(self).token_balances == old(self).token_balances,
            final(self).library == old(self).library,
            final(self).game_rules == old(self).game_rules,
            final(self).encounter_phase == old(self).encounter_phase,
            final(self).encounter_results == old(self).encounter_results,
            final(self).last_encounter_result == old(self).last_encounter_result,
    {
        let ghost st0 = crafting_of(self.current_encounter)->Some_0;
        let mut st = match self.current_encounter.take() {
            Some(EncounterState::Crafting(c)) => c,
            _ => {
                proof {
                    assert(false);
                }
                return None;
            },
        };
        proof {
            lemma_sums_nonneg(st.enemy_crafting_deck@);
        }
        let total = crate::library::rolls::sum_deck_exec(&st.enemy_crafting_deck);
        if total == 0 {
            crate::library::rolls::recycle_discard(&mut st.enemy_crafting_deck);
            self.current_encounter = Some(EncounterState::Crafting(st));
            return None;
        }
        let pick = (crate::rng::next_u64(rng) as u32) % total;
        let idx = weighted_pick(&st.enemy_crafting_deck, pick);
        let ghost d0 = st.enemy_crafting_deck@;
        let c = st.enemy_crafting_deck[idx].counts;
        proof {
            crate::library::rolls::lemma_elem_le_sums(d0, idx as int);
        }
        let mut card = st.enemy_crafting_deck.remove(idx);
        card.counts = crate::library::types::DeckCounts { deck: c.deck - 1, hand: c.hand, discard: c.discard + 1 };
        st.enemy_crafting_deck.insert(idx, card);
        proof {
            assert(st.enemy_crafting_deck@ =~= d0.update(idx as int, d0[idx as int].with_counts(
                crate::library::types::DeckCounts { deck: (c.deck - 1) as u32, hand: c.hand, discard: (c.discard + 1) as u32 })));
        }
        let mut craft = match st.active_craft.take() {
            Some(cr) => cr,
            None => {
                proof {
                    assert(false);
                }
                return None;
            },
        };
        let ghost cr0 = craft;
        let effects = &st.enemy_crafting_deck[idx].effects;
        let ghost effs = effects@;
        let n = effects.len();
        let mut k: usize = 0;
        proof {
            assert(d0[idx as int].effects@ == effs);
            assert(effs.subrange(0, n as int) =~= effs);
        }
        while k < n
            invariant
                k <= n,
                n == effs.len(),
                effects@ == effs,
                enemy_increases(cr0.current_costs@, effs, self.library) == enemy_increases(craft.current_costs@, effs.subrange(k as int, n as int), self.library),
                enemy_increases(craft.current_costs@, effs.subrange(k as int, n as int), self.library) is Some,
                craft.target_card_id == cr0.target_card_id,
                craft.original_costs@ == cr0.original_costs@,
            decreases n - k,
        {
            let ghost rest = effs.subrange(k as int, n as int);
            proof {
                assert(rest[0] == effs[k as int]);
                assert(rest.drop_first() =~= effs.subrange(k + 1, n as int));
            }
            let e = &effects[k];
            match self.library.effect_kind(e.effect_id) {
                Some(CardEffectKind::GainTokens { token_type, .. }) => {
                    let amount: i64 = match (e.rolled_cap, e.rolled_gain_percent) {
                        (Some(cap), Some(pct)) => {
                            let prod = cap as i128 * pct as i128;
                            (if prod >= 0 { prod / 100 } else { 0 - ((0 - prod) / 100) }) as i64
                        },
                        _ => e.rolled_value,
                    };
                    add_cost_exec(&mut craft.current_costs, *token_type, amount);
                },
                _ => {},
            }
            k += 1;
        }
        proof {
            assert(effs.subrange(n as int, n as int) =~= Seq::<ConcreteEffect>::empty());
        }
        st.active_craft = Some(craft);
        self.current_encounter = Some(EncounterState::Crafting(st));
        Some(idx)
    }
}

/// Add `a` to the first cost of type `t`, or append a cost of `a`.
fn add_cost_exec(costs: &mut Vec<(TokenType, i64)>, t: TokenType, a: i64)
    requires
        add_cost(old(costs)@, t, a as int) is Some,
    ensures
        add_cost(old(costs)@, t, a as int) == Some(final(costs)@),
{
    let mut i: usize = 0;
    while i < costs.len()
        invariant
            i <= costs@.len(),
            costs@ == old(costs)@,
            add_cost(costs@, t, a as int) is Some,
            forall|j: int| 0 <= j < i ==> (#[trigger] costs@[j]).0 != t,
        decreases costs@.len() - i,
    {
        if costs[i].0 == t {
            proof {
                lemma_cost_index_first(costs@, t, i as int);
            }
            let v = costs[i].1;
            costs.set(i, (t, v + a));
            return;
        }
        i += 1;
    }
    proof {
        lemma_cost_index_none(costs@, t);
    }
    costs.push((t, a));
}

proof fn lemma_cost_index_first(costs: Seq<(TokenType, i64)>, t: TokenType, i: int)
    requires
        0 <= i < costs.len(),
        costs[i].0 == t,
        forall|j: int| 0 <= j < i ==> (#[trigger] costs[j]).0 != t,
    ensures
        cost_index(costs, t) == Some(i),
    decreases i,
{
    if i > 0 {
        assert(costs[0].0 != t);
        lemma_cost_index_first(costs.drop_first(), t, i - 1);
    }
}

proof fn lemma_cost_index_none(costs: Seq<(TokenType, i64)>, t: TokenType)
    requires
        forall|j: int| 0 <= j < costs.len() ==> (#[trigger] costs[j]).0 != t,
    ensures
        cost_index(costs, t) is None,
    decreases costs.len(),
{
    if costs.len() > 0 {
        assert(costs[0].0 != t);
        lemma_cost_index_none(costs.drop_first(), t);
    }
}

/// The effects of a crafting card, if it is one.
pub open spec fn crafting_effects(k: CardKind) -> Option<Seq<ConcreteEffect>> {
    match k {
        CardKind::Crafting { effects } => Some(effects@),
        _ => None,
    }
}

/// One crafting effect of rolled value `v`: a gain adds to the player's
/// counter of its type, insight to the player's insight. `None` where the sum
/// leaves `i64`.
pub open spec fn crafting_gain_one(b: Balances, v: int, k: Option<CardEffectKindView>) -> Option<Balances> {
    match k {
        Some(CardEffectKindView::GainTokens { token_type, .. }) => {
            let key = persistent_key(token_type);
            if fits(get0(b.0, key) + v) { Some(bset(b, key, (get0(b.0, key) + v) as i64)) } else { None }
        },
        Some(CardEffectKindView::Insight { .. }) => {
            let key = persistent_key(TokenType::Insight);
            if fits(get0(b.0, key) + v) { Some(bset(b, key, (get0(b.0, key) + v) as i64)) } else { None }
        },
        _ => Some(b),
    }
}

/// The crafting effects applied one after the other.
pub open spec fn crafting_gains(b: Balances, effects: Seq<ConcreteEffect>, lib: Library) -> Option<Balances>
    decreases effects.len(),
{
    if effects.len() == 0 {
        Some(b)
    } else {
        match crafting_gain_one(b, effects[0].rolled_value as int, template_of(lib, effects[0].effect_id)) {
            Some(b1) => crafting_gains(b1, effects.drop_first(), lib),
            None => None,
        }
    }
}

/// Why playing crafting card `id` in the craft is refused, if it is.
pub open spec fn crafting_play_error(s: GameState, id: usize) -> Option<CraftingError> {
    let cards = s.library.cards@;
    match open_crafting(s.current_encounter) {
        None => Some(CraftingError::NoActiveCrafting),
        Some(st) => if st.active_craft is None {
            Some(CraftingError::NoActiveCraft)
        } else if st.crafting_tokens < 1 {
            Some(CraftingError::NotEnoughCraftingTokens { need: 1, have: st.crafting_tokens })
        } else if id >= cards.len() {
            Some(CraftingError::CardNotFound { card_id: id })
        } else {
            match crafting_effects(cards[id as int].kind) {
                None => Some(CraftingError::NotACraftingCard { card_id: id }),
                Some(effs) => match preview_result(gathering_costs(effs), s.token_balances) {
                    Err(e) => Some(CraftingError::Cost(e)),
                    Ok(_) => None,
                },
            }
        },
    }
}

/// The balances after paying for crafting card `id` and applying its effects.
pub open spec fn crafting_play_gains(s: GameState, id: usize) -> Option<Balances> {
    let effs = crafting_effects(s.library.cards@[id as int].kind)->Some_0;
    crafting_gains(deduct_b(bal(s.token_balances), gathering_costs(effs)), effs, s.library)
}

/// The crafting state after a turn: one token spent, one round more.
pub open spec fn spent_turn(st: CraftingEncounterState) -> CraftingEncounterState {
    CraftingEncounterState { crafting_tokens: (st.crafting_tokens - 1) as i64, round: (st.round + 1) as u64, ..st }
}

/// Paying these costs, where they can all be paid, stays within `i64`.
pub open spec fn craft_costs_fit(b: Balances, costs: Seq<(TokenType, i64)>) -> bool {
    can_pay_costs(costs, b) ==> pay_fits(b, costs)
}

/// What playing crafting card `id` needs to stay in range: its costs and
/// effects, the turn, the enemy's answer, and the craft's end where the
/// tokens run out, whatever card the enemy plays.
pub open spec fn crafting_play_fits(s: GameState, id: usize) -> bool {
    let st = open_crafting(s.current_encounter)->Some_0;
    let cr = st.active_craft->Some_0;
    let effs = crafting_effects(s.library.cards@[id as int].kind)->Some_0;
    &&& deduct_fits(gathering_costs(effs), s.token_balances)
    &&& crafting_play_gains(s, id) matches Some(p1) && {
        &&& crate::library::costs::totals_fit(p1)
        &&& st.round < u64::MAX
        &&& enemy_play_fits(st, s.library)
        &&& st.crafting_tokens <= 1 ==> {
            &&& cr.target_card_id < s.library.cards@.len() ==> s.library.cards@[cr.target_card_id as int].counts.library < u32::MAX
            &&& craft_costs_fit(p1, cr.current_costs@)
            &&& forall|i: int| 0 <= i < st.enemy_crafting_deck@.len() ==> craft_costs_fit(p1,
                enemy_increases(cr.current_costs@, (#[trigger] st.enemy_crafting_deck@[i]).effects@, s.library)->Some_0)
        }
    }
}

/// How a crafting turn ends, with `p` the balances after the card's effects,
/// `st2` the crafting state after the enemy's answer and `drawn` the cards
/// after the player's draw: where the tokens ran out the craft ends (see
/// `craft_finish`), else the encounter goes on.
pub open spec fn crafting_play_end(s: GameState, t: GameState, st2: CraftingEncounterState, p: Balances, drawn: Seq<LibraryCard>) -> bool {
    if st2.crafting_tokens <= 0 {
        let (b, cards, won) = craft_finish(p, st2, drawn);
        &&& bal(t.token_balances) == b
        &&& t.library.cards@ == cards
        &&& encounter_closed(s, t, outcome_of(won))
    } else {
        &&& t.current_encounter == Some(EncounterState::Crafting(st2))
        &&& bal(t.token_balances) == p
        &&& t.library.cards@ == drawn
        &&& t.encounter_phase == s.encounter_phase
        &&& t.encounter_results@ == s.encounter_results@
        &&& t.last_encounter_result == s.last_encounter_result
    }
}

fn apply_crafting_gain(b: &mut TokenMap, effect: &ConcreteEffect, library: &Library)
    requires
        crafting_gain_one(bal(*old(b)), effect.rolled_value as int, template_of(*library, effect.effect_id)) is Some,
    ensures
        bal(*final(b)) == crafting_gain_one(bal(*old(b)), effect.rolled_value as int, template_of(*library, effect.effect_id))->Some_0,
{
    proof {
        crate::library::costs::lemma_bal_facts(*b);
    }
    match library.effect_kind(effect.effect_id) {
        Some(CardEffectKind::GainTokens { token_type, .. }) => {
            let x = b.value(&Token::persistent(*token_type));
            b.insert(Token::persistent(*token_type), x + effect.rolled_value);
        },
        Some(CardEffectKind::Insight { .. }) => {
            let x = b.value(&Token::persistent(TokenType::Insight));
            b.insert(Token::persistent(TokenType::Insight), x + effect.rolled_value);
        },
        _ => {},
    }
}

/// Crafting card `id` played in `s`, giving `t`: its costs are paid and its
/// effects applied (see `crafting_play_gains`), the turn takes a crafting
/// token, the enemy answers, the player draws a crafting card, and the craft
/// goes on or ends (see `crafting_play_end`).
pub open spec fn crafting_card_played(s: GameState, t: GameState, id: usize) -> bool {
    let st = open_crafting(s.current_encounter)->Some_0;
    let p = crafting_play_gains(s, id)->Some_0;
    exists|o: Option<usize>, st2: CraftingEncounterState, drawn: Seq<LibraryCard>|
        #[trigger] enemy_crafting_played(spent_turn(st), st2, o, s.library)
        && draw_result(played_or_same(s.library.cards@, id), drawn, CardClass::Crafting, 1)
        && #[trigger] crafting_play_end(s, t, st2, p, drawn)
}

impl GameState {
    /// Play a crafting card in the craft: its costs are paid and its effects
    /// applied, the turn takes a crafting token, the card goes to the discard,
    /// the enemy answers, the player draws a crafting card, and where the
    /// tokens run out the craft ends (see `finish_active_craft`).
    pub fn resolve_crafting_play_card(&mut self, card_id: usize, rng: &mut Lcg64Xsh32) -> (r: Result<(), CraftingError>)
        requires
            balances_fit(old(self).token_balances),
            counts_fit(old(self).library.cards@),
            class_hand(old(self).library.cards@, CardClass::Crafting) < u32::MAX,
            crafting_play_error(*old(self), card_id) is None ==> crafting_play_fits(*old(self), card_id),
        ensures
            crafting_play_error(*old(self), card_id) matches Some(e) ==> r == Err::<(), CraftingError>(e) && *final(self) == *old(self),
            crafting_play_error(*old(self), card_id) is None ==> r is Ok && crafting_card_played(*old(self), *final(self), card_id),
    {
        let ghost s0 = *self;
        let tokens = match &self.current_encounter {
            Some(EncounterState::Crafting(c)) => {
                if c.outcome != EncounterOutcome::Undecided {
                    return Err(CraftingError::NoActiveCrafting);
                }
                if c.active_craft.is_none() {
                    return Err(CraftingError::NoActiveCraft);
                }
                c.crafting_tokens
            },
            _ => {
                return Err(CraftingError::NoActiveCrafting);
            },
        };
        if tokens < 1 {
            return Err(CraftingError::NotEnoughCraftingTokens { need: 1, have: tokens });
        }
        if card_id >= self.library.cards.len() {
            return Err(CraftingError::CardNotFound { card_id });
        }
        let effects = match &self.library.cards[card_id].kind {
            CardKind::Crafting { effects } => effects,
            _ => {
                return Err(CraftingError::NotACraftingCard { card_id });
            },
        };
        let costs = extract_gathering_costs_from_effects(effects.as_slice());
        match check_and_deduct_gathering_costs(costs.as_slice(), &mut self.token_balances) {
            Err(e) => {
                return Err(CraftingError::Cost(e));
            },
            Ok(()) => {},
        }
        let ghost total = crafting_play_gains(s0, card_id);
        let n = effects.len();
        let mut i: usize = 0;
        assert(effects@.subrange(0, n as int) =~= effects@);
        while i < n
            invariant
                i <= n,
                n == effects@.len(),
                crafting_effects(s0.library.cards@[card_id as int].kind) == Some(effects@),
                total is Some,
                total == crafting_gains(bal(self.token_balances), effects@.subrange(i as int, n as int), self.library),
                self.library == s0.library,
                self.game_rules == s0.game_rules,
                self.encounter_phase == s0.encounter_phase,
                self.encounter_results == s0.encounter_results,
                self.last_encounter_result == s0.last_encounter_result,
                self.current_encounter == s0.current_encounter,
            decreases n - i,
        {
            let ghost rest = effects@.subrange(i as int, n as int);
            proof {
                assert(rest[0] == effects@[i as int]);
                assert(rest.drop_first() =~= effects@.subrange(i + 1, n as int));
            }
            apply_crafting_gain(&mut self.token_balances, &effects[i], &self.library);
            i += 1;
        }
        proof {
            assert(effects@.subrange(n as int, n as int) =~= Seq::<ConcreteEffect>::empty());
        }
        let ghost p = total->Some_0;
        let ghost st0 = open_crafting(s0.current_encounter)->Some_0;
        let mut st = match self.current_encounter.take() {
            Some(EncounterState::Crafting(c)) => c,
            _ => {
                proof {
                    assert(false);
                }
                return Err(CraftingError::NoActiveCrafting);
            },
        };
        st.crafting_tokens = st.crafting_tokens - 1;
        st.round = st.round + 1;
        self.current_encounter = Some(EncounterState::Crafting(st));
        proof {
            assert(crafting_of(self.current_encounter) == Some(spent_turn(st0)));
        }
        let ghost before = self.library.cards@;
        proof {
            assert(before[card_id as int].counts.spec_total() <= u32::MAX);
        }
        if self.library.cards[card_id].counts.hand > 0 {
            let _ = self.library.play(card_id);
            proof {
                let c = before[card_id as int];
                let moved_card = with_card_counts(c, crate::library::moved(c.counts, CardLocation::Hand, CardLocation::Discard, 1));
                assert(self.library.cards@ == before.update(card_id as int, moved_card));
                crate::library::game_state::lemma_class_hand_update(before, card_id as int, moved_card, CardClass::Crafting);
                assert forall|j: int| 0 <= j < self.library.cards@.len() implies (#[trigger] self.library.cards@[j]).counts.spec_total() <= u32::MAX by {
                    assert(before[j].counts.spec_total() <= u32::MAX);
                }
            }
        }
        let ghost cards1 = self.library.cards@;
        proof {
            assert(cards1 == played_or_same(before, card_id));
            crate::library::disciplines::combat::lemma_same_templates(s0.library, self.library);
        }
        proof {
            lemma_enemy_play_fits_cong(spent_turn(st0), s0.library, self.library);
        }
        let o = self.resolve_enemy_crafting_play(rng);
        let ghost st2 = crafting_of(self.current_encounter)->Some_0;
        proof {
            lemma_enemy_played_cong(spent_turn(st0), st2, o, s0.library, self.library);
            crate::library::costs::lemma_bal_facts(self.token_balances);
        }
        self.draw_player_cards_of_kind(1, CardClass::Crafting, rng, Some(TokenType::CraftingMaxHand));
        let ghost drawn = self.library.cards@;
        let done = match &self.current_encounter {
            Some(EncounterState::Crafting(c)) => c.crafting_tokens <= 0,
            _ => false,
        };
        if done {
            proof {
                let cr = st0.active_craft->Some_0;
                if cr.target_card_id < drawn.len() {
                    assert(drawn[cr.target_card_id as int].counts.library == s0.library.cards@[cr.target_card_id as int].counts.library);
                }
                if let Some(k) = o {
                    assert(st0.enemy_crafting_deck@[k as int] == st0.enemy_crafting_deck@[k as int]);
                }
            }
            self.finish_active_craft();
        }
        proof {
            assert(enemy_crafting_played(spent_turn(st0), st2, o, s0.library));
            assert(draw_result(played_or_same(s0.library.cards@, card_id), drawn, CardClass::Crafting, 1));
            assert(crafting_play_end(s0, *self, st2, p, drawn));
        }
        Ok(())
    }
}

proof fn lemma_enemy_increases_cong(costs: Seq<(TokenType, i64)>, effs: Seq<ConcreteEffect>, a: Library, b: Library)
    requires
        crate::library::disciplines::combat::same_templates(a, b),
    ensures
        enemy_increases(costs, effs, a) == enemy_increases(costs, effs, b),
    decreases effs.len(),
{
    if effs.len() > 0 {
        assert(template_of(a, effs[0].effect_id) == template_of(b, effs[0].effect_id));
        match enemy_increase(effs[0], template_of(a, effs[0].effect_id)) {
            None => lemma_enemy_increases_cong(costs, effs.drop_first(), a, b),
            Some(None) => {},
            Some(Some((t, x))) => match add_cost(costs, t, x) {
                Some(c2) => lemma_enemy_increases_cong(c2, effs.drop_first(), a, b),
                None => {},
            },
        }
    }
}

proof fn lemma_enemy_play_fits_cong(st: CraftingEncounterState, a: Library, b: Library)
    requires
        crate::library::disciplines::combat::same_templates(a, b),
        enemy_play_fits(st, a),
    ensures
        enemy_play_fits(st, b),
{
    let cr = st.active_craft->Some_0;
    assert forall|i: int| 0 <= i < st.enemy_crafting_deck@.len() implies
        enemy_increases(cr.current_costs@, (#[trigger] st.enemy_crafting_deck@[i]).effects@, b) is Some by {
        lemma_enemy_increases_cong(cr.current_costs@, st.enemy_crafting_deck@[i].effects@, a, b);
    }
}

proof fn lemma_enemy_played_cong(st: CraftingEncounterState, st2: CraftingEncounterState, o: Option<usize>, a: Library, b: Library)
    requires
        crate::library::disciplines::combat::same_templates(a, b),
        enemy_crafting_played(st, st2, o, b),
    ensures
        enemy_crafting_played(st, st2, o, a),
{
    if let Some(i) = o {
        let cr = st.active_craft->Some_0;
        lemma_enemy_increases_cong(cr.current_costs@, st.enemy_crafting_deck@[i as int].effects@, a, b);
    }
}

/// A swap only moves copies: every card keeps its number of copies, the card
/// swapped out has one library copy more and the card swapped in one deck
/// copy more (where they are two cards), and no other card changes.
pub proof fn law_swap_keeps_copies(cards: Seq<LibraryCard>, from: usize, to: usize)
    requires
        counts_fit(cards),
        from < cards.len(),
        to < cards.len(),
        cards[from as int].counts.deck > 0 || cards[from as int].counts.discard > 0,
        cards[to as int].counts.library > 0,
    ensures
        swapped(cards, from, to).len() == cards.len(),
        forall|i: int| 0 <= i < cards.len() ==> (#[trigger] swapped(cards, from, to)[i]).counts.spec_total() == cards[i].counts.spec_total(),
        from != to ==> swapped(cards, from, to)[from as int].counts.library == cards[from as int].counts.library + 1
            && swapped(cards, from, to)[to as int].counts.deck == cards[to as int].counts.deck + 1
            && swapped(cards, from, to)[to as int].counts.library == cards[to as int].counts.library - 1,
        forall|i: int| 0 <= i < cards.len() && i != from && i != to ==> #[trigger] swapped(cards, from, to)[i] == cards[i],
{
    let src = if cards[from as int].counts.deck > 0 { CardLocation::Deck } else { CardLocation::Discard };
    assert(cards[from as int].counts.spec_total() <= u32::MAX);
    crate::library::law_moves_conserve_copies(cards, from, src, CardLocation::Library, 1);
    let a = spec_move(cards, from, src, CardLocation::Library, 1)->Ok_0;
    assert(a[to as int].counts.spec_total() <= u32::MAX) by {
        if to != from {
            assert(a[to as int] == cards[to as int]);
        }
    }
    crate::library::law_moves_conserve_copies(a, to, CardLocation::Library, CardLocation::Deck, 1);
}

/// Starting a craft costs at least two crafting tokens and never more than
/// the larger of the tokens held and two, whatever the card's material costs.
/// For materials totalling `total` (not negative) it costs one token per
/// whole hundred plus one, held down to the tokens held, but at least two.
pub proof fn law_craft_cost_is_capped_by_tokens_held(costs: Seq<(TokenType, i64)>, tokens: i64)
    ensures
        2 <= craft_token_cost(costs, tokens),
        craft_token_cost(costs, tokens) <= (if tokens >= 2 { tokens as int } else { 2 }),
        cost_total(costs) >= 0 ==> {
            let per_hundred = cost_total(costs) / 100 + 1;
            let held_down = if per_hundred <= tokens { per_hundred } else { tokens as int };
            craft_token_cost(costs, tokens) == if held_down >= 2 { held_down } else { 2 }
        },
{
}

/// In an open crafting encounter with no craft under way, a player holding at
/// least two crafting tokens can start crafting any player card of the library.
pub proof fn law_two_tokens_start_a_craft(s: GameState, target: usize)
    requires
        open_crafting(s.current_encounter) matches Some(st) && st.active_craft is None && st.crafting_tokens >= 2,
        target < s.library.cards@.len(),
        is_player_kind(s.library.cards@[target as int].kind),
    ensures
        start_craft_error(s, target) is None,
{
    let st = open_crafting(s.current_encounter)->Some_0;
    law_craft_cost_is_capped_by_tokens_held(s.library.cards@[target as int].crafting_cost@, st.crafting_tokens);
}

/// A craft is refused for want of crafting tokens only when fewer than two
/// are held; a started craft spends at least two tokens and never leaves the
/// count below zero.
pub proof fn law_start_craft_spends_what_is_held(s: GameState, t: GameState, target: usize)
    requires
        open_crafting(s.current_encounter) is Some,
    ensures
        start_craft_error(s, target) matches Some(CraftingError::NotEnoughCraftingTokens { .. })
            ==> open_crafting(s.current_encounter)->Some_0.crafting_tokens < 2,
        start_craft_error(s, target) is None && craft_started(s, t, target) ==> {
            let before = open_crafting(s.current_encounter)->Some_0.crafting_tokens;
            let after = crafting_of(t.current_encounter)->Some_0.crafting_tokens;
            0 <= after <= before - 2
        },
{
    if target < s.library.cards@.len() {
        law_craft_cost_is_capped_by_tokens_held(s.library.cards@[target as int].crafting_cost@,
            open_crafting(s.current_encounter)->Some_0.crafting_tokens);
    }
}

} // verus!
