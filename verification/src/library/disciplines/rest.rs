//! Rest encounters: the player plays rest cards, paying rest tokens held by
//! the encounter, to gain tokens; the rest ends when the rest tokens run out.
use crate::library::concrete::template_of;
use crate::library::costs::{
    check_and_deduct_costs, deduct_b, extract_rest_token_cost, gathering_costs, player_costs, preview_result, sum_of_type,
    totals_fit, Balances, CostError,
};
use crate::library::disciplines::combat::fits;
use crate::library::game_state::{
    class_hand, class_of, counts_fit, draw_result, only_counts_moved, CardClass, GameState,
};
use crate::library::rolls::{hi_of, lo_of, roll_range};
use crate::library::token_map::{bal, bset, get0, TokenMap};
use crate::library::types::{
    persistent_key, CardEffectKind, CardEffectKindView, CardKind, ConcreteEffect, Discipline, EncounterKind,
    EncounterOutcome, EncounterPhase, EncounterState, LibraryCard, RestEncounterState, Token, TokenKey, TokenType,
};
use crate::library::{with_card_counts, Library};
use rand_pcg::Lcg64Xsh32;
use vstd::prelude::*;

verus! {

/// Why a rest action was refused.
#[derive(Clone, Copy, Debug, PartialEq, Eq, Structural)]
pub enum RestError {
    /// The library has no card with this id.
    CardNotFound { card_id: usize },
    /// The card is not a rest encounter.
    NotARestEncounter { card_id: usize },
    /// Only rest cards can be played in a rest encounter.
    NotARestCard { card_id: usize },
    /// The card has no copy in hand.
    NotInHand { card_id: usize },
    /// No rest encounter is active.
    NoActiveRest,
    /// The encounter holds fewer rest tokens than the card costs.
    InsufficientRestTokens { need: i64, have: i64 },
    /// The player cannot pay the card's other costs.
    Cost(CostError),
}

/// The rest encounter in progress, if any.
pub open spec fn rest_of(enc: Option<EncounterState>) -> Option<RestEncounterState> {
    match enc {
        Some(EncounterState::Rest(r)) => Some(r),
        _ => None,
    }
}

/// One rest effect applied: a gain adds its rolled value to the token of its
/// type and duration, insight to the persistent insight counter.
pub open spec fn rest_gain_one(b: Balances, e: ConcreteEffect, k: Option<CardEffectKindView>) -> Option<Balances> {
    match k {
        Some(CardEffectKindView::GainTokens { token_type, duration, .. }) => {
            let key = TokenKey { token_type, lifecycle: duration };
            let v = get0(b.0, key);
            if fits(v + e.rolled_value) {
                Some(bset(b, key, (v + e.rolled_value) as i64))
            } else {
                None
            }
        },
        Some(CardEffectKindView::Insight { .. }) => {
            let key = persistent_key(TokenType::Insight);
            let v = get0(b.0, key);
            if fits(v + e.rolled_value) {
                Some(bset(b, key, (v + e.rolled_value) as i64))
            } else {
                None
            }
        },
        _ => Some(b),
    }
}

/// The rest effects applied one after the other.
pub open spec fn rest_gains(b: Balances, effects: Seq<ConcreteEffect>, lib: Library) -> Option<Balances>
    decreases effects.len(),
{
    if effects.len() == 0 {
        Some(b)
    } else {
        match rest_gain_one(b, effects[0], template_of(lib, effects[0].effect_id)) {
            Some(b1) => rest_gains(b1, effects.drop_first(), lib),
            None => None,
        }
    }
}

/// The rest cards in hand all go to the discard; nothing else moves.
pub open spec fn rest_hand_discarded(before: Seq<LibraryCard>, after: Seq<LibraryCard>) -> bool {
    &&& only_counts_moved(before, after)
    &&& forall|i: int| #![trigger after[i]] 0 <= i < before.len() ==> {
        let c = before[i].counts;
        let d = after[i].counts;
        if class_of(before[i].kind) == CardClass::Rest && c.hand > 0 {
            d.hand == 0 && d.discard == c.discard + c.hand && d.deck == c.deck
        } else {
            d == c
        }
    }
}

fn discard_rest_hand(cards: &mut Vec<LibraryCard>)
    requires
        counts_fit(old(cards)@),
    ensures
        rest_hand_discarded(old(cards)@, final(cards)@),
        counts_fit(final(cards)@),
{
    let ghost orig = cards@;
    let mut i: usize = 0;
    while i < cards.len()
        invariant
            i <= cards.len(),
            counts_fit(orig),
            cards@.len() == orig.len(),
            forall|j: int| #![trigger cards@[j]] 0 <= j < orig.len() ==> {
                let c = orig[j].counts;
                let d = cards@[j].counts;
                &&& cards@[j] == with_card_counts(orig[j], d)
                &&& if j < i && class_of(orig[j].kind) == CardClass::Rest && c.hand > 0 {
                    d.hand == 0 && d.discard == c.discard + c.hand && d.deck == c.deck && d.library == c.library
                } else {
                    d == c
                }
            },
        decreases cards.len() - i,
    {
        if let CardKind::Rest { .. } = &cards[i].kind {
            if cards[i].counts.hand > 0 {
                proof {
                    assert(orig[i as int].counts.spec_total() <= u32::MAX);
                }
                let h = cards[i].counts.hand;
                let d = cards[i].counts.discard;
                cards[i].counts.discard = d + h;
                cards[i].counts.hand = 0;
            }
        }
        i += 1;
    }
    proof {
        assert forall|j: int| 0 <= j < cards@.len() implies (#[trigger] cards@[j]).counts.spec_total() <= u32::MAX by {
            assert(orig[j].counts.spec_total() <= u32::MAX);
        }
    }
}

fn apply_rest_effect(b: &mut TokenMap, effect: &ConcreteEffect, library: &Library)
    requires
        rest_gain_one(bal(*old(b)), *effect, template_of(*library, effect.effect_id)) is Some,
    ensures
        bal(*final(b)) == rest_gain_one(bal(*old(b)), *effect, template_of(*library, effect.effect_id))->Some_0,
{
    match library.effect_kind(effect.effect_id) {
        Some(CardEffectKind::GainTokens { token_type, duration, .. }) => {
            let token = Token { token_type: *token_type, lifecycle: duration.duplicate() };
            let v = b.value(&token);
            b.insert(token, v + effect.rolled_value);
        },
        Some(CardEffectKind::Insight { .. }) => {
            let v = b.value(&Token::persistent(TokenType::Insight));
            b.insert(Token::persistent(TokenType::Insight), v + effect.rolled_value);
        },
        _ => {},
    }
}

/// The effects of a rest card, if it is one.
pub open spec fn rest_effects(k: CardKind) -> Option<Seq<ConcreteEffect>> {
    match k {
        CardKind::Rest { effects, .. } => Some(effects@),
        _ => None,
    }
}

/// Why playing rest card `id` is refused, if it is.
pub open spec fn rest_play_error(s: GameState, id: usize) -> Option<RestError> {
    if id >= s.library.cards@.len() {
        Some(RestError::CardNotFound { card_id: id })
    } else if rest_effects(s.library.cards@[id as int].kind) is None {
        Some(RestError::NotARestCard { card_id: id })
    } else if s.library.cards@[id as int].counts.hand == 0 {
        Some(RestError::NotInHand { card_id: id })
    } else if rest_of(s.current_encounter) is None {
        Some(RestError::NoActiveRest)
    } else {
        let effs = rest_effects(s.library.cards@[id as int].kind)->Some_0;
        let cost = sum_of_type(gathering_costs(effs), TokenType::RestToken);
        let have = rest_of(s.current_encounter)->Some_0.rest_tokens;
        if have < cost {
            Some(RestError::InsufficientRestTokens { need: cost as i64, have })
        } else {
            match preview_result(player_costs(gathering_costs(effs)), s.token_balances) {
                Err(e) => Some(RestError::Cost(e)),
                Ok(_) => None,
            }
        }
    }
}

/// What playing rest card `id` does to state `s`, giving `t`: the balances
/// after its costs and gains; the rest goes on with the rest tokens left, or
/// ends as won where none are left; the library keeps its cards and the
/// card its copies.
pub open spec fn rest_played(s: GameState, t: GameState, id: usize) -> bool {
    let effs = rest_effects(s.library.cards@[id as int].kind)->Some_0;
    let cost = sum_of_type(gathering_costs(effs), TokenType::RestToken);
    let left = rest_of(s.current_encounter)->Some_0.rest_tokens - cost;
    let g = rest_gains(deduct_b(bal(s.token_balances), player_costs(gathering_costs(effs))), effs, s.library)->Some_0;
    &&& bal(t.token_balances) == g
    &&& left > 0 ==> (rest_of(t.current_encounter) matches Some(st)
        && st.rest_tokens == left && st.outcome == rest_of(s.current_encounter)->Some_0.outcome
        && st.encounter_card_id == rest_of(s.current_encounter)->Some_0.encounter_card_id
        && t.encounter_phase == s.encounter_phase)
    &&& left <= 0 ==> t.current_encounter is None && t.encounter_phase == EncounterPhase::Scouting
        && t.encounter_results@ == s.encounter_results@.push(EncounterOutcome::PlayerWon)
    &&& t.library.cards@.len() == s.library.cards@.len()
    &&& t.library.cards@[id as int].counts.spec_total() == s.library.cards@[id as int].counts.spec_total()
}

impl GameState {
    /// Initialize a rest encounter: rest cards are drawn up to the rest hand
    /// size (the RestMaxHand tokens), and the encounter gets a roll of its
    /// rest token range.
    pub fn start_rest_encounter(&mut self, encounter_card_id: usize, rng: &mut Lcg64Xsh32) -> (r: Result<(), RestError>)
        requires
            encounter_card_id < old(self).library.cards@.len() ==> match old(self).library.cards@[encounter_card_id as int].kind {
                CardKind::Encounter { encounter_kind: EncounterKind::Rest { rest_def } } => {
                    &&& hi_of(rest_def.rest_token_min as int, rest_def.rest_token_max as int) - lo_of(rest_def.rest_token_min as int, rest_def.rest_token_max as int) < i64::MAX
                    &&& i64::MIN <= old(self).token_balances.spec_balance(TokenType::RestMaxHand) <= i64::MAX
                    &&& counts_fit(old(self).library.cards@)
                    &&& class_hand(old(self).library.cards@, CardClass::Rest) + (old(self).token_balances.spec_balance(TokenType::RestMaxHand) as u32) <= u32::MAX
                },
                _ => true,
            },
        ensures
            encounter_card_id >= old(self).library.cards@.len() ==> r == Err::<(), RestError>(RestError::CardNotFound { card_id: encounter_card_id })
                && *final(self) == *old(self),
            encounter_card_id < old(self).library.cards@.len() ==> match old(self).library.cards@[encounter_card_id as int].kind {
                CardKind::Encounter { encounter_kind: EncounterKind::Rest { rest_def } } => {
                    &&& r is Ok
                    &&& rest_of(final(self).current_encounter) matches Some(st) && {
                        &&& st.encounter_card_id == encounter_card_id
                        &&& st.outcome == EncounterOutcome::Undecided
                        &&& lo_of(rest_def.rest_token_min as int, rest_def.rest_token_max as int) <= st.rest_tokens
                        &&& st.rest_tokens <= hi_of(rest_def.rest_token_min as int, rest_def.rest_token_max as int)
                    }
                    &&& final(self).encounter_phase == EncounterPhase::InEncounter
                    &&& draw_result(old(self).library.cards@, final(self).library.cards@, CardClass::Rest,
                        (old(self).token_balances.spec_balance(TokenType::RestMaxHand) as u32) as int)
                    &&& final(self).token_balances == old(self).token_balances
                    &&& final(self).encounter_results@ == old(self).encounter_results@
                },
                _ => r == Err::<(), RestError>(RestError::NotARestEncounter { card_id: encounter_card_id }) && *final(self) == *old(self),
            },
    {
        if encounter_card_id >= self.library.cards.len() {
            return Err(RestError::CardNotFound { card_id: encounter_card_id });
        }
        let (lo, hi) = match &self.library.cards[encounter_card_id].kind {
            CardKind::Encounter { encounter_kind: EncounterKind::Rest { rest_def } } => (rest_def.rest_token_min, rest_def.rest_token_max),
            _ => {
                return Err(RestError::NotARestEncounter { card_id: encounter_card_id });
            },
        };
        let max_hand = self.token_balances.balance_by_type(&TokenType::RestMaxHand);
        let count = #[verifier::truncate] (max_hand as u32);
        self.draw_player_cards_of_kind(count, CardClass::Rest, rng, Some(TokenType::RestMaxHand));
        let initial_rest_tokens = roll_range(rng, lo, hi);
        let state = RestEncounterState {
            encounter_card_id,
            outcome: EncounterOutcome::Undecided,
            rest_tokens: initial_rest_tokens,
        };
        self.current_encounter = Some(EncounterState::Rest(state));
        self.encounter_phase = EncounterPhase::InEncounter;
        Ok(())
    }

    /// Return the rest cards in hand to the discard and close the rest
    /// encounter as won: it is recorded, and scouting follows.
    fn complete_rest_encounter(&mut self)
        requires
            counts_fit(old(self).library.cards@),
        ensures
            rest_hand_discarded(old(self).library.cards@, final(self).library.cards@),
            final(self).current_encounter is None,
            final(self).encounter_phase == EncounterPhase::Scouting,
            final(self).last_encounter_result == Some(EncounterOutcome::PlayerWon),
            final(self).encounter_results@ == old(self).encounter_results@.push(EncounterOutcome::PlayerWon),
            final(self).encounter_records@.len() == old(self).encounter_records@.len() + 1,
            final(self).encounter_records@.last().discipline == Discipline::Rest,
            final(self).encounter_records@.last().rounds == 1,
            final(self).token_balances == old(self).token_balances,
            final(self).game_rules == old(self).game_rules,
    {
        discard_rest_hand(&mut self.library.cards);
        self.record_encounter_finish(Discipline::Rest, EncounterOutcome::PlayerWon, 1);
        self.capture_last_encounter_kind();
        self.current_encounter = None;
        self.encounter_phase = EncounterPhase::Scouting;
    }

    /// Abort a rest encounter: resting cannot be lost, so it counts as won.
    pub fn abort_rest_encounter(&mut self)
        requires
            counts_fit(old(self).library.cards@),
        ensures
            rest_hand_discarded(old(self).library.cards@, final(self).library.cards@),
            final(self).current_encounter is None,
            final(self).encounter_phase == EncounterPhase::Scouting,
            final(self).last_encounter_result == Some(EncounterOutcome::PlayerWon),
            final(self).encounter_results@ == old(self).encounter_results@.push(EncounterOutcome::PlayerWon),
            final(self).token_balances == old(self).token_balances,
    {
        self.complete_rest_encounter();
    }

    /// Play a rest card from the player's hand: its rest token cost comes out
    /// of the encounter, its other costs out of the player's balances; its
    /// gains are applied, the card goes to the discard and one rest card is
    /// drawn. When the rest tokens are used up, the rest is complete.
    pub fn resolve_rest_card_play(&mut self, card_id: usize, rng: &mut Lcg64Xsh32) -> (r: Result<(), RestError>)
        requires
            rest_play_error(*old(self), card_id) is None ==> {
                let s = *old(self);
                let effs = rest_effects(s.library.cards@[card_id as int].kind)->Some_0;
                let costs = player_costs(gathering_costs(effs));
                let paid = deduct_b(bal(s.token_balances), costs);
                &&& crate::library::costs::deduct_fits(costs, s.token_balances)
                &&& rest_gains(paid, effs, s.library) matches Some(g) && i64::MIN <= g.1[TokenType::RestMaxHand] <= i64::MAX
                &&& counts_fit(s.library.cards@)
                &&& class_hand(s.library.cards@, CardClass::Rest) < u32::MAX
            },
            card_id < old(self).library.cards@.len() ==> (rest_effects(old(self).library.cards@[card_id as int].kind) matches Some(effs)
                ==> sum_of_type(gathering_costs(effs), TokenType::RestToken) <= i64::MAX),
            rest_of(old(self).current_encounter) is Some && card_id < old(self).library.cards@.len()
                && rest_effects(old(self).library.cards@[card_id as int].kind) is Some ==> totals_fit(bal(old(self).token_balances)),
        ensures
            match rest_play_error(*old(self), card_id) {
                Some(err) => r == Err::<(), RestError>(err) && *final(self) == *old(self),
                None => r is Ok && rest_played(*old(self), *final(self), card_id),
            },
    {
        if card_id >= self.library.cards.len() {
            return Err(RestError::CardNotFound { card_id });
        }
        let effects = match &self.library.cards[card_id].kind {
            CardKind::Rest { effects, .. } => effects,
            _ => {
                return Err(RestError::NotARestCard { card_id });
            },
        };
        if self.library.cards[card_id].counts.hand == 0 {
            return Err(RestError::NotInHand { card_id });
        }
        let have = match &self.current_encounter {
            Some(EncounterState::Rest(st)) => st.rest_tokens,
            _ => {
                return Err(RestError::NoActiveRest);
            },
        };
        let rest_token_cost = extract_rest_token_cost(effects.as_slice());
        if have < rest_token_cost {
            return Err(RestError::InsufficientRestTokens { need: rest_token_cost, have });
        }
        let ghost s0 = *old(self);
        proof {
            crate::library::costs::lemma_bal_facts(self.token_balances);
        }
        match check_and_deduct_costs(effects.as_slice(), &mut self.token_balances) {
            Err(e) => {
                return Err(RestError::Cost(e));
            },
            Ok(()) => {},
        }
        let ghost total = rest_gains(bal(self.token_balances), effects@, self.library);
        assert(effects@.subrange(0, effects@.len() as int) =~= effects@);
        let mut i: usize = 0;
        while i < effects.len()
            invariant
                i <= effects.len(),
                total is Some,
                total == rest_gains(bal(self.token_balances), effects@.subrange(i as int, effects@.len() as int), self.library),
                self.library == s0.library,
                self.current_encounter == s0.current_encounter,
                self.encounter_phase == s0.encounter_phase,
                self.encounter_results@ == s0.encounter_results@,
            decreases effects.len() - i,
        {
            let ghost rest = effects@.subrange(i as int, effects@.len() as int);
            proof {
                assert(rest[0] == effects@[i as int]);
                assert(rest.drop_first() =~= effects@.subrange(i + 1, effects@.len() as int));
            }
            apply_rest_effect(&mut self.token_balances, &effects[i], &self.library);
            i += 1;
        }
        proof {
            assert(effects@.subrange(effects@.len() as int, effects@.len() as int) =~= Seq::<ConcreteEffect>::empty());
        }
        let ghost before_play = self.library.cards@;
        proof {
            assert(before_play[card_id as int].counts.spec_total() <= u32::MAX);
        }
        let _ = self.library.play(card_id);
        let left = have - rest_token_cost;
        let enc = self.current_encounter.take();
        match enc {
            Some(EncounterState::Rest(mut st)) => {
                st.rest_tokens = left;
                self.current_encounter = Some(EncounterState::Rest(st));
            },
            other => {
                self.current_encounter = other;
            },
        }
        proof {
            crate::library::costs::lemma_bal_facts(self.token_balances);
            let c = before_play[card_id as int];
            let moved = super::super::with_card_counts(c, super::super::moved(c.counts, crate::library::types::CardLocation::Hand, crate::library::types::CardLocation::Discard, 1));
            assert(self.library.cards@ == before_play.update(card_id as int, moved));
            crate::library::game_state::lemma_class_hand_update(before_play, card_id as int, moved, CardClass::Rest);
            assert forall|j: int| 0 <= j < self.library.cards@.len() implies (#[trigger] self.library.cards@[j]).counts.spec_total() <= u32::MAX by {
                assert(before_play[j].counts.spec_total() <= u32::MAX);
            }
        }
        let ghost before_draw = self.library.cards@;
        self.draw_player_cards_of_kind(1, CardClass::Rest, rng, Some(TokenType::RestMaxHand));
        proof {
            assert(self.library.cards@[card_id as int].counts.spec_total() == before_draw[card_id as int].counts.spec_total());
            crate::library::game_state::lemma_counts_fit_moved(before_draw, self.library.cards@);
        }
        if left <= 0 {
            let ghost before_finish = self.library.cards@;
            self.complete_rest_encounter();
            proof {
                assert(self.library.cards@[card_id as int].counts.spec_total() == before_finish[card_id as int].counts.spec_total());
            }
        }
        Ok(())
    }
}

/// Playing a rest card spends its rest-token cost from the encounter: where
/// the rest goes on, its rest tokens are those before less the card's cost,
/// and it goes on exactly when some are left.
pub proof fn law_rest_card_spends_its_rest_tokens(s: GameState, t: GameState, id: usize)
    requires
        rest_play_error(s, id) is None,
        rest_played(s, t, id),
    ensures
        ({
            let effs = rest_effects(s.library.cards@[id as int].kind)->Some_0;
            let cost = sum_of_type(gathering_costs(effs), TokenType::RestToken);
            let have = rest_of(s.current_encounter)->Some_0.rest_tokens;
            &&& rest_of(t.current_encounter) matches Some(st2) ==> st2.rest_tokens == have - cost
            &&& (rest_of(t.current_encounter) is Some) == (have - cost > 0)
        }),
{
}

/// A rest gain adds its rolled value to the token it names (with the
/// template's lifetime), and an insight effect to the insight counter; no
/// other token changes.
pub proof fn law_rest_gain_adds_the_rolled_value(b: Balances, e: ConcreteEffect, k: Option<CardEffectKindView>, key: TokenKey)
    requires
        (k matches Some(CardEffectKindView::GainTokens { token_type, duration, .. })
            && key == (TokenKey { token_type, lifecycle: duration }))
            || (k matches Some(CardEffectKindView::Insight { .. }) && key == persistent_key(TokenType::Insight)),
        fits(get0(b.0, key) + e.rolled_value),
    ensures
        rest_gain_one(b, e, k) matches Some(b2) && {
            &&& get0(b2.0, key) == get0(b.0, key) + e.rolled_value
            &&& forall|o: TokenKey| o != key ==> #[trigger] get0(b2.0, o) == get0(b.0, o)
        },
{
}

} // verus!
