//! Fishing encounters: each round a fish is drawn from the fish deck, and the
//! player answers with a fishing card. The best of the card's fishing values
//! is played against the fish; the catch (how far the value beats the fish)
//! wins the round when it lies in the valid range. Enough won rounds land the
//! fish and its rewards, scaled by the fish amount; running out of rounds,
//! of durability, or of playable cards loses it.
use crate::library::concrete::template_of;
use crate::library::costs::{
    all_affordable, balances_fit, check_and_deduct_gathering_costs, deduct_b, deduct_fits, extract_gathering_costs_from_effects,
    gathering_costs, preview_gathering_costs, preview_result, totals_fit, Balances, CostError,
};
use crate::library::disciplines::combat::{fits, max_int};
use crate::library::game_state::{class_hand, class_hand_count, counts_fit, draw_result, CardClass, GameState};
use crate::library::rolls::{deck_play_random, deck_shuffle_hand, lemma_sums_nonneg, sum_deck, sum_discard, sum_hand, total_fits};
use crate::library::token_map::{bal, bset, get0, TokenMap};
use crate::library::types::{
    duplicate_fish_deck, filter_durability, persistent_key, same_fish_cards, split_token_amounts, CardEffectKind, CardEffectKindView,
    CardKind, ConcreteEffect, EncounterKind, EncounterOutcome, EncounterPhase, EncounterState, FishCard, FishingEncounterState,
    HasDeckCounts, LibraryCard, Token, TokenAmount, TokenKey, TokenType,
};
use crate::library::Library;
use rand_pcg::Lcg64Xsh32;
use vstd::prelude::*;

verus! {

/// Why a fishing action was refused.
#[derive(Clone, Copy, Debug, PartialEq, Eq, Structural)]
pub enum FishingError {
    /// The library has no card with this id.
    CardNotFound { card_id: usize },
    /// The card is not a fishing encounter.
    NotAFishingEncounter { card_id: usize },
    /// Only fishing cards can be played in a fishing encounter.
    NotAFishingCard { card_id: usize },
    /// No fishing encounter is active (or it is already decided).
    NoActiveFishing,
    /// The player cannot pay the card's costs.
    Cost(CostError),
}

/// The fishing encounter in progress, if any.
pub open spec fn fishing_of(enc: Option<EncounterState>) -> Option<FishingEncounterState> {
    match enc {
        Some(EncounterState::Fishing(f)) => Some(f),
        _ => None,
    }
}

/// The effects of a fishing card, if it is one.
pub open spec fn fishing_effects(k: CardKind) -> Option<Seq<ConcreteEffect>> {
    match k {
        CardKind::Fishing { effects } => Some(effects@),
        _ => None,
    }
}

pub open spec fn range_min_key() -> TokenKey {
    persistent_key(TokenType::FishingRangeMin)
}

pub open spec fn range_max_key() -> TokenKey {
    persistent_key(TokenType::FishingRangeMax)
}

pub open spec fn fish_amount_key() -> TokenKey {
    persistent_key(TokenType::FishAmount)
}

/// The player's fishing durability counter: every durability cost paid in a
/// fishing encounter strikes it.
pub open spec fn fishing_durability_key() -> TokenKey {
    persistent_key(TokenType::FishingDurability)
}

/// Paying the durability costs `post` one after the other: each lowers the
/// durability counter `key` (that of the encounter's discipline), never below
/// zero; the flag says whether it reached zero at some payment. `None` where
/// the arithmetic leaves `i64`.
pub open spec fn durability_after(p: Balances, post: Seq<TokenAmount>, key: TokenKey) -> Option<(Balances, bool)>
    decreases post.len(),
{
    if post.len() == 0 {
        Some((p, false))
    } else {
        match durability_after(p, post.drop_last(), key) {
            None => None,
            Some((p1, d1)) => {
                let cur = get0(p1.0, key);
                let left = cur - post.last().amount;
                if fits(left) {
                    let n = max_int(left, 0);
                    Some((bset(p1, key, n as i64), d1 || n <= 0))
                } else {
                    None
                }
            },
        }
    }
}

/// One fishing effect of rolled value `v` applied to the player's (`p`) and
/// the encounter's (`m`) tokens: a gain of range or fish amount adds to the
/// encounter's counter, another gain to the player's counter of its type,
/// insight to the player's insight; fishing values change no token.
pub open spec fn fishing_gain_one(p: Balances, m: Balances, v: int, k: Option<CardEffectKindView>) -> Option<(Balances, Balances)> {
    match k {
        Some(CardEffectKindView::GainTokens { token_type, .. }) => {
            let key = persistent_key(token_type);
            if token_type == TokenType::FishingRangeMin || token_type == TokenType::FishingRangeMax || token_type == TokenType::FishAmount {
                let x = get0(m.0, key);
                if fits(x + v) {
                    Some((p, bset(m, key, (x + v) as i64)))
                } else {
                    None
                }
            } else {
                let x = get0(p.0, key);
                if fits(x + v) {
                    Some((bset(p, key, (x + v) as i64), m))
                } else {
                    None
                }
            }
        },
        Some(CardEffectKindView::Insight { .. }) => {
            let key = persistent_key(TokenType::Insight);
            let x = get0(p.0, key);
            if fits(x + v) {
                Some((bset(p, key, (x + v) as i64), m))
            } else {
                None
            }
        },
        _ => Some((p, m)),
    }
}

/// The fishing effects applied one after the other.
pub open spec fn fishing_gains(p: Balances, m: Balances, effects: Seq<ConcreteEffect>, lib: Library) -> Option<(Balances, Balances)>
    decreases effects.len(),
{
    if effects.len() == 0 {
        Some((p, m))
    } else {
        match fishing_gain_one(p, m, effects[0].rolled_value as int, template_of(lib, effects[0].effect_id)) {
            Some((p1, m1)) => fishing_gains(p1, m1, effects.drop_first(), lib),
            None => None,
        }
    }
}

/// The fishing values of a card's effects, in order.
pub open spec fn fishing_values(effects: Seq<ConcreteEffect>, lib: Library) -> Seq<i64>
    decreases effects.len(),
{
    if effects.len() == 0 {
        Seq::empty()
    } else {
        let rest = fishing_values(effects.drop_first(), lib);
        if template_of(lib, effects[0].effect_id) matches Some(CardEffectKindView::FishingValue { .. }) {
            seq![effects[0].rolled_value] + rest
        } else {
            rest
        }
    }
}

/// The catch of value `v` against fish `fish`: how far it beats the fish, zero at least.
pub open spec fn catch_of(v: int, fish: int) -> int {
    if v - fish > 0 { v - fish } else { 0 }
}

pub open spec fn abs_int(a: int) -> int {
    if a >= 0 { a } else { -a }
}

/// Among the first `n` values, the position of the first one whose catch lies
/// in `lo..=hi` closest to `lo`, if any catch lies there.
pub open spec fn best_in(vs: Seq<i64>, fish: int, lo: int, hi: int, n: int) -> Option<int>
    decreases n,
{
    if n <= 0 {
        None
    } else {
        let b = best_in(vs, fish, lo, hi, n - 1);
        let r = catch_of(vs[n - 1] as int, fish);
        if lo <= r <= hi && (match b {
            None => true,
            Some(j) => abs_int(r - lo) < abs_int(catch_of(vs[j] as int, fish) - lo),
        }) {
            Some(n - 1)
        } else {
            b
        }
    }
}

/// The value played: the best winning one, else the first.
pub open spec fn chosen_value(vs: Seq<i64>, fish: int, lo: int, hi: int) -> i64 {
    match best_in(vs, fish, lo, hi, vs.len() as int) {
        Some(i) => vs[i],
        None => vs[0],
    }
}

/// The fish amount that scales the rewards: the encounter's counter (one
/// where it has none), at least one.
pub open spec fn reward_scale(m: Balances) -> int {
    let a = if m.0.contains_key(fish_amount_key()) { m.0[fish_amount_key()] as int } else { 1 };
    if a >= 1 { a } else { 1 }
}

/// Each reward `(token, base)` adds `base * amount` to the player's token.
pub open spec fn grant_rewards(p: Balances, rs: Seq<(Token, i64)>, amount: int) -> Option<Balances>
    decreases rs.len(),
{
    if rs.len() == 0 {
        Some(p)
    } else {
        match grant_rewards(p, rs.drop_last(), amount) {
            None => None,
            Some(p1) => {
                let k = rs.last().0@;
                let inc = rs.last().1 * amount;
                let x = get0(p1.0, k);
                if fits(inc) && fits(x + inc) {
                    Some(bset(p1, k, (x + inc) as i64))
                } else {
                    None
                }
            },
        }
    }
}

proof fn lemma_durability_prefix(p: Balances, s: Seq<TokenAmount>, key: TokenKey, i: int)
    requires
        0 <= i <= s.len(),
        durability_after(p, s, key) is Some,
    ensures
        durability_after(p, s.subrange(0, i), key) is Some,
    decreases s.len(),
{
    if i == s.len() {
        assert(s.subrange(0, i) =~= s);
    } else {
        lemma_durability_prefix(p, s.drop_last(), key, i);
        assert(s.drop_last().subrange(0, i) =~= s.subrange(0, i));
    }
}

proof fn lemma_grant_prefix(p: Balances, s: Seq<(Token, i64)>, a: int, i: int)
    requires
        0 <= i <= s.len(),
        grant_rewards(p, s, a) is Some,
    ensures
        grant_rewards(p, s.subrange(0, i), a) is Some,
    decreases s.len(),
{
    if i == s.len() {
        assert(s.subrange(0, i) =~= s);
    } else {
        lemma_grant_prefix(p, s.drop_last(), a, i);
        assert(s.drop_last().subrange(0, i) =~= s.subrange(0, i));
    }
}

/// Pay the durability costs `post` from the durability counter `key`;
/// whether it reached zero.
pub fn pay_durability(m: &mut TokenMap, post: &Vec<TokenAmount>, key: &Token) -> (r: bool)
    requires
        durability_after(bal(*old(m)), post@, key@) is Some,
    ensures
        (bal(*final(m)), r) == durability_after(bal(*old(m)), post@, key@)->Some_0,
{
    let ghost b0 = bal(*m);
    let mut depleted = false;
    let mut i: usize = 0;
    assert(post@.subrange(0, 0) =~= Seq::<TokenAmount>::empty());
    while i < post.len()
        invariant
            i <= post@.len(),
            durability_after(b0, post@, key@) is Some,
            durability_after(b0, post@.subrange(0, i as int), key@) == Some((bal(*m), depleted)),
        decreases post@.len() - i,
    {
        proof {
            lemma_durability_prefix(b0, post@, key@, i + 1);
            assert(post@.subrange(0, i + 1).drop_last() =~= post@.subrange(0, i as int));
            crate::library::costs::lemma_bal_facts(*m);
        }
        let cur = m.value(key);
        let left = cur - post[i].amount;
        let n = if left > 0 { left } else { 0 };
        m.insert(key.duplicate(), n);
        if n <= 0 {
            depleted = true;
        }
        i += 1;
    }
    assert(post@.subrange(0, post@.len() as int) =~= post@);
    depleted
}

fn apply_fishing_gain(p: &mut TokenMap, m: &mut TokenMap, effect: &ConcreteEffect, library: &Library)
    requires
        fishing_gain_one(bal(*old(p)), bal(*old(m)), effect.rolled_value as int, template_of(*library, effect.effect_id)) is Some,
    ensures
        (bal(*final(p)), bal(*final(m))) == fishing_gain_one(bal(*old(p)), bal(*old(m)), effect.rolled_value as int,
            template_of(*library, effect.effect_id))->Some_0,
{
    proof {
        crate::library::costs::lemma_bal_facts(*p);
        crate::library::costs::lemma_bal_facts(*m);
    }
    match library.effect_kind(effect.effect_id) {
        Some(CardEffectKind::GainTokens { token_type, .. }) => {
            let key = Token::persistent(*token_type);
            if *token_type == TokenType::FishingRangeMin || *token_type == TokenType::FishingRangeMax
                || *token_type == TokenType::FishAmount {
                let x = m.value(&key);
                m.insert(key, x + effect.rolled_value);
            } else {
                let x = p.value(&key);
                p.insert(key, x + effect.rolled_value);
            }
        },
        Some(CardEffectKind::Insight { .. }) => {
            let x = p.value(&Token::persistent(TokenType::Insight));
            p.insert(Token::persistent(TokenType::Insight), x + effect.rolled_value);
        },
        _ => {},
    }
}

/// Whether a template is a fishing value.
fn is_fishing_value(effect: &ConcreteEffect, library: &Library) -> (r: bool)
    ensures
        r == (template_of(*library, effect.effect_id) matches Some(CardEffectKindView::FishingValue { .. })),
{
    match library.effect_kind(effect.effect_id) {
        Some(CardEffectKind::FishingValue { .. }) => true,
        _ => false,
    }
}

proof fn lemma_values_step(effects: Seq<ConcreteEffect>, lib: Library, i: int)
    requires
        0 <= i < effects.len(),
    ensures
        fishing_values(effects.subrange(i, effects.len() as int), lib) == (if template_of(lib, effects[i].effect_id) matches Some(
            CardEffectKindView::FishingValue { .. },
        ) {
            seq![effects[i].rolled_value]
        } else {
            Seq::<i64>::empty()
        }) + fishing_values(effects.subrange(i + 1, effects.len() as int), lib),
{
    let s = effects.subrange(i, effects.len() as int);
    assert(s[0] == effects[i]);
    assert(s.drop_first() =~= effects.subrange(i + 1, effects.len() as int));
    if !(template_of(lib, effects[i].effect_id) matches Some(CardEffectKindView::FishingValue { .. })) {
        assert(Seq::<i64>::empty() + fishing_values(effects.subrange(i + 1, effects.len() as int), lib)
            =~= fishing_values(effects.subrange(i + 1, effects.len() as int), lib));
    }
}

/// The value played from `values` against `fish` in range `lo..=hi` (see `chosen_value`).
pub fn choose_fishing_value(values: &Vec<i64>, fish: i64, lo: i64, hi: i64) -> (r: i64)
    requires
        values@.len() > 0,
    ensures
        r == chosen_value(values@, fish as int, lo as int, hi as int),
{
    let mut best: Option<usize> = None;
    let mut i: usize = 0;
    while i < values.len()
        invariant
            i <= values@.len(),
            values@.len() > 0,
            best == (match best_in(values@, fish as int, lo as int, hi as int, i as int) {
                Some(j) => Some(j as usize),
                None => None::<usize>,
            }),
            best_in(values@, fish as int, lo as int, hi as int, i as int) matches Some(j) ==> 0 <= j < i,
        decreases values@.len() - i,
    {
        let d = values[i] as i128 - fish as i128;
        let r: i128 = if d > 0 { d } else { 0 };
        if lo as i128 <= r && r <= hi as i128 {
            let dr: i128 = if r - lo as i128 >= 0 { r - lo as i128 } else { lo as i128 - r };
            let better = match best {
                None => true,
                Some(j) => {
                    let dj0 = values[j] as i128 - fish as i128;
                    let rj: i128 = if dj0 > 0 { dj0 } else { 0 };
                    let dj: i128 = if rj - lo as i128 >= 0 { rj - lo as i128 } else { lo as i128 - rj };
                    dr < dj
                },
            };
            if better {
                best = Some(i);
            }
        }
        i += 1;
    }
    match best {
        Some(j) => values[j],
        None => values[0],
    }
}

/// The fishing encounter a fishing encounter card starts: the fish deck
/// dealt from its definition (the same cards and copies, pile totals kept),
/// one fish played from it (its value the current fish, none where the deck
/// has nothing to play), the range and a fish amount of one as encounter
/// tokens, and nothing won yet.
pub open spec fn fishing_started(st: FishingEncounterState, id: usize, def: crate::library::types::FishingDef) -> bool {
    &&& st.round == 1
    &&& st.encounter_card_id == id
    &&& st.outcome == EncounterOutcome::Undecided
    &&& st.turns_won == 0
    &&& st.max_turns == def.max_turns
    &&& st.win_turns_needed == def.win_turns_needed
    &&& st.valid_range_min == def.valid_range_min
    &&& st.valid_range_max == def.valid_range_max
    &&& st.fish_deck@.len() == def.fish_deck@.len()
    &&& forall|i: int| 0 <= i < st.fish_deck@.len() ==> (#[trigger] st.fish_deck@[i]).value == def.fish_deck@[i].value
        && crate::library::rolls::copies(st.fish_deck@[i].counts) == crate::library::rolls::copies(def.fish_deck@[i].counts)
    &&& sum_deck(st.fish_deck@) == sum_deck(def.fish_deck@)
    &&& (sum_hand(def.fish_deck@) + sum_discard(def.fish_deck@) == 0 <==> st.current_fish_value is None)
    &&& st.current_fish_value matches Some(v) ==> exists|i: int| 0 <= i < def.fish_deck@.len() && def.fish_deck@[i].value == v
    &&& st.encounter_tokens.spec_get(range_min_key()) == Some(def.valid_range_min)
    &&& st.encounter_tokens.spec_get(range_max_key()) == Some(def.valid_range_max)
    &&& st.encounter_tokens.spec_get(fish_amount_key()) == Some(1i64)
    &&& forall|k: TokenKey| k != range_min_key() && k != range_max_key() && k != fish_amount_key()
        ==> #[trigger] st.encounter_tokens.spec_get(k) is None
    &&& forall|k: TokenKey| #[trigger] st.rewards.spec_get(k) == def.rewards.spec_get(k)
}

/// How many fishing cards the hand is short of its max-hand count.
pub open spec fn fishing_deficit(s: GameState) -> int {
    let d = s.token_balances.spec_balance(TokenType::FishingMaxHand) - class_hand(s.library.cards@, CardClass::Fishing);
    if d > 0 { d } else { 0 }
}

impl GameState {
    /// Initialize a fishing encounter from a library encounter card (see
    /// `fishing_started`); the fishing hand is then refilled to its max-hand
    /// count.
    pub fn start_fishing_encounter(&mut self, encounter_card_id: usize, rng: &mut Lcg64Xsh32) -> (r: Result<(), FishingError>)
        requires
            encounter_card_id < old(self).library.cards@.len() ==> match old(self).library.cards@[encounter_card_id as int].kind {
                CardKind::Encounter { encounter_kind: EncounterKind::Fishing { fishing_def } } => {
                    &&& total_fits(fishing_def.fish_deck@)
                    &&& counts_fit(old(self).library.cards@)
                    &&& i64::MIN <= old(self).token_balances.spec_balance(TokenType::FishingMaxHand) <= i64::MAX
                    &&& class_hand(old(self).library.cards@, CardClass::Fishing) + fishing_deficit(*old(self)) <= u32::MAX
                },
                _ => true,
            },
        ensures
            encounter_card_id >= old(self).library.cards@.len() ==> r == Err::<(), FishingError>(FishingError::CardNotFound { card_id: encounter_card_id })
                && *final(self) == *old(self),
            encounter_card_id < old(self).library.cards@.len() ==> match old(self).library.cards@[encounter_card_id as int].kind {
                CardKind::Encounter { encounter_kind: EncounterKind::Fishing { fishing_def } } => {
                    &&& r is Ok
                    &&& fishing_of(final(self).current_encounter) matches Some(st) && fishing_started(st, encounter_card_id, fishing_def)
                    &&& final(self).encounter_phase == EncounterPhase::InEncounter
                    &&& draw_result(old(self).library.cards@, final(self).library.cards@, CardClass::Fishing, fishing_deficit(*old(self)))
                    &&& final(self).token_balances == old(self).token_balances
                    &&& final(self).encounter_results@ == old(self).encounter_results@
                    &&& final(self).last_encounter_result == old(self).last_encounter_result
                    &&& final(self).game_rules == old(self).game_rules
                },
                _ => r == Err::<(), FishingError>(FishingError::NotAFishingEncounter { card_id: encounter_card_id }) && *final(self) == *old(self),
            },
    {
        if encounter_card_id >= self.library.cards.len() {
            return Err(FishingError::CardNotFound { card_id: encounter_card_id });
        }
        let (min, max, max_turns, need, mut fish_deck, rewards) = match &self.library.cards[encounter_card_id].kind {
            CardKind::Encounter { encounter_kind: EncounterKind::Fishing { fishing_def } } => (
                fishing_def.valid_range_min,
                fishing_def.valid_range_max,
                fishing_def.max_turns,
                fishing_def.win_turns_needed,
                duplicate_fish_deck(&fishing_def.fish_deck),
                fishing_def.rewards.duplicate(),
            ),
            _ => {
                return Err(FishingError::NotAFishingEncounter { card_id: encounter_card_id });
            },
        };
        let ghost def = match self.library.cards@[encounter_card_id as int].kind {
            CardKind::Encounter { encounter_kind: EncounterKind::Fishing { fishing_def } } => fishing_def,
            _ => arbitrary(),
        };
        let ghost dealt = fish_deck@;
        proof {
            lemma_sums_same_fish_counts(dealt, def.fish_deck@);
        }
        deck_shuffle_hand(rng, &mut fish_deck);
        let ghost shuffled = fish_deck@;
        proof {
            assert forall|i: int| 0 <= i < shuffled.len() implies (#[trigger] shuffled[i]).value == def.fish_deck@[i].value
                && crate::library::rolls::copies(shuffled[i].counts) == crate::library::rolls::copies(def.fish_deck@[i].counts) by {
                assert(shuffled[i] == dealt[i].with_counts(shuffled[i].spec_counts()));
                assert(crate::library::rolls::copies(shuffled[i].spec_counts()) == crate::library::rolls::copies(dealt[i].spec_counts()));
            }
            crate::library::rolls::lemma_total_fits_draw(shuffled);
            lemma_sums_nonneg(shuffled);
            assert(crate::library::rolls::play_fits(shuffled));
        }
        let played = deck_play_random(rng, &mut fish_deck);
        let current = match played {
            Some(i) => Some(fish_deck[i].value),
            None => None,
        };
        proof {
            if let Some(i) = played {
                assert(fish_deck@[i as int] == shuffled[i as int].with_counts(fish_deck@[i as int].spec_counts()));
            }
            assert forall|i: int| 0 <= i < fish_deck@.len() implies (#[trigger] fish_deck@[i]).value == def.fish_deck@[i].value
                && crate::library::rolls::copies(fish_deck@[i].counts) == crate::library::rolls::copies(def.fish_deck@[i].counts) by {
                assert(fish_deck@[i] == shuffled[i].with_counts(fish_deck@[i].spec_counts()));
                assert(crate::library::rolls::copies(fish_deck@[i].spec_counts()) == crate::library::rolls::copies(shuffled[i].spec_counts()));
            }
        }
        let mut tokens = TokenMap::new();
        tokens.insert(Token::persistent(TokenType::FishingRangeMin), min);
        tokens.insert(Token::persistent(TokenType::FishingRangeMax), max);
        tokens.insert(Token::persistent(TokenType::FishAmount), 1);
        let state = FishingEncounterState {
            round: 1,
            encounter_card_id,
            outcome: EncounterOutcome::Undecided,
            turns_won: 0,
            max_turns,
            win_turns_needed: need,
            valid_range_min: min,
            valid_range_max: max,
            fish_deck,
            current_fish_value: current,
            rewards,
            encounter_tokens: tokens,
        };
        let ghost s0 = *self;
        self.current_encounter = Some(EncounterState::Fishing(state));
        self.encounter_phase = EncounterPhase::InEncounter;
        let max_hand = self.token_balances.balance_by_type(&TokenType::FishingMaxHand);
        let current_hand = class_hand_count(&self.library.cards, CardClass::Fishing);
        let deficit = max_hand as i128 - current_hand as i128;
        if deficit > 0 {
            self.draw_player_cards_of_kind(deficit as u32, CardClass::Fishing, rng, Some(TokenType::FishingMaxHand));
        } else {
            proof {
                let c = self.library.cards@;
                assert forall|i: int| #![trigger c[i]] 0 <= i < c.len() implies c[i] == crate::library::with_card_counts(c[i], c[i].counts) by {}
            }
        }
        Ok(())
    }
}

proof fn lemma_sums_same_fish_counts(a: Seq<FishCard>, b: Seq<FishCard>)
    requires
        same_fish_cards(a, b),
    ensures
        sum_deck(a) == sum_deck(b),
        sum_hand(a) == sum_hand(b),
        sum_discard(a) == sum_discard(b),
    decreases a.len(),
{
    if a.len() > 0 {
        assert(same_fish_cards(a.drop_last(), b.drop_last()));
        lemma_sums_same_fish_counts(a.drop_last(), b.drop_last());
        assert(a[a.len() - 1].counts == b[b.len() - 1].counts);
    }
}

/// Grant each reward of `rewards`, scaled by `scale`, to the balances `p`.
pub(crate) fn grant_rewards_exec(p: &mut TokenMap, rewards: &TokenMap, scale: i64)
    requires
        grant_rewards(bal(*old(p)), rewards.spec_entries(), scale as int) is Some,
    ensures
        bal(*final(p)) == grant_rewards(bal(*old(p)), rewards.spec_entries(), scale as int)->Some_0,
{
    let ghost b0 = bal(*p);
    let ghost rs = rewards.spec_entries();
    let n = rewards.len();
    let mut i: usize = 0;
    assert(rs.subrange(0, 0) =~= Seq::<(Token, i64)>::empty());
    while i < n
        invariant
            i <= n,
            n == rs.len(),
            rs == rewards.spec_entries(),
            grant_rewards(b0, rs, scale as int) is Some,
            grant_rewards(b0, rs.subrange(0, i as int), scale as int) == Some(bal(*p)),
        decreases n - i,
    {
        proof {
            lemma_grant_prefix(b0, rs, scale as int, i + 1);
            assert(rs.subrange(0, i + 1).drop_last() =~= rs.subrange(0, i as int));
            crate::library::costs::lemma_bal_facts(*p);
        }
        let (t, base) = rewards.entry_at(i);
        let inc = base as i128 * scale as i128;
        let x = p.value(&t);
        p.insert(t, (x as i128 + inc) as i64);
        i += 1;
    }
    assert(rs.subrange(0, n as int) =~= rs);
}

/// A fishing card whose pre-play costs (those not paid in durability) the
/// player cannot pay from balances `b`; a card without such costs is always
/// playable.
pub open spec fn fishing_card_unpayable(c: LibraryCard, b: Balances) -> bool {
    match fishing_effects(c.kind) {
        Some(effs) => {
            let pre = filter_durability(gathering_costs(effs), false);
            pre.len() > 0 && !all_affordable(pre, b)
        },
        None => false,
    }
}

/// A fishing card with a copy in hand.
pub open spec fn is_fishing_hand_card(c: LibraryCard) -> bool {
    c.counts.hand > 0 && fishing_effects(c.kind) is Some
}

/// The player holds fishing cards in hand and can pay for none of them.
pub open spec fn all_fishing_unpayable(cards: Seq<LibraryCard>, b: Balances) -> bool {
    &&& exists|i: int| 0 <= i < cards.len() && is_fishing_hand_card(#[trigger] cards[i])
    &&& forall|i: int| 0 <= i < cards.len() && is_fishing_hand_card(#[trigger] cards[i]) ==> fishing_card_unpayable(cards[i], b)
}

/// Why resolving fishing card `id` is refused, if it is.
pub open spec fn fishing_play_error(s: GameState, id: usize) -> Option<FishingError> {
    if id >= s.library.cards@.len() {
        Some(FishingError::CardNotFound { card_id: id })
    } else if fishing_effects(s.library.cards@[id as int].kind) is None {
        Some(FishingError::NotAFishingCard { card_id: id })
    } else if fishing_of(s.current_encounter) is None {
        Some(FishingError::NoActiveFishing)
    } else {
        match preview_result(filter_durability(gathering_costs(fishing_effects(s.library.cards@[id as int].kind)->Some_0), false), s.token_balances) {
            Err(e) => Some(FishingError::Cost(e)),
            Ok(_) => None,
        }
    }
}

/// The balances after paying fishing card `id`'s pre-play costs and then its
/// durability costs, and whether the durability ran out.
pub open spec fn fishing_paid(s: GameState, id: usize) -> Option<(Balances, bool)> {
    let costs = gathering_costs(fishing_effects(s.library.cards@[id as int].kind)->Some_0);
    durability_after(deduct_b(bal(s.token_balances), filter_durability(costs, false)), filter_durability(costs, true), fishing_durability_key())
}

/// The fish value this round: the fish drawn, zero where there is none.
pub open spec fn fish_now(st: FishingEncounterState) -> int {
    match st.current_fish_value {
        Some(v) => v as int,
        None => 0,
    }
}

/// Whether the round is won: the card has fishing values, and the catch of
/// the value played lies in the range read from the encounter tokens `m`.
pub open spec fn round_won(st: FishingEncounterState, m: Balances, vals: Seq<i64>) -> bool {
    let lo = get0(m.0, range_min_key());
    let hi = get0(m.0, range_max_key());
    let c = catch_of(chosen_value(vals, fish_now(st), lo, hi) as int, fish_now(st));
    vals.len() > 0 && lo <= c <= hi
}

/// The rounds won after this one.
pub open spec fn wins_after(st: FishingEncounterState, m: Balances, vals: Seq<i64>) -> int {
    st.turns_won + (if round_won(st, m, vals) { 1int } else { 0int })
}

/// What playing fishing card `id` needs to stay in range: its costs and
/// durability, its effects, the round and win counters, and the rewards
/// where they are granted.
pub open spec fn fishing_play_fits(s: GameState, id: usize) -> bool {
    let effs = fishing_effects(s.library.cards@[id as int].kind)->Some_0;
    let st = fishing_of(s.current_encounter)->Some_0;
    &&& deduct_fits(filter_durability(gathering_costs(effs), false), s.token_balances)
    &&& fishing_paid(s, id) matches Some((p0, dep)) && {
        &&& !dep ==> (fishing_gains(p0, bal(st.encounter_tokens), effs, s.library) matches Some((p1, m1)) && {
            &&& totals_fit(p1)
            &&& st.round < u64::MAX
            &&& st.turns_won < u32::MAX
            &&& total_fits(st.fish_deck@)
            &&& wins_after(st, m1, fishing_values(effs, s.library)) >= st.win_turns_needed ==> (grant_rewards(
                p1,
                st.rewards.spec_entries(),
                reward_scale(m1),
            ) is Some)
        })
    }
}

/// The encounter ends at `t` with outcome `o`, the player's balances `p`.
pub open spec fn fishing_closed(s: GameState, t: GameState, o: EncounterOutcome, p: Balances) -> bool {
    &&& t.current_encounter is None
    &&& t.encounter_phase == EncounterPhase::Scouting
    &&& t.encounter_results@ == s.encounter_results@.push(o)
    &&& t.last_encounter_result == Some(o)
    &&& bal(t.token_balances) == p
}

/// The next fish played from the fish deck `d0`, giving `d1` and the fish
/// value `v`: one copy moves from the hand to the discard (the discard first
/// taken back into the hand when the hand is empty), the same fish and copies
/// stay, and `v` is the value of a fish that has a copy in the discard; with
/// neither hand nor discard nothing moves and there is no fish.
pub open spec fn fish_drawn(d0: Seq<FishCard>, d1: Seq<FishCard>, v: Option<i64>) -> bool {
    &&& crate::library::rolls::same_cards(d1, d0)
    &&& sum_deck(d1) == sum_deck(d0)
    &&& if sum_hand(d0) > 0 {
        sum_hand(d1) == sum_hand(d0) - 1 && sum_discard(d1) == sum_discard(d0) + 1 && v is Some
    } else if sum_discard(d0) > 0 {
        sum_hand(d1) == sum_discard(d0) - 1 && sum_discard(d1) == 1 && v is Some
    } else {
        d1 == d0 && v is None
    }
    &&& v matches Some(x) ==> exists|i: int| 0 <= i < d1.len() && d1[i].counts.discard > 0 && d1[i].value == x
}

/// What playing fishing card `id` in state `s` gives, `t`, with `cards` the
/// library before the player's draw. Its pre-play costs
/// are paid, then its durability costs: where the durability runs out, the
/// encounter is lost. Else its effects apply (range and fish amount to the
/// encounter, other gains and insight to the player) and the best of its
/// fishing values is played against the fish (see `round_won`). With enough
/// rounds won the rewards, scaled by the fish amount, are granted and the
/// encounter is won; with every round used it is lost; else the player draws
/// a fishing card, the next fish is played from the fish deck, and the
/// encounter is lost where no fishing card in hand can be paid for.
pub open spec fn fishing_played(s: GameState, t: GameState, id: usize, cards: Seq<LibraryCard>) -> bool {
    let effs = fishing_effects(s.library.cards@[id as int].kind)->Some_0;
    let st = fishing_of(s.current_encounter)->Some_0;
    let (p0, dep) = fishing_paid(s, id)->Some_0;
    let (p1, m1) = fishing_gains(p0, bal(st.encounter_tokens), effs, s.library)->Some_0;
    let vals = fishing_values(effs, s.library);
    let tw = wins_after(st, m1, vals);
    &&& t.game_rules == s.game_rules
    &&& if dep {
        fishing_closed(s, t, EncounterOutcome::PlayerLost, p0) && t.library.cards@ == cards
    } else if tw >= st.win_turns_needed {
        fishing_closed(s, t, EncounterOutcome::PlayerWon, grant_rewards(p1, st.rewards.spec_entries(), reward_scale(m1))->Some_0)
            && t.library.cards@ == cards
    } else if st.round >= st.max_turns {
        fishing_closed(s, t, EncounterOutcome::PlayerLost, p1) && t.library.cards@ == cards
    } else {
        &&& draw_result(cards, t.library.cards@, CardClass::Fishing, 1)
        &&& if all_fishing_unpayable(t.library.cards@, p1) {
            fishing_closed(s, t, EncounterOutcome::PlayerLost, p1)
        } else {
            &&& fishing_of(t.current_encounter) matches Some(st2) && {
                &&& st2.round == st.round + 1
                &&& st2.turns_won == tw
                &&& st2.encounter_card_id == st.encounter_card_id
                &&& st2.outcome == st.outcome
                &&& st2.max_turns == st.max_turns
                &&& st2.win_turns_needed == st.win_turns_needed
                &&& st2.rewards == st.rewards
                &&& bal(st2.encounter_tokens) == m1
                &&& vals.len() > 0 ==> st2.valid_range_min == get0(m1.0, range_min_key()) && st2.valid_range_max == get0(m1.0, range_max_key())
                &&& vals.len() == 0 ==> st2.valid_range_min == st.valid_range_min && st2.valid_range_max == st.valid_range_max
                &&& fish_drawn(st.fish_deck@, st2.fish_deck@, st2.current_fish_value)
            }
            &&& bal(t.token_balances) == p1
            &&& t.encounter_phase == s.encounter_phase
            &&& t.encounter_results@ == s.encounter_results@
            &&& t.last_encounter_result == s.last_encounter_result
        }
    }
}

impl GameState {
    /// Close the fishing encounter with this outcome: it is recorded and
    /// scouting follows.
    fn finish_fishing_encounter(&mut self, is_win: bool)
        ensures
            fishing_closed(*old(self), *final(self), if is_win { EncounterOutcome::PlayerWon } else { EncounterOutcome::PlayerLost },
                bal(old(self).token_balances)),
            final(self).library == old(self).library,
            final(self).game_rules == old(self).game_rules,
    {
        let outcome = if is_win { EncounterOutcome::PlayerWon } else { EncounterOutcome::PlayerLost };
        self.last_encounter_result = Some(outcome);
        self.encounter_results.push(outcome);
        self.current_encounter = None;
        self.encounter_phase = EncounterPhase::Scouting;
        proof {
            assert(bal(self.token_balances) == bal(old(self).token_balances));
        }
    }

    /// Whether the player holds fishing cards in hand and can pay the costs
    /// of none of them (a card without costs is always playable).
    fn all_fishing_hand_cards_unpayable(&self) -> (r: bool)
        requires
            balances_fit(self.token_balances),
        ensures
            r == all_fishing_unpayable(self.library.cards@, bal(self.token_balances)),
    {
        let cards = &self.library.cards;
        let mut any = false;
        let mut i: usize = 0;
        while i < cards.len()
            invariant
                i <= cards.len(),
                cards@ == self.library.cards@,
                balances_fit(self.token_balances),
                any == exists|j: int| 0 <= j < i && is_fishing_hand_card(#[trigger] cards@[j]),
                forall|j: int| 0 <= j < i && is_fishing_hand_card(#[trigger] cards@[j])
                    ==> fishing_card_unpayable(cards@[j], bal(self.token_balances)),
            decreases cards.len() - i,
        {
            let card = &cards[i];
            if card.counts.hand > 0 {
                if let CardKind::Fishing { effects } = &card.kind {
                    any = true;
                    let all_costs = extract_gathering_costs_from_effects(effects.as_slice());
                    let (costs, _) = split_token_amounts(all_costs.as_slice());
                    if costs.len() == 0 {
                        proof {
                            assert(is_fishing_hand_card(cards@[i as int]));
                        }
                        return false;
                    }
                    let ok = preview_gathering_costs(costs.as_slice(), &self.token_balances).is_ok();
                    proof {
                        crate::library::costs::lemma_preview_ok(costs@, self.token_balances);
                    }
                    if ok {
                        proof {
                            assert(is_fishing_hand_card(cards@[i as int]));
                        }
                        return false;
                    }
                }
            }
            i += 1;
        }
        any
    }

    /// Conclude a fishing encounter: it is won where enough rounds are won
    /// (the rewards, scaled by the fish amount, are then granted), else lost.
    pub fn conclude_fishing_encounter(&mut self) -> (r: Result<(), FishingError>)
        requires
            fishing_of(old(self).current_encounter) matches Some(st) ==> (st.turns_won >= st.win_turns_needed
                ==> grant_rewards(bal(old(self).token_balances), st.rewards.spec_entries(), reward_scale(bal(st.encounter_tokens))) is Some),
        ensures
            match fishing_of(old(self).current_encounter) {
                Some(st) if st.outcome == EncounterOutcome::Undecided => {
                    let p = bal(old(self).token_balances);
                    &&& r is Ok
                    &&& final(self).library == old(self).library
                    &&& if st.turns_won >= st.win_turns_needed {
                        fishing_closed(*old(self), *final(self), EncounterOutcome::PlayerWon,
                            grant_rewards(p, st.rewards.spec_entries(), reward_scale(bal(st.encounter_tokens)))->Some_0)
                    } else {
                        fishing_closed(*old(self), *final(self), EncounterOutcome::PlayerLost, p)
                    }
                },
                _ => r == Err::<(), FishingError>(FishingError::NoActiveFishing) && *final(self) == *old(self),
            },
    {
        let win = match &self.current_encounter {
            Some(EncounterState::Fishing(f)) => {
                if f.outcome != EncounterOutcome::Undecided {
                    return Err(FishingError::NoActiveFishing);
                }
                f.turns_won >= f.win_turns_needed
            },
            _ => {
                return Err(FishingError::NoActiveFishing);
            },
        };
        let ghost s0 = *self;
        if win {
            let scale = match &self.current_encounter {
                Some(EncounterState::Fishing(f)) => fishing_scale(&f.encounter_tokens),
                _ => 1,
            };
            match &self.current_encounter {
                Some(EncounterState::Fishing(f)) => grant_rewards_exec(&mut self.token_balances, &f.rewards, scale),
                _ => {},
            }
            proof {
                crate::library::costs::lemma_bal_facts(self.token_balances);
            }
        }
        let ghost s1 = *self;
        self.finish_fishing_encounter(win);
        proof {
            assert(fishing_closed(s1, *self, if win { EncounterOutcome::PlayerWon } else { EncounterOutcome::PlayerLost }, bal(s1.token_balances)));
        }
        Ok(())
    }
}

/// The reward scale read from the encounter tokens (see `reward_scale`).
fn fishing_scale(m: &TokenMap) -> (r: i64)
    ensures
        r == reward_scale(bal(*m)),
{
    proof {
        crate::library::costs::lemma_bal_facts(*m);
    }
    let a = match m.get(&Token::persistent(TokenType::FishAmount)) {
        Some(v) => v,
        None => 1,
    };
    if a >= 1 { a } else { 1 }
}

impl GameState {
    /// Resolve a player fishing card against the current fishing encounter
    /// (see `fishing_played`).
    pub fn resolve_player_fishing_card(&mut self, card_id: usize, rng: &mut Lcg64Xsh32) -> (r: Result<(), FishingError>)
        requires
            balances_fit(old(self).token_balances),
            counts_fit(old(self).library.cards@),
            class_hand(old(self).library.cards@, CardClass::Fishing) < u32::MAX,
            fishing_play_error(*old(self), card_id) is None ==> fishing_play_fits(*old(self), card_id),
        ensures
            fishing_play_error(*old(self), card_id) matches Some(e) ==> r == Err::<(), FishingError>(e) && *final(self) == *old(self),
            fishing_play_error(*old(self), card_id) is None ==> r is Ok
                && fishing_played(*old(self), *final(self), card_id, old(self).library.cards@),
    {
        let ghost s0 = *self;
        if card_id >= self.library.cards.len() {
            return Err(FishingError::CardNotFound { card_id });
        }
        let effects = match &self.library.cards[card_id].kind {
            CardKind::Fishing { effects } => effects,
            _ => {
                return Err(FishingError::NotAFishingCard { card_id });
            },
        };
        match &self.current_encounter {
            Some(EncounterState::Fishing(_)) => {},
            _ => {
                return Err(FishingError::NoActiveFishing);
            },
        }
        let costs = extract_gathering_costs_from_effects(effects.as_slice());
        let (pre, post) = split_token_amounts(costs.as_slice());
        match check_and_deduct_gathering_costs(pre.as_slice(), &mut self.token_balances) {
            Err(e) => {
                return Err(FishingError::Cost(e));
            },
            Ok(()) => {},
        }
        let depleted = pay_durability(&mut self.token_balances, &post, &Token::persistent(TokenType::FishingDurability));
        let ghost paid = fishing_paid(s0, card_id)->Some_0;
        assert(bal(self.token_balances) == paid.0 && depleted == paid.1);
        if depleted {
            proof {
                crate::library::costs::lemma_bal_facts(self.token_balances);
            }
            self.finish_fishing_encounter(false);
            return Ok(());
        }
        let ghost st0 = fishing_of(self.current_encounter)->Some_0;
        let mut st = match self.current_encounter.take() {
            Some(EncounterState::Fishing(st)) => st,
            _ => {
                proof {
                    assert(false);
                }
                return Err(FishingError::NoActiveFishing);
            },
        };
        let ghost total = fishing_gains(paid.0, bal(st.encounter_tokens), effects@, s0.library);
        let ghost all_vals = fishing_values(effects@, s0.library);
        let mut values: Vec<i64> = Vec::new();
        let n = effects.len();
        let mut i: usize = 0;
        assert(effects@.subrange(0, n as int) =~= effects@);
        while i < n
            invariant
                i <= n,
                n == effects@.len(),
                fishing_effects(s0.library.cards@[card_id as int].kind) == Some(effects@),
                total is Some,
                total == fishing_gains(bal(self.token_balances), bal(st.encounter_tokens), effects@.subrange(i as int, n as int), self.library),
                all_vals == values@ + fishing_values(effects@.subrange(i as int, n as int), self.library),
                self.library == s0.library,
                self.game_rules == s0.game_rules,
                self.encounter_phase == s0.encounter_phase,
                self.encounter_results == s0.encounter_results,
                self.last_encounter_result == s0.last_encounter_result,
                self.current_encounter is None,
                st.encounter_card_id == st0.encounter_card_id,
                st.outcome == st0.outcome,
                st.round == st0.round,
                st.turns_won == st0.turns_won,
                st.max_turns == st0.max_turns,
                st.win_turns_needed == st0.win_turns_needed,
                st.valid_range_min == st0.valid_range_min,
                st.valid_range_max == st0.valid_range_max,
                st.fish_deck == st0.fish_deck,
                st.current_fish_value == st0.current_fish_value,
                st.rewards == st0.rewards,
            decreases n - i,
        {
            let ghost rest = effects@.subrange(i as int, n as int);
            proof {
                assert(rest[0] == effects@[i as int]);
                assert(rest.drop_first() =~= effects@.subrange(i + 1, n as int));
                lemma_values_step(effects@, self.library, i as int);
            }
            apply_fishing_gain(&mut self.token_balances, &mut st.encounter_tokens, &effects[i], &self.library);
            if is_fishing_value(&effects[i], &self.library) {
                values.push(effects[i].rolled_value);
                proof {
                    assert(all_vals == values@ + fishing_values(effects@.subrange(i + 1, n as int), self.library));
                }
            } else {
                proof {
                    assert(all_vals == values@ + fishing_values(effects@.subrange(i + 1, n as int), self.library));
                }
            }
            i += 1;
        }
        proof {
            assert(effects@.subrange(n as int, n as int) =~= Seq::<ConcreteEffect>::empty());
            assert(values@ + Seq::<i64>::empty() =~= values@);
            crate::library::costs::lemma_bal_facts(self.token_balances);
            crate::library::costs::lemma_bal_facts(st.encounter_tokens);
        }
        let ghost m1 = bal(st.encounter_tokens);
        let ghost p1 = bal(self.token_balances);
        let mut won = false;
        if values.len() > 0 {
            let lo = st.encounter_tokens.value(&Token::persistent(TokenType::FishingRangeMin));
            let hi = st.encounter_tokens.value(&Token::persistent(TokenType::FishingRangeMax));
            let fish = match st.current_fish_value {
                Some(v) => v,
                None => 0,
            };
            let best = choose_fishing_value(&values, fish, lo, hi);
            let d = best as i128 - fish as i128;
            let c: i128 = if d > 0 { d } else { 0 };
            won = lo as i128 <= c && c <= hi as i128;
            st.valid_range_min = lo;
            st.valid_range_max = hi;
        }
        assert(won == round_won(st0, m1, all_vals));
        if won {
            st.turns_won = st.turns_won + 1;
        }
        st.round = st.round + 1;
        let enough = st.turns_won >= st.win_turns_needed;
        let all_used = st.round - 1 >= st.max_turns as u64;
        if enough {
            let scale = fishing_scale(&st.encounter_tokens);
            grant_rewards_exec(&mut self.token_balances, &st.rewards, scale);
            self.current_encounter = Some(EncounterState::Fishing(st));
            proof {
                crate::library::costs::lemma_bal_facts(self.token_balances);
            }
            let ghost s1 = *self;
            self.finish_fishing_encounter(true);
            proof {
                assert(fishing_closed(s1, *self, EncounterOutcome::PlayerWon, bal(s1.token_balances)));
            }
            return Ok(());
        }
        if all_used {
            self.current_encounter = Some(EncounterState::Fishing(st));
            let ghost s1 = *self;
            self.finish_fishing_encounter(false);
            proof {
                assert(fishing_closed(s1, *self, EncounterOutcome::PlayerLost, bal(s1.token_balances)));
            }
            return Ok(());
        }
        self.current_encounter = Some(EncounterState::Fishing(st));
        proof {
            assert(p1.1[TokenType::FishingMaxHand] == self.token_balances.spec_balance(TokenType::FishingMaxHand));
        }
        self.draw_player_cards_of_kind(1, CardClass::Fishing, rng, Some(TokenType::FishingMaxHand));
        let mut st = match self.current_encounter.take() {
            Some(EncounterState::Fishing(st)) => st,
            _ => {
                proof {
                    assert(false);
                }
                return Ok(());
            },
        };
        let ghost deck0 = st.fish_deck@;
        proof {
            crate::library::rolls::lemma_total_fits_draw(deck0);
            lemma_sums_nonneg(deck0);
        }
        let played = deck_play_random(rng, &mut st.fish_deck);
        st.current_fish_value = match played {
            Some(k) => Some(st.fish_deck[k].value),
            None => None,
        };
        proof {
            if let Some(k) = played {
                assert(st.fish_deck@[k as int] == deck0[k as int].with_counts(st.fish_deck@[k as int].spec_counts()));
            }
        }
        self.current_encounter = Some(EncounterState::Fishing(st));
        proof {
            crate::library::costs::lemma_bal_facts(self.token_balances);
        }
        if self.all_fishing_hand_cards_unpayable() {
            let ghost s1 = *self;
            self.finish_fishing_encounter(false);
            proof {
                assert(fishing_closed(s1, *self, EncounterOutcome::PlayerLost, bal(s1.token_balances)));
            }
        }
        Ok(())
    }
}

proof fn lemma_fishing_gains_cong(p: Balances, m: Balances, effs: Seq<ConcreteEffect>, a: Library, b: Library)
    requires
        crate::library::disciplines::combat::same_templates(a, b),
    ensures
        fishing_gains(p, m, effs, a) == fishing_gains(p, m, effs, b),
        fishing_values(effs, a) == fishing_values(effs, b),
    decreases effs.len(),
{
    if effs.len() > 0 {
        assert(template_of(a, effs[0].effect_id) == template_of(b, effs[0].effect_id));
        lemma_fishing_gains_cong(p, m, effs.drop_first(), a, b);
        match fishing_gain_one(p, m, effs[0].rolled_value as int, template_of(a, effs[0].effect_id)) {
            Some((p1, m1)) => lemma_fishing_gains_cong(p1, m1, effs.drop_first(), a, b),
            None => {},
        }
    }
}

/// Moving copies of cards between piles changes neither whether a fishing
/// card's play is refused nor what it needs to stay in range.
pub proof fn lemma_fishing_play_counts_moved(s: GameState, t: GameState, id: usize)
    requires
        crate::library::game_state::only_counts_moved(s.library.cards@, t.library.cards@),
        t.token_balances == s.token_balances,
        t.current_encounter == s.current_encounter,
    ensures
        fishing_play_error(t, id) == fishing_play_error(s, id),
        fishing_play_error(s, id) is None ==> fishing_play_fits(t, id) == fishing_play_fits(s, id),
{
    crate::library::disciplines::combat::lemma_same_templates(s.library, t.library);
    if id < s.library.cards@.len() {
        assert(t.library.cards@[id as int].kind == s.library.cards@[id as int].kind);
    }
    if fishing_play_error(s, id) is None {
        let effs = fishing_effects(s.library.cards@[id as int].kind)->Some_0;
        let st = fishing_of(s.current_encounter)->Some_0;
        if let Some((p0, dep)) = fishing_paid(s, id) {
            lemma_fishing_gains_cong(p0, bal(st.encounter_tokens), effs, s.library, t.library);
        }
    }
}

/// A play resolved after its card went to the discard is the play of the
/// state before, from the library with the card in the discard.
pub proof fn lemma_fishing_played_counts_moved(s: GameState, s1: GameState, t: GameState, id: usize)
    requires
        crate::library::game_state::only_counts_moved(s.library.cards@, s1.library.cards@),
        s1.token_balances == s.token_balances,
        s1.current_encounter == s.current_encounter,
        s1.game_rules == s.game_rules,
        s1.encounter_results == s.encounter_results,
        s1.encounter_phase == s.encounter_phase,
        s1.last_encounter_result == s.last_encounter_result,
        fishing_play_error(s, id) is None,
        fishing_played(s1, t, id, s1.library.cards@),
    ensures
        fishing_played(s, t, id, s1.library.cards@),
{
    lemma_fishing_play_counts_moved(s, s1, id);
    crate::library::disciplines::combat::lemma_same_templates(s.library, s1.library);
    assert(s1.library.cards@[id as int].kind == s.library.cards@[id as int].kind);
    let effs = fishing_effects(s.library.cards@[id as int].kind)->Some_0;
    let st = fishing_of(s.current_encounter)->Some_0;
    let (p0, dep) = fishing_paid(s, id)->Some_0;
    lemma_fishing_gains_cong(p0, bal(st.encounter_tokens), effs, s.library, s1.library);
}

/// A gain of the fishing range bounds or of the fish amount, played in
/// fishing, goes to the encounter: the encounter's counter of that type grows
/// by the rolled value, its other counters and the player's balances stay.
pub proof fn law_fishing_range_gains_go_to_the_encounter(p: Balances, m: Balances, v: int, k: Option<CardEffectKindView>, tt: TokenType)
    requires
        k matches Some(CardEffectKindView::GainTokens { token_type, .. }) && token_type == tt,
        tt == TokenType::FishingRangeMin || tt == TokenType::FishingRangeMax || tt == TokenType::FishAmount,
        fits(get0(m.0, persistent_key(tt)) + v),
    ensures
        fishing_gain_one(p, m, v, k) matches Some((p2, m2)) && {
            &&& p2 == p
            &&& get0(m2.0, persistent_key(tt)) == get0(m.0, persistent_key(tt)) + v
            &&& forall|key: TokenKey| key != persistent_key(tt) ==> #[trigger] get0(m2.0, key) == get0(m.0, key)
        },
{
}

/// Any other gain played in fishing goes to the player's counter of its
/// type, by the rolled value; the encounter's counters stay.
pub proof fn law_fishing_other_gains_go_to_the_player(p: Balances, m: Balances, v: int, k: Option<CardEffectKindView>, tt: TokenType)
    requires
        k matches Some(CardEffectKindView::GainTokens { token_type, .. }) && token_type == tt,
        !(tt == TokenType::FishingRangeMin || tt == TokenType::FishingRangeMax || tt == TokenType::FishAmount),
        fits(get0(p.0, persistent_key(tt)) + v),
    ensures
        fishing_gain_one(p, m, v, k) matches Some((p2, m2)) && {
            &&& m2 == m
            &&& get0(p2.0, persistent_key(tt)) == get0(p.0, persistent_key(tt)) + v
            &&& forall|key: TokenKey| key != persistent_key(tt) ==> #[trigger] get0(p2.0, key) == get0(p.0, key)
        },
{
}

} // verus!
