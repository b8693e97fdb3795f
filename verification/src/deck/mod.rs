//! Player decks: each card of a deck counts its copies per location.
pub mod card;
pub mod token;

use crate::deck::card::CardType;
use rand_pcg::Lcg64Xsh32;
use vstd::prelude::*;

verus! {

/// `CardState` represents the cards state in a deck.
#[derive(Clone, Copy, PartialEq, Eq, Debug, Hash, Structural)]
pub enum CardState {
    /// The card is in the deck.
    Deck,
    /// The card is in your hand.
    Hand,
    /// The card is in the discard pile.
    Discard,
    /// The card is marked as deleted. This is both used for a possible undo option, documentation and performance.
    Deleted,
}

/// Copy counts of one card per state. A state may be absent, which differs
/// from being present with a count of zero.
#[derive(Clone, Copy, PartialEq, Eq, Debug, Structural)]
pub struct CardStateCounts {
    pub deck: Option<u32>,
    pub hand: Option<u32>,
    pub discard: Option<u32>,
    pub deleted: Option<u32>,
}

impl CardStateCounts {
    /// The count recorded for `s`, if any.
    pub open spec fn spec_get(self, s: CardState) -> Option<u32> {
        match s {
            CardState::Deck => self.deck,
            CardState::Hand => self.hand,
            CardState::Discard => self.discard,
            CardState::Deleted => self.deleted,
        }
    }

    /// The counts with the entry of `s` replaced by `v`.
    pub open spec fn spec_set(self, s: CardState, v: Option<u32>) -> Self {
        match s {
            CardState::Deck => CardStateCounts { deck: v, ..self },
            CardState::Hand => CardStateCounts { hand: v, ..self },
            CardState::Discard => CardStateCounts { discard: v, ..self },
            CardState::Deleted => CardStateCounts { deleted: v, ..self },
        }
    }

    /// The counts built from `pairs`, a later pair for a state replacing an earlier one.
    pub open spec fn spec_from_pairs(pairs: Seq<(CardState, u32)>) -> Self
        decreases pairs.len(),
    {
        if pairs.len() == 0 {
            CardStateCounts { deck: None, hand: None, discard: None, deleted: None }
        } else {
            let last = pairs.last();
            Self::spec_from_pairs(pairs.drop_last()).spec_set(last.0, Some(last.1))
        }
    }

    /// No state recorded.
    pub fn new() -> (r: Self)
        ensures
            r == (CardStateCounts { deck: None, hand: None, discard: None, deleted: None }),
            forall|s: CardState| r.spec_get(s) is None,
    {
        CardStateCounts { deck: None, hand: None, discard: None, deleted: None }
    }

    /// Counts from `(state, count)` pairs; the last pair of a state wins.
    pub fn from_pairs(pairs: Vec<(CardState, u32)>) -> (r: Self)
        ensures
            r == Self::spec_from_pairs(pairs@),
    {
        let mut r = CardStateCounts::new();
        let mut i: usize = 0;
        assert(pairs@.subrange(0, 0) =~= Seq::<(CardState, u32)>::empty());
        while i < pairs.len()
            invariant
                i <= pairs.len(),
                r == Self::spec_from_pairs(pairs@.subrange(0, i as int)),
            decreases pairs.len() - i,
        {
            let (s, c) = pairs[i];
            r.set(s, Some(c));
            proof {
                assert(pairs@.subrange(0, i + 1).drop_last() =~= pairs@.subrange(0, i as int));
            }
            i += 1;
        }
        proof {
            assert(pairs@.subrange(0, pairs.len() as int) =~= pairs@);
        }
        r
    }

    /// The count recorded for `s`.
    pub fn get(&self, s: CardState) -> (r: Option<u32>)
        ensures
            r == self.spec_get(s),
    {
        match s {
            CardState::Deck => self.deck,
            CardState::Hand => self.hand,
            CardState::Discard => self.discard,
            CardState::Deleted => self.deleted,
        }
    }

    /// Whether a count is recorded for `s`.
    pub fn contains_key(&self, s: CardState) -> (r: bool)
        ensures
            r == self.spec_get(s) is Some,
    {
        self.get(s).is_some()
    }

    /// Record `v` for `s`.
    pub fn set(&mut self, s: CardState, v: Option<u32>)
        ensures
            *final(self) == old(self).spec_set(s, v),
    {
        match s {
            CardState::Deck => self.deck = v,
            CardState::Hand => self.hand = v,
            CardState::Discard => self.discard = v,
            CardState::Deleted => self.deleted = v,
        }
    }
}

/// The counts after moving one copy from `old_state` (holding `n > 0`) to `new_state`.
pub open spec fn moved_counts(
    st: CardStateCounts,
    old_state: CardState,
    new_state: CardState,
    n: u32,
) -> CardStateCounts {
    let a = st.spec_set(old_state, Some((n - 1) as u32));
    a.spec_set(
        new_state,
        Some(
            match a.spec_get(new_state) {
                None => 1u32,
                Some(m) => (m + 1) as u32,
            },
        ),
    )
}

/// The count of `s` in a state table, absent counting as zero.
pub open spec fn count_of(st: CardStateCounts, s: CardState) -> nat {
    match st.spec_get(s) {
        None => 0,
        Some(n) => n as nat,
    }
}

#[derive(Clone, Debug)]
pub struct DeckCard {
    pub id: usize,
    pub state: CardStateCounts,
}

#[derive(Clone, Debug)]
pub struct Deck {
    pub cards: Vec<DeckCard>,
    pub id: usize,
    pub contains_card_types: Vec<CardType>,
}

/// Why a deck operation was refused.
#[derive(Clone, Copy, PartialEq, Eq, Debug, Structural)]
pub enum DeckError {
    /// The deck has no cards at all.
    EmptyDeck { deck_id: usize },
    /// No card with this id is in the deck.
    CardNotFound { card_id: usize, deck_id: usize },
    /// The card has no entry for the source state.
    StateMissing { state: CardState, card_id: usize, deck_id: usize },
    /// The card's count in the source state is zero.
    ZeroCount { state: CardState, card_id: usize, deck_id: usize },
}

/// `i` is the first position of a card with id `id`.
pub open spec fn is_first_with_id(cards: Seq<DeckCard>, i: int, id: usize) -> bool {
    &&& 0 <= i < cards.len()
    &&& cards[i].id == id
    &&& forall|j: int| 0 <= j < i ==> cards[j].id != id
}

/// Copies of all cards in state `s`.
pub open spec fn total_in_state(cards: Seq<DeckCard>, s: CardState) -> nat
    decreases cards.len(),
{
    if cards.len() == 0 {
        0
    } else {
        total_in_state(cards.drop_last(), s) + count_of(cards.last().state, s)
    }
}

/// Replacing one card changes the total of a state by the change of that card.
pub proof fn lemma_total_update(cards: Seq<DeckCard>, i: int, c: DeckCard, s: CardState)
    requires
        0 <= i < cards.len(),
    ensures
        total_in_state(cards.update(i, c), s) + count_of(cards[i].state, s)
            == total_in_state(cards, s) + count_of(c.state, s),
    decreases cards.len(),
{
    let u = cards.update(i, c);
    if i == cards.len() - 1 {
        assert(u.drop_last() =~= cards.drop_last());
    } else {
        assert(u.drop_last() =~= cards.drop_last().update(i, c));
        lemma_total_update(cards.drop_last(), i, c, s);
    }
}

/// Moving a copy out of `old_state` into another state.
pub proof fn lemma_moved_counts(st: CardStateCounts, o: CardState, n: CardState, k: u32, s: CardState)
    requires
        st.spec_get(o) == Some(k),
        k > 0,
        o != n ==> count_of(st, n) < u32::MAX,
    ensures
        o != n && s == o ==> count_of(moved_counts(st, o, n, k), s) + 1 == count_of(st, s),
        o != n && s == n ==> count_of(moved_counts(st, o, n, k), s) == count_of(st, s) + 1,
        (s != o && s != n) || o == n ==> count_of(moved_counts(st, o, n, k), s) == count_of(st, s),
{
}

/// A card holding `id` at `k` means some first position holds it.
pub proof fn lemma_first_exists(cards: Seq<DeckCard>, k: int, id: usize)
    requires
        0 <= k < cards.len(),
        cards[k].id == id,
    ensures
        exists|i: int| is_first_with_id(cards, i, id),
    decreases k,
{
    if exists|j: int| 0 <= j < k && cards[j].id == id {
        let j = choose|j: int| 0 <= j < k && cards[j].id == id;
        lemma_first_exists(cards, j, id);
    } else {
        assert(is_first_with_id(cards, k, id));
    }
}

/// One successful move changes the state totals by one copy and uses one unit of room.
pub proof fn lemma_move_step(before: Seq<DeckCard>, first: int, o: CardState, n: CardState, cnt: u32, rem: nat)
    requires
        0 <= first < before.len(),
        before[first].state.spec_get(o) == Some(cnt),
        cnt > 0,
        forall|i: int, s: CardState| 0 <= i < before.len() ==> #[trigger] count_of(before[i].state, s) + rem + 1 <= u32::MAX,
    ensures
        ({
            let after = before.update(first, DeckCard { id: before[first].id, state: moved_counts(before[first].state, o, n, cnt) });
            &&& forall|s: CardState| o != n && s == o ==> #[trigger] total_in_state(after, s) + 1 == total_in_state(before, s)
            &&& forall|s: CardState| o != n && s == n ==> #[trigger] total_in_state(after, s) == total_in_state(before, s) + 1
            &&& forall|s: CardState| (s != o && s != n) || o == n ==> #[trigger] total_in_state(after, s) == total_in_state(before, s)
            &&& forall|i: int, s: CardState| 0 <= i < after.len() ==> #[trigger] count_of(after[i].state, s) + rem <= u32::MAX
        }),
{
    let st = before[first].state;
    let c = DeckCard { id: before[first].id, state: moved_counts(st, o, n, cnt) };
    let after = before.update(first, c);
    assert(count_of(st, n) + rem + 1 <= u32::MAX);
    assert forall|s: CardState| true implies #[trigger] total_in_state(after, s) + count_of(st, s)
        == total_in_state(before, s) + count_of(c.state, s) by {
        lemma_total_update(before, first, c, s);
        lemma_moved_counts(st, o, n, cnt, s);
    }
    assert forall|s: CardState| true implies o_n_rel(st, c.state, o, n, cnt, s) by {
        lemma_moved_counts(st, o, n, cnt, s);
    }
    assert forall|i: int, s: CardState| 0 <= i < after.len() implies #[trigger] count_of(after[i].state, s) + rem <= u32::MAX by {
        assert(count_of(before[i].state, s) + rem + 1 <= u32::MAX);
        if i == first {
            lemma_moved_counts(st, o, n, cnt, s);
        }
    }
}

impl Deck {
    /// The precondition of moving one copy of card `card_id`: the target count does not overflow.
    pub open spec fn move_fits(self, card_id: usize, new_state: CardState, old_state: CardState) -> bool {
        forall|i: int|
            is_first_with_id(self.cards@, i, card_id) ==> {
                let st = self.cards@[i].state;
                let a = match st.spec_get(old_state) {
                    Some(n) if n > 0 => st.spec_set(old_state, Some((n - 1) as u32)),
                    _ => st,
                };
                match a.spec_get(new_state) {
                    Some(m) => m < u32::MAX,
                    None => true,
                }
            }
    }

    pub fn add_new_card(&mut self, new_card: DeckCard)
        ensures
            final(self).cards@ == old(self).cards@.push(new_card),
            final(self).id == old(self).id,
            final(self).contains_card_types@ == old(self).contains_card_types@,
    {
        self.cards.push(new_card);
    }

    /// Move one copy of card `card_id` from `old_state` to `new_state`.
    pub fn change_card_state(&mut self, card_id: usize, new_state: CardState, old_state: CardState) -> (r: Result<(), DeckError>)
        requires
            old(self).move_fits(card_id, new_state, old_state),
        ensures
            final(self).id == old(self).id,
            final(self).contains_card_types@ == old(self).contains_card_types@,
            (forall|i: int| 0 <= i < old(self).cards@.len() ==> old(self).cards@[i].id != card_id)
                ==> r == Err::<(), DeckError>(DeckError::CardNotFound { card_id, deck_id: old(self).id })
                && final(self).cards@ == old(self).cards@,
            forall|i: int|
                is_first_with_id(old(self).cards@, i, card_id) ==> {
                    let st = old(self).cards@[i].state;
                    match st.spec_get(old_state) {
                        None => r == Err::<(), DeckError>(DeckError::StateMissing { state: old_state, card_id, deck_id: old(self).id })
                            && final(self).cards@ == old(self).cards@,
                        Some(n) => if n == 0 {
                            r == Err::<(), DeckError>(DeckError::ZeroCount { state: old_state, card_id, deck_id: old(self).id })
                                && final(self).cards@ == old(self).cards@
                        } else {
                            r is Ok && final(self).cards@ == old(self).cards@.update(
                                i,
                                DeckCard { id: card_id, state: moved_counts(st, old_state, new_state, n) },
                            )
                        },
                    }
                },
    {
        let mut i: usize = 0;
        while i < self.cards.len()
            invariant
                i <= self.cards.len(),
                self.id == old(self).id,
                self.contains_card_types@ == old(self).contains_card_types@,
                self.cards@ == old(self).cards@,
                old(self).move_fits(card_id, new_state, old_state),
                forall|j: int| 0 <= j < i ==> self.cards@[j].id != card_id,
            decreases self.cards.len() - i,
        {
            if self.cards[i].id == card_id {
                assert(is_first_with_id(self.cards@, i as int, card_id));
                let st = self.cards[i].state;
                match st.get(old_state) {
                    None => {
                        return Err(DeckError::StateMissing { state: old_state, card_id, deck_id: self.id });
                    },
                    Some(n) => {
                        if n == 0 {
                            return Err(DeckError::ZeroCount { state: old_state, card_id, deck_id: self.id });
                        }
                        let mut st2 = st;
                        st2.set(old_state, Some(n - 1));
                        assert(is_first_with_id(self.cards@, i as int, card_id));
                        let v = match st2.get(new_state) {
                            None => 1u32,
                            Some(m) => m + 1,
                        };
                        st2.set(new_state, Some(v));
                        self.cards.set(i, DeckCard { id: card_id, state: st2 });
                        return Ok(());
                    },
                }
            }
            i += 1;
        }
        Err(DeckError::CardNotFound { card_id, deck_id: self.id })
    }

    /// Every card of the deck holds at least `k` copies in state `s`.
    pub open spec fn all_hold(self, s: CardState, k: nat) -> bool {
        forall|i: int| 0 <= i < self.cards@.len() ==> #[trigger] count_of(self.cards@[i].state, s) >= k
    }

    /// Every card of the deck can take `k` more copies in any state without overflow.
    pub open spec fn room_for(self, k: nat) -> bool {
        forall|i: int, s: CardState| 0 <= i < self.cards@.len() ==> #[trigger] count_of(self.cards@[i].state, s) + k <= u32::MAX
    }

    /// Move `number_of_cards` randomly chosen copies from `old_state` to `new_state`,
    /// one at a time, stopping at the first refused move.
    pub fn change_random_cards_state(
        &mut self,
        number_of_cards: usize,
        new_state: CardState,
        old_state: CardState,
        random_generator_state: &mut Lcg64Xsh32,
    ) -> (r: Result<(), DeckError>)
        requires
            old(self).room_for(number_of_cards as nat),
        ensures
            final(self).id == old(self).id,
            final(self).contains_card_types@ == old(self).contains_card_types@,
            final(self).cards@.len() == old(self).cards@.len(),
            forall|i: int| 0 <= i < old(self).cards@.len() ==> #[trigger] final(self).cards@[i].id == old(self).cards@[i].id,
            old(self).cards@.len() == 0 <==> r == Err::<(), DeckError>(DeckError::EmptyDeck { deck_id: old(self).id }),
            old(self).cards@.len() == 0 ==> final(self).cards@ == old(self).cards@
                && *final(random_generator_state) == *old(random_generator_state),
            old(self).cards@.len() > 0 && old_state != new_state && old(self).all_hold(old_state, number_of_cards as nat) ==> r is Ok,
            r is Ok && old_state != new_state ==> total_in_state(final(self).cards@, old_state) + number_of_cards
                == total_in_state(old(self).cards@, old_state)
                && total_in_state(final(self).cards@, new_state)
                == total_in_state(old(self).cards@, new_state) + number_of_cards,
            forall|s: CardState| (s != old_state && s != new_state) || old_state == new_state
                ==> total_in_state(#[trigger] final(self).cards@, s) == total_in_state(old(self).cards@, s),
    {
        if self.cards.len() == 0 {
            return Err(DeckError::EmptyDeck { deck_id: self.id });
        }
        let ghost orig = self.cards@;
        let mut k: usize = 0;
        while k < number_of_cards
            invariant
                k <= number_of_cards,
                self.id == old(self).id,
                self.contains_card_types@ == old(self).contains_card_types@,
                self.cards@.len() == orig.len(),
                orig.len() > 0,
                orig == old(self).cards@,
                forall|i: int| 0 <= i < orig.len() ==> #[trigger] self.cards@[i].id == orig[i].id,
                self.room_for((number_of_cards - k) as nat),
                old_state != new_state ==> total_in_state(self.cards@, old_state) + k == total_in_state(orig, old_state)
                    && total_in_state(self.cards@, new_state) == total_in_state(orig, new_state) + k,
                forall|s: CardState| (s != old_state && s != new_state) || old_state == new_state
                    ==> total_in_state(#[trigger] self.cards@, s) == total_in_state(orig, s),
                old_state != new_state && old(self).all_hold(old_state, number_of_cards as nat) ==> forall|i: int|
                    0 <= i < self.cards@.len() ==> #[trigger] count_of(self.cards@[i].state, old_state) + k >= number_of_cards,
            decreases number_of_cards - k,
        {
            let idx = crate::rng::gen_index(random_generator_state, self.cards.len());
            let card_id = self.cards[idx].id;
            let ghost before = self.cards@;
            proof {
                assert(before[idx as int].id == card_id);
                assert(self.move_fits(card_id, new_state, old_state)) by {
                    assert forall|i: int| is_first_with_id(self.cards@, i, card_id) implies {
                        let st = self.cards@[i].state;
                        let a = match st.spec_get(old_state) {
                            Some(n) if n > 0 => st.spec_set(old_state, Some((n - 1) as u32)),
                            _ => st,
                        };
                        match a.spec_get(new_state) {
                            Some(m) => m < u32::MAX,
                            None => true,
                        }
                    } by {
                        assert(count_of(self.cards@[i].state, new_state) + 1 <= u32::MAX);
                    }
                }
            }
            let res = self.change_card_state(card_id, new_state, old_state);
            proof {
                lemma_first_exists(before, idx as int, card_id);
                let first = choose|i: int| is_first_with_id(before, i, card_id);
                let st = before[first].state;
                if let Some(n) = st.spec_get(old_state) {
                    if n > 0 {
                        lemma_move_step(before, first, old_state, new_state, n, (number_of_cards - k - 1) as nat);
                        if old_state != new_state && old(self).all_hold(old_state, number_of_cards as nat) {
                            assert(count_of(before[first].state, new_state) + 1 <= u32::MAX);
                            assert forall|i: int| 0 <= i < self.cards@.len() implies #[trigger] count_of(self.cards@[i].state, old_state) + k + 1 >= number_of_cards by {
                                lemma_moved_counts(st, old_state, new_state, n, old_state);
                                if i != first {
                                    assert(self.cards@[i] == before[i]);
                                }
                            }
                        }
                    }
                }
                if old_state != new_state && old(self).all_hold(old_state, number_of_cards as nat) {
                    assert(count_of(before[first].state, old_state) + k >= number_of_cards);
                    assert(res is Ok);
                }
                assert forall|i: int| 0 <= i < orig.len() implies #[trigger] self.cards@[i].id == orig[i].id by {
                    assert(before[i].id == orig[i].id);
                }
            }
            if res.is_err() {
                return res;
            }
            k += 1;
        }
        Ok(())
    }

    /// Draw `number_of_cards` random copies from the deck into the hand.
    pub fn draw_cards(&mut self, number_of_cards: usize, random_generator_state: &mut Lcg64Xsh32) -> (r: Result<(), DeckError>)
        requires
            old(self).room_for(number_of_cards as nat),
        ensures
            final(self).id == old(self).id,
            final(self).cards@.len() == old(self).cards@.len(),
            old(self).cards@.len() == 0 <==> r == Err::<(), DeckError>(DeckError::EmptyDeck { deck_id: old(self).id }),
            old(self).cards@.len() == 0 ==> *final(random_generator_state) == *old(random_generator_state),
            old(self).cards@.len() > 0 && old(self).all_hold(CardState::Deck, number_of_cards as nat) ==> r is Ok,
            r is Ok ==> total_in_state(final(self).cards@, CardState::Deck) + number_of_cards
                == total_in_state(old(self).cards@, CardState::Deck)
                && total_in_state(final(self).cards@, CardState::Hand)
                == total_in_state(old(self).cards@, CardState::Hand) + number_of_cards,
            total_in_state(final(self).cards@, CardState::Discard) == total_in_state(old(self).cards@, CardState::Discard),
            total_in_state(final(self).cards@, CardState::Deleted) == total_in_state(old(self).cards@, CardState::Deleted),
    {
        let r = self.change_random_cards_state(number_of_cards, CardState::Hand, CardState::Deck, random_generator_state);
        assert(total_in_state(self.cards@, CardState::Discard) == total_in_state(old(self).cards@, CardState::Discard));
        assert(total_in_state(self.cards@, CardState::Deleted) == total_in_state(old(self).cards@, CardState::Deleted));
        r
    }
}

/// How one moved copy changes the count of state `s`.
pub open spec fn o_n_rel(before: CardStateCounts, after: CardStateCounts, o: CardState, n: CardState, k: u32, s: CardState) -> bool {
    &&& o != n && s == o ==> count_of(after, s) + 1 == count_of(before, s)
    &&& o != n && s == n ==> count_of(after, s) == count_of(before, s) + 1
    &&& (s != o && s != n) || o == n ==> count_of(after, s) == count_of(before, s)
}

} // verus!
