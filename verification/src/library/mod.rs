//! The Library: canonical collection of all player-owned cards, the card
//! effect templates and the encounter cards. Index in the list = card ID.
pub mod combat;
pub mod concrete;
pub mod config;
pub mod config_loader;
pub mod costs;
pub mod disciplines;
pub mod encounter;
pub mod metrics;
pub mod game_state;
pub mod queries;
pub mod registry;
pub mod rolls;
pub mod token_map;
pub mod types;
pub mod validate;

use disciplines::woodcutting::WoodcuttingPatternRule;
use rand_pcg::Lcg64Xsh32;
use rolls::roll_range;
use types::{
    CardCounts, CardEffectKind, CardEffectKindView, CardKind, CardLocation, ConcreteEffect, Discipline, LibraryCard, TokenAmount, TokenType,
};
use vstd::prelude::*;

verus! {

/// Why a library operation was refused.
#[derive(Clone, Copy, Debug, PartialEq, Eq, Structural)]
pub enum LibraryError {
    /// No card has this id.
    CardNotFound { card_id: usize },
    /// The source location holds fewer copies than needed.
    NotEnoughCopies { card_id: usize, location: CardLocation, have: u32, need: u32 },
}

/// Copies of a card at a location.
pub open spec fn loc_count(c: CardCounts, l: CardLocation) -> u32 {
    match l {
        CardLocation::Library => c.library,
        CardLocation::Deck => c.deck,
        CardLocation::Hand => c.hand,
        CardLocation::Discard => c.discard,
    }
}

/// The counts with the copies at `l` replaced by `v`.
pub open spec fn set_loc(c: CardCounts, l: CardLocation, v: u32) -> CardCounts {
    match l {
        CardLocation::Library => CardCounts { library: v, ..c },
        CardLocation::Deck => CardCounts { deck: v, ..c },
        CardLocation::Hand => CardCounts { hand: v, ..c },
        CardLocation::Discard => CardCounts { discard: v, ..c },
    }
}

/// A card with other copy counts.
pub open spec fn with_card_counts(c: LibraryCard, counts: CardCounts) -> LibraryCard {
    LibraryCard { kind: c.kind, counts, crafting_cost: c.crafting_cost, discipline_tags: c.discipline_tags }
}

/// The counts after moving `n` copies from `from` to `to`.
pub open spec fn moved(c: CardCounts, from: CardLocation, to: CardLocation, n: u32) -> CardCounts {
    let a = set_loc(c, from, (loc_count(c, from) - n) as u32);
    set_loc(a, to, (loc_count(a, to) + n) as u32)
}

/// The cards after moving `n` copies of card `id` from `from` to `to`, or why not.
pub open spec fn spec_move(
    cards: Seq<LibraryCard>,
    id: usize,
    from: CardLocation,
    to: CardLocation,
    n: u32,
) -> Result<Seq<LibraryCard>, LibraryError> {
    if id >= cards.len() {
        Err(LibraryError::CardNotFound { card_id: id })
    } else if loc_count(cards[id as int].counts, from) < n {
        Err(LibraryError::NotEnoughCopies {
            card_id: id,
            location: from,
            have: loc_count(cards[id as int].counts, from),
            need: n,
        })
    } else {
        Ok(cards.update(id as int, with_card_counts(cards[id as int], moved(cards[id as int].counts, from, to, n))))
    }
}

/// The move of `n` copies of card `id` into `to` does not overflow.
pub open spec fn move_fits(cards: Seq<LibraryCard>, id: usize, to: CardLocation, n: u32) -> bool {
    id < cards.len() ==> loc_count(cards[id as int].counts, to) + n <= u32::MAX
}

/// Moving copies between locations keeps the number of copies of every card
/// (each copy exists in exactly one location) and leaves all other cards as they were.
pub proof fn law_moves_conserve_copies(cards: Seq<LibraryCard>, id: usize, from: CardLocation, to: CardLocation, n: u32)
    requires
        move_fits(cards, id, to, n),
        from != to,
    ensures
        spec_move(cards, id, from, to, n) matches Ok(after) ==> {
            &&& after.len() == cards.len()
            &&& after[id as int].counts.spec_total() == cards[id as int].counts.spec_total()
            &&& loc_count(after[id as int].counts, from) + n == loc_count(cards[id as int].counts, from)
            &&& loc_count(after[id as int].counts, to) == loc_count(cards[id as int].counts, to) + n
            &&& forall|j: int| 0 <= j < cards.len() && j != id ==> after[j] == cards[j]
        },
        spec_move(cards, id, from, to, n) is Err ==> id >= cards.len() || loc_count(cards[id as int].counts, from) < n,
{
}

/// A step forward then back leaves the card as it was: drawing then returning a played card goes full circle.
pub proof fn law_move_round_trip(cards: Seq<LibraryCard>, id: usize, from: CardLocation, to: CardLocation, n: u32)
    requires
        move_fits(cards, id, to, n),
        from != to,
        spec_move(cards, id, from, to, n) is Ok,
    ensures
        spec_move(spec_move(cards, id, from, to, n)->Ok_0, id, to, from, n) == Ok::<Seq<LibraryCard>, LibraryError>(cards),
{
    let after = spec_move(cards, id, from, to, n)->Ok_0;
    let c = cards[id as int].counts;
    assert(moved(moved(c, from, to, n), to, from, n) == c);
    assert(after.update(id as int, with_card_counts(after[id as int], c)) =~= cards);
}

/// Ids `0..n` satisfying `p`, in increasing order.
pub open spec fn ids_where(n: nat, p: spec_fn(int) -> bool) -> Seq<usize>
    decreases n,
{
    if n == 0 {
        Seq::empty()
    } else if p(n - 1) {
        ids_where((n - 1) as nat, p).push((n - 1) as usize)
    } else {
        ids_where((n - 1) as nat, p)
    }
}

/// Pairs of ids and cards whose ids are `ids`.
pub open spec fn pairs_for<'a>(r: Seq<(usize, &'a LibraryCard)>, cards: Seq<LibraryCard>, ids: Seq<usize>) -> bool {
    &&& r.len() == ids.len()
    &&& forall|k: int| 0 <= k < r.len() ==> #[trigger] r[k].0 == ids[k] && ids[k] < cards.len() && *r[k].1 == cards[ids[k] as int]
}

pub proof fn lemma_ids_where_bound(n: nat, p: spec_fn(int) -> bool)
    requires
        n <= usize::MAX,
    ensures
        forall|k: int| 0 <= k < ids_where(n, p).len() ==> #[trigger] ids_where(n, p)[k] < n && p(ids_where(n, p)[k] as int),
    decreases n,
{
    if n > 0 {
        lemma_ids_where_bound((n - 1) as nat, p);
        let prev = ids_where((n - 1) as nat, p);
        assert forall|k: int| 0 <= k < ids_where(n, p).len() implies #[trigger] ids_where(n, p)[k] < n && p(ids_where(n, p)[k] as int) by {
            if k < prev.len() {
                assert(ids_where(n, p)[k] == prev[k]);
                assert(prev[k] < n - 1 && p(prev[k] as int));
            } else {
                assert(p(n - 1));
                assert(ids_where(n, p)[k] == (n - 1) as usize);
            }
        }
    }
}

pub open spec fn is_encounter(c: LibraryCard) -> bool {
    c.kind is Encounter
}

/// Encounter copies in hand, over a prefix of the cards.
pub open spec fn encounter_hand_total(cards: Seq<LibraryCard>) -> int
    decreases cards.len(),
{
    if cards.len() == 0 {
        0
    } else {
        encounter_hand_total(cards.drop_last()) + (if is_encounter(cards.last()) { cards.last().counts.hand as int } else { 0 })
    }
}

/// Encounter copies in the deck.
pub open spec fn encounter_deck_total(cards: Seq<LibraryCard>) -> int
    decreases cards.len(),
{
    if cards.len() == 0 {
        0
    } else {
        encounter_deck_total(cards.drop_last()) + (if is_encounter(cards.last()) { cards.last().counts.deck as int } else { 0 })
    }
}

/// The id list of encounter cards in hand, each repeated per copy.
pub open spec fn encounter_hand_ids(cards: Seq<LibraryCard>) -> Seq<usize>
    decreases cards.len(),
{
    if cards.len() == 0 {
        Seq::empty()
    } else {
        let last = cards.last();
        encounter_hand_ids(cards.drop_last()) + (if is_encounter(last) {
            Seq::new(last.counts.hand as nat, |_k: int| (cards.len() - 1) as usize)
        } else {
            Seq::empty()
        })
    }
}

/// The cards after moving up to `remaining` encounter copies from deck to hand, card by card in id order.
pub open spec fn draw_encounters(cards: Seq<LibraryCard>, remaining: nat) -> Seq<LibraryCard>
    decreases cards.len(),
{
    if cards.len() == 0 {
        cards
    } else {
        let front = draw_encounters(cards.drop_last(), remaining);
        let used = encounter_deck_total(cards.drop_last());
        let left: int = if used >= remaining { 0 } else { remaining - used };
        let c = cards.last();
        if is_encounter(c) && left > 0 && c.counts.deck > 0 {
            let k: int = if (c.counts.deck as int) < left { c.counts.deck as int } else { left };
            front.push(with_card_counts(c, CardCounts { deck: (c.counts.deck - k) as u32, hand: (c.counts.hand + k) as u32, ..c.counts }))
        } else {
            front.push(c)
        }
    }
}

/// A copy of a card's material costs.
fn copy_costs(v: &Vec<(TokenType, i64)>) -> (r: Vec<(TokenType, i64)>)
    ensures
        r@ == v@,
{
    let mut r = Vec::new();
    let mut i: usize = 0;
    while i < v.len()
        invariant
            i <= v.len(),
            r@ == v@.subrange(0, i as int),
        decreases v.len() - i,
    {
        r.push(v[i]);
        i += 1;
    }
    assert(v@.subrange(0, v@.len() as int) =~= v@);
    r
}

/// The Library: canonical collection of all player-owned cards.
/// Index in the Vec = card ID.
#[derive(Debug)]
pub struct Library {
    pub cards: Vec<LibraryCard>,
    /// The rules that score the chops of a woodcutting encounter, in order.
    pub woodcutting_patterns: Vec<WoodcuttingPatternRule>,
}

impl Library {
    pub fn new() -> (r: Self)
        ensures
            r.cards@ == Seq::<LibraryCard>::empty(),
            r.woodcutting_patterns@ == Seq::<WoodcuttingPatternRule>::empty(),
    {
        Library { cards: Vec::new(), woodcutting_patterns: Vec::new() }
    }

    /// Get a card by ID (index).
    pub fn get(&self, card_id: usize) -> (r: Option<&LibraryCard>)
        ensures
            card_id < self.cards@.len() ==> r == Some(&self.cards@[card_id as int]),
            card_id >= self.cards@.len() ==> r is None,
    {
        if card_id < self.cards.len() {
            Some(&self.cards[card_id])
        } else {
            None
        }
    }

    /// Move `n` copies of card `card_id` from `from` to `to`.
    fn move_copies(&mut self, card_id: usize, from: CardLocation, to: CardLocation, n: u32) -> (r: Result<(), LibraryError>)
        requires
            move_fits(old(self).cards@, card_id, to, n),
            from != to,
        ensures
            match spec_move(old(self).cards@, card_id, from, to, n) {
                Ok(after) => r is Ok && final(self).cards@ == after,
                Err(e) => r == Err::<(), LibraryError>(e) && final(self).cards@ == old(self).cards@,
            },
            final(self).woodcutting_patterns == old(self).woodcutting_patterns,
    {
        if card_id >= self.cards.len() {
            return Err(LibraryError::CardNotFound { card_id });
        }
        let c = self.cards[card_id].counts;
        let have = match from {
            CardLocation::Library => c.library,
            CardLocation::Deck => c.deck,
            CardLocation::Hand => c.hand,
            CardLocation::Discard => c.discard,
        };
        if have < n {
            return Err(LibraryError::NotEnoughCopies { card_id, location: from, have, need: n });
        }
        let mut a = c;
        match from {
            CardLocation::Library => a.library = have - n,
            CardLocation::Deck => a.deck = have - n,
            CardLocation::Hand => a.hand = have - n,
            CardLocation::Discard => a.discard = have - n,
        }
        match to {
            CardLocation::Library => a.library = a.library + n,
            CardLocation::Deck => a.deck = a.deck + n,
            CardLocation::Hand => a.hand = a.hand + n,
            CardLocation::Discard => a.discard = a.discard + n,
        }
        assert(a == moved(c, from, to, n));
        self.cards[card_id].counts = a;
        Ok(())
    }

    /// Increment the library copy count of an existing card by the given amount.
    pub fn increment_library_count(&mut self, card_id: usize, count: u32) -> (r: Result<(), LibraryError>)
        requires
            move_fits(old(self).cards@, card_id, CardLocation::Library, count),
        ensures
            card_id >= old(self).cards@.len() ==> r == Err::<(), LibraryError>(LibraryError::CardNotFound { card_id })
                && final(self).cards@ == old(self).cards@,
            card_id < old(self).cards@.len() ==> r is Ok && final(self).cards@ == old(self).cards@.update(
                card_id as int,
                with_card_counts(
                    old(self).cards@[card_id as int],
                    CardCounts { library: (old(self).cards@[card_id as int].counts.library + count) as u32, ..old(self).cards@[card_id as int].counts },
                ),
            ),
            final(self).woodcutting_patterns == old(self).woodcutting_patterns,
    {
        if card_id >= self.cards.len() {
            return Err(LibraryError::CardNotFound { card_id });
        }
        let v = self.cards[card_id].counts.library + count;
        self.cards[card_id].counts.library = v;
        Ok(())
    }

    /// Draw a card: move one copy from deck → hand.
    pub fn draw(&mut self, card_id: usize) -> (r: Result<(), LibraryError>)
        requires
            move_fits(old(self).cards@, card_id, CardLocation::Hand, 1),
        ensures
            match spec_move(old(self).cards@, card_id, CardLocation::Deck, CardLocation::Hand, 1) {
                Ok(after) => r is Ok && final(self).cards@ == after,
                Err(e) => r == Err::<(), LibraryError>(e) && final(self).cards@ == old(self).cards@,
            },
            final(self).woodcutting_patterns == old(self).woodcutting_patterns,
    {
        self.move_copies(card_id, CardLocation::Deck, CardLocation::Hand, 1)
    }

    /// Play/discard a card: move one copy from hand → discard.
    pub fn play(&mut self, card_id: usize) -> (r: Result<(), LibraryError>)
        requires
            move_fits(old(self).cards@, card_id, CardLocation::Discard, 1),
        ensures
            match spec_move(old(self).cards@, card_id, CardLocation::Hand, CardLocation::Discard, 1) {
                Ok(after) => r is Ok && final(self).cards@ == after,
                Err(e) => r == Err::<(), LibraryError>(e) && final(self).cards@ == old(self).cards@,
            },
            final(self).woodcutting_patterns == old(self).woodcutting_patterns,
    {
        self.move_copies(card_id, CardLocation::Hand, CardLocation::Discard, 1)
    }

    /// Return a card from discard → library.
    pub fn return_to_library(&mut self, card_id: usize) -> (r: Result<(), LibraryError>)
        requires
            move_fits(old(self).cards@, card_id, CardLocation::Library, 1),
        ensures
            match spec_move(old(self).cards@, card_id, CardLocation::Discard, CardLocation::Library, 1) {
                Ok(after) => r is Ok && final(self).cards@ == after,
                Err(e) => r == Err::<(), LibraryError>(e) && final(self).cards@ == old(self).cards@,
            },
            final(self).woodcutting_patterns == old(self).woodcutting_patterns,
    {
        self.move_copies(card_id, CardLocation::Discard, CardLocation::Library, 1)
    }

    /// Move copies from library → deck (adding cards to your deck).
    pub fn add_to_deck(&mut self, card_id: usize, count: u32) -> (r: Result<(), LibraryError>)
        requires
            move_fits(old(self).cards@, card_id, CardLocation::Deck, count),
        ensures
            match spec_move(old(self).cards@, card_id, CardLocation::Library, CardLocation::Deck, count) {
                Ok(after) => r is Ok && final(self).cards@ == after,
                Err(e) => r == Err::<(), LibraryError>(e) && final(self).cards@ == old(self).cards@,
            },
            final(self).woodcutting_patterns == old(self).woodcutting_patterns,
    {
        self.move_copies(card_id, CardLocation::Library, CardLocation::Deck, count)
    }

    /// Return a card from discard → deck (recycle).
    pub fn return_to_deck(&mut self, card_id: usize) -> (r: Result<(), LibraryError>)
        requires
            move_fits(old(self).cards@, card_id, CardLocation::Deck, 1),
        ensures
            match spec_move(old(self).cards@, card_id, CardLocation::Discard, CardLocation::Deck, 1) {
                Ok(after) => r is Ok && final(self).cards@ == after,
                Err(e) => r == Err::<(), LibraryError>(e) && final(self).cards@ == old(self).cards@,
            },
            final(self).woodcutting_patterns == old(self).woodcutting_patterns,
    {
        self.move_copies(card_id, CardLocation::Discard, CardLocation::Deck, 1)
    }

    /// The effect template of card `effect_id`, when it is one.
    pub open spec fn spec_effect_kind(self, effect_id: usize) -> Option<CardEffectKind> {
        if effect_id < self.cards@.len() {
            match self.cards@[effect_id as int].kind {
                CardKind::PlayerCardEffect { kind } => Some(kind),
                CardKind::EnemyCardEffect { kind } => Some(kind),
                _ => None,
            }
        } else {
            None
        }
    }

    /// The effect template of card `effect_id`, by reference.
    pub fn effect_kind(&self, effect_id: usize) -> (r: Option<&CardEffectKind>)
        ensures
            match self.spec_effect_kind(effect_id) {
                Some(k) => r == Some(&k),
                None => r is None,
            },
    {
        if effect_id >= self.cards.len() {
            return None;
        }
        match &self.cards[effect_id].kind {
            CardKind::PlayerCardEffect { kind } => Some(kind),
            CardKind::EnemyCardEffect { kind } => Some(kind),
            _ => None,
        }
    }

    /// Resolve a card effect entry by ID, returning its kind.
    /// Only works for PlayerCardEffect and EnemyCardEffect entries.
    pub fn resolve_effect(&self, effect_id: usize) -> (r: Option<CardEffectKind>)
        ensures
            match self.spec_effect_kind(effect_id) {
                Some(k) => r matches Some(x) && x@ == k@,
                None => r is None,
            },
    {
        match self.effect_kind(effect_id) {
            Some(k) => Some(k.duplicate()),
            None => None,
        }
    }

    /// Player effect templates tagged with `discipline`.
    pub fn card_effects_for_discipline(&self, discipline: &Discipline) -> (r: Vec<(usize, &LibraryCard)>)
        ensures
            pairs_for(
                r@,
                self.cards@,
                ids_where(
                    self.cards@.len(),
                    |i: int| self.cards@[i].kind is PlayerCardEffect && self.cards@[i].discipline_tags@.contains(*discipline),
                ),
            ),
    {
        let ghost p = |i: int| self.cards@[i].kind is PlayerCardEffect && self.cards@[i].discipline_tags@.contains(*discipline);
        let mut r: Vec<(usize, &LibraryCard)> = Vec::new();
        let mut i: usize = 0;
        while i < self.cards.len()
            invariant
                i <= self.cards@.len(),
                p == (|i: int| self.cards@[i].kind is PlayerCardEffect && self.cards@[i].discipline_tags@.contains(*discipline)),
                pairs_for(r@, self.cards@, ids_where(i as nat, p)),
            decreases self.cards@.len() - i,
        {
            let c = &self.cards[i];
            let is_effect = matches!(c.kind, CardKind::PlayerCardEffect { .. });
            if is_effect && contains_discipline(&c.discipline_tags, discipline) {
                r.push((i, c));
            }
            proof {
                lemma_ids_where_bound(i as nat, p);
            }
            i += 1;
        }
        r
    }

    /// All cards currently on hand.
    pub fn hand_cards(&self) -> (r: Vec<(usize, &LibraryCard)>)
        ensures
            pairs_for(r@, self.cards@, ids_where(self.cards@.len(), |i: int| self.cards@[i].counts.hand > 0)),
    {
        let ghost p = |i: int| self.cards@[i].counts.hand > 0;
        let mut r: Vec<(usize, &LibraryCard)> = Vec::new();
        let mut i: usize = 0;
        while i < self.cards.len()
            invariant
                i <= self.cards@.len(),
                p == (|i: int| self.cards@[i].counts.hand > 0),
                pairs_for(r@, self.cards@, ids_where(i as nat, p)),
            decreases self.cards@.len() - i,
        {
            let c = &self.cards[i];
            if c.counts.hand > 0 {
                r.push((i, c));
            }
            proof {
                lemma_ids_where_bound(i as nat, p);
            }
            i += 1;
        }
        r
    }

    /// All cards whose kind satisfies `predicate`, in id order.
    pub fn cards_matching<F>(&self, predicate: F) -> (r: Vec<(usize, &LibraryCard)>)
        where
            F: Fn(&CardKind) -> bool,
        requires
            forall|k: &CardKind| call_requires(predicate, (k,)),
        ensures
            forall|k: int| 0 <= k < r@.len() ==> #[trigger] r@[k].0 < self.cards@.len()
                && *r@[k].1 == self.cards@[r@[k].0 as int]
                && call_ensures(predicate, (&self.cards@[r@[k].0 as int].kind,), true),
            forall|a: int, b: int| 0 <= a < b < r@.len() ==> #[trigger] r@[a].0 < #[trigger] r@[b].0,
            forall|i: int| 0 <= i < self.cards@.len() && !(exists|k: int| 0 <= k < r@.len() && #[trigger] r@[k].0 == i)
                ==> call_ensures(predicate, (&#[trigger] self.cards@[i].kind,), false),
    {
        let mut r: Vec<(usize, &LibraryCard)> = Vec::new();
        let mut i: usize = 0;
        while i < self.cards.len()
            invariant
                i <= self.cards@.len(),
                forall|k: &CardKind| call_requires(predicate, (k,)),
                forall|k: int| 0 <= k < r@.len() ==> #[trigger] r@[k].0 < i
                    && *r@[k].1 == self.cards@[r@[k].0 as int]
                    && call_ensures(predicate, (&self.cards@[r@[k].0 as int].kind,), true),
                forall|a: int, b: int| 0 <= a < b < r@.len() ==> #[trigger] r@[a].0 < #[trigger] r@[b].0,
                forall|j: int| 0 <= j < i && !(exists|k: int| 0 <= k < r@.len() && #[trigger] r@[k].0 == j)
                    ==> call_ensures(predicate, (&#[trigger] self.cards@[j].kind,), false),
            decreases self.cards@.len() - i,
        {
            let c = &self.cards[i];
            let keep = predicate(&c.kind);
            let ghost r0 = r@;
            if keep {
                r.push((i, c));
            }
            proof {
                assert forall|j: int| 0 <= j < i + 1 && !(exists|k: int| 0 <= k < r@.len() && #[trigger] r@[k].0 == j)
                    implies call_ensures(predicate, (&#[trigger] self.cards@[j].kind,), false) by {
                    if j < i {
                        if exists|k: int| 0 <= k < r0.len() && #[trigger] r0[k].0 == j {
                            let k = choose|k: int| 0 <= k < r0.len() && #[trigger] r0[k].0 == j;
                            assert(r@[k] == r0[k]);
                        }
                    } else if keep {
                        assert(r@[r0.len() as int].0 == j);
                    }
                }
            }
            i += 1;
        }
        r
    }

    /// Encounter cards currently in the hand (visible/pickable), one id per copy.
    pub fn encounter_hand(&self) -> (r: Vec<usize>)
        ensures
            r@ == encounter_hand_ids(self.cards@),
    {
        let mut r: Vec<usize> = Vec::new();
        let mut i: usize = 0;
        while i < self.cards.len()
            invariant
                i <= self.cards@.len(),
                r@ == encounter_hand_ids(self.cards@.subrange(0, i as int)),
            decreases self.cards@.len() - i,
        {
            let c = &self.cards[i];
            let ghost r0 = r@;
            proof {
                let p = self.cards@.subrange(0, i + 1);
                assert(p.drop_last() =~= self.cards@.subrange(0, i as int));
            }
            if matches!(c.kind, CardKind::Encounter { .. }) {
                let mut k: u32 = 0;
                while k < c.counts.hand
                    invariant
                        k <= c.counts.hand,
                        r@ == r0 + Seq::new(k as nat, |_j: int| i),
                    decreases c.counts.hand - k,
                {
                    r.push(i);
                    k += 1;
                    assert(r@ =~= r0 + Seq::new(k as nat, |_j: int| i));
                }
            } else {
                assert(r@ =~= r0 + Seq::<usize>::empty());
            }
            i += 1;
        }
        assert(self.cards@.subrange(0, self.cards@.len() as int) =~= self.cards@);
        r
    }

    /// Check if an encounter card is in the hand.
    pub fn encounter_contains(&self, card_id: usize) -> (r: bool)
        ensures
            r == (card_id < self.cards@.len() && is_encounter(self.cards@[card_id as int])
                && self.cards@[card_id as int].counts.hand > 0),
    {
        if card_id >= self.cards.len() {
            return false;
        }
        let c = &self.cards[card_id];
        matches!(c.kind, CardKind::Encounter { .. }) && c.counts.hand > 0
    }

    /// Draw encounter cards from deck to hand until hand reaches target_count.
    pub fn encounter_draw_to_hand(&mut self, target_count: usize)
        requires
            encounter_hand_total(old(self).cards@) <= usize::MAX,
            forall|i: int| 0 <= i < old(self).cards@.len() ==> (#[trigger] old(self).cards@[i]).counts.hand
                + old(self).cards@[i].counts.deck <= u32::MAX,
        ensures
            final(self).cards@ == draw_encounters(
                old(self).cards@,
                if encounter_hand_total(old(self).cards@) >= target_count { 0 } else {
                    (target_count - encounter_hand_total(old(self).cards@)) as nat
                },
            ),
            final(self).woodcutting_patterns == old(self).woodcutting_patterns,
    {
        let current_hand = self.encounter_hand_count();
        let mut remaining: usize = if target_count > current_hand { target_count - current_hand } else { 0 };
        let ghost orig = self.cards@;
        let ghost rem0: nat = remaining as nat;
        let ghost pats = self.woodcutting_patterns;
        let mut i: usize = 0;
        while i < self.cards.len()
            invariant
                self.woodcutting_patterns == pats,
                i <= self.cards@.len(),
                self.cards@.len() == orig.len(),
                forall|j: int| 0 <= j < orig.len() ==> (#[trigger] orig[j]).counts.hand + orig[j].counts.deck <= u32::MAX,
                self.cards@.subrange(0, i as int) == draw_encounters(orig.subrange(0, i as int), rem0),
                forall|j: int| i <= j < orig.len() ==> #[trigger] self.cards@[j] == orig[j],
                remaining as int == (if encounter_deck_total(orig.subrange(0, i as int)) >= rem0 { 0 } else {
                    rem0 - encounter_deck_total(orig.subrange(0, i as int))
                }),
            ensures
                self.woodcutting_patterns == pats,
                self.cards@.len() == orig.len(),
                self.cards@.subrange(0, i as int) == draw_encounters(orig.subrange(0, i as int), rem0),
                forall|j: int| i <= j < orig.len() ==> #[trigger] self.cards@[j] == orig[j],
                i == orig.len() || encounter_deck_total(orig.subrange(0, i as int)) >= rem0,
                0 <= i <= orig.len(),
            decreases self.cards@.len() - i,
        {
            let ghost before = self.cards@;
            proof {
                let p = orig.subrange(0, i + 1);
                assert(p.drop_last() =~= orig.subrange(0, i as int));
                assert(before[i as int] == orig[i as int]);
            }
            if remaining == 0 {
                break;
            }
            let is_enc = matches!(self.cards[i].kind, CardKind::Encounter { .. });
            let deck = self.cards[i].counts.deck;
            if is_enc && deck > 0 {
                let to_move: u32 = if (deck as usize) < remaining { deck } else { remaining as u32 };
                let h = self.cards[i].counts.hand;
                self.cards[i].counts.deck = deck - to_move;
                self.cards[i].counts.hand = h + to_move;
                remaining = remaining - to_move as usize;
            }
            proof {
                assert(self.cards@.subrange(0, i + 1) =~= self.cards@.subrange(0, i as int).push(self.cards@[i as int]));
                assert(self.cards@.subrange(0, i as int) =~= before.subrange(0, i as int));
            }
            i += 1;
        }
        proof {
            lemma_draw_encounters_rest(orig, i as int, rem0);
            assert(orig.subrange(0, orig.len() as int) =~= orig);
            assert(self.cards@ =~= self.cards@.subrange(0, i as int) + orig.subrange(i as int, orig.len() as int));
        }
    }

    /// Encounter copies in hand.
    fn encounter_hand_count(&self) -> (r: usize)
        requires
            encounter_hand_total(self.cards@) <= usize::MAX,
        ensures
            r == encounter_hand_total(self.cards@),
    {
        let mut s: usize = 0;
        let mut i: usize = 0;
        while i < self.cards.len()
            invariant
                i <= self.cards@.len(),
                encounter_hand_total(self.cards@) <= usize::MAX,
                s == encounter_hand_total(self.cards@.subrange(0, i as int)),
            decreases self.cards@.len() - i,
        {
            proof {
                let p = self.cards@.subrange(0, i + 1);
                assert(p.drop_last() =~= self.cards@.subrange(0, i as int));
                lemma_encounter_hand_prefix(self.cards@, i + 1);
            }
            if matches!(self.cards[i].kind, CardKind::Encounter { .. }) {
                s = s + self.cards[i].counts.hand as usize;
            }
            i += 1;
        }
        proof {
            assert(self.cards@.subrange(0, self.cards@.len() as int) =~= self.cards@);
        }
        s
    }
}

pub proof fn lemma_encounter_hand_prefix(cards: Seq<LibraryCard>, i: int)
    requires
        0 <= i <= cards.len(),
    ensures
        0 <= encounter_hand_total(cards.subrange(0, i)) <= encounter_hand_total(cards),
    decreases cards.len() - i,
{
    if i < cards.len() {
        lemma_encounter_hand_prefix(cards, i + 1);
        let p = cards.subrange(0, i + 1);
        assert(p.drop_last() =~= cards.subrange(0, i));
    } else {
        assert(cards.subrange(0, i) =~= cards);
        lemma_encounter_hand_nonneg(cards);
    }
    lemma_encounter_hand_nonneg(cards.subrange(0, i));
}

pub proof fn lemma_encounter_hand_nonneg(cards: Seq<LibraryCard>)
    ensures
        encounter_hand_total(cards) >= 0,
        encounter_deck_total(cards) >= 0,
    decreases cards.len(),
{
    if cards.len() > 0 {
        lemma_encounter_hand_nonneg(cards.drop_last());
    }
}

/// Once the budget is used up, the remaining cards are left as they are.
pub proof fn lemma_draw_encounters_rest(cards: Seq<LibraryCard>, i: int, rem: nat)
    requires
        0 <= i <= cards.len(),
        encounter_deck_total(cards.subrange(0, i)) >= rem || i == cards.len(),
    ensures
        draw_encounters(cards, rem) == draw_encounters(cards.subrange(0, i), rem) + cards.subrange(i, cards.len() as int),
    decreases cards.len() - i,
{
    if i == cards.len() {
        assert(cards.subrange(0, i) =~= cards);
        assert(cards.subrange(i, cards.len() as int) =~= Seq::<LibraryCard>::empty());
        assert(draw_encounters(cards, rem) + Seq::<LibraryCard>::empty() =~= draw_encounters(cards, rem));
    } else {
        let p = cards.subrange(0, i + 1);
        assert(p.drop_last() =~= cards.subrange(0, i));
        lemma_encounter_hand_nonneg(cards.subrange(0, i));
        assert(encounter_deck_total(p) >= rem) by {
            if is_encounter(p.last()) {
            }
        }
        lemma_draw_encounters_rest(cards, i + 1, rem);
        assert(draw_encounters(p, rem) == draw_encounters(cards.subrange(0, i), rem).push(cards[i]));
        assert(draw_encounters(cards.subrange(0, i), rem) + cards.subrange(i, cards.len() as int)
            =~= draw_encounters(cards.subrange(0, i), rem).push(cards[i]) + cards.subrange(i + 1, cards.len() as int));
    }
}

fn contains_discipline(tags: &Vec<Discipline>, d: &Discipline) -> (r: bool)
    ensures
        r == tags@.contains(*d),
{
    let mut i: usize = 0;
    while i < tags.len()
        invariant
            i <= tags.len(),
            forall|j: int| 0 <= j < i ==> tags@[j] != *d,
        decreases tags.len() - i,
    {
        if tags[i] == *d {
            return true;
        }
        i += 1;
    }
    false
}


/// The absolute value of an amount.
pub open spec fn abs(x: int) -> int {
    if x < 0 { -x } else { x }
}

pub open spec fn sum_abs_effects(s: Seq<ConcreteEffect>) -> int
    decreases s.len(),
{
    if s.len() == 0 { 0 } else { sum_abs_effects(s.drop_last()) + abs(s.last().rolled_value as int) }
}

/// The power of a player card (the sum of its effect values, taken absolutely)
/// and its number of effects; none for cards that are not crafted.
pub open spec fn card_power(kind: CardKind) -> Option<(int, int)> {
    match kind {
        CardKind::Attack { effects } => Some((sum_abs_effects(effects@), effects@.len() as int)),
        CardKind::Defence { effects } => Some((sum_abs_effects(effects@), effects@.len() as int)),
        CardKind::Resource { effects } => Some((sum_abs_effects(effects@), effects@.len() as int)),
        CardKind::Rest { effects, .. } => Some((sum_abs_effects(effects@), effects@.len() as int)),
        CardKind::Mining { effects } => Some((sum_abs_effects(effects@), effects@.len() as int)),
        CardKind::Herbalism { effects } => Some((sum_abs_effects(effects@), effects@.len() as int)),
        CardKind::Woodcutting { effects } => Some((sum_abs_effects(effects@), effects@.len() as int)),
        CardKind::Fishing { effects } => Some((sum_abs_effects(effects@), effects@.len() as int)),
        CardKind::Crafting { effects } => Some((sum_abs_effects(effects@), effects@.len() as int)),
        CardKind::Research { effects } => Some((sum_abs_effects(effects@), effects@.len() as int)),
        _ => None,
    }
}

/// The base crafting cost: power * (1 + number of effects) / 4, none when the power is zero.
pub open spec fn spec_base_cost(kind: CardKind) -> Option<int> {
    match card_power(kind) {
        Some((p, n)) => if p == 0 { None } else { Some(p * (1 + n) / 4) },
        None => None,
    }
}

/// No value is `i64::MIN` (whose absolute value does not exist) in the card's list.
pub open spec fn values_have_abs(kind: CardKind) -> bool {
    match kind {
        CardKind::Attack { effects } => forall|i: int| 0 <= i < effects@.len() ==> #[trigger] effects@[i].rolled_value != i64::MIN,
        CardKind::Defence { effects } => forall|i: int| 0 <= i < effects@.len() ==> #[trigger] effects@[i].rolled_value != i64::MIN,
        CardKind::Resource { effects } => forall|i: int| 0 <= i < effects@.len() ==> #[trigger] effects@[i].rolled_value != i64::MIN,
        CardKind::Rest { effects, .. } => forall|i: int| 0 <= i < effects@.len() ==> #[trigger] effects@[i].rolled_value != i64::MIN,
        CardKind::Mining { effects } => forall|i: int| 0 <= i < effects@.len() ==> #[trigger] effects@[i].rolled_value != i64::MIN,
        CardKind::Woodcutting { effects } => forall|i: int| 0 <= i < effects@.len() ==> #[trigger] effects@[i].rolled_value != i64::MIN,
        CardKind::Herbalism { effects } => forall|i: int| 0 <= i < effects@.len() ==> #[trigger] effects@[i].rolled_value != i64::MIN,
        CardKind::Fishing { effects } => forall|i: int| 0 <= i < effects@.len() ==> #[trigger] effects@[i].rolled_value != i64::MIN,
        CardKind::Crafting { effects } => forall|i: int| 0 <= i < effects@.len() ==> #[trigger] effects@[i].rolled_value != i64::MIN,
        CardKind::Research { effects } => forall|i: int| 0 <= i < effects@.len() ==> #[trigger] effects@[i].rolled_value != i64::MIN,
        _ => true,
    }
}

/// Computing the base cost stays within `i64`, and so does spreading it over materials.
pub open spec fn base_cost_fits(kind: CardKind) -> bool {
    &&& values_have_abs(kind)
    &&& match card_power(kind) {
        Some((p, n)) => p <= i64::MAX && (p != 0 ==> n < i64::MAX && p * (1 + n) <= i64::MAX && (p * (1 + n) / 4) * 75 <= i64::MAX),
        None => true,
    }
}

pub proof fn lemma_sums_nonneg_all(kind: CardKind)
    ensures
        card_power(kind) matches Some((p, n)) ==> p >= 0 && n >= 0,
{
    match kind {
        CardKind::Attack { effects } => lemma_sum_abs_effects_prefix(effects@, effects@.len() as int),
        CardKind::Defence { effects } => lemma_sum_abs_effects_prefix(effects@, effects@.len() as int),
        CardKind::Resource { effects } => lemma_sum_abs_effects_prefix(effects@, effects@.len() as int),
        CardKind::Rest { effects, .. } => lemma_sum_abs_effects_prefix(effects@, effects@.len() as int),
        CardKind::Mining { effects } => lemma_sum_abs_effects_prefix(effects@, effects@.len() as int),
        CardKind::Herbalism { effects } => lemma_sum_abs_effects_prefix(effects@, effects@.len() as int),
        CardKind::Woodcutting { effects } => lemma_sum_abs_effects_prefix(effects@, effects@.len() as int),
        CardKind::Fishing { effects } => lemma_sum_abs_effects_prefix(effects@, effects@.len() as int),
        CardKind::Crafting { effects } => lemma_sum_abs_effects_prefix(effects@, effects@.len() as int),
        CardKind::Research { effects } => lemma_sum_abs_effects_prefix(effects@, effects@.len() as int),
        _ => {},
    }
}

pub proof fn lemma_sum_abs_effects_prefix(s: Seq<ConcreteEffect>, i: int)
    requires
        0 <= i <= s.len(),
    ensures
        0 <= sum_abs_effects(s.subrange(0, i)) <= sum_abs_effects(s),
    decreases s.len() - i,
{
    if i < s.len() {
        lemma_sum_abs_effects_prefix(s, i + 1);
        assert(s.subrange(0, i + 1).drop_last() =~= s.subrange(0, i));
    } else {
        assert(s.subrange(0, i) =~= s);
        lemma_sum_abs_effects_nonneg(s);
    }
    lemma_sum_abs_effects_nonneg(s.subrange(0, i));
}

pub proof fn lemma_sum_abs_effects_nonneg(s: Seq<ConcreteEffect>)
    ensures
        sum_abs_effects(s) >= 0,
    decreases s.len(),
{
    if s.len() > 0 {
        lemma_sum_abs_effects_nonneg(s.drop_last());
    }
}

/// The absolute value of `x`.
pub fn abs_i64(x: i64) -> (r: i64)
    requires
        x != i64::MIN,
    ensures
        r == abs(x as int),
{
    if x < 0 { -x } else { x }
}

fn sum_effect_values(effects: &Vec<ConcreteEffect>) -> (r: i64)
    requires
        sum_abs_effects(effects@) <= i64::MAX,
        forall|i: int| 0 <= i < effects@.len() ==> #[trigger] effects@[i].rolled_value != i64::MIN,
    ensures
        r == sum_abs_effects(effects@),
{
    let mut t: i64 = 0;
    let mut i: usize = 0;
    while i < effects.len()
        invariant
            i <= effects@.len(),
            sum_abs_effects(effects@) <= i64::MAX,
            forall|i: int| 0 <= i < effects@.len() ==> #[trigger] effects@[i].rolled_value != i64::MIN,
            t == sum_abs_effects(effects@.subrange(0, i as int)),
        decreases effects@.len() - i,
    {
        proof {
            assert(effects@.subrange(0, i + 1).drop_last() =~= effects@.subrange(0, i as int));
            lemma_sum_abs_effects_prefix(effects@, i + 1);
        }
        t = t + abs_i64(effects[i].rolled_value);
        i += 1;
    }
    assert(effects@.subrange(0, effects@.len() as int) =~= effects@);
    t
}

/// Calculate the base cost for a card based on its effects.
/// Higher rolled values and more effects = higher cost.
fn calculate_base_cost(kind: &CardKind) -> (r: Option<i64>)
    requires
        base_cost_fits(*kind),
    ensures
        r matches Some(c) ==> spec_base_cost(*kind) == Some(c as int),
        r is None ==> spec_base_cost(*kind) is None,
{
    proof {
        lemma_sums_nonneg_all(*kind);
    }
    let (total_power, n): (i64, usize) = match kind {
        CardKind::Attack { effects } | CardKind::Defence { effects } | CardKind::Resource { effects } => {
            (sum_effect_values(effects), effects.len())
        },
        CardKind::Rest { effects, .. } => (sum_effect_values(effects), effects.len()),
        CardKind::Mining { effects } => (sum_effect_values(effects), effects.len()),
        CardKind::Herbalism { effects } => (sum_effect_values(effects), effects.len()),
        CardKind::Woodcutting { effects } => (sum_effect_values(effects), effects.len()),
        CardKind::Fishing { effects } => (sum_effect_values(effects), effects.len()),
        CardKind::Crafting { effects } => (sum_effect_values(effects), effects.len()),
        CardKind::Research { effects } => (sum_effect_values(effects), effects.len()),
        CardKind::Encounter { .. } | CardKind::PlayerCardEffect { .. } | CardKind::EnemyCardEffect { .. } => {
            return None;
        },
    };
    if total_power == 0 {
        return None;
    }
    let num_effects = n as i64;
    assert(total_power * (1 + num_effects) <= i64::MAX) by (nonlinear_arith)
        requires
            total_power * (1 + n) <= i64::MAX,
            num_effects == n,
    ;
    Some(total_power * (1 + num_effects) / 4)
}

/// The four gathering materials.
pub open spec fn is_material(t: TokenType) -> bool {
    t == TokenType::Ore || t == TokenType::Plant || t == TokenType::Lumber || t == TokenType::Fish
}

/// A crafting cost spread over 2 to 4 distinct materials, each at least 1 and
/// at most `max(base_cost * 75 / 100, 1)`.
pub open spec fn spread_cap(base_cost: int) -> int {
    if base_cost * 75 / 100 > 1 { base_cost * 75 / 100 } else { 1 }
}

pub open spec fn valid_spread(costs: Seq<(TokenType, i64)>, base_cost: int) -> bool {
    &&& 2 <= costs.len() <= 4
    &&& forall|i: int| 0 <= i < costs.len() ==> is_material(#[trigger] costs[i].0) && 1 <= costs[i].1 <= spread_cap(base_cost)
    &&& forall|i: int, j: int| 0 <= i < j < costs.len() ==> #[trigger] costs[i].0 != #[trigger] costs[j].0
}

/// Randomly distribute base_cost across a subset of material tokens.
fn distribute_crafting_cost(base_cost: i64, rng: &mut Lcg64Xsh32) -> (r: Vec<(TokenType, i64)>)
    requires
        0 <= base_cost,
        base_cost * 75 <= i64::MAX,
    ensures
        valid_spread(r@, base_cost as int),
{
    let max_per_token = (base_cost * 75) / 100;
    let num_tokens = roll_range(rng, 2, 4) as usize;
    // Fisher-Yates shuffle
    let mut shuffled: Vec<TokenType> = vec![TokenType::Ore, TokenType::Plant, TokenType::Lumber, TokenType::Fish];
    let mut i: usize = 3;
    while i >= 1
        invariant
            shuffled@.len() == 4,
            i <= 3,
            forall|a: int| 0 <= a < 4 ==> is_material(#[trigger] shuffled@[a]),
            forall|a: int, b: int| 0 <= a < b < 4 ==> #[trigger] shuffled@[a] != #[trigger] shuffled@[b],
        decreases i,
    {
        let j = roll_range(rng, 0, i as i64) as usize;
        let x = shuffled[i];
        let y = shuffled[j];
        shuffled.set(i, y);
        shuffled.set(j, x);
        if i == 1 {
            break;
        }
        i -= 1;
    }
    let mut remaining: i64 = base_cost;
    let mut costs: Vec<(TokenType, i64)> = Vec::new();
    let cap = if max_per_token > 1 { max_per_token } else { 1 };
    let mut k: usize = 0;
    while k < num_tokens
        invariant
            2 <= num_tokens <= 4,
            shuffled@.len() == 4,
            k <= num_tokens,
            costs@.len() == k,
            max_per_token == base_cost * 75 / 100,
            cap == (if base_cost * 75 / 100 > 1 { base_cost * 75 / 100 } else { 1 }),
            -(k as int) <= remaining <= base_cost,
            forall|a: int| 0 <= a < 4 ==> is_material(#[trigger] shuffled@[a]),
            forall|a: int, b: int| 0 <= a < b < 4 ==> #[trigger] shuffled@[a] != #[trigger] shuffled@[b],
            forall|a: int| 0 <= a < k ==> #[trigger] costs@[a].0 == shuffled@[a] && 1 <= costs@[a].1 <= cap,
        decreases num_tokens - k,
    {
        let mat = shuffled[k];
        let ghost c0 = costs@;
        if k == num_tokens - 1 {
            let m = if remaining < max_per_token { remaining } else { max_per_token };
            let amount = if m > 1 { m } else { 1 };
            costs.push((mat, amount));
        } else {
            let min_for_rest = (num_tokens - k - 1) as i64;
            let avail0 = remaining - min_for_rest;
            let available = if avail0 < max_per_token { avail0 } else { max_per_token };
            let top = if available > 1 { available } else { 1 };
            let amount = roll_range(rng, 1, top);
            costs.push((mat, amount));
            remaining = remaining - amount;
        }
        proof {
            assert forall|a: int| 0 <= a < k + 1 implies #[trigger] costs@[a].0 == shuffled@[a] && 1 <= costs@[a].1 <= cap by {
                if a < k {
                    assert(costs@[a] == c0[a]);
                }
            }
        }
        k += 1;
    }
    proof {
        assert forall|a: int, b: int| 0 <= a < b < costs@.len() implies #[trigger] costs@[a].0 != #[trigger] costs@[b].0 by {
            assert(costs@[a].0 == shuffled@[a]);
            assert(costs@[b].0 == shuffled@[b]);
        }
        assert(cap == spread_cap(base_cost as int));
        assert forall|a: int| 0 <= a < costs@.len() implies is_material(#[trigger] costs@[a].0) && 1 <= costs@[a].1 <= spread_cap(base_cost as int) by {
            assert(costs@[a].0 == shuffled@[a]);
        }
    }
    costs
}

/// The crafting cost of a card, or nothing for cards that are not crafted.
fn calculate_crafting_cost(kind: &CardKind, rng: &mut Lcg64Xsh32) -> (r: Vec<(TokenType, i64)>)
    requires
        base_cost_fits(*kind),
    ensures
        match spec_base_cost(*kind) {
            Some(b) => valid_spread(r@, b),
            None => r@ == Seq::<(TokenType, i64)>::empty(),
        },
{
    match calculate_base_cost(kind) {
        Some(base_cost) => {
            proof {
                lemma_sums_nonneg_all(*kind);
                let (p, n) = card_power(*kind)->Some_0;
                assert(p * (1 + n) >= 0) by (nonlinear_arith)
                    requires
                        p >= 0,
                        n >= 0,
                ;
            }
            distribute_crafting_cost(base_cost, rng)
        },
        None => Vec::new(),
    }
}

/// A gain effect template whose cost is paid in the token it grants.
pub open spec fn gain_pays_itself(kind: CardKind) -> bool {
    match kind {
        CardKind::PlayerCardEffect { kind } => template_pays_itself(kind),
        CardKind::EnemyCardEffect { kind } => template_pays_itself(kind),
        _ => false,
    }
}

/// A gain template that lists the granted token type among its costs.
pub open spec fn template_pays_itself(k: CardEffectKind) -> bool {
    match k@ {
        CardEffectKindView::GainTokens { token_type, costs, .. } => exists|i: int|
            0 <= i < costs.len() && #[trigger] costs[i].token_type == token_type,
        _ => false,
    }
}

impl Library {
    /// Add a card to the library. Returns the card ID (index).
    /// A GainTokens effect whose cost is paid in its own gained token type is refused by precondition.
    pub fn add_card(
        &mut self,
        kind: CardKind,
        counts: CardCounts,
        rng: &mut Lcg64Xsh32,
        discipline_tags: Vec<Discipline>,
    ) -> (r: usize)
        requires
            !gain_pays_itself(kind),
            base_cost_fits(kind),
        ensures
            r == old(self).cards@.len(),
            final(self).cards@.len() == old(self).cards@.len() + 1,
            final(self).cards@.subrange(0, r as int) == old(self).cards@,
            final(self).cards@[r as int].kind == kind,
            final(self).cards@[r as int].counts == counts,
            final(self).cards@[r as int].discipline_tags == discipline_tags,
            match spec_base_cost(kind) {
                Some(b) => valid_spread(final(self).cards@[r as int].crafting_cost@, b),
                None => final(self).cards@[r as int].crafting_cost@ == Seq::<(TokenType, i64)>::empty(),
            },
            final(self).woodcutting_patterns == old(self).woodcutting_patterns,
    {
        let id = self.cards.len();
        let crafting_cost = calculate_crafting_cost(&kind, rng);
        self.cards.push(LibraryCard { kind, counts, crafting_cost, discipline_tags });
        assert(self.cards@.subrange(0, id as int) =~= old(self).cards@);
        id
    }
}

} // verus!
