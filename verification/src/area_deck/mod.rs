//! The encounter area: library card ids moving between a deck, a visible
//! hand and a discard pile.
pub mod scouting;

pub use scouting::ScoutingParams;
use vstd::multiset::Multiset;
use vstd::prelude::*;

verus! {

/// Area Deck: encounter card indices into the Library with deck/hand/discard tracking.
///
/// The hand represents encounters currently visible/pickable by the player.
/// Hand size is controlled by the Foresight token.
#[derive(Clone, Debug)]
pub struct AreaDeck {
    pub id: String,
    pub deck: Vec<usize>,
    pub hand: Vec<usize>,
    pub discard: Vec<usize>,
}

/// The first position of `x` in `s`, if any.
pub open spec fn first_index(s: Seq<usize>, x: usize) -> Option<int> {
    if s.contains(x) {
        Some(choose|i: int| 0 <= i < s.len() && s[i] == x && forall|j: int| 0 <= j < i ==> s[j] != x)
    } else {
        None
    }
}

/// The cards obtained after moving the last `k` cards of `deck`, last first, onto `hand`.
pub open spec fn drawn_onto(deck: Seq<usize>, hand: Seq<usize>, k: nat) -> Seq<usize>
    decreases k,
{
    if k == 0 || deck.len() == 0 {
        hand
    } else {
        drawn_onto(deck.drop_last(), hand.push(deck.last()), (k - 1) as nat)
    }
}

/// Searching `s` for `x` from the front.
fn position_of(s: &Vec<usize>, x: usize) -> (r: Option<usize>)
    ensures
        r is None <==> !s@.contains(x),
        r matches Some(i) ==> i < s@.len() && s@[i as int] == x && forall|j: int| 0 <= j < i ==> s@[j] != x,
{
    let mut i: usize = 0;
    while i < s.len()
        invariant
            i <= s.len(),
            forall|j: int| 0 <= j < i ==> s@[j] != x,
        decreases s.len() - i,
    {
        if s[i] == x {
            return Some(i);
        }
        i += 1;
    }
    None
}

/// The first position holding `x` is unique.
proof fn lemma_first_index_unique(s: Seq<usize>, x: usize, i: int)
    requires
        0 <= i < s.len(),
        s[i] == x,
        forall|j: int| 0 <= j < i ==> s[j] != x,
    ensures
        first_index(s, x) == Some(i),
{
    assert(s.contains(x));
    let k = choose|k: int| 0 <= k < s.len() && s[k] == x && forall|j: int| 0 <= j < k ==> s[j] != x;
    assert(k == i) by {
        if k < i {
            assert(s[k] != x);
        } else if k > i {
            assert(s[i] != x);
        }
    }
}

impl AreaDeck {
    pub fn new(id: String) -> (r: Self)
        ensures
            r.id@ == id@,
            r.deck@ == Seq::<usize>::empty(),
            r.hand@ == Seq::<usize>::empty(),
            r.discard@ == Seq::<usize>::empty(),
    {
        AreaDeck { id, deck: Vec::new(), hand: Vec::new(), discard: Vec::new() }
    }

    /// Add an encounter to the deck (not yet visible).
    pub fn add_encounter(&mut self, library_card_id: usize)
        ensures
            final(self).deck@ == old(self).deck@.push(library_card_id),
            final(self).hand@ == old(self).hand@,
            final(self).discard@ == old(self).discard@,
            final(self).id@ == old(self).id@,
    {
        self.deck.push(library_card_id);
    }

    /// Draw encounters from deck to hand until hand reaches `target_count`.
    pub fn draw_to_hand(&mut self, target_count: usize)
        ensures
            ({
                let k: nat = if old(self).hand@.len() < target_count { (target_count - old(self).hand@.len()) as nat } else { 0 };
                let moved: nat = if k < old(self).deck@.len() { k } else { old(self).deck@.len() };
                &&& final(self).hand@ == drawn_onto(old(self).deck@, old(self).hand@, k)
                &&& final(self).deck@ == old(self).deck@.subrange(0, old(self).deck@.len() - moved)
            }),
            final(self).discard@ == old(self).discard@,
            final(self).id@ == old(self).id@,
    {
        let ghost d0 = self.deck@;
        let ghost h0 = self.hand@;
        let ghost k: nat = if h0.len() < target_count { (target_count - h0.len()) as nat } else { 0 };
        let ghost mut done: nat = 0;
        while self.hand.len() < target_count
            invariant
                done <= k,
                done <= d0.len(),
                self.deck@ == d0.subrange(0, d0.len() - done),
                h0.len() + done == self.hand@.len(),
                drawn_onto(d0, h0, k) == drawn_onto(self.deck@, self.hand@, (k - done) as nat),
                k == (if h0.len() < target_count { (target_count - h0.len()) as nat } else { 0nat }),
                self.discard@ == old(self).discard@,
                self.id@ == old(self).id@,
            ensures
                ({
                    let moved: nat = if k < d0.len() { k } else { d0.len() };
                    &&& self.hand@ == drawn_onto(d0, h0, k)
                    &&& self.deck@ == d0.subrange(0, d0.len() - moved)
                }),
                self.discard@ == old(self).discard@,
                self.id@ == old(self).id@,
            decreases target_count - self.hand@.len(),
        {
            match self.deck.pop() {
                Some(card_id) => {
                    proof {
                        assert(self.deck@ == d0.subrange(0, d0.len() - done - 1));
                    }
                    self.hand.push(card_id);
                    proof {
                        done = done + 1;
                    }
                },
                None => {
                    break;
                },
            }
        }
        proof {
            if self.deck@.len() == 0 {
                assert(drawn_onto(self.deck@, self.hand@, (k - done) as nat) == self.hand@);
            }
        }
    }

    /// Pick an encounter from hand, moving it to discard. Returns true if found.
    pub fn pick_encounter(&mut self, library_card_id: usize) -> (r: bool)
        ensures
            r == old(self).hand@.contains(library_card_id),
            match first_index(old(self).hand@, library_card_id) {
                Some(i) => final(self).hand@ == old(self).hand@.remove(i)
                    && final(self).discard@ == old(self).discard@.push(library_card_id),
                None => final(self).hand@ == old(self).hand@ && final(self).discard@ == old(self).discard@,
            },
            final(self).deck@ == old(self).deck@,
            final(self).id@ == old(self).id@,
    {
        match position_of(&self.hand, library_card_id) {
            Some(pos) => {
                proof {
                    lemma_first_index_unique(self.hand@, library_card_id, pos as int);
                }
                let card_id = self.hand.remove(pos);
                self.discard.push(card_id);
                true
            },
            None => false,
        }
    }

    /// Recycle a finished encounter: move from discard back to deck.
    pub fn recycle_encounter(&mut self, library_card_id: usize) -> (r: bool)
        ensures
            r == old(self).discard@.contains(library_card_id),
            match first_index(old(self).discard@, library_card_id) {
                Some(i) => final(self).discard@ == old(self).discard@.remove(i)
                    && final(self).deck@ == old(self).deck@.push(library_card_id),
                None => final(self).discard@ == old(self).discard@ && final(self).deck@ == old(self).deck@,
            },
            final(self).hand@ == old(self).hand@,
            final(self).id@ == old(self).id@,
    {
        match position_of(&self.discard, library_card_id) {
            Some(pos) => {
                proof {
                    lemma_first_index_unique(self.discard@, library_card_id, pos as int);
                }
                let card_id = self.discard.remove(pos);
                self.deck.push(card_id);
                true
            },
            None => false,
        }
    }

    /// Check if an encounter is in the hand (available to pick).
    pub fn contains(&self, library_card_id: usize) -> (r: bool)
        ensures
            r == self.hand@.contains(library_card_id),
    {
        position_of(&self.hand, library_card_id).is_some()
    }

    /// All encounter card IDs across deck, hand, and discard.
    pub fn encounter_card_ids(&self) -> (r: Vec<usize>)
        ensures
            r@ == self.deck@ + self.hand@ + self.discard@,
    {
        let mut all = self.deck.clone();
        let mut i: usize = 0;
        while i < self.hand.len()
            invariant
                i <= self.hand.len(),
                all@ == self.deck@ + self.hand@.subrange(0, i as int),
            decreases self.hand.len() - i,
        {
            all.push(self.hand[i]);
            i += 1;
        }
        assert(self.hand@.subrange(0, self.hand@.len() as int) =~= self.hand@);
        let mut j: usize = 0;
        while j < self.discard.len()
            invariant
                j <= self.discard.len(),
                all@ == self.deck@ + self.hand@ + self.discard@.subrange(0, j as int),
            decreases self.discard.len() - j,
        {
            all.push(self.discard[j]);
            j += 1;
        }
        assert(self.discard@.subrange(0, self.discard@.len() as int) =~= self.discard@);
        all
    }
}

/// All encounter ids of an area, wherever they are, counted with repetition.
pub open spec fn area_ids(a: AreaDeck) -> Multiset<usize> {
    (a.deck@ + a.hand@ + a.discard@).to_multiset()
}

proof fn lemma_first_from(s: Seq<usize>, x: usize, k: int)
    requires
        0 <= k < s.len(),
        s[k] == x,
    ensures
        exists|i: int| 0 <= i < s.len() && s[i] == x && forall|j: int| 0 <= j < i ==> s[j] != x,
    decreases k,
{
    if exists|j: int| 0 <= j < k && s[j] == x {
        let j = choose|j: int| 0 <= j < k && s[j] == x;
        lemma_first_from(s, x, j);
    } else {
        assert(0 <= k < s.len() && s[k] == x && forall|j: int| 0 <= j < k ==> s[j] != x);
    }
}

proof fn lemma_first_index_at(s: Seq<usize>, x: usize)
    requires
        s.contains(x),
    ensures
        first_index(s, x) matches Some(i) && 0 <= i < s.len() && s[i] == x,
{
    let k = choose|k: int| 0 <= k < s.len() && s[k] == x;
    lemma_first_from(s, x, k);
}

proof fn lemma_move_one_keeps_ids(front: Seq<usize>, from: Seq<usize>, to: Seq<usize>, i: int, back: Seq<usize>)
    requires
        0 <= i < from.len(),
    ensures
        (front + from.remove(i) + to.push(from[i]) + back).to_multiset() == (front + from + to + back).to_multiset(),
{
    broadcast use vstd::seq_lib::lemma_multiset_commutative, vstd::seq_lib::to_multiset_remove,
        vstd::seq_lib::to_multiset_build, vstd::multiset::group_multiset_axioms;
    assert(from.to_multiset().count(from[i]) > 0) by {
        vstd::seq_lib::to_multiset_contains(from, from[i]);
        assert(from.contains(from[i]));
    }
    assert(from.remove(i).to_multiset().insert(from[i]) =~= from.to_multiset());
    assert((front + from.remove(i) + to.push(from[i]) + back).to_multiset() =~= (front + from + to + back).to_multiset());
}

/// Picking an encounter keeps the area's encounter ids: the picked id only
/// moves from the hand to the discard.
pub proof fn law_pick_keeps_encounter_ids(a: AreaDeck, b: AreaDeck, id: usize)
    requires
        match first_index(a.hand@, id) {
            Some(i) => b.hand@ == a.hand@.remove(i) && b.discard@ == a.discard@.push(id),
            None => b.hand@ == a.hand@ && b.discard@ == a.discard@,
        },
        b.deck@ == a.deck@,
    ensures
        area_ids(b) == area_ids(a),
{
    if a.hand@.contains(id) {
        lemma_first_index_at(a.hand@, id);
        let i = first_index(a.hand@, id)->Some_0;
        lemma_move_one_keeps_ids(a.deck@, a.hand@, a.discard@, i, Seq::empty());
        assert(a.deck@ + a.hand@.remove(i) + a.discard@.push(id) + Seq::<usize>::empty() =~= b.deck@ + b.hand@ + b.discard@);
        assert(a.deck@ + a.hand@ + a.discard@ + Seq::<usize>::empty() =~= a.deck@ + a.hand@ + a.discard@);
    }
}

/// Recycling an encounter keeps the area's encounter ids: the recycled id
/// only moves from the discard to the deck.
pub proof fn law_recycle_keeps_encounter_ids(a: AreaDeck, b: AreaDeck, id: usize)
    requires
        match first_index(a.discard@, id) {
            Some(i) => b.discard@ == a.discard@.remove(i) && b.deck@ == a.deck@.push(id),
            None => b.discard@ == a.discard@ && b.deck@ == a.deck@,
        },
        b.hand@ == a.hand@,
    ensures
        area_ids(b) == area_ids(a),
{
    broadcast use vstd::seq_lib::lemma_multiset_commutative, vstd::multiset::group_multiset_axioms;
    if a.discard@.contains(id) {
        lemma_first_index_at(a.discard@, id);
        let i = first_index(a.discard@, id)->Some_0;
        lemma_move_one_keeps_ids(Seq::empty(), a.discard@, a.deck@, i, a.hand@);
        assert(Seq::<usize>::empty() + a.discard@.remove(i) + a.deck@.push(id) + a.hand@ =~= b.discard@ + b.deck@ + b.hand@);
        assert(Seq::<usize>::empty() + a.discard@ + a.deck@ + a.hand@ =~= a.discard@ + a.deck@ + a.hand@);
        assert((b.deck@ + b.hand@ + b.discard@).to_multiset() =~= (b.discard@ + b.deck@ + b.hand@).to_multiset());
        assert((a.deck@ + a.hand@ + a.discard@).to_multiset() =~= (a.discard@ + a.deck@ + a.hand@).to_multiset());
    }
}

proof fn lemma_drawn_keeps_ids(deck: Seq<usize>, hand: Seq<usize>, k: nat)
    ensures
        ({
            let moved: nat = if k < deck.len() { k } else { deck.len() };
            (deck.subrange(0, deck.len() - moved) + drawn_onto(deck, hand, k)).to_multiset() == (deck + hand).to_multiset()
        }),
    decreases k,
{
    broadcast use vstd::seq_lib::lemma_multiset_commutative, vstd::seq_lib::to_multiset_build, vstd::multiset::group_multiset_axioms;
    if k == 0 || deck.len() == 0 {
        assert(deck.subrange(0, deck.len() as int) =~= deck);
    } else {
        let d1 = deck.drop_last();
        let h1 = hand.push(deck.last());
        lemma_drawn_keeps_ids(d1, h1, (k - 1) as nat);
        let m1: nat = if ((k - 1) as nat) < d1.len() { (k - 1) as nat } else { d1.len() };
        assert(d1.subrange(0, d1.len() - m1) =~= deck.subrange(0, deck.len() - (m1 + 1)));
        assert(deck =~= d1.push(deck.last()));
        assert((d1 + h1).to_multiset() =~= (deck + hand).to_multiset());
    }
}

/// Drawing encounters to the hand keeps the area's encounter ids: they only
/// move from the deck to the hand.
pub proof fn law_draw_keeps_encounter_ids(a: AreaDeck, b: AreaDeck, target_count: usize)
    requires
        ({
            let k: nat = if a.hand@.len() < target_count { (target_count - a.hand@.len()) as nat } else { 0 };
            let moved: nat = if k < a.deck@.len() { k } else { a.deck@.len() };
            &&& b.hand@ == drawn_onto(a.deck@, a.hand@, k)
            &&& b.deck@ == a.deck@.subrange(0, a.deck@.len() - moved)
        }),
        b.discard@ == a.discard@,
    ensures
        area_ids(b) == area_ids(a),
{
    broadcast use vstd::seq_lib::lemma_multiset_commutative, vstd::multiset::group_multiset_axioms;
    let k: nat = if a.hand@.len() < target_count { (target_count - a.hand@.len()) as nat } else { 0 };
    lemma_drawn_keeps_ids(a.deck@, a.hand@, k);
    assert((b.deck@ + b.hand@ + b.discard@).to_multiset() =~= (a.deck@ + a.hand@ + a.discard@).to_multiset());
}

} // verus!
