//! Rolling values from ranges and drawing cards at random.
use super::types::{DeckCounts, HasDeckCounts};
use crate::rng::next_u64;
use rand_pcg::Lcg64Xsh32;
use vstd::prelude::*;

verus! {

/// The bounds of a range given in either order.
pub open spec fn lo_of(a: int, b: int) -> int {
    if a <= b { a } else { b }
}

pub open spec fn hi_of(a: int, b: int) -> int {
    if a <= b { b } else { a }
}

/// A value between `min` and `max` (given in either order).
pub fn roll_range(rng: &mut Lcg64Xsh32, min: i64, max: i64) -> (r: i64)
    requires
        hi_of(min as int, max as int) - lo_of(min as int, max as int) < i64::MAX,
    ensures
        lo_of(min as int, max as int) <= r <= hi_of(min as int, max as int),
        min == max ==> r == min,
{
    if min == max {
        return min;
    }
    let (lo, hi) = if min < max { (min, max) } else { (max, min) };
    let range = (hi - lo + 1) as u64;
    let x = next_u64(rng);
    let off = x % range;
    assert(off < range);
    lo + off as i64
}

/// A value between `min` and `max` (given in either order).
pub fn roll_range_u32(rng: &mut Lcg64Xsh32, min: u32, max: u32) -> (r: u32)
    requires
        hi_of(min as int, max as int) - lo_of(min as int, max as int) < u32::MAX,
    ensures
        lo_of(min as int, max as int) <= r <= hi_of(min as int, max as int),
        min == max ==> r == min,
{
    if min == max {
        return min;
    }
    let (lo, hi) = if min < max { (min, max) } else { (max, min) };
    let range = (hi - lo + 1) as u64;
    let x = next_u64(rng);
    let off = x % range;
    lo + off as u32
}

/// Sum of the deck counts of the cards.
pub open spec fn sum_deck<T: HasDeckCounts>(s: Seq<T>) -> int
    decreases s.len(),
{
    if s.len() == 0 { 0 } else { sum_deck(s.drop_last()) + s.last().spec_counts().deck }
}

/// Sum of the hand counts of the cards.
pub open spec fn sum_hand<T: HasDeckCounts>(s: Seq<T>) -> int
    decreases s.len(),
{
    if s.len() == 0 { 0 } else { sum_hand(s.drop_last()) + s.last().spec_counts().hand }
}

/// Sum of the discard counts of the cards.
pub open spec fn sum_discard<T: HasDeckCounts>(s: Seq<T>) -> int
    decreases s.len(),
{
    if s.len() == 0 { 0 } else { sum_discard(s.drop_last()) + s.last().spec_counts().discard }
}

/// All copies of one card, wherever they are.
pub open spec fn copies(c: DeckCounts) -> int {
    c.deck + c.hand + c.discard
}

/// Two decks hold the same cards apart from their counts, and each card keeps its number of copies.
pub open spec fn same_cards<T: HasDeckCounts>(a: Seq<T>, b: Seq<T>) -> bool {
    &&& a.len() == b.len()
    &&& forall|i: int| 0 <= i < a.len() ==> #[trigger] a[i] == b[i].with_counts(a[i].spec_counts())
    &&& forall|i: int| 0 <= i < a.len() ==> copies(#[trigger] a[i].spec_counts()) == copies(b[i].spec_counts())
}

/// Drawing stays within `u32`: the deck and discard totals fit, and every hand can take one more copy.
pub open spec fn draw_fits<T: HasDeckCounts>(s: Seq<T>) -> bool {
    &&& sum_deck(s) + sum_discard(s) <= u32::MAX
    &&& forall|i: int| 0 <= i < s.len() ==> (#[trigger] s[i].spec_counts()).hand < u32::MAX
}

/// Playing stays within `u32`: the hand and discard totals fit, and every discard pile can take one more copy.
pub open spec fn play_fits<T: HasDeckCounts>(s: Seq<T>) -> bool {
    &&& sum_hand(s) + sum_discard(s) <= u32::MAX
    &&& forall|i: int| 0 <= i < s.len() ==> (#[trigger] s[i].spec_counts()).discard < u32::MAX
}

pub proof fn lemma_elem_le_sums<T: HasDeckCounts>(s: Seq<T>, i: int)
    requires
        0 <= i < s.len(),
    ensures
        s[i].spec_counts().deck <= sum_deck(s),
        s[i].spec_counts().hand <= sum_hand(s),
        s[i].spec_counts().discard <= sum_discard(s),
    decreases s.len(),
{
    lemma_sums_nonneg(s.drop_last());
    if i < s.len() - 1 {
        lemma_elem_le_sums(s.drop_last(), i);
        assert(s.drop_last()[i] == s[i]);
    }
}

pub proof fn lemma_sums_update<T: HasDeckCounts>(s: Seq<T>, i: int, c: DeckCounts)
    requires
        0 <= i < s.len(),
    ensures
        sum_deck(s.update(i, s[i].with_counts(c))) == sum_deck(s) - s[i].spec_counts().deck + c.deck,
        sum_hand(s.update(i, s[i].with_counts(c))) == sum_hand(s) - s[i].spec_counts().hand + c.hand,
        sum_discard(s.update(i, s[i].with_counts(c))) == sum_discard(s) - s[i].spec_counts().discard + c.discard,
    decreases s.len(),
{
    s[i].lemma_with_counts(c, c);
    let u = s.update(i, s[i].with_counts(c));
    if i == s.len() - 1 {
        assert(u.drop_last() =~= s.drop_last());
    } else {
        assert(u.drop_last() =~= s.drop_last().update(i, s[i].with_counts(c)));
        assert(s.drop_last()[i] == s[i]);
        lemma_sums_update(s.drop_last(), i, c);
    }
}

pub proof fn lemma_sums_nonneg<T: HasDeckCounts>(s: Seq<T>)
    ensures
        sum_deck(s) >= 0,
        sum_hand(s) >= 0,
        sum_discard(s) >= 0,
    decreases s.len(),
{
    if s.len() > 0 {
        lemma_sums_nonneg(s.drop_last());
    }
}

/// Prefix sums are at most the full sums.
pub proof fn lemma_prefix_sums<T: HasDeckCounts>(s: Seq<T>, i: int)
    requires
        0 <= i <= s.len(),
    ensures
        sum_deck(s.subrange(0, i)) <= sum_deck(s),
        sum_hand(s.subrange(0, i)) <= sum_hand(s),
        sum_discard(s.subrange(0, i)) <= sum_discard(s),
    decreases s.len() - i,
{
    if i < s.len() {
        lemma_prefix_sums(s, i + 1);
        let p = s.subrange(0, i + 1);
        assert(p.drop_last() =~= s.subrange(0, i));
    } else {
        assert(s.subrange(0, i) =~= s);
    }
}

pub proof fn lemma_same_cards_refl<T: HasDeckCounts>(s: Seq<T>)
    ensures
        same_cards(s, s),
{
    assert forall|i: int| 0 <= i < s.len() implies #[trigger] s[i] == s[i].with_counts(s[i].spec_counts()) by {
        s[i].lemma_with_counts(s[i].spec_counts(), s[i].spec_counts());
    }
}

/// Move every discard copy of every card back to its deck.
pub(crate) fn recycle_discard<T: HasDeckCounts>(cards: &mut Vec<T>)
    requires
        sum_deck(old(cards)@) + sum_discard(old(cards)@) <= u32::MAX,
    ensures
        same_cards(final(cards)@, old(cards)@),
        sum_deck(final(cards)@) == sum_deck(old(cards)@) + sum_discard(old(cards)@),
        sum_hand(final(cards)@) == sum_hand(old(cards)@),
        sum_discard(final(cards)@) == 0,
        forall|i: int| 0 <= i < final(cards)@.len() ==> (#[trigger] final(cards)@[i].spec_counts()).discard == 0
            && final(cards)@[i].spec_counts().hand == old(cards)@[i].spec_counts().hand,
{
    let ghost orig = cards@;
    proof {
        lemma_same_cards_refl(orig);
    }
    let mut i: usize = 0;
    while i < cards.len()
        invariant
            i <= cards@.len(),
            cards@.len() == orig.len(),
            sum_deck(orig) + sum_discard(orig) <= u32::MAX,
            forall|j: int| 0 <= j < orig.len() ==> #[trigger] cards@[j] == orig[j].with_counts(cards@[j].spec_counts()),
            forall|j: int| 0 <= j < orig.len() ==> copies(#[trigger] cards@[j].spec_counts()) == copies(orig[j].spec_counts()),
            forall|j: int| 0 <= j < i ==> (#[trigger] cards@[j].spec_counts()).discard == 0
                && cards@[j].spec_counts().hand == orig[j].spec_counts().hand,
            forall|j: int| i <= j < orig.len() ==> #[trigger] cards@[j] == orig[j],
            sum_deck(cards@) == sum_deck(orig) + sum_discard(orig.subrange(0, i as int)),
            sum_hand(cards@) == sum_hand(orig),
            sum_discard(cards@) == sum_discard(orig) - sum_discard(orig.subrange(0, i as int)),
        decreases cards@.len() - i,
    {
        let d = cards[i].deck_count();
        let h = cards[i].hand_count();
        let x = cards[i].discard_count();
        let ghost before = cards@;
        proof {
            orig[i as int].lemma_with_counts(orig[i as int].spec_counts(), orig[i as int].spec_counts());
            lemma_elem_le_sums(orig, i as int);
            assert(cards@[i as int] == orig[i as int]);
        }
        let c = DeckCounts { deck: d + x, hand: h, discard: 0 };
        let mut card = cards.remove(i);
        card.set_counts(c);
        cards.insert(i, card);
        proof {
            assert(cards@ =~= before.update(i as int, before[i as int].with_counts(c)));
            lemma_sums_update(before, i as int, c);
            let p = orig.subrange(0, i + 1);
            assert(p.drop_last() =~= orig.subrange(0, i as int));
            orig[i as int].lemma_with_counts(c, c);
            assert forall|j: int| 0 <= j < orig.len() implies #[trigger] cards@[j] == orig[j].with_counts(cards@[j].spec_counts()) by {
                if j != i {
                    assert(cards@[j] == before[j]);
                } else {
                    orig[j].lemma_with_counts(c, c);
                }
            }
        }
        i += 1;
    }
    proof {
        assert(orig.subrange(0, orig.len() as int) =~= orig);
    }
}

/// Draw one random copy from the deck to the hand, first shuffling the
/// discard pile back into the deck when the deck is empty.
pub fn deck_draw_random<T: HasDeckCounts>(rng: &mut Lcg64Xsh32, cards: &mut Vec<T>)
    requires
        draw_fits(old(cards)@),
    ensures
        same_cards(final(cards)@, old(cards)@),
        sum_deck(old(cards)@) > 0 ==> sum_deck(final(cards)@) == sum_deck(old(cards)@) - 1
            && sum_hand(final(cards)@) == sum_hand(old(cards)@) + 1
            && sum_discard(final(cards)@) == sum_discard(old(cards)@),
        sum_deck(old(cards)@) == 0 && sum_discard(old(cards)@) > 0 ==> sum_deck(final(cards)@) == sum_discard(old(cards)@) - 1
            && sum_hand(final(cards)@) == sum_hand(old(cards)@) + 1
            && sum_discard(final(cards)@) == 0,
        sum_deck(old(cards)@) == 0 && sum_discard(old(cards)@) == 0 ==> final(cards)@ == old(cards)@,
{
    let ghost orig = cards@;
    proof {
        lemma_same_cards_refl(orig);
        lemma_sums_nonneg(orig);
    }
    let total_deck = sum_deck_exec(cards);
    if total_deck == 0 {
        let total_discard = sum_discard_exec(cards);
        if total_discard == 0 {
            return;
        }
        recycle_discard(cards);
    }
    let ghost mid = cards@;
    assert(sum_deck(mid) <= u32::MAX);
    assert(forall|j: int| 0 <= j < mid.len() ==> (#[trigger] mid[j].spec_counts()).hand == orig[j].spec_counts().hand);
    let total_deck = sum_deck_exec(cards);
    if total_deck == 0 {
        return;
    }
    let mut pick = (next_u64(rng) % (total_deck as u64)) as u32;
    let mut i: usize = 0;
    while i < cards.len()
        invariant
            cards@ == mid,
            orig == old(cards)@,
            same_cards(mid, orig),
            sum_deck(orig) > 0 ==> mid == orig,
            sum_deck(orig) == 0 ==> sum_deck(mid) == sum_discard(orig) && sum_hand(mid) == sum_hand(orig) && sum_discard(mid) == 0,
            forall|j: int| 0 <= j < mid.len() ==> (#[trigger] mid[j].spec_counts()).hand < u32::MAX,
            i <= cards@.len(),
            pick as int + sum_deck(mid.subrange(0, i as int)) < total_deck,
            total_deck == sum_deck(mid),
            total_deck > 0,
        decreases cards@.len() - i,
    {
        let d = cards[i].deck_count();
        proof {
            let p = mid.subrange(0, i + 1);
            assert(p.drop_last() =~= mid.subrange(0, i as int));
        }
        if pick < d {
            let h = cards[i].hand_count();
            let x = cards[i].discard_count();
            let c = DeckCounts { deck: d - 1, hand: h + 1, discard: x };
            let ghost before = cards@;
            let mut card = cards.remove(i);
            card.set_counts(c);
            cards.insert(i, card);
            proof {
                assert(cards@ =~= before.update(i as int, before[i as int].with_counts(c)));
                lemma_sums_update(before, i as int, c);
                assert(cards@.len() == orig.len());
                assert(sum_deck(cards@) == sum_deck(mid) - 1);
                assert(sum_hand(cards@) == sum_hand(mid) + 1);
                assert(sum_discard(cards@) == sum_discard(mid));
                assert(sum_deck(orig) > 0 ==> sum_deck(cards@) == sum_deck(orig) - 1 && sum_hand(cards@) == sum_hand(orig) + 1 && sum_discard(cards@) == sum_discard(orig));
                assert(sum_deck(orig) == 0 ==> sum_discard(orig) > 0);
                assert(sum_deck(orig) == 0 ==> sum_deck(cards@) == sum_discard(orig) - 1 && sum_hand(cards@) == sum_hand(orig) + 1 && sum_discard(cards@) == 0);
                assert forall|j: int| 0 <= j < orig.len() implies #[trigger] cards@[j] == orig[j].with_counts(cards@[j].spec_counts()) by {
                    assert(before[j] == orig[j].with_counts(before[j].spec_counts()));
                    if j == i {
                        orig[j].lemma_with_counts(before[j].spec_counts(), c);
                        before[j].lemma_with_counts(c, c);
                    } else {
                        assert(cards@[j] == before[j]);
                    }
                }
                assert forall|j: int| 0 <= j < orig.len() implies copies(#[trigger] cards@[j].spec_counts()) == copies(orig[j].spec_counts()) by {
                    assert(copies(before[j].spec_counts()) == copies(orig[j].spec_counts()));
                    if j != i {
                        assert(cards@[j] == before[j]);
                    } else {
                        before[j].lemma_with_counts(c, c);
                    }
                }
            }
            return;
        }
        pick = pick - d;
        i += 1;
    }
    proof {
        assert(mid.subrange(0, mid.len() as int) =~= mid);
    }
}

pub(crate) fn sum_discard_exec<T: HasDeckCounts>(cards: &Vec<T>) -> (r: u32)
    requires
        sum_discard(cards@) <= u32::MAX,
    ensures
        r == sum_discard(cards@),
{
    let mut s: u32 = 0;
    let mut i: usize = 0;
    while i < cards.len()
        invariant
            i <= cards@.len(),
            sum_discard(cards@) <= u32::MAX,
            s == sum_discard(cards@.subrange(0, i as int)),
        decreases cards@.len() - i,
    {
        proof {
            let p = cards@.subrange(0, i + 1);
            assert(p.drop_last() =~= cards@.subrange(0, i as int));
            lemma_prefix_sums(cards@, i + 1);
        }
        s = s + cards[i].discard_count();
        i += 1;
    }
    proof {
        assert(cards@.subrange(0, cards@.len() as int) =~= cards@);
    }
    s
}

pub(crate) fn sum_hand_exec<T: HasDeckCounts>(cards: &Vec<T>) -> (r: u32)
    requires
        sum_hand(cards@) <= u32::MAX,
    ensures
        r == sum_hand(cards@),
{
    let mut s: u32 = 0;
    let mut i: usize = 0;
    while i < cards.len()
        invariant
            i <= cards@.len(),
            sum_hand(cards@) <= u32::MAX,
            s == sum_hand(cards@.subrange(0, i as int)),
        decreases cards@.len() - i,
    {
        proof {
            let p = cards@.subrange(0, i + 1);
            assert(p.drop_last() =~= cards@.subrange(0, i as int));
            lemma_prefix_sums(cards@, i + 1);
        }
        s = s + cards[i].hand_count();
        i += 1;
    }
    proof {
        assert(cards@.subrange(0, cards@.len() as int) =~= cards@);
    }
    s
}

pub(crate) fn sum_deck_exec<T: HasDeckCounts>(cards: &Vec<T>) -> (r: u32)
    requires
        sum_deck(cards@) <= u32::MAX,
    ensures
        r == sum_deck(cards@),
{
    let mut s: u32 = 0;
    let mut i: usize = 0;
    while i < cards.len()
        invariant
            i <= cards@.len(),
            sum_deck(cards@) <= u32::MAX,
            s == sum_deck(cards@.subrange(0, i as int)),
        decreases cards@.len() - i,
    {
        proof {
            let p = cards@.subrange(0, i + 1);
            assert(p.drop_last() =~= cards@.subrange(0, i as int));
            lemma_prefix_sums(cards@, i + 1);
        }
        s = s + cards[i].deck_count();
        i += 1;
    }
    proof {
        assert(cards@.subrange(0, cards@.len() as int) =~= cards@);
    }
    s
}

} // verus!

verus! {

/// All copies together stay below `u32::MAX`.
pub open spec fn total_fits<T: HasDeckCounts>(s: Seq<T>) -> bool {
    sum_deck(s) + sum_hand(s) + sum_discard(s) < u32::MAX
}

pub proof fn lemma_total_fits_draw<T: HasDeckCounts>(s: Seq<T>)
    requires
        total_fits(s),
    ensures
        draw_fits(s),
        play_fits(s),
{
    lemma_sums_nonneg(s);
    assert forall|i: int| 0 <= i < s.len() implies (#[trigger] s[i].spec_counts()).hand < u32::MAX
        && s[i].spec_counts().discard < u32::MAX by {
        lemma_elem_le_sums(s, i);
    }
}

pub proof fn lemma_same_cards_trans<T: HasDeckCounts>(a: Seq<T>, b: Seq<T>, c: Seq<T>)
    requires
        same_cards(a, b),
        same_cards(b, c),
    ensures
        same_cards(a, c),
{
    assert forall|i: int| 0 <= i < a.len() implies #[trigger] a[i] == c[i].with_counts(a[i].spec_counts()) by {
        assert(a[i] == b[i].with_counts(a[i].spec_counts()));
        assert(b[i] == c[i].with_counts(b[i].spec_counts()));
        c[i].lemma_with_counts(b[i].spec_counts(), a[i].spec_counts());
    }
    assert forall|i: int| 0 <= i < a.len() implies copies(#[trigger] a[i].spec_counts()) == copies(c[i].spec_counts()) by {
        assert(copies(b[i].spec_counts()) == copies(c[i].spec_counts()));
    }
}

/// Put every hand copy back into its deck, then draw the same number of copies at random.
pub fn deck_shuffle_hand<T: HasDeckCounts>(rng: &mut Lcg64Xsh32, cards: &mut Vec<T>)
    requires
        total_fits(old(cards)@),
    ensures
        same_cards(final(cards)@, old(cards)@),
        sum_deck(final(cards)@) == sum_deck(old(cards)@),
        sum_hand(final(cards)@) == sum_hand(old(cards)@),
        sum_discard(final(cards)@) == sum_discard(old(cards)@),
{
    let ghost orig = cards@;
    proof {
        lemma_same_cards_refl(orig);
        lemma_sums_nonneg(orig);
    }
    let target_hand = sum_hand_exec(cards);
    let mut i: usize = 0;
    while i < cards.len()
        invariant
            i <= cards@.len(),
            orig == old(cards)@,
            total_fits(orig),
            same_cards(cards@, orig),
            forall|j: int| i <= j < orig.len() ==> #[trigger] cards@[j] == orig[j],
            sum_deck(cards@) == sum_deck(orig) + sum_hand(orig.subrange(0, i as int)),
            sum_hand(cards@) == sum_hand(orig) - sum_hand(orig.subrange(0, i as int)),
            sum_discard(cards@) == sum_discard(orig),
        decreases cards@.len() - i,
    {
        let d = cards[i].deck_count();
        let h = cards[i].hand_count();
        let x = cards[i].discard_count();
        let ghost before = cards@;
        proof {
            lemma_elem_le_sums(orig, i as int);
            lemma_sums_nonneg(orig);
        }
        let c = DeckCounts { deck: d + h, hand: 0, discard: x };
        let mut card = cards.remove(i);
        card.set_counts(c);
        cards.insert(i, card);
        proof {
            assert(cards@ =~= before.update(i as int, before[i as int].with_counts(c)));
            lemma_sums_update(before, i as int, c);
            let p = orig.subrange(0, i + 1);
            assert(p.drop_last() =~= orig.subrange(0, i as int));
            assert(cards@.len() == orig.len());
            assert forall|j: int| 0 <= j < orig.len() implies #[trigger] cards@[j] == orig[j].with_counts(cards@[j].spec_counts()) by {
                if j == i {
                    orig[j].lemma_with_counts(c, c);
                } else {
                    assert(cards@[j] == before[j]);
                }
            }
            assert forall|j: int| 0 <= j < orig.len() implies copies(#[trigger] cards@[j].spec_counts()) == copies(orig[j].spec_counts()) by {
                if j != i {
                    assert(cards@[j] == before[j]);
                } else {
                    orig[j].lemma_with_counts(c, c);
                }
            }
        }
        i += 1;
    }
    proof {
        assert(orig.subrange(0, orig.len() as int) =~= orig);
    }
    let mut k: u32 = 0;
    while k < target_hand
        invariant
            k <= target_hand,
            target_hand == sum_hand(orig),
            orig == old(cards)@,
            total_fits(orig),
            same_cards(cards@, orig),
            sum_deck(cards@) == sum_deck(orig) + sum_hand(orig) - k,
            sum_hand(cards@) == k,
            sum_discard(cards@) == sum_discard(orig),
        decreases target_hand - k,
    {
        let ghost before = cards@;
        proof {
            lemma_sums_nonneg(orig);
            lemma_total_fits_draw(before);
        }
        deck_draw_random(rng, cards);
        proof {
            lemma_same_cards_trans(cards@, before, orig);
        }
        k += 1;
    }
}

/// Play one random copy from the hand to the discard pile, first taking the
/// discard pile back into the hand when the hand is empty. Returns the position of the played card.
pub fn deck_play_random<T: HasDeckCounts>(rng: &mut Lcg64Xsh32, cards: &mut Vec<T>) -> (r: Option<usize>)
    requires
        play_fits(old(cards)@),
    ensures
        same_cards(final(cards)@, old(cards)@),
        sum_hand(old(cards)@) > 0 ==> r is Some && sum_hand(final(cards)@) == sum_hand(old(cards)@) - 1
            && sum_discard(final(cards)@) == sum_discard(old(cards)@) + 1
            && sum_deck(final(cards)@) == sum_deck(old(cards)@),
        sum_hand(old(cards)@) == 0 && sum_discard(old(cards)@) > 0 ==> r is Some
            && sum_hand(final(cards)@) == sum_discard(old(cards)@) - 1
            && sum_discard(final(cards)@) == 1
            && sum_deck(final(cards)@) == sum_deck(old(cards)@),
        sum_hand(old(cards)@) == 0 && sum_discard(old(cards)@) == 0 ==> r is None && final(cards)@ == old(cards)@,
        r matches Some(i) ==> i < final(cards)@.len()
            && final(cards)@[i as int].spec_counts().discard > 0,
{
    let ghost orig = cards@;
    proof {
        lemma_same_cards_refl(orig);
        lemma_sums_nonneg(orig);
    }
    let total_hand = sum_hand_exec(cards);
    if total_hand == 0 {
        let total_discard = sum_discard_exec(cards);
        if total_discard == 0 {
            return None;
        }
        discard_to_hand(cards);
    }
    let ghost mid = cards@;
    assert(sum_hand(mid) <= u32::MAX);
    let total_hand = sum_hand_exec(cards);
    if total_hand == 0 {
        return None;
    }
    let mut pick = (next_u64(rng) % (total_hand as u64)) as u32;
    let mut i: usize = 0;
    while i < cards.len()
        invariant
            cards@ == mid,
            orig == old(cards)@,
            same_cards(mid, orig),
            play_fits(orig),
            sum_hand(orig) > 0 ==> mid == orig,
            sum_hand(orig) == 0 ==> sum_hand(mid) == sum_discard(orig) && sum_deck(mid) == sum_deck(orig) && sum_discard(mid) == 0,
            forall|j: int| 0 <= j < mid.len() ==> (#[trigger] mid[j].spec_counts()).discard < u32::MAX,
            i <= cards@.len(),
            pick as int + sum_hand(mid.subrange(0, i as int)) < total_hand,
            total_hand == sum_hand(mid),
            total_hand > 0,
        decreases cards@.len() - i,
    {
        let h = cards[i].hand_count();
        proof {
            let p = mid.subrange(0, i + 1);
            assert(p.drop_last() =~= mid.subrange(0, i as int));
        }
        if pick < h {
            let d = cards[i].deck_count();
            let x = cards[i].discard_count();
            let c = DeckCounts { deck: d, hand: h - 1, discard: x + 1 };
            let ghost before = cards@;
            let mut card = cards.remove(i);
            card.set_counts(c);
            cards.insert(i, card);
            proof {
                assert(cards@ =~= before.update(i as int, before[i as int].with_counts(c)));
                lemma_sums_update(before, i as int, c);
                before[i as int].lemma_with_counts(c, c);
                assert(cards@.len() == orig.len());
                assert forall|j: int| 0 <= j < orig.len() implies #[trigger] cards@[j] == orig[j].with_counts(cards@[j].spec_counts()) by {
                    assert(before[j] == orig[j].with_counts(before[j].spec_counts()));
                    if j == i {
                        orig[j].lemma_with_counts(before[j].spec_counts(), c);
                    } else {
                        assert(cards@[j] == before[j]);
                    }
                }
                assert forall|j: int| 0 <= j < orig.len() implies copies(#[trigger] cards@[j].spec_counts()) == copies(orig[j].spec_counts()) by {
                    assert(copies(before[j].spec_counts()) == copies(orig[j].spec_counts()));
                    if j != i {
                        assert(cards@[j] == before[j]);
                    }
                }
            }
            return Some(i);
        }
        pick = pick - h;
        i += 1;
    }
    proof {
        assert(mid.subrange(0, mid.len() as int) =~= mid);
    }
    None
}

/// Move every discard copy of every card back to its hand.
fn discard_to_hand<T: HasDeckCounts>(cards: &mut Vec<T>)
    requires
        sum_hand(old(cards)@) + sum_discard(old(cards)@) <= u32::MAX,
    ensures
        same_cards(final(cards)@, old(cards)@),
        sum_hand(final(cards)@) == sum_hand(old(cards)@) + sum_discard(old(cards)@),
        sum_deck(final(cards)@) == sum_deck(old(cards)@),
        sum_discard(final(cards)@) == 0,
        forall|i: int| 0 <= i < final(cards)@.len() ==> (#[trigger] final(cards)@[i].spec_counts()).discard == 0,
{
    let ghost orig = cards@;
    proof {
        lemma_same_cards_refl(orig);
    }
    let mut i: usize = 0;
    while i < cards.len()
        invariant
            i <= cards@.len(),
            orig == old(cards)@,
            sum_hand(orig) + sum_discard(orig) <= u32::MAX,
            same_cards(cards@, orig),
            forall|j: int| 0 <= j < i ==> (#[trigger] cards@[j].spec_counts()).discard == 0,
            forall|j: int| i <= j < orig.len() ==> #[trigger] cards@[j] == orig[j],
            sum_hand(cards@) == sum_hand(orig) + sum_discard(orig.subrange(0, i as int)),
            sum_deck(cards@) == sum_deck(orig),
            sum_discard(cards@) == sum_discard(orig) - sum_discard(orig.subrange(0, i as int)),
        decreases cards@.len() - i,
    {
        let d = cards[i].deck_count();
        let h = cards[i].hand_count();
        let x = cards[i].discard_count();
        let ghost before = cards@;
        proof {
            lemma_elem_le_sums(orig, i as int);
            lemma_sums_nonneg(orig);
        }
        let c = DeckCounts { deck: d, hand: h + x, discard: 0 };
        let mut card = cards.remove(i);
        card.set_counts(c);
        cards.insert(i, card);
        proof {
            assert(cards@ =~= before.update(i as int, before[i as int].with_counts(c)));
            lemma_sums_update(before, i as int, c);
            let p = orig.subrange(0, i + 1);
            assert(p.drop_last() =~= orig.subrange(0, i as int));
            orig[i as int].lemma_with_counts(c, c);
            assert(cards@.len() == orig.len());
            assert forall|j: int| 0 <= j < orig.len() implies #[trigger] cards@[j] == orig[j].with_counts(cards@[j].spec_counts()) by {
                if j != i {
                    assert(cards@[j] == before[j]);
                }
            }
            assert forall|j: int| 0 <= j < orig.len() implies copies(#[trigger] cards@[j].spec_counts()) == copies(orig[j].spec_counts()) by {
                if j != i {
                    assert(cards@[j] == before[j]);
                }
            }
            assert forall|j: int| 0 <= j < i + 1 implies (#[trigger] cards@[j].spec_counts()).discard == 0 by {
                if j != i {
                    assert(cards@[j] == before[j]);
                }
            }
        }
        i += 1;
    }
    proof {
        assert(orig.subrange(0, orig.len() as int) =~= orig);
    }
}

} // verus!
