//! Herbalism encounters: a hand of plant cards, each with characteristics,
//! faces the player. Each herbalism card removes the plants it matches (those
//! sharing a listed characteristic, those having all of them, or those with
//! the most or least common characteristics); exactly one plant left is
//! gathered and its rewards granted, none left loses the encounter, and so
//! do spent durability and a hand of unpayable cards.
use crate::library::concrete::template_of;
use crate::library::costs::{
    all_affordable, balances_fit, check_and_deduct_gathering_costs, deduct_b, deduct_fits, extract_gathering_costs_from_effects,
    gathering_costs, preview_gathering_costs, preview_result, totals_fit, Balances, CostError,
};
use crate::library::disciplines::combat::fits;
use crate::library::disciplines::fishing::{durability_after, grant_rewards, grant_rewards_exec, pay_durability};
use crate::library::game_state::{class_hand, counts_fit, draw_result, CardClass, GameState};
use crate::library::rolls::{deck_shuffle_hand, total_fits};
use crate::library::token_map::{bal, bset, get0, TokenMap};
use crate::library::types::{
    duplicate_plant_hand, filter_durability, persistent_key, same_plant_cards, split_token_amounts, CardEffectKind,
    CardEffectKindView, CardKind, ConcreteEffect, DeckCounts, EncounterKind, EncounterOutcome, EncounterPhase, EncounterState,
    HasDeckCounts, HerbalismEncounterState, HerbalismMatchMode, HerbalismMatchModeView, LibraryCard, PlantCard,
    PlantCharacteristic, Token, TokenKey, TokenType,
};
use crate::library::Library;
use crate::rng::gen_index;
use rand_pcg::Lcg64Xsh32;
use vstd::prelude::*;

verus! {

/// Why an herbalism action was refused.
#[derive(Clone, Copy, Debug, PartialEq, Eq, Structural)]
pub enum HerbalismError {
    /// The library has no card with this id.
    CardNotFound { card_id: usize },
    /// The card is not an herbalism encounter.
    NotAnHerbalismEncounter { card_id: usize },
    /// Only herbalism cards can be played in an herbalism encounter.
    NotAnHerbalismCard { card_id: usize },
    /// No herbalism encounter is active (or it is already decided).
    NoActiveHerbalism,
    /// The player cannot pay the card's costs.
    Cost(CostError),
    /// Concluding needs a reward above zero; abort the encounter instead.
    NoRewards,
}

/// The herbalism encounter in progress, if any.
pub open spec fn herbalism_of(enc: Option<EncounterState>) -> Option<HerbalismEncounterState> {
    match enc {
        Some(EncounterState::Herbalism(h)) => Some(h),
        _ => None,
    }
}

/// The effects of an herbalism card, if it is one.
pub open spec fn herbalism_effects(k: CardKind) -> Option<Seq<ConcreteEffect>> {
    match k {
        CardKind::Herbalism { effects } => Some(effects@),
        _ => None,
    }
}

/// The player's herbalism durability counter: every durability cost paid in
/// an herbalism encounter strikes it.
pub open spec fn herbalism_durability_key() -> TokenKey {
    persistent_key(TokenType::HerbalismDurability)
}

/// The five plant characteristics.
pub open spec fn all_characteristics() -> Seq<PlantCharacteristic> {
    seq![
        PlantCharacteristic::Fragile,
        PlantCharacteristic::Thorny,
        PlantCharacteristic::Aromatic,
        PlantCharacteristic::Bitter,
        PlantCharacteristic::Luminous,
    ]
}

/// How often `c` occurs in a list of characteristics.
pub open spec fn occurrences(cs: Seq<PlantCharacteristic>, c: PlantCharacteristic) -> nat
    decreases cs.len(),
{
    if cs.len() == 0 {
        0
    } else {
        occurrences(cs.drop_last(), c) + (if cs.last() == c { 1nat } else { 0nat })
    }
}

/// How often `c` occurs among the characteristics of the plants in hand.
pub open spec fn char_count(plants: Seq<PlantCard>, c: PlantCharacteristic) -> nat
    decreases plants.len(),
{
    if plants.len() == 0 {
        0
    } else {
        char_count(plants.drop_last(), c) + (if plants.last().counts.hand > 0 {
            occurrences(plants.last().characteristics@, c)
        } else {
            0nat
        })
    }
}

/// The first `i` characteristics that are found on the plants in hand.
pub open spec fn present_upto(plants: Seq<PlantCard>, i: int) -> Seq<PlantCharacteristic>
    decreases i,
{
    if i <= 0 {
        Seq::empty()
    } else {
        present_upto(plants, i - 1) + (if char_count(plants, all_characteristics()[i - 1]) > 0 {
            seq![all_characteristics()[i - 1]]
        } else {
            Seq::empty()
        })
    }
}

/// The characteristics found on the plants in hand.
pub open spec fn present(plants: Seq<PlantCard>) -> Seq<PlantCharacteristic> {
    present_upto(plants, 5)
}

/// `targets` are `limit` of the characteristics in hand (all of them where
/// fewer are there), each once, and the most common ones (`most`) or the least
/// common ones: no characteristic left out is found more (less) often than a
/// chosen one. Ties are broken at random.
pub open spec fn targets_ok(plants: Seq<PlantCard>, targets: Seq<PlantCharacteristic>, limit: u32, most: bool) -> bool {
    let n = present(plants).len();
    &&& targets.no_duplicates()
    &&& targets.len() == (if limit <= n { limit as int } else { n as int })
    &&& forall|i: int| 0 <= i < targets.len() ==> char_count(plants, #[trigger] targets[i]) > 0
    &&& forall|i: int, d: PlantCharacteristic|
        #![trigger targets[i], char_count(plants, d)]
        0 <= i < targets.len() && char_count(plants, d) > 0 && !targets.contains(d) ==> (if most {
            char_count(plants, targets[i]) >= char_count(plants, d)
        } else {
            char_count(plants, targets[i]) <= char_count(plants, d)
        })
}

/// Whether a plant is matched by the mode (with `targets` for the most or
/// least common modes).
pub open spec fn plant_hit(plant: PlantCard, mode: HerbalismMatchModeView, targets: Seq<PlantCharacteristic>) -> bool {
    match mode {
        HerbalismMatchModeView::Or { types } => shares(plant.characteristics@, types),
        HerbalismMatchModeView::And { types } => has_every(plant.characteristics@, types),
        _ => shares(plant.characteristics@, targets),
    }
}

/// Some characteristic of `cs` is in `types`.
pub open spec fn shares(cs: Seq<PlantCharacteristic>, types: Seq<PlantCharacteristic>) -> bool {
    exists|j: int| 0 <= j < cs.len() && types.contains(#[trigger] cs[j])
}

/// Every characteristic of `types` is in `cs`.
pub open spec fn has_every(cs: Seq<PlantCharacteristic>, types: Seq<PlantCharacteristic>) -> bool {
    forall|j: int| 0 <= j < types.len() ==> cs.contains(#[trigger] types[j])
}

/// The plant hand after the matched plants in hand are removed from it.
pub open spec fn plants_after(plants: Seq<PlantCard>, mode: HerbalismMatchModeView, targets: Seq<PlantCharacteristic>) -> Seq<PlantCard> {
    Seq::new(
        plants.len(),
        |i: int| if plants[i].counts.hand > 0 && plant_hit(plants[i], mode, targets) {
            plants[i].with_counts(DeckCounts { deck: plants[i].counts.deck, hand: 0, discard: plants[i].counts.discard })
        } else {
            plants[i]
        },
    )
}

/// How many plants are left in hand.
pub open spec fn remaining(plants: Seq<PlantCard>) -> nat
    decreases plants.len(),
{
    if plants.len() == 0 {
        0
    } else {
        remaining(plants.drop_last()) + (if plants.last().counts.hand > 0 { 1nat } else { 0nat })
    }
}

/// Whether a mode removes the most or least common characteristics.
pub open spec fn by_frequency(m: HerbalismMatchModeView) -> bool {
    m is MostCommon || m is LeastCommon
}

/// The limit of a most or least common mode.
pub open spec fn mode_limit(m: HerbalismMatchModeView) -> u32 {
    match m {
        HerbalismMatchModeView::MostCommon { limit, .. } => limit,
        HerbalismMatchModeView::LeastCommon { limit, .. } => limit,
        _ => 0,
    }
}

proof fn lemma_occurrences_le(cs: Seq<PlantCharacteristic>, c: PlantCharacteristic)
    ensures
        occurrences(cs, c) <= cs.len(),
    decreases cs.len(),
{
    if cs.len() > 0 {
        lemma_occurrences_le(cs.drop_last(), c);
    }
}

proof fn lemma_occurrences_pos(cs: Seq<PlantCharacteristic>, c: PlantCharacteristic)
    ensures
        occurrences(cs, c) > 0 <==> cs.contains(c),
    decreases cs.len(),
{
    if cs.len() > 0 {
        lemma_occurrences_pos(cs.drop_last(), c);
        if cs.drop_last().contains(c) {
            let j = choose|j: int| 0 <= j < cs.drop_last().len() && cs.drop_last()[j] == c;
            assert(cs[j] == c);
        }
        if cs.contains(c) && cs.last() != c {
            let j = choose|j: int| 0 <= j < cs.len() && cs[j] == c;
            assert(cs.drop_last()[j] == c);
        }
    }
}

/// How often `c` occurs in `cs`.
fn count_in(cs: &Vec<PlantCharacteristic>, c: PlantCharacteristic) -> (r: u64)
    ensures
        r == occurrences(cs@, c),
{
    let mut n: u64 = 0;
    let mut i: usize = 0;
    while i < cs.len()
        invariant
            i <= cs@.len(),
            n == occurrences(cs@.subrange(0, i as int), c),
            n <= i,
        decreases cs@.len() - i,
    {
        proof {
            assert(cs@.subrange(0, i + 1).drop_last() =~= cs@.subrange(0, i as int));
        }
        if cs[i] == c {
            n = n + 1;
        }
        i += 1;
    }
    assert(cs@.subrange(0, cs@.len() as int) =~= cs@);
    n
}

/// How often `c` occurs among the characteristics of the plants in hand.
fn char_count_exec(plants: &Vec<PlantCard>, c: PlantCharacteristic) -> (r: u64)
    requires
        char_count(plants@, c) <= u64::MAX,
    ensures
        r == char_count(plants@, c),
{
    let mut n: u64 = 0;
    let mut i: usize = 0;
    while i < plants.len()
        invariant
            i <= plants@.len(),
            char_count(plants@, c) <= u64::MAX,
            n == char_count(plants@.subrange(0, i as int), c),
        decreases plants@.len() - i,
    {
        proof {
            assert(plants@.subrange(0, i + 1).drop_last() =~= plants@.subrange(0, i as int));
            lemma_char_count_prefix(plants@, c, i + 1);
        }
        if plants[i].counts.hand > 0 {
            let k = count_in(&plants[i].characteristics, c);
            n = n + k;
        }
        i += 1;
    }
    assert(plants@.subrange(0, plants@.len() as int) =~= plants@);
    n
}

proof fn lemma_char_count_prefix(plants: Seq<PlantCard>, c: PlantCharacteristic, i: int)
    requires
        0 <= i <= plants.len(),
    ensures
        char_count(plants.subrange(0, i), c) <= char_count(plants, c),
    decreases plants.len() - i,
{
    if i < plants.len() {
        lemma_char_count_prefix(plants, c, i + 1);
        assert(plants.subrange(0, i + 1).drop_last() =~= plants.subrange(0, i));
    } else {
        assert(plants.subrange(0, i) =~= plants);
    }
}

/// The characteristic at position `i` of `all_characteristics`.
fn characteristic_at(i: usize) -> (r: PlantCharacteristic)
    requires
        i < 5,
    ensures
        r == all_characteristics()[i as int],
{
    if i == 0 {
        PlantCharacteristic::Fragile
    } else if i == 1 {
        PlantCharacteristic::Thorny
    } else if i == 2 {
        PlantCharacteristic::Aromatic
    } else if i == 3 {
        PlantCharacteristic::Bitter
    } else {
        PlantCharacteristic::Luminous
    }
}

proof fn lemma_all_characteristics(c: PlantCharacteristic)
    ensures
        all_characteristics().contains(c),
{
    let a = all_characteristics();
    match c {
        PlantCharacteristic::Fragile => assert(a[0] == c),
        PlantCharacteristic::Thorny => assert(a[1] == c),
        PlantCharacteristic::Aromatic => assert(a[2] == c),
        PlantCharacteristic::Bitter => assert(a[3] == c),
        PlantCharacteristic::Luminous => assert(a[4] == c),
    }
}

proof fn lemma_present_upto(plants: Seq<PlantCard>, i: int)
    requires
        0 <= i <= 5,
    ensures
        present_upto(plants, i).no_duplicates(),
        forall|c: PlantCharacteristic| #[trigger] present_upto(plants, i).contains(c) <==> (char_count(plants, c) > 0
            && exists|j: int| 0 <= j < i && all_characteristics()[j] == c),
    decreases i,
{
    if i > 0 {
        lemma_present_upto(plants, i - 1);
        let a = all_characteristics();
        let prev = present_upto(plants, i - 1);
        let cur = present_upto(plants, i);
        assert forall|c: PlantCharacteristic| #[trigger] cur.contains(c) <==> (char_count(plants, c) > 0
            && exists|j: int| 0 <= j < i && a[j] == c) by {
            if cur.contains(c) {
                let k = choose|k: int| 0 <= k < cur.len() && cur[k] == c;
                if k < prev.len() {
                    assert(prev[k] == c);
                    assert(prev.contains(c));
                } else {
                    assert(c == a[i - 1]);
                }
            }
            if char_count(plants, c) > 0 && exists|j: int| 0 <= j < i && a[j] == c {
                let j = choose|j: int| 0 <= j < i && a[j] == c;
                if j < i - 1 {
                    assert(prev.contains(c));
                    let k = choose|k: int| 0 <= k < prev.len() && prev[k] == c;
                    assert(cur[k] == c);
                } else {
                    assert(cur[cur.len() - 1] == c);
                }
            }
        }
        if char_count(plants, a[i - 1]) > 0 {
            assert(!prev.contains(a[i - 1])) by {
                if prev.contains(a[i - 1]) {
                    let j = choose|j: int| 0 <= j < i - 1 && #[trigger] a[j] == a[i - 1];
                    assert(a[j] != a[i - 1]);
                }
            }
            assert forall|x: int, y: int| 0 <= x < cur.len() && 0 <= y < cur.len() && x != y implies cur[x] != cur[y] by {
                if x < prev.len() && y < prev.len() {
                    assert(cur[x] == prev[x] && cur[y] == prev[y]);
                } else if x < prev.len() {
                    assert(cur[x] == prev[x]);
                    assert(prev.contains(prev[x]));
                } else if y < prev.len() {
                    assert(cur[y] == prev[y]);
                    assert(prev.contains(prev[y]));
                }
            }
        } else {
            assert(cur =~= prev);
        }
    }
}

/// Choose the `limit` most (`most`) or least common characteristics among
/// the plants in hand (see `targets_ok`), ties broken at random.
pub fn select_targets(plants: &Vec<PlantCard>, limit: u32, most: bool, rng: &mut Lcg64Xsh32) -> (r: Vec<PlantCharacteristic>)
    requires
        forall|c: PlantCharacteristic| #[trigger] char_count(plants@, c) <= u64::MAX,
    ensures
        targets_ok(plants@, r@, limit, most),
{
    let ghost p = plants@;
    let mut cand_chars: Vec<PlantCharacteristic> = Vec::new();
    let mut cand_counts: Vec<u64> = Vec::new();
    let mut i: usize = 0;
    while i < 5
        invariant
            i <= 5,
            forall|c: PlantCharacteristic| #[trigger] char_count(p, c) <= u64::MAX,
            p == plants@,
            cand_chars@ == present_upto(p, i as int),
            cand_counts@.len() == cand_chars@.len(),
            forall|k: int| 0 <= k < cand_chars@.len() ==> #[trigger] cand_counts@[k] == char_count(p, cand_chars@[k]),
        decreases 5 - i,
    {
        let c = characteristic_at(i);
        let n = char_count_exec(plants, c);
        if n > 0 {
            cand_chars.push(c);
            cand_counts.push(n);
        }
        i += 1;
    }
    proof {
        lemma_present_upto(p, 5);
        assert forall|c: PlantCharacteristic| char_count(p, c) > 0 implies #[trigger] cand_chars@.contains(c) by {
            lemma_all_characteristics(c);
            let j = choose|j: int| 0 <= j < 5 && all_characteristics()[j] == c;
        }
    }
    let ghost n_present = cand_chars@.len();
    let mut chosen: Vec<PlantCharacteristic> = Vec::new();
    while (chosen.len() as u64) < (limit as u64) && cand_chars.len() > 0
        invariant
            p == plants@,
            n_present == present(p).len(),
            chosen@.len() <= limit,
            chosen@.len() + cand_chars@.len() == n_present,
            cand_counts@.len() == cand_chars@.len(),
            forall|k: int| 0 <= k < cand_chars@.len() ==> #[trigger] cand_counts@[k] == char_count(p, cand_chars@[k]),
            forall|c: PlantCharacteristic| char_count(p, c) > 0 <==> (#[trigger] chosen@.contains(c) || cand_chars@.contains(c)),
            forall|x: int, y: int| 0 <= x < chosen@.len() && 0 <= y < cand_chars@.len() ==> chosen@[x] != cand_chars@[y],
            chosen@.no_duplicates(),
            cand_chars@.no_duplicates(),
            forall|x: int, y: int| 0 <= x < chosen@.len() && 0 <= y < cand_chars@.len() ==> (if most {
                char_count(p, chosen@[x]) >= cand_counts@[y]
            } else {
                char_count(p, chosen@[x]) <= cand_counts@[y]
            }),
        decreases cand_chars@.len(),
    {
        let mut best = cand_counts[0];
        let mut j: usize = 1;
        while j < cand_counts.len()
            invariant
                1 <= j <= cand_counts@.len(),
                forall|t: int| 0 <= t < j ==> (if most { cand_counts@[t] <= best } else { cand_counts@[t] >= best }),
                exists|t: int| 0 <= t < j && cand_counts@[t] == best,
            decreases cand_counts@.len() - j,
        {
            if (most && cand_counts[j] > best) || (!most && cand_counts[j] < best) {
                best = cand_counts[j];
            }
            j += 1;
        }
        let mut ties: Vec<usize> = Vec::new();
        let mut t: usize = 0;
        while t < cand_counts.len()
            invariant
                t <= cand_counts@.len(),
                forall|x: int| 0 <= x < ties@.len() ==> #[trigger] ties@[x] < cand_counts@.len() && cand_counts@[ties@[x] as int] == best,
                (exists|x: int| 0 <= x < t && cand_counts@[x] == best) ==> ties@.len() > 0,
            decreases cand_counts@.len() - t,
        {
            if cand_counts[t] == best {
                ties.push(t);
            }
            t += 1;
        }
        let pick = gen_index(rng, ties.len());
        let k = ties[pick];
        let ghost cc0 = cand_chars@;
        let ghost cn0 = cand_counts@;
        let ghost ch0 = chosen@;
        let c = cand_chars.remove(k);
        let _ = cand_counts.remove(k);
        chosen.push(c);
        proof {
            assert(cand_chars@ =~= cc0.remove(k as int));
            assert(cand_counts@ =~= cn0.remove(k as int));
            assert forall|q: int| 0 <= q < cand_chars@.len() implies #[trigger] cand_counts@[q] == char_count(p, cand_chars@[q]) by {
                if q < k {
                    assert(cand_chars@[q] == cc0[q] && cand_counts@[q] == cn0[q]);
                } else {
                    assert(cand_chars@[q] == cc0[q + 1] && cand_counts@[q] == cn0[q + 1]);
                }
            }
            assert forall|d: PlantCharacteristic| char_count(p, d) > 0 <==> (#[trigger] chosen@.contains(d) || cand_chars@.contains(d)) by {
                if cc0.contains(d) {
                    let q = choose|q: int| 0 <= q < cc0.len() && cc0[q] == d;
                    if q < k {
                        assert(cand_chars@[q] == d);
                    } else if q > k {
                        assert(cand_chars@[q - 1] == d);
                    } else {
                        assert(chosen@[chosen@.len() - 1] == d);
                    }
                }
                if ch0.contains(d) {
                    let q = choose|q: int| 0 <= q < ch0.len() && ch0[q] == d;
                    assert(chosen@[q] == d);
                }
                if chosen@.contains(d) {
                    let q = choose|q: int| 0 <= q < chosen@.len() && chosen@[q] == d;
                    if q < ch0.len() {
                        assert(ch0[q] == d);
                        assert(ch0.contains(d));
                    } else {
                        assert(cc0[k as int] == d);
                        assert(cc0.contains(d));
                    }
                }
                if cand_chars@.contains(d) {
                    let q = choose|q: int| 0 <= q < cand_chars@.len() && cand_chars@[q] == d;
                    if q < k {
                        assert(cc0[q] == d);
                    } else {
                        assert(cc0[q + 1] == d);
                    }
                    assert(cc0.contains(d));
                }
            }
            assert forall|x: int, y: int| 0 <= x < chosen@.len() && 0 <= y < cand_chars@.len() implies chosen@[x] != cand_chars@[y] by {
                let yy = if y < k { y } else { y + 1 };
                assert(cand_chars@[y] == cc0[yy]);
                if x < ch0.len() {
                    assert(chosen@[x] == ch0[x]);
                } else {
                    assert(chosen@[x] == cc0[k as int]);
                    assert(yy != k);
                }
            }
            assert forall|x: int, y: int| 0 <= x < chosen@.len() && 0 <= y < chosen@.len() && x != y implies chosen@[x] != chosen@[y] by {
                if x < ch0.len() && y < ch0.len() {
                    assert(chosen@[x] == ch0[x] && chosen@[y] == ch0[y]);
                } else if x < ch0.len() {
                    assert(chosen@[x] == ch0[x] && chosen@[y] == cc0[k as int]);
                } else if y < ch0.len() {
                    assert(chosen@[y] == ch0[y] && chosen@[x] == cc0[k as int]);
                }
            }
            assert forall|x: int, y: int| 0 <= x < cand_chars@.len() && 0 <= y < cand_chars@.len() && x != y implies cand_chars@[x] != cand_chars@[y] by {
                let xx = if x < k { x } else { x + 1 };
                let yy = if y < k { y } else { y + 1 };
                assert(cand_chars@[x] == cc0[xx] && cand_chars@[y] == cc0[yy]);
            }
            assert forall|x: int, y: int| 0 <= x < chosen@.len() && 0 <= y < cand_chars@.len() implies (if most {
                char_count(p, chosen@[x]) >= cand_counts@[y]
            } else {
                char_count(p, chosen@[x]) <= cand_counts@[y]
            }) by {
                let yy = if y < k { y } else { y + 1 };
                assert(cand_counts@[y] == cn0[yy]);
                if x < ch0.len() {
                    assert(chosen@[x] == ch0[x]);
                } else {
                    assert(chosen@[x] == cc0[k as int]);
                    assert(cn0[k as int] == best);
                }
            }
        }
    }
    proof {
        assert forall|x: int, d: PlantCharacteristic|
            #![trigger chosen@[x], char_count(p, d)]
            0 <= x < chosen@.len() && char_count(p, d) > 0 && !chosen@.contains(d) implies (if most {
                char_count(p, chosen@[x]) >= char_count(p, d)
            } else {
                char_count(p, chosen@[x]) <= char_count(p, d)
            }) by {
            assert(cand_chars@.contains(d));
            let y = choose|y: int| 0 <= y < cand_chars@.len() && cand_chars@[y] == d;
            assert(cand_counts@[y] == char_count(p, d));
        }
        assert forall|x: int| 0 <= x < chosen@.len() implies char_count(p, #[trigger] chosen@[x]) > 0 by {
            assert(chosen@.contains(chosen@[x]));
        }
    }
    chosen
}

/// One herbalism effect of rolled value `v` applied to the player's tokens:
/// a gain adds to the player's counter of its type, insight to the player's
/// insight; a match changes no token.
pub open spec fn herb_gain_one(p: Balances, v: int, k: Option<CardEffectKindView>) -> Option<Balances> {
    let key = match k {
        Some(CardEffectKindView::GainTokens { token_type, .. }) => Some(persistent_key(token_type)),
        Some(CardEffectKindView::Insight { .. }) => Some(persistent_key(TokenType::Insight)),
        _ => None,
    };
    match key {
        Some(key) => {
            let x = get0(p.0, key);
            if fits(x + v) {
                Some(bset(p, key, (x + v) as i64))
            } else {
                None
            }
        },
        None => Some(p),
    }
}

/// The herbalism effects applied one after the other.
pub open spec fn herb_gains(p: Balances, effects: Seq<ConcreteEffect>, lib: Library) -> Option<Balances>
    decreases effects.len(),
{
    if effects.len() == 0 {
        Some(p)
    } else {
        match herb_gain_one(p, effects[0].rolled_value as int, template_of(lib, effects[0].effect_id)) {
            Some(p1) => herb_gains(p1, effects.drop_first(), lib),
            None => None,
        }
    }
}

/// The match mode of the card's last match effect, if it has one.
pub open spec fn last_match(effects: Seq<ConcreteEffect>, lib: Library) -> Option<HerbalismMatchModeView>
    decreases effects.len(),
{
    if effects.len() == 0 {
        None
    } else {
        match template_of(lib, effects.last().effect_id) {
            Some(CardEffectKindView::HerbalismMatch { match_mode, .. }) => Some(match_mode),
            _ => last_match(effects.drop_last(), lib),
        }
    }
}

/// An herbalism card whose pre-play costs the player cannot pay from `b`.
pub open spec fn herbalism_card_unpayable(c: LibraryCard, b: Balances) -> bool {
    match herbalism_effects(c.kind) {
        Some(effs) => {
            let pre = filter_durability(gathering_costs(effs), false);
            pre.len() > 0 && !all_affordable(pre, b)
        },
        None => false,
    }
}

/// An herbalism card with a copy in hand.
pub open spec fn is_herbalism_hand_card(c: LibraryCard) -> bool {
    c.counts.hand > 0 && herbalism_effects(c.kind) is Some
}

/// The player holds herbalism cards in hand and can pay for none of them.
pub open spec fn all_herbalism_unpayable(cards: Seq<LibraryCard>, b: Balances) -> bool {
    &&& exists|i: int| 0 <= i < cards.len() && is_herbalism_hand_card(#[trigger] cards[i])
    &&& forall|i: int| 0 <= i < cards.len() && is_herbalism_hand_card(#[trigger] cards[i]) ==> herbalism_card_unpayable(cards[i], b)
}

/// Why resolving herbalism card `id` is refused, if it is.
pub open spec fn herbalism_play_error(s: GameState, id: usize) -> Option<HerbalismError> {
    if id >= s.library.cards@.len() {
        Some(HerbalismError::CardNotFound { card_id: id })
    } else if herbalism_effects(s.library.cards@[id as int].kind) is None {
        Some(HerbalismError::NotAnHerbalismCard { card_id: id })
    } else if herbalism_of(s.current_encounter) is None {
        Some(HerbalismError::NoActiveHerbalism)
    } else {
        match preview_result(filter_durability(gathering_costs(herbalism_effects(s.library.cards@[id as int].kind)->Some_0), false), s.token_balances) {
            Err(e) => Some(HerbalismError::Cost(e)),
            Ok(_) => None,
        }
    }
}

/// The balances after paying herbalism card `id`'s pre-play costs and then
/// its durability costs, and whether the durability ran out.
pub open spec fn herbalism_paid(s: GameState, id: usize) -> Option<(Balances, bool)> {
    let costs = gathering_costs(herbalism_effects(s.library.cards@[id as int].kind)->Some_0);
    durability_after(deduct_b(bal(s.token_balances), filter_durability(costs, false)), filter_durability(costs, true), herbalism_durability_key())
}

/// What playing herbalism card `id` needs to stay in range.
pub open spec fn herbalism_play_fits(s: GameState, id: usize) -> bool {
    let effs = herbalism_effects(s.library.cards@[id as int].kind)->Some_0;
    let st = herbalism_of(s.current_encounter)->Some_0;
    &&& deduct_fits(filter_durability(gathering_costs(effs), false), s.token_balances)
    &&& herbalism_paid(s, id) matches Some((p0, dep)) && (!dep ==> (herb_gains(p0, effs, s.library) matches Some(p1) && {
        &&& totals_fit(p1)
        &&& st.round < u64::MAX
        &&& forall|c: PlantCharacteristic| #[trigger] char_count(st.plant_hand@, c) <= u64::MAX
        &&& grant_rewards(p1, st.rewards.spec_entries(), 1) is Some
    }))
}

/// The encounter ends at `t` with outcome `o`, the player's balances `p`.
pub open spec fn herbalism_closed(s: GameState, t: GameState, o: EncounterOutcome, p: Balances) -> bool {
    &&& t.current_encounter is None
    &&& t.encounter_phase == EncounterPhase::Scouting
    &&& t.encounter_results@ == s.encounter_results@.push(o)
    &&& t.last_encounter_result == Some(o)
    &&& bal(t.token_balances) == p
}

/// How a play whose durability held goes on, with `targets` the
/// characteristics a most or least common mode chose: the matched plants in
/// hand are removed; one plant left wins the encounter and its rewards, none
/// left loses it; else the player draws an herbalism card, and the encounter
/// is lost where no herbalism card in hand can be paid for.
pub open spec fn herb_outcome(s: GameState, t: GameState, id: usize, cards: Seq<LibraryCard>, targets: Seq<PlantCharacteristic>) -> bool {
    let effs = herbalism_effects(s.library.cards@[id as int].kind)->Some_0;
    let st = herbalism_of(s.current_encounter)->Some_0;
    let p0 = herbalism_paid(s, id)->Some_0.0;
    let p1 = herb_gains(p0, effs, s.library)->Some_0;
    let mode = last_match(effs, s.library);
    let plants2 = match mode {
        Some(m) => plants_after(st.plant_hand@, m, targets),
        None => st.plant_hand@,
    };
    let rem = remaining(plants2);
    &&& mode matches Some(m) ==> (by_frequency(m) ==> targets_ok(st.plant_hand@, targets, mode_limit(m), m is MostCommon))
    &&& if rem == 1 {
        herbalism_closed(s, t, EncounterOutcome::PlayerWon, grant_rewards(p1, st.rewards.spec_entries(), 1)->Some_0)
            && t.library.cards@ == cards
    } else if rem == 0 {
        herbalism_closed(s, t, EncounterOutcome::PlayerLost, p1) && t.library.cards@ == cards
    } else {
        &&& draw_result(cards, t.library.cards@, CardClass::Herbalism, 1)
        &&& if all_herbalism_unpayable(t.library.cards@, p1) {
            herbalism_closed(s, t, EncounterOutcome::PlayerLost, p1)
        } else {
            &&& herbalism_of(t.current_encounter) matches Some(st2) && {
                &&& st2.plant_hand@ == plants2
                &&& st2.round == st.round + (if mode is Some { 1int } else { 0int })
                &&& st2.encounter_card_id == st.encounter_card_id
                &&& st2.outcome == st.outcome
                &&& st2.rewards == st.rewards
            }
            &&& bal(t.token_balances) == p1
            &&& t.encounter_phase == s.encounter_phase
            &&& t.encounter_results@ == s.encounter_results@
            &&& t.last_encounter_result == s.last_encounter_result
        }
    }
}

/// What playing herbalism card `id` in state `s` gives, `t`, with `cards` the
/// library before the player's draw: its pre-play costs are paid, then its
/// durability costs, and where the durability runs out the encounter is lost;
/// else its gains and insight go to the player and the play goes on as
/// `herb_outcome` says.
pub open spec fn herbalism_played(s: GameState, t: GameState, id: usize, cards: Seq<LibraryCard>) -> bool {
    let (p0, dep) = herbalism_paid(s, id)->Some_0;
    &&& t.game_rules == s.game_rules
    &&& if dep {
        herbalism_closed(s, t, EncounterOutcome::PlayerLost, p0) && t.library.cards@ == cards
    } else {
        exists|targets: Seq<PlantCharacteristic>| #[trigger] herb_outcome(s, t, id, cards, targets)
    }
}

fn apply_herb_gain(p: &mut TokenMap, effect: &ConcreteEffect, library: &Library)
    requires
        herb_gain_one(bal(*old(p)), effect.rolled_value as int, template_of(*library, effect.effect_id)) is Some,
    ensures
        bal(*final(p)) == herb_gain_one(bal(*old(p)), effect.rolled_value as int, template_of(*library, effect.effect_id))->Some_0,
{
    proof {
        crate::library::costs::lemma_bal_facts(*p);
    }
    let key = match library.effect_kind(effect.effect_id) {
        Some(CardEffectKind::GainTokens { token_type, .. }) => Some(Token::persistent(*token_type)),
        Some(CardEffectKind::Insight { .. }) => Some(Token::persistent(TokenType::Insight)),
        _ => None,
    };
    match key {
        Some(key) => {
            let x = p.value(&key);
            p.insert(key, x + effect.rolled_value);
        },
        None => {},
    }
}

/// The match mode of an effect, if it is a match.
fn match_mode_of(effect: &ConcreteEffect, library: &Library) -> (r: Option<HerbalismMatchMode>)
    ensures
        match template_of(*library, effect.effect_id) {
            Some(CardEffectKindView::HerbalismMatch { match_mode, .. }) => r matches Some(m) && m@ == match_mode,
            _ => r is None,
        },
{
    match library.effect_kind(effect.effect_id) {
        Some(CardEffectKind::HerbalismMatch { match_mode, .. }) => Some(match_mode.duplicate()),
        _ => None,
    }
}

fn contains_char(v: &Vec<PlantCharacteristic>, c: PlantCharacteristic) -> (r: bool)
    ensures
        r == v@.contains(c),
{
    let mut i: usize = 0;
    while i < v.len()
        invariant
            i <= v@.len(),
            forall|j: int| 0 <= j < i ==> v@[j] != c,
        decreases v@.len() - i,
    {
        if v[i] == c {
            return true;
        }
        i += 1;
    }
    false
}

/// Whether some characteristic of `cs` is in `types`.
fn shares_any(cs: &Vec<PlantCharacteristic>, types: &Vec<PlantCharacteristic>) -> (r: bool)
    ensures
        r == shares(cs@, types@),
{
    let mut i: usize = 0;
    while i < cs.len()
        invariant
            i <= cs@.len(),
            forall|j: int| 0 <= j < i ==> !types@.contains(#[trigger] cs@[j]),
        decreases cs@.len() - i,
    {
        if contains_char(types, cs[i]) {
            return true;
        }
        i += 1;
    }
    false
}

/// Whether every characteristic of `types` is in `cs`.
fn has_all(cs: &Vec<PlantCharacteristic>, types: &Vec<PlantCharacteristic>) -> (r: bool)
    ensures
        r == has_every(cs@, types@),
{
    let mut i: usize = 0;
    while i < types.len()
        invariant
            i <= types@.len(),
            forall|j: int| 0 <= j < i ==> cs@.contains(#[trigger] types@[j]),
        decreases types@.len() - i,
    {
        if !contains_char(cs, types[i]) {
            return false;
        }
        i += 1;
    }
    true
}

fn plant_hit_exec(plant: &PlantCard, mode: &HerbalismMatchMode, targets: &Vec<PlantCharacteristic>) -> (r: bool)
    ensures
        r == plant_hit(*plant, mode@, targets@),
{
    match mode {
        HerbalismMatchMode::Or { types } => shares_any(&plant.characteristics, types),
        HerbalismMatchMode::And { types } => has_all(&plant.characteristics, types),
        _ => shares_any(&plant.characteristics, targets),
    }
}

/// The herbalism encounter an herbalism encounter card starts: the plant
/// hand dealt from its definition (the same plants and copies, pile totals
/// kept, the hand drawn anew) and the definition's rewards.
pub open spec fn herbalism_started(st: HerbalismEncounterState, id: usize, def: crate::library::types::HerbalismDef) -> bool {
    &&& st.round == 1
    &&& st.encounter_card_id == id
    &&& st.outcome == EncounterOutcome::Undecided
    &&& st.plant_hand@.len() == def.plant_hand@.len()
    &&& forall|i: int| 0 <= i < st.plant_hand@.len() ==> (#[trigger] st.plant_hand@[i]).characteristics@ == def.plant_hand@[i].characteristics@
        && crate::library::rolls::copies(st.plant_hand@[i].counts) == crate::library::rolls::copies(def.plant_hand@[i].counts)
    &&& crate::library::rolls::sum_hand(st.plant_hand@) == crate::library::rolls::sum_hand(def.plant_hand@)
    &&& forall|k: TokenKey| #[trigger] st.rewards.spec_get(k) == def.rewards.spec_get(k)
}

/// Some reward of the encounter is above zero.
pub open spec fn has_reward(st: HerbalismEncounterState) -> bool {
    exists|i: int| 0 <= i < st.rewards.spec_entries().len() && (#[trigger] st.rewards.spec_entries()[i]).1 > 0
}

proof fn lemma_plants_same_counts(a: Seq<PlantCard>, b: Seq<PlantCard>)
    requires
        same_plant_cards(a, b),
    ensures
        crate::library::rolls::sum_deck(a) == crate::library::rolls::sum_deck(b),
        crate::library::rolls::sum_hand(a) == crate::library::rolls::sum_hand(b),
        crate::library::rolls::sum_discard(a) == crate::library::rolls::sum_discard(b),
    decreases a.len(),
{
    if a.len() > 0 {
        assert(same_plant_cards(a.drop_last(), b.drop_last()));
        lemma_plants_same_counts(a.drop_last(), b.drop_last());
        assert(a[a.len() - 1].counts == b[b.len() - 1].counts);
    }
}

proof fn lemma_remaining_prefix(plants: Seq<PlantCard>, i: int)
    requires
        0 <= i < plants.len(),
    ensures
        remaining(plants.subrange(0, i + 1)) == remaining(plants.subrange(0, i)) + (if plants[i].counts.hand > 0 { 1nat } else { 0nat }),
        remaining(plants.subrange(0, i)) <= i,
{
    assert(plants.subrange(0, i + 1).drop_last() =~= plants.subrange(0, i));
    lemma_remaining_le(plants.subrange(0, i));
}

proof fn lemma_remaining_le(plants: Seq<PlantCard>)
    ensures
        remaining(plants) <= plants.len(),
    decreases plants.len(),
{
    if plants.len() > 0 {
        lemma_remaining_le(plants.drop_last());
    }
}

impl GameState {
    /// Initialize an herbalism encounter from a library encounter card (see
    /// `herbalism_started`).
    pub fn start_herbalism_encounter(&mut self, encounter_card_id: usize, rng: &mut Lcg64Xsh32) -> (r: Result<(), HerbalismError>)
        requires
            encounter_card_id < old(self).library.cards@.len() ==> match old(self).library.cards@[encounter_card_id as int].kind {
                CardKind::Encounter { encounter_kind: EncounterKind::Herbalism { herbalism_def } } => total_fits(herbalism_def.plant_hand@),
                _ => true,
            },
        ensures
            encounter_card_id >= old(self).library.cards@.len() ==> r == Err::<(), HerbalismError>(HerbalismError::CardNotFound { card_id: encounter_card_id })
                && *final(self) == *old(self),
            encounter_card_id < old(self).library.cards@.len() ==> match old(self).library.cards@[encounter_card_id as int].kind {
                CardKind::Encounter { encounter_kind: EncounterKind::Herbalism { herbalism_def } } => {
                    &&& r is Ok
                    &&& herbalism_of(final(self).current_encounter) matches Some(st) && herbalism_started(st, encounter_card_id, herbalism_def)
                    &&& final(self).encounter_phase == EncounterPhase::InEncounter
                    &&& final(self).token_balances == old(self).token_balances
                    &&& final(self).library == old(self).library
                    &&& final(self).encounter_results@ == old(self).encounter_results@
                    &&& final(self).last_encounter_result == old(self).last_encounter_result
                    &&& final(self).game_rules == old(self).game_rules
                },
                _ => r == Err::<(), HerbalismError>(HerbalismError::NotAnHerbalismEncounter { card_id: encounter_card_id }) && *final(self) == *old(self),
            },
    {
        if encounter_card_id >= self.library.cards.len() {
            return Err(HerbalismError::CardNotFound { card_id: encounter_card_id });
        }
        let (mut plants, rewards) = match &self.library.cards[encounter_card_id].kind {
            CardKind::Encounter { encounter_kind: EncounterKind::Herbalism { herbalism_def } } => (
                duplicate_plant_hand(&herbalism_def.plant_hand),
                herbalism_def.rewards.duplicate(),
            ),
            _ => {
                return Err(HerbalismError::NotAnHerbalismEncounter { card_id: encounter_card_id });
            },
        };
        let ghost def = match self.library.cards@[encounter_card_id as int].kind {
            CardKind::Encounter { encounter_kind: EncounterKind::Herbalism { herbalism_def } } => herbalism_def,
            _ => arbitrary(),
        };
        let ghost dealt = plants@;
        proof {
            lemma_plants_same_counts(dealt, def.plant_hand@);
        }
        deck_shuffle_hand(rng, &mut plants);
        proof {
            assert forall|i: int| 0 <= i < plants@.len() implies (#[trigger] plants@[i]).characteristics@ == def.plant_hand@[i].characteristics@
                && crate::library::rolls::copies(plants@[i].counts) == crate::library::rolls::copies(def.plant_hand@[i].counts) by {
                assert(plants@[i] == dealt[i].with_counts(plants@[i].spec_counts()));
                assert(crate::library::rolls::copies(plants@[i].spec_counts()) == crate::library::rolls::copies(dealt[i].spec_counts()));
            }
        }
        let state = HerbalismEncounterState { round: 1, encounter_card_id, outcome: EncounterOutcome::Undecided, plant_hand: plants, rewards };
        self.current_encounter = Some(EncounterState::Herbalism(state));
        self.encounter_phase = EncounterPhase::InEncounter;
        Ok(())
    }

    /// Close the herbalism encounter with this outcome: it is recorded and
    /// scouting follows.
    fn finish_herbalism_encounter(&mut self, is_win: bool)
        ensures
            herbalism_closed(*old(self), *final(self), if is_win { EncounterOutcome::PlayerWon } else { EncounterOutcome::PlayerLost },
                bal(old(self).token_balances)),
            final(self).library == old(self).library,
            final(self).game_rules == old(self).game_rules,
    {
        let outcome = if is_win { EncounterOutcome::PlayerWon } else { EncounterOutcome::PlayerLost };
        self.last_encounter_result = Some(outcome);
        self.encounter_results.push(outcome);
        self.current_encounter = None;
        self.encounter_phase = EncounterPhase::Scouting;
    }

    /// Whether the player holds herbalism cards in hand and can pay the costs
    /// of none of them (a card without costs is always playable).
    fn all_herbalism_hand_cards_unpayable(&self) -> (r: bool)
        requires
            balances_fit(self.token_balances),
        ensures
            r == all_herbalism_unpayable(self.library.cards@, bal(self.token_balances)),
    {
        let cards = &self.library.cards;
        let mut any = false;
        let mut i: usize = 0;
        while i < cards.len()
            invariant
                i <= cards.len(),
                cards@ == self.library.cards@,
                balances_fit(self.token_balances),
                any == exists|j: int| 0 <= j < i && is_herbalism_hand_card(#[trigger] cards@[j]),
                forall|j: int| 0 <= j < i && is_herbalism_hand_card(#[trigger] cards@[j])
                    ==> herbalism_card_unpayable(cards@[j], bal(self.token_balances)),
            decreases cards.len() - i,
        {
            let card = &cards[i];
            if card.counts.hand > 0 {
                if let CardKind::Herbalism { effects } = &card.kind {
                    any = true;
                    let all_costs = extract_gathering_costs_from_effects(effects.as_slice());
                    let (costs, _) = split_token_amounts(all_costs.as_slice());
                    if costs.len() == 0 {
                        proof {
                            assert(is_herbalism_hand_card(cards@[i as int]));
                        }
                        return false;
                    }
                    let ok = preview_gathering_costs(costs.as_slice(), &self.token_balances).is_ok();
                    proof {
                        crate::library::costs::lemma_preview_ok(costs@, self.token_balances);
                    }
                    if ok {
                        proof {
                            assert(is_herbalism_hand_card(cards@[i as int]));
                        }
                        return false;
                    }
                }
            }
            i += 1;
        }
        any
    }

    /// Conclude an herbalism encounter: it needs a reward above zero; the
    /// rewards are granted and the encounter is won.
    pub fn conclude_herbalism_encounter(&mut self) -> (r: Result<(), HerbalismError>)
        requires
            herbalism_of(old(self).current_encounter) matches Some(st) ==> grant_rewards(
                bal(old(self).token_balances),
                st.rewards.spec_entries(),
                1,
            ) is Some,
        ensures
            match herbalism_of(old(self).current_encounter) {
                Some(st) if st.outcome == EncounterOutcome::Undecided => if has_reward(st) {
                    &&& r is Ok
                    &&& final(self).library == old(self).library
                    &&& herbalism_closed(*old(self), *final(self), EncounterOutcome::PlayerWon,
                        grant_rewards(bal(old(self).token_balances), st.rewards.spec_entries(), 1)->Some_0)
                } else {
                    r == Err::<(), HerbalismError>(HerbalismError::NoRewards) && *final(self) == *old(self)
                },
                _ => r == Err::<(), HerbalismError>(HerbalismError::NoActiveHerbalism) && *final(self) == *old(self),
            },
    {
        let any = match &self.current_encounter {
            Some(EncounterState::Herbalism(h)) => {
                if h.outcome != EncounterOutcome::Undecided {
                    return Err(HerbalismError::NoActiveHerbalism);
                }
                let n = h.rewards.len();
                let mut found = false;
                let mut i: usize = 0;
                while i < n
                    invariant
                        i <= n,
                        n == h.rewards.spec_entries().len(),
                        found == exists|j: int| 0 <= j < i && (#[trigger] h.rewards.spec_entries()[j]).1 > 0,
                    decreases n - i,
                {
                    let (_, v) = h.rewards.entry_at(i);
                    if v > 0 {
                        found = true;
                    }
                    i += 1;
                }
                found
            },
            _ => {
                return Err(HerbalismError::NoActiveHerbalism);
            },
        };
        if !any {
            return Err(HerbalismError::NoRewards);
        }
        match &self.current_encounter {
            Some(EncounterState::Herbalism(h)) => grant_rewards_exec(&mut self.token_balances, &h.rewards, 1),
            _ => {},
        }
        let ghost s1 = *self;
        self.finish_herbalism_encounter(true);
        proof {
            assert(herbalism_closed(s1, *self, EncounterOutcome::PlayerWon, bal(s1.token_balances)));
        }
        Ok(())
    }
}

proof fn lemma_last_match_step(effects: Seq<ConcreteEffect>, lib: Library, i: int)
    requires
        0 <= i < effects.len(),
    ensures
        last_match(effects.subrange(0, i + 1), lib) == match template_of(lib, effects[i].effect_id) {
            Some(CardEffectKindView::HerbalismMatch { match_mode, .. }) => Some(match_mode),
            _ => last_match(effects.subrange(0, i), lib),
        },
{
    let s1 = effects.subrange(0, i + 1);
    assert(s1.last() == effects[i]);
    assert(s1.drop_last() =~= effects.subrange(0, i));
}

impl GameState {
    /// Resolve a player herbalism card against the current herbalism
    /// encounter (see `herbalism_played`).
    pub fn resolve_player_herbalism_card(&mut self, card_id: usize, rng: &mut Lcg64Xsh32) -> (r: Result<(), HerbalismError>)
        requires
            balances_fit(old(self).token_balances),
            counts_fit(old(self).library.cards@),
            class_hand(old(self).library.cards@, CardClass::Herbalism) < u32::MAX,
            herbalism_play_error(*old(self), card_id) is None ==> herbalism_play_fits(*old(self), card_id),
        ensures
            herbalism_play_error(*old(self), card_id) matches Some(e) ==> r == Err::<(), HerbalismError>(e) && *final(self) == *old(self),
            herbalism_play_error(*old(self), card_id) is None ==> r is Ok
                && herbalism_played(*old(self), *final(self), card_id, old(self).library.cards@),
    {
        let ghost s0 = *self;
        if card_id >= self.library.cards.len() {
            return Err(HerbalismError::CardNotFound { card_id });
        }
        let effects = match &self.library.cards[card_id].kind {
            CardKind::Herbalism { effects } => effects,
            _ => {
                return Err(HerbalismError::NotAnHerbalismCard { card_id });
            },
        };
        match &self.current_encounter {
            Some(EncounterState::Herbalism(_)) => {},
            _ => {
                return Err(HerbalismError::NoActiveHerbalism);
            },
        }
        let costs = extract_gathering_costs_from_effects(effects.as_slice());
        let (pre, post) = split_token_amounts(costs.as_slice());
        match check_and_deduct_gathering_costs(pre.as_slice(), &mut self.token_balances) {
            Err(e) => {
                return Err(HerbalismError::Cost(e));
            },
            Ok(()) => {},
        }
        let depleted = pay_durability(&mut self.token_balances, &post, &Token::persistent(TokenType::HerbalismDurability));
        let ghost paid = herbalism_paid(s0, card_id)->Some_0;
        assert(bal(self.token_balances) == paid.0 && depleted == paid.1);
        if depleted {
            self.finish_herbalism_encounter(false);
            return Ok(());
        }
        let ghost st0 = herbalism_of(self.current_encounter)->Some_0;
        let ghost total = herb_gains(paid.0, effects@, s0.library);
        let mut mode: Option<HerbalismMatchMode> = None;
        let n = effects.len();
        let mut i: usize = 0;
        assert(effects@.subrange(0, n as int) =~= effects@);
        assert(effects@.subrange(0, 0) =~= Seq::<ConcreteEffect>::empty());
        while i < n
            invariant
                i <= n,
                n == effects@.len(),
                herbalism_effects(s0.library.cards@[card_id as int].kind) == Some(effects@),
                total is Some,
                total == herb_gains(bal(self.token_balances), effects@.subrange(i as int, n as int), self.library),
                (match mode {
                    Some(m) => Some(m@),
                    None => None,
                }) == last_match(effects@.subrange(0, i as int), self.library),
                self.library == s0.library,
                self.game_rules == s0.game_rules,
                self.encounter_phase == s0.encounter_phase,
                self.encounter_results == s0.encounter_results,
                self.last_encounter_result == s0.last_encounter_result,
                self.current_encounter == s0.current_encounter,
            decreases n - i,
        {
            let ghost rest = effects@.subrange(i as int, n as int);
            proof {
                assert(rest[0] == effects@[i as int]);
                assert(rest.drop_first() =~= effects@.subrange(i + 1, n as int));
                lemma_last_match_step(effects@, self.library, i as int);
            }
            apply_herb_gain(&mut self.token_balances, &effects[i], &self.library);
            match match_mode_of(&effects[i], &self.library) {
                Some(m) => {
                    mode = Some(m);
                },
                None => {},
            }
            i += 1;
        }
        proof {
            assert(effects@.subrange(n as int, n as int) =~= Seq::<ConcreteEffect>::empty());
            crate::library::costs::lemma_bal_facts(self.token_balances);
        }
        let ghost p1 = bal(self.token_balances);
        let mut st = match self.current_encounter.take() {
            Some(EncounterState::Herbalism(st)) => st,
            _ => {
                proof {
                    assert(false);
                }
                return Err(HerbalismError::NoActiveHerbalism);
            },
        };
        let targets: Vec<PlantCharacteristic> = match &mode {
            Some(HerbalismMatchMode::MostCommon { limit, .. }) => select_targets(&st.plant_hand, *limit, true, rng),
            Some(HerbalismMatchMode::LeastCommon { limit, .. }) => select_targets(&st.plant_hand, *limit, false, rng),
            _ => Vec::new(),
        };
        let ghost orig = st.plant_hand@;
        match &mode {
            Some(m) => {
                let ghost after = plants_after(orig, m@, targets@);
                let np = st.plant_hand.len();
                let mut j: usize = 0;
                while j < np
                    invariant
                        j <= np,
                        np == orig.len(),
                        st.plant_hand@.len() == np,
                        after == plants_after(orig, m@, targets@),
                        forall|q: int| 0 <= q < j ==> #[trigger] st.plant_hand@[q] == after[q],
                        forall|q: int| j <= q < np ==> #[trigger] st.plant_hand@[q] == orig[q],
                        st.round == st0.round,
                        st.encounter_card_id == st0.encounter_card_id,
                        st.outcome == st0.outcome,
                        st.rewards == st0.rewards,
                    decreases np - j,
                {
                    if st.plant_hand[j].counts.hand > 0 && plant_hit_exec(&st.plant_hand[j], m, &targets) {
                        let ghost before = st.plant_hand@;
                        let c = st.plant_hand[j].counts;
                        let mut plant = st.plant_hand.remove(j);
                        plant.set_counts(DeckCounts { deck: c.deck, hand: 0, discard: c.discard });
                        st.plant_hand.insert(j, plant);
                        proof {
                            assert(st.plant_hand@ =~= before.update(j as int, before[j as int].with_counts(DeckCounts { deck: c.deck, hand: 0, discard: c.discard })));
                        }
                    }
                    j += 1;
                }
                proof {
                    assert(st.plant_hand@ =~= after);
                }
                st.round = st.round + 1;
            },
            None => {},
        }
        let ghost plants2 = st.plant_hand@;
        let np = st.plant_hand.len();
        let mut rem: usize = 0;
        let mut k: usize = 0;
        assert(plants2.subrange(0, 0) =~= Seq::<PlantCard>::empty());
        while k < np
            invariant
                k <= np,
                np == plants2.len(),
                st.plant_hand@ == plants2,
                rem == remaining(plants2.subrange(0, k as int)),
            decreases np - k,
        {
            proof {
                lemma_remaining_prefix(plants2, k as int);
            }
            if st.plant_hand[k].counts.hand > 0 {
                rem = rem + 1;
            }
            k += 1;
        }
        assert(plants2.subrange(0, np as int) =~= plants2);
        let ghost s_pre = *self;
        if rem == 1 {
            grant_rewards_exec(&mut self.token_balances, &st.rewards, 1);
            self.current_encounter = Some(EncounterState::Herbalism(st));
            let ghost s1 = *self;
            self.finish_herbalism_encounter(true);
            proof {
                assert(herbalism_closed(s1, *self, EncounterOutcome::PlayerWon, bal(s1.token_balances)));
                assert(herb_outcome(s0, *self, card_id, s0.library.cards@, targets@));
            }
            return Ok(());
        }
        if rem == 0 {
            self.current_encounter = Some(EncounterState::Herbalism(st));
            let ghost s1 = *self;
            self.finish_herbalism_encounter(false);
            proof {
                assert(herbalism_closed(s1, *self, EncounterOutcome::PlayerLost, bal(s1.token_balances)));
                assert(herb_outcome(s0, *self, card_id, s0.library.cards@, targets@));
            }
            return Ok(());
        }
        self.current_encounter = Some(EncounterState::Herbalism(st));
        proof {
            assert(p1.1[TokenType::HerbalismMaxHand] == self.token_balances.spec_balance(TokenType::HerbalismMaxHand));
        }
        self.draw_player_cards_of_kind(1, CardClass::Herbalism, rng, Some(TokenType::HerbalismMaxHand));
        proof {
            crate::library::costs::lemma_bal_facts(self.token_balances);
        }
        if self.all_herbalism_hand_cards_unpayable() {
            let ghost s1 = *self;
            self.finish_herbalism_encounter(false);
            proof {
                assert(herbalism_closed(s1, *self, EncounterOutcome::PlayerLost, bal(s1.token_balances)));
            }
        }
        proof {
            assert(herb_outcome(s0, *self, card_id, s0.library.cards@, targets@));
        }
        Ok(())
    }
}

proof fn lemma_herb_cong(p: Balances, effs: Seq<ConcreteEffect>, a: Library, b: Library)
    requires
        crate::library::disciplines::combat::same_templates(a, b),
    ensures
        herb_gains(p, effs, a) == herb_gains(p, effs, b),
        last_match(effs, a) == last_match(effs, b),
    decreases effs.len(),
{
    if effs.len() > 0 {
        assert(template_of(a, effs[0].effect_id) == template_of(b, effs[0].effect_id));
        assert(template_of(a, effs.last().effect_id) == template_of(b, effs.last().effect_id));
        lemma_herb_cong(p, effs.drop_last(), a, b);
        match herb_gain_one(p, effs[0].rolled_value as int, template_of(a, effs[0].effect_id)) {
            Some(p1) => lemma_herb_cong(p1, effs.drop_first(), a, b),
            None => {},
        }
    }
}

/// Moving copies of cards between piles changes neither whether an
/// herbalism card's play is refused nor what it needs to stay in range.
pub proof fn lemma_herbalism_play_counts_moved(s: GameState, t: GameState, id: usize)
    requires
        crate::library::game_state::only_counts_moved(s.library.cards@, t.library.cards@),
        t.token_balances == s.token_balances,
        t.current_encounter == s.current_encounter,
    ensures
        herbalism_play_error(t, id) == herbalism_play_error(s, id),
        herbalism_play_error(s, id) is None ==> herbalism_play_fits(t, id) == herbalism_play_fits(s, id),
{
    crate::library::disciplines::combat::lemma_same_templates(s.library, t.library);
    if id < s.library.cards@.len() {
        assert(t.library.cards@[id as int].kind == s.library.cards@[id as int].kind);
    }
    if herbalism_play_error(s, id) is None {
        let effs = herbalism_effects(s.library.cards@[id as int].kind)->Some_0;
        if let Some((p0, dep)) = herbalism_paid(s, id) {
            lemma_herb_cong(p0, effs, s.library, t.library);
        }
    }
}

/// A play resolved after its card went to the discard is the play of the
/// state before, from the library with the card in the discard.
pub proof fn lemma_herbalism_played_counts_moved(s: GameState, s1: GameState, t: GameState, id: usize)
    requires
        crate::library::game_state::only_counts_moved(s.library.cards@, s1.library.cards@),
        s1.token_balances == s.token_balances,
        s1.current_encounter == s.current_encounter,
        s1.game_rules == s.game_rules,
        s1.encounter_results == s.encounter_results,
        s1.encounter_phase == s.encounter_phase,
        s1.last_encounter_result == s.last_encounter_result,
        herbalism_play_error(s, id) is None,
        herbalism_played(s1, t, id, s1.library.cards@),
    ensures
        herbalism_played(s, t, id, s1.library.cards@),
{
    lemma_herbalism_play_counts_moved(s, s1, id);
    crate::library::disciplines::combat::lemma_same_templates(s.library, s1.library);
    assert(s1.library.cards@[id as int].kind == s.library.cards@[id as int].kind);
    let effs = herbalism_effects(s.library.cards@[id as int].kind)->Some_0;
    let (p0, dep) = herbalism_paid(s, id)->Some_0;
    lemma_herb_cong(p0, effs, s.library, s1.library);
    if !dep {
        let targets = choose|targets: Seq<PlantCharacteristic>| #[trigger] herb_outcome(s1, t, id, s1.library.cards@, targets);
        assert(herb_outcome(s, t, id, s1.library.cards@, targets));
    }
}

} // verus!
