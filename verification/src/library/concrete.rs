//! Rolling concrete effects from effect templates: each range of a template
//! is rolled once, so a card carries fixed values.
use super::rolls::{hi_of, lo_of, roll_range, roll_range_u32};
use super::types::{CardEffectCost, CardEffectKind, CardEffectKindView, ConcreteEffect, ConcreteEffectCost, ConcreteEffectView};
use super::Library;
use rand_pcg::Lcg64Xsh32;
use vstd::prelude::*;

verus! {

/// `p` percent of `v`, rounded toward zero.
pub open spec fn pct_of(v: int, p: int) -> int {
    if v >= 0 {
        v * p / 100
    } else {
        -((-v) * p / 100)
    }
}

/// The larger size of two bounds.
pub open spec fn max_abs(a: int, b: int) -> int {
    let x = if a >= 0 { a } else { -a };
    let y = if b >= 0 { b } else { -b };
    if x >= y { x } else { y }
}

/// Each rolled cost comes from the matching cost range, in order.
pub open spec fn costs_rolled(rolled: Seq<ConcreteEffectCost>, costs: Seq<CardEffectCost>) -> bool {
    &&& rolled.len() == costs.len()
    &&& forall|i: int|
        0 <= i < costs.len() ==> {
            &&& (#[trigger] rolled[i]).token_type == costs[i].token_type
            &&& lo_of(costs[i].min_percent as int, costs[i].max_percent as int) <= rolled[i].rolled_percent
            &&& rolled[i].rolled_percent <= hi_of(costs[i].min_percent as int, costs[i].max_percent as int)
        }
}

/// Every cost range can be rolled.
pub open spec fn cost_ranges_fit(costs: Seq<CardEffectCost>) -> bool {
    forall|i: int|
        0 <= i < costs.len() ==> hi_of((#[trigger] costs[i]).min_percent as int, costs[i].max_percent as int) - lo_of(
            costs[i].min_percent as int,
            costs[i].max_percent as int,
        ) < u32::MAX
}

/// The ranges of a template can be rolled and its gain computed without overflow.
pub open spec fn template_rollable(k: Option<CardEffectKindView>) -> bool {
    match k {
        Some(CardEffectKindView::GainTokens { cap_min, cap_max, gain_min_percent, gain_max_percent, costs, .. }) => {
            &&& hi_of(cap_min as int, cap_max as int) - lo_of(cap_min as int, cap_max as int) < i64::MAX
            &&& hi_of(gain_min_percent as int, gain_max_percent as int) - lo_of(gain_min_percent as int, gain_max_percent as int) < u32::MAX
            &&& max_abs(cap_min as int, cap_max as int) * hi_of(gain_min_percent as int, gain_max_percent as int) <= i64::MAX
            &&& cost_ranges_fit(costs)
        },
        Some(CardEffectKindView::LoseTokens { min, max, costs, .. }) => {
            &&& hi_of(min as int, max as int) - lo_of(min as int, max as int) < i64::MAX
            &&& cost_ranges_fit(costs)
        },
        Some(CardEffectKindView::Insight { min, max }) => hi_of(min as int, max as int) - lo_of(min as int, max as int) < i64::MAX,
        Some(CardEffectKindView::FishingValue { min, max, costs }) => {
            &&& hi_of(min as int, max as int) - lo_of(min as int, max as int) < i64::MAX
            &&& cost_ranges_fit(costs)
        },
        Some(CardEffectKindView::HerbalismMatch { costs, .. }) => cost_ranges_fit(costs),
        Some(CardEffectKindView::WoodcuttingChop { costs, .. }) => cost_ranges_fit(costs),
        Some(CardEffectKindView::ResearchProbe { costs, .. }) => cost_ranges_fit(costs),
        _ => true,
    }
}

/// `c` is a possible roll of the template `k` (no template: a zero effect).
pub open spec fn rolled_from(c: ConcreteEffectView, k: Option<CardEffectKindView>) -> bool {
    match k {
        Some(CardEffectKindView::GainTokens { cap_min, cap_max, gain_min_percent, gain_max_percent, costs, .. }) => {
            &&& c.rolled_cap matches Some(cap)
            &&& c.rolled_gain_percent matches Some(g)
            &&& lo_of(cap_min as int, cap_max as int) <= cap <= hi_of(cap_min as int, cap_max as int)
            &&& lo_of(gain_min_percent as int, gain_max_percent as int) <= g <= hi_of(gain_min_percent as int, gain_max_percent as int)
            &&& c.rolled_value == pct_of(cap as int, g as int)
            &&& costs_rolled(c.rolled_costs, costs)
        },
        Some(CardEffectKindView::LoseTokens { min, max, costs, .. }) => {
            &&& lo_of(min as int, max as int) <= c.rolled_value <= hi_of(min as int, max as int)
            &&& c.rolled_cap is None
            &&& c.rolled_gain_percent is None
            &&& costs_rolled(c.rolled_costs, costs)
        },
        Some(CardEffectKindView::Insight { min, max }) => {
            &&& lo_of(min as int, max as int) <= c.rolled_value <= hi_of(min as int, max as int)
            &&& c.rolled_cap is None
            &&& c.rolled_gain_percent is None
            &&& c.rolled_costs.len() == 0
        },
        Some(CardEffectKindView::FishingValue { min, max, costs }) => {
            &&& lo_of(min as int, max as int) <= c.rolled_value <= hi_of(min as int, max as int)
            &&& c.rolled_cap is None
            &&& c.rolled_gain_percent is None
            &&& costs_rolled(c.rolled_costs, costs)
        },
        Some(CardEffectKindView::WoodcuttingChop { min_value, max_value, costs, .. }) => {
            &&& lo_of(min_value as int, max_value as int) <= c.rolled_value <= hi_of(min_value as int, max_value as int)
            &&& c.rolled_cap is None
            &&& c.rolled_gain_percent is None
            &&& costs_rolled(c.rolled_costs, costs)
        },
        Some(CardEffectKindView::ResearchProbe { costs, .. }) => {
            &&& c.rolled_value == 0
            &&& c.rolled_cap is None
            &&& c.rolled_gain_percent is None
            &&& costs_rolled(c.rolled_costs, costs)
        },
        Some(CardEffectKindView::HerbalismMatch { costs, .. }) => {
            &&& c.rolled_value == 0
            &&& c.rolled_cap is None
            &&& c.rolled_gain_percent is None
            &&& costs_rolled(c.rolled_costs, costs)
        },
        _ => {
            &&& c.rolled_value == 0
            &&& c.rolled_cap is None
            &&& c.rolled_gain_percent is None
            &&& c.rolled_costs.len() == 0
        },
    }
}

/// The costs at the top of every range.
pub open spec fn best_costs_of(costs: Seq<CardEffectCost>) -> Seq<ConcreteEffectCost> {
    costs.map_values(|c: CardEffectCost| ConcreteEffectCost { token_type: c.token_type, rolled_percent: c.max_percent })
}

/// The roll of template `k` that takes the top of every range.
pub open spec fn best_roll(effect_id: usize, k: Option<CardEffectKindView>) -> ConcreteEffectView {
    match k {
        Some(CardEffectKindView::GainTokens { cap_max, gain_max_percent, costs, .. }) => ConcreteEffectView {
            effect_id,
            rolled_value: pct_of(cap_max as int, gain_max_percent as int) as i64,
            rolled_costs: best_costs_of(costs),
            rolled_cap: Some(cap_max),
            rolled_gain_percent: Some(gain_max_percent),
        },
        Some(CardEffectKindView::LoseTokens { max, costs, .. }) => ConcreteEffectView {
            effect_id,
            rolled_value: max,
            rolled_costs: best_costs_of(costs),
            rolled_cap: None,
            rolled_gain_percent: None,
        },
        Some(CardEffectKindView::Insight { max, .. }) => ConcreteEffectView {
            effect_id,
            rolled_value: max,
            rolled_costs: Seq::empty(),
            rolled_cap: None,
            rolled_gain_percent: None,
        },
        Some(CardEffectKindView::FishingValue { max, costs, .. }) => ConcreteEffectView {
            effect_id,
            rolled_value: max,
            rolled_costs: best_costs_of(costs),
            rolled_cap: None,
            rolled_gain_percent: None,
        },
        Some(CardEffectKindView::WoodcuttingChop { max_value, costs, .. }) => ConcreteEffectView {
            effect_id,
            rolled_value: max_value as i64,
            rolled_costs: best_costs_of(costs),
            rolled_cap: None,
            rolled_gain_percent: None,
        },
        Some(CardEffectKindView::ResearchProbe { costs, .. }) => ConcreteEffectView {
            effect_id,
            rolled_value: 0,
            rolled_costs: best_costs_of(costs),
            rolled_cap: None,
            rolled_gain_percent: None,
        },
        Some(CardEffectKindView::HerbalismMatch { costs, .. }) => ConcreteEffectView {
            effect_id,
            rolled_value: 0,
            rolled_costs: best_costs_of(costs),
            rolled_cap: None,
            rolled_gain_percent: None,
        },
        _ => ConcreteEffectView {
            effect_id,
            rolled_value: 0,
            rolled_costs: Seq::empty(),
            rolled_cap: None,
            rolled_gain_percent: None,
        },
    }
}

/// The template of card `effect_id` as a value.
pub open spec fn template_of(library: Library, effect_id: usize) -> Option<CardEffectKindView> {
    match library.spec_effect_kind(effect_id) {
        Some(k) => Some(k@),
        None => None,
    }
}

fn roll_costs(rng: &mut Lcg64Xsh32, costs: &Vec<CardEffectCost>) -> (r: Vec<ConcreteEffectCost>)
    requires
        cost_ranges_fit(costs@),
    ensures
        costs_rolled(r@, costs@),
{
    let mut out: Vec<ConcreteEffectCost> = Vec::new();
    let mut i: usize = 0;
    while i < costs.len()
        invariant
            i <= costs.len(),
            cost_ranges_fit(costs@),
            out@.len() == i,
            forall|j: int|
                0 <= j < i ==> {
                    &&& (#[trigger] out@[j]).token_type == costs@[j].token_type
                    &&& lo_of(costs@[j].min_percent as int, costs@[j].max_percent as int) <= out@[j].rolled_percent
                    &&& out@[j].rolled_percent <= hi_of(costs@[j].min_percent as int, costs@[j].max_percent as int)
                },
        decreases costs.len() - i,
    {
        let c = costs[i];
        let p = roll_range_u32(rng, c.min_percent, c.max_percent);
        out.push(ConcreteEffectCost { token_type: c.token_type, rolled_percent: p });
        i += 1;
    }
    out
}

fn best_costs(costs: &Vec<CardEffectCost>) -> (r: Vec<ConcreteEffectCost>)
    ensures
        r@ == best_costs_of(costs@),
{
    let mut out: Vec<ConcreteEffectCost> = Vec::new();
    let mut i: usize = 0;
    while i < costs.len()
        invariant
            i <= costs.len(),
            out@ == best_costs_of(costs@.subrange(0, i as int)),
        decreases costs.len() - i,
    {
        let c = costs[i];
        out.push(ConcreteEffectCost { token_type: c.token_type, rolled_percent: c.max_percent });
        proof {
            assert(out@ =~= best_costs_of(costs@.subrange(0, i + 1)));
        }
        i += 1;
    }
    assert(costs@.subrange(0, costs@.len() as int) =~= costs@);
    out
}


proof fn lemma_fits_from_abs(v: i64, p: u32)
    requires
        max_abs(v as int, v as int) * p <= i64::MAX,
    ensures
        i64::MIN <= v * p <= i64::MAX,
{
    let a: int = if v >= 0 { v as int } else { -(v as int) };
    assert(-(a * p) <= v * p <= a * p) by (nonlinear_arith)
        requires
            a >= 0,
            p >= 0,
            a == (if v >= 0 { v as int } else { -(v as int) }),
    ;
}

/// `p` percent of `v`, rounded toward zero, as the game computes it.
pub(crate) fn percent_of(v: i64, p: u32) -> (r: i64)
    requires
        i64::MIN <= v * p <= i64::MAX,
    ensures
        r == pct_of(v as int, p as int),
{
    let ghost a: int = if v >= 0 { v as int } else { -(v as int) };
    let prod: i64 = v * (p as i64);
    let r = prod / 100;
    proof {
        if v >= 0 {
            assert(prod == v * p);
        } else {
            assert(prod == -(a * p)) by (nonlinear_arith)
                requires
                    prod == v * p,
                    a == -(v as int),
            ;
        }
    }
    r
}

/// Roll a concrete effect for template `effect_id`: every range of the
/// template is rolled once (gains as `cap * gain_percent / 100`), every cost
/// range once. An id that is no template gives an empty effect.
pub fn roll_concrete_effect(rng: &mut Lcg64Xsh32, effect_id: usize, library: &Library) -> (r: ConcreteEffect)
    requires
        template_rollable(template_of(*library, effect_id)),
    ensures
        r.effect_id == effect_id,
        rolled_from(r@, template_of(*library, effect_id)),
{
    match library.effect_kind(effect_id) {
        Some(CardEffectKind::GainTokens { cap_min, cap_max, gain_min_percent, gain_max_percent, costs, .. }) => {
            let cap = roll_range(rng, *cap_min, *cap_max);
            let g = roll_range_u32(rng, *gain_min_percent, *gain_max_percent);
            proof {
                let m = max_abs(*cap_min as int, *cap_max as int);
                let h = hi_of(*gain_min_percent as int, *gain_max_percent as int);
                assert(max_abs(cap as int, cap as int) <= m);
                assert(g <= h);
                assert(max_abs(cap as int, cap as int) * g <= m * h) by (nonlinear_arith)
                    requires
                        max_abs(cap as int, cap as int) <= m,
                        0 <= max_abs(cap as int, cap as int),
                        0 <= g <= h,
                ;
                lemma_fits_from_abs(cap, g);
            }
            let value = percent_of(cap, g);
            let rolled = roll_costs(rng, costs);
            ConcreteEffect {
                effect_id,
                rolled_value: value,
                rolled_costs: rolled,
                rolled_cap: Some(cap),
                rolled_gain_percent: Some(g),
            }
        },
        Some(CardEffectKind::LoseTokens { min, max, costs, .. }) => {
            let value = roll_range(rng, *min, *max);
            let rolled = roll_costs(rng, costs);
            ConcreteEffect { effect_id, rolled_value: value, rolled_costs: rolled, rolled_cap: None, rolled_gain_percent: None }
        },
        Some(CardEffectKind::FishingValue { min, max, costs }) => {
            let value = roll_range(rng, *min, *max);
            let rolled = roll_costs(rng, costs);
            ConcreteEffect { effect_id, rolled_value: value, rolled_costs: rolled, rolled_cap: None, rolled_gain_percent: None }
        },
        Some(CardEffectKind::WoodcuttingChop { min_value, max_value, costs, .. }) => {
            let value = roll_range(rng, *min_value as i64, *max_value as i64);
            let rolled = roll_costs(rng, costs);
            ConcreteEffect { effect_id, rolled_value: value, rolled_costs: rolled, rolled_cap: None, rolled_gain_percent: None }
        },
        Some(CardEffectKind::ResearchProbe { costs, .. }) => {
            let rolled = roll_costs(rng, costs);
            ConcreteEffect { effect_id, rolled_value: 0, rolled_costs: rolled, rolled_cap: None, rolled_gain_percent: None }
        },
        Some(CardEffectKind::HerbalismMatch { costs, .. }) => {
            let rolled = roll_costs(rng, costs);
            ConcreteEffect { effect_id, rolled_value: 0, rolled_costs: rolled, rolled_cap: None, rolled_gain_percent: None }
        },
        Some(CardEffectKind::Insight { min, max }) => {
            let value = roll_range(rng, *min, *max);
            ConcreteEffect {
                effect_id,
                rolled_value: value,
                rolled_costs: Vec::new(),
                rolled_cap: None,
                rolled_gain_percent: None,
            }
        },
        _ => ConcreteEffect {
            effect_id,
            rolled_value: 0,
            rolled_costs: Vec::new(),
            rolled_cap: None,
            rolled_gain_percent: None,
        },
    }
}

/// Like `roll_concrete_effect` but always takes the top of every range: the
/// "best version" of an effect.
pub fn roll_best_concrete_effect(effect_id: usize, library: &Library) -> (r: ConcreteEffect)
    requires
        template_of(*library, effect_id) matches Some(CardEffectKindView::GainTokens { cap_max, gain_max_percent, .. })
            ==> max_abs(cap_max as int, cap_max as int) * gain_max_percent <= i64::MAX,
    ensures
        r@ == best_roll(effect_id, template_of(*library, effect_id)),
{
    match library.effect_kind(effect_id) {
        Some(CardEffectKind::GainTokens { cap_max, gain_max_percent, costs, .. }) => {
            proof {
                lemma_fits_from_abs(*cap_max, *gain_max_percent);
            }
            let value = percent_of(*cap_max, *gain_max_percent);
            ConcreteEffect {
                effect_id,
                rolled_value: value,
                rolled_costs: best_costs(costs),
                rolled_cap: Some(*cap_max),
                rolled_gain_percent: Some(*gain_max_percent),
            }
        },
        Some(CardEffectKind::LoseTokens { max, costs, .. }) => ConcreteEffect {
            effect_id,
            rolled_value: *max,
            rolled_costs: best_costs(costs),
            rolled_cap: None,
            rolled_gain_percent: None,
        },
        Some(CardEffectKind::FishingValue { max, costs, .. }) => ConcreteEffect {
            effect_id,
            rolled_value: *max,
            rolled_costs: best_costs(costs),
            rolled_cap: None,
            rolled_gain_percent: None,
        },
        Some(CardEffectKind::WoodcuttingChop { max_value, costs, .. }) => ConcreteEffect {
            effect_id,
            rolled_value: *max_value as i64,
            rolled_costs: best_costs(costs),
            rolled_cap: None,
            rolled_gain_percent: None,
        },
        Some(CardEffectKind::ResearchProbe { costs, .. }) => ConcreteEffect {
            effect_id,
            rolled_value: 0,
            rolled_costs: best_costs(costs),
            rolled_cap: None,
            rolled_gain_percent: None,
        },
        Some(CardEffectKind::HerbalismMatch { costs, .. }) => ConcreteEffect {
            effect_id,
            rolled_value: 0,
            rolled_costs: best_costs(costs),
            rolled_cap: None,
            rolled_gain_percent: None,
        },
        Some(CardEffectKind::Insight { max, .. }) => ConcreteEffect {
            effect_id,
            rolled_value: *max,
            rolled_costs: Vec::new(),
            rolled_cap: None,
            rolled_gain_percent: None,
        },
        _ => ConcreteEffect {
            effect_id,
            rolled_value: 0,
            rolled_costs: Vec::new(),
            rolled_cap: None,
            rolled_gain_percent: None,
        },
    }
}


/// Whether every cost range can be rolled.
pub(crate) fn cost_ranges_fit_exec(costs: &Vec<CardEffectCost>) -> (r: bool)
    ensures
        r == cost_ranges_fit(costs@),
{
    let mut i: usize = 0;
    while i < costs.len()
        invariant
            i <= costs.len(),
            forall|j: int| 0 <= j < i ==> hi_of((#[trigger] costs@[j]).min_percent as int, costs@[j].max_percent as int) - lo_of(
                costs@[j].min_percent as int,
                costs@[j].max_percent as int,
            ) < u32::MAX,
        decreases costs.len() - i,
    {
        let c = costs[i];
        let (lo, hi) = if c.min_percent <= c.max_percent { (c.min_percent, c.max_percent) } else { (c.max_percent, c.min_percent) };
        if hi - lo >= 0xffff_ffffu32 {
            assert(!(hi_of(costs@[i as int].min_percent as int, costs@[i as int].max_percent as int) - lo_of(
                costs@[i as int].min_percent as int,
                costs@[i as int].max_percent as int,
            ) < u32::MAX));
            return false;
        }
        i += 1;
    }
    true
}

} // verus!
