//! Woodcutting encounters: the player plays woodcutting cards, each adding
//! chops (a chop type and a chop value) to the encounter. When every play is
//! used, or when the player concludes, the chops played are scored against
//! the pattern rules, poker-like (the most chops of one type, the longest
//! straight of chop values, ...); the first rule that matches scales the
//! encounter's base rewards.
use crate::library::concrete::template_of;
use crate::library::costs::{
    all_affordable, balances_fit, check_and_deduct_gathering_costs, deduct_b, deduct_fits, extract_gathering_costs_from_effects,
    gathering_costs, preview_gathering_costs, preview_result, totals_fit, Balances, CostError,
};
use crate::library::disciplines::combat::fits;
use crate::library::disciplines::fishing::{durability_after, pay_durability};
use crate::library::game_state::{class_hand, counts_fit, draw_result, CardClass, GameState};
use crate::library::token_map::{bal, bset, get0, TokenMap};
use crate::library::types::{
    filter_durability, persistent_key, split_token_amounts, CardEffectKind, CardEffectKindView, CardKind, ChopType, ConcreteEffect,
    EncounterKind, EncounterOutcome, EncounterPhase, EncounterState, LibraryCard, PlayedWoodcuttingCard, Token, TokenKey,
    TokenType, WoodcuttingEncounterState,
};
use crate::library::Library;
use rand_pcg::Lcg64Xsh32;
use vstd::prelude::*;
use vstd::string::StringExecFns;

verus! {

/// A scoring rule for the chops played in a woodcutting encounter. A bound of
/// zero is no bound; the multiplier is kept in hundredths.
#[derive(Debug)]
pub struct WoodcuttingPatternRule {
    pub name: String,
    pub min_type_count: usize,
    pub min_straight: usize,
    pub min_distinct_types: usize,
    pub second_type_min: usize,
    pub value_freq_min: usize,
    pub multiplier_percent: u64,
}

/// How often `x` occurs in `s`.
pub open spec fn occ<A>(s: Seq<A>, x: A) -> nat
    decreases s.len(),
{
    if s.len() == 0 {
        0
    } else {
        occ(s.drop_last(), x) + if s.last() == x { 1nat } else { 0nat }
    }
}

/// The chop types of the cards played, in order.
pub open spec fn all_chop_types(played: Seq<PlayedWoodcuttingCard>) -> Seq<ChopType>
    decreases played.len(),
{
    if played.len() == 0 {
        Seq::empty()
    } else {
        all_chop_types(played.drop_last()) + played.last().chop_types@
    }
}

/// The chop values of the cards played, in order.
pub open spec fn all_chop_values(played: Seq<PlayedWoodcuttingCard>) -> Seq<u32>
    decreases played.len(),
{
    if played.len() == 0 {
        Seq::empty()
    } else {
        all_chop_values(played.drop_last()) + played.last().chop_values@
    }
}

/// The five chop types.
pub open spec fn chop_kinds() -> Seq<ChopType> {
    seq![ChopType::LightChop, ChopType::HeavyChop, ChopType::MediumChop, ChopType::PrecisionChop, ChopType::SplitChop]
}

/// How many chops of each type were played.
pub open spec fn type_counts(ts: Seq<ChopType>) -> Seq<int> {
    chop_kinds().map_values(|t: ChopType| occ(ts, t) as int)
}

/// The largest and the second largest of the non-negative numbers `cs`
/// (zero where there are fewer).
pub open spec fn top_two(cs: Seq<int>) -> (int, int)
    decreases cs.len(),
{
    if cs.len() == 0 {
        (0, 0)
    } else {
        let (a, b) = top_two(cs.drop_last());
        let x = cs.last();
        if x > a {
            (x, a)
        } else if x > b {
            (a, x)
        } else {
            (a, b)
        }
    }
}

/// How many of the numbers `cs` are positive.
pub open spec fn positives(cs: Seq<int>) -> nat
    decreases cs.len(),
{
    if cs.len() == 0 {
        0
    } else {
        positives(cs.drop_last()) + if cs.last() > 0 { 1nat } else { 0nat }
    }
}

/// Value `x` was played.
pub open spec fn in_values(vs: Seq<u32>, x: int) -> bool {
    exists|i: int| 0 <= i < vs.len() && vs[i] as int == x
}

/// The values `a, a + 1, ..., a + k - 1` were all played.
pub open spec fn has_run(vs: Seq<u32>, a: int, k: int) -> bool {
    forall|x: int| a <= x < a + k ==> #[trigger] in_values(vs, x)
}

/// The longest straight of values played: a straight of this length was
/// played (none where nothing was), and none longer.
pub open spec fn is_longest_straight(vs: Seq<u32>, r: int) -> bool {
    &&& vs.len() == 0 ==> r == 0
    &&& vs.len() > 0 ==> exists|a: int| #[trigger] has_run(vs, a, r) && r >= 1
    &&& forall|a: int, k: int| #[trigger] has_run(vs, a, k) ==> k <= r
}

/// The most times one value was played (zero where nothing was).
pub open spec fn top_frequency(vs: Seq<u32>, n: int) -> int
    decreases n,
{
    if n <= 0 {
        0
    } else {
        let a = top_frequency(vs, n - 1);
        let c = occ(vs, vs[n - 1]) as int;
        if c > a { c } else { a }
    }
}

/// What the pattern rules read of the chops played.
#[derive(Clone, Copy, Debug, PartialEq, Eq, Structural)]
pub struct ChopStats {
    pub max_type_count: u64,
    pub distinct_types: u64,
    pub second_type_count: u64,
    pub longest_straight: u64,
    pub top_value_freq: u64,
}

/// The statistics of the chops played.
pub open spec fn stats_of(played: Seq<PlayedWoodcuttingCard>, st: ChopStats) -> bool {
    let ts = all_chop_types(played);
    let vs = all_chop_values(played);
    let cs = type_counts(ts);
    &&& st.max_type_count as int == top_two(cs).0
    &&& st.second_type_count as int == top_two(cs).1
    &&& st.distinct_types as int == positives(cs)
    &&& is_longest_straight(vs, st.longest_straight as int)
    &&& st.top_value_freq as int == top_frequency(vs, vs.len() as int)
}

/// A bound of zero holds always; another holds where it is reached.
pub open spec fn reaches(bound: usize, x: u64) -> bool {
    bound == 0 || x >= bound
}

/// Rule `r` matches the statistics `st`.
pub open spec fn rule_matches(r: WoodcuttingPatternRule, st: ChopStats) -> bool {
    &&& reaches(r.min_type_count, st.max_type_count)
    &&& reaches(r.min_straight, st.longest_straight)
    &&& reaches(r.min_distinct_types, st.distinct_types)
    &&& reaches(r.second_type_min, st.second_type_count)
    &&& reaches(r.value_freq_min, st.top_value_freq)
}

/// `r` is the first rule of `rules` that matches, or `None` where none does.
pub open spec fn is_first_match(rules: Seq<WoodcuttingPatternRule>, st: ChopStats, r: Option<usize>) -> bool {
    match r {
        Some(i) => i < rules.len() && rule_matches(rules[i as int], st)
            && forall|j: int| 0 <= j < i ==> !rule_matches(#[trigger] rules[j], st),
        None => forall|j: int| 0 <= j < rules.len() ==> !rule_matches(#[trigger] rules[j], st),
    }
}

/// The pattern scored for the chops played with the rules: the name and
/// multiplier (in hundredths) of the first rule that matches, else a high
/// card at one.
pub open spec fn scored_pattern(rules: Seq<WoodcuttingPatternRule>, st: ChopStats, r: (String, u64)) -> bool {
    exists|m: Option<usize>| #[trigger] is_first_match(rules, st, m) && match m {
        Some(i) => r.0@ == rules[i as int].name@ && r.1 == rules[i as int].multiplier_percent,
        None => r.0@ == "High Card"@ && r.1 == 100,
    }
}

/// The chop types and values of the cards played, each in one list.
fn flatten_chops(played: &Vec<PlayedWoodcuttingCard>) -> (r: (Vec<ChopType>, Vec<u32>))
    ensures
        r.0@ == all_chop_types(played@),
        r.1@ == all_chop_values(played@),
{
    let mut ts: Vec<ChopType> = Vec::new();
    let mut vs: Vec<u32> = Vec::new();
    let mut i: usize = 0;
    while i < played.len()
        invariant
            i <= played.len(),
            ts@ == all_chop_types(played@.subrange(0, i as int)),
            vs@ == all_chop_values(played@.subrange(0, i as int)),
        decreases played.len() - i,
    {
        let card = &played[i];
        let ghost ts0 = ts@;
        let ghost vs0 = vs@;
        let mut j: usize = 0;
        while j < card.chop_types.len()
            invariant
                j <= card.chop_types.len(),
                ts@ == ts0 + card.chop_types@.subrange(0, j as int),
            decreases card.chop_types.len() - j,
        {
            ts.push(card.chop_types[j]);
            proof {
                assert(ts0 + card.chop_types@.subrange(0, j + 1) =~= (ts0 + card.chop_types@.subrange(0, j as int)).push(
                    card.chop_types@[j as int],
                ));
            }
            j += 1;
        }
        let mut j: usize = 0;
        while j < card.chop_values.len()
            invariant
                j <= card.chop_values.len(),
                vs@ == vs0 + card.chop_values@.subrange(0, j as int),
            decreases card.chop_values.len() - j,
        {
            vs.push(card.chop_values[j]);
            proof {
                assert(vs0 + card.chop_values@.subrange(0, j + 1) =~= (vs0 + card.chop_values@.subrange(0, j as int)).push(
                    card.chop_values@[j as int],
                ));
            }
            j += 1;
        }
        proof {
            let pre = played@.subrange(0, i + 1);
            assert(pre.drop_last() =~= played@.subrange(0, i as int));
            assert(pre.last() == played@[i as int]);
            assert(card.chop_types@.subrange(0, card.chop_types@.len() as int) =~= card.chop_types@);
            assert(card.chop_values@.subrange(0, card.chop_values@.len() as int) =~= card.chop_values@);
        }
        i += 1;
    }
    assert(played@.subrange(0, played@.len() as int) =~= played@);
    (ts, vs)
}

/// How many chops of type `t` are in `ts`.
fn count_type(ts: &Vec<ChopType>, t: ChopType) -> (r: u64)
    ensures
        r as int == occ(ts@, t),
{
    let mut c: u64 = 0;
    let mut i: usize = 0;
    while i < ts.len()
        invariant
            i <= ts.len(),
            c as int == occ(ts@.subrange(0, i as int), t),
            c <= i,
        decreases ts.len() - i,
    {
        proof {
            assert(ts@.subrange(0, i + 1).drop_last() =~= ts@.subrange(0, i as int));
        }
        if ts[i] == t {
            c += 1;
        }
        i += 1;
    }
    assert(ts@.subrange(0, ts@.len() as int) =~= ts@);
    c
}

/// How many times `x` is in `vs`.
fn count_value(vs: &Vec<u32>, x: u32) -> (r: u64)
    ensures
        r as int == occ(vs@, x),
{
    let mut c: u64 = 0;
    let mut i: usize = 0;
    while i < vs.len()
        invariant
            i <= vs.len(),
            c as int == occ(vs@.subrange(0, i as int), x),
            c <= i,
        decreases vs.len() - i,
    {
        proof {
            assert(vs@.subrange(0, i + 1).drop_last() =~= vs@.subrange(0, i as int));
        }
        if vs[i] == x {
            c += 1;
        }
        i += 1;
    }
    assert(vs@.subrange(0, vs@.len() as int) =~= vs@);
    c
}

/// Whether value `x` is in `vs`.
fn has_value(vs: &Vec<u32>, x: u64) -> (r: bool)
    ensures
        r == in_values(vs@, x as int),
{
    let mut i: usize = 0;
    while i < vs.len()
        invariant
            i <= vs.len(),
            forall|j: int| 0 <= j < i ==> vs@[j] as int != x as int,
        decreases vs.len() - i,
    {
        if vs[i] as u64 == x {
            return true;
        }
        i += 1;
    }
    false
}

/// The longest straight of values in `vs` (see `is_longest_straight`).
fn longest_straight(vs: &Vec<u32>) -> (r: u64)
    ensures
        is_longest_straight(vs@, r as int),
{
    let mut best: u64 = 0;
    let ghost mut wit: int = 0;
    let mut i: usize = 0;
    while i < vs.len()
        invariant
            i <= vs.len(),
            i == 0 ==> best == 0,
            i > 0 ==> best >= 1 && has_run(vs@, wit, best as int),
            best <= u32::MAX as u64 + 1,
            forall|i0: int, k: int| 0 <= i0 < i && #[trigger] has_run(vs@, vs@[i0] as int, k) ==> k <= best,
        decreases vs.len() - i,
    {
        let a = vs[i] as u64;
        let mut k: u64 = 1;
        assert(has_run(vs@, a as int, 1)) by {
            assert(in_values(vs@, a as int));
        }
        while a + k <= u32::MAX as u64 && has_value(vs, a + k)
            invariant
                1 <= k,
                a + k <= u32::MAX as u64 + 1,
                i < vs@.len(),
                a == vs@[i as int],
                has_run(vs@, a as int, k as int),
            decreases u32::MAX as u64 + 1 - (a + k),
        {
            proof {
                assert forall|x: int| a <= x < a + k + 1 implies #[trigger] in_values(vs@, x) by {
                    if x < a + k {
                        assert(has_run(vs@, a as int, k as int));
                        assert(a <= x < a + k);
                    } else {
                        assert(x == a + k);
                        assert(in_values(vs@, (a + k) as int));
                    }
                }
            }
            k += 1;
        }
        assert(!in_values(vs@, a + k)) by {
            if in_values(vs@, a + k) {
                let j = choose|j: int| 0 <= j < vs@.len() && vs@[j] as int == a + k;
                assert(vs@[j] <= u32::MAX);
            }
        }
        assert forall|k2: int| #[trigger] has_run(vs@, vs@[i as int] as int, k2) implies k2 <= k by {
            if k2 > k {
                assert(a <= a + k < a + k2);
            }
        }
        if k > best {
            best = k;
            proof {
                wit = a as int;
            }
        }
        i += 1;
    }
    assert forall|a: int, k: int| #[trigger] has_run(vs@, a, k) implies k <= best by {
        if k > 0 {
            assert(a <= a < a + k);
            assert(in_values(vs@, a));
            let j = choose|j: int| 0 <= j < vs@.len() && vs@[j] as int == a;
            assert(has_run(vs@, vs@[j] as int, k));
        }
    }
    best
}

/// The statistics of the chops played (see `stats_of`).
pub fn chop_stats(played: &Vec<PlayedWoodcuttingCard>) -> (r: ChopStats)
    ensures
        stats_of(played@, r),
{
    let (ts, vs) = flatten_chops(played);
    let kinds: Vec<ChopType> = vec![
        ChopType::LightChop,
        ChopType::HeavyChop,
        ChopType::MediumChop,
        ChopType::PrecisionChop,
        ChopType::SplitChop,
    ];
    assert(kinds@ =~= chop_kinds());
    let ghost cs = type_counts(ts@);
    let mut a: u64 = 0;
    let mut b: u64 = 0;
    let mut d: u64 = 0;
    let mut k: usize = 0;
    assert(cs.subrange(0, 0) =~= Seq::<int>::empty());
    while k < 5
        invariant
            k <= 5,
            kinds@ == chop_kinds(),
            cs == type_counts(ts@),
            (a as int, b as int) == top_two(cs.subrange(0, k as int)),
            d as int == positives(cs.subrange(0, k as int)),
            d <= k,
        decreases 5 - k,
    {
        let c = count_type(&ts, kinds[k]);
        proof {
            assert(cs[k as int] == c as int);
            assert(cs.subrange(0, k + 1).drop_last() =~= cs.subrange(0, k as int));
            assert(cs.subrange(0, k + 1).last() == cs[k as int]);
        }
        if c > a {
            b = a;
            a = c;
        } else if c > b {
            b = c;
        }
        if c > 0 {
            d += 1;
        }
        k += 1;
    }
    assert(cs.subrange(0, 5) =~= cs);
    let mut f: u64 = 0;
    let mut i: usize = 0;
    while i < vs.len()
        invariant
            i <= vs.len(),
            f as int == top_frequency(vs@, i as int),
        decreases vs.len() - i,
    {
        let c = count_value(&vs, vs[i]);
        if c > f {
            f = c;
        }
        i += 1;
    }
    let straight = longest_straight(&vs);
    ChopStats { max_type_count: a, distinct_types: d, second_type_count: b, longest_straight: straight, top_value_freq: f }
}

/// The first rule of `rules` that matches the statistics `st`.
pub fn first_matching_rule(rules: &Vec<WoodcuttingPatternRule>, st: &ChopStats) -> (r: Option<usize>)
    ensures
        is_first_match(rules@, *st, r),
{
    let mut i: usize = 0;
    while i < rules.len()
        invariant
            i <= rules.len(),
            forall|j: int| 0 <= j < i ==> !rule_matches(#[trigger] rules@[j], *st),
        decreases rules.len() - i,
    {
        let r = &rules[i];
        let type_ok = r.min_type_count == 0 || st.max_type_count >= r.min_type_count as u64;
        let straight_ok = r.min_straight == 0 || st.longest_straight >= r.min_straight as u64;
        let distinct_ok = r.min_distinct_types == 0 || st.distinct_types >= r.min_distinct_types as u64;
        let second_ok = r.second_type_min == 0 || st.second_type_count >= r.second_type_min as u64;
        let freq_ok = r.value_freq_min == 0 || st.top_value_freq >= r.value_freq_min as u64;
        if type_ok && straight_ok && distinct_ok && second_ok && freq_ok {
            return Some(i);
        }
        i += 1;
    }
    None
}

/// Score the chops played against the pattern rules (see `scored_pattern`).
pub fn evaluate_best_pattern(played: &Vec<PlayedWoodcuttingCard>, rules: &Vec<WoodcuttingPatternRule>) -> (r: (String, u64))
    ensures
        exists|st: ChopStats| #[trigger] stats_of(played@, st) && scored_pattern(rules@, st, r),
{
    let st = chop_stats(played);
    let m = first_matching_rule(rules, &st);
    let r = match m {
        Some(i) => (rules[i].name.clone(), rules[i].multiplier_percent),
        None => (String::from_str("High Card"), 100),
    };
    assert(is_first_match(rules@, st, m));
    assert(stats_of(played@, st));
    r
}


/// The chops played evaluate to pattern `r` under `rules`.
pub open spec fn pattern_of(played: Seq<PlayedWoodcuttingCard>, rules: Seq<WoodcuttingPatternRule>, r: (String, u64)) -> bool {
    exists|st: ChopStats| #[trigger] stats_of(played, st) && scored_pattern(rules, st, r)
}

/// Why a woodcutting action was refused.
#[derive(Clone, Copy, Debug, PartialEq, Eq, Structural)]
pub enum WoodcuttingError {
    /// The library has no card with this id.
    CardNotFound { card_id: usize },
    /// The card is not a woodcutting encounter.
    NotAWoodcuttingEncounter { card_id: usize },
    /// Only woodcutting cards can be played in a woodcutting encounter.
    NotAWoodcuttingCard { card_id: usize },
    /// No woodcutting encounter is active (or it is already decided).
    NoActiveWoodcutting,
    /// No reward has accumulated: the encounter can only be aborted.
    NoRewards,
    /// The player cannot pay the card's costs.
    Cost(CostError),
}

/// The woodcutting encounter in progress, if any.
pub open spec fn woodcutting_of(enc: Option<EncounterState>) -> Option<WoodcuttingEncounterState> {
    match enc {
        Some(EncounterState::Woodcutting(w)) => Some(w),
        _ => None,
    }
}

/// The effects of a woodcutting card, if it is one.
pub open spec fn woodcutting_effects(k: CardKind) -> Option<Seq<ConcreteEffect>> {
    match k {
        CardKind::Woodcutting { effects } => Some(effects@),
        _ => None,
    }
}

/// The player's woodcutting durability counter: every durability cost paid
/// in a woodcutting encounter strikes it.
pub open spec fn woodcutting_durability_key() -> TokenKey {
    persistent_key(TokenType::WoodcuttingDurability)
}

/// One woodcutting effect of rolled value `v` on the player's balances: a
/// gain adds to the player's counter of its type, insight to the insight
/// counter; a chop changes no token.
pub open spec fn wood_gain_one(p: Balances, v: int, k: Option<CardEffectKindView>) -> Option<Balances> {
    let key = match k {
        Some(CardEffectKindView::GainTokens { token_type, .. }) => Some(persistent_key(token_type)),
        Some(CardEffectKindView::Insight { .. }) => Some(persistent_key(TokenType::Insight)),
        _ => None,
    };
    match key {
        Some(key) => if fits(get0(p.0, key) + v) {
            Some(bset(p, key, (get0(p.0, key) + v) as i64))
        } else {
            None
        },
        None => Some(p),
    }
}

/// The woodcutting effects applied one after the other.
pub open spec fn wood_gains(p: Balances, effects: Seq<ConcreteEffect>, lib: Library) -> Option<Balances>
    decreases effects.len(),
{
    if effects.len() == 0 {
        Some(p)
    } else {
        match wood_gain_one(p, effects[0].rolled_value as int, template_of(lib, effects[0].effect_id)) {
            Some(p1) => wood_gains(p1, effects.drop_first(), lib),
            None => None,
        }
    }
}

/// The chop types of a card's effects, in order.
pub open spec fn wood_types(effects: Seq<ConcreteEffect>, lib: Library) -> Seq<ChopType>
    decreases effects.len(),
{
    if effects.len() == 0 {
        Seq::empty()
    } else {
        let rest = wood_types(effects.drop_first(), lib);
        match template_of(lib, effects[0].effect_id) {
            Some(CardEffectKindView::WoodcuttingChop { chop_type, .. }) => seq![chop_type] + rest,
            _ => rest,
        }
    }
}

/// The chop values of a card's effects, in order (the rolled value taken as
/// a `u32`).
pub open spec fn wood_values(effects: Seq<ConcreteEffect>, lib: Library) -> Seq<u32>
    decreases effects.len(),
{
    if effects.len() == 0 {
        Seq::empty()
    } else {
        let rest = wood_values(effects.drop_first(), lib);
        match template_of(lib, effects[0].effect_id) {
            Some(CardEffectKindView::WoodcuttingChop { .. }) => seq![effects[0].rolled_value as u32] + rest,
            _ => rest,
        }
    }
}

/// Base reward `a` scaled by `pct` hundredths, rounded half away from zero.
pub open spec fn scaled(a: int, pct: int) -> int {
    let x = a * pct;
    if x >= 0 {
        (x + 50) / 100
    } else {
        -((-x + 50) / 100)
    }
}

/// Each reward `(token, base)` adds `base` scaled by `pct` hundredths to the
/// player's token.
pub open spec fn grant_scaled(p: Balances, rs: Seq<(Token, i64)>, pct: int) -> Option<Balances>
    decreases rs.len(),
{
    if rs.len() == 0 {
        Some(p)
    } else {
        match grant_scaled(p, rs.drop_last(), pct) {
            None => None,
            Some(p1) => {
                let k = rs.last().0@;
                let inc = scaled(rs.last().1 as int, pct);
                let x = get0(p1.0, k);
                if fits(inc) && fits(x + inc) {
                    Some(bset(p1, k, (x + inc) as i64))
                } else {
                    None
                }
            },
        }
    }
}

/// Granting the rewards fits in range whatever pattern is scored.
pub open spec fn grants_fit(p: Balances, rs: Seq<(Token, i64)>, rules: Seq<WoodcuttingPatternRule>) -> bool {
    &&& grant_scaled(p, rs, 100) is Some
    &&& forall|i: int| 0 <= i < rules.len() ==> grant_scaled(p, rs, #[trigger] rules[i].multiplier_percent as int) is Some
}

proof fn lemma_grant_scaled_prefix(p: Balances, s: Seq<(Token, i64)>, a: int, i: int)
    requires
        0 <= i <= s.len(),
        grant_scaled(p, s, a) is Some,
    ensures
        grant_scaled(p, s.subrange(0, i), a) is Some,
    decreases s.len(),
{
    if i == s.len() {
        assert(s.subrange(0, i) =~= s);
    } else {
        lemma_grant_scaled_prefix(p, s.drop_last(), a, i);
        assert(s.drop_last().subrange(0, i) =~= s.subrange(0, i));
    }
}

/// Base reward `a` scaled by `pct` hundredths (see `scaled`).
fn scale_reward(a: i64, pct: u64) -> (r: i128)
    ensures
        r == scaled(a as int, pct as int),
{
    proof {
        if a >= 0 {
            assert(0 <= a * pct <= 0x7fff_ffff_ffff_ffff * 0xffff_ffff_ffff_ffff) by (nonlinear_arith)
                requires
                    0 <= a <= 0x7fff_ffff_ffff_ffff,
                    0 <= pct <= 0xffff_ffff_ffff_ffff,
            ;
        } else {
            assert(-0x8000_0000_0000_0000 * 0xffff_ffff_ffff_ffff <= a * pct <= 0) by (nonlinear_arith)
                requires
                    -0x8000_0000_0000_0000 <= a < 0,
                    0 <= pct <= 0xffff_ffff_ffff_ffff,
            ;
        }
    }
    let x: i128 = a as i128 * pct as i128;
    if x >= 0 {
        ((x + 50) / 100) as i128
    } else {
        let q = (-x + 50) / 100;
        -q
    }
}

/// Grant each reward of `rewards`, scaled by `pct` hundredths, to the balances `p`.
fn grant_scaled_exec(p: &mut TokenMap, rewards: &TokenMap, pct: u64)
    requires
        grant_scaled(bal(*old(p)), rewards.spec_entries(), pct as int) is Some,
    ensures
        bal(*final(p)) == grant_scaled(bal(*old(p)), rewards.spec_entries(), pct as int)->Some_0,
{
    let ghost b0 = bal(*p);
    let ghost rs = rewards.spec_entries();
    let n = rewards.len();
    let mut i: usize = 0;
    assert(rs.subrange(0, 0) =~= Seq::<(Token, i64)>::empty());
    while i < n
        invariant
            i <= n,
            n == rs.len(),
            rs == rewards.spec_entries(),
            grant_scaled(b0, rs, pct as int) is Some,
            grant_scaled(b0, rs.subrange(0, i as int), pct as int) == Some(bal(*p)),
        decreases n - i,
    {
        proof {
            lemma_grant_scaled_prefix(b0, rs, pct as int, i + 1);
            assert(rs.subrange(0, i + 1).drop_last() =~= rs.subrange(0, i as int));
            crate::library::costs::lemma_bal_facts(*p);
        }
        let (t, base) = rewards.entry_at(i);
        let inc = scale_reward(base, pct);
        let x = p.value(&t);
        p.insert(t, (x as i128 + inc) as i64);
        i += 1;
    }
    assert(rs.subrange(0, n as int) =~= rs);
}


/// A woodcutting encounter started from encounter card `id` with definition
/// `def`: round one, undecided, nothing played, no pattern scored yet, the
/// definition's play count and base rewards.
pub open spec fn woodcutting_started(st: WoodcuttingEncounterState, id: usize, def: crate::library::types::WoodcuttingDef) -> bool {
    &&& st.round == 1
    &&& st.encounter_card_id == id
    &&& st.outcome == EncounterOutcome::Undecided
    &&& st.played_cards@.len() == 0
    &&& st.max_plays == def.max_plays
    &&& st.pattern_name is None
    &&& st.pattern_multiplier_percent is None
    &&& forall|k: TokenKey| #[trigger] st.base_rewards.spec_get(k) == def.base_rewards.spec_get(k)
}

/// The encounter ends at `t` with outcome `o`, the player's balances `p`.
pub open spec fn woodcutting_closed(s: GameState, t: GameState, o: EncounterOutcome, p: Balances) -> bool {
    &&& t.current_encounter is None
    &&& t.encounter_phase == EncounterPhase::Scouting
    &&& t.encounter_results@ == s.encounter_results@.push(o)
    &&& t.last_encounter_result == Some(o)
    &&& bal(t.token_balances) == p
    &&& t.game_rules == s.game_rules
}

/// A woodcutting card whose pre-play costs (those not paid in durability) the
/// player cannot pay from balances `b`; a card without such costs is always
/// playable.
pub open spec fn woodcutting_card_unpayable(c: LibraryCard, b: Balances) -> bool {
    match woodcutting_effects(c.kind) {
        Some(effs) => {
            let pre = filter_durability(gathering_costs(effs), false);
            pre.len() > 0 && !all_affordable(pre, b)
        },
        None => false,
    }
}

/// A woodcutting card with a copy in hand.
pub open spec fn is_woodcutting_hand_card(c: LibraryCard) -> bool {
    c.counts.hand > 0 && woodcutting_effects(c.kind) is Some
}

/// The player holds woodcutting cards in hand and can pay for none of them.
pub open spec fn all_woodcutting_unpayable(cards: Seq<LibraryCard>, b: Balances) -> bool {
    &&& exists|i: int| 0 <= i < cards.len() && is_woodcutting_hand_card(#[trigger] cards[i])
    &&& forall|i: int| 0 <= i < cards.len() && is_woodcutting_hand_card(#[trigger] cards[i]) ==> woodcutting_card_unpayable(cards[i], b)
}

/// Why resolving woodcutting card `id` is refused, if it is.
pub open spec fn woodcutting_play_error(s: GameState, id: usize) -> Option<WoodcuttingError> {
    if id >= s.library.cards@.len() {
        Some(WoodcuttingError::CardNotFound { card_id: id })
    } else if woodcutting_effects(s.library.cards@[id as int].kind) is None {
        Some(WoodcuttingError::NotAWoodcuttingCard { card_id: id })
    } else if woodcutting_of(s.current_encounter) is None {
        Some(WoodcuttingError::NoActiveWoodcutting)
    } else {
        match preview_result(
            filter_durability(gathering_costs(woodcutting_effects(s.library.cards@[id as int].kind)->Some_0), false),
            s.token_balances,
        ) {
            Err(e) => Some(WoodcuttingError::Cost(e)),
            Ok(_) => None,
        }
    }
}

/// The balances after paying woodcutting card `id`'s pre-play costs,
/// applying its effects, then paying its durability costs; and whether the
/// durability ran out.
pub open spec fn woodcutting_paid(s: GameState, id: usize) -> Option<(Balances, bool)> {
    let effs = woodcutting_effects(s.library.cards@[id as int].kind)->Some_0;
    let costs = gathering_costs(effs);
    match wood_gains(deduct_b(bal(s.token_balances), filter_durability(costs, false)), effs, s.library) {
        Some(p1) => durability_after(p1, filter_durability(costs, true), woodcutting_durability_key()),
        None => None,
    }
}

/// `pl` is what was played in `st`, then card `id` with the chops of its
/// effects.
pub open spec fn played_after(st: WoodcuttingEncounterState, pl: Seq<PlayedWoodcuttingCard>, id: usize, effs: Seq<ConcreteEffect>, lib: Library) -> bool {
    &&& pl.len() == st.played_cards@.len() + 1
    &&& pl.drop_last() == st.played_cards@
    &&& pl.last().card_id == id
    &&& pl.last().chop_types@ == wood_types(effs, lib)
    &&& pl.last().chop_values@ == wood_values(effs, lib)
}

/// What playing woodcutting card `id` needs to stay in range: its costs,
/// effects and durability, the round and play counters, and the rewards
/// whatever pattern is scored.
pub open spec fn woodcutting_play_fits(s: GameState, id: usize) -> bool {
    let effs = woodcutting_effects(s.library.cards@[id as int].kind)->Some_0;
    let st = woodcutting_of(s.current_encounter)->Some_0;
    &&& deduct_fits(filter_durability(gathering_costs(effs), false), s.token_balances)
    &&& woodcutting_paid(s, id) matches Some((p2, dep)) && {
        &&& totals_fit(p2)
        &&& !dep ==> {
            &&& st.round < u64::MAX
            &&& st.played_cards@.len() < u32::MAX
            &&& grants_fit(p2, st.base_rewards.spec_entries(), s.library.woodcutting_patterns@)
        }
    }
}

/// What playing woodcutting card `id` in state `s` gives, `t`, with `cards`
/// the library before the player's draw. Its pre-play costs are paid, its
/// effects apply (gains and insight to the player, chops to the encounter),
/// then its durability costs are paid: where the durability runs out, the
/// encounter is lost. Else the card and its chops are recorded and the player
/// draws a woodcutting card; with every play used the chops are scored (see
/// `pattern_of`) and the base rewards, scaled by the pattern, are granted:
/// the encounter is won. Else it is lost where no woodcutting card in hand
/// can be paid for, and goes on otherwise.
pub open spec fn woodcutting_played(s: GameState, t: GameState, id: usize, cards: Seq<LibraryCard>) -> bool {
    let effs = woodcutting_effects(s.library.cards@[id as int].kind)->Some_0;
    let st = woodcutting_of(s.current_encounter)->Some_0;
    let (p2, dep) = woodcutting_paid(s, id)->Some_0;
    &&& t.game_rules == s.game_rules
    &&& if dep {
        woodcutting_closed(s, t, EncounterOutcome::PlayerLost, p2) && t.library.cards@ == cards
    } else {
        &&& draw_result(cards, t.library.cards@, CardClass::Woodcutting, 1)
        &&& if st.played_cards@.len() + 1 >= st.max_plays {
            exists|pl: Seq<PlayedWoodcuttingCard>, r: (String, u64)|
                #![trigger pattern_of(pl, s.library.woodcutting_patterns@, r)]
                played_after(st, pl, id, effs, s.library) && pattern_of(pl, s.library.woodcutting_patterns@, r)
                && woodcutting_closed(s, t, EncounterOutcome::PlayerWon, grant_scaled(p2, st.base_rewards.spec_entries(), r.1 as int)->Some_0)
        } else if all_woodcutting_unpayable(t.library.cards@, p2) {
            woodcutting_closed(s, t, EncounterOutcome::PlayerLost, p2)
        } else {
            &&& woodcutting_of(t.current_encounter) matches Some(st2) && {
                &&& st2.round == st.round + 1
                &&& played_after(st, st2.played_cards@, id, effs, s.library)
                &&& st2.encounter_card_id == st.encounter_card_id
                &&& st2.outcome == st.outcome
                &&& st2.max_plays == st.max_plays
                &&& st2.pattern_name == st.pattern_name
                &&& st2.pattern_multiplier_percent == st.pattern_multiplier_percent
                &&& st2.base_rewards == st.base_rewards
            }
            &&& bal(t.token_balances) == p2
            &&& t.encounter_phase == s.encounter_phase
            &&& t.encounter_results@ == s.encounter_results@
            &&& t.last_encounter_result == s.last_encounter_result
        }
    }
}

/// No base reward of the encounter is positive.
pub open spec fn no_rewards(st: WoodcuttingEncounterState) -> bool {
    forall|i: int| 0 <= i < st.base_rewards.spec_entries().len() ==> #[trigger] st.base_rewards.spec_entries()[i].1 <= 0
}

impl GameState {
    /// Initialize a woodcutting encounter from a library encounter card (see
    /// `woodcutting_started`).
    pub fn start_woodcutting_encounter(&mut self, encounter_card_id: usize, _rng: &mut Lcg64Xsh32) -> (r: Result<(), WoodcuttingError>)
        ensures
            encounter_card_id >= old(self).library.cards@.len() ==> r == Err::<(), WoodcuttingError>(
                WoodcuttingError::CardNotFound { card_id: encounter_card_id },
            ) && *final(self) == *old(self),
            encounter_card_id < old(self).library.cards@.len() ==> match old(self).library.cards@[encounter_card_id as int].kind {
                CardKind::Encounter { encounter_kind: EncounterKind::Woodcutting { woodcutting_def } } => {
                    &&& r is Ok
                    &&& woodcutting_of(final(self).current_encounter) matches Some(st) && woodcutting_started(
                        st,
                        encounter_card_id,
                        woodcutting_def,
                    )
                    &&& final(self).encounter_phase == EncounterPhase::InEncounter
                    &&& final(self).library == old(self).library
                    &&& final(self).token_balances == old(self).token_balances
                    &&& final(self).encounter_results@ == old(self).encounter_results@
                    &&& final(self).last_encounter_result == old(self).last_encounter_result
                    &&& final(self).game_rules == old(self).game_rules
                },
                _ => r == Err::<(), WoodcuttingError>(WoodcuttingError::NotAWoodcuttingEncounter { card_id: encounter_card_id })
                    && *final(self) == *old(self),
            },
    {
        if encounter_card_id >= self.library.cards.len() {
            return Err(WoodcuttingError::CardNotFound { card_id: encounter_card_id });
        }
        let (max_plays, base_rewards) = match &self.library.cards[encounter_card_id].kind {
            CardKind::Encounter { encounter_kind: EncounterKind::Woodcutting { woodcutting_def } } => (
                woodcutting_def.max_plays,
                woodcutting_def.base_rewards.duplicate(),
            ),
            _ => {
                return Err(WoodcuttingError::NotAWoodcuttingEncounter { card_id: encounter_card_id });
            },
        };
        let state = WoodcuttingEncounterState {
            round: 1,
            encounter_card_id,
            outcome: EncounterOutcome::Undecided,
            played_cards: Vec::new(),
            max_plays,
            pattern_name: None,
            pattern_multiplier_percent: None,
            base_rewards,
        };
        self.current_encounter = Some(EncounterState::Woodcutting(state));
        self.encounter_phase = EncounterPhase::InEncounter;
        Ok(())
    }

    /// Close the woodcutting encounter with this outcome: it is recorded and
    /// scouting follows.
    fn finish_woodcutting_encounter(&mut self, is_win: bool)
        ensures
            woodcutting_closed(*old(self), *final(self), if is_win { EncounterOutcome::PlayerWon } else { EncounterOutcome::PlayerLost },
                bal(old(self).token_balances)),
            final(self).library == old(self).library,
    {
        let outcome = if is_win { EncounterOutcome::PlayerWon } else { EncounterOutcome::PlayerLost };
        self.last_encounter_result = Some(outcome);
        self.encounter_results.push(outcome);
        self.current_encounter = None;
        self.encounter_phase = EncounterPhase::Scouting;
        proof {
            assert(bal(self.token_balances) == bal(old(self).token_balances));
        }
    }

    /// Whether the player holds woodcutting cards in hand and can pay the
    /// costs of none of them (a card without costs is always playable).
    fn all_woodcutting_hand_cards_unpayable(&self) -> (r: bool)
        requires
            balances_fit(self.token_balances),
        ensures
            r == all_woodcutting_unpayable(self.library.cards@, bal(self.token_balances)),
    {
        let cards = &self.library.cards;
        let mut any = false;
        let mut i: usize = 0;
        while i < cards.len()
            invariant
                i <= cards.len(),
                cards@ == self.library.cards@,
                balances_fit(self.token_balances),
                any == exists|j: int| 0 <= j < i && is_woodcutting_hand_card(#[trigger] cards@[j]),
                forall|j: int| 0 <= j < i && is_woodcutting_hand_card(#[trigger] cards@[j])
                    ==> woodcutting_card_unpayable(cards@[j], bal(self.token_balances)),
            decreases cards.len() - i,
        {
            let card = &cards[i];
            if card.counts.hand > 0 {
                if let CardKind::Woodcutting { effects } = &card.kind {
                    any = true;
                    let all_costs = extract_gathering_costs_from_effects(effects.as_slice());
                    let (costs, _) = split_token_amounts(all_costs.as_slice());
                    if costs.len() == 0 {
                        proof {
                            assert(is_woodcutting_hand_card(cards@[i as int]));
                        }
                        return false;
                    }
                    let ok = preview_gathering_costs(costs.as_slice(), &self.token_balances).is_ok();
                    proof {
                        crate::library::costs::lemma_preview_ok(costs@, self.token_balances);
                    }
                    if ok {
                        proof {
                            assert(is_woodcutting_hand_card(cards@[i as int]));
                        }
                        return false;
                    }
                }
            }
            i += 1;
        }
        any
    }
}


fn apply_wood_gain(p: &mut TokenMap, effect: &ConcreteEffect, library: &Library)
    requires
        wood_gain_one(bal(*old(p)), effect.rolled_value as int, template_of(*library, effect.effect_id)) is Some,
    ensures
        bal(*final(p)) == wood_gain_one(bal(*old(p)), effect.rolled_value as int, template_of(*library, effect.effect_id))->Some_0,
{
    proof {
        crate::library::costs::lemma_bal_facts(*p);
    }
    match library.effect_kind(effect.effect_id) {
        Some(CardEffectKind::GainTokens { token_type, .. }) => {
            let key = Token::persistent(*token_type);
            let x = p.value(&key);
            p.insert(key, x + effect.rolled_value);
        },
        Some(CardEffectKind::Insight { .. }) => {
            let x = p.value(&Token::persistent(TokenType::Insight));
            p.insert(Token::persistent(TokenType::Insight), x + effect.rolled_value);
        },
        _ => {},
    }
}

/// The chop type of an effect, where it is a chop.
fn chop_of(effect: &ConcreteEffect, library: &Library) -> (r: Option<ChopType>)
    ensures
        match template_of(*library, effect.effect_id) {
            Some(CardEffectKindView::WoodcuttingChop { chop_type, .. }) => r == Some(chop_type),
            _ => r is None,
        },
{
    match library.effect_kind(effect.effect_id) {
        Some(CardEffectKind::WoodcuttingChop { chop_type, .. }) => Some(*chop_type),
        _ => None,
    }
}

proof fn lemma_chops_step(effects: Seq<ConcreteEffect>, lib: Library, i: int)
    requires
        0 <= i < effects.len(),
    ensures
        wood_types(effects.subrange(i, effects.len() as int), lib) == (match template_of(lib, effects[i].effect_id) {
            Some(CardEffectKindView::WoodcuttingChop { chop_type, .. }) => seq![chop_type],
            _ => Seq::<ChopType>::empty(),
        }) + wood_types(effects.subrange(i + 1, effects.len() as int), lib),
        wood_values(effects.subrange(i, effects.len() as int), lib) == (match template_of(lib, effects[i].effect_id) {
            Some(CardEffectKindView::WoodcuttingChop { .. }) => seq![effects[i].rolled_value as u32],
            _ => Seq::<u32>::empty(),
        }) + wood_values(effects.subrange(i + 1, effects.len() as int), lib),
{
    let s = effects.subrange(i, effects.len() as int);
    assert(s[0] == effects[i]);
    assert(s.drop_first() =~= effects.subrange(i + 1, effects.len() as int));
    let rt = wood_types(effects.subrange(i + 1, effects.len() as int), lib);
    let rv = wood_values(effects.subrange(i + 1, effects.len() as int), lib);
    assert(Seq::<ChopType>::empty() + rt =~= rt);
    assert(Seq::<u32>::empty() + rv =~= rv);
}


/// Whether some base reward is positive.
fn any_positive_reward(rewards: &TokenMap) -> (r: bool)
    ensures
        r == exists|i: int| 0 <= i < rewards.spec_entries().len() && #[trigger] rewards.spec_entries()[i].1 > 0,
{
    let n = rewards.len();
    let mut i: usize = 0;
    while i < n
        invariant
            i <= n,
            n == rewards.spec_entries().len(),
            forall|j: int| 0 <= j < i ==> #[trigger] rewards.spec_entries()[j].1 <= 0,
        decreases n - i,
    {
        let (_, v) = rewards.entry_at(i);
        if v > 0 {
            return true;
        }
        i += 1;
    }
    false
}

/// The rewards granted under a scored pattern fit in range.
proof fn lemma_scored_grant_fits(p: Balances, rs: Seq<(Token, i64)>, pl: Seq<PlayedWoodcuttingCard>, rules: Seq<WoodcuttingPatternRule>, r: (String, u64))
    requires
        grants_fit(p, rs, rules),
        pattern_of(pl, rules, r),
    ensures
        grant_scaled(p, rs, r.1 as int) is Some,
{
    let cst = choose|cst: ChopStats| #[trigger] stats_of(pl, cst) && scored_pattern(rules, cst, r);
    let m = choose|m: Option<usize>| #[trigger] is_first_match(rules, cst, m) && match m {
        Some(i) => r.0@ == rules[i as int].name@ && r.1 == rules[i as int].multiplier_percent,
        None => r.0@ == "High Card"@ && r.1 == 100,
    };
    if let Some(i) = m {
        assert(grant_scaled(p, rs, rules[i as int].multiplier_percent as int) is Some);
    }
}

impl GameState {
    /// Conclude a woodcutting encounter: where a base reward is positive, the
    /// chops played (if any) are scored, the base rewards scaled by the
    /// pattern are granted and the encounter is won.
    pub fn conclude_woodcutting_encounter(&mut self) -> (r: Result<(), WoodcuttingError>)
        requires
            woodcutting_of(old(self).current_encounter) matches Some(st) ==> grants_fit(
                bal(old(self).token_balances),
                st.base_rewards.spec_entries(),
                old(self).library.woodcutting_patterns@,
            ),
        ensures
            match woodcutting_of(old(self).current_encounter) {
                Some(st) if st.outcome == EncounterOutcome::Undecided => if no_rewards(st) {
                    r == Err::<(), WoodcuttingError>(WoodcuttingError::NoRewards) && *final(self) == *old(self)
                } else {
                    let p = bal(old(self).token_balances);
                    let rs = st.base_rewards.spec_entries();
                    &&& r is Ok
                    &&& final(self).library == old(self).library
                    &&& if st.played_cards@.len() > 0 {
                        exists|rr: (String, u64)| #[trigger] pattern_of(st.played_cards@, old(self).library.woodcutting_patterns@, rr)
                            && woodcutting_closed(*old(self), *final(self), EncounterOutcome::PlayerWon, grant_scaled(p, rs, rr.1 as int)->Some_0)
                    } else {
                        woodcutting_closed(*old(self), *final(self), EncounterOutcome::PlayerWon, p)
                    }
                },
                _ => r == Err::<(), WoodcuttingError>(WoodcuttingError::NoActiveWoodcutting) && *final(self) == *old(self),
            },
    {
        let ghost s0 = *self;
        match &self.current_encounter {
            Some(EncounterState::Woodcutting(w)) => {
                if w.outcome != EncounterOutcome::Undecided {
                    return Err(WoodcuttingError::NoActiveWoodcutting);
                }
                if !any_positive_reward(&w.base_rewards) {
                    return Err(WoodcuttingError::NoRewards);
                }
            },
            _ => {
                return Err(WoodcuttingError::NoActiveWoodcutting);
            },
        }
        let mut st = match self.current_encounter.take() {
            Some(EncounterState::Woodcutting(st)) => st,
            _ => {
                proof {
                    assert(false);
                }
                return Err(WoodcuttingError::NoActiveWoodcutting);
            },
        };
        if st.played_cards.len() > 0 {
            let (name, pct) = evaluate_best_pattern(&st.played_cards, &self.library.woodcutting_patterns);
            let ghost rr = (name, pct);
            proof {
                assert(pattern_of(st.played_cards@, s0.library.woodcutting_patterns@, rr));
                lemma_scored_grant_fits(bal(s0.token_balances), st.base_rewards.spec_entries(), st.played_cards@,
                    s0.library.woodcutting_patterns@, rr);
            }
            st.pattern_name = Some(name);
            st.pattern_multiplier_percent = Some(pct);
            grant_scaled_exec(&mut self.token_balances, &st.base_rewards, pct);
            self.current_encounter = Some(EncounterState::Woodcutting(st));
            let ghost s1 = *self;
            self.finish_woodcutting_encounter(true);
            proof {
                assert(woodcutting_closed(s0, *self, EncounterOutcome::PlayerWon, bal(s1.token_balances)));
                assert(pattern_of(s0.current_encounter->Some_0->Woodcutting_0.played_cards@, s0.library.woodcutting_patterns@, rr));
            }
        } else {
            self.current_encounter = Some(EncounterState::Woodcutting(st));
            self.finish_woodcutting_encounter(true);
        }
        Ok(())
    }

    /// Resolve a player woodcutting card against the current woodcutting
    /// encounter (see `woodcutting_played`).
    pub fn resolve_player_woodcutting_card(&mut self, card_id: usize, rng: &mut Lcg64Xsh32) -> (r: Result<(), WoodcuttingError>)
        requires
            balances_fit(old(self).token_balances),
            counts_fit(old(self).library.cards@),
            class_hand(old(self).library.cards@, CardClass::Woodcutting) < u32::MAX,
            woodcutting_play_error(*old(self), card_id) is None ==> woodcutting_play_fits(*old(self), card_id),
        ensures
            woodcutting_play_error(*old(self), card_id) matches Some(e) ==> r == Err::<(), WoodcuttingError>(e) && *final(self) == *old(self),
            woodcutting_play_error(*old(self), card_id) is None ==> r is Ok
                && woodcutting_played(*old(self), *final(self), card_id, old(self).library.cards@),
    {
        let ghost s0 = *self;
        if card_id >= self.library.cards.len() {
            return Err(WoodcuttingError::CardNotFound { card_id });
        }
        let effects = match &self.library.cards[card_id].kind {
            CardKind::Woodcutting { effects } => effects,
            _ => {
                return Err(WoodcuttingError::NotAWoodcuttingCard { card_id });
            },
        };
        match &self.current_encounter {
            Some(EncounterState::Woodcutting(_)) => {},
            _ => {
                return Err(WoodcuttingError::NoActiveWoodcutting);
            },
        }
        let costs = extract_gathering_costs_from_effects(effects.as_slice());
        let (pre, post) = split_token_amounts(costs.as_slice());
        match check_and_deduct_gathering_costs(pre.as_slice(), &mut self.token_balances) {
            Err(e) => {
                return Err(WoodcuttingError::Cost(e));
            },
            Ok(()) => {},
        }
        let ghost p0 = bal(self.token_balances);
        let ghost gains = wood_gains(p0, effects@, s0.library);
        let mut types: Vec<ChopType> = Vec::new();
        let mut values: Vec<u32> = Vec::new();
        let n = effects.len();
        let mut i: usize = 0;
        assert(effects@.subrange(0, n as int) =~= effects@);
        while i < n
            invariant
                i <= n,
                n == effects@.len(),
                woodcutting_effects(s0.library.cards@[card_id as int].kind) == Some(effects@),
                gains is Some,
                gains == wood_gains(bal(self.token_balances), effects@.subrange(i as int, n as int), self.library),
                wood_types(effects@, s0.library) == types@ + wood_types(effects@.subrange(i as int, n as int), s0.library),
                wood_values(effects@, s0.library) == values@ + wood_values(effects@.subrange(i as int, n as int), s0.library),
                self.library == s0.library,
                self.game_rules == s0.game_rules,
                self.encounter_phase == s0.encounter_phase,
                self.encounter_results == s0.encounter_results,
                self.last_encounter_result == s0.last_encounter_result,
                self.current_encounter == s0.current_encounter,
            decreases n - i,
        {
            let ghost rest = effects@.subrange(i as int, n as int);
            proof {
                assert(rest[0] == effects@[i as int]);
                assert(rest.drop_first() =~= effects@.subrange(i + 1, n as int));
                lemma_chops_step(effects@, s0.library, i as int);
            }
            apply_wood_gain(&mut self.token_balances, &effects[i], &self.library);
            match chop_of(&effects[i], &self.library) {
                Some(t) => {
                    types.push(t);
                    values.push(effects[i].rolled_value as u32);
                    proof {
                        assert(types@ + wood_types(effects@.subrange(i + 1, n as int), s0.library)
                            =~= types@.drop_last() + (seq![t] + wood_types(effects@.subrange(i + 1, n as int), s0.library)));
                        assert(values@ + wood_values(effects@.subrange(i + 1, n as int), s0.library)
                            =~= values@.drop_last() + (seq![values@.last()] + wood_values(effects@.subrange(i + 1, n as int), s0.library)));
                    }
                },
                None => {},
            }
            i += 1;
        }
        proof {
            assert(effects@.subrange(n as int, n as int) =~= Seq::<ConcreteEffect>::empty());
            assert(types@ + Seq::<ChopType>::empty() =~= types@);
            assert(values@ + Seq::<u32>::empty() =~= values@);
        }
        let depleted = pay_durability(&mut self.token_balances, &post, &Token::persistent(TokenType::WoodcuttingDurability));
        let ghost paid = woodcutting_paid(s0, card_id)->Some_0;
        assert(bal(self.token_balances) == paid.0 && depleted == paid.1);
        proof {
            crate::library::costs::lemma_bal_facts(self.token_balances);
        }
        if depleted {
            self.finish_woodcutting_encounter(false);
            return Ok(());
        }
        let ghost st0 = woodcutting_of(self.current_encounter)->Some_0;
        let mut st = match self.current_encounter.take() {
            Some(EncounterState::Woodcutting(st)) => st,
            _ => {
                proof {
                    assert(false);
                }
                return Err(WoodcuttingError::NoActiveWoodcutting);
            },
        };
        st.played_cards.push(PlayedWoodcuttingCard { card_id, chop_types: types, chop_values: values });
        st.round = st.round + 1;
        proof {
            assert(st.played_cards@.drop_last() =~= st0.played_cards@);
        }
        let all_played = st.played_cards.len() as u64 >= st.max_plays as u64;
        let scored = if all_played {
            Some(evaluate_best_pattern(&st.played_cards, &self.library.woodcutting_patterns))
        } else {
            None
        };
        let ghost pl = st.played_cards@;
        self.current_encounter = Some(EncounterState::Woodcutting(st));
        self.draw_player_cards_of_kind(1, CardClass::Woodcutting, rng, Some(TokenType::WoodcuttingMaxHand));
        match scored {
            Some((name, pct)) => {
                let ghost rr = (name, pct);
                let mut st = match self.current_encounter.take() {
                    Some(EncounterState::Woodcutting(st)) => st,
                    _ => {
                        proof {
                            assert(false);
                        }
                        return Ok(());
                    },
                };
                proof {
                    assert(pattern_of(pl, s0.library.woodcutting_patterns@, rr));
                    lemma_scored_grant_fits(paid.0, st.base_rewards.spec_entries(), pl, s0.library.woodcutting_patterns@, rr);
                }
                st.pattern_name = Some(name);
                st.pattern_multiplier_percent = Some(pct);
                grant_scaled_exec(&mut self.token_balances, &st.base_rewards, pct);
                self.current_encounter = Some(EncounterState::Woodcutting(st));
                let ghost s1 = *self;
                self.finish_woodcutting_encounter(true);
                proof {
                    assert(woodcutting_closed(s0, *self, EncounterOutcome::PlayerWon, bal(s1.token_balances)));
                    assert(played_after(st0, pl, card_id, effects@, s0.library));
                }
            },
            None => {
                if self.all_woodcutting_hand_cards_unpayable() {
                    self.finish_woodcutting_encounter(false);
                }
            },
        }
        Ok(())
    }
}


proof fn lemma_wood_cong(p: Balances, effs: Seq<ConcreteEffect>, a: Library, b: Library)
    requires
        crate::library::disciplines::combat::same_templates(a, b),
    ensures
        wood_gains(p, effs, a) == wood_gains(p, effs, b),
        wood_types(effs, a) == wood_types(effs, b),
        wood_values(effs, a) == wood_values(effs, b),
    decreases effs.len(),
{
    if effs.len() > 0 {
        assert(template_of(a, effs[0].effect_id) == template_of(b, effs[0].effect_id));
        lemma_wood_cong(p, effs.drop_first(), a, b);
        match wood_gain_one(p, effs[0].rolled_value as int, template_of(a, effs[0].effect_id)) {
            Some(p1) => lemma_wood_cong(p1, effs.drop_first(), a, b),
            None => {},
        }
    }
}

/// Moving copies of cards between piles changes neither whether a
/// woodcutting card's play is refused nor what it needs to stay in range.
pub proof fn lemma_woodcutting_play_counts_moved(s: GameState, t: GameState, id: usize)
    requires
        crate::library::game_state::only_counts_moved(s.library.cards@, t.library.cards@),
        t.library.woodcutting_patterns == s.library.woodcutting_patterns,
        t.token_balances == s.token_balances,
        t.current_encounter == s.current_encounter,
    ensures
        woodcutting_play_error(t, id) == woodcutting_play_error(s, id),
        woodcutting_play_error(s, id) is None ==> woodcutting_play_fits(t, id) == woodcutting_play_fits(s, id),
{
    crate::library::disciplines::combat::lemma_same_templates(s.library, t.library);
    if id < s.library.cards@.len() {
        assert(t.library.cards@[id as int].kind == s.library.cards@[id as int].kind);
    }
    if woodcutting_play_error(s, id) is None {
        let effs = woodcutting_effects(s.library.cards@[id as int].kind)->Some_0;
        let costs = gathering_costs(effs);
        lemma_wood_cong(deduct_b(bal(s.token_balances), filter_durability(costs, false)), effs, s.library, t.library);
    }
}

/// A play resolved after its card went to the discard is the play of the
/// state before, from the library with the card in the discard.
pub proof fn lemma_woodcutting_played_counts_moved(s: GameState, s1: GameState, t: GameState, id: usize)
    requires
        crate::library::game_state::only_counts_moved(s.library.cards@, s1.library.cards@),
        s1.library.woodcutting_patterns == s.library.woodcutting_patterns,
        s1.token_balances == s.token_balances,
        s1.current_encounter == s.current_encounter,
        s1.game_rules == s.game_rules,
        s1.encounter_results == s.encounter_results,
        s1.encounter_phase == s.encounter_phase,
        s1.last_encounter_result == s.last_encounter_result,
        woodcutting_play_error(s, id) is None,
        woodcutting_played(s1, t, id, s1.library.cards@),
    ensures
        woodcutting_played(s, t, id, s1.library.cards@),
{
    lemma_woodcutting_play_counts_moved(s, s1, id);
    crate::library::disciplines::combat::lemma_same_templates(s.library, s1.library);
    assert(s1.library.cards@[id as int].kind == s.library.cards@[id as int].kind);
    let effs = woodcutting_effects(s.library.cards@[id as int].kind)->Some_0;
    let costs = gathering_costs(effs);
    lemma_wood_cong(deduct_b(bal(s.token_balances), filter_durability(costs, false)), effs, s.library, s1.library);
    let st = woodcutting_of(s.current_encounter)->Some_0;
    let (p2, dep) = woodcutting_paid(s, id)->Some_0;
    if !dep && st.played_cards@.len() + 1 >= st.max_plays {
        let (pl, r) = choose|pl: Seq<PlayedWoodcuttingCard>, r: (String, u64)|
            #![trigger pattern_of(pl, s1.library.woodcutting_patterns@, r)]
            played_after(st, pl, id, effs, s1.library) && pattern_of(pl, s1.library.woodcutting_patterns@, r)
            && woodcutting_closed(s1, t, EncounterOutcome::PlayerWon, grant_scaled(p2, st.base_rewards.spec_entries(), r.1 as int)->Some_0);
        assert(played_after(st, pl, id, effs, s.library));
        assert(pattern_of(pl, s.library.woodcutting_patterns@, r));
    }
}


/// Scoring at one (a high card, or a rule whose multiplier is a hundred
/// hundredths) grants each base reward unchanged; the rounding never moves a
/// reward by more than half a unit.
pub proof fn law_scaling_at_one_keeps_the_reward(a: int, pct: int)
    requires
        pct >= 0,
    ensures
        scaled(a, 100) == a,
        a >= 0 ==> 100 * scaled(a, pct) - 50 <= a * pct && a * pct < 100 * scaled(a, pct) + 50,
        a < 0 ==> 100 * scaled(a, pct) - 50 < a * pct && a * pct <= 100 * scaled(a, pct) + 50,
{
    let x = a * pct;
    assert(a >= 0 ==> a * pct >= 0) by (nonlinear_arith)
        requires
            pct >= 0,
    ;
    assert(a < 0 ==> a * pct <= 0) by (nonlinear_arith)
        requires
            pct >= 0,
    ;
    if x >= 0 {
        let q = (x + 50) / 100;
        assert(100 * q <= x + 50 < 100 * q + 100);
    } else {
        let q = (-x + 50) / 100;
        assert(100 * q <= -x + 50 < 100 * q + 100);
    }
}

} // verus!
