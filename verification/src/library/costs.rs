//! Paying for card effects: turning rolled costs into token amounts, checking
//! that the player can afford them and deducting them.
use super::abs;
use super::token_map::{bal, bset, get0, TokenMap};
use super::types::{persistent_key, ConcreteEffect, ConcreteEffectCost, LifecycleKey, TokenAmount, TokenKey, TokenType};
use vstd::prelude::*;

verus! {

/// Why a cost could not be paid.
#[derive(Clone, Copy, Debug, PartialEq, Eq, Structural)]
pub enum CostError {
    /// The player holds `have` tokens of `token_type` but the cost is `need`.
    Insufficient { token_type: TokenType, need: i64, have: i64 },
}

/// The token amount of a rolled cost: `rolled_percent` percent of the size of
/// the effect's rolled value (an amount held in 32 bits).
pub open spec fn cost_amount(value: i64, pct: u32) -> i64 {
    (((abs(value as int) * pct) / 100) as u32) as i64
}

/// The positive costs of one effect, in order.
pub open spec fn effect_cost_list(value: i64, costs: Seq<ConcreteEffectCost>) -> Seq<TokenAmount>
    decreases costs.len(),
{
    if costs.len() == 0 {
        Seq::empty()
    } else {
        let prev = effect_cost_list(value, costs.drop_last());
        let a = cost_amount(value, costs.last().rolled_percent);
        if a > 0 {
            prev.push(TokenAmount { token_type: costs.last().token_type, amount: a, cap: None })
        } else {
            prev
        }
    }
}

/// The positive costs of a list of effects, effect after effect.
pub open spec fn gathering_costs(effects: Seq<ConcreteEffect>) -> Seq<TokenAmount>
    decreases effects.len(),
{
    if effects.len() == 0 {
        Seq::empty()
    } else {
        gathering_costs(effects.drop_last()) + effect_cost_list(
            effects.last().rolled_value,
            effects.last().rolled_costs@,
        )
    }
}

/// The costs that are not paid from encounter-scoped tokens, in order.
pub open spec fn player_costs(costs: Seq<TokenAmount>) -> Seq<TokenAmount>
    decreases costs.len(),
{
    if costs.len() == 0 {
        Seq::empty()
    } else if costs.last().token_type.spec_is_encounter_scoped() {
        player_costs(costs.drop_last())
    } else {
        player_costs(costs.drop_last()).push(costs.last())
    }
}

/// Every per-type total of the balances fits in an `i64`.
pub open spec fn balances_fit(m: TokenMap) -> bool {
    forall|tt: TokenType| i64::MIN <= #[trigger] m.spec_balance(tt) <= i64::MAX
}

/// Whether the player can pay `c` (non-positive costs are free).
pub open spec fn affordable(c: TokenAmount, m: TokenMap) -> bool {
    c.amount <= 0 || m.spec_balance(c.token_type) >= c.amount
}

/// The index of the first cost at or after `i` that cannot be paid.
pub open spec fn shortfall_from(costs: Seq<TokenAmount>, m: TokenMap, i: int) -> Option<int>
    decreases costs.len() - i,
{
    if i < 0 || i >= costs.len() {
        None
    } else if !affordable(costs[i], m) {
        Some(i)
    } else {
        shortfall_from(costs, m, i + 1)
    }
}

/// What checking `costs` against `m` answers.
pub open spec fn preview_result(costs: Seq<TokenAmount>, m: TokenMap) -> Result<(), CostError> {
    match shortfall_from(costs, m, 0) {
        None => Ok(()),
        Some(i) => Err(
            CostError::Insufficient {
                token_type: costs[i].token_type,
                need: costs[i].amount,
                have: m.spec_balance(costs[i].token_type) as i64,
            },
        ),
    }
}

/// The total of the positive costs of type `tt`.
pub open spec fn total_cost(costs: Seq<TokenAmount>, tt: TokenType) -> int
    decreases costs.len(),
{
    if costs.len() == 0 {
        0
    } else {
        total_cost(costs.drop_last(), tt) + (if costs.last().token_type == tt && costs.last().amount > 0 {
            costs.last().amount as int
        } else {
            0
        })
    }
}

/// Deducting every cost keeps the persistent counters and the totals in range.
pub open spec fn deduct_fits(costs: Seq<TokenAmount>, m: TokenMap) -> bool {
    forall|tt: TokenType|
        #![trigger total_cost(costs, tt)]
        m.spec_value(persistent_key(tt)) - total_cost(costs, tt) >= i64::MIN && m.spec_balance(tt) - total_cost(
            costs,
            tt,
        ) >= i64::MIN
}

/// A key that is not the persistent counter of its type.
pub open spec fn not_persistent(k: TokenKey) -> bool {
    k.lifecycle != LifecycleKey::PersistentCounter
}

proof fn lemma_total_cost_nonneg(costs: Seq<TokenAmount>, tt: TokenType)
    ensures
        total_cost(costs, tt) >= 0,
    decreases costs.len(),
{
    if costs.len() > 0 {
        lemma_total_cost_nonneg(costs.drop_last(), tt);
    }
}

proof fn lemma_total_cost_prefix(costs: Seq<TokenAmount>, i: int, tt: TokenType)
    requires
        0 <= i <= costs.len(),
    ensures
        total_cost(costs.subrange(0, i), tt) <= total_cost(costs, tt),
    decreases costs.len() - i,
{
    if i < costs.len() {
        lemma_total_cost_prefix(costs, i + 1, tt);
        assert(costs.subrange(0, i + 1).drop_last() =~= costs.subrange(0, i));
    } else {
        assert(costs.subrange(0, i) =~= costs);
    }
}

fn cost_amount_exec(value: i64, pct: u32) -> (r: i64)
    ensures
        r == cost_amount(value, pct),
        r >= 0,
{
    let m: u128 = if value >= 0 { value as u128 } else { (0i128 - value as i128) as u128 };
    assert(m == abs(value as int));
    assert(m * (pct as u128) <= 0x8000_0000_0000_0000u128 * 0x1_0000_0000u128) by (nonlinear_arith)
        requires
            m <= 0x8000_0000_0000_0000u128,
            pct <= 0xffff_ffffu32,
    ;
    let prod: u128 = m * (pct as u128);
    let a: u32 = (prod / 100) as u32;
    a as i64
}

/// Turn the rolled costs of `effects` into token amounts, dropping those that come to zero.
pub fn extract_gathering_costs_from_effects(effects: &[ConcreteEffect]) -> (r: Vec<TokenAmount>)
    ensures
        r@ == gathering_costs(effects@),
{
    let mut out: Vec<TokenAmount> = Vec::new();
    let mut i: usize = 0;
    while i < effects.len()
        invariant
            i <= effects.len(),
            out@ == gathering_costs(effects@.subrange(0, i as int)),
        decreases effects.len() - i,
    {
        let e = &effects[i];
        let ghost base = out@;
        let mut j: usize = 0;
        while j < e.rolled_costs.len()
            invariant
                j <= e.rolled_costs.len(),
                out@ == base + effect_cost_list(e.rolled_value, e.rolled_costs@.subrange(0, j as int)),
            decreases e.rolled_costs.len() - j,
        {
            proof {
                assert(e.rolled_costs@.subrange(0, j + 1).drop_last() =~= e.rolled_costs@.subrange(0, j as int));
            }
            let c = e.rolled_costs[j];
            let amount = cost_amount_exec(e.rolled_value, c.rolled_percent);
            if amount > 0 {
                out.push(TokenAmount { token_type: c.token_type, amount, cap: None });
            }
            proof {
                assert(out@ =~= base + effect_cost_list(e.rolled_value, e.rolled_costs@.subrange(0, j + 1)));
            }
            j += 1;
        }
        proof {
            assert(e.rolled_costs@.subrange(0, e.rolled_costs@.len() as int) =~= e.rolled_costs@);
            assert(effects@.subrange(0, i + 1).drop_last() =~= effects@.subrange(0, i as int));
        }
        i += 1;
    }
    assert(effects@.subrange(0, effects@.len() as int) =~= effects@);
    out
}

/// The costs that the player pays from persistent tokens: encounter-scoped ones are left out.
pub fn filter_player_costs(costs: &Vec<TokenAmount>) -> (r: Vec<TokenAmount>)
    ensures
        r@ == player_costs(costs@),
{
    let mut out: Vec<TokenAmount> = Vec::new();
    let mut i: usize = 0;
    while i < costs.len()
        invariant
            i <= costs.len(),
            out@ == player_costs(costs@.subrange(0, i as int)),
        decreases costs.len() - i,
    {
        proof {
            assert(costs@.subrange(0, i + 1).drop_last() =~= costs@.subrange(0, i as int));
        }
        if !costs[i].token_type.is_encounter_scoped() {
            out.push(costs[i]);
        }
        i += 1;
    }
    assert(costs@.subrange(0, costs@.len() as int) =~= costs@);
    out
}

/// Check if the player can afford gathering costs without deducting: the
/// first cost whose token total is short is reported.
pub fn preview_gathering_costs(costs: &[TokenAmount], token_balances: &TokenMap) -> (r: Result<(), CostError>)
    requires
        balances_fit(*token_balances),
    ensures
        r == preview_result(costs@, *token_balances),
{
    let mut i: usize = 0;
    while i < costs.len()
        invariant
            i <= costs.len(),
            balances_fit(*token_balances),
            shortfall_from(costs@, *token_balances, 0) == shortfall_from(costs@, *token_balances, i as int),
        decreases costs.len() - i,
    {
        let c = costs[i];
        if c.amount > 0 {
            let have = token_balances.balance_by_type(&c.token_type);
            if have < c.amount {
                return Err(CostError::Insufficient { token_type: c.token_type, need: c.amount, have });
            }
        }
        i += 1;
    }
    Ok(())
}

/// Check and deduct a list of gathering costs. All costs must be affordable;
/// each is then taken from the persistent counter of its type.
pub fn check_and_deduct_gathering_costs(costs: &[TokenAmount], token_balances: &mut TokenMap) -> (r: Result<(), CostError>)
    requires
        balances_fit(*old(token_balances)),
        preview_result(costs@, *old(token_balances)) is Ok ==> deduct_fits(costs@, *old(token_balances)),
    ensures
        r == preview_result(costs@, *old(token_balances)),
        r is Err ==> *final(token_balances) == *old(token_balances),
        r is Ok ==> {
            &&& forall|tt: TokenType| #[trigger] final(token_balances).spec_balance(tt) == old(token_balances).spec_balance(tt) - total_cost(costs@, tt)
            &&& forall|tt: TokenType| #[trigger] final(token_balances).spec_value(persistent_key(tt)) == old(token_balances).spec_value(persistent_key(tt)) - total_cost(costs@, tt)
            &&& forall|k: TokenKey| not_persistent(k) ==> #[trigger] final(token_balances).spec_get(k) == old(token_balances).spec_get(k)
            &&& bal(*final(token_balances)) == deduct_b(bal(*old(token_balances)), costs@)
        },
{
    let res = preview_gathering_costs(costs, token_balances);
    if res.is_err() {
        return res;
    }
    let ghost m0 = *token_balances;
    let mut i: usize = 0;
    while i < costs.len()
        invariant
            i <= costs.len(),
            deduct_fits(costs@, m0),
            forall|tt: TokenType| #[trigger] token_balances.spec_balance(tt) == m0.spec_balance(tt) - total_cost(costs@.subrange(0, i as int), tt),
            forall|tt: TokenType| #[trigger] token_balances.spec_value(persistent_key(tt)) == m0.spec_value(persistent_key(tt)) - total_cost(costs@.subrange(0, i as int), tt),
            forall|k: TokenKey| not_persistent(k) ==> #[trigger] token_balances.spec_get(k) == m0.spec_get(k),
            bal(*token_balances) == deduct_b(bal(m0), costs@.subrange(0, i as int)),
        decreases costs.len() - i,
    {
        proof {
            assert(costs@.subrange(0, i + 1).drop_last() =~= costs@.subrange(0, i as int));
        }
        let c = costs[i];
        if c.amount > 0 {
            proof {
                lemma_total_cost_prefix(costs@, i + 1, c.token_type);
                lemma_total_cost_nonneg(costs@.subrange(0, i as int), c.token_type);
                assert(total_cost(costs@, c.token_type) == total_cost(costs@, c.token_type));
            }
            let ghost before = *token_balances;
            let cur = token_balances.value(&super::types::Token::persistent(c.token_type));
            token_balances.insert(super::types::Token::persistent(c.token_type), cur - c.amount);
            proof {
                lemma_bal_facts(before);
                assert(cur == before.spec_value(persistent_key(c.token_type)));
                assert(token_balances.spec_value(persistent_key(c.token_type)) == cur - c.amount);
                assert forall|k: TokenKey| not_persistent(k) implies #[trigger] token_balances.spec_get(k) == m0.spec_get(k) by {
                    assert(k != persistent_key(c.token_type));
                }
                assert forall|tt: TokenType| #[trigger] token_balances.spec_value(persistent_key(tt)) == m0.spec_value(persistent_key(tt)) - total_cost(costs@.subrange(0, i + 1), tt) by {
                    if tt != c.token_type {
                        assert(persistent_key(tt) != persistent_key(c.token_type));
                        assert(token_balances.spec_value(persistent_key(tt)) == before.spec_value(persistent_key(tt)));
                    } else {
                        assert(total_cost(costs@.subrange(0, i + 1), tt) == total_cost(costs@.subrange(0, i as int), tt) + c.amount);
                    }
                }
            }
        }
        i += 1;
    }
    assert(costs@.subrange(0, costs@.len() as int) =~= costs@);
    Ok(())
}

/// Check if the player can afford all costs of `effects` without deducting.
/// Encounter-scoped token costs are left out.
pub fn preview_costs(effects: &[ConcreteEffect], token_balances: &TokenMap) -> (r: Result<(), CostError>)
    requires
        balances_fit(*token_balances),
    ensures
        r == preview_result(player_costs(gathering_costs(effects@)), *token_balances),
{
    let all = extract_gathering_costs_from_effects(effects);
    let mine = filter_player_costs(&all);
    preview_gathering_costs(mine.as_slice(), token_balances)
}

/// Check if the player can pay all costs of `effects`, and deduct them if so.
/// Encounter-scoped token costs (such as rest tokens) are left to the encounter.
pub fn check_and_deduct_costs(effects: &[ConcreteEffect], token_balances: &mut TokenMap) -> (r: Result<(), CostError>)
    requires
        balances_fit(*old(token_balances)),
        preview_result(player_costs(gathering_costs(effects@)), *old(token_balances)) is Ok
            ==> deduct_fits(player_costs(gathering_costs(effects@)), *old(token_balances)),
    ensures
        r == preview_result(player_costs(gathering_costs(effects@)), *old(token_balances)),
        r is Err ==> *final(token_balances) == *old(token_balances),
        r is Ok ==> {
            let costs = player_costs(gathering_costs(effects@));
            &&& forall|tt: TokenType| #[trigger] final(token_balances).spec_balance(tt) == old(token_balances).spec_balance(tt) - total_cost(costs, tt)
            &&& forall|tt: TokenType| #[trigger] final(token_balances).spec_value(persistent_key(tt)) == old(token_balances).spec_value(persistent_key(tt)) - total_cost(costs, tt)
            &&& forall|k: TokenKey| not_persistent(k) ==> #[trigger] final(token_balances).spec_get(k) == old(token_balances).spec_get(k)
            &&& bal(*final(token_balances)) == deduct_b(bal(*old(token_balances)), costs)
        },
{
    let all = extract_gathering_costs_from_effects(effects);
    let mine = filter_player_costs(&all);
    check_and_deduct_gathering_costs(mine.as_slice(), token_balances)
}

/// The sum of the amounts of costs of type `tt`.
pub open spec fn sum_of_type(costs: Seq<TokenAmount>, tt: TokenType) -> int
    decreases costs.len(),
{
    if costs.len() == 0 {
        0
    } else {
        sum_of_type(costs.drop_last(), tt) + (if costs.last().token_type == tt { costs.last().amount as int } else { 0 })
    }
}

/// Total rest token cost of `effects`, or `None` where it exceeds `i64::MAX`.
pub fn rest_token_cost_checked(effects: &[ConcreteEffect]) -> (r: Option<i64>)
    ensures
        r matches Some(v) ==> v == sum_of_type(gathering_costs(effects@), TokenType::RestToken),
        r is None <==> sum_of_type(gathering_costs(effects@), TokenType::RestToken) > i64::MAX,
{
    let costs = extract_gathering_costs_from_effects(effects);
    let mut total: i64 = 0;
    let mut i: usize = 0;
    proof {
        lemma_gathering_costs_positive(effects@);
    }
    while i < costs.len()
        invariant
            i <= costs.len(),
            costs@ == gathering_costs(effects@),
            forall|j: int| 0 <= j < costs@.len() ==> #[trigger] costs@[j].amount > 0,
            total == sum_of_type(costs@.subrange(0, i as int), TokenType::RestToken),
            total >= 0,
        decreases costs.len() - i,
    {
        proof {
            assert(costs@.subrange(0, i + 1).drop_last() =~= costs@.subrange(0, i as int));
        }
        if costs[i].token_type == TokenType::RestToken {
            if total > i64::MAX - costs[i].amount {
                proof {
                    lemma_sum_of_type_prefix(costs@, i + 1, TokenType::RestToken);
                }
                return None;
            }
            total = total + costs[i].amount;
        }
        i += 1;
    }
    proof {
        assert(costs@.subrange(0, costs@.len() as int) =~= costs@);
    }
    Some(total)
}

/// Total rest token cost of `effects`.
pub fn extract_rest_token_cost(effects: &[ConcreteEffect]) -> (r: i64)
    requires
        sum_of_type(gathering_costs(effects@), TokenType::RestToken) <= i64::MAX,
    ensures
        r == sum_of_type(gathering_costs(effects@), TokenType::RestToken),
        r >= 0,
{
    let costs = extract_gathering_costs_from_effects(effects);
    let mut total: i64 = 0;
    let mut i: usize = 0;
    proof {
        lemma_gathering_costs_positive(effects@);
    }
    while i < costs.len()
        invariant
            i <= costs.len(),
            costs@ == gathering_costs(effects@),
            forall|j: int| 0 <= j < costs@.len() ==> #[trigger] costs@[j].amount > 0,
            sum_of_type(costs@, TokenType::RestToken) <= i64::MAX,
            total == sum_of_type(costs@.subrange(0, i as int), TokenType::RestToken),
        decreases costs.len() - i,
    {
        proof {
            assert(costs@.subrange(0, i + 1).drop_last() =~= costs@.subrange(0, i as int));
            lemma_sum_of_type_prefix(costs@, i + 1, TokenType::RestToken);
            lemma_sum_of_type_nonneg(costs@.subrange(0, i as int), TokenType::RestToken);
        }
        if costs[i].token_type == TokenType::RestToken {
            total = total + costs[i].amount;
        }
        i += 1;
    }
    assert(costs@.subrange(0, costs@.len() as int) =~= costs@);
    proof {
        lemma_sum_of_type_nonneg(costs@, TokenType::RestToken);
    }
    total
}

proof fn lemma_effect_cost_list_positive(value: i64, costs: Seq<ConcreteEffectCost>)
    ensures
        forall|j: int| 0 <= j < effect_cost_list(value, costs).len() ==> #[trigger] effect_cost_list(value, costs)[j].amount > 0,
    decreases costs.len(),
{
    if costs.len() > 0 {
        lemma_effect_cost_list_positive(value, costs.drop_last());
    }
}

proof fn lemma_gathering_costs_positive(effects: Seq<ConcreteEffect>)
    ensures
        forall|j: int| 0 <= j < gathering_costs(effects).len() ==> #[trigger] gathering_costs(effects)[j].amount > 0,
    decreases effects.len(),
{
    if effects.len() > 0 {
        lemma_gathering_costs_positive(effects.drop_last());
        lemma_effect_cost_list_positive(effects.last().rolled_value, effects.last().rolled_costs@);
        let a = gathering_costs(effects.drop_last());
        let b = effect_cost_list(effects.last().rolled_value, effects.last().rolled_costs@);
        assert forall|j: int| 0 <= j < (a + b).len() implies #[trigger] (a + b)[j].amount > 0 by {
            if j < a.len() {
                assert((a + b)[j] == a[j]);
            } else {
                assert((a + b)[j] == b[j - a.len()]);
            }
        }
    }
}

proof fn lemma_sum_of_type_nonneg(costs: Seq<TokenAmount>, tt: TokenType)
    requires
        forall|j: int| 0 <= j < costs.len() ==> #[trigger] costs[j].amount > 0,
    ensures
        sum_of_type(costs, tt) >= 0,
    decreases costs.len(),
{
    if costs.len() > 0 {
        lemma_sum_of_type_nonneg(costs.drop_last(), tt);
    }
}

proof fn lemma_sum_of_type_prefix(costs: Seq<TokenAmount>, i: int, tt: TokenType)
    requires
        0 <= i <= costs.len(),
        forall|j: int| 0 <= j < costs.len() ==> #[trigger] costs[j].amount > 0,
    ensures
        sum_of_type(costs.subrange(0, i), tt) <= sum_of_type(costs, tt),
    decreases costs.len() - i,
{
    if i < costs.len() {
        lemma_sum_of_type_prefix(costs, i + 1, tt);
        assert(costs.subrange(0, i + 1).drop_last() =~= costs.subrange(0, i));
        lemma_sum_of_type_nonneg(costs.subrange(0, i + 1), tt);
    } else {
        assert(costs.subrange(0, i) =~= costs);
    }
}


/// The balances as values (see `bal`).
pub type Balances = (Map<TokenKey, i64>, Map<TokenType, int>);

/// Whether the player can pay `c` from balances `b`.
pub open spec fn affordable_b(c: TokenAmount, b: Balances) -> bool {
    c.amount <= 0 || b.1[c.token_type] >= c.amount
}

/// Whether every cost can be paid from balances `b` (each on its own).
pub open spec fn all_affordable(costs: Seq<TokenAmount>, b: Balances) -> bool {
    forall|i: int| 0 <= i < costs.len() ==> affordable_b(#[trigger] costs[i], b)
}

/// The balances after taking each positive cost from the persistent counter of its type.
pub open spec fn deduct_b(b: Balances, costs: Seq<TokenAmount>) -> Balances
    decreases costs.len(),
{
    if costs.len() == 0 {
        b
    } else {
        let p = deduct_b(b, costs.drop_last());
        let c = costs.last();
        if c.amount > 0 {
            bset(p, persistent_key(c.token_type), (get0(p.0, persistent_key(c.token_type)) - c.amount) as i64)
        } else {
            p
        }
    }
}

/// Every per-type total fits in an `i64`.
pub open spec fn totals_fit(b: Balances) -> bool {
    forall|tt: TokenType| i64::MIN <= #[trigger] b.1[tt] <= i64::MAX
}

/// Deducting `costs` from `b` keeps every counter and total in range.
pub open spec fn deduct_fits_b(costs: Seq<TokenAmount>, b: Balances) -> bool {
    forall|tt: TokenType|
        #![trigger total_cost(costs, tt)]
        get0(b.0, persistent_key(tt)) - total_cost(costs, tt) >= i64::MIN && b.1[tt] - total_cost(costs, tt) >= i64::MIN
}

/// The costs of one effect that the player pays from persistent tokens.
pub open spec fn effect_player_costs(e: ConcreteEffect) -> Seq<TokenAmount> {
    player_costs(effect_cost_list(e.rolled_value, e.rolled_costs@))
}

pub proof fn lemma_bal_facts(m: TokenMap)
    ensures
        forall|k: TokenKey| #[trigger] get0(bal(m).0, k) == m.spec_value(k),
        forall|tt: TokenType| #[trigger] bal(m).1[tt] == m.spec_balance(tt),
        balances_fit(m) <==> totals_fit(bal(m)),
{
    if balances_fit(m) {
        assert forall|tt: TokenType| i64::MIN <= #[trigger] bal(m).1[tt] <= i64::MAX by {
            assert(i64::MIN <= m.spec_balance(tt) <= i64::MAX);
        }
    }
    if totals_fit(bal(m)) {
        assert forall|tt: TokenType| i64::MIN <= #[trigger] m.spec_balance(tt) <= i64::MAX by {
            assert(i64::MIN <= bal(m).1[tt] <= i64::MAX);
        }
    }
}

pub proof fn lemma_shortfall_none(costs: Seq<TokenAmount>, m: TokenMap, i: int)
    requires
        0 <= i <= costs.len(),
    ensures
        shortfall_from(costs, m, i) is None <==> (forall|j: int| i <= j < costs.len() ==> affordable(#[trigger] costs[j], m)),
    decreases costs.len() - i,
{
    if i < costs.len() {
        lemma_shortfall_none(costs, m, i + 1);
    }
}

pub proof fn lemma_preview_ok(costs: Seq<TokenAmount>, m: TokenMap)
    ensures
        preview_result(costs, m) is Ok <==> all_affordable(costs, bal(m)),
{
    lemma_shortfall_none(costs, m, 0);
    assert((forall|j: int| 0 <= j < costs.len() ==> affordable(#[trigger] costs[j], m)) <==> all_affordable(costs, bal(m))) by {
        assert forall|j: int| 0 <= j < costs.len() implies affordable(#[trigger] costs[j], m) == affordable_b(costs[j], bal(m)) by {}
    }
}

pub proof fn lemma_bset_twice(b: Balances, k: TokenKey, v1: i64, v2: i64)
    ensures
        bset(bset(b, k, v1), k, v2) == bset(b, k, v2),
{
    assert(bset(bset(b, k, v1), k, v2).0 =~= bset(b, k, v2).0);
    assert(bset(bset(b, k, v1), k, v2).1 =~= bset(b, k, v2).1);
}

proof fn lemma_single_effect_costs(e: ConcreteEffect)
    ensures
        gathering_costs(seq![e]) == effect_cost_list(e.rolled_value, e.rolled_costs@),
{
    assert(seq![e].drop_last() =~= Seq::<ConcreteEffect>::empty());
    assert(gathering_costs(Seq::<ConcreteEffect>::empty()) == Seq::<TokenAmount>::empty());
    assert(seq![e].last() == e);
    assert(Seq::<TokenAmount>::empty() + effect_cost_list(e.rolled_value, e.rolled_costs@) =~= effect_cost_list(e.rolled_value, e.rolled_costs@));
}

/// Whether the player can afford the costs of one effect, without deducting.
pub fn preview_effect_costs(e: &ConcreteEffect, token_balances: &TokenMap) -> (r: bool)
    requires
        balances_fit(*token_balances),
    ensures
        r == all_affordable(effect_player_costs(*e), bal(*token_balances)),
{
    let v = vec![ConcreteEffect { effect_id: e.effect_id, rolled_value: e.rolled_value, rolled_costs: copy_costs(&e.rolled_costs), rolled_cap: e.rolled_cap, rolled_gain_percent: e.rolled_gain_percent }];
    proof {
        lemma_single_effect_costs(v@[0]);
        lemma_preview_ok(player_costs(gathering_costs(v@)), *token_balances);
        assert(v@ =~= seq![v@[0]]);
    }
    preview_costs(v.as_slice(), token_balances).is_ok()
}

/// Pay the costs of one effect if the player can afford them all; otherwise nothing changes.
pub fn pay_effect_costs(e: &ConcreteEffect, token_balances: &mut TokenMap) -> (r: bool)
    requires
        balances_fit(*old(token_balances)),
        all_affordable(effect_player_costs(*e), bal(*old(token_balances))) ==> deduct_fits_b(effect_player_costs(*e), bal(*old(token_balances))),
    ensures
        r == all_affordable(effect_player_costs(*e), bal(*old(token_balances))),
        r ==> bal(*final(token_balances)) == deduct_b(bal(*old(token_balances)), effect_player_costs(*e)),
        !r ==> bal(*final(token_balances)) == bal(*old(token_balances)),
{
    let v = vec![ConcreteEffect { effect_id: e.effect_id, rolled_value: e.rolled_value, rolled_costs: copy_costs(&e.rolled_costs), rolled_cap: e.rolled_cap, rolled_gain_percent: e.rolled_gain_percent }];
    proof {
        lemma_single_effect_costs(v@[0]);
        assert(v@ =~= seq![v@[0]]);
        lemma_preview_ok(player_costs(gathering_costs(v@)), *token_balances);
        lemma_bal_facts(*token_balances);
    }
    let ghost before = *token_balances;
    let r = check_and_deduct_costs(v.as_slice(), token_balances);
    proof {
        if r is Err {
            assert(*token_balances == before);
        }
    }
    r.is_ok()
}

fn copy_costs(v: &Vec<ConcreteEffectCost>) -> (r: Vec<ConcreteEffectCost>)
    ensures
        r@ == v@,
{
    let mut out: Vec<ConcreteEffectCost> = Vec::new();
    let mut i: usize = 0;
    while i < v.len()
        invariant
            i <= v.len(),
            out@ == v@.subrange(0, i as int),
        decreases v.len() - i,
    {
        out.push(v[i]);
        i += 1;
    }
    assert(v@.subrange(0, v@.len() as int) =~= v@);
    out
}

} // verus!
