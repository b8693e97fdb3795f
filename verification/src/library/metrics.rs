//! Session statistics over the finished encounters: per discipline, wins,
//! losses, lengths and the tracked tokens before and after; per material,
//! how much was gained and spent. Averages are left to the reader of these
//! integer tallies.
use super::game_state::EncounterRecord;
use super::token_map::TokenMap;
use super::types::{persistent_key, Discipline, EncounterOutcome, Token, TokenType};
use vstd::prelude::*;

verus! {

/// The amount a snapshot records for a token type: its last entry of that type.
pub open spec fn snapshot_value(pairs: Seq<(TokenType, i64)>, t: TokenType) -> Option<i64>
    decreases pairs.len(),
{
    if pairs.len() == 0 {
        None
    } else if pairs.last().0 == t {
        Some(pairs.last().1)
    } else {
        snapshot_value(pairs.drop_last(), t)
    }
}

fn snapshot_lookup(pairs: &Vec<(TokenType, i64)>, t: TokenType) -> (r: Option<i64>)
    ensures
        r == snapshot_value(pairs@, t),
{
    let mut i = pairs.len();
    assert(pairs@.subrange(0, i as int) =~= pairs@);
    while i > 0
        invariant
            i <= pairs@.len(),
            snapshot_value(pairs@, t) == snapshot_value(pairs@.subrange(0, i as int), t),
        decreases i,
    {
        assert(pairs@.subrange(0, i as int).drop_last() =~= pairs@.subrange(0, i - 1));
        if pairs[i - 1].0 == t {
            return Some(pairs[i - 1].1);
        }
        i -= 1;
    }
    None
}

/// The sum of a list of amounts.
pub open spec fn vals_sum(s: Seq<i64>) -> int
    decreases s.len(),
{
    if s.len() == 0 {
        0
    } else {
        vals_sum(s.drop_last()) + s.last()
    }
}

/// The least of a list of amounts, zero for none.
pub open spec fn vals_min(s: Seq<i64>) -> i64
    decreases s.len(),
{
    if s.len() == 0 {
        0
    } else if s.len() == 1 || s.last() < vals_min(s.drop_last()) {
        s.last()
    } else {
        vals_min(s.drop_last())
    }
}

/// The greatest of a list of amounts, zero for none.
pub open spec fn vals_max(s: Seq<i64>) -> i64
    decreases s.len(),
{
    if s.len() == 0 {
        0
    } else if s.len() == 1 || s.last() > vals_max(s.drop_last()) {
        s.last()
    } else {
        vals_max(s.drop_last())
    }
}

/// The amounts of `t` at the start (or, with `at_end`, the end) of the
/// encounters of discipline `d` whose snapshot records `t`, in order.
pub open spec fn snapshots_of(records: Seq<EncounterRecord>, d: Discipline, t: TokenType, at_end: bool) -> Seq<i64>
    decreases records.len(),
{
    if records.len() == 0 {
        Seq::empty()
    } else {
        let prev = snapshots_of(records.drop_last(), d, t, at_end);
        let r = records.last();
        let v = if at_end { snapshot_value(r.tokens_at_end@, t) } else { snapshot_value(r.tokens_at_start@, t) };
        if r.discipline == d && v is Some {
            prev.push(v->Some_0)
        } else {
            prev
        }
    }
}

/// The encounters of discipline `d` with outcome `o`.
pub open spec fn outcome_count(records: Seq<EncounterRecord>, d: Discipline, o: EncounterOutcome) -> int
    decreases records.len(),
{
    if records.len() == 0 {
        0
    } else {
        outcome_count(records.drop_last(), d, o) + (if records.last().discipline == d && records.last().outcome == o {
            1int
        } else {
            0int
        })
    }
}

/// The encounters of discipline `d`.
pub open spec fn discipline_count(records: Seq<EncounterRecord>, d: Discipline) -> int
    decreases records.len(),
{
    if records.len() == 0 {
        0
    } else {
        discipline_count(records.drop_last(), d) + (if records.last().discipline == d { 1int } else { 0int })
    }
}

/// The rounds played in the encounters of discipline `d`.
pub open spec fn rounds_total(records: Seq<EncounterRecord>, d: Discipline) -> int
    decreases records.len(),
{
    if records.len() == 0 {
        0
    } else {
        rounds_total(records.drop_last(), d) + (if records.last().discipline == d { records.last().rounds as int } else { 0int })
    }
}

/// A token type's snapshots over one discipline's encounters.
#[derive(Clone, Copy, Debug, PartialEq, Eq, Structural)]
pub struct TokenTally {
    pub token_type: TokenType,
    pub start_count: u64,
    pub start_sum: i128,
    pub min_start: i64,
    pub max_start: i64,
    pub end_count: u64,
    pub end_sum: i128,
    pub min_end: i64,
    pub max_end: i64,
}

/// The tally of `t` over the encounters of discipline `d`.
pub open spec fn token_tally_of(records: Seq<EncounterRecord>, d: Discipline, t: TokenType) -> TokenTally {
    let s = snapshots_of(records, d, t, false);
    let e = snapshots_of(records, d, t, true);
    TokenTally {
        token_type: t,
        start_count: s.len() as u64,
        start_sum: vals_sum(s) as i128,
        min_start: vals_min(s),
        max_start: vals_max(s),
        end_count: e.len() as u64,
        end_sum: vals_sum(e) as i128,
        min_end: vals_min(e),
        max_end: vals_max(e),
    }
}

/// The token types whose snapshots are tallied per discipline.
pub open spec fn tracked_tokens() -> Seq<TokenType> {
    seq![TokenType::Health, TokenType::Stamina, TokenType::Shield, TokenType::Dodge, TokenType::Mana]
}

/// The material token types whose flow is tallied.
pub open spec fn material_tokens() -> Seq<TokenType> {
    seq![TokenType::Ore, TokenType::Plant, TokenType::Lumber, TokenType::Fish]
}

/// The disciplines in the order statistics list them.
pub open spec fn discipline_order() -> Seq<Discipline> {
    seq![
        Discipline::Combat,
        Discipline::Mining,
        Discipline::Herbalism,
        Discipline::Woodcutting,
        Discipline::Fishing,
        Discipline::Rest,
        Discipline::Crafting,
    ]
}

/// The tallies of the tracked token types among `ts` that some encounter of
/// `d` recorded, in order.
pub open spec fn tallies_of(records: Seq<EncounterRecord>, d: Discipline, ts: Seq<TokenType>) -> Seq<TokenTally>
    decreases ts.len(),
{
    if ts.len() == 0 {
        Seq::empty()
    } else {
        let prev = tallies_of(records, d, ts.drop_last());
        let tl = token_tally_of(records, d, ts.last());
        if tl.start_count > 0 || tl.end_count > 0 {
            prev.push(tl)
        } else {
            prev
        }
    }
}

/// One discipline's encounters: wins, losses, how many, their rounds, and the
/// tracked tokens' snapshots.
#[derive(Debug)]
pub struct DisciplineTally {
    pub discipline: Discipline,
    pub wins: u64,
    pub losses: u64,
    pub total: u64,
    pub rounds_sum: u128,
    pub token_tallies: Vec<TokenTally>,
}

/// The tally of discipline `d` is exactly this.
pub open spec fn discipline_tally_is(records: Seq<EncounterRecord>, d: Discipline, r: DisciplineTally) -> bool {
    &&& r.discipline == d
    &&& r.wins == outcome_count(records, d, EncounterOutcome::PlayerWon)
    &&& r.losses == outcome_count(records, d, EncounterOutcome::PlayerLost)
    &&& r.total == discipline_count(records, d)
    &&& r.rounds_sum == rounds_total(records, d)
    &&& r.token_tallies@ == tallies_of(records, d, tracked_tokens())
}

proof fn lemma_snapshots_bounds(records: Seq<EncounterRecord>, d: Discipline, t: TokenType, at_end: bool)
    ensures
        snapshots_of(records, d, t, at_end).len() <= records.len(),
        vals_sum(snapshots_of(records, d, t, at_end)) <= snapshots_of(records, d, t, at_end).len() * i64::MAX,
        vals_sum(snapshots_of(records, d, t, at_end)) >= snapshots_of(records, d, t, at_end).len() * i64::MIN,
    decreases records.len(),
{
    if records.len() > 0 {
        lemma_snapshots_bounds(records.drop_last(), d, t, at_end);
        let prev = snapshots_of(records.drop_last(), d, t, at_end);
        let r = records.last();
        let v = if at_end { snapshot_value(r.tokens_at_end@, t) } else { snapshot_value(r.tokens_at_start@, t) };
        if r.discipline == d && v is Some {
            assert(prev.push(v->Some_0).drop_last() =~= prev);
        }
    }
}

proof fn lemma_counts_bounds(records: Seq<EncounterRecord>, d: Discipline)
    ensures
        0 <= outcome_count(records, d, EncounterOutcome::PlayerWon) <= records.len(),
        0 <= outcome_count(records, d, EncounterOutcome::PlayerLost) <= records.len(),
        0 <= discipline_count(records, d) <= records.len(),
        0 <= rounds_total(records, d) <= records.len() * u64::MAX,
    decreases records.len(),
{
    if records.len() > 0 {
        lemma_counts_bounds(records.drop_last(), d);
    }
}

fn token_tally(records: &Vec<EncounterRecord>, d: Discipline, t: TokenType) -> (r: TokenTally)
    requires
        records@.len() <= isize::MAX,
    ensures
        r == token_tally_of(records@, d, t),
{
    let mut sc: u64 = 0;
    let mut ss: i128 = 0;
    let mut smin: i64 = 0;
    let mut smax: i64 = 0;
    let mut ec: u64 = 0;
    let mut es: i128 = 0;
    let mut emin: i64 = 0;
    let mut emax: i64 = 0;
    let mut i: usize = 0;
    while i < records.len()
        invariant
            i <= records@.len(),
            records@.len() <= isize::MAX,
            sc == snapshots_of(records@.take(i as int), d, t, false).len(),
            ss == vals_sum(snapshots_of(records@.take(i as int), d, t, false)),
            smin == vals_min(snapshots_of(records@.take(i as int), d, t, false)),
            smax == vals_max(snapshots_of(records@.take(i as int), d, t, false)),
            ec == snapshots_of(records@.take(i as int), d, t, true).len(),
            es == vals_sum(snapshots_of(records@.take(i as int), d, t, true)),
            emin == vals_min(snapshots_of(records@.take(i as int), d, t, true)),
            emax == vals_max(snapshots_of(records@.take(i as int), d, t, true)),
        decreases records@.len() - i,
    {
        let ghost pre = records@.take(i as int);
        proof {
            assert(records@.take(i + 1).drop_last() =~= pre);
            assert(records@.take(i + 1).last() == records@[i as int]);
            lemma_snapshots_bounds(pre, d, t, false);
            lemma_snapshots_bounds(pre, d, t, true);
            assert(sc <= i);
            assert(ec <= i);
            assert(ss <= i * i64::MAX) by (nonlinear_arith)
                requires
                    ss <= sc * i64::MAX,
                    sc <= i,
                    0 <= sc,
            ;
            assert(ss >= i * i64::MIN) by (nonlinear_arith)
                requires
                    ss >= sc * i64::MIN,
                    sc <= i,
                    0 <= sc,
            ;
            assert(es <= i * i64::MAX) by (nonlinear_arith)
                requires
                    es <= ec * i64::MAX,
                    ec <= i,
                    0 <= ec,
            ;
            assert(es >= i * i64::MIN) by (nonlinear_arith)
                requires
                    es >= ec * i64::MIN,
                    ec <= i,
                    0 <= ec,
            ;
        }
        let r = &records[i];
        let ghost s0 = snapshots_of(pre, d, t, false);
        let ghost e0 = snapshots_of(pre, d, t, true);
        if r.discipline == d {
            if let Some(v) = snapshot_lookup(&r.tokens_at_start, t) {
                assert(s0.push(v).drop_last() =~= s0);
                if sc == 0 || v < smin {
                    smin = v;
                }
                if sc == 0 || v > smax {
                    smax = v;
                }
                sc = sc + 1;
                ss = ss + v as i128;
            }
            if let Some(v) = snapshot_lookup(&r.tokens_at_end, t) {
                assert(e0.push(v).drop_last() =~= e0);
                if ec == 0 || v < emin {
                    emin = v;
                }
                if ec == 0 || v > emax {
                    emax = v;
                }
                ec = ec + 1;
                es = es + v as i128;
            }
        }
        i += 1;
    }
    assert(records@.take(records@.len() as int) =~= records@);
    TokenTally {
        token_type: t,
        start_count: sc,
        start_sum: ss,
        min_start: smin,
        max_start: smax,
        end_count: ec,
        end_sum: es,
        min_end: emin,
        max_end: emax,
    }
}

fn tracked_token_list() -> (r: Vec<TokenType>)
    ensures
        r@ == tracked_tokens(),
{
    let r = vec![TokenType::Health, TokenType::Stamina, TokenType::Shield, TokenType::Dodge, TokenType::Mana];
    assert(r@ =~= tracked_tokens());
    r
}

/// The tally of one discipline's encounters.
pub fn compute_discipline_metrics(d: Discipline, records: &Vec<EncounterRecord>) -> (r: DisciplineTally)
    requires
        records@.len() <= isize::MAX,
    ensures
        discipline_tally_is(records@, d, r),
{
    let mut wins: u64 = 0;
    let mut losses: u64 = 0;
    let mut total: u64 = 0;
    let mut rounds: u128 = 0;
    let mut i: usize = 0;
    while i < records.len()
        invariant
            i <= records@.len(),
            records@.len() <= isize::MAX,
            wins == outcome_count(records@.take(i as int), d, EncounterOutcome::PlayerWon),
            losses == outcome_count(records@.take(i as int), d, EncounterOutcome::PlayerLost),
            total == discipline_count(records@.take(i as int), d),
            rounds == rounds_total(records@.take(i as int), d),
        decreases records@.len() - i,
    {
        let ghost pre = records@.take(i as int);
        proof {
            assert(records@.take(i + 1).drop_last() =~= pre);
            assert(records@.take(i + 1).last() == records@[i as int]);
            lemma_counts_bounds(pre, d);
            assert(rounds <= i * u64::MAX);
        }
        let r = &records[i];
        if r.discipline == d {
            total = total + 1;
            rounds = rounds + r.rounds as u128;
            match r.outcome {
                EncounterOutcome::PlayerWon => {
                    wins = wins + 1;
                },
                EncounterOutcome::PlayerLost => {
                    losses = losses + 1;
                },
                EncounterOutcome::Undecided => {},
            }
        }
        i += 1;
    }
    assert(records@.take(records@.len() as int) =~= records@);
    let ts = tracked_token_list();
    let mut tallies: Vec<TokenTally> = Vec::new();
    let mut k: usize = 0;
    while k < ts.len()
        invariant
            k <= ts@.len(),
            ts@ == tracked_tokens(),
            records@.len() <= isize::MAX,
            tallies@ == tallies_of(records@, d, ts@.take(k as int)),
        decreases ts@.len() - k,
    {
        assert(ts@.take(k + 1).drop_last() =~= ts@.take(k as int));
        let tl = token_tally(records, d, ts[k]);
        if tl.start_count > 0 || tl.end_count > 0 {
            tallies.push(tl);
        }
        k += 1;
    }
    assert(ts@.take(ts@.len() as int) =~= ts@);
    DisciplineTally { discipline: d, wins, losses, total, rounds_sum: rounds, token_tallies: tallies }
}

/// What the encounters gained of material `t` (their rises) over all records.
pub open spec fn gained_of(records: Seq<EncounterRecord>, t: TokenType) -> int
    decreases records.len(),
{
    if records.len() == 0 {
        0
    } else {
        let d = material_delta(records.last(), t);
        gained_of(records.drop_last(), t) + (if d > 0 { d } else { 0 })
    }
}

/// What the encounters spent of material `t` (their falls) over all records.
pub open spec fn spent_of(records: Seq<EncounterRecord>, t: TokenType) -> int
    decreases records.len(),
{
    if records.len() == 0 {
        0
    } else {
        let d = material_delta(records.last(), t);
        spent_of(records.drop_last(), t) + (if d > 0 { 0 } else { -d })
    }
}

/// How much of `t` an encounter ended with above what it started with (a
/// missing snapshot counts as zero).
pub open spec fn material_delta(r: EncounterRecord, t: TokenType) -> int {
    let s = match snapshot_value(r.tokens_at_start@, t) {
        Some(v) => v as int,
        None => 0,
    };
    let e = match snapshot_value(r.tokens_at_end@, t) {
        Some(v) => v as int,
        None => 0,
    };
    e - s
}

/// A material's net flow over the encounters.
#[derive(Clone, Copy, Debug, PartialEq, Eq, Structural)]
pub struct ResourceFlow {
    pub total_gained: i64,
    pub total_spent: i64,
    pub net: i64,
}

proof fn lemma_flow_monotone(records: Seq<EncounterRecord>, t: TokenType, i: int)
    requires
        0 <= i <= records.len(),
    ensures
        0 <= gained_of(records.take(i), t) <= gained_of(records, t),
        0 <= spent_of(records.take(i), t) <= spent_of(records, t),
    decreases records.len() - i,
{
    if i < records.len() {
        lemma_flow_monotone(records, t, i + 1);
        assert(records.take(i + 1).drop_last() =~= records.take(i));
        lemma_flow_nonneg(records.take(i), t);
    } else {
        assert(records.take(i) =~= records);
        lemma_flow_nonneg(records, t);
    }
}

proof fn lemma_flow_nonneg(records: Seq<EncounterRecord>, t: TokenType)
    ensures
        gained_of(records, t) >= 0,
        spent_of(records, t) >= 0,
    decreases records.len(),
{
    if records.len() > 0 {
        lemma_flow_nonneg(records.drop_last(), t);
    }
}

/// The flow of material `t`, or `None` where what was gained or what was
/// spent exceeds `i64::MAX`.
pub fn compute_resource_flow(records: &Vec<EncounterRecord>, t: TokenType) -> (r: Option<ResourceFlow>)
    ensures
        r is Some <==> gained_of(records@, t) <= i64::MAX && spent_of(records@, t) <= i64::MAX,
        r matches Some(f) ==> {
            &&& f.total_gained == gained_of(records@, t)
            &&& f.total_spent == spent_of(records@, t)
            &&& f.net == gained_of(records@, t) - spent_of(records@, t)
        },
{
    let mut gained: i64 = 0;
    let mut spent: i64 = 0;
    let mut i: usize = 0;
    while i < records.len()
        invariant
            i <= records@.len(),
            gained == gained_of(records@.take(i as int), t),
            spent == spent_of(records@.take(i as int), t),
            gained >= 0,
            spent >= 0,
        decreases records@.len() - i,
    {
        let ghost pre = records@.take(i as int);
        proof {
            assert(records@.take(i + 1).drop_last() =~= pre);
            assert(records@.take(i + 1).last() == records@[i as int]);
        }
        let r = &records[i];
        let s: i128 = match snapshot_lookup(&r.tokens_at_start, t) {
            Some(v) => v as i128,
            None => 0,
        };
        let e: i128 = match snapshot_lookup(&r.tokens_at_end, t) {
            Some(v) => v as i128,
            None => 0,
        };
        let delta = e - s;
        if delta > 0 {
            if delta > (i64::MAX - gained) as i128 {
                proof {
                    lemma_flow_monotone(records@, t, i + 1);
                }
                return None;
            }
            gained = gained + delta as i64;
        } else {
            if -delta > (i64::MAX - spent) as i128 {
                proof {
                    lemma_flow_monotone(records@, t, i + 1);
                }
                return None;
            }
            spent = spent + (-delta) as i64;
        }
        i += 1;
    }
    assert(records@.take(records@.len() as int) =~= records@);
    Some(ResourceFlow { total_gained: gained, total_spent: spent, net: gained - spent })
}

/// The session's statistics.
#[derive(Debug)]
pub struct SessionTally {
    pub total_encounters: u64,
    pub total_deaths: u64,
    /// The disciplines with at least one encounter, in the usual order.
    pub per_discipline: Vec<DisciplineTally>,
    /// The flow of each material, in the usual order.
    pub resource_flow: Vec<(TokenType, ResourceFlow)>,
}

/// The disciplines among `ds` with an encounter, in order.
pub open spec fn played_disciplines(records: Seq<EncounterRecord>, ds: Seq<Discipline>) -> Seq<Discipline>
    decreases ds.len(),
{
    if ds.len() == 0 {
        Seq::empty()
    } else {
        let prev = played_disciplines(records, ds.drop_last());
        if discipline_count(records, ds.last()) > 0 {
            prev.push(ds.last())
        } else {
            prev
        }
    }
}

fn discipline_list() -> (r: Vec<Discipline>)
    ensures
        r@ == discipline_order(),
{
    let r = vec![
        Discipline::Combat,
        Discipline::Mining,
        Discipline::Herbalism,
        Discipline::Woodcutting,
        Discipline::Fishing,
        Discipline::Rest,
        Discipline::Crafting,
    ];
    assert(r@ =~= discipline_order());
    r
}

fn material_list() -> (r: Vec<TokenType>)
    ensures
        r@ == material_tokens(),
{
    let r = vec![TokenType::Ore, TokenType::Plant, TokenType::Lumber, TokenType::Fish];
    assert(r@ =~= material_tokens());
    r
}

/// The session's statistics: how many encounters and deaths, the tally of
/// each discipline played and the flow of each material; `None` where a
/// material's flow exceeds `i64::MAX`.
pub fn compute_session_metrics(records: &Vec<EncounterRecord>, token_balances: &TokenMap) -> (r: Option<SessionTally>)
    requires
        records@.len() <= isize::MAX,
    ensures
        r is Some <==> forall|k: int| 0 <= k < material_tokens().len() ==> {
            &&& gained_of(records@, #[trigger] material_tokens()[k]) <= i64::MAX
            &&& spent_of(records@, material_tokens()[k]) <= i64::MAX
        },
        r matches Some(s) ==> {
            &&& s.total_encounters == records@.len()
            &&& s.total_deaths == match token_balances.spec_get(persistent_key(TokenType::PlayerDeaths)) {
                Some(v) => if v > 0 { v as int } else { 0 },
                None => 0,
            }
            &&& s.per_discipline@.len() == played_disciplines(records@, discipline_order()).len()
            &&& forall|k: int| 0 <= k < s.per_discipline@.len() ==> discipline_tally_is(
                records@,
                played_disciplines(records@, discipline_order())[k],
                #[trigger] s.per_discipline@[k],
            )
            &&& s.resource_flow@.len() == material_tokens().len()
            &&& forall|k: int| 0 <= k < s.resource_flow@.len() ==> {
                let (t, f) = #[trigger] s.resource_flow@[k];
                &&& t == material_tokens()[k]
                &&& f.total_gained == gained_of(records@, t)
                &&& f.total_spent == spent_of(records@, t)
                &&& f.net == gained_of(records@, t) - spent_of(records@, t)
            }
        },
{
    let ms = material_list();
    let mut flows: Vec<(TokenType, ResourceFlow)> = Vec::new();
    let mut k: usize = 0;
    while k < ms.len()
        invariant
            k <= ms@.len(),
            ms@ == material_tokens(),
            flows@.len() == k,
            forall|j: int| 0 <= j < k ==> {
                &&& gained_of(records@, #[trigger] material_tokens()[j]) <= i64::MAX
                &&& spent_of(records@, material_tokens()[j]) <= i64::MAX
            },
            forall|j: int| 0 <= j < k ==> {
                let (t, f) = #[trigger] flows@[j];
                &&& t == material_tokens()[j]
                &&& f.total_gained == gained_of(records@, t)
                &&& f.total_spent == spent_of(records@, t)
                &&& f.net == gained_of(records@, t) - spent_of(records@, t)
            },
        decreases ms@.len() - k,
    {
        match compute_resource_flow(records, ms[k]) {
            Some(f) => flows.push((ms[k], f)),
            None => {
                return None;
            },
        }
        k += 1;
    }
    let ds = discipline_list();
    let mut per: Vec<DisciplineTally> = Vec::new();
    let mut j: usize = 0;
    while j < ds.len()
        invariant
            j <= ds@.len(),
            ds@ == discipline_order(),
            records@.len() <= isize::MAX,
            per@.len() == played_disciplines(records@, ds@.take(j as int)).len(),
            forall|q: int| 0 <= q < per@.len() ==> discipline_tally_is(
                records@,
                played_disciplines(records@, ds@.take(j as int))[q],
                #[trigger] per@[q],
            ),
        decreases ds@.len() - j,
    {
        assert(ds@.take(j + 1).drop_last() =~= ds@.take(j as int));
        let tally = compute_discipline_metrics(ds[j], records);
        if tally.total > 0 {
            per.push(tally);
        }
        j += 1;
    }
    assert(ds@.take(ds@.len() as int) =~= ds@);
    let deaths = match token_balances.get(&Token::persistent(TokenType::PlayerDeaths)) {
        Some(v) => if v > 0 { v as u64 } else { 0 },
        None => 0,
    };
    Some(SessionTally { total_encounters: records.len() as u64, total_deaths: deaths, per_discipline: per, resource_flow: flows })
}

} // verus!
