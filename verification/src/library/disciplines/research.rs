//! Research experiments: the player plays a hand of research cards, one for
//! each hidden slot. Each card is placed on one slot, one card per slot, so
//! that the total yield is as large as it can be: a card yields where one of
//! its symbols is the slot's hidden symbol, the position yield on its own
//! slot and the type yield on another. The yields accumulate over rounds; the
//! Insight each round costs grows with the round.
use crate::library::concrete::template_of;
use crate::library::costs::{
    balances_fit, check_and_deduct_gathering_costs, deduct_b, deduct_fits, extract_gathering_costs_from_effects, gathering_costs,
    preview_result,
};
use crate::library::disciplines::combat::fits;
use crate::library::disciplines::woodcutting::occ;
use crate::library::game_state::{counts_fit, GameState};
use crate::library::token_map::{bal, bset, get0};
use crate::library::types::{
    duplicate_effects, effects_view, persistent_key, CardEffectKind, CardEffectKindView, ConcreteEffect, Discipline,
    ResearchCandidate, ResearchProject, ResearchRoundResult, Token, TokenAmount, TokenKey, TokenType,
};
use crate::library::concrete::{rolled_from, roll_concrete_effect};
use crate::library::config_loader::all_rollable;
use crate::library::{base_cost_fits, gain_pays_itself};
use crate::library::Library;
use crate::library::types::{
    CardCounts, CardKind, EncounterKind, EncounterOutcome, EncounterPhase, EncounterState, LibraryCard, ResearchDef,
    ResearchEncounterState, ResearchSymbol,
};
use crate::library::with_card_counts;
use crate::rng::next_u64;
use rand_pcg::Lcg64Xsh32;
use vstd::prelude::*;

verus! {

/// What card `i` yields on slot `j`.
pub open spec fn gain(cards: Seq<Seq<ResearchSymbol>>, hidden: Seq<ResearchSymbol>, py: int, ty: int, i: int, j: int) -> int {
    if cards[i].contains(hidden[j]) {
        if i == j { py } else { ty }
    } else {
        0
    }
}

/// The yield of cards `k, k + 1, ...` placed on the slots `q`.
pub open spec fn suffix_total(cards: Seq<Seq<ResearchSymbol>>, hidden: Seq<ResearchSymbol>, py: int, ty: int, k: int, q: Seq<usize>) -> int
    decreases q.len(),
{
    if q.len() == 0 {
        0
    } else {
        gain(cards, hidden, py, ty, k, q[0] as int) + suffix_total(cards, hidden, py, ty, k + 1, q.drop_first())
    }
}

/// The slots `q` are distinct slots below `n` that `used` leaves free.
pub open spec fn free_slots(q: Seq<usize>, used: Seq<bool>, n: int) -> bool {
    &&& forall|i: int| 0 <= i < q.len() ==> #[trigger] q[i] < n && !used[q[i] as int]
    &&& forall|i: int, j: int| 0 <= i < j < q.len() ==> q[i] != q[j]
}

/// A one-to-one placement of `n` cards on `n` slots: card `i` on slot `q[i]`.
pub open spec fn is_placement(q: Seq<usize>, n: int) -> bool {
    q.len() == n && free_slots(q, Seq::new(n as nat, |i: int| false), n)
}

/// How many slots `used` marks.
pub open spec fn count_used(used: Seq<bool>) -> nat
    decreases used.len(),
{
    if used.len() == 0 {
        0
    } else {
        count_used(used.drop_last()) + if used.last() { 1nat } else { 0nat }
    }
}

proof fn lemma_free_slot_exists(used: Seq<bool>)
    requires
        count_used(used) < used.len(),
    ensures
        exists|j: int| 0 <= j < used.len() && !used[j],
    decreases used.len(),
{
    if used.last() {
        lemma_free_slot_exists(used.drop_last());
        let j = choose|j: int| 0 <= j < used.len() - 1 && !used.drop_last()[j];
        assert(!used[j]);
    } else {
        assert(!used[used.len() - 1]);
    }
}

proof fn lemma_count_mark(used: Seq<bool>, j: int)
    requires
        0 <= j < used.len(),
        !used[j],
    ensures
        count_used(used.update(j, true)) == count_used(used) + 1,
    decreases used.len(),
{
    if j < used.len() - 1 {
        assert(used.update(j, true).drop_last() =~= used.drop_last().update(j, true));
        lemma_count_mark(used.drop_last(), j);
    } else {
        assert(used.update(j, true).drop_last() =~= used.drop_last());
    }
}

/// Whether `x` is among the symbols `v`.
fn has_symbol(v: &Vec<ResearchSymbol>, x: ResearchSymbol) -> (r: bool)
    ensures
        r == v@.contains(x),
{
    let mut i: usize = 0;
    while i < v.len()
        invariant
            i <= v.len(),
            forall|a: int| 0 <= a < i ==> v@[a] != x,
        decreases v.len() - i,
    {
        if v[i] == x {
            assert(v@[i as int] == x);
            return true;
        }
        i += 1;
    }
    false
}

/// The best placement of cards `k, ...` on the slots `used` leaves free:
/// its total, and the slots. No free placement yields more.
fn best_placement(
    cards: &Vec<Vec<ResearchSymbol>>,
    hidden: &Vec<ResearchSymbol>,
    py: i64,
    ty: i64,
    k: usize,
    used: &mut Vec<bool>,
) -> (r: (i128, Vec<usize>))
    requires
        cards@.len() == hidden@.len(),
        old(used)@.len() == hidden@.len(),
        k <= hidden@.len(),
        count_used(old(used)@) == k,
        hidden@.len() < 0x1_0000_0000,
    ensures
        final(used)@ == old(used)@,
        r.1@.len() == hidden@.len() - k,
        free_slots(r.1@, old(used)@, hidden@.len() as int),
        r.0 == suffix_total(cards@.map_values(|c: Vec<ResearchSymbol>| c@), hidden@, py as int, ty as int, k as int, r.1@),
        -0x8000_0000_0000_0000 * (hidden@.len() - k) <= r.0 <= 0x8000_0000_0000_0000 * (hidden@.len() - k),
        forall|q: Seq<usize>| q.len() == hidden@.len() - k && #[trigger] free_slots(q, old(used)@, hidden@.len() as int)
            ==> suffix_total(cards@.map_values(|c: Vec<ResearchSymbol>| c@), hidden@, py as int, ty as int, k as int, q) <= r.0,
    decreases hidden@.len() - k,
{
    let n = hidden.len();
    let ghost cs = cards@.map_values(|c: Vec<ResearchSymbol>| c@);
    let ghost u0 = used@;
    if k == n {
        let v: Vec<usize> = Vec::new();
        proof {
            assert forall|q: Seq<usize>| q.len() == n - k && #[trigger] free_slots(q, u0, n as int)
                implies suffix_total(cs, hidden@, py as int, ty as int, k as int, q) <= 0 by {
                assert(q.len() == 0);
            }
        }
        return (0, v);
    }
    proof {
        lemma_free_slot_exists(u0);
    }
    let mut best_total: i128 = 0;
    let mut best: Vec<usize> = Vec::new();
    let mut found = false;
    let mut j: usize = 0;
    while j < n
        invariant
            n == hidden@.len(),
            cards@.len() == n,
            k < n,
            n < 0x1_0000_0000,
            used@ == u0,
            u0.len() == n,
            count_used(u0) == k,
            cs == cards@.map_values(|c: Vec<ResearchSymbol>| c@),
            j <= n,
            found ==> best@.len() == n - k && free_slots(best@, u0, n as int)
                && best_total == suffix_total(cs, hidden@, py as int, ty as int, k as int, best@)
                && -0x8000_0000_0000_0000 * (n - k) <= best_total <= 0x8000_0000_0000_0000 * (n - k),
            !found ==> forall|j2: int| 0 <= j2 < j ==> u0[j2],
            forall|q: Seq<usize>| q.len() == n - k && #[trigger] free_slots(q, u0, n as int) && q[0] < j
                ==> found && suffix_total(cs, hidden@, py as int, ty as int, k as int, q) <= best_total,
        decreases n - j,
    {
        if !used[j] {
            used.set(j, true);
            proof {
                lemma_count_mark(u0, j as int);
            }
            let (t, rest) = best_placement(cards, hidden, py, ty, k + 1, used);
            used.set(j, false);
            proof {
                assert(used@ =~= u0);
            }
            let g: i64 = if has_symbol(&cards[k], hidden[j]) {
                if k == j { py } else { ty }
            } else {
                0
            };
            proof {
                assert(cs[k as int] == cards@[k as int]@);
                assert(g as int == gain(cs, hidden@, py as int, ty as int, k as int, j as int));
            }
            let cand: i128 = g as i128 + t;
            let mut cand_slots: Vec<usize> = Vec::new();
            cand_slots.push(j);
            let mut rest_mut = rest;
            cand_slots.append(&mut rest_mut);
            let ghost um = u0.update(j as int, true);
            proof {
                let cq = cand_slots@;
                assert(cq.drop_first() =~= rest@);
                assert(cq[0] == j);
                assert forall|i: int| 0 <= i < cq.len() implies #[trigger] cq[i] < n && !u0[cq[i] as int] by {
                    if i > 0 {
                        assert(cq[i] == rest@[i - 1]);
                        assert(rest@[i - 1] < n && !um[rest@[i - 1] as int]);
                    }
                }
                assert forall|a: int, b: int| 0 <= a < b < cq.len() implies cq[a] != cq[b] by {
                    assert(cq[b] == rest@[b - 1]);
                    if a > 0 {
                        assert(cq[a] == rest@[a - 1]);
                    } else {
                        assert(!um[rest@[b - 1] as int]);
                    }
                }
                assert(cand as int == suffix_total(cs, hidden@, py as int, ty as int, k as int, cq));
                // every free placement starting on slot j yields at most `cand`
                assert forall|q: Seq<usize>| q.len() == n - k && #[trigger] free_slots(q, u0, n as int) && q[0] == j
                    implies suffix_total(cs, hidden@, py as int, ty as int, k as int, q) <= cand by {
                    let qr = q.drop_first();
                    assert forall|i: int| 0 <= i < qr.len() implies #[trigger] qr[i] < n && !um[qr[i] as int] by {
                        assert(qr[i] == q[i + 1]);
                        assert(q[0] != q[i + 1]);
                    }
                    assert forall|a: int, b: int| 0 <= a < b < qr.len() implies qr[a] != qr[b] by {
                        assert(qr[a] == q[a + 1] && qr[b] == q[b + 1]);
                    }
                    assert(free_slots(qr, um, n as int));
                }
            }
            if !found || cand > best_total {
                best_total = cand;
                best = cand_slots;
                found = true;
            }
        }
        j += 1;
    }
    proof {
        if !found {
            let j0 = choose|j0: int| 0 <= j0 < u0.len() && !u0[j0];
            assert(u0[j0]);
        }
    }
    (best_total, best)
}


/// The total yield of a placement `q` of all the cards.
pub open spec fn placement_total(cards: Seq<Seq<ResearchSymbol>>, hidden: Seq<ResearchSymbol>, py: int, ty: int, q: Seq<usize>) -> int {
    suffix_total(cards, hidden, py, ty, 0, q)
}

/// `r` is what each card yields in a best placement `q`: no placement of the
/// cards yields more in total. Where even the best total is not positive, no
/// card yields.
pub open spec fn matched_yields(cards: Seq<Seq<ResearchSymbol>>, hidden: Seq<ResearchSymbol>, py: int, ty: int, r: Seq<i64>) -> bool {
    let n = hidden.len() as int;
    &&& r.len() == n
    &&& exists|q: Seq<usize>| #[trigger] is_placement(q, n)
        && (forall|q2: Seq<usize>| #[trigger] is_placement(q2, n)
            ==> placement_total(cards, hidden, py, ty, q2) <= placement_total(cards, hidden, py, ty, q))
        && (forall|i: int| 0 <= i < n ==> #[trigger] r[i] == (if placement_total(cards, hidden, py, ty, q) > 0 {
            gain(cards, hidden, py, ty, i, q[i] as int)
        } else {
            0
        }))
}

proof fn lemma_no_slot_used(n: nat)
    ensures
        count_used(Seq::new(n, |i: int| false)) == 0,
    decreases n,
{
    if n > 0 {
        assert(Seq::new(n, |i: int| false).drop_last() =~= Seq::new((n - 1) as nat, |i: int| false));
        lemma_no_slot_used((n - 1) as nat);
    }
}

/// The yield of each played card in a best one-to-one placement of the cards
/// on the hidden slots (see `matched_yields`).
pub fn optimal_matching(cards: &Vec<Vec<ResearchSymbol>>, hidden: &Vec<ResearchSymbol>, py: i64, ty: i64) -> (r: Vec<i64>)
    requires
        cards@.len() == hidden@.len(),
        hidden@.len() < 0x1_0000_0000,
    ensures
        matched_yields(cards@.map_values(|c: Vec<ResearchSymbol>| c@), hidden@, py as int, ty as int, r@),
{
    let n = hidden.len();
    let ghost cs = cards@.map_values(|c: Vec<ResearchSymbol>| c@);
    let mut used: Vec<bool> = Vec::new();
    let mut i: usize = 0;
    while i < n
        invariant
            i <= n,
            used@ == Seq::new(i as nat, |a: int| false),
        decreases n - i,
    {
        used.push(false);
        proof {
            assert(used@ =~= Seq::new((i + 1) as nat, |a: int| false));
        }
        i += 1;
    }
    let ghost none = used@;
    proof {
        lemma_no_slot_used(n as nat);
    }
    let (total, slots) = best_placement(cards, hidden, py, ty, 0, &mut used);
    let mut r: Vec<i64> = Vec::new();
    let mut i: usize = 0;
    while i < n
        invariant
            i <= n,
            n == hidden@.len(),
            cards@.len() == n,
            slots@.len() == n,
            free_slots(slots@, none, n as int),
            cs == cards@.map_values(|c: Vec<ResearchSymbol>| c@),
            total == placement_total(cs, hidden@, py as int, ty as int, slots@),
            r@.len() == i,
            forall|a: int| 0 <= a < i ==> #[trigger] r@[a] == (if total > 0 {
                gain(cs, hidden@, py as int, ty as int, a, slots@[a] as int)
            } else {
                0
            }),
        decreases n - i,
    {
        let y: i64 = if total > 0 {
            let j = slots[i];
            proof {
                assert(cs[i as int] == cards@[i as int]@);
            }
            if has_symbol(&cards[i], hidden[j]) {
                if i == j { py } else { ty }
            } else {
                0
            }
        } else {
            0
        };
        r.push(y);
        i += 1;
    }
    proof {
        assert(none =~= Seq::new(n as nat, |a: int| false));
        assert(is_placement(slots@, n as int));
    }
    r
}


/// Why a research action was refused.
#[derive(Clone, Copy, Debug, PartialEq, Eq, Structural)]
pub enum ResearchError {
    /// Another encounter is under way.
    AlreadyInEncounter,
    /// The library has no card with this id.
    CardNotFound { card_id: usize },
    /// The card is not a research encounter.
    NotAResearchEncounter { card_id: usize },
    /// No research encounter is active (or it is already decided).
    NoActiveResearch,
    /// An experiment is already under way.
    ExperimentAlreadyActive,
    /// No experiment is under way.
    NoActiveExperiment,
    /// A project needs a tier count of at least one.
    InvalidTier,
    /// The library holds no effect of the discipline.
    NoEffectsForDiscipline,
    /// No candidates have been drawn up.
    NoCandidates,
    /// There is no candidate with this index.
    InvalidCandidate { index: usize },
    /// No research project is under way.
    NoActiveProject,
    /// Progress is made by a positive amount.
    NonPositiveAmount,
    /// No Insight can be spent on the project now.
    CannotProgress,
    /// A hand must hold one card per hidden slot.
    WrongHandSize { need: u32, got: usize },
    /// Only research cards are played in an experiment.
    NotAResearchCard { card_id: usize },
    /// The card has no copy in hand.
    NotInHand { card_id: usize },
    /// The card is played more times than it has copies in hand.
    TooManyCopies { card_id: usize },
    /// The player holds less Insight than the round costs.
    InsufficientInsight { need: i128, have: i64 },
    /// The player cannot pay the cards' costs.
    Cost(crate::library::costs::CostError),
}

/// The research encounter in progress, if any.
pub open spec fn research_of(enc: Option<EncounterState>) -> Option<ResearchEncounterState> {
    match enc {
        Some(EncounterState::Research(r)) => Some(r),
        _ => None,
    }
}

/// A research card.
pub open spec fn is_research_card(c: LibraryCard) -> bool {
    c.kind is Research
}

/// The research cards with a copy in the deck give one copy each to the hand,
/// in library order, `left` of them at most.
pub open spec fn draw_research(cards: Seq<LibraryCard>, left: int) -> Seq<LibraryCard>
    decreases cards.len(),
{
    if cards.len() == 0 {
        cards
    } else {
        let c = cards[0];
        if left > 0 && is_research_card(c) && c.counts.deck > 0 {
            seq![with_card_counts(c, CardCounts { deck: (c.counts.deck - 1) as u32, hand: (c.counts.hand + 1) as u32, ..c.counts })]
                + draw_research(cards.drop_first(), left - 1)
        } else {
            seq![c] + draw_research(cards.drop_first(), left)
        }
    }
}

/// Every research card takes its copies from hand and discard back into the deck.
pub open spec fn return_research(cards: Seq<LibraryCard>) -> Seq<LibraryCard> {
    Seq::new(cards.len(), |i: int| if is_research_card(cards[i]) {
        with_card_counts(cards[i], CardCounts {
            deck: (cards[i].counts.deck + cards[i].counts.hand + cards[i].counts.discard) as u32,
            hand: 0,
            discard: 0,
            ..cards[i].counts
        })
    } else {
        cards[i]
    })
}

/// The research encounter `st` is started from encounter card `id`: nothing
/// played, no experiment, undecided.
pub open spec fn research_started(st: ResearchEncounterState, id: usize) -> bool {
    &&& st.encounter_card_id == id
    &&& st.outcome == EncounterOutcome::Undecided
    &&& st.candidates is None
    &&& st.hidden_types is None
    &&& st.accumulated_yield == 0
    &&& st.rounds_played == 0
    &&& st.round_history@.len() == 0
    &&& !st.experiment_active
}

/// Why an experiment cannot begin in state `s`, if it cannot.
pub open spec fn begin_error(s: GameState) -> Option<ResearchError> {
    match research_of(s.current_encounter) {
        Some(st) if st.outcome == EncounterOutcome::Undecided => if st.experiment_active {
            Some(ResearchError::ExperimentAlreadyActive)
        } else {
            match research_def_at(s.library.cards@, st.encounter_card_id) {
                Err(e) => Some(e),
                Ok(_) => None,
            }
        },
        _ => Some(ResearchError::NoActiveResearch),
    }
}

/// An experiment begins from `s`, giving `t`: as many symbols hidden as the
/// encounter has slots, nothing yielded or played yet, and up to seven
/// research cards drawn.
pub open spec fn experiment_begun(s: GameState, t: GameState) -> bool {
    let st = research_of(s.current_encounter)->Some_0;
    let def = research_def_at(s.library.cards@, st.encounter_card_id)->Ok_0;
    &&& research_of(t.current_encounter) matches Some(st2) && {
        &&& st2.hidden_types matches Some(h) && h@.len() == def.target_size
        &&& st2.experiment_active
        &&& st2.accumulated_yield == 0
        &&& st2.rounds_played == 0
        &&& st2.round_history@.len() == 0
        &&& st2.encounter_card_id == st.encounter_card_id
        &&& st2.outcome == st.outcome
        &&& st2.candidates == st.candidates
    }
    &&& t.library.cards@ == draw_research(s.library.cards@, 7)
    &&& t.library.woodcutting_patterns == s.library.woodcutting_patterns
    &&& t.current_research == s.current_research
    &&& t.token_balances == s.token_balances
    &&& t.encounter_phase == s.encounter_phase
    &&& t.encounter_results == s.encounter_results
    &&& t.last_encounter_result == s.last_encounter_result
    &&& t.game_rules == s.game_rules
}

/// Why no experiment can be concluded in state `s`, if none can.
pub open spec fn experiment_error(s: GameState) -> Option<ResearchError> {
    match research_of(s.current_encounter) {
        Some(st) if st.outcome == EncounterOutcome::Undecided && st.experiment_active => None,
        _ => Some(ResearchError::NoActiveExperiment),
    }
}

/// The experiment under way in `s` is concluded, giving `t`: it is won where
/// its yield is positive, else lost. A positive yield advances the research
/// project, if there is one (see `project_advanced`); the research cards go
/// back to the deck and the encounter ends.
pub open spec fn experiment_concluded(s: GameState, t: GameState) -> bool {
    let st = research_of(s.current_encounter)->Some_0;
    &&& research_closed(s, t,
        if st.accumulated_yield > 0 { EncounterOutcome::PlayerWon } else { EncounterOutcome::PlayerLost },
        t.library.cards@)
    &&& t.library.woodcutting_patterns == s.library.woodcutting_patterns
    &&& if st.accumulated_yield > 0 && s.current_research is Some {
        project_advanced(s.current_research->Some_0, st.accumulated_yield as int,
            return_research(s.library.cards@), t.library.cards@, t.current_research)
    } else {
        &&& t.library.cards@ == return_research(s.library.cards@)
        &&& t.current_research == s.current_research
    }
}

/// The encounter ends at `t` with outcome `o`, the library's cards `cards`.
pub open spec fn research_closed(s: GameState, t: GameState, o: EncounterOutcome, cards: Seq<LibraryCard>) -> bool {
    &&& t.current_encounter is None
    &&& t.encounter_phase == EncounterPhase::Scouting
    &&& t.encounter_results@ == s.encounter_results@.push(o)
    &&& t.last_encounter_result == Some(o)
    &&& t.token_balances == s.token_balances
    &&& t.library.cards@ == cards
    &&& t.game_rules == s.game_rules
}

/// The definition of the research encounter of card `id`, or why there is none.
pub open spec fn research_def_at(cards: Seq<LibraryCard>, id: usize) -> Result<ResearchDef, ResearchError> {
    if id >= cards.len() {
        Err(ResearchError::CardNotFound { card_id: id })
    } else {
        match cards[id as int].kind {
            CardKind::Encounter { encounter_kind: EncounterKind::Research { research_def } } => Ok(research_def),
            _ => Err(ResearchError::NotAResearchEncounter { card_id: id }),
        }
    }
}

fn research_def_exec(cards: &Vec<LibraryCard>, id: usize) -> (r: Result<(u32, i64, i64, i64), ResearchError>)
    ensures
        match research_def_at(cards@, id) {
            Ok(d) => r == Ok::<(u32, i64, i64, i64), ResearchError>(
                (d.target_size, d.base_insight_cost, d.position_match_yield, d.type_match_yield),
            ),
            Err(e) => r == Err::<(u32, i64, i64, i64), ResearchError>(e),
        },
{
    if id >= cards.len() {
        return Err(ResearchError::CardNotFound { card_id: id });
    }
    match &cards[id].kind {
        CardKind::Encounter { encounter_kind: EncounterKind::Research { research_def } } => Ok(
            (research_def.target_size, research_def.base_insight_cost, research_def.position_match_yield, research_def.type_match_yield),
        ),
        _ => Err(ResearchError::NotAResearchEncounter { card_id: id }),
    }
}

proof fn lemma_draw_research_step(cards: Seq<LibraryCard>, i: int, left: int)
    requires
        0 <= i < cards.len(),
    ensures
        draw_research(cards.subrange(i, cards.len() as int), left) == (if left > 0 && is_research_card(cards[i])
            && cards[i].counts.deck > 0 {
            seq![with_card_counts(cards[i], CardCounts { deck: (cards[i].counts.deck - 1) as u32, hand: (cards[i].counts.hand + 1) as u32, ..cards[i].counts })]
                + draw_research(cards.subrange(i + 1, cards.len() as int), left - 1)
        } else {
            seq![cards[i]] + draw_research(cards.subrange(i + 1, cards.len() as int), left)
        }),
{
    let r = cards.subrange(i, cards.len() as int);
    assert(r[0] == cards[i]);
    assert(r.drop_first() =~= cards.subrange(i + 1, cards.len() as int));
}

/// Draw research cards in library order, `left` at most (see `draw_research`).
fn draw_research_exec(cards: &mut Vec<LibraryCard>, left: usize)
    requires
        counts_fit(old(cards)@),
    ensures
        final(cards)@ == draw_research(old(cards)@, left as int),
{
    let ghost orig = cards@;
    let n = cards.len();
    let mut left = left;
    let ghost left0 = left as int;
    let mut i: usize = 0;
    assert(orig.subrange(0, n as int) =~= orig);
    assert(cards@.subrange(0, 0) + draw_research(orig.subrange(0, n as int), left0) =~= draw_research(orig, left0));
    while i < n
        invariant
            n == orig.len(),
            i <= n,
            cards@.len() == n,
            counts_fit(orig),
            forall|j: int| i <= j < n ==> #[trigger] cards@[j] == orig[j],
            cards@.subrange(0, i as int) + draw_research(orig.subrange(i as int, n as int), left as int) == draw_research(orig, left0),
        decreases n - i,
    {
        proof {
            lemma_draw_research_step(orig, i as int, left as int);
            assert(orig[i as int].counts.spec_total() <= u32::MAX);
        }
        let ghost before = cards@;
        let is_r = match &cards[i].kind {
            CardKind::Research { .. } => true,
            _ => false,
        };
        if left > 0 && is_r && cards[i].counts.deck > 0 {
            let c = cards[i].counts;
            cards[i].counts = CardCounts { deck: c.deck - 1, hand: c.hand + 1, ..c };
            left -= 1;
        }
        proof {
            assert(cards@.subrange(0, i + 1) =~= before.subrange(0, i as int).push(cards@[i as int]));
            assert(cards@.subrange(0, i as int) =~= before.subrange(0, i as int));
            assert(cards@[i as int] == with_card_counts(orig[i as int], cards@[i as int].counts));
        }
        i += 1;
        proof {
            assert(cards@.subrange(0, i as int) + draw_research(orig.subrange(i as int, n as int), left as int)
                =~= draw_research(orig, left0));
        }
    }
    assert(orig.subrange(n as int, n as int) =~= Seq::<LibraryCard>::empty());
    assert(cards@ =~= cards@.subrange(0, n as int));
}

/// Return every research card's copies in hand and discard to the deck.
fn return_research_exec(cards: &mut Vec<LibraryCard>)
    requires
        counts_fit(old(cards)@),
    ensures
        final(cards)@ == return_research(old(cards)@),
{
    let ghost orig = cards@;
    let mut i: usize = 0;
    while i < cards.len()
        invariant
            i <= cards@.len(),
            cards@.len() == orig.len(),
            counts_fit(orig),
            forall|j: int| 0 <= j < i ==> #[trigger] cards@[j] == return_research(orig)[j],
            forall|j: int| i <= j < cards@.len() ==> #[trigger] cards@[j] == orig[j],
        decreases cards@.len() - i,
    {
        proof {
            assert(orig[i as int].counts.spec_total() <= u32::MAX);
        }
        let is_r = match &cards[i].kind {
            CardKind::Research { .. } => true,
            _ => false,
        };
        if is_r {
            let c = cards[i].counts;
            cards[i].counts = CardCounts { deck: c.deck + c.hand + c.discard, hand: 0, discard: 0, ..c };
        }
        i += 1;
    }
    assert(cards@ =~= return_research(orig));
}

impl GameState {
    fn finish_research(&mut self, outcome: EncounterOutcome)
        ensures
            research_closed(*old(self), *final(self), outcome, old(self).library.cards@),
            final(self).library == old(self).library,
            final(self).current_research == old(self).current_research,
    {
        self.last_encounter_result = Some(outcome);
        self.encounter_results.push(outcome);
        self.current_encounter = None;
        self.encounter_phase = EncounterPhase::Scouting;
    }

    /// Start a research encounter from a library encounter card (see
    /// `research_started`).
    pub fn start_research_encounter(&mut self, encounter_card_id: usize) -> (r: Result<(), ResearchError>)
        ensures
            old(self).current_encounter is Some ==> r == Err::<(), ResearchError>(ResearchError::AlreadyInEncounter) && *final(self) == *old(self),
            old(self).current_encounter is None ==> match research_def_at(old(self).library.cards@, encounter_card_id) {
                Err(e) => r == Err::<(), ResearchError>(e) && *final(self) == *old(self),
                Ok(_) => {
                    &&& r is Ok
                    &&& research_of(final(self).current_encounter) matches Some(st) && research_started(st, encounter_card_id)
                    &&& final(self).current_research == old(self).current_research
                    &&& final(self).encounter_phase == EncounterPhase::InEncounter
                    &&& final(self).library == old(self).library
                    &&& final(self).token_balances == old(self).token_balances
                    &&& final(self).encounter_results == old(self).encounter_results
                    &&& final(self).game_rules == old(self).game_rules
                },
            },
    {
        if self.current_encounter.is_some() {
            return Err(ResearchError::AlreadyInEncounter);
        }
        match research_def_exec(&self.library.cards, encounter_card_id) {
            Err(e) => {
                return Err(e);
            },
            Ok(_) => {},
        }
        self.current_encounter = Some(EncounterState::Research(ResearchEncounterState {
            encounter_card_id,
            outcome: EncounterOutcome::Undecided,
            candidates: None,
            hidden_types: None,
            accumulated_yield: 0,
            rounds_played: 0,
            round_history: Vec::new(),
            experiment_active: false,
        }));
        self.encounter_phase = EncounterPhase::InEncounter;
        Ok(())
    }

    /// Begin an experiment: a symbol is hidden in each slot (chosen at
    /// random), up to seven research cards are drawn, and the yields and
    /// rounds start anew.
    pub fn research_begin_experiment(&mut self, rng: &mut Lcg64Xsh32) -> (r: Result<(), ResearchError>)
        requires
            counts_fit(old(self).library.cards@),
        ensures
            begin_error(*old(self)) matches Some(e) ==> r == Err::<(), ResearchError>(e) && *final(self) == *old(self),
            begin_error(*old(self)) is None ==> r is Ok && experiment_begun(*old(self), *final(self)),
    {
        let id = match &self.current_encounter {
            Some(EncounterState::Research(st)) => {
                if st.outcome != EncounterOutcome::Undecided {
                    return Err(ResearchError::NoActiveResearch);
                }
                if st.experiment_active {
                    return Err(ResearchError::ExperimentAlreadyActive);
                }
                st.encounter_card_id
            },
            _ => {
                return Err(ResearchError::NoActiveResearch);
            },
        };
        let size = match research_def_exec(&self.library.cards, id) {
            Err(e) => {
                return Err(e);
            },
            Ok((size, _, _, _)) => size,
        };
        let symbols: Vec<ResearchSymbol> = vec![
            ResearchSymbol::Alpha,
            ResearchSymbol::Beta,
            ResearchSymbol::Gamma,
            ResearchSymbol::Delta,
            ResearchSymbol::Epsilon,
            ResearchSymbol::Zeta,
        ];
        let mut hidden: Vec<ResearchSymbol> = Vec::new();
        let mut k: u32 = 0;
        while k < size
            invariant
                k <= size,
                hidden@.len() == k,
                symbols@.len() == 6,
            decreases size - k,
        {
            let x = next_u64(rng);
            let idx = (x % 6) as usize;
            hidden.push(symbols[idx]);
            k += 1;
        }
        draw_research_exec(&mut self.library.cards, 7);
        let mut st = match self.current_encounter.take() {
            Some(EncounterState::Research(st)) => st,
            _ => {
                proof {
                    assert(false);
                }
                return Err(ResearchError::NoActiveResearch);
            },
        };
        st.hidden_types = Some(hidden);
        st.experiment_active = true;
        st.accumulated_yield = 0;
        st.rounds_played = 0;
        st.round_history = Vec::new();
        self.current_encounter = Some(EncounterState::Research(st));
        Ok(())
    }

    /// Conclude the experiment: it is won where its yield is positive, else
    /// lost. A positive yield advances the research project, if there is one
    /// (see `project_advanced`); the research cards go back to the deck and
    /// the encounter ends.
    pub fn research_conclude_experiment(&mut self, rng: &mut Lcg64Xsh32) -> (r: Result<(), ResearchError>)
        requires
            counts_fit(old(self).library.cards@),
            research_of(old(self).current_encounter) matches Some(st) && old(self).current_research matches Some(p)
                ==> fits(p.progress + st.accumulated_yield)
                && base_cost_fits(CardKind::Attack { effects: p.chosen_card.effects }),
        ensures
            experiment_error(*old(self)) matches Some(e) ==> r == Err::<(), ResearchError>(e) && *final(self) == *old(self),
            experiment_error(*old(self)) is None ==> r is Ok && experiment_concluded(*old(self), *final(self)),
    {
        let gain = match &self.current_encounter {
            Some(EncounterState::Research(st)) => {
                if st.outcome != EncounterOutcome::Undecided || !st.experiment_active {
                    return Err(ResearchError::NoActiveExperiment);
                }
                st.accumulated_yield
            },
            _ => {
                return Err(ResearchError::NoActiveExperiment);
            },
        };
        let won = gain > 0;
        return_research_exec(&mut self.library.cards);
        if won && self.current_research.is_some() {
            self.advance_project(gain, rng);
        }
        self.finish_research(if won { EncounterOutcome::PlayerWon } else { EncounterOutcome::PlayerLost });
        Ok(())
    }

    /// Conclude the research encounter as won.
    pub fn conclude_research_encounter(&mut self) -> (r: Result<(), ResearchError>)
        ensures
            match research_of(old(self).current_encounter) {
                Some(st) if st.outcome == EncounterOutcome::Undecided => r is Ok
                    && research_closed(*old(self), *final(self), EncounterOutcome::PlayerWon, old(self).library.cards@)
                    && final(self).current_research == old(self).current_research,
                _ => r == Err::<(), ResearchError>(ResearchError::NoActiveResearch) && *final(self) == *old(self),
            },
    {
        match &self.current_encounter {
            Some(EncounterState::Research(st)) => {
                if st.outcome != EncounterOutcome::Undecided {
                    return Err(ResearchError::NoActiveResearch);
                }
            },
            _ => {
                return Err(ResearchError::NoActiveResearch);
            },
        }
        self.finish_research(EncounterOutcome::PlayerWon);
        Ok(())
    }

    /// Abort the research encounter: the research cards go back to the deck,
    /// and the encounter ends as won.
    pub fn abort_research_encounter(&mut self)
        requires
            counts_fit(old(self).library.cards@),
        ensures
            research_closed(*old(self), *final(self), EncounterOutcome::PlayerWon, return_research(old(self).library.cards@)),
            final(self).current_research == old(self).current_research,
    {
        let ghost s0 = *self;
        return_research_exec(&mut self.library.cards);
        self.finish_research(EncounterOutcome::PlayerWon);
    }
}


/// The effects of a research card (none for another card).
pub open spec fn research_effects(k: CardKind) -> Seq<ConcreteEffect> {
    match k {
        CardKind::Research { effects } => effects@,
        _ => Seq::empty(),
    }
}

/// The symbols of the research probes among `effects`, in order.
pub open spec fn probe_symbols(effects: Seq<ConcreteEffect>, lib: Library) -> Seq<ResearchSymbol>
    decreases effects.len(),
{
    if effects.len() == 0 {
        Seq::empty()
    } else {
        (match template_of(lib, effects[0].effect_id) {
            Some(CardEffectKindView::ResearchProbe { symbols, .. }) => symbols,
            _ => Seq::empty(),
        }) + probe_symbols(effects.drop_first(), lib)
    }
}

/// The symbols of each card played.
pub open spec fn played_symbols(cards: Seq<LibraryCard>, ids: Seq<usize>, lib: Library) -> Seq<Seq<ResearchSymbol>> {
    Seq::new(ids.len(), |i: int| probe_symbols(research_effects(cards[ids[i] as int].kind), lib))
}

/// The first card of the hand, from position `i` on, that does not exist, is
/// not a research card or has no copy in hand.
pub open spec fn first_card_error(cards: Seq<LibraryCard>, ids: Seq<usize>, i: int) -> Option<ResearchError>
    decreases ids.len() - i,
{
    if i >= ids.len() || i < 0 {
        None
    } else {
        let c = ids[i];
        if c >= cards.len() {
            Some(ResearchError::CardNotFound { card_id: c })
        } else if !is_research_card(cards[c as int]) {
            Some(ResearchError::NotAResearchCard { card_id: c })
        } else if cards[c as int].counts.hand == 0 {
            Some(ResearchError::NotInHand { card_id: c })
        } else {
            first_card_error(cards, ids, i + 1)
        }
    }
}

/// The first card of the hand, from position `i` on, played by then more
/// times than it has copies in hand.
pub open spec fn first_overdrawn(cards: Seq<LibraryCard>, ids: Seq<usize>, i: int) -> Option<usize>
    decreases ids.len() - i,
{
    if i >= ids.len() || i < 0 {
        None
    } else if occ(ids.subrange(0, i + 1), ids[i]) > cards[ids[i] as int].counts.hand {
        Some(ids[i])
    } else {
        first_overdrawn(cards, ids, i + 1)
    }
}

/// The costs of the cards played, in order.
pub open spec fn hand_costs(cards: Seq<LibraryCard>, ids: Seq<usize>) -> Seq<TokenAmount>
    decreases ids.len(),
{
    if ids.len() == 0 {
        Seq::empty()
    } else {
        hand_costs(cards, ids.drop_last()) + gathering_costs(research_effects(cards[ids.last() as int].kind))
    }
}

/// The Insight counter research rounds are paid from.
pub open spec fn insight_key() -> TokenKey {
    persistent_key(TokenType::Insight)
}

/// The Insight the next round of `st` costs: the round's number times the
/// base cost.
pub open spec fn round_cost(st: ResearchEncounterState, def: ResearchDef) -> int {
    (st.rounds_played + 1) * def.base_insight_cost
}

/// Why the hand `ids` is refused in the experiment `st` of `s` with
/// definition `def`, if it is.
pub open spec fn hand_error(s: GameState, st: ResearchEncounterState, def: ResearchDef, ids: Seq<usize>) -> Option<ResearchError> {
    let cards = s.library.cards@;
    let have = s.token_balances.spec_value(insight_key());
    if ids.len() != def.target_size {
        Some(ResearchError::WrongHandSize { need: def.target_size, got: ids.len() as usize })
    } else if first_card_error(cards, ids, 0) != None::<ResearchError> {
        first_card_error(cards, ids, 0)
    } else if first_overdrawn(cards, ids, 0) != None::<usize> {
        Some(ResearchError::TooManyCopies { card_id: first_overdrawn(cards, ids, 0)->Some_0 })
    } else if have < round_cost(st, def) {
        Some(ResearchError::InsufficientInsight { need: round_cost(st, def) as i128, have: have as i64 })
    } else {
        match preview_result(hand_costs(cards, ids), s.token_balances) {
            Err(e) => Some(ResearchError::Cost(e)),
            Ok(_) => None,
        }
    }
}

/// Why playing the hand `ids` in the experiment of `s` is refused, if it is.
pub open spec fn research_play_error(s: GameState, ids: Seq<usize>) -> Option<ResearchError> {
    match research_of(s.current_encounter) {
        None => Some(ResearchError::NoActiveExperiment),
        Some(st) => if st.outcome != EncounterOutcome::Undecided || !st.experiment_active || st.hidden_types is None {
            Some(ResearchError::NoActiveExperiment)
        } else {
            match research_def_at(s.library.cards@, st.encounter_card_id) {
                Err(e) => Some(e),
                Ok(def) => hand_error(s, st, def, ids),
            }
        },
    }
}

/// What playing the hand `ids` needs to stay in range: the costs, the
/// Insight paid, the yields and the round counter.
pub open spec fn research_play_fits(s: GameState, ids: Seq<usize>) -> bool {
    let cards = s.library.cards@;
    let st = research_of(s.current_encounter)->Some_0;
    let def = research_def_at(cards, st.encounter_card_id)->Ok_0;
    let m = abs_of(def.position_match_yield as int) + abs_of(def.type_match_yield as int);
    &&& deduct_fits(hand_costs(cards, ids), s.token_balances)
    &&& fits(get0(deduct_b(bal(s.token_balances), hand_costs(cards, ids)).0, insight_key()) - round_cost(st, def))
    &&& st.hidden_types->Some_0@.len() == def.target_size
    &&& fits(round_cost(st, def))
    &&& abs_of(st.accumulated_yield as int) + m * def.target_size <= i64::MAX
    &&& st.rounds_played < u32::MAX
}

pub open spec fn abs_of(x: int) -> int {
    if x < 0 { -x } else { x }
}

/// One copy of card `id` goes from hand to discard, where it has one in hand.
pub open spec fn discard_one(cards: Seq<LibraryCard>, id: usize) -> Seq<LibraryCard> {
    if id < cards.len() && cards[id as int].counts.hand > 0 {
        let c = cards[id as int];
        cards.update(id as int, with_card_counts(c, CardCounts { hand: (c.counts.hand - 1) as u32, discard: (c.counts.discard + 1) as u32, ..c.counts }))
    } else {
        cards
    }
}

/// The cards played go from hand to discard, one copy each, in order.
pub open spec fn discard_played(cards: Seq<LibraryCard>, ids: Seq<usize>) -> Seq<LibraryCard>
    decreases ids.len(),
{
    if ids.len() == 0 {
        cards
    } else {
        discard_played(discard_one(cards, ids[0]), ids.drop_first())
    }
}

/// The copies of research cards in the deck.
pub open spec fn research_deck_total(cards: Seq<LibraryCard>) -> int
    decreases cards.len(),
{
    if cards.len() == 0 {
        0
    } else {
        research_deck_total(cards.drop_last()) + if is_research_card(cards.last()) { cards.last().counts.deck as int } else { 0 }
    }
}

/// With no research card left in the deck, the research discard returns to
/// the deck.
pub open spec fn recycle_research(cards: Seq<LibraryCard>) -> Seq<LibraryCard> {
    if research_deck_total(cards) == 0 {
        Seq::new(cards.len(), |i: int| if is_research_card(cards[i]) {
            with_card_counts(cards[i], CardCounts {
                deck: (cards[i].counts.deck + cards[i].counts.discard) as u32,
                discard: 0,
                ..cards[i].counts
            })
        } else {
            cards[i]
        })
    } else {
        cards
    }
}

/// The sum of `v`.
pub open spec fn sum_of(v: Seq<i64>) -> int
    decreases v.len(),
{
    if v.len() == 0 { 0 } else { sum_of(v.drop_last()) + v.last() }
}

/// What playing the hand `ids` in state `s` gives, `t`: the cards' costs and
/// the round's Insight are paid; the cards are placed on the hidden slots as
/// well as they can be (see `matched_yields`) and the round's yield adds to
/// the experiment's; the cards go to the discard, as many research cards are
/// drawn, and where the research deck is empty its discard returns to it.
pub open spec fn research_hand_played(s: GameState, t: GameState, ids: Seq<usize>) -> bool {
    let cards = s.library.cards@;
    let st = research_of(s.current_encounter)->Some_0;
    let def = research_def_at(cards, st.encounter_card_id)->Ok_0;
    let cost = round_cost(st, def);
    let p0 = deduct_b(bal(s.token_balances), hand_costs(cards, ids));
    let p1 = bset(p0, insight_key(), (get0(p0.0, insight_key()) - cost) as i64);
    &&& bal(t.token_balances) == p1
    &&& t.library.cards@ == recycle_research(draw_research(discard_played(cards, ids), ids.len() as int))
    &&& t.library.woodcutting_patterns == s.library.woodcutting_patterns
    &&& research_of(t.current_encounter) matches Some(st2) && {
        let res = st2.round_history@.last();
        &&& st2.round_history@.len() == st.round_history@.len() + 1
        &&& st2.round_history@.drop_last() == st.round_history@
        &&& res.cards_played@ == ids
        &&& matched_yields(played_symbols(cards, ids, s.library), st.hidden_types->Some_0@,
            def.position_match_yield as int, def.type_match_yield as int, res.per_card_yield@)
        &&& res.round_yield == sum_of(res.per_card_yield@)
        &&& res.insight_cost == cost
        &&& st2.accumulated_yield == st.accumulated_yield + res.round_yield
        &&& st2.rounds_played == st.rounds_played + 1
        &&& st2.hidden_types == st.hidden_types
        &&& st2.encounter_card_id == st.encounter_card_id
        &&& st2.outcome == st.outcome
        &&& st2.experiment_active == st.experiment_active
    }
    &&& t.encounter_phase == s.encounter_phase
    &&& t.encounter_results == s.encounter_results
    &&& t.last_encounter_result == s.last_encounter_result
    &&& t.game_rules == s.game_rules
}


proof fn lemma_cards_valid(cards: Seq<LibraryCard>, ids: Seq<usize>, i: int)
    requires
        0 <= i <= ids.len(),
        first_card_error(cards, ids, i) is None,
    ensures
        forall|j: int| i <= j < ids.len() ==> #[trigger] ids[j] < cards.len() && is_research_card(cards[ids[j] as int])
            && cards[ids[j] as int].counts.hand > 0,
    decreases ids.len() - i,
{
    if i < ids.len() {
        lemma_cards_valid(cards, ids, i + 1);
    }
}

/// The first card of the hand that is missing, not a research card or not in
/// hand (see `first_card_error`).
fn check_hand_cards(cards: &Vec<LibraryCard>, ids: &Vec<usize>) -> (r: Option<ResearchError>)
    ensures
        r == first_card_error(cards@, ids@, 0),
{
    let mut i: usize = 0;
    while i < ids.len()
        invariant
            i <= ids.len(),
            first_card_error(cards@, ids@, 0) == first_card_error(cards@, ids@, i as int),
        decreases ids.len() - i,
    {
        let c = ids[i];
        if c >= cards.len() {
            return Some(ResearchError::CardNotFound { card_id: c });
        }
        let is_r = match &cards[c].kind {
            CardKind::Research { .. } => true,
            _ => false,
        };
        if !is_r {
            return Some(ResearchError::NotAResearchCard { card_id: c });
        }
        if cards[c].counts.hand == 0 {
            return Some(ResearchError::NotInHand { card_id: c });
        }
        i += 1;
    }
    None
}

/// How often `x` occurs among the first `upto` ids.
fn count_id(ids: &Vec<usize>, x: usize, upto: usize) -> (r: u64)
    requires
        upto <= ids.len(),
    ensures
        r as int == occ(ids@.subrange(0, upto as int), x),
{
    let mut c: u64 = 0;
    let mut i: usize = 0;
    while i < upto
        invariant
            i <= upto,
            upto <= ids.len(),
            c as int == occ(ids@.subrange(0, i as int), x),
            c <= i,
        decreases upto - i,
    {
        proof {
            assert(ids@.subrange(0, i + 1).drop_last() =~= ids@.subrange(0, i as int));
        }
        if ids[i] == x {
            c += 1;
        }
        i += 1;
    }
    c
}

/// The first card played more times than it has copies in hand (see `first_overdrawn`).
fn check_overdrawn(cards: &Vec<LibraryCard>, ids: &Vec<usize>) -> (r: Option<usize>)
    requires
        first_card_error(cards@, ids@, 0) is None,
    ensures
        r == first_overdrawn(cards@, ids@, 0),
{
    proof {
        lemma_cards_valid(cards@, ids@, 0);
    }
    let mut i: usize = 0;
    while i < ids.len()
        invariant
            i <= ids.len(),
            forall|j: int| 0 <= j < ids@.len() ==> #[trigger] ids@[j] < cards@.len(),
            first_overdrawn(cards@, ids@, 0) == first_overdrawn(cards@, ids@, i as int),
        decreases ids.len() - i,
    {
        let c = ids[i];
        let n = count_id(ids, c, i + 1);
        if n > cards[c].counts.hand as u64 {
            return Some(c);
        }
        i += 1;
    }
    None
}

/// The costs of the cards played, in order (see `hand_costs`).
fn collect_hand_costs(cards: &Vec<LibraryCard>, ids: &Vec<usize>) -> (r: Vec<TokenAmount>)
    requires
        forall|j: int| 0 <= j < ids@.len() ==> #[trigger] ids@[j] < cards@.len(),
    ensures
        r@ == hand_costs(cards@, ids@),
{
    let mut out: Vec<TokenAmount> = Vec::new();
    let mut i: usize = 0;
    while i < ids.len()
        invariant
            i <= ids.len(),
            forall|j: int| 0 <= j < ids@.len() ==> #[trigger] ids@[j] < cards@.len(),
            out@ == hand_costs(cards@, ids@.subrange(0, i as int)),
        decreases ids.len() - i,
    {
        let c = ids[i];
        let mut more = match &cards[c].kind {
            CardKind::Research { effects } => extract_gathering_costs_from_effects(effects.as_slice()),
            _ => Vec::new(),
        };
        proof {
            let pre = ids@.subrange(0, i + 1);
            assert(pre.drop_last() =~= ids@.subrange(0, i as int));
            assert(pre.last() == c);
            if !(cards@[c as int].kind is Research) {
                assert(gathering_costs(Seq::<ConcreteEffect>::empty()) =~= Seq::<TokenAmount>::empty());
            }
        }
        out.append(&mut more);
        i += 1;
    }
    assert(ids@.subrange(0, ids@.len() as int) =~= ids@);
    out
}

/// The symbols of the research probes among `effects` (see `probe_symbols`).
fn card_symbols(effects: &Vec<ConcreteEffect>, library: &Library) -> (r: Vec<ResearchSymbol>)
    ensures
        r@ == probe_symbols(effects@, *library),
{
    let mut out: Vec<ResearchSymbol> = Vec::new();
    let n = effects.len();
    let mut i: usize = 0;
    assert(effects@.subrange(0, n as int) =~= effects@);
    while i < n
        invariant
            i <= n,
            n == effects@.len(),
            out@ + probe_symbols(effects@.subrange(i as int, n as int), *library) == probe_symbols(effects@, *library),
        decreases n - i,
    {
        let ghost rest = effects@.subrange(i as int, n as int);
        proof {
            assert(rest[0] == effects@[i as int]);
            assert(rest.drop_first() =~= effects@.subrange(i + 1, n as int));
        }
        match library.effect_kind(effects[i].effect_id) {
            Some(CardEffectKind::ResearchProbe { symbols, .. }) => {
                let ghost before = out@;
                let mut j: usize = 0;
                while j < symbols.len()
                    invariant
                        j <= symbols.len(),
                        out@ == before + symbols@.subrange(0, j as int),
                    decreases symbols.len() - j,
                {
                    out.push(symbols[j]);
                    proof {
                        assert(before + symbols@.subrange(0, j + 1) =~= (before + symbols@.subrange(0, j as int)).push(symbols@[j as int]));
                    }
                    j += 1;
                }
                proof {
                    assert(symbols@.subrange(0, symbols@.len() as int) =~= symbols@);
                    assert(before + probe_symbols(rest, *library) =~= out@ + probe_symbols(effects@.subrange(i + 1, n as int), *library));
                }
            },
            _ => {
                proof {
                    assert(Seq::<ResearchSymbol>::empty() + probe_symbols(effects@.subrange(i + 1, n as int), *library)
                        =~= probe_symbols(effects@.subrange(i + 1, n as int), *library));
                }
            },
        }
        i += 1;
    }
    assert(effects@.subrange(n as int, n as int) =~= Seq::<ConcreteEffect>::empty());
    assert(out@ + Seq::<ResearchSymbol>::empty() =~= out@);
    out
}

fn copy_hidden(v: &Vec<ResearchSymbol>) -> (r: Vec<ResearchSymbol>)
    ensures
        r@ == v@,
{
    let mut r: Vec<ResearchSymbol> = Vec::new();
    let mut i: usize = 0;
    while i < v.len()
        invariant
            i <= v.len(),
            r@ == v@.subrange(0, i as int),
        decreases v.len() - i,
    {
        r.push(v[i]);
        i += 1;
    }
    assert(v@.subrange(0, v@.len() as int) =~= v@);
    r
}

proof fn lemma_draw_research_fits(cards: Seq<LibraryCard>, left: int)
    requires
        counts_fit(cards),
    ensures
        counts_fit(draw_research(cards, left)),
        draw_research(cards, left).len() == cards.len(),
    decreases cards.len(),
{
    if cards.len() > 0 {
        let rest = cards.drop_first();
        assert forall|i: int| 0 <= i < rest.len() implies (#[trigger] rest[i]).counts.spec_total() <= u32::MAX by {
            assert(rest[i] == cards[i + 1]);
        }
        lemma_draw_research_fits(rest, left - 1);
        lemma_draw_research_fits(rest, left);
        let d = draw_research(cards, left);
        assert(cards[0].counts.spec_total() <= u32::MAX);
        assert forall|i: int| 0 <= i < d.len() implies (#[trigger] d[i]).counts.spec_total() <= u32::MAX by {
            if i > 0 {
                if left > 0 && is_research_card(cards[0]) && cards[0].counts.deck > 0 {
                    assert(d[i] == draw_research(rest, left - 1)[i - 1]);
                } else {
                    assert(d[i] == draw_research(rest, left)[i - 1]);
                }
            }
        }
    }
}

proof fn lemma_discard_step(cards: Seq<LibraryCard>, ids: Seq<usize>, i: int)
    requires
        0 <= i < ids.len(),
    ensures
        discard_played(cards, ids.subrange(i, ids.len() as int))
            == discard_played(discard_one(cards, ids[i]), ids.subrange(i + 1, ids.len() as int)),
{
    let r = ids.subrange(i, ids.len() as int);
    assert(r[0] == ids[i]);
    assert(r.drop_first() =~= ids.subrange(i + 1, ids.len() as int));
}

proof fn lemma_discard_one_fits(cards: Seq<LibraryCard>, id: usize)
    requires
        counts_fit(cards),
    ensures
        counts_fit(discard_one(cards, id)),
        discard_one(cards, id).len() == cards.len(),
{
    let d = discard_one(cards, id);
    assert forall|i: int| 0 <= i < d.len() implies (#[trigger] d[i]).counts.spec_total() <= u32::MAX by {
        assert(cards[i].counts.spec_total() <= u32::MAX);
    }
}

proof fn lemma_deck_total_prefix(cards: Seq<LibraryCard>, i: int)
    requires
        0 <= i < cards.len(),
    ensures
        research_deck_total(cards.subrange(0, i + 1)) == research_deck_total(cards.subrange(0, i))
            + if is_research_card(cards[i]) { cards[i].counts.deck as int } else { 0 },
{
    assert(cards.subrange(0, i + 1).drop_last() =~= cards.subrange(0, i));
}

proof fn lemma_deck_total_nonneg(cards: Seq<LibraryCard>)
    ensures
        research_deck_total(cards) >= 0,
    decreases cards.len(),
{
    if cards.len() > 0 {
        lemma_deck_total_nonneg(cards.drop_last());
    }
}

/// Return the research discard to the deck where no research card is left
/// in the deck (see `recycle_research`).
fn recycle_research_exec(cards: &mut Vec<LibraryCard>)
    requires
        counts_fit(old(cards)@),
    ensures
        final(cards)@ == recycle_research(old(cards)@),
{
    let ghost orig = cards@;
    let mut total: u64 = 0;
    let mut any = false;
    let mut i: usize = 0;
    while i < cards.len()
        invariant
            i <= cards@.len(),
            cards@ == orig,
            any <==> research_deck_total(orig.subrange(0, i as int)) != 0,
        decreases cards@.len() - i,
    {
        proof {
            lemma_deck_total_prefix(orig, i as int);
            lemma_deck_total_nonneg(orig.subrange(0, i as int));
        }
        let is_r = match &cards[i].kind {
            CardKind::Research { .. } => true,
            _ => false,
        };
        if is_r && cards[i].counts.deck > 0 {
            any = true;
        }
        i += 1;
    }
    assert(orig.subrange(0, orig.len() as int) =~= orig);
    if any {
        return;
    }
    let mut i: usize = 0;
    while i < cards.len()
        invariant
            i <= cards@.len(),
            cards@.len() == orig.len(),
            counts_fit(orig),
            research_deck_total(orig) == 0,
            forall|j: int| 0 <= j < i ==> #[trigger] cards@[j] == recycle_research(orig)[j],
            forall|j: int| i <= j < cards@.len() ==> #[trigger] cards@[j] == orig[j],
        decreases cards@.len() - i,
    {
        proof {
            assert(orig[i as int].counts.spec_total() <= u32::MAX);
        }
        let is_r = match &cards[i].kind {
            CardKind::Research { .. } => true,
            _ => false,
        };
        if is_r {
            let c = cards[i].counts;
            cards[i].counts = CardCounts { deck: c.deck + c.discard, discard: 0, ..c };
        }
        i += 1;
    }
    assert(cards@ =~= recycle_research(orig));
}

proof fn lemma_yield_bound(cards: Seq<Seq<ResearchSymbol>>, hidden: Seq<ResearchSymbol>, py: int, ty: int, r: Seq<i64>, i: int)
    requires
        matched_yields(cards, hidden, py, ty, r),
        0 <= i < r.len(),
    ensures
        abs_of(r[i] as int) <= abs_of(py) + abs_of(ty),
{
    let n = hidden.len() as int;
    let q = choose|q: Seq<usize>| #[trigger] is_placement(q, n)
        && (forall|q2: Seq<usize>| #[trigger] is_placement(q2, n)
            ==> placement_total(cards, hidden, py, ty, q2) <= placement_total(cards, hidden, py, ty, q))
        && (forall|i: int| 0 <= i < n ==> #[trigger] r[i] == (if placement_total(cards, hidden, py, ty, q) > 0 {
            gain(cards, hidden, py, ty, i, q[i] as int)
        } else {
            0
        }));
    assert(r[i] == (if placement_total(cards, hidden, py, ty, q) > 0 {
        gain(cards, hidden, py, ty, i, q[i] as int)
    } else {
        0
    }));
}

impl GameState {
    /// Play a hand of research cards in the experiment (see
    /// `research_hand_played`); refused with the reason of
    /// `research_play_error`, changing nothing.
    pub fn research_play_hand(&mut self, card_ids: &Vec<usize>, rng: &mut Lcg64Xsh32) -> (r: Result<(), ResearchError>)
        requires
            balances_fit(old(self).token_balances),
            counts_fit(old(self).library.cards@),
            research_play_error(*old(self), card_ids@) is None ==> research_play_fits(*old(self), card_ids@),
        ensures
            research_play_error(*old(self), card_ids@) matches Some(e) ==> r == Err::<(), ResearchError>(e) && *final(self) == *old(self),
            research_play_error(*old(self), card_ids@) is None ==> r is Ok && research_hand_played(*old(self), *final(self), card_ids@),
    {
        let ghost s0 = *self;
        let (id, rounds, acc, hidden) = match &self.current_encounter {
            Some(EncounterState::Research(st)) => {
                if st.outcome != EncounterOutcome::Undecided || !st.experiment_active {
                    return Err(ResearchError::NoActiveExperiment);
                }
                match &st.hidden_types {
                    Some(h) => (st.encounter_card_id, st.rounds_played, st.accumulated_yield, copy_hidden(h)),
                    None => {
                        return Err(ResearchError::NoActiveExperiment);
                    },
                }
            },
            _ => {
                return Err(ResearchError::NoActiveExperiment);
            },
        };
        let ghost st0 = research_of(s0.current_encounter)->Some_0;
        let (size, base, py, ty) = match research_def_exec(&self.library.cards, id) {
            Err(e) => {
                return Err(e);
            },
            Ok(d) => d,
        };
        let ghost def = research_def_at(s0.library.cards@, id)->Ok_0;
        if card_ids.len() != size as usize {
            return Err(ResearchError::WrongHandSize { need: size, got: card_ids.len() });
        }
        match check_hand_cards(&self.library.cards, card_ids) {
            Some(e) => {
                return Err(e);
            },
            None => {},
        }
        match check_overdrawn(&self.library.cards, card_ids) {
            Some(c) => {
                return Err(ResearchError::TooManyCopies { card_id: c });
            },
            None => {},
        }
        proof {
            lemma_cards_valid(s0.library.cards@, card_ids@, 0);
            crate::library::costs::lemma_bal_facts(self.token_balances);
        }
        proof {
            let a = rounds as int + 1;
            let b = base as int;
            if b >= 0 {
                assert(0 <= a * b <= 0x1_0000_0000 * 0x8000_0000_0000_0000) by (nonlinear_arith)
                    requires
                        1 <= a <= 0x1_0000_0000,
                        0 <= b <= 0x8000_0000_0000_0000,
                ;
            } else {
                assert(-0x1_0000_0000 * 0x8000_0000_0000_0000 <= a * b <= 0) by (nonlinear_arith)
                    requires
                        1 <= a <= 0x1_0000_0000,
                        -0x8000_0000_0000_0000 <= b < 0,
                ;
            }
        }
        let cost: i128 = (rounds as i128 + 1) * base as i128;
        let have = self.token_balances.value(&Token::persistent(TokenType::Insight));
        if (have as i128) < cost {
            return Err(ResearchError::InsufficientInsight { need: cost, have });
        }
        let costs = collect_hand_costs(&self.library.cards, card_ids);
        match check_and_deduct_gathering_costs(costs.as_slice(), &mut self.token_balances) {
            Err(e) => {
                return Err(ResearchError::Cost(e));
            },
            Ok(()) => {},
        }
        proof {
            crate::library::costs::lemma_bal_facts(self.token_balances);
        }
        let x = self.token_balances.value(&Token::persistent(TokenType::Insight));
        self.token_balances.insert(Token::persistent(TokenType::Insight), (x as i128 - cost) as i64);
        // the symbols of each card played
        let mut syms: Vec<Vec<ResearchSymbol>> = Vec::new();
        let mut i: usize = 0;
        while i < card_ids.len()
            invariant
                i <= card_ids@.len(),
                self.library == s0.library,
                forall|j: int| 0 <= j < card_ids@.len() ==> #[trigger] card_ids@[j] < s0.library.cards@.len(),
                syms@.len() == i,
                forall|j: int| 0 <= j < i ==> #[trigger] syms@[j]@ == played_symbols(s0.library.cards@, card_ids@, s0.library)[j],
            decreases card_ids@.len() - i,
        {
            let c = card_ids[i];
            let v = match &self.library.cards[c].kind {
                CardKind::Research { effects } => card_symbols(effects, &self.library),
                _ => {
                    proof {
                        assert(probe_symbols(Seq::<ConcreteEffect>::empty(), s0.library) =~= Seq::<ResearchSymbol>::empty());
                    }
                    Vec::new()
                },
            };
            syms.push(v);
            i += 1;
        }
        proof {
            assert(syms@.map_values(|c: Vec<ResearchSymbol>| c@) =~= played_symbols(s0.library.cards@, card_ids@, s0.library));
        }
        let per_card = optimal_matching(&syms, &hidden, py, ty);
        let ghost m = abs_of(py as int) + abs_of(ty as int);
        let mut round_yield: i64 = 0;
        let mut i: usize = 0;
        while i < per_card.len()
            invariant
                i <= per_card@.len(),
                per_card@.len() == size,
                matched_yields(played_symbols(s0.library.cards@, card_ids@, s0.library), hidden@, py as int, ty as int, per_card@),
                m == abs_of(py as int) + abs_of(ty as int),
                abs_of(acc as int) + m * size <= i64::MAX,
                round_yield as int == sum_of(per_card@.subrange(0, i as int)),
                abs_of(round_yield as int) <= m * i,
            decreases per_card@.len() - i,
        {
            proof {
                lemma_yield_bound(played_symbols(s0.library.cards@, card_ids@, s0.library), hidden@, py as int, ty as int, per_card@, i as int);
                assert(m * i + m == m * (i + 1)) by (nonlinear_arith);
                assert(m * (i + 1) <= m * size) by (nonlinear_arith)
                    requires
                        i + 1 <= size,
                        m >= 0,
                ;
                assert(per_card@.subrange(0, i + 1).drop_last() =~= per_card@.subrange(0, i as int));
            }
            round_yield = round_yield + per_card[i];
            i += 1;
        }
        proof {
            assert(per_card@.subrange(0, per_card@.len() as int) =~= per_card@);
        }
        // the cards played go to the discard, as many are drawn, the discard may recycle
        let ghost cards0 = self.library.cards@;
        let ghost s1 = *self;
        let mut i: usize = 0;
        assert(card_ids@.subrange(0, card_ids@.len() as int) =~= card_ids@);
        while i < card_ids.len()
            invariant
                i <= card_ids@.len(),
                self.current_encounter == s1.current_encounter,
                self.token_balances == s1.token_balances,
                self.encounter_phase == s1.encounter_phase,
                self.encounter_results == s1.encounter_results,
                self.last_encounter_result == s1.last_encounter_result,
                self.game_rules == s1.game_rules,
                counts_fit(self.library.cards@),
                self.library.cards@.len() == cards0.len(),
                self.library.woodcutting_patterns == s0.library.woodcutting_patterns,
                discard_played(cards0, card_ids@) == discard_played(self.library.cards@, card_ids@.subrange(i as int, card_ids@.len() as int)),
            decreases card_ids@.len() - i,
        {
            proof {
                lemma_discard_step(self.library.cards@, card_ids@, i as int);
                lemma_discard_one_fits(self.library.cards@, card_ids[i as int]);
            }
            let c = card_ids[i];
            let ghost before = self.library.cards@;
            if c < self.library.cards.len() && self.library.cards[c].counts.hand > 0 {
                proof {
                    assert(self.library.cards@[c as int].counts.spec_total() <= u32::MAX);
                }
                let k = self.library.cards[c].counts;
                self.library.cards[c].counts = CardCounts { hand: k.hand - 1, discard: k.discard + 1, ..k };
            }
            proof {
                assert(self.library.cards@ =~= discard_one(before, c));
            }
            i += 1;
        }
        assert(card_ids@.subrange(card_ids@.len() as int, card_ids@.len() as int) =~= Seq::<usize>::empty());
        let ghost discarded = self.library.cards@;
        assert(discarded == discard_played(cards0, card_ids@));
        draw_research_exec(&mut self.library.cards, card_ids.len());
        proof {
            lemma_draw_research_fits(discarded, card_ids@.len() as int);
        }
        recycle_research_exec(&mut self.library.cards);
        // the round is recorded
        let mut st = match self.current_encounter.take() {
            Some(EncounterState::Research(st)) => st,
            _ => {
                proof {
                    assert(false);
                }
                return Err(ResearchError::NoActiveExperiment);
            },
        };
        let mut played: Vec<usize> = Vec::new();
        let mut i: usize = 0;
        while i < card_ids.len()
            invariant
                i <= card_ids@.len(),
                played@ == card_ids@.subrange(0, i as int),
            decreases card_ids@.len() - i,
        {
            played.push(card_ids[i]);
            i += 1;
        }
        assert(played@ =~= card_ids@);
        let ghost pc = per_card@;
        let ghost hist0 = st.round_history@;
        st.round_history.push(ResearchRoundResult {
            cards_played: played,
            per_card_yield: per_card,
            round_yield,
            insight_cost: cost as i64,
        });
        st.accumulated_yield = acc + round_yield;
        st.rounds_played = rounds + 1;
        self.current_encounter = Some(EncounterState::Research(st));
        proof {
            let cards = s0.library.cards@;
            let cost_s = round_cost(st0, def);
            let p0 = deduct_b(bal(s0.token_balances), hand_costs(cards, card_ids@));
            let p1 = bset(p0, insight_key(), (get0(p0.0, insight_key()) - cost_s) as i64);
            assert(cost == cost_s);
            assert(bal(self.token_balances) == p1);
            assert(self.library.cards@ == recycle_research(draw_research(discard_played(cards, card_ids@), card_ids@.len() as int)));
            assert(self.library.woodcutting_patterns == s0.library.woodcutting_patterns);
            assert(self.encounter_phase == s0.encounter_phase);
            assert(self.encounter_results == s0.encounter_results);
            assert(self.game_rules == s0.game_rules);
            assert(self.last_encounter_result == s0.last_encounter_result);
            let st2 = research_of(self.current_encounter)->Some_0;
            assert(hist0 == st0.round_history@);
            assert(st2.round_history@.drop_last() =~= st0.round_history@);
            assert(st2.round_history@.last().per_card_yield@ == pc);
            assert(matched_yields(played_symbols(cards, card_ids@, s0.library), st0.hidden_types->Some_0@,
                def.position_match_yield as int, def.type_match_yield as int, pc));
            assert(st2.round_history@.last().round_yield == sum_of(pc));
            assert(st2.accumulated_yield == st0.accumulated_yield + st2.round_history@.last().round_yield);
            assert(st2.hidden_types == st0.hidden_types);
        }
        Ok(())
    }
}


/// Two to the power `n`.
pub open spec fn two_pow(n: nat) -> int
    decreases n,
{
    if n == 0 { 1 } else { 2 * two_pow((n - 1) as nat) }
}

proof fn lemma_two_pow_le(k: nat, m: nat)
    requires
        k <= m,
    ensures
        1 <= two_pow(k) <= two_pow(m),
    decreases m,
{
    if k < m {
        lemma_two_pow_le(k, (m - 1) as nat);
    }
    if m > 0 {
        lemma_two_pow_le(0, (m - 1) as nat);
    }
}

proof fn lemma_two_pow_59()
    ensures
        two_pow(59) == 0x800_0000_0000_0000,
{
    reveal_with_fuel(two_pow, 60);
}

/// Two to the power `n`, for `n` up to 59.
fn two_pow_exec(n: u32) -> (r: i64)
    requires
        n <= 59,
    ensures
        r == two_pow(n as nat),
{
    proof {
        lemma_two_pow_59();
    }
    let mut p: i64 = 1;
    let mut k: u32 = 0;
    while k < n
        invariant
            k <= n,
            n <= 59,
            p == two_pow(k as nat),
            two_pow(59) == 0x800_0000_0000_0000,
        decreases n - k,
    {
        proof {
            lemma_two_pow_le((k + 1) as nat, 59);
        }
        p = p * 2;
        k += 1;
    }
    p
}

/// The Insight a project of `tier` tiers costs to choose: ten times two to
/// the tier less one.
pub open spec fn project_cost(tier: u32) -> int {
    10 * two_pow((tier - 1) as nat)
}

/// The progress a project of `tier` tiers needs: twenty times two to the
/// tier less one.
pub open spec fn project_total(tier: u32) -> int {
    20 * two_pow((tier - 1) as nat)
}

/// A player effect of the library tagged with discipline `d`.
pub open spec fn is_discipline_effect(cards: Seq<LibraryCard>, id: int, d: Discipline) -> bool {
    0 <= id < cards.len() && cards[id].kind is PlayerCardEffect && cards[id].discipline_tags@.contains(d)
}

/// The ids of the player effects tagged with discipline `d`.
fn discipline_effect_ids(cards: &Vec<LibraryCard>, d: Discipline) -> (r: Vec<usize>)
    ensures
        forall|k: int| 0 <= k < r@.len() ==> is_discipline_effect(cards@, #[trigger] r@[k] as int, d),
        r@.len() == 0 <==> forall|i: int| 0 <= i < cards@.len() ==> !is_discipline_effect(cards@, i, d),
{
    let mut r: Vec<usize> = Vec::new();
    let mut i: usize = 0;
    while i < cards.len()
        invariant
            i <= cards@.len(),
            forall|k: int| 0 <= k < r@.len() ==> is_discipline_effect(cards@, #[trigger] r@[k] as int, d),
            r@.len() == 0 <==> forall|j: int| 0 <= j < i ==> !is_discipline_effect(cards@, j, d),
        decreases cards@.len() - i,
    {
        let is_effect = match &cards[i].kind {
            CardKind::PlayerCardEffect { .. } => true,
            _ => false,
        };
        if is_effect {
            let tags = &cards[i].discipline_tags;
            let mut found = false;
            let mut j: usize = 0;
            while j < tags.len()
                invariant
                    j <= tags@.len(),
                    found <==> exists|a: int| 0 <= a < j && tags@[a] == d,
                decreases tags@.len() - j,
            {
                if tags[j] == d {
                    found = true;
                }
                j += 1;
            }
            if found {
                proof {
                    let a = choose|a: int| 0 <= a < tags@.len() && tags@[a] == d;
                    assert(tags@.contains(d));
                    assert(is_discipline_effect(cards@, i as int, d));
                }
                r.push(i);
            } else {
                proof {
                    assert(!tags@.contains(d));
                    assert(!is_discipline_effect(cards@, i as int, d));
                }
            }
        } else {
            proof {
                assert(!is_discipline_effect(cards@, i as int, d));
            }
        }
        i += 1;
    }
    r
}

/// `cs` holds the three candidates drawn up for discipline `d` and `tier`
/// tiers: each has `tier` effects, each rolled from a player effect of the
/// discipline.
pub open spec fn candidates_drawn(cs: Seq<ResearchCandidate>, d: Discipline, tier: u32, lib: Library) -> bool {
    &&& cs.len() == 3
    &&& forall|i: int| 0 <= i < 3 ==> {
        &&& (#[trigger] cs[i]).discipline == d
        &&& cs[i].tier_count == tier
        &&& cs[i].effects@.len() == tier
        &&& forall|j: int| 0 <= j < tier ==> {
            &&& is_discipline_effect(lib.cards@, (#[trigger] cs[i].effects@[j]).effect_id as int, d)
            &&& rolled_from(cs[i].effects@[j]@, template_of(lib, cs[i].effects@[j].effect_id))
        }
    }
}

/// A research encounter undecided in `s`.
pub open spec fn open_research(s: GameState) -> Option<ResearchEncounterState> {
    match research_of(s.current_encounter) {
        Some(st) => if st.outcome == EncounterOutcome::Undecided { Some(st) } else { None },
        None => None,
    }
}

impl GameState {
    /// Choose a project: the Insight of a project of `tier_count` tiers is
    /// paid, and three candidates are drawn up from the discipline's player
    /// effects (see `candidates_drawn`).
    pub fn research_choose_project(&mut self, discipline: Discipline, tier_count: u32, rng: &mut Lcg64Xsh32) -> (r: Result<(), ResearchError>)
        requires
            tier_count <= 60,
            all_rollable(old(self).library),
            fits(old(self).token_balances.spec_value(insight_key()) - 10 * two_pow((tier_count - 1) as nat)),
        ensures
            choose_error(*old(self), discipline, tier_count) matches Some(e) ==> r == Err::<(), ResearchError>(e) && *final(self) == *old(self),
            choose_error(*old(self), discipline, tier_count) is None ==> r is Ok && project_chosen(*old(self), *final(self), discipline, tier_count),
    {
        match &self.current_encounter {
            Some(EncounterState::Research(st)) => {
                if st.outcome != EncounterOutcome::Undecided {
                    return Err(ResearchError::NoActiveResearch);
                }
            },
            _ => {
                return Err(ResearchError::NoActiveResearch);
            },
        }
        if tier_count == 0 {
            return Err(ResearchError::InvalidTier);
        }
        proof {
            lemma_two_pow_le((tier_count - 1) as nat, 59);
            lemma_two_pow_59();
        }
        let cost: i64 = 10 * two_pow_exec(tier_count - 1);
        let have = self.token_balances.value(&Token::persistent(TokenType::Insight));
        if have < cost {
            return Err(ResearchError::InsufficientInsight { need: cost as i128, have });
        }
        let ids = discipline_effect_ids(&self.library.cards, discipline);
        if ids.len() == 0 {
            return Err(ResearchError::NoEffectsForDiscipline);
        }
        self.token_balances.insert(Token::persistent(TokenType::Insight), have - cost);
        let ghost lib0 = self.library;
        let mut cands: Vec<ResearchCandidate> = Vec::new();
        let mut c: usize = 0;
        while c < 3
            invariant
                c <= 3,
                self.library == lib0,
                all_rollable(lib0),
                ids@.len() > 0,
                forall|k: int| 0 <= k < ids@.len() ==> is_discipline_effect(lib0.cards@, #[trigger] ids@[k] as int, discipline),
                cands@.len() == c,
                forall|i: int| 0 <= i < c ==> {
                    &&& (#[trigger] cands@[i]).discipline == discipline
                    &&& cands@[i].tier_count == tier_count
                    &&& cands@[i].effects@.len() == tier_count
                    &&& forall|j: int| 0 <= j < tier_count ==> {
                        &&& is_discipline_effect(lib0.cards@, (#[trigger] cands@[i].effects@[j]).effect_id as int, discipline)
                        &&& rolled_from(cands@[i].effects@[j]@, template_of(lib0, cands@[i].effects@[j].effect_id))
                    }
                },
            decreases 3 - c,
        {
            let mut effects: Vec<ConcreteEffect> = Vec::new();
            let mut t: u32 = 0;
            while t < tier_count
                invariant
                    t <= tier_count,
                    self.library == lib0,
                    all_rollable(lib0),
                    ids@.len() > 0,
                    forall|k: int| 0 <= k < ids@.len() ==> is_discipline_effect(lib0.cards@, #[trigger] ids@[k] as int, discipline),
                    effects@.len() == t,
                    forall|j: int| 0 <= j < t ==> {
                        &&& is_discipline_effect(lib0.cards@, (#[trigger] effects@[j]).effect_id as int, discipline)
                        &&& rolled_from(effects@[j]@, template_of(lib0, effects@[j].effect_id))
                    },
                decreases tier_count - t,
            {
                let x = next_u64(rng);
                let idx = (x % (ids.len() as u64)) as usize;
                let e = roll_concrete_effect(rng, ids[idx], &self.library);
                proof {
                    assert(is_discipline_effect(lib0.cards@, ids@[idx as int] as int, discipline));
                }
                effects.push(e);
                t += 1;
            }
            cands.push(ResearchCandidate { discipline, effects, tier_count });
            c += 1;
        }
        let mut st = match self.current_encounter.take() {
            Some(EncounterState::Research(st)) => st,
            _ => {
                proof {
                    assert(false);
                }
                return Err(ResearchError::NoActiveResearch);
            },
        };
        st.candidates = Some(cands);
        self.current_encounter = Some(EncounterState::Research(st));
        Ok(())
    }

    /// Select a candidate: it becomes the research project, with no progress
    /// yet and twice its choice cost to make; the candidates are cleared.
    pub fn research_select_candidate(&mut self, candidate_index: usize) -> (r: Result<(), ResearchError>)
        requires
            open_research(*old(self)) matches Some(st) && st.candidates matches Some(cs) ==>
                forall|i: int| 0 <= i < cs@.len() ==> 1 <= #[trigger] cs@[i].tier_count <= 59,
        ensures
            select_error(*old(self), candidate_index) matches Some(e) ==> r == Err::<(), ResearchError>(e) && *final(self) == *old(self),
            select_error(*old(self), candidate_index) is None ==> r is Ok && candidate_selected(*old(self), *final(self), candidate_index),
    {
        let project = match &self.current_encounter {
            Some(EncounterState::Research(st)) => {
                if st.outcome != EncounterOutcome::Undecided {
                    return Err(ResearchError::NoCandidates);
                }
                match &st.candidates {
                    Some(cs) => {
                        if candidate_index >= cs.len() {
                            return Err(ResearchError::InvalidCandidate { index: candidate_index });
                        }
                        let chosen = &cs[candidate_index];
                        proof {
                            lemma_two_pow_59();
                            assert(two_pow(59) == 2 * two_pow(58));
                            lemma_two_pow_le((chosen.tier_count - 1) as nat, 58);
                        }
                        let total = 20 * two_pow_exec(chosen.tier_count - 1);
                        ResearchProject {
                            chosen_card: ResearchCandidate {
                                discipline: chosen.discipline,
                                effects: duplicate_effects(&chosen.effects),
                                tier_count: chosen.tier_count,
                            },
                            progress: 0,
                            total_cost: total,
                        }
                    },
                    None => {
                        return Err(ResearchError::NoCandidates);
                    },
                }
            },
            _ => {
                return Err(ResearchError::NoCandidates);
            },
        };
        self.current_research = Some(project);
        let mut st = match self.current_encounter.take() {
            Some(EncounterState::Research(st)) => st,
            _ => {
                proof {
                    assert(false);
                }
                return Err(ResearchError::NoCandidates);
            },
        };
        st.candidates = None;
        self.current_encounter = Some(EncounterState::Research(st));
        Ok(())
    }
}


/// Why no project of `tier` tiers for discipline `d` can be chosen in state
/// `s`, if none can.
pub open spec fn choose_error(s: GameState, d: Discipline, tier: u32) -> Option<ResearchError> {
    let have = s.token_balances.spec_value(insight_key());
    match open_research(s) {
        None => Some(ResearchError::NoActiveResearch),
        Some(_) => if tier == 0 {
            Some(ResearchError::InvalidTier)
        } else if have < project_cost(tier) {
            Some(ResearchError::InsufficientInsight { need: project_cost(tier) as i128, have: have as i64 })
        } else if forall|i: int| 0 <= i < s.library.cards@.len() ==> !is_discipline_effect(s.library.cards@, i, d) {
            Some(ResearchError::NoEffectsForDiscipline)
        } else {
            None
        },
    }
}

/// A project of `tier` tiers for discipline `d` is chosen in `s`, giving
/// `t`: its Insight is paid and three candidates are drawn up.
pub open spec fn project_chosen(s: GameState, t: GameState, d: Discipline, tier: u32) -> bool {
    let have = s.token_balances.spec_value(insight_key());
    let st = open_research(s)->Some_0;
    &&& bal(t.token_balances) == bset(bal(s.token_balances), insight_key(), (have - project_cost(tier)) as i64)
    &&& research_of(t.current_encounter) matches Some(st2) && {
        &&& st2.candidates matches Some(cs) && candidates_drawn(cs@, d, tier, s.library)
        &&& st2.encounter_card_id == st.encounter_card_id
        &&& st2.outcome == st.outcome
        &&& st2.hidden_types == st.hidden_types
        &&& st2.accumulated_yield == st.accumulated_yield
        &&& st2.rounds_played == st.rounds_played
        &&& st2.round_history == st.round_history
        &&& st2.experiment_active == st.experiment_active
    }
    &&& t.library == s.library
    &&& t.current_research == s.current_research
    &&& t.encounter_phase == s.encounter_phase
    &&& t.encounter_results == s.encounter_results
    &&& t.game_rules == s.game_rules
}

/// Why candidate `index` cannot be selected in state `s`, if it cannot.
pub open spec fn select_error(s: GameState, index: usize) -> Option<ResearchError> {
    match open_research(s) {
        Some(st) if st.candidates is Some => if index >= st.candidates->Some_0@.len() {
            Some(ResearchError::InvalidCandidate { index })
        } else {
            None
        },
        _ => Some(ResearchError::NoCandidates),
    }
}

/// Candidate `index` is selected in `s`, giving `t`: it becomes the research
/// project, with no progress yet, and the candidates are cleared.
pub open spec fn candidate_selected(s: GameState, t: GameState, index: usize) -> bool {
    let st = open_research(s)->Some_0;
    let chosen = st.candidates->Some_0@[index as int];
    &&& t.current_research matches Some(p) && {
        &&& p.progress == 0
        &&& p.total_cost == project_total(chosen.tier_count)
        &&& p.chosen_card.discipline == chosen.discipline
        &&& p.chosen_card.tier_count == chosen.tier_count
        &&& effects_view(p.chosen_card.effects@) == effects_view(chosen.effects@)
    }
    &&& research_of(t.current_encounter) matches Some(st2) && st2.candidates is None
        && st2.encounter_card_id == st.encounter_card_id && st2.outcome == st.outcome
        && st2.hidden_types == st.hidden_types && st2.accumulated_yield == st.accumulated_yield
        && st2.rounds_played == st.rounds_played && st2.experiment_active == st.experiment_active
    &&& t.token_balances == s.token_balances
    &&& t.library == s.library
    &&& t.encounter_phase == s.encounter_phase
    &&& t.encounter_results == s.encounter_results
    &&& t.game_rules == s.game_rules
}

/// The Insight spent on the project when `amount` is asked in state `s`:
/// at most a third of the project's total (rounded up), the Insight held and
/// what the project still needs.
pub open spec fn progress_spent(s: GameState, amount: i64) -> int {
    let p = s.current_research->Some_0;
    min4(amount as int, (p.total_cost + 2) / 3, s.token_balances.spec_value(insight_key()), p.total_cost - p.progress)
}

/// Why asking `amount` of progress in state `s` is refused, if it is.
pub open spec fn progress_error(s: GameState, amount: i64) -> Option<ResearchError> {
    if open_research(s) is None {
        Some(ResearchError::NoActiveResearch)
    } else if s.current_research is None {
        Some(ResearchError::NoActiveProject)
    } else if amount <= 0 {
        Some(ResearchError::NonPositiveAmount)
    } else if progress_spent(s, amount) <= 0 {
        Some(ResearchError::CannotProgress)
    } else {
        None
    }
}

/// Progress is made on the project in `s` when `amount` is asked, giving
/// `t`: the Insight spent (see `progress_spent`) is paid, and the project
/// advances by it (see `project_advanced`).
pub open spec fn progress_made(s: GameState, t: GameState, amount: i64) -> bool {
    let spent = progress_spent(s, amount);
    &&& bal(t.token_balances) == bset(bal(s.token_balances), insight_key(), (s.token_balances.spec_value(insight_key()) - spent) as i64)
    &&& project_advanced(s.current_research->Some_0, spent, s.library.cards@, t.library.cards@, t.current_research)
    &&& t.current_encounter == s.current_encounter
    &&& t.encounter_phase == s.encounter_phase
    &&& t.encounter_results == s.encounter_results
    &&& t.game_rules == s.game_rules
}

/// Project `p` advanced by `gain`: where it reaches its total it is done, and
/// its card (an attack card of its effects, with no copies yet, tagged with
/// its discipline) joins the library; else its progress grows.
pub open spec fn project_advanced(
    p: ResearchProject,
    gain: int,
    before: Seq<LibraryCard>,
    after: Seq<LibraryCard>,
    project_after: Option<ResearchProject>,
) -> bool {
    if p.progress + gain >= p.total_cost {
        &&& project_after is None
        &&& after.len() == before.len() + 1
        &&& after.subrange(0, before.len() as int) == before
        &&& after.last().kind == CardKind::Attack { effects: p.chosen_card.effects }
        &&& after.last().counts == CardCounts { library: 0, deck: 0, hand: 0, discard: 0 }
        &&& after.last().discipline_tags@ == seq![p.chosen_card.discipline]
    } else {
        &&& project_after == Some(ResearchProject {
            chosen_card: p.chosen_card,
            progress: (p.progress + gain) as i64,
            total_cost: p.total_cost,
        })
        &&& after == before
    }
}

/// The least of four numbers.
pub open spec fn min4(a: int, b: int, c: int, d: int) -> int {
    let x = if a <= b { a } else { b };
    let y = if c <= d { c } else { d };
    if x <= y { x } else { y }
}

impl GameState {
    fn advance_project(&mut self, gain: i64, rng: &mut Lcg64Xsh32)
        requires
            old(self).current_research matches Some(p) && fits(p.progress + gain)
                && base_cost_fits(CardKind::Attack { effects: p.chosen_card.effects }),
        ensures
            project_advanced(old(self).current_research->Some_0, gain as int, old(self).library.cards@,
                final(self).library.cards@, final(self).current_research),
            final(self).library.woodcutting_patterns == old(self).library.woodcutting_patterns,
            final(self).token_balances == old(self).token_balances,
            final(self).current_encounter == old(self).current_encounter,
            final(self).encounter_phase == old(self).encounter_phase,
            final(self).encounter_results == old(self).encounter_results,
            final(self).last_encounter_result == old(self).last_encounter_result,
            final(self).game_rules == old(self).game_rules,
    {
        let mut project = match self.current_research.take() {
            Some(p) => p,
            None => {
                proof {
                    assert(false);
                }
                return;
            },
        };
        project.progress = project.progress + gain;
        if project.progress >= project.total_cost {
            let d = project.chosen_card.discipline;
            let kind = CardKind::Attack { effects: project.chosen_card.effects };
            let tags: Vec<Discipline> = vec![d];
            assert(tags@ =~= seq![d]);
            let ghost n0 = self.library.cards@.len();
            let _ = self.library.add_card(kind, CardCounts { library: 0, deck: 0, hand: 0, discard: 0 }, rng, tags);
            proof {
                assert(self.library.cards@.last() == self.library.cards@[n0 as int]);
                assert(self.library.cards@[n0 as int].discipline_tags@ == seq![d]);
            }
        } else {
            self.current_research = Some(project);
        }
    }

    /// Spend Insight on the research project: the amount asked, at most a
    /// third of the project's total (rounded up), the Insight held and what
    /// the project still needs; the project advances by it (see
    /// `project_advanced`).
    pub fn research_progress(&mut self, amount: i64, rng: &mut Lcg64Xsh32) -> (r: Result<(), ResearchError>)
        requires
            old(self).current_research matches Some(p) ==> {
                &&& 0 <= p.progress
                &&& 0 <= p.total_cost < i64::MAX - 2
                &&& base_cost_fits(CardKind::Attack { effects: p.chosen_card.effects })
            },
            i64::MIN < old(self).token_balances.spec_value(insight_key()),
        ensures
            progress_error(*old(self), amount) matches Some(e) ==> r == Err::<(), ResearchError>(e) && *final(self) == *old(self),
            progress_error(*old(self), amount) is None ==> r is Ok && progress_made(*old(self), *final(self), amount),
    {
        match &self.current_encounter {
            Some(EncounterState::Research(st)) => {
                if st.outcome != EncounterOutcome::Undecided {
                    return Err(ResearchError::NoActiveResearch);
                }
            },
            _ => {
                return Err(ResearchError::NoActiveResearch);
            },
        }
        let (progress, total) = match &self.current_research {
            Some(p) => (p.progress, p.total_cost),
            None => {
                return Err(ResearchError::NoActiveProject);
            },
        };
        if amount <= 0 {
            return Err(ResearchError::NonPositiveAmount);
        }
        let remaining = total - progress;
        let max_per_action = (total + 2) / 3;
        let available = self.token_balances.value(&Token::persistent(TokenType::Insight));
        let mut actual = amount;
        if max_per_action < actual {
            actual = max_per_action;
        }
        if available < actual {
            actual = available;
        }
        if remaining < actual {
            actual = remaining;
        }
        if actual <= 0 {
            return Err(ResearchError::CannotProgress);
        }
        self.token_balances.insert(Token::persistent(TokenType::Insight), available - actual);
        self.advance_project(actual, rng);
        Ok(())
    }
}

} // verus!
