//! The in-memory game state driven by the library's mutator API: token
//! balances, the library, the active encounter and the history of finished
//! encounters.
use super::rolls::hi_of;
use super::config::{DisciplineConfig, TokensConfig};
use super::config_loader::{
    all_rollable, config_refusable, configured, entry_error, library_loaded, load_library, load_token_balances, names_at, total_cards,
    LoadError,
};
use super::costs::Balances;
use super::token_map::{bal, bset, get0, TokenMap};
use super::types::{
    persistent_key, spec_all_token_types, CardKind, Discipline, EncounterKind, EncounterOutcome, EncounterPhase, EncounterState,
    LibraryCard, ResearchProject, Token, TokenKey, TokenType,
};
use super::{with_card_counts, Library};
use crate::rng::next_u64;
use rand_pcg::Lcg64Xsh32;
use vstd::prelude::*;

verus! {

/// General rules: what a player's death resets.
#[derive(Clone, Copy, Debug, PartialEq, Eq, Structural)]
pub struct GeneralRules {
    pub death_reset_health: i64,
    pub death_reset_stamina: i64,
}

/// Combat rules.
#[derive(Clone, Copy, Debug, PartialEq, Eq, Structural)]
pub struct CombatRules {
    pub milestone_insight_on_win: i64,
}

/// Research rules.
#[derive(Clone, Copy, Debug, PartialEq, Eq, Structural)]
pub struct ResearchRules {
    pub max_hand_size: usize,
    pub base_insight_cost: i64,
    pub insight_cost_multiplier: i64,
}

/// Crafting rules.
#[derive(Clone, Copy, Debug, PartialEq, Eq, Structural)]
pub struct CraftingRules {
    pub initial_draw_count: u32,
    pub durability_material_cost: i64,
    pub durability_grant: i64,
    pub min_craft_token_cost: i64,
    pub base_cost_divisor: i64,
    pub max_material_percent: i64,
    pub material_token_min: i64,
    pub material_token_max: i64,
    pub cost_reduction_floor_percent: i64,
    pub cost_formula_divisor: i64,
}

/// The game rules the state machine consults.
#[derive(Clone, Copy, Debug, PartialEq, Eq, Structural)]
pub struct GameRulesConfig {
    pub general: GeneralRules,
    pub combat: CombatRules,
    pub research: ResearchRules,
    pub crafting: CraftingRules,
}

/// What one finished encounter did: its discipline, outcome, length and the
/// token amounts (by type, one entry per token) before and after.
#[derive(Debug)]
pub struct EncounterRecord {
    pub discipline: Discipline,
    pub outcome: EncounterOutcome,
    pub rounds: u64,
    pub tokens_at_start: Vec<(TokenType, i64)>,
    pub tokens_at_end: Vec<(TokenType, i64)>,
}

/// The kind of a card, without its payload: which deck it belongs to.
#[derive(Clone, Copy, Debug, PartialEq, Eq, Structural)]
pub enum CardClass {
    Attack,
    Defence,
    Resource,
    Mining,
    Herbalism,
    Woodcutting,
    Fishing,
    Rest,
    Crafting,
    Research,
    Encounter,
    PlayerCardEffect,
    EnemyCardEffect,
}

pub open spec fn class_of(k: CardKind) -> CardClass {
    match k {
        CardKind::Attack { .. } => CardClass::Attack,
        CardKind::Defence { .. } => CardClass::Defence,
        CardKind::Resource { .. } => CardClass::Resource,
        CardKind::Mining { .. } => CardClass::Mining,
        CardKind::Herbalism { .. } => CardClass::Herbalism,
        CardKind::Woodcutting { .. } => CardClass::Woodcutting,
        CardKind::Fishing { .. } => CardClass::Fishing,
        CardKind::Rest { .. } => CardClass::Rest,
        CardKind::Crafting { .. } => CardClass::Crafting,
        CardKind::Research { .. } => CardClass::Research,
        CardKind::Encounter { .. } => CardClass::Encounter,
        CardKind::PlayerCardEffect { .. } => CardClass::PlayerCardEffect,
        CardKind::EnemyCardEffect { .. } => CardClass::EnemyCardEffect,
    }
}

/// The class of a card kind.
pub fn card_class(k: &CardKind) -> (r: CardClass)
    ensures
        r == class_of(*k),
{
    match k {
        CardKind::Attack { .. } => CardClass::Attack,
        CardKind::Defence { .. } => CardClass::Defence,
        CardKind::Resource { .. } => CardClass::Resource,
        CardKind::Mining { .. } => CardClass::Mining,
        CardKind::Herbalism { .. } => CardClass::Herbalism,
        CardKind::Woodcutting { .. } => CardClass::Woodcutting,
        CardKind::Fishing { .. } => CardClass::Fishing,
        CardKind::Rest { .. } => CardClass::Rest,
        CardKind::Crafting { .. } => CardClass::Crafting,
        CardKind::Research { .. } => CardClass::Research,
        CardKind::Encounter { .. } => CardClass::Encounter,
        CardKind::PlayerCardEffect { .. } => CardClass::PlayerCardEffect,
        CardKind::EnemyCardEffect { .. } => CardClass::EnemyCardEffect,
    }
}

/// Copies in hand of the cards of class `cl`.
pub open spec fn class_hand(cards: Seq<LibraryCard>, cl: CardClass) -> int
    decreases cards.len(),
{
    if cards.len() == 0 {
        0
    } else {
        class_hand(cards.drop_last(), cl) + (if class_of(cards.last().kind) == cl { cards.last().counts.hand as int } else { 0 })
    }
}

/// Every card's copies fit in a `u32` together.
pub open spec fn counts_fit(cards: Seq<LibraryCard>) -> bool {
    forall|i: int| 0 <= i < cards.len() ==> (#[trigger] cards[i]).counts.spec_total() <= u32::MAX
}

/// `after` is `before` with only copy counts moved around within each card:
/// no card added or removed, none changed but for where its copies are.
pub open spec fn only_counts_moved(before: Seq<LibraryCard>, after: Seq<LibraryCard>) -> bool {
    &&& after.len() == before.len()
    &&& forall|i: int|
        #![trigger after[i]]
        0 <= i < before.len() ==> {
            &&& after[i] == with_card_counts(before[i], after[i].counts)
            &&& after[i].counts.library == before[i].counts.library
            &&& after[i].counts.spec_total() == before[i].counts.spec_total()
        }
}

pub proof fn lemma_class_hand_update(s: Seq<LibraryCard>, i: int, c: LibraryCard, cl: CardClass)
    requires
        0 <= i < s.len(),
    ensures
        class_hand(s.update(i, c), cl) == class_hand(s, cl) - (if class_of(s[i].kind) == cl { s[i].counts.hand as int } else { 0 })
            + (if class_of(c.kind) == cl { c.counts.hand as int } else { 0 }),
    decreases s.len(),
{
    if i == s.len() - 1 {
        assert(s.update(i, c).drop_last() =~= s.drop_last());
    } else {
        lemma_class_hand_update(s.drop_last(), i, c, cl);
        assert(s.update(i, c).drop_last() =~= s.drop_last().update(i, c));
    }
}

pub proof fn lemma_class_hand_prefix(s: Seq<LibraryCard>, i: int, cl: CardClass)
    requires
        0 <= i <= s.len(),
    ensures
        0 <= class_hand(s.subrange(0, i), cl) <= class_hand(s, cl),
    decreases s.len() - i,
{
    if i < s.len() {
        lemma_class_hand_prefix(s, i + 1, cl);
        assert(s.subrange(0, i + 1).drop_last() =~= s.subrange(0, i));
        lemma_class_hand_nonneg(s.subrange(0, i), cl);
    } else {
        assert(s.subrange(0, i) =~= s);
        lemma_class_hand_nonneg(s, cl);
    }
}

pub proof fn lemma_class_hand_nonneg(s: Seq<LibraryCard>, cl: CardClass)
    ensures
        class_hand(s, cl) >= 0,
    decreases s.len(),
{
    if s.len() > 0 {
        lemma_class_hand_nonneg(s.drop_last(), cl);
    }
}


/// `after` is `before` after drawing at most `count` copies of class `cl`
/// into the hand, the discard of that class possibly put back into the deck.
pub open spec fn draw_result(before: Seq<LibraryCard>, after: Seq<LibraryCard>, cl: CardClass, count: int) -> bool {
    &&& only_counts_moved(before, after)
    &&& forall|i: int| #![trigger after[i]] 0 <= i < before.len() ==> {
        &&& (class_of(before[i].kind) != cl ==> after[i].counts == before[i].counts)
        &&& after[i].counts.hand >= before[i].counts.hand
    }
    &&& class_hand(after, cl) <= class_hand(before, cl) + count
}

pub proof fn lemma_counts_fit_moved(before: Seq<LibraryCard>, after: Seq<LibraryCard>)
    requires
        counts_fit(before),
        only_counts_moved(before, after),
    ensures
        counts_fit(after),
{
    assert forall|i: int| 0 <= i < after.len() implies (#[trigger] after[i]).counts.spec_total() <= u32::MAX by {
        assert(before[i].counts.spec_total() <= u32::MAX);
    }
}

pub proof fn lemma_only_counts_moved_trans(a: Seq<LibraryCard>, b: Seq<LibraryCard>, c: Seq<LibraryCard>)
    requires
        only_counts_moved(a, b),
        only_counts_moved(b, c),
    ensures
        only_counts_moved(a, c),
{
    assert forall|i: int| #![trigger c[i]] 0 <= i < a.len() implies {
        &&& c[i] == with_card_counts(a[i], c[i].counts)
        &&& c[i].counts.library == a[i].counts.library
        &&& c[i].counts.spec_total() == a[i].counts.spec_total()
    } by {
        assert(b[i] == with_card_counts(a[i], b[i].counts));
    }
}

pub proof fn lemma_class_hand_same_hands(a: Seq<LibraryCard>, b: Seq<LibraryCard>, cl: CardClass)
    requires
        a.len() == b.len(),
        forall|i: int| 0 <= i < a.len() ==> (#[trigger] b[i]).counts.hand == a[i].counts.hand && b[i].kind == a[i].kind,
    ensures
        class_hand(a, cl) == class_hand(b, cl),
    decreases a.len(),
{
    if a.len() > 0 {
        lemma_class_hand_same_hands(a.drop_last(), b.drop_last(), cl);
        assert(b[b.len() - 1].counts.hand == a[a.len() - 1].counts.hand);
    }
}


pub proof fn lemma_class_hand_untouched(a: Seq<LibraryCard>, b: Seq<LibraryCard>, cl: CardClass)
    requires
        a.len() == b.len(),
        forall|i: int| 0 <= i < a.len() ==> (#[trigger] b[i]).kind == a[i].kind,
        forall|i: int| 0 <= i < a.len() && class_of(a[i].kind) == cl ==> (#[trigger] b[i]).counts.hand == a[i].counts.hand,
    ensures
        class_hand(a, cl) == class_hand(b, cl),
    decreases a.len(),
{
    if a.len() > 0 {
        lemma_class_hand_untouched(a.drop_last(), b.drop_last(), cl);
        assert(b[b.len() - 1].kind == a[a.len() - 1].kind);
    }
}

/// Copies of the cards of class `cl` in deck or discard: those a draw can
/// bring into the hand.
pub open spec fn class_pile(cards: Seq<LibraryCard>, cl: CardClass) -> int
    decreases cards.len(),
{
    if cards.len() == 0 {
        0
    } else {
        class_pile(cards.drop_last(), cl) + (if class_of(cards.last().kind) == cl {
            cards.last().counts.deck + cards.last().counts.discard
        } else {
            0
        })
    }
}

/// Room in the hand of class `cl`: the copies it can take before it holds as
/// many as the tokens of `max_hand_token` (none below zero), or `count` where
/// no such token is given.
pub open spec fn hand_room(m: TokenMap, cards: Seq<LibraryCard>, cl: CardClass, max_hand_token: Option<TokenType>, count: int) -> int {
    match max_hand_token {
        Some(t) => if m.spec_balance(t) > class_hand(cards, cl) { m.spec_balance(t) - class_hand(cards, cl) } else { 0 },
        None => count,
    }
}

/// The copies a draw of `count` cards of class `cl` brings into the hand:
/// as many as asked, as deck and discard hold, and as the hand has room for.
pub open spec fn drawn_count(m: TokenMap, cards: Seq<LibraryCard>, cl: CardClass, max_hand_token: Option<TokenType>, count: int) -> int {
    let a = class_pile(cards, cl);
    let r = hand_room(m, cards, cl, max_hand_token, count);
    let x = if count <= a { count } else { a };
    if x <= r { x } else { r }
}

pub proof fn lemma_class_pile_update(s: Seq<LibraryCard>, i: int, c: LibraryCard, cl: CardClass)
    requires
        0 <= i < s.len(),
    ensures
        class_pile(s.update(i, c), cl) == class_pile(s, cl)
            - (if class_of(s[i].kind) == cl { s[i].counts.deck + s[i].counts.discard } else { 0 })
            + (if class_of(c.kind) == cl { c.counts.deck + c.counts.discard } else { 0 }),
    decreases s.len(),
{
    if i == s.len() - 1 {
        assert(s.update(i, c).drop_last() =~= s.drop_last());
    } else {
        lemma_class_pile_update(s.drop_last(), i, c, cl);
        assert(s.update(i, c).drop_last() =~= s.drop_last().update(i, c));
    }
}

pub proof fn lemma_class_pile_nonneg(s: Seq<LibraryCard>, cl: CardClass)
    ensures
        class_pile(s, cl) >= 0,
    decreases s.len(),
{
    if s.len() > 0 {
        lemma_class_pile_nonneg(s.drop_last(), cl);
    }
}

pub proof fn lemma_class_pile_same(a: Seq<LibraryCard>, b: Seq<LibraryCard>, cl: CardClass)
    requires
        a.len() == b.len(),
        forall|i: int| 0 <= i < a.len() ==> (#[trigger] b[i]).kind == a[i].kind,
        forall|i: int| 0 <= i < a.len() && class_of(a[i].kind) == cl
            ==> (#[trigger] b[i]).counts.deck + b[i].counts.discard == a[i].counts.deck + a[i].counts.discard,
    ensures
        class_pile(a, cl) == class_pile(b, cl),
    decreases a.len(),
{
    if a.len() > 0 {
        lemma_class_pile_same(a.drop_last(), b.drop_last(), cl);
        assert(b[b.len() - 1].kind == a[a.len() - 1].kind);
    }
}

pub proof fn lemma_class_pile_empty(s: Seq<LibraryCard>, cl: CardClass)
    requires
        forall|i: int| 0 <= i < s.len() && class_of((#[trigger] s[i]).kind) == cl ==> s[i].counts.deck == 0 && s[i].counts.discard == 0,
    ensures
        class_pile(s, cl) == 0,
    decreases s.len(),
{
    if s.len() > 0 {
        lemma_class_pile_empty(s.drop_last(), cl);
        assert(s[s.len() - 1] == s.last());
    }
}

/// The draws of one card play, per player deck: each class gets at most its
/// number of copies more in hand, and cards of other classes stay where they are.
pub open spec fn draws_by_type(before: Seq<LibraryCard>, after: Seq<LibraryCard>, attack: int, defence: int, resource: int) -> bool {
    &&& only_counts_moved(before, after)
    &&& forall|i: int| #![trigger after[i]] 0 <= i < before.len() ==> {
        &&& (class_of(before[i].kind) != CardClass::Attack && class_of(before[i].kind) != CardClass::Defence
            && class_of(before[i].kind) != CardClass::Resource ==> after[i].counts == before[i].counts)
        &&& after[i].counts.hand >= before[i].counts.hand
    }
    &&& class_hand(after, CardClass::Attack) <= class_hand(before, CardClass::Attack) + attack
    &&& class_hand(after, CardClass::Defence) <= class_hand(before, CardClass::Defence) + defence
    &&& class_hand(after, CardClass::Resource) <= class_hand(before, CardClass::Resource) + resource
}


/// The balances after a death: every gathering material at zero, health and
/// stamina reset by the rules, one more death counted.
pub open spec fn death_b(b: Balances, rules: GeneralRules) -> Balances {
    let z = (
        Map::new(|k: TokenKey| b.0.contains_key(k), |k: TokenKey| if k.token_type.spec_is_gathering_material() { 0i64 } else { b.0[k] }),
        Map::new(|tt: TokenType| true, |tt: TokenType| if tt.spec_is_gathering_material() { 0 } else { b.1[tt] }),
    );
    let z1 = bset(z, persistent_key(TokenType::Health), rules.death_reset_health);
    let z2 = bset(z1, persistent_key(TokenType::Stamina), rules.death_reset_stamina);
    bset(z2, persistent_key(TokenType::PlayerDeaths), (get0(b.0, persistent_key(TokenType::PlayerDeaths)) + 1) as i64)
}

/// The balances after checking for a death: unchanged while health is above zero.
pub open spec fn after_death_check(b: Balances, rules: GeneralRules) -> Balances {
    if get0(b.0, persistent_key(TokenType::Health)) > 0 {
        b
    } else {
        death_b(b, rules)
    }
}

/// A death resets the gathering materials (ore, plant, lumber, fish) to zero
/// and health and stamina to the rules' values, counts one more death, and
/// keeps every other counter (insight among them) as it was.
pub proof fn law_death_resets_materials_only(b: Balances, rules: GeneralRules, k: TokenKey)
    requires
        get0(b.0, persistent_key(TokenType::Health)) <= 0,
    ensures
        k.token_type.spec_is_gathering_material() ==> get0(after_death_check(b, rules).0, k) == 0,
        get0(after_death_check(b, rules).0, persistent_key(TokenType::Health)) == rules.death_reset_health,
        get0(after_death_check(b, rules).0, persistent_key(TokenType::Stamina)) == rules.death_reset_stamina,
        get0(after_death_check(b, rules).0, persistent_key(TokenType::PlayerDeaths))
            == (get0(b.0, persistent_key(TokenType::PlayerDeaths)) + 1) as i64,
        !k.token_type.spec_is_gathering_material() && k != persistent_key(TokenType::Health)
            && k != persistent_key(TokenType::Stamina) && k != persistent_key(TokenType::PlayerDeaths)
            ==> get0(after_death_check(b, rules).0, k) == get0(b.0, k),
{
}

/// The (type, amount) pairs of token entries, in order.
pub open spec fn type_pairs(entries: Seq<(Token, i64)>) -> Seq<(TokenType, i64)> {
    entries.map_values(|e: (Token, i64)| (e.0.token_type, e.1))
}

/// Minimal in-memory game state driven by the library's mutator API.
#[derive(Debug)]
pub struct GameState {
    pub token_balances: TokenMap,
    pub library: Library,
    pub game_rules: GameRulesConfig,
    pub current_encounter: Option<EncounterState>,
    pub encounter_phase: EncounterPhase,
    pub last_encounter_result: Option<EncounterOutcome>,
    pub encounter_results: Vec<EncounterOutcome>,
    pub encounter_records: Vec<EncounterRecord>,
    pub encounter_start_tokens: Vec<(TokenType, i64)>,
    /// Library card of the most recently finished encounter, whose kind
    /// scouting builds the next choices from. Cleared after scouting.
    pub last_encounter_card: Option<usize>,
    /// Card IDs of scouting-generated encounter choices. Cleared when the player
    /// picks their next encounter so un-selected choices can be removed.
    pub pending_scouting_choice_ids: Vec<usize>,
    /// Set when a player death occurs, cleared after the next scouting
    /// generation uses it to produce easier encounters.
    pub last_death_occurred: bool,
    /// The research project under way, if any.
    pub current_research: Option<ResearchProject>,
}

impl EncounterState {
    pub open spec fn spec_discipline(&self) -> Discipline {
        match self {
            EncounterState::Combat(_) => Discipline::Combat,
            EncounterState::Mining(_) => Discipline::Mining,
            EncounterState::Herbalism(_) => Discipline::Herbalism,
            EncounterState::Woodcutting(_) => Discipline::Woodcutting,
            EncounterState::Fishing(_) => Discipline::Fishing,
            EncounterState::Rest(_) => Discipline::Rest,
            EncounterState::Crafting(_) => Discipline::Crafting,
            EncounterState::Research(_) => Discipline::Research,
        }
    }

    pub open spec fn spec_round(&self) -> u64 {
        match self {
            EncounterState::Combat(c) => c.round,
            EncounterState::Mining(m) => m.round,
            EncounterState::Herbalism(h) => h.round,
            EncounterState::Woodcutting(w) => w.round,
            EncounterState::Fishing(f) => f.round,
            EncounterState::Rest(_) => 0,
            EncounterState::Crafting(c) => c.round,
            EncounterState::Research(r) => r.rounds_played as u64,
        }
    }

    /// The discipline of the encounter.
    pub fn discipline(&self) -> (r: Discipline)
        ensures
            r == self.spec_discipline(),
    {
        match self {
            EncounterState::Combat(_) => Discipline::Combat,
            EncounterState::Mining(_) => Discipline::Mining,
            EncounterState::Herbalism(_) => Discipline::Herbalism,
            EncounterState::Woodcutting(_) => Discipline::Woodcutting,
            EncounterState::Fishing(_) => Discipline::Fishing,
            EncounterState::Rest(_) => Discipline::Rest,
            EncounterState::Crafting(_) => Discipline::Crafting,
            EncounterState::Research(_) => Discipline::Research,
        }
    }

    /// The rounds played so far (rest encounters have none).
    pub fn round(&self) -> (r: u64)
        ensures
            r == self.spec_round(),
    {
        match self {
            EncounterState::Combat(c) => c.round,
            EncounterState::Mining(m) => m.round,
            EncounterState::Herbalism(h) => h.round,
            EncounterState::Woodcutting(w) => w.round,
            EncounterState::Fishing(f) => f.round,
            EncounterState::Rest(_) => 0,
            EncounterState::Crafting(c) => c.round,
            EncounterState::Research(r) => r.rounds_played as u64,
        }
    }
}

fn token_type_pairs(m: &TokenMap) -> (r: Vec<(TokenType, i64)>)
    ensures
        r@ == type_pairs(m.spec_entries()),
{
    let v = m.to_vec();
    let mut out: Vec<(TokenType, i64)> = Vec::new();
    let mut i: usize = 0;
    while i < v.len()
        invariant
            i <= v.len(),
            v@.len() == m.spec_entries().len(),
            forall|j: int| 0 <= j < v@.len() ==> #[trigger] v@[j].0@ == m.spec_entries()[j].0@ && v@[j].1 == m.spec_entries()[j].1,
            out@ == type_pairs(m.spec_entries().subrange(0, i as int)),
        decreases v.len() - i,
    {
        let tt = v[i].0.token_type;
        let val = v[i].1;
        proof {
            assert(v@[i as int].0@ == m.spec_entries()[i as int].0@);
        }
        out.push((tt, val));
        proof {
            assert(out@ =~= type_pairs(m.spec_entries().subrange(0, i + 1)));
        }
        i += 1;
    }
    assert(m.spec_entries().subrange(0, m.spec_entries().len() as int) =~= m.spec_entries());
    out
}

fn copy_pairs(v: &Vec<(TokenType, i64)>) -> (r: Vec<(TokenType, i64)>)
    ensures
        r@ == v@,
{
    let mut out: Vec<(TokenType, i64)> = Vec::new();
    let mut i: usize = 0;
    while i < v.len()
        invariant
            i <= v.len(),
            out@ == v@.subrange(0, i as int),
        decreases v.len() - i,
    {
        out.push(v[i]);
        i += 1;
    }
    assert(v@.subrange(0, v@.len() as int) =~= v@);
    out
}

/// Copies in hand of the cards of class `cl`.
pub fn class_hand_count(cards: &Vec<LibraryCard>, cl: CardClass) -> (r: u32)
    requires
        class_hand(cards@, cl) <= u32::MAX,
    ensures
        r == class_hand(cards@, cl),
{
    let mut sum: u32 = 0;
    let mut i: usize = 0;
    while i < cards.len()
        invariant
            i <= cards.len(),
            class_hand(cards@, cl) <= u32::MAX,
            sum == class_hand(cards@.subrange(0, i as int), cl),
        decreases cards.len() - i,
    {
        proof {
            assert(cards@.subrange(0, i + 1).drop_last() =~= cards@.subrange(0, i as int));
            lemma_class_hand_prefix(cards@, i + 1, cl);
        }
        if card_class(&cards[i].kind) == cl {
            sum = sum + cards[i].counts.hand;
        }
        i += 1;
    }
    assert(cards@.subrange(0, cards@.len() as int) =~= cards@);
    sum
}


/// The ids of the cards of class `cl` with a copy in the deck.
fn drawable_ids(cards: &Vec<LibraryCard>, cl: CardClass) -> (r: Vec<usize>)
    ensures
        forall|j: int| 0 <= j < r@.len() ==> {
            &&& (#[trigger] r@[j]) < cards@.len()
            &&& cards@[r@[j] as int].counts.deck > 0
            &&& class_of(cards@[r@[j] as int].kind) == cl
        },
        r@.len() == 0 <==> forall|i: int| 0 <= i < cards@.len() ==> !((#[trigger] cards@[i]).counts.deck > 0 && class_of(cards@[i].kind) == cl),
{
    let mut out: Vec<usize> = Vec::new();
    let mut i: usize = 0;
    while i < cards.len()
        invariant
            i <= cards.len(),
            forall|j: int| 0 <= j < out@.len() ==> {
                &&& (#[trigger] out@[j]) < cards@.len()
                &&& cards@[out@[j] as int].counts.deck > 0
                &&& class_of(cards@[out@[j] as int].kind) == cl
            },
            out@.len() == 0 <==> forall|k: int| 0 <= k < i ==> !((#[trigger] cards@[k]).counts.deck > 0 && class_of(cards@[k].kind) == cl),
        decreases cards.len() - i,
    {
        if cards[i].counts.deck > 0 && card_class(&cards[i].kind) == cl {
            out.push(i);
            proof {
                assert(out@[out@.len() - 1] == i);
            }
        }
        i += 1;
    }
    out
}

/// Put the discarded copies of every card of class `cl` back into its deck.
fn recycle_class(cards: &mut Vec<LibraryCard>, cl: CardClass)
    requires
        counts_fit(old(cards)@),
    ensures
        only_counts_moved(old(cards)@, final(cards)@),
        counts_fit(final(cards)@),
        forall|i: int| 0 <= i < old(cards)@.len() ==> {
            let c = (#[trigger] old(cards)@[i]).counts;
            let d = final(cards)@[i].counts;
            &&& d.hand == c.hand
            &&& (class_of(old(cards)@[i].kind) == cl && c.discard > 0) ==> d.deck == c.deck + c.discard && d.discard == 0
            &&& !(class_of(old(cards)@[i].kind) == cl && c.discard > 0) ==> d == c
        },
{
    let ghost orig = cards@;
    let mut i: usize = 0;
    while i < cards.len()
        invariant
            i <= cards.len(),
            counts_fit(orig),
            cards@.len() == orig.len(),
            forall|j: int| 0 <= j < orig.len() ==> #[trigger] cards@[j] == with_card_counts(orig[j], cards@[j].counts),
            forall|j: int| 0 <= j < orig.len() ==> {
                let c = (#[trigger] orig[j]).counts;
                let d = cards@[j].counts;
                &&& d.hand == c.hand
                &&& d.library == c.library
                &&& d.spec_total() == c.spec_total()
                &&& (j < i && class_of(orig[j].kind) == cl && c.discard > 0) ==> d.deck == c.deck + c.discard && d.discard == 0
                &&& !(j < i && class_of(orig[j].kind) == cl && c.discard > 0) ==> d == c
            },
        decreases cards.len() - i,
    {
        if card_class(&cards[i].kind) == cl && cards[i].counts.discard > 0 {
            proof {
                assert(orig[i as int].counts.spec_total() <= u32::MAX);
            }
            let d = cards[i].counts.discard;
            let k = cards[i].counts.deck;
            cards[i].counts.deck = k + d;
            cards[i].counts.discard = 0;
        }
        i += 1;
    }
    proof {
        assert forall|j: int| 0 <= j < cards@.len() implies (#[trigger] cards@[j]).counts.spec_total() <= u32::MAX by {
            assert(orig[j].counts.spec_total() <= u32::MAX);
        }
    }
}

/// Draw up to `count` cards of class `cl` into the hand, one random pick at a
/// time among the cards with a copy in the deck; the discard is recycled into
/// the deck when no copy is left there. A pick is skipped while the hand is at
/// its maximum.
fn draw_of_class(
    library: &mut Library,
    token_balances: &TokenMap,
    count: u32,
    cl: CardClass,
    rng: &mut Lcg64Xsh32,
    max_hand_token: Option<TokenType>,
)
    requires
        counts_fit(old(library).cards@),
        class_hand(old(library).cards@, cl) + count <= u32::MAX,
        max_hand_token matches Some(t) ==> i64::MIN <= token_balances.spec_balance(t) <= i64::MAX,
    ensures
        draw_result(old(library).cards@, final(library).cards@, cl, count as int),
        class_hand(final(library).cards@, cl)
            == class_hand(old(library).cards@, cl) + drawn_count(*token_balances, old(library).cards@, cl, max_hand_token, count as int),
        final(library).woodcutting_patterns == old(library).woodcutting_patterns,
{
    let ghost orig = library.cards@;
    let ghost a0 = class_pile(orig, cl);
    let ghost room = hand_room(*token_balances, orig, cl, max_hand_token, count as int);
    let ghost mut k: int = 0;
    proof {
        lemma_class_pile_nonneg(orig, cl);
        lemma_class_hand_nonneg(orig, cl);
    }
    let mut n: u32 = 0;
    while n < count
        invariant
            n <= count,
            orig == old(library).cards@,
            library.woodcutting_patterns == old(library).woodcutting_patterns,
            counts_fit(orig),
            class_hand(orig, cl) + count <= u32::MAX,
            max_hand_token matches Some(t) ==> i64::MIN <= token_balances.spec_balance(t) <= i64::MAX,
            draw_result(orig, library.cards@, cl, n as int),
            a0 == class_pile(orig, cl),
            a0 >= 0,
            room == hand_room(*token_balances, orig, cl, max_hand_token, count as int),
            k == (if (if (n as int) <= a0 { n as int } else { a0 }) <= room { if (n as int) <= a0 { n as int } else { a0 } } else { room }),
            class_hand(library.cards@, cl) == class_hand(orig, cl) + k,
            class_pile(library.cards@, cl) == a0 - k,
        decreases count - n,
    {
        proof {
            lemma_counts_fit_moved(orig, library.cards@);
        }
        let mut drawable = drawable_ids(&library.cards, cl);
        if drawable.len() == 0 {
            let ghost before = library.cards@;
            recycle_class(&mut library.cards, cl);
            proof {
                lemma_only_counts_moved_trans(orig, before, library.cards@);
                let cur = library.cards@;
                assert forall|i: int| #![trigger cur[i]] 0 <= i < orig.len() implies {
                    &&& (class_of(orig[i].kind) != cl ==> cur[i].counts == orig[i].counts)
                    &&& cur[i].counts.hand >= orig[i].counts.hand
                } by {
                    assert(before[i].counts.hand == cur[i].counts.hand);
                }
                lemma_class_hand_same_hands(before, cur, cl);
                assert(draw_result(orig, cur, cl, n as int));
                lemma_class_pile_same(before, cur, cl);
            }
            drawable = drawable_ids(&library.cards, cl);
            if drawable.len() == 0 {
                proof {
                    let cur = library.cards@;
                    assert forall|i: int| 0 <= i < cur.len() && class_of((#[trigger] cur[i]).kind) == cl
                        implies cur[i].counts.deck == 0 && cur[i].counts.discard == 0 by {
                        assert(!(cur[i].counts.deck > 0 && class_of(cur[i].kind) == cl));
                    }
                    lemma_class_pile_empty(cur, cl);
                }
                return;
            }
        }
        let x = next_u64(rng);
        let pick = (#[verifier::truncate] (x as usize)) % drawable.len();
        let id = drawable[pick];
        let full = match max_hand_token {
            Some(t) => {
                let max_hand = token_balances.balance_by_type(&t);
                let current = class_hand_count(&library.cards, cl);
                current as i64 >= max_hand
            },
            None => false,
        };
        if !full {
            let ghost before = library.cards@;
            proof {
                assert(before[id as int].counts.spec_total() <= u32::MAX);
            }
            let _ = library.draw(id);
            proof {
                let c = before[id as int];
                let after_card = with_card_counts(c, super::moved(c.counts, super::types::CardLocation::Deck, super::types::CardLocation::Hand, 1));
                assert(library.cards@ == before.update(id as int, after_card));
                lemma_class_hand_update(before, id as int, after_card, cl);
                lemma_class_pile_update(before, id as int, after_card, cl);
                lemma_class_pile_nonneg(library.cards@, cl);
                k = k + 1;
                assert forall|i: int| #![trigger library.cards@[i]] 0 <= i < orig.len() implies {
                    &&& library.cards@[i] == with_card_counts(orig[i], library.cards@[i].counts)
                    &&& library.cards@[i].counts.library == orig[i].counts.library
                    &&& library.cards@[i].counts.spec_total() == orig[i].counts.spec_total()
                } by {
                    if i != id {
                        assert(library.cards@[i] == before[i]);
                    }
                }
            }
        }
        n += 1;
    }
}

impl GameState {
    /// A state with no encounter yet and no history, from a library, the
    /// starting balances and the rules.
    pub fn from_parts(library: Library, token_balances: TokenMap, game_rules: GameRulesConfig) -> (r: Self)
        ensures
            r.library == library,
            r.token_balances == token_balances,
            r.game_rules == game_rules,
            r.current_encounter is None,
            r.encounter_phase == EncounterPhase::NoEncounter,
            r.last_encounter_result is None,
            r.encounter_results@.len() == 0,
            r.encounter_records@.len() == 0,
            r.encounter_start_tokens@.len() == 0,
            r.last_encounter_card is None,
            r.pending_scouting_choice_ids@.len() == 0,
            !r.last_death_occurred,
            r.current_research is None,
    {
        GameState {
            token_balances,
            library,
            game_rules,
            current_encounter: None,
            encounter_phase: EncounterPhase::NoEncounter,
            last_encounter_result: None,
            encounter_results: Vec::new(),
            encounter_records: Vec::new(),
            encounter_start_tokens: Vec::new(),
            last_encounter_card: None,
            pending_scouting_choice_ids: Vec::new(),
            last_death_occurred: false,
            current_research: None,
        }
    }

    /// A fresh game: the library loaded from the discipline configurations (in
    /// order, shared effects first), the configured starting balances and the
    /// rules. Fails where the library cannot be loaded.
    pub fn new_from_configs(
        rng: &mut Lcg64Xsh32,
        tokens: &TokensConfig,
        configs: &Vec<(String, DisciplineConfig)>,
        game_rules: GameRulesConfig,
    ) -> (r: Result<GameState, LoadError>)
        ensures
            r matches Ok(g) ==> {
                &&& g.library.cards@.len() == total_cards(configs@)
                &&& all_rollable(g.library)
                &&& g.game_rules == game_rules
                &&& g.current_encounter is None
                &&& g.encounter_phase == EncounterPhase::NoEncounter
                &&& g.encounter_results@.len() == 0
                &&& forall|t: TokenType| #[trigger] g.token_balances.spec_get(persistent_key(t)) == match configured(tokens.initial_balances@, t) {
                    Some(v) => Some(v),
                    None => if spec_all_token_types().contains(t) { Some(0i64) } else { None },
                }
                &&& library_loaded(configs@, g.library)
            },
            r matches Err(LoadError::Config { prefix, error }) ==> exists|k: int, i: int|
                #![trigger configs@[k].1.cards@[i]]
                0 <= k < configs@.len() && 0 <= i < configs@[k].1.cards@.len() && configs@[k].0@ == prefix@
                    && entry_error(configs@[k].1.cards@[i], names_at(configs@, k, i), error),
            r matches Err(LoadError::Validation { errors }) ==> errors@.len() > 0 && exists|lib: Library|
                library_loaded(configs@, lib) && errors@ == crate::library::validate::library_errors(lib.cards@, lib.cards@.len() as int),
            !config_refusable(configs@) && (forall|lib: Library| #[trigger] library_loaded(configs@, lib)
                ==> crate::library::validate::library_errors(lib.cards@, lib.cards@.len() as int).len() == 0) ==> r is Ok,
    {
        let library = match load_library(rng, configs) {
            Ok(l) => l,
            Err(e) => {
                return Err(e);
            },
        };
        let balances = load_token_balances(tokens);
        Ok(GameState::from_parts(library, balances, game_rules))
    }

    /// Snapshot current token balances (by type) for metrics tracking at encounter start.
    pub fn snapshot_encounter_start_tokens(&mut self)
        ensures
            final(self).encounter_start_tokens@ == type_pairs(old(self).token_balances.spec_entries()),
            final(self).token_balances == old(self).token_balances,
            final(self).library == old(self).library,
            final(self).current_encounter == old(self).current_encounter,
            final(self).encounter_phase == old(self).encounter_phase,
            final(self).encounter_results@ == old(self).encounter_results@,
    {
        self.encounter_start_tokens = token_type_pairs(&self.token_balances);
    }

    /// Record a completed encounter for metrics: the record joins the history,
    /// the outcome becomes the last result and joins the results.
    pub fn record_encounter_finish(&mut self, discipline: Discipline, outcome: EncounterOutcome, rounds: u64)
        ensures
            final(self).encounter_records@.len() == old(self).encounter_records@.len() + 1,
            forall|i: int| 0 <= i < old(self).encounter_records@.len() ==> #[trigger] final(self).encounter_records@[i] == old(self).encounter_records@[i],
            ({
                let rec = final(self).encounter_records@.last();
                &&& rec.discipline == discipline
                &&& rec.outcome == outcome
                &&& rec.rounds == rounds
                &&& rec.tokens_at_start@ == old(self).encounter_start_tokens@
                &&& rec.tokens_at_end@ == type_pairs(old(self).token_balances.spec_entries())
            }),
            final(self).last_encounter_result == Some(outcome),
            final(self).encounter_results@ == old(self).encounter_results@.push(outcome),
            final(self).token_balances == old(self).token_balances,
            final(self).library == old(self).library,
            final(self).current_encounter == old(self).current_encounter,
            final(self).encounter_phase == old(self).encounter_phase,
            final(self).encounter_start_tokens@ == old(self).encounter_start_tokens@,
            final(self).game_rules == old(self).game_rules,
            final(self).last_death_occurred == old(self).last_death_occurred,
    {
        let tokens_at_end = token_type_pairs(&self.token_balances);
        let tokens_at_start = copy_pairs(&self.encounter_start_tokens);
        self.encounter_records.push(EncounterRecord { discipline, outcome, rounds, tokens_at_start, tokens_at_end });
        self.last_encounter_result = Some(outcome);
        self.encounter_results.push(outcome);
    }

    /// Remember the encounter card of the current encounter, when it is an
    /// encounter card of the library, before the encounter is cleared.
    pub fn capture_last_encounter_kind(&mut self)
        ensures
            ({
                match old(self).current_encounter {
                    Some(enc) => {
                        let id = enc.spec_encounter_card_id();
                        if id < old(self).library.cards@.len() && old(self).library.cards@[id as int].kind is Encounter {
                            final(self).last_encounter_card == Some(id)
                        } else {
                            final(self).last_encounter_card == old(self).last_encounter_card
                        }
                    },
                    None => final(self).last_encounter_card == old(self).last_encounter_card,
                }
            }),
            final(self).token_balances == old(self).token_balances,
            final(self).library == old(self).library,
            final(self).current_encounter == old(self).current_encounter,
            final(self).encounter_phase == old(self).encounter_phase,
            final(self).encounter_results@ == old(self).encounter_results@,
            final(self).encounter_records@ == old(self).encounter_records@,
            final(self).last_encounter_result == old(self).last_encounter_result,
            final(self).game_rules == old(self).game_rules,
            final(self).last_death_occurred == old(self).last_death_occurred,
    {
        let id = match &self.current_encounter {
            Some(enc) => enc.encounter_card_id(),
            None => return,
        };
        match self.library.get(id) {
            Some(card) => {
                if let CardKind::Encounter { .. } = &card.kind {
                    self.last_encounter_card = Some(id);
                }
            },
            None => {},
        }
    }

    /// Abort an encounter: it is recorded as lost, and scouting follows.
    pub fn abort_encounter(&mut self)
        ensures
            final(self).current_encounter is None,
            final(self).encounter_phase == EncounterPhase::Scouting,
            final(self).last_encounter_result == Some(EncounterOutcome::PlayerLost),
            final(self).encounter_results@ == old(self).encounter_results@.push(EncounterOutcome::PlayerLost),
            final(self).encounter_records@.len() == old(self).encounter_records@.len() + 1,
            ({
                let rec = final(self).encounter_records@.last();
                &&& rec.outcome == EncounterOutcome::PlayerLost
                &&& rec.discipline == (match old(self).current_encounter {
                    Some(e) => e.spec_discipline(),
                    None => Discipline::Combat,
                })
                &&& rec.rounds == (match old(self).current_encounter {
                    Some(e) => e.spec_round(),
                    None => 0,
                })
            }),
            final(self).token_balances == old(self).token_balances,
            final(self).library == old(self).library,
    {
        let (discipline, rounds) = match &self.current_encounter {
            Some(enc) => (enc.discipline(), enc.round()),
            None => (Discipline::Combat, 0),
        };
        self.record_encounter_finish(discipline, EncounterOutcome::PlayerLost, rounds);
        self.current_encounter = None;
        self.encounter_phase = EncounterPhase::Scouting;
    }

    /// Check if the player has died (Health <= 0) and apply death consequences:
    /// lose all gathering material tokens, reset health and stamina, count the death.
    pub fn check_player_death(&mut self)
        requires
            old(self).token_balances.spec_value(persistent_key(TokenType::PlayerDeaths)) < i64::MAX,
        ensures
            old(self).token_balances.spec_value(persistent_key(TokenType::Health)) > 0 ==> *final(self) == *old(self),
            old(self).token_balances.spec_value(persistent_key(TokenType::Health)) <= 0 ==> {
                let before = old(self).token_balances;
                let after = final(self).token_balances;
                &&& after.spec_get(persistent_key(TokenType::Health)) == Some(old(self).game_rules.general.death_reset_health)
                &&& after.spec_get(persistent_key(TokenType::Stamina)) == Some(old(self).game_rules.general.death_reset_stamina)
                &&& after.spec_get(persistent_key(TokenType::PlayerDeaths)) == Some((before.spec_value(persistent_key(TokenType::PlayerDeaths)) + 1) as i64)
                &&& forall|k: TokenKey| #![trigger after.spec_get(k)]
                    k.token_type.spec_is_gathering_material() ==> (before.spec_get(k) is Some ==> after.spec_get(k) == Some(0i64)) && (before.spec_get(k) is None ==> after.spec_get(k) is None)
                &&& forall|k: TokenKey| #![trigger after.spec_get(k)]
                    !k.token_type.spec_is_gathering_material() && k != persistent_key(TokenType::Health)
                    && k != persistent_key(TokenType::Stamina) && k != persistent_key(TokenType::PlayerDeaths)
                    ==> after.spec_get(k) == before.spec_get(k)
                &&& final(self).last_death_occurred
                &&& final(self).library == old(self).library
                &&& final(self).current_encounter == old(self).current_encounter
                &&& final(self).encounter_phase == old(self).encounter_phase
                &&& final(self).encounter_results@ == old(self).encounter_results@
            },
            bal(final(self).token_balances) == after_death_check(bal(old(self).token_balances), old(self).game_rules.general),
            final(self).library == old(self).library,
            final(self).current_encounter == old(self).current_encounter,
            final(self).encounter_phase == old(self).encounter_phase,
            final(self).encounter_results@ == old(self).encounter_results@,
            final(self).last_encounter_result == old(self).last_encounter_result,
            final(self).game_rules == old(self).game_rules,
            final(self).last_death_occurred == (old(self).last_death_occurred || old(self).token_balances.spec_value(persistent_key(TokenType::Health)) <= 0),
    {
        let health = self.token_balances.value(&Token::persistent(TokenType::Health));
        if health > 0 {
            return;
        }
        let materials = vec![TokenType::Ore, TokenType::Plant, TokenType::Lumber, TokenType::Fish];
        proof {
            assert forall|t: TokenType| materials@.contains(t) <==> t.spec_is_gathering_material() by {
                if t.spec_is_gathering_material() {
                    if t == TokenType::Ore { assert(materials@[0] == t); }
                    if t == TokenType::Plant { assert(materials@[1] == t); }
                    if t == TokenType::Lumber { assert(materials@[2] == t); }
                    if t == TokenType::Fish { assert(materials@[3] == t); }
                }
            }
        }
        let deaths = self.token_balances.value(&Token::persistent(TokenType::PlayerDeaths));
        let ghost b0 = bal(self.token_balances);
        self.token_balances.zero_types(&materials);
        proof {
            let z = (
                Map::new(|k: TokenKey| b0.0.contains_key(k), |k: TokenKey| if k.token_type.spec_is_gathering_material() { 0i64 } else { b0.0[k] }),
                Map::new(|tt: TokenType| true, |tt: TokenType| if tt.spec_is_gathering_material() { 0 } else { b0.1[tt] }),
            );
            assert(bal(self.token_balances).0 =~= z.0);
            assert(bal(self.token_balances).1 =~= z.1);
            assert(get0(b0.0, persistent_key(TokenType::PlayerDeaths)) == deaths);
        }
        self.token_balances.insert(Token::persistent(TokenType::Health), self.game_rules.general.death_reset_health);
        self.token_balances.insert(Token::persistent(TokenType::Stamina), self.game_rules.general.death_reset_stamina);
        self.token_balances.insert(Token::persistent(TokenType::PlayerDeaths), deaths + 1);
        self.last_death_occurred = true;
    }


    /// Draw `count` player cards of class `cl` from deck to hand, picking at
    /// random among the cards with a copy in the deck; the discard of that
    /// class goes back into the deck when none is left. While the hand of
    /// that class holds as many copies as the tokens of `max_hand_token`, the
    /// draw is skipped.
    pub fn draw_player_cards_of_kind(&mut self, count: u32, cl: CardClass, rng: &mut Lcg64Xsh32, max_hand_token: Option<TokenType>)
        requires
            counts_fit(old(self).library.cards@),
            class_hand(old(self).library.cards@, cl) + count <= u32::MAX,
            max_hand_token matches Some(t) ==> i64::MIN <= old(self).token_balances.spec_balance(t) <= i64::MAX,
        ensures
            draw_result(old(self).library.cards@, final(self).library.cards@, cl, count as int),
            class_hand(final(self).library.cards@, cl) == class_hand(old(self).library.cards@, cl)
                + drawn_count(old(self).token_balances, old(self).library.cards@, cl, max_hand_token, count as int),
            final(self).token_balances == old(self).token_balances,
            final(self).current_encounter == old(self).current_encounter,
            final(self).encounter_phase == old(self).encounter_phase,
            final(self).encounter_results@ == old(self).encounter_results@,
            final(self).last_encounter_result == old(self).last_encounter_result,
            final(self).last_death_occurred == old(self).last_death_occurred,
            final(self).game_rules == old(self).game_rules,
            final(self).library.woodcutting_patterns == old(self).library.woodcutting_patterns,
    {
        draw_of_class(&mut self.library, &self.token_balances, count, cl, rng, max_hand_token);
    }

    /// Draw player cards from deck to hand per card type (attack, defence,
    /// resource), each bounded by its max-hand token.
    pub fn draw_player_cards_by_type(&mut self, attack: u32, defence: u32, resource: u32, rng: &mut Lcg64Xsh32)
        requires
            counts_fit(old(self).library.cards@),
            class_hand(old(self).library.cards@, CardClass::Attack) + attack <= u32::MAX,
            class_hand(old(self).library.cards@, CardClass::Defence) + defence <= u32::MAX,
            class_hand(old(self).library.cards@, CardClass::Resource) + resource <= u32::MAX,
            i64::MIN <= old(self).token_balances.spec_balance(TokenType::AttackMaxHand) <= i64::MAX,
            i64::MIN <= old(self).token_balances.spec_balance(TokenType::DefenceMaxHand) <= i64::MAX,
            i64::MIN <= old(self).token_balances.spec_balance(TokenType::ResourceMaxHand) <= i64::MAX,
        ensures
            draws_by_type(old(self).library.cards@, final(self).library.cards@, attack as int, defence as int, resource as int),
            class_hand(final(self).library.cards@, CardClass::Attack) == class_hand(old(self).library.cards@, CardClass::Attack)
                + drawn_count(old(self).token_balances, old(self).library.cards@, CardClass::Attack, Some(TokenType::AttackMaxHand), attack as int),
            class_hand(final(self).library.cards@, CardClass::Defence) == class_hand(old(self).library.cards@, CardClass::Defence)
                + drawn_count(old(self).token_balances, old(self).library.cards@, CardClass::Defence, Some(TokenType::DefenceMaxHand), defence as int),
            class_hand(final(self).library.cards@, CardClass::Resource) == class_hand(old(self).library.cards@, CardClass::Resource)
                + drawn_count(old(self).token_balances, old(self).library.cards@, CardClass::Resource, Some(TokenType::ResourceMaxHand), resource as int),
            final(self).token_balances == old(self).token_balances,
            final(self).current_encounter == old(self).current_encounter,
            final(self).encounter_phase == old(self).encounter_phase,
            final(self).encounter_results@ == old(self).encounter_results@,
            final(self).last_encounter_result == old(self).last_encounter_result,
            final(self).last_death_occurred == old(self).last_death_occurred,
            final(self).game_rules == old(self).game_rules,
    {
        let ghost c0 = self.library.cards@;
        draw_of_class(&mut self.library, &self.token_balances, attack, CardClass::Attack, rng, Some(TokenType::AttackMaxHand));
        let ghost c1 = self.library.cards@;
        proof {
            lemma_counts_fit_moved(c0, c1);
            lemma_class_hand_untouched(c0, c1, CardClass::Defence);
            lemma_class_hand_untouched(c0, c1, CardClass::Resource);
            lemma_class_pile_same(c0, c1, CardClass::Defence);
            lemma_class_pile_same(c0, c1, CardClass::Resource);
        }
        draw_of_class(&mut self.library, &self.token_balances, defence, CardClass::Defence, rng, Some(TokenType::DefenceMaxHand));
        let ghost c2 = self.library.cards@;
        proof {
            lemma_counts_fit_moved(c1, c2);
            lemma_class_hand_untouched(c1, c2, CardClass::Attack);
            lemma_class_hand_untouched(c1, c2, CardClass::Resource);
            lemma_class_pile_same(c1, c2, CardClass::Resource);
        }
        draw_of_class(&mut self.library, &self.token_balances, resource, CardClass::Resource, rng, Some(TokenType::ResourceMaxHand));
        proof {
            let c3 = self.library.cards@;
            lemma_class_hand_untouched(c2, c3, CardClass::Attack);
            lemma_class_hand_untouched(c2, c3, CardClass::Defence);
            lemma_only_counts_moved_trans(c0, c1, c2);
            lemma_only_counts_moved_trans(c0, c2, c3);
            assert forall|i: int| #![trigger c3[i]] 0 <= i < c0.len() implies {
                &&& (class_of(c0[i].kind) != CardClass::Attack && class_of(c0[i].kind) != CardClass::Defence
                    && class_of(c0[i].kind) != CardClass::Resource ==> c3[i].counts == c0[i].counts)
                &&& c3[i].counts.hand >= c0[i].counts.hand
            } by {
                assert(c1[i].kind == c0[i].kind);
                assert(c2[i].kind == c0[i].kind);
            }
        }
    }

    /// Whether the hand of class `cl` is at its maximum: the total of tokens
    /// of type `max_hand_token`, when one is given.
    pub fn handsize_reached(&self, cl: CardClass, max_hand_token: Option<TokenType>) -> (r: bool)
        requires
            class_hand(self.library.cards@, cl) <= u32::MAX,
            max_hand_token matches Some(t) ==> i64::MIN <= self.token_balances.spec_balance(t) <= i64::MAX,
        ensures
            r == (match max_hand_token {
                Some(t) => class_hand(self.library.cards@, cl) >= self.token_balances.spec_balance(t),
                None => false,
            }),
    {
        match max_hand_token {
            Some(t) => {
                let max_hand = self.token_balances.balance_by_type(&t);
                let current = class_hand_count(&self.library.cards, cl);
                current as i64 >= max_hand
            },
            None => false,
        }
    }
}

} // verus!
