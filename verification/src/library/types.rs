//! The data of the game: tokens, cards, effects, encounters.
use super::token_map::{bal, bset, TokenMap};
use vstd::prelude::*;

verus! {

#[derive(Clone, Copy, Debug, PartialEq, Eq, Hash, Structural)]
pub enum Discipline {
    Combat,
    Mining,
    Herbalism,
    Woodcutting,
    Fishing,
    Rest,
    Crafting,
    Research,
}

/// Canonical token identifier enum.
/// Each variant is a well-known token with associated lifecycle semantics.
#[derive(Clone, Copy, Debug, PartialEq, Eq, Hash, Structural)]
pub enum TokenType {
    // Combat tokens (expire when encounter reaches Scouting phase)
    Health,
    MaxHealth,
    Shield,
    Stamina,
    Dodge,
    Mana,
    // Persistent/meta tokens
    Insight,
    Renown,
    Refinement,
    Stability,
    Foresight,
    Momentum,
    Corruption,
    Exhaustion,
    Durability,
    MiningDurability,
    HerbalismDurability,
    WoodcuttingDurability,
    FishingDurability,
    // Material tokens (produced by gathering)
    Ore,
    Plant,
    Lumber,
    Fish,
    // Max handsize tokens (player decks)
    AttackMaxHand,
    DefenceMaxHand,
    ResourceMaxHand,
    MiningMaxHand,
    HerbalismMaxHand,
    WoodcuttingMaxHand,
    FishingMaxHand,
    // Max handsize tokens (enemy decks, encounter-scoped)
    EnemyAttackMaxHand,
    EnemyDefenceMaxHand,
    EnemyResourceMaxHand,
    // Milestone/reward tokens
    MilestoneInsight,
    // Fishing encounter-scoped tokens
    FishingRangeMin,
    FishingRangeMax,
    FishAmount,
    // Mining encounter-scoped tokens
    MiningLightLevel,
    MiningYield,
    MiningPower,
    // Rest encounter tokens
    RestToken,
    RestMaxHand,
    // Crafting encounter tokens
    CraftingToken,
    CraftingMaxHand,
    // Death tracking
    PlayerDeaths,
}

/// The token types listed by `TokenType::all`, in order.
pub open spec fn spec_all_token_types() -> Seq<TokenType> {
    seq![
        TokenType::Health, TokenType::MaxHealth, TokenType::Shield, TokenType::Stamina,
        TokenType::Dodge, TokenType::Mana, TokenType::Insight, TokenType::Renown,
        TokenType::Refinement, TokenType::Stability, TokenType::Foresight, TokenType::Momentum,
        TokenType::Corruption, TokenType::Exhaustion, TokenType::Durability, TokenType::MiningDurability,
        TokenType::HerbalismDurability, TokenType::WoodcuttingDurability, TokenType::FishingDurability,
        TokenType::Ore, TokenType::Plant, TokenType::Lumber, TokenType::Fish,
        TokenType::AttackMaxHand, TokenType::DefenceMaxHand, TokenType::ResourceMaxHand,
        TokenType::MiningMaxHand, TokenType::HerbalismMaxHand, TokenType::WoodcuttingMaxHand,
        TokenType::FishingMaxHand, TokenType::EnemyAttackMaxHand, TokenType::EnemyDefenceMaxHand,
        TokenType::EnemyResourceMaxHand, TokenType::MilestoneInsight, TokenType::FishingRangeMin,
        TokenType::FishingRangeMax, TokenType::FishAmount, TokenType::MiningLightLevel,
        TokenType::MiningYield, TokenType::MiningPower, TokenType::RestToken, TokenType::RestMaxHand,
        TokenType::CraftingToken, TokenType::CraftingMaxHand, TokenType::PlayerDeaths,
    ]
}

/// The position of `t` in `spec_all_token_types`.
pub open spec fn token_type_index(t: TokenType) -> int {
    match t {
        TokenType::Health => 0,
        TokenType::MaxHealth => 1,
        TokenType::Shield => 2,
        TokenType::Stamina => 3,
        TokenType::Dodge => 4,
        TokenType::Mana => 5,
        TokenType::Insight => 6,
        TokenType::Renown => 7,
        TokenType::Refinement => 8,
        TokenType::Stability => 9,
        TokenType::Foresight => 10,
        TokenType::Momentum => 11,
        TokenType::Corruption => 12,
        TokenType::Exhaustion => 13,
        TokenType::Durability => 14,
        TokenType::MiningDurability => 15,
        TokenType::HerbalismDurability => 16,
        TokenType::WoodcuttingDurability => 17,
        TokenType::FishingDurability => 18,
        TokenType::Ore => 19,
        TokenType::Plant => 20,
        TokenType::Lumber => 21,
        TokenType::Fish => 22,
        TokenType::AttackMaxHand => 23,
        TokenType::DefenceMaxHand => 24,
        TokenType::ResourceMaxHand => 25,
        TokenType::MiningMaxHand => 26,
        TokenType::HerbalismMaxHand => 27,
        TokenType::WoodcuttingMaxHand => 28,
        TokenType::FishingMaxHand => 29,
        TokenType::EnemyAttackMaxHand => 30,
        TokenType::EnemyDefenceMaxHand => 31,
        TokenType::EnemyResourceMaxHand => 32,
        TokenType::MilestoneInsight => 33,
        TokenType::FishingRangeMin => 34,
        TokenType::FishingRangeMax => 35,
        TokenType::FishAmount => 36,
        TokenType::MiningLightLevel => 37,
        TokenType::MiningYield => 38,
        TokenType::MiningPower => 39,
        TokenType::RestToken => 40,
        TokenType::RestMaxHand => 41,
        TokenType::CraftingToken => 42,
        TokenType::CraftingMaxHand => 43,
        TokenType::PlayerDeaths => 44,
    }
}

impl TokenType {
    /// All known token types.
    pub fn all() -> (r: Vec<TokenType>)
        ensures
            r@ == spec_all_token_types(),
            forall|t: TokenType| #[trigger] r@.contains(t),
            r@.no_duplicates(),
    {
        let r = vec![
            TokenType::Health, TokenType::MaxHealth, TokenType::Shield, TokenType::Stamina,
            TokenType::Dodge, TokenType::Mana, TokenType::Insight, TokenType::Renown,
            TokenType::Refinement, TokenType::Stability, TokenType::Foresight, TokenType::Momentum,
            TokenType::Corruption, TokenType::Exhaustion, TokenType::Durability, TokenType::MiningDurability,
            TokenType::HerbalismDurability, TokenType::WoodcuttingDurability, TokenType::FishingDurability,
            TokenType::Ore, TokenType::Plant, TokenType::Lumber, TokenType::Fish,
            TokenType::AttackMaxHand, TokenType::DefenceMaxHand, TokenType::ResourceMaxHand,
            TokenType::MiningMaxHand, TokenType::HerbalismMaxHand, TokenType::WoodcuttingMaxHand,
            TokenType::FishingMaxHand, TokenType::EnemyAttackMaxHand, TokenType::EnemyDefenceMaxHand,
            TokenType::EnemyResourceMaxHand, TokenType::MilestoneInsight, TokenType::FishingRangeMin,
            TokenType::FishingRangeMax, TokenType::FishAmount, TokenType::MiningLightLevel,
            TokenType::MiningYield, TokenType::MiningPower, TokenType::RestToken, TokenType::RestMaxHand,
            TokenType::CraftingToken, TokenType::CraftingMaxHand, TokenType::PlayerDeaths,
        ];
        assert(r@ =~= spec_all_token_types());
        proof {
            assert(token_type_index(r@[0]) == 0);
            assert(token_type_index(r@[1]) == 1);
            assert(token_type_index(r@[2]) == 2);
            assert(token_type_index(r@[3]) == 3);
            assert(token_type_index(r@[4]) == 4);
            assert(token_type_index(r@[5]) == 5);
            assert(token_type_index(r@[6]) == 6);
            assert(token_type_index(r@[7]) == 7);
            assert(token_type_index(r@[8]) == 8);
            assert(token_type_index(r@[9]) == 9);
            assert(token_type_index(r@[10]) == 10);
            assert(token_type_index(r@[11]) == 11);
            assert(token_type_index(r@[12]) == 12);
            assert(token_type_index(r@[13]) == 13);
            assert(token_type_index(r@[14]) == 14);
            assert(token_type_index(r@[15]) == 15);
            assert(token_type_index(r@[16]) == 16);
            assert(token_type_index(r@[17]) == 17);
            assert(token_type_index(r@[18]) == 18);
            assert(token_type_index(r@[19]) == 19);
            assert(token_type_index(r@[20]) == 20);
            assert(token_type_index(r@[21]) == 21);
            assert(token_type_index(r@[22]) == 22);
            assert(token_type_index(r@[23]) == 23);
            assert(token_type_index(r@[24]) == 24);
            assert(token_type_index(r@[25]) == 25);
            assert(token_type_index(r@[26]) == 26);
            assert(token_type_index(r@[27]) == 27);
            assert(token_type_index(r@[28]) == 28);
            assert(token_type_index(r@[29]) == 29);
            assert(token_type_index(r@[30]) == 30);
            assert(token_type_index(r@[31]) == 31);
            assert(token_type_index(r@[32]) == 32);
            assert(token_type_index(r@[33]) == 33);
            assert(token_type_index(r@[34]) == 34);
            assert(token_type_index(r@[35]) == 35);
            assert(token_type_index(r@[36]) == 36);
            assert(token_type_index(r@[37]) == 37);
            assert(token_type_index(r@[38]) == 38);
            assert(token_type_index(r@[39]) == 39);
            assert(token_type_index(r@[40]) == 40);
            assert(token_type_index(r@[41]) == 41);
            assert(token_type_index(r@[42]) == 42);
            assert(token_type_index(r@[43]) == 43);
            assert(token_type_index(r@[44]) == 44);
            assert forall|t: TokenType| #[trigger] r@.contains(t) by {
                assert(r@[token_type_index(t)] == t);
            }
            assert forall|i: int, j: int| 0 <= i < r@.len() && 0 <= j < r@.len() && i != j implies r@[i] != r@[j] by {
                assert(token_type_index(r@[i]) == i);
                assert(token_type_index(r@[j]) == j);
            }
        }
        r
    }

    pub open spec fn spec_is_gathering_material(self) -> bool {
        self == TokenType::Ore || self == TokenType::Plant || self == TokenType::Lumber || self == TokenType::Fish
    }

    pub fn is_gathering_material(&self) -> (r: bool)
        ensures
            r == self.spec_is_gathering_material(),
    {
        match self {
            TokenType::Ore | TokenType::Plant | TokenType::Lumber | TokenType::Fish => true,
            _ => false,
        }
    }

    pub open spec fn spec_is_durability_cost(self) -> bool {
        self == TokenType::MiningDurability || self == TokenType::HerbalismDurability
            || self == TokenType::WoodcuttingDurability || self == TokenType::FishingDurability
    }

    pub fn is_durability_cost(&self) -> (r: bool)
        ensures
            r == self.spec_is_durability_cost(),
    {
        match self {
            TokenType::MiningDurability | TokenType::HerbalismDurability | TokenType::WoodcuttingDurability
            | TokenType::FishingDurability => true,
            _ => false,
        }
    }

    /// Tokens that live in an encounter's own state rather than in the player's balances.
    pub open spec fn spec_is_encounter_scoped(self) -> bool {
        ||| self == TokenType::EnemyAttackMaxHand
        ||| self == TokenType::EnemyDefenceMaxHand
        ||| self == TokenType::EnemyResourceMaxHand
        ||| self == TokenType::FishingRangeMin
        ||| self == TokenType::FishingRangeMax
        ||| self == TokenType::FishAmount
        ||| self == TokenType::MiningLightLevel
        ||| self == TokenType::MiningYield
        ||| self == TokenType::MiningPower
        ||| self == TokenType::RestToken
        ||| self == TokenType::CraftingToken
    }

    pub fn is_encounter_scoped(&self) -> (r: bool)
        ensures
            r == self.spec_is_encounter_scoped(),
    {
        match self {
            TokenType::EnemyAttackMaxHand | TokenType::EnemyDefenceMaxHand | TokenType::EnemyResourceMaxHand
            | TokenType::FishingRangeMin | TokenType::FishingRangeMax | TokenType::FishAmount
            | TokenType::MiningLightLevel | TokenType::MiningYield | TokenType::MiningPower
            | TokenType::RestToken | TokenType::CraftingToken => true,
            _ => false,
        }
    }
}

/// The costs of `costs` whose type satisfies (`want == true`) or fails (`want == false`) `is_durability_cost`, in order.
pub open spec fn filter_durability(costs: Seq<TokenAmount>, want: bool) -> Seq<TokenAmount> {
    costs.filter(|c: TokenAmount| c.token_type.spec_is_durability_cost() == want)
}

/// Split gathering costs into pre-play costs (reject card if unaffordable)
/// and post-play costs (durability — deplete encounter after play).
pub fn split_token_amounts(costs: &[TokenAmount]) -> (r: (Vec<TokenAmount>, Vec<TokenAmount>))
    ensures
        r.0@ == filter_durability(costs@, false),
        r.1@ == filter_durability(costs@, true),
{
    let mut pre_play: Vec<TokenAmount> = Vec::new();
    let mut post_play: Vec<TokenAmount> = Vec::new();
    let mut i: usize = 0;
    while i < costs.len()
        invariant
            i <= costs@.len(),
            pre_play@ == filter_durability(costs@.subrange(0, i as int), false),
            post_play@ == filter_durability(costs@.subrange(0, i as int), true),
        decreases costs@.len() - i,
    {
        let c = costs[i];
        proof {
            let s = costs@.subrange(0, i + 1);
            assert(s.drop_last() =~= costs@.subrange(0, i as int));
            reveal_with_fuel(Seq::filter, 1);
        }
        if c.token_type.is_durability_cost() {
            post_play.push(c);
        } else {
            pre_play.push(c);
        }
        i += 1;
    }
    proof {
        assert(costs@.subrange(0, costs@.len() as int) =~= costs@);
    }
    (pre_play, post_play)
}

/// Combat phases for turn-based combat.
#[derive(Clone, Copy, Debug, PartialEq, Eq, Hash, Structural)]
pub enum CombatPhase {
    Defending,
    Attacking,
    Resourcing,
}

impl CombatPhase {
    pub open spec fn spec_next(self) -> CombatPhase {
        match self {
            CombatPhase::Defending => CombatPhase::Attacking,
            CombatPhase::Attacking => CombatPhase::Resourcing,
            CombatPhase::Resourcing => CombatPhase::Defending,
        }
    }

    pub fn next(&self) -> (r: Self)
        ensures
            r == self.spec_next(),
    {
        match self {
            CombatPhase::Defending => CombatPhase::Attacking,
            CombatPhase::Attacking => CombatPhase::Resourcing,
            CombatPhase::Resourcing => CombatPhase::Defending,
        }
    }

    /// Whether a card of kind `k` may be played in this phase.
    pub open spec fn spec_allows(self, k: CardKind) -> bool {
        match self {
            CombatPhase::Defending => k is Defence,
            CombatPhase::Attacking => k is Attack,
            CombatPhase::Resourcing => k is Resource,
        }
    }

    /// Whether a card of kind `k` may be played in this phase.
    pub fn allowed_card_kind(&self, k: &CardKind) -> (r: bool)
        ensures
            r == self.spec_allows(*k),
    {
        match self {
            CombatPhase::Defending => matches!(k, CardKind::Defence { .. }),
            CombatPhase::Attacking => matches!(k, CardKind::Attack { .. }),
            CombatPhase::Resourcing => matches!(k, CardKind::Resource { .. }),
        }
    }

    pub fn allowed_card_kind_name(&self) -> (r: &'static str)
        ensures
            *self == CombatPhase::Defending ==> r@ == "Defence"@,
            *self == CombatPhase::Attacking ==> r@ == "Attack"@,
            *self == CombatPhase::Resourcing ==> r@ == "Resource"@,
    {
        match self {
            CombatPhase::Defending => "Defence",
            CombatPhase::Attacking => "Attack",
            CombatPhase::Resourcing => "Resource",
        }
    }
}

/// How long a token lasts.
#[derive(Debug)]
pub enum TokenLifecycle {
    Permanent,
    PersistentCounter,
    FixedDuration { duration: u64 },
    FixedTypeDuration { duration: u64, phases: Vec<CombatPhase> },
    UntilNextAction,
    SingleUse,
    Conditional,
}

/// A lifecycle as a mathematical value.
pub enum LifecycleKey {
    Permanent,
    PersistentCounter,
    FixedDuration { duration: u64 },
    FixedTypeDuration { duration: u64, phases: Seq<CombatPhase> },
    UntilNextAction,
    SingleUse,
    Conditional,
}

impl View for TokenLifecycle {
    type V = LifecycleKey;

    open spec fn view(&self) -> LifecycleKey {
        match self {
            TokenLifecycle::Permanent => LifecycleKey::Permanent,
            TokenLifecycle::PersistentCounter => LifecycleKey::PersistentCounter,
            TokenLifecycle::FixedDuration { duration } => LifecycleKey::FixedDuration { duration: *duration },
            TokenLifecycle::FixedTypeDuration { duration, phases } => LifecycleKey::FixedTypeDuration {
                duration: *duration,
                phases: phases@,
            },
            TokenLifecycle::UntilNextAction => LifecycleKey::UntilNextAction,
            TokenLifecycle::SingleUse => LifecycleKey::SingleUse,
            TokenLifecycle::Conditional => LifecycleKey::Conditional,
        }
    }
}

fn phases_eq(a: &Vec<CombatPhase>, b: &Vec<CombatPhase>) -> (r: bool)
    ensures
        r == (a@ == b@),
{
    if a.len() != b.len() {
        return false;
    }
    let mut i: usize = 0;
    while i < a.len()
        invariant
            i <= a.len(),
            a@.len() == b@.len(),
            forall|j: int| 0 <= j < i ==> a@[j] == b@[j],
        decreases a.len() - i,
    {
        if a[i] != b[i] {
            return false;
        }
        i += 1;
    }
    assert(a@ =~= b@);
    true
}

fn copy_phases(a: &Vec<CombatPhase>) -> (r: Vec<CombatPhase>)
    ensures
        r@ == a@,
{
    let mut r = Vec::new();
    let mut i: usize = 0;
    while i < a.len()
        invariant
            i <= a.len(),
            r@ == a@.subrange(0, i as int),
        decreases a.len() - i,
    {
        r.push(a[i]);
        i += 1;
    }
    assert(a@.subrange(0, a@.len() as int) =~= a@);
    r
}

impl TokenLifecycle {
    /// Whether two lifecycles are the same.
    pub fn equals(&self, other: &TokenLifecycle) -> (r: bool)
        ensures
            r == (self@ == other@),
    {
        match (self, other) {
            (TokenLifecycle::Permanent, TokenLifecycle::Permanent) => true,
            (TokenLifecycle::PersistentCounter, TokenLifecycle::PersistentCounter) => true,
            (TokenLifecycle::FixedDuration { duration: a }, TokenLifecycle::FixedDuration { duration: b }) => *a == *b,
            (
                TokenLifecycle::FixedTypeDuration { duration: a, phases: pa },
                TokenLifecycle::FixedTypeDuration { duration: b, phases: pb },
            ) => *a == *b && phases_eq(pa, pb),
            (TokenLifecycle::UntilNextAction, TokenLifecycle::UntilNextAction) => true,
            (TokenLifecycle::SingleUse, TokenLifecycle::SingleUse) => true,
            (TokenLifecycle::Conditional, TokenLifecycle::Conditional) => true,
            _ => false,
        }
    }

    /// A copy of this lifecycle.
    pub fn duplicate(&self) -> (r: TokenLifecycle)
        ensures
            r@ == self@,
    {
        match self {
            TokenLifecycle::Permanent => TokenLifecycle::Permanent,
            TokenLifecycle::PersistentCounter => TokenLifecycle::PersistentCounter,
            TokenLifecycle::FixedDuration { duration } => TokenLifecycle::FixedDuration { duration: *duration },
            TokenLifecycle::FixedTypeDuration { duration, phases } => TokenLifecycle::FixedTypeDuration {
                duration: *duration,
                phases: copy_phases(phases),
            },
            TokenLifecycle::UntilNextAction => TokenLifecycle::UntilNextAction,
            TokenLifecycle::SingleUse => TokenLifecycle::SingleUse,
            TokenLifecycle::Conditional => TokenLifecycle::Conditional,
        }
    }
}

/// A token instance: token type + lifecycle. Used as key in token balance maps.
#[derive(Debug)]
pub struct Token {
    pub token_type: TokenType,
    pub lifecycle: TokenLifecycle,
}

/// A token as a mathematical value.
pub struct TokenKey {
    pub token_type: TokenType,
    pub lifecycle: LifecycleKey,
}

impl View for Token {
    type V = TokenKey;

    open spec fn view(&self) -> TokenKey {
        TokenKey { token_type: self.token_type, lifecycle: self.lifecycle@ }
    }
}

/// The persistent counter of a token type.
pub open spec fn persistent_key(tt: TokenType) -> TokenKey {
    TokenKey { token_type: tt, lifecycle: LifecycleKey::PersistentCounter }
}

/// The dodge token: lasts one Defending phase.
pub open spec fn dodge_key() -> TokenKey {
    TokenKey {
        token_type: TokenType::Dodge,
        lifecycle: LifecycleKey::FixedTypeDuration { duration: 1, phases: seq![CombatPhase::Defending] },
    }
}

impl Token {
    /// Create a persistent counter token (most tokens use this).
    pub fn persistent(token_type: TokenType) -> (r: Self)
        ensures
            r == (Token { token_type, lifecycle: TokenLifecycle::PersistentCounter }),
            r@ == persistent_key(token_type),
            r.token_type == token_type,
    {
        Token { token_type, lifecycle: TokenLifecycle::PersistentCounter }
    }

    /// Create a dodge token with its unique lifecycle.
    pub fn dodge() -> (r: Self)
        ensures
            r@ == dodge_key(),
            r.token_type == TokenType::Dodge,
    {
        let phases = vec![CombatPhase::Defending];
        assert(phases@ =~= seq![CombatPhase::Defending]);
        Token { token_type: TokenType::Dodge, lifecycle: TokenLifecycle::FixedTypeDuration { duration: 1, phases } }
    }

    /// Whether two tokens are the same.
    pub fn equals(&self, other: &Token) -> (r: bool)
        ensures
            r == (self@ == other@),
    {
        self.token_type == other.token_type && self.lifecycle.equals(&other.lifecycle)
    }

    /// A copy of this token.
    pub fn duplicate(&self) -> (r: Token)
        ensures
            r@ == self@,
            r.token_type == self.token_type,
    {
        Token { token_type: self.token_type, lifecycle: self.lifecycle.duplicate() }
    }
}

/// Who a card effect targets.
#[derive(Clone, Copy, Debug, PartialEq, Eq, Structural)]
pub enum EffectTarget {
    OnSelf,
    OnOpponent,
}

/// Cost definition on a CardEffect template: a percentage range of the effect value.
#[derive(Clone, Copy, Debug, PartialEq, Eq, Structural)]
pub struct CardEffectCost {
    pub token_type: TokenType,
    pub min_percent: u32,
    pub max_percent: u32,
}

/// Describes what kind of effect a card applies.
/// CardEffects are templates with min/max ranges; concrete cards roll fixed values.
#[derive(Debug)]
pub enum CardEffectKind {
    /// Grant tokens: starts from a cap range and calculates gain as cap * gain_percent / 100,
    /// clamped so the token balance does not exceed the rolled cap.
    /// Costs are a percentage of the gain. The gain token_type must not match any cost token_type.
    GainTokens {
        target: EffectTarget,
        token_type: TokenType,
        cap_min: i64,
        cap_max: i64,
        gain_min_percent: u32,
        gain_max_percent: u32,
        costs: Vec<CardEffectCost>,
        duration: TokenLifecycle,
    },
    /// Lose tokens: min/max represent the positive amount to lose. The apply logic subtracts.
    /// Costs are calculated after the loss value is determined.
    LoseTokens {
        target: EffectTarget,
        token_type: TokenType,
        min: i64,
        max: i64,
        costs: Vec<CardEffectCost>,
        duration: TokenLifecycle,
    },
    DrawCards { attack: u32, defence: u32, resource: u32 },
    /// Grant Insight tokens: rolls a value from min..max range.
    Insight { min: i64, max: i64 },
    /// A fishing value: rolls a value from min..max range, played against the fish.
    FishingValue { min: i64, max: i64, costs: Vec<CardEffectCost> },
    /// An herbalism match: which plants of the plant hand the card removes.
    HerbalismMatch { match_mode: HerbalismMatchMode, costs: Vec<CardEffectCost> },
    /// A woodcutting chop: its type, and a chop value rolled from min..max.
    WoodcuttingChop { chop_type: ChopType, min_value: u32, max_value: u32, costs: Vec<CardEffectCost> },
    /// A research probe: the symbols a research card carries into an experiment.
    ResearchProbe { symbols: Vec<ResearchSymbol>, costs: Vec<CardEffectCost> },
}

/// An effect template as a mathematical value.
pub enum CardEffectKindView {
    GainTokens {
        target: EffectTarget,
        token_type: TokenType,
        cap_min: i64,
        cap_max: i64,
        gain_min_percent: u32,
        gain_max_percent: u32,
        costs: Seq<CardEffectCost>,
        duration: LifecycleKey,
    },
    LoseTokens {
        target: EffectTarget,
        token_type: TokenType,
        min: i64,
        max: i64,
        costs: Seq<CardEffectCost>,
        duration: LifecycleKey,
    },
    DrawCards { attack: u32, defence: u32, resource: u32 },
    Insight { min: i64, max: i64 },
    FishingValue { min: i64, max: i64, costs: Seq<CardEffectCost> },
    HerbalismMatch { match_mode: HerbalismMatchModeView, costs: Seq<CardEffectCost> },
    WoodcuttingChop { chop_type: ChopType, min_value: u32, max_value: u32, costs: Seq<CardEffectCost> },
    ResearchProbe { symbols: Seq<ResearchSymbol>, costs: Seq<CardEffectCost> },
}

impl View for CardEffectKind {
    type V = CardEffectKindView;

    open spec fn view(&self) -> CardEffectKindView {
        match self {
            CardEffectKind::GainTokens { target, token_type, cap_min, cap_max, gain_min_percent, gain_max_percent, costs, duration } =>
                CardEffectKindView::GainTokens {
                    target: *target,
                    token_type: *token_type,
                    cap_min: *cap_min,
                    cap_max: *cap_max,
                    gain_min_percent: *gain_min_percent,
                    gain_max_percent: *gain_max_percent,
                    costs: costs@,
                    duration: duration@,
                },
            CardEffectKind::LoseTokens { target, token_type, min, max, costs, duration } => CardEffectKindView::LoseTokens {
                target: *target,
                token_type: *token_type,
                min: *min,
                max: *max,
                costs: costs@,
                duration: duration@,
            },
            CardEffectKind::DrawCards { attack, defence, resource } => CardEffectKindView::DrawCards {
                attack: *attack,
                defence: *defence,
                resource: *resource,
            },
            CardEffectKind::Insight { min, max } => CardEffectKindView::Insight { min: *min, max: *max },
            CardEffectKind::FishingValue { min, max, costs } => CardEffectKindView::FishingValue { min: *min, max: *max, costs: costs@ },
            CardEffectKind::HerbalismMatch { match_mode, costs } => CardEffectKindView::HerbalismMatch { match_mode: match_mode@, costs: costs@ },
            CardEffectKind::WoodcuttingChop { chop_type, min_value, max_value, costs } => CardEffectKindView::WoodcuttingChop {
                chop_type: *chop_type,
                min_value: *min_value,
                max_value: *max_value,
                costs: costs@,
            },
            CardEffectKind::ResearchProbe { symbols, costs } => CardEffectKindView::ResearchProbe { symbols: symbols@, costs: costs@ },
        }
    }
}

fn copy_effect_costs(v: &Vec<CardEffectCost>) -> (r: Vec<CardEffectCost>)
    ensures
        r@ == v@,
{
    let mut r = Vec::new();
    let mut i: usize = 0;
    while i < v.len()
        invariant
            i <= v.len(),
            r@ == v@.subrange(0, i as int),
        decreases v.len() - i,
    {
        r.push(v[i]);
        i += 1;
    }
    assert(v@.subrange(0, v@.len() as int) =~= v@);
    r
}

impl CardEffectKind {
    /// A copy of this template.
    pub fn duplicate(&self) -> (r: CardEffectKind)
        ensures
            r@ == self@,
    {
        match self {
            CardEffectKind::GainTokens { target, token_type, cap_min, cap_max, gain_min_percent, gain_max_percent, costs, duration } =>
                CardEffectKind::GainTokens {
                    target: *target,
                    token_type: *token_type,
                    cap_min: *cap_min,
                    cap_max: *cap_max,
                    gain_min_percent: *gain_min_percent,
                    gain_max_percent: *gain_max_percent,
                    costs: copy_effect_costs(costs),
                    duration: duration.duplicate(),
                },
            CardEffectKind::LoseTokens { target, token_type, min, max, costs, duration } => CardEffectKind::LoseTokens {
                target: *target,
                token_type: *token_type,
                min: *min,
                max: *max,
                costs: copy_effect_costs(costs),
                duration: duration.duplicate(),
            },
            CardEffectKind::DrawCards { attack, defence, resource } => CardEffectKind::DrawCards {
                attack: *attack,
                defence: *defence,
                resource: *resource,
            },
            CardEffectKind::Insight { min, max } => CardEffectKind::Insight { min: *min, max: *max },
            CardEffectKind::FishingValue { min, max, costs } => CardEffectKind::FishingValue {
                min: *min,
                max: *max,
                costs: copy_effect_costs(costs),
            },
            CardEffectKind::HerbalismMatch { match_mode, costs } => CardEffectKind::HerbalismMatch {
                match_mode: match_mode.duplicate(),
                costs: copy_effect_costs(costs),
            },
            CardEffectKind::WoodcuttingChop { chop_type, min_value, max_value, costs } => CardEffectKind::WoodcuttingChop {
                chop_type: *chop_type,
                min_value: *min_value,
                max_value: *max_value,
                costs: copy_effect_costs(costs),
            },
            CardEffectKind::ResearchProbe { symbols, costs } => CardEffectKind::ResearchProbe {
                symbols: copy_symbols(symbols),
                costs: copy_effect_costs(costs),
            },
        }
    }
}

/// A concrete rolled cost on a card: the specific percentage rolled from the cost range.
#[derive(Clone, Copy, Debug, PartialEq, Eq, Structural)]
pub struct ConcreteEffectCost {
    pub token_type: TokenType,
    pub rolled_percent: u32,
}

/// A concrete effect on a card: references a CardEffect and stores rolled values.
#[derive(Debug)]
pub struct ConcreteEffect {
    pub effect_id: usize,
    pub rolled_value: i64,
    pub rolled_costs: Vec<ConcreteEffectCost>,
    /// Rolled cap for token-granting effects (from cap_min..cap_max on the template).
    pub rolled_cap: Option<i64>,
    /// Rolled gain percentage (from gain_min_percent..gain_max_percent on the template).
    pub rolled_gain_percent: Option<u32>,
}

/// A concrete effect as a mathematical value.
pub struct ConcreteEffectView {
    pub effect_id: usize,
    pub rolled_value: i64,
    pub rolled_costs: Seq<ConcreteEffectCost>,
    pub rolled_cap: Option<i64>,
    pub rolled_gain_percent: Option<u32>,
}

impl View for ConcreteEffect {
    type V = ConcreteEffectView;

    open spec fn view(&self) -> ConcreteEffectView {
        ConcreteEffectView {
            effect_id: self.effect_id,
            rolled_value: self.rolled_value,
            rolled_costs: self.rolled_costs@,
            rolled_cap: self.rolled_cap,
            rolled_gain_percent: self.rolled_gain_percent,
        }
    }
}

/// The views of a list of effects.
pub open spec fn effects_view(s: Seq<ConcreteEffect>) -> Seq<ConcreteEffectView> {
    s.map_values(|e: ConcreteEffect| e@)
}

impl ConcreteEffect {
    /// A copy of this effect.
    pub fn duplicate(&self) -> (r: ConcreteEffect)
        ensures
            r@ == self@,
    {
        let mut costs = Vec::new();
        let mut i: usize = 0;
        while i < self.rolled_costs.len()
            invariant
                i <= self.rolled_costs.len(),
                costs@ == self.rolled_costs@.subrange(0, i as int),
            decreases self.rolled_costs.len() - i,
        {
            costs.push(self.rolled_costs[i]);
            i += 1;
        }
        assert(self.rolled_costs@.subrange(0, self.rolled_costs@.len() as int) =~= self.rolled_costs@);
        ConcreteEffect {
            effect_id: self.effect_id,
            rolled_value: self.rolled_value,
            rolled_costs: costs,
            rolled_cap: self.rolled_cap,
            rolled_gain_percent: self.rolled_gain_percent,
        }
    }
}

/// A copy of a list of effects.
pub fn duplicate_effects(s: &Vec<ConcreteEffect>) -> (r: Vec<ConcreteEffect>)
    ensures
        effects_view(r@) == effects_view(s@),
{
    let mut r: Vec<ConcreteEffect> = Vec::new();
    let mut i: usize = 0;
    while i < s.len()
        invariant
            i <= s.len(),
            effects_view(r@) == effects_view(s@.subrange(0, i as int)),
        decreases s.len() - i,
    {
        let e = s[i].duplicate();
        proof {
            assert(effects_view(r@.push(e)) =~= effects_view(r@).push(e@));
            assert(effects_view(s@.subrange(0, i + 1)) =~= effects_view(s@.subrange(0, i as int)).push(s@[i as int]@));
        }
        r.push(e);
        i += 1;
    }
    assert(s@.subrange(0, s@.len() as int) =~= s@);
    r
}

/// A fixed amount of a token type, used in costs and gains of gathering discipline cards.
/// When used as a gain, `cap` limits the maximum accumulated value of this token type.
#[derive(Clone, Copy, Debug, PartialEq, Eq, Structural)]
pub struct TokenAmount {
    pub token_type: TokenType,
    pub amount: i64,
    pub cap: Option<i64>,
}

/// Where card copies reside.
#[derive(Clone, Copy, Debug, PartialEq, Eq, Structural)]
pub enum CardLocation {
    Library,
    Deck,
    Hand,
    Discard,
}

/// Exclusive copy counts describing where player copies reside.
/// [library, deck, hand, discard] — each copy exists in exactly one location.
#[derive(Clone, Copy, Debug, PartialEq, Eq, Structural)]
pub struct CardCounts {
    pub library: u32,
    pub deck: u32,
    pub hand: u32,
    pub discard: u32,
}

impl CardCounts {
    pub open spec fn spec_total(self) -> int {
        self.library + self.deck + self.hand + self.discard
    }

    /// All copies, wherever they are.
    pub fn total(&self) -> (r: u32)
        requires
            self.spec_total() <= u32::MAX,
        ensures
            r == self.spec_total(),
    {
        self.library + self.deck + self.hand + self.discard
    }
}

/// Copy counts for non-library cards (enemy, ore, etc.): deck, hand, discard.
#[derive(Clone, Copy, Debug, PartialEq, Eq, Structural)]
pub struct DeckCounts {
    pub deck: u32,
    pub hand: u32,
    pub discard: u32,
}

/// Cards with deck/hand/discard tracking.
pub trait HasDeckCounts: Sized {
    /// The deck/hand/discard counts.
    spec fn spec_counts(&self) -> DeckCounts;

    /// This card with its deck/hand/discard counts replaced.
    spec fn with_counts(self, c: DeckCounts) -> Self;

    proof fn lemma_with_counts(self, c: DeckCounts, d: DeckCounts)
        ensures
            self.with_counts(c).spec_counts() == c,
            self.with_counts(c).with_counts(d) == self.with_counts(d),
            self.with_counts(self.spec_counts()) == self;

    fn deck_count(&self) -> (r: u32)
        ensures
            r == self.spec_counts().deck;

    fn hand_count(&self) -> (r: u32)
        ensures
            r == self.spec_counts().hand;

    fn discard_count(&self) -> (r: u32)
        ensures
            r == self.spec_counts().discard;

    fn set_counts(&mut self, c: DeckCounts)
        ensures
            *final(self) == old(self).with_counts(c);
}

impl HasDeckCounts for DeckCounts {
    open spec fn spec_counts(&self) -> DeckCounts {
        *self
    }

    open spec fn with_counts(self, c: DeckCounts) -> Self {
        c
    }

    proof fn lemma_with_counts(self, c: DeckCounts, d: DeckCounts) {
    }

    fn deck_count(&self) -> (r: u32) {
        self.deck
    }

    fn hand_count(&self) -> (r: u32) {
        self.hand
    }

    fn discard_count(&self) -> (r: u32) {
        self.discard
    }

    fn set_counts(&mut self, c: DeckCounts) {
        *self = c;
    }
}

impl HasDeckCounts for CardCounts {
    open spec fn spec_counts(&self) -> DeckCounts {
        DeckCounts { deck: self.deck, hand: self.hand, discard: self.discard }
    }

    open spec fn with_counts(self, c: DeckCounts) -> Self {
        CardCounts { library: self.library, deck: c.deck, hand: c.hand, discard: c.discard }
    }

    proof fn lemma_with_counts(self, c: DeckCounts, d: DeckCounts) {
    }

    fn deck_count(&self) -> (r: u32) {
        self.deck
    }

    fn hand_count(&self) -> (r: u32) {
        self.hand
    }

    fn discard_count(&self) -> (r: u32) {
        self.discard
    }

    fn set_counts(&mut self, c: DeckCounts) {
        self.deck = c.deck;
        self.hand = c.hand;
        self.discard = c.discard;
    }
}

/// A simple inline card definition for enemy decks.
#[derive(Debug)]
pub struct EnemyCardDef {
    pub effects: Vec<ConcreteEffect>,
    pub counts: DeckCounts,
}

impl HasDeckCounts for EnemyCardDef {
    open spec fn spec_counts(&self) -> DeckCounts {
        self.counts
    }

    open spec fn with_counts(self, c: DeckCounts) -> Self {
        EnemyCardDef { effects: self.effects, counts: c }
    }

    proof fn lemma_with_counts(self, c: DeckCounts, d: DeckCounts) {
    }

    fn deck_count(&self) -> (r: u32) {
        self.counts.deck
    }

    fn hand_count(&self) -> (r: u32) {
        self.counts.hand
    }

    fn discard_count(&self) -> (r: u32) {
        self.counts.discard
    }

    fn set_counts(&mut self, c: DeckCounts) {
        self.counts = c;
    }
}

impl EnemyCardDef {
    /// A copy of this card.
    pub fn duplicate(&self) -> (r: EnemyCardDef)
        ensures
            r.counts == self.counts,
            effects_view(r.effects@) == effects_view(self.effects@),
    {
        EnemyCardDef { effects: duplicate_effects(&self.effects), counts: self.counts }
    }
}

/// Enemy cards with the same effects and the same counts, position by position.
pub open spec fn same_enemy_cards(a: Seq<EnemyCardDef>, b: Seq<EnemyCardDef>) -> bool {
    &&& a.len() == b.len()
    &&& forall|i: int| 0 <= i < a.len() ==> #[trigger] a[i].counts == b[i].counts
        && effects_view(a[i].effects@) == effects_view(b[i].effects@)
}

/// A copy of an enemy deck.
pub fn duplicate_enemy_deck(d: &Vec<EnemyCardDef>) -> (r: Vec<EnemyCardDef>)
    ensures
        same_enemy_cards(r@, d@),
{
    let mut r: Vec<EnemyCardDef> = Vec::new();
    let mut i: usize = 0;
    while i < d.len()
        invariant
            i <= d.len(),
            r@.len() == i,
            forall|j: int| 0 <= j < i ==> #[trigger] r@[j].counts == d@[j].counts
                && effects_view(r@[j].effects@) == effects_view(d@[j].effects@),
        decreases d.len() - i,
    {
        r.push(d[i].duplicate());
        i += 1;
    }
    r
}

/// Definition of an enemy combatant for a combat encounter card.
/// Enemies are self-contained: their cards are inline, not Library references.
#[derive(Debug)]
pub struct CombatantDef {
    pub initial_tokens: Vec<(Token, u64)>,
    pub attack_deck: Vec<EnemyCardDef>,
    pub defence_deck: Vec<EnemyCardDef>,
    pub resource_deck: Vec<EnemyCardDef>,
}

/// Inline effect for Mining discipline cards.
#[derive(Debug)]
pub struct MiningCardEffect {
    pub costs: Vec<TokenAmount>,
    pub gains: Vec<TokenAmount>,
}

/// Inline effect for Crafting discipline cards.
/// Gains reduce material costs of an active craft (gathering token types: Ore, Plant, Lumber, Fish).
#[derive(Debug)]
pub struct CraftingCardEffect {
    pub costs: Vec<TokenAmount>,
    pub reductions: Vec<TokenAmount>,
}

/// Plant characteristics used by Herbalism encounters.
#[derive(Clone, Copy, Debug, PartialEq, Eq, Hash, Structural)]
pub enum PlantCharacteristic {
    Fragile,
    Thorny,
    Aromatic,
    Bitter,
    Luminous,
}

/// How an herbalism card matches plant characteristics.
#[derive(Debug)]
pub enum HerbalismMatchMode {
    /// Remove plants sharing ANY listed characteristic.
    Or { types: Vec<PlantCharacteristic> },
    /// Remove plants matching ALL listed characteristics.
    And { types: Vec<PlantCharacteristic> },
    /// Remove plants matching the characteristic(s) present on the MOST cards.
    MostCommon { limit: u32, types: Vec<PlantCharacteristic> },
    /// Remove plants matching the characteristic(s) present on the LEAST cards.
    LeastCommon { limit: u32, types: Vec<PlantCharacteristic> },
}

/// A match mode as a mathematical value.
pub enum HerbalismMatchModeView {
    Or { types: Seq<PlantCharacteristic> },
    And { types: Seq<PlantCharacteristic> },
    MostCommon { limit: u32, types: Seq<PlantCharacteristic> },
    LeastCommon { limit: u32, types: Seq<PlantCharacteristic> },
}

impl View for HerbalismMatchMode {
    type V = HerbalismMatchModeView;

    open spec fn view(&self) -> HerbalismMatchModeView {
        match self {
            HerbalismMatchMode::Or { types } => HerbalismMatchModeView::Or { types: types@ },
            HerbalismMatchMode::And { types } => HerbalismMatchModeView::And { types: types@ },
            HerbalismMatchMode::MostCommon { limit, types } => HerbalismMatchModeView::MostCommon { limit: *limit, types: types@ },
            HerbalismMatchMode::LeastCommon { limit, types } => HerbalismMatchModeView::LeastCommon { limit: *limit, types: types@ },
        }
    }
}

fn copy_characteristics(v: &Vec<PlantCharacteristic>) -> (r: Vec<PlantCharacteristic>)
    ensures
        r@ == v@,
{
    let mut r = Vec::new();
    let mut i: usize = 0;
    while i < v.len()
        invariant
            i <= v.len(),
            r@ == v@.subrange(0, i as int),
        decreases v.len() - i,
    {
        r.push(v[i]);
        i += 1;
    }
    assert(v@.subrange(0, v@.len() as int) =~= v@);
    r
}

impl HerbalismMatchMode {
    /// A copy of this match mode.
    pub fn duplicate(&self) -> (r: HerbalismMatchMode)
        ensures
            r@ == self@,
    {
        match self {
            HerbalismMatchMode::Or { types } => HerbalismMatchMode::Or { types: copy_characteristics(types) },
            HerbalismMatchMode::And { types } => HerbalismMatchMode::And { types: copy_characteristics(types) },
            HerbalismMatchMode::MostCommon { limit, types } => HerbalismMatchMode::MostCommon { limit: *limit, types: copy_characteristics(types) },
            HerbalismMatchMode::LeastCommon { limit, types } => HerbalismMatchMode::LeastCommon { limit: *limit, types: copy_characteristics(types) },
        }
    }
}

/// A card in the plant hand. Each card has characteristics that Herbalism cards can target.
#[derive(Debug)]
pub struct PlantCard {
    pub characteristics: Vec<PlantCharacteristic>,
    pub effects: Vec<ConcreteEffect>,
    pub counts: DeckCounts,
}

impl HasDeckCounts for PlantCard {
    open spec fn spec_counts(&self) -> DeckCounts {
        self.counts
    }

    open spec fn with_counts(self, c: DeckCounts) -> Self {
        PlantCard { characteristics: self.characteristics, effects: self.effects, counts: c }
    }

    proof fn lemma_with_counts(self, c: DeckCounts, d: DeckCounts) {
    }

    fn deck_count(&self) -> (r: u32) {
        self.counts.deck
    }

    fn hand_count(&self) -> (r: u32) {
        self.counts.hand
    }

    fn discard_count(&self) -> (r: u32) {
        self.counts.discard
    }

    fn set_counts(&mut self, c: DeckCounts) {
        self.counts = c;
    }
}

/// Plant cards with the same characteristics, effects and counts, position by position.
pub open spec fn same_plant_cards(a: Seq<PlantCard>, b: Seq<PlantCard>) -> bool {
    &&& a.len() == b.len()
    &&& forall|i: int| 0 <= i < a.len() ==> #[trigger] a[i].counts == b[i].counts && a[i].characteristics@ == b[i].characteristics@
        && effects_view(a[i].effects@) == effects_view(b[i].effects@)
}

/// A copy of a plant hand.
pub fn duplicate_plant_hand(d: &Vec<PlantCard>) -> (r: Vec<PlantCard>)
    ensures
        same_plant_cards(r@, d@),
{
    let mut r: Vec<PlantCard> = Vec::new();
    let mut i: usize = 0;
    while i < d.len()
        invariant
            i <= d.len(),
            r@.len() == i,
            forall|j: int| 0 <= j < i ==> #[trigger] r@[j].counts == d@[j].counts && r@[j].characteristics@ == d@[j].characteristics@
                && effects_view(r@[j].effects@) == effects_view(d@[j].effects@),
        decreases d.len() - i,
    {
        r.push(PlantCard {
            characteristics: copy_characteristics(&d[i].characteristics),
            effects: duplicate_effects(&d[i].effects),
            counts: d[i].counts,
        });
        i += 1;
    }
    r
}

/// Definition of a plant node for an herbalism gathering encounter.
#[derive(Debug)]
pub struct HerbalismDef {
    pub plant_hand: Vec<PlantCard>,
    pub rewards: TokenMap,
}

/// The symbols of research: each research card carries some, and an
/// experiment hides one in each of its slots.
#[derive(Clone, Copy, Debug, PartialEq, Eq, Hash, Structural)]
pub enum ResearchSymbol {
    Alpha,
    Beta,
    Gamma,
    Delta,
    Epsilon,
    Zeta,
}

fn copy_symbols(v: &Vec<ResearchSymbol>) -> (r: Vec<ResearchSymbol>)
    ensures
        r@ == v@,
{
    let mut r = Vec::new();
    let mut i: usize = 0;
    while i < v.len()
        invariant
            i <= v.len(),
            r@ == v@.subrange(0, i as int),
        decreases v.len() - i,
    {
        r.push(v[i]);
        i += 1;
    }
    assert(v@.subrange(0, v@.len() as int) =~= v@);
    r
}

/// Chop types for Woodcutting discipline cards.
#[derive(Clone, Copy, Debug, PartialEq, Eq, Hash, Structural)]
pub enum ChopType {
    LightChop,
    HeavyChop,
    MediumChop,
    PrecisionChop,
    SplitChop,
}

/// Snapshot of a played woodcutting card for pattern evaluation.
#[derive(Debug)]
pub struct PlayedWoodcuttingCard {
    pub card_id: usize,
    pub chop_types: Vec<ChopType>,
    pub chop_values: Vec<u32>,
}

/// Definition of a research encounter: how many hidden slots an experiment
/// has, the Insight a round costs per round played, and what a card yields
/// on its own slot and on another.
#[derive(Debug)]
pub struct ResearchDef {
    pub target_size: u32,
    pub base_insight_cost: i64,
    pub position_match_yield: i64,
    pub type_match_yield: i64,
}

/// One round of a research experiment: the cards played, what each yielded,
/// the round's yield and the Insight it cost.
#[derive(Debug)]
pub struct ResearchRoundResult {
    pub cards_played: Vec<usize>,
    pub per_card_yield: Vec<i64>,
    pub round_yield: i64,
    pub insight_cost: i64,
}

/// A card a research project may produce: effects of one discipline.
#[derive(Debug)]
pub struct ResearchCandidate {
    pub discipline: Discipline,
    pub effects: Vec<ConcreteEffect>,
    pub tier_count: u32,
}

/// The research project under way: the card it produces, the progress made
/// and the progress it needs.
#[derive(Debug)]
pub struct ResearchProject {
    pub chosen_card: ResearchCandidate,
    pub progress: i64,
    pub total_cost: i64,
}

/// Runtime state of a research encounter and its experiment.
#[derive(Debug)]
pub struct ResearchEncounterState {
    pub encounter_card_id: usize,
    pub outcome: EncounterOutcome,
    pub candidates: Option<Vec<ResearchCandidate>>,
    pub hidden_types: Option<Vec<ResearchSymbol>>,
    pub accumulated_yield: i64,
    pub rounds_played: u32,
    pub round_history: Vec<ResearchRoundResult>,
    pub experiment_active: bool,
}

/// Definition of a woodcutting encounter (no enemy deck).
#[derive(Debug)]
pub struct WoodcuttingDef {
    pub max_plays: u32,
    pub base_rewards: TokenMap,
}

/// A card in the fish (enemy) deck. Each card has a numeric value.
#[derive(Debug)]
pub struct FishCard {
    pub value: i64,
    pub effects: Vec<ConcreteEffect>,
    pub counts: DeckCounts,
}

impl HasDeckCounts for FishCard {
    open spec fn spec_counts(&self) -> DeckCounts {
        self.counts
    }

    open spec fn with_counts(self, c: DeckCounts) -> Self {
        FishCard { value: self.value, effects: self.effects, counts: c }
    }

    proof fn lemma_with_counts(self, c: DeckCounts, d: DeckCounts) {
    }

    fn deck_count(&self) -> (r: u32) {
        self.counts.deck
    }

    fn hand_count(&self) -> (r: u32) {
        self.counts.hand
    }

    fn discard_count(&self) -> (r: u32) {
        self.counts.discard
    }

    fn set_counts(&mut self, c: DeckCounts) {
        self.counts = c;
    }
}

/// Fish cards with the same values, effects and counts, position by position.
pub open spec fn same_fish_cards(a: Seq<FishCard>, b: Seq<FishCard>) -> bool {
    &&& a.len() == b.len()
    &&& forall|i: int| 0 <= i < a.len() ==> #[trigger] a[i].counts == b[i].counts && a[i].value == b[i].value
        && effects_view(a[i].effects@) == effects_view(b[i].effects@)
}

/// A copy of a fish deck.
pub fn duplicate_fish_deck(d: &Vec<FishCard>) -> (r: Vec<FishCard>)
    ensures
        same_fish_cards(r@, d@),
{
    let mut r: Vec<FishCard> = Vec::new();
    let mut i: usize = 0;
    while i < d.len()
        invariant
            i <= d.len(),
            r@.len() == i,
            forall|j: int| 0 <= j < i ==> #[trigger] r@[j].counts == d@[j].counts && r@[j].value == d@[j].value
                && effects_view(r@[j].effects@) == effects_view(d@[j].effects@),
        decreases d.len() - i,
    {
        r.push(FishCard { value: d[i].value, effects: duplicate_effects(&d[i].effects), counts: d[i].counts });
        i += 1;
    }
    r
}

/// Definition of a fishing encounter.
#[derive(Debug)]
pub struct FishingDef {
    pub valid_range_min: i64,
    pub valid_range_max: i64,
    pub max_turns: u32,
    pub win_turns_needed: u32,
    pub fish_deck: Vec<FishCard>,
    pub rewards: TokenMap,
}

/// Definition of a mining node for a gathering encounter.
#[derive(Debug)]
pub struct MiningDef {
    pub initial_light_level: i64,
    pub ore_deck: Vec<OreCard>,
}

/// Definition of a rest encounter.
#[derive(Clone, Copy, Debug, PartialEq, Eq, Structural)]
pub struct RestDef {
    pub rest_token_min: i64,
    pub rest_token_max: i64,
}

/// An enemy crafting card that increases material costs.
#[derive(Debug)]
pub struct EnemyCraftingCard {
    pub increases: Vec<TokenAmount>,
    pub effects: Vec<ConcreteEffect>,
    pub counts: DeckCounts,
}

impl HasDeckCounts for EnemyCraftingCard {
    open spec fn spec_counts(&self) -> DeckCounts {
        self.counts
    }

    open spec fn with_counts(self, c: DeckCounts) -> Self {
        EnemyCraftingCard { increases: self.increases, effects: self.effects, counts: c }
    }

    proof fn lemma_with_counts(self, c: DeckCounts, d: DeckCounts) {
    }

    fn deck_count(&self) -> (r: u32) {
        self.counts.deck
    }

    fn hand_count(&self) -> (r: u32) {
        self.counts.hand
    }

    fn discard_count(&self) -> (r: u32) {
        self.counts.discard
    }

    fn set_counts(&mut self, c: DeckCounts) {
        self.counts = c;
    }
}

impl EnemyCraftingCard {
    /// A copy of this enemy crafting card.
    pub fn duplicate(&self) -> (r: EnemyCraftingCard)
        ensures
            r.counts == self.counts,
            r.increases@ == self.increases@,
            effects_view(r.effects@) == effects_view(self.effects@),
    {
        let mut increases: Vec<TokenAmount> = Vec::new();
        let mut i: usize = 0;
        while i < self.increases.len()
            invariant
                i <= self.increases.len(),
                increases@ == self.increases@.subrange(0, i as int),
            decreases self.increases.len() - i,
        {
            increases.push(self.increases[i]);
            i += 1;
        }
        assert(self.increases@.subrange(0, self.increases@.len() as int) =~= self.increases@);
        EnemyCraftingCard { increases, effects: duplicate_effects(&self.effects), counts: self.counts }
    }
}

/// Enemy crafting cards with the same increases, effects and counts, position by position.
pub open spec fn same_crafting_cards(a: Seq<EnemyCraftingCard>, b: Seq<EnemyCraftingCard>) -> bool {
    &&& a.len() == b.len()
    &&& forall|i: int| 0 <= i < a.len() ==> #[trigger] a[i].counts == b[i].counts && a[i].increases@ == b[i].increases@
        && effects_view(a[i].effects@) == effects_view(b[i].effects@)
}

/// A copy of an enemy crafting deck.
pub fn duplicate_crafting_deck(d: &Vec<EnemyCraftingCard>) -> (r: Vec<EnemyCraftingCard>)
    ensures
        same_crafting_cards(r@, d@),
{
    let mut r: Vec<EnemyCraftingCard> = Vec::new();
    let mut i: usize = 0;
    while i < d.len()
        invariant
            i <= d.len(),
            r@.len() == i,
            forall|j: int| 0 <= j < i ==> #[trigger] r@[j].counts == d@[j].counts && r@[j].increases@ == d@[j].increases@
                && effects_view(r@[j].effects@) == effects_view(d@[j].effects@),
        decreases d.len() - i,
    {
        r.push(d[i].duplicate());
        i += 1;
    }
    r
}

/// Definition of a crafting encounter.
#[derive(Debug)]
pub struct CraftingDef {
    pub initial_crafting_tokens: i64,
    pub enemy_crafting_deck: Vec<EnemyCraftingCard>,
}

/// State of an active craft-a-card mini-game within a crafting encounter.
#[derive(Debug)]
pub struct CraftingCraftState {
    pub target_card_id: usize,
    pub original_costs: Vec<(TokenType, i64)>,
    pub current_costs: Vec<(TokenType, i64)>,
}

/// A card in the ore deck. Each card applies token-based damages to the player.
#[derive(Debug)]
pub struct OreCard {
    pub damages: Vec<TokenAmount>,
    pub effects: Vec<ConcreteEffect>,
    pub counts: DeckCounts,
}

impl HasDeckCounts for OreCard {
    open spec fn spec_counts(&self) -> DeckCounts {
        self.counts
    }

    open spec fn with_counts(self, c: DeckCounts) -> Self {
        OreCard { damages: self.damages, effects: self.effects, counts: c }
    }

    proof fn lemma_with_counts(self, c: DeckCounts, d: DeckCounts) {
    }

    fn deck_count(&self) -> (r: u32) {
        self.counts.deck
    }

    fn hand_count(&self) -> (r: u32) {
        self.counts.hand
    }

    fn discard_count(&self) -> (r: u32) {
        self.counts.discard
    }

    fn set_counts(&mut self, c: DeckCounts) {
        self.counts = c;
    }
}

impl OreCard {
    /// A copy of this ore card.
    pub fn duplicate(&self) -> (r: OreCard)
        ensures
            r.counts == self.counts,
            r.damages@ == self.damages@,
            effects_view(r.effects@) == effects_view(self.effects@),
    {
        let mut damages: Vec<TokenAmount> = Vec::new();
        let mut i: usize = 0;
        while i < self.damages.len()
            invariant
                i <= self.damages.len(),
                damages@ == self.damages@.subrange(0, i as int),
            decreases self.damages.len() - i,
        {
            damages.push(self.damages[i]);
            i += 1;
        }
        assert(self.damages@.subrange(0, self.damages@.len() as int) =~= self.damages@);
        OreCard { damages, effects: duplicate_effects(&self.effects), counts: self.counts }
    }
}

/// Ore cards with the same damages, effects and counts, position by position.
pub open spec fn same_ore_cards(a: Seq<OreCard>, b: Seq<OreCard>) -> bool {
    &&& a.len() == b.len()
    &&& forall|i: int| 0 <= i < a.len() ==> #[trigger] a[i].counts == b[i].counts && a[i].damages@ == b[i].damages@
        && effects_view(a[i].effects@) == effects_view(b[i].effects@)
}

/// A copy of an ore deck.
pub fn duplicate_ore_deck(d: &Vec<OreCard>) -> (r: Vec<OreCard>)
    ensures
        same_ore_cards(r@, d@),
{
    let mut r: Vec<OreCard> = Vec::new();
    let mut i: usize = 0;
    while i < d.len()
        invariant
            i <= d.len(),
            r@.len() == i,
            forall|j: int| 0 <= j < i ==> #[trigger] r@[j].counts == d@[j].counts && r@[j].damages@ == d@[j].damages@
                && effects_view(r@[j].effects@) == effects_view(d@[j].effects@),
        decreases d.len() - i,
    {
        r.push(d[i].duplicate());
        i += 1;
    }
    r
}

/// Sub-type of encounter cards.
#[derive(Debug)]
pub enum EncounterKind {
    Combat { combatant_def: CombatantDef },
    Mining { mining_def: MiningDef },
    Herbalism { herbalism_def: HerbalismDef },
    Woodcutting { woodcutting_def: WoodcuttingDef },
    Fishing { fishing_def: FishingDef },
    Rest { rest_def: RestDef },
    Crafting { crafting_def: CraftingDef },
    Research { research_def: ResearchDef },
}

/// The kind of card and its type-specific payload.
#[derive(Debug)]
pub enum CardKind {
    Attack { effects: Vec<ConcreteEffect> },
    Defence { effects: Vec<ConcreteEffect> },
    Resource { effects: Vec<ConcreteEffect> },
    Mining { effects: Vec<ConcreteEffect> },
    Herbalism { effects: Vec<ConcreteEffect> },
    Woodcutting { effects: Vec<ConcreteEffect> },
    Fishing { effects: Vec<ConcreteEffect> },
    Rest { effects: Vec<ConcreteEffect>, rest_token_cost: i64 },
    Crafting { effects: Vec<ConcreteEffect> },
    Research { effects: Vec<ConcreteEffect> },
    Encounter { encounter_kind: EncounterKind },
    PlayerCardEffect { kind: CardEffectKind },
    EnemyCardEffect { kind: CardEffectKind },
}

/// A single entry in the Library. Index in the Vec = card ID.
#[derive(Debug)]
pub struct LibraryCard {
    pub kind: CardKind,
    pub counts: CardCounts,
    /// Material cost to craft a copy of this card. Computed at creation time.
    pub crafting_cost: Vec<(TokenType, i64)>,
    pub discipline_tags: Vec<Discipline>,
}

impl HasDeckCounts for LibraryCard {
    open spec fn spec_counts(&self) -> DeckCounts {
        DeckCounts { deck: self.counts.deck, hand: self.counts.hand, discard: self.counts.discard }
    }

    open spec fn with_counts(self, c: DeckCounts) -> Self {
        LibraryCard {
            kind: self.kind,
            counts: CardCounts { library: self.counts.library, deck: c.deck, hand: c.hand, discard: c.discard },
            crafting_cost: self.crafting_cost,
            discipline_tags: self.discipline_tags,
        }
    }

    proof fn lemma_with_counts(self, c: DeckCounts, d: DeckCounts) {
    }

    fn deck_count(&self) -> (r: u32) {
        self.counts.deck
    }

    fn hand_count(&self) -> (r: u32) {
        self.counts.hand
    }

    fn discard_count(&self) -> (r: u32) {
        self.counts.discard
    }

    fn set_counts(&mut self, c: DeckCounts) {
        self.counts.deck = c.deck;
        self.counts.hand = c.hand;
        self.counts.discard = c.discard;
    }
}

/// Action payloads for the append-only log — only player-initiated actions.
#[derive(Debug)]
pub enum ActionPayload {
    SetSeed { seed: u64 },
    DrawEncounter { encounter_id: String },
    PlayCard { card_id: usize },
    ApplyScouting { card_ids: Vec<usize> },
    AbortEncounter,
    ConcludeEncounter,
    CraftSwap { from_id: usize, to_id: usize },
    CraftCard { target_card_id: usize },
    CraftDurability { discipline: String },
    ResearchChooseProject { discipline: Discipline, tier_count: u32 },
    ResearchSelectCandidate { candidate_index: usize },
    ResearchProgress { amount: i64 },
    ResearchBeginExperiment,
    ResearchPlayHand { card_ids: Vec<usize> },
    ResearchConcludeExperiment,
}

/// Stored action entry in the append-only action log.
#[derive(Debug)]
pub struct ActionEntry {
    pub seq: u64,
    pub payload: ActionPayload,
}

/// A combat action is a card play by a combatant.
#[derive(Clone, Copy, Debug, PartialEq, Eq, Structural)]
pub struct CombatAction {
    pub is_player: bool,
    pub card_id: u64,
}

/// Outcome of an encounter (combat, gathering, etc.).
#[derive(Clone, Copy, Debug, PartialEq, Eq, Structural)]
pub enum EncounterOutcome {
    Undecided,
    PlayerWon,
    PlayerLost,
}

/// Phases of an encounter.
#[derive(Clone, Copy, Debug, PartialEq, Eq, Hash, Structural)]
pub enum EncounterPhase {
    /// An encounter is currently active (combat, mining, etc.)
    InEncounter,
    /// Encounter has finished; scouting is available
    Scouting,
    /// No active encounter
    NoEncounter,
}

/// Snapshot of combat state. Pure data.
#[derive(Debug)]
pub struct CombatEncounterState {
    pub round: u64,
    pub phase: CombatPhase,
    pub enemy_tokens: TokenMap,
    pub encounter_card_id: usize,
    pub outcome: EncounterOutcome,
    pub enemy_attack_deck: Vec<EnemyCardDef>,
    pub enemy_defence_deck: Vec<EnemyCardDef>,
    pub enemy_resource_deck: Vec<EnemyCardDef>,
}

/// Runtime state for a mining gathering encounter.
#[derive(Debug)]
pub struct MiningEncounterState {
    pub round: u64,
    pub encounter_card_id: usize,
    pub outcome: EncounterOutcome,
    pub ore_deck: Vec<OreCard>,
    pub encounter_tokens: TokenMap,
}

/// Runtime state for an herbalism gathering encounter.
#[derive(Debug)]
pub struct HerbalismEncounterState {
    pub round: u64,
    pub encounter_card_id: usize,
    pub outcome: EncounterOutcome,
    pub plant_hand: Vec<PlantCard>,
    pub rewards: TokenMap,
}

/// Runtime state for a woodcutting gathering encounter (pattern-matching).
/// The pattern multiplier is kept in hundredths.
#[derive(Debug)]
pub struct WoodcuttingEncounterState {
    pub round: u64,
    pub encounter_card_id: usize,
    pub outcome: EncounterOutcome,
    pub played_cards: Vec<PlayedWoodcuttingCard>,
    pub max_plays: u32,
    pub pattern_name: Option<String>,
    pub pattern_multiplier_percent: Option<u64>,
    pub base_rewards: TokenMap,
}

/// Runtime state for a fishing gathering encounter (card-subtraction).
#[derive(Debug)]
pub struct FishingEncounterState {
    pub round: u64,
    pub encounter_card_id: usize,
    pub outcome: EncounterOutcome,
    pub turns_won: u32,
    pub max_turns: u32,
    pub win_turns_needed: u32,
    pub valid_range_min: i64,
    pub valid_range_max: i64,
    pub fish_deck: Vec<FishCard>,
    pub current_fish_value: Option<i64>,
    pub rewards: TokenMap,
    pub encounter_tokens: TokenMap,
}

/// Runtime state for a rest encounter (play rest cards using rest tokens).
#[derive(Clone, Copy, Debug, PartialEq, Eq, Structural)]
pub struct RestEncounterState {
    pub encounter_card_id: usize,
    pub outcome: EncounterOutcome,
    pub rest_tokens: i64,
}

/// Runtime state for a crafting encounter.
#[derive(Debug)]
pub struct CraftingEncounterState {
    pub round: u64,
    pub encounter_card_id: usize,
    pub outcome: EncounterOutcome,
    pub crafting_tokens: i64,
    pub enemy_crafting_deck: Vec<EnemyCraftingCard>,
    pub active_craft: Option<CraftingCraftState>,
}

/// Active encounter state, dispatched by encounter type.
#[derive(Debug)]
pub enum EncounterState {
    Combat(CombatEncounterState),
    Mining(MiningEncounterState),
    Herbalism(HerbalismEncounterState),
    Woodcutting(WoodcuttingEncounterState),
    Fishing(FishingEncounterState),
    Rest(RestEncounterState),
    Crafting(CraftingEncounterState),
    Research(ResearchEncounterState),
}

impl EncounterState {
    pub open spec fn spec_encounter_card_id(&self) -> usize {
        match self {
            EncounterState::Combat(c) => c.encounter_card_id,
            EncounterState::Mining(m) => m.encounter_card_id,
            EncounterState::Herbalism(h) => h.encounter_card_id,
            EncounterState::Woodcutting(w) => w.encounter_card_id,
            EncounterState::Fishing(f) => f.encounter_card_id,
            EncounterState::Rest(r) => r.encounter_card_id,
            EncounterState::Crafting(c) => c.encounter_card_id,
            EncounterState::Research(r) => r.encounter_card_id,
        }
    }

    pub open spec fn spec_outcome(&self) -> EncounterOutcome {
        match self {
            EncounterState::Combat(c) => c.outcome,
            EncounterState::Mining(m) => m.outcome,
            EncounterState::Herbalism(h) => h.outcome,
            EncounterState::Woodcutting(w) => w.outcome,
            EncounterState::Fishing(f) => f.outcome,
            EncounterState::Rest(r) => r.outcome,
            EncounterState::Crafting(c) => c.outcome,
            EncounterState::Research(r) => r.outcome,
        }
    }

    pub fn encounter_card_id(&self) -> (r: usize)
        ensures
            r == self.spec_encounter_card_id(),
    {
        match self {
            EncounterState::Combat(c) => c.encounter_card_id,
            EncounterState::Mining(m) => m.encounter_card_id,
            EncounterState::Herbalism(h) => h.encounter_card_id,
            EncounterState::Woodcutting(w) => w.encounter_card_id,
            EncounterState::Fishing(f) => f.encounter_card_id,
            EncounterState::Rest(r) => r.encounter_card_id,
            EncounterState::Crafting(c) => c.encounter_card_id,
            EncounterState::Research(r) => r.encounter_card_id,
        }
    }

    pub fn is_finished(&self) -> (r: bool)
        ensures
            r == (self.spec_outcome() != EncounterOutcome::Undecided),
    {
        self.outcome() != EncounterOutcome::Undecided
    }

    pub fn outcome(&self) -> (r: EncounterOutcome)
        ensures
            r == self.spec_outcome(),
    {
        match self {
            EncounterState::Combat(c) => c.outcome,
            EncounterState::Mining(m) => m.outcome,
            EncounterState::Herbalism(h) => h.outcome,
            EncounterState::Woodcutting(w) => w.outcome,
            EncounterState::Fishing(f) => f.outcome,
            EncounterState::Rest(r) => r.outcome,
            EncounterState::Crafting(c) => c.outcome,
            EncounterState::Research(r) => r.outcome,
        }
    }
}

/// The total held by tokens of type `tt`.
pub fn token_balance_by_type(map: &TokenMap, tt: &TokenType) -> (r: i64)
    requires
        i64::MIN <= map.spec_balance(*tt) <= i64::MAX,
    ensures
        r == map.spec_balance(*tt),
{
    map.balance_by_type(tt)
}

/// `i` is the position of the first entry of type `tt` in `s`.
pub open spec fn first_of_type(s: Seq<(Token, i64)>, tt: TokenType, i: int) -> bool {
    &&& 0 <= i < s.len()
    &&& s[i].0.token_type == tt
    &&& forall|j: int| 0 <= j < i ==> (#[trigger] s[j]).0.token_type != tt
}

/// The first token entry of type `tt` and its amount, or, where there is no
/// entry of that type, a new persistent counter of it recorded at zero.
pub fn token_entry_by_type(map: &mut TokenMap, tt: &TokenType) -> (r: (Token, i64))
    ensures
        (exists|i: int| 0 <= i < old(map).spec_entries().len() && (#[trigger] old(map).spec_entries()[i]).0.token_type == *tt) ==> {
            &&& *final(map) == *old(map)
            &&& exists|i: int| first_of_type(old(map).spec_entries(), *tt, i) && r.0@ == old(map).spec_entries()[i].0@
                && r.1 == old(map).spec_entries()[i].1
            &&& r.0.token_type == *tt
            &&& old(map).spec_get(r.0@) == Some(r.1)
        },
        (forall|i: int| 0 <= i < old(map).spec_entries().len() ==> (#[trigger] old(map).spec_entries()[i]).0.token_type != *tt) ==> {
            &&& r.0@ == persistent_key(*tt)
            &&& r.1 == 0
            &&& bal(*final(map)) == bset(bal(*old(map)), persistent_key(*tt), 0)
            &&& final(map).spec_get(persistent_key(*tt)) == Some(0i64)
            &&& final(map).spec_entries().len() == old(map).spec_entries().len() + 1
        },
{
    let n = map.len();
    let mut i: usize = 0;
    while i < n
        invariant
            i <= n,
            n == map.spec_entries().len(),
            forall|j: int| 0 <= j < i ==> (#[trigger] map.spec_entries()[j]).0.token_type != *tt,
        decreases n - i,
    {
        let e = map.entry_at(i);
        if e.0.token_type == *tt {
            assert(first_of_type(map.spec_entries(), *tt, i as int));
            return e;
        }
        i += 1;
    }
    proof {
        crate::library::token_map::lemma_lookup_absent(map.spec_entries(), persistent_key(*tt));
        assert forall|j: int| 0 <= j < map.spec_entries().len() implies #[trigger] map.spec_entries()[j].0@ != persistent_key(*tt) by {
            assert(map.spec_entries()[j].0.token_type != *tt);
        }
    }
    map.insert(Token::persistent(*tt), 0);
    (Token::persistent(*tt), 0)
}

} // verus!
