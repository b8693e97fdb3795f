//! Loading configured cards into the library: effect templates get ids in
//! order and a full name (`prefix:name`); player cards and encounters refer to
//! effects by full name and get a fresh roll of each.
use super::concrete::{cost_ranges_fit_exec, roll_concrete_effect, rolled_from, template_of, template_rollable};
use super::config::{
    CardEffectConfig,     EnemyCraftingEntryConfig, FishDeckEntryConfig, OreDeckEntryConfig, PlantCardConfig,
    CardEntry, CombatantConfig, ConfigError, CraftingDefConfig, DisciplineConfig, EffectOwner, EncounterDefConfig,
    EnemyDeckEntryConfig, FishingDefConfig, HerbalismDefConfig, MiningDefConfig, PlayerCardConfig, PlayerCardKind,
    TokensConfig, WoodcuttingDefConfig,
};
use super::costs::{gathering_costs, rest_token_cost_checked, sum_of_type};
use super::token_map::TokenMap;
use super::validate::{library_errors, EffectRefError};
use super::types::{
    persistent_key, spec_all_token_types, CardCounts, CardEffectCost, CardEffectKind, CardKind, CombatantDef,
    ConcreteEffect, CraftingDef, Discipline, EncounterKind, EnemyCardDef, EnemyCraftingCard, FishCard, FishingDef,
    HerbalismDef, LibraryCard, LifecycleKey, MiningDef, OreCard, PlantCard, PlantCharacteristic, Token, TokenKey,
    TokenType, WoodcuttingDef,
};
use super::{base_cost_fits, gain_pays_itself, spec_base_cost, valid_spread, Library};
use rand_pcg::Lcg64Xsh32;
use vstd::prelude::*;

verus! {

/// Full effect names and the template ids they stand for; a later entry
/// shadows an earlier one of the same name.
#[derive(Debug)]
pub struct EffectNameMap {
    entries: Vec<(String, usize)>,
}

/// The names of a list of entries, as character sequences.
pub open spec fn names_view(entries: Seq<(String, usize)>) -> Seq<(Seq<char>, usize)> {
    entries.map_values(|p: (String, usize)| (p.0@, p.1))
}

impl View for EffectNameMap {
    type V = Seq<(Seq<char>, usize)>;

    closed spec fn view(&self) -> Seq<(Seq<char>, usize)> {
        names_view(self.entries@)
    }
}

/// The id that `name` stands for: that of the last entry with that name.
pub open spec fn name_lookup(entries: Seq<(Seq<char>, usize)>, name: Seq<char>) -> Option<usize>
    decreases entries.len(),
{
    if entries.len() == 0 {
        None
    } else if entries.last().0 == name {
        Some(entries.last().1)
    } else {
        name_lookup(entries.drop_last(), name)
    }
}

/// Every id in `names` is below `len`.
pub open spec fn names_below(names: Seq<(Seq<char>, usize)>, len: int) -> bool {
    forall|j: int| 0 <= j < names.len() ==> (#[trigger] names[j]).1 < len
}

pub proof fn lemma_lookup_below(names: Seq<(Seq<char>, usize)>, len: int, name: Seq<char>)
    requires
        names_below(names, len),
    ensures
        name_lookup(names, name) matches Some(id) ==> id < len,
    decreases names.len(),
{
    if names.len() > 0 {
        assert(names.last() == names[names.len() - 1]);
        lemma_lookup_below(names.drop_last(), len, name);
    }
}

impl EffectNameMap {
    /// No name.
    pub fn new() -> (r: Self)
        ensures
            r@ == Seq::<(Seq<char>, usize)>::empty(),
    {
        let r = EffectNameMap { entries: Vec::new() };
        assert(r@ =~= Seq::<(Seq<char>, usize)>::empty());
        r
    }

    /// The id `name` stands for.
    pub fn get(&self, name: &String) -> (r: Option<usize>)
        ensures
            r == name_lookup(self@, name@),
    {
        let mut i = self.entries.len();
        assert(names_view(self.entries@.subrange(0, i as int)) =~= self@);
        while i > 0
            invariant
                i <= self.entries@.len(),
                name_lookup(self@, name@) == name_lookup(names_view(self.entries@.subrange(0, i as int)), name@),
            decreases i,
        {
            let ghost s = names_view(self.entries@.subrange(0, i as int));
            proof {
                assert(s.drop_last() =~= names_view(self.entries@.subrange(0, i - 1)));
                assert(s.last() == (self.entries@[i - 1].0@, self.entries@[i - 1].1));
            }
            if self.entries[i - 1].0 == *name {
                return Some(self.entries[i - 1].1);
            }
            i -= 1;
        }
        None
    }

    /// Let `name` stand for `id` from now on.
    pub fn insert(&mut self, name: String, id: usize)
        ensures
            final(self)@ == old(self)@.push((name@, id)),
    {
        self.entries.push((name, id));
        assert(self@ =~= old(self)@.push((name@, id)));
    }
}

/// The last configured balance of `t`.
pub open spec fn configured(pairs: Seq<(TokenType, i64)>, t: TokenType) -> Option<i64>
    decreases pairs.len(),
{
    if pairs.len() == 0 {
        None
    } else if pairs.last().0 == t {
        Some(pairs.last().1)
    } else {
        configured(pairs.drop_last(), t)
    }
}

/// Initial token balances: every listed token type at zero, then the
/// configured values, each on the type's persistent counter.
pub fn load_token_balances(config: &TokensConfig) -> (r: TokenMap)
    ensures
        forall|t: TokenType| #[trigger] r.spec_get(persistent_key(t)) == match configured(config.initial_balances@, t) {
            Some(v) => Some(v),
            None => if spec_all_token_types().contains(t) { Some(0i64) } else { None },
        },
        forall|k: TokenKey| k.lifecycle != LifecycleKey::PersistentCounter ==> #[trigger] r.spec_get(k) is None,
{
    let mut m = TokenMap::new();
    let all = TokenType::all();
    let mut i: usize = 0;
    while i < all.len()
        invariant
            i <= all.len(),
            all@ == spec_all_token_types(),
            forall|t: TokenType| #[trigger] m.spec_get(persistent_key(t))
                == if all@.subrange(0, i as int).contains(t) { Some(0i64) } else { None },
            forall|k: TokenKey| k.lifecycle != LifecycleKey::PersistentCounter ==> #[trigger] m.spec_get(k) is None,
        decreases all.len() - i,
    {
        m.insert(Token::persistent(all[i]), 0);
        proof {
            assert forall|t: TokenType| #[trigger] m.spec_get(persistent_key(t))
                == if all@.subrange(0, i + 1).contains(t) { Some(0i64) } else { None } by {
                if t == all@[i as int] {
                    assert(all@.subrange(0, i + 1)[i as int] == t);
                } else {
                    assert(persistent_key(t) != persistent_key(all@[i as int]));
                    if all@.subrange(0, i + 1).contains(t) {
                        let j = choose|j: int| 0 <= j < i + 1 && #[trigger] all@.subrange(0, i + 1)[j] == t;
                        assert(all@.subrange(0, i as int)[j] == t);
                    }
                    if all@.subrange(0, i as int).contains(t) {
                        let j = choose|j: int| 0 <= j < i && #[trigger] all@.subrange(0, i as int)[j] == t;
                        assert(all@.subrange(0, i + 1)[j] == t);
                    }
                }
            }
        }
        i += 1;
    }
    assert(all@.subrange(0, all@.len() as int) =~= all@);
    let ghost base = m;
    let mut k: usize = 0;
    while k < config.initial_balances.len()
        invariant
            k <= config.initial_balances.len(),
            forall|t: TokenType| #[trigger] m.spec_get(persistent_key(t)) == match configured(config.initial_balances@.subrange(0, k as int), t) {
                Some(v) => Some(v),
                None => base.spec_get(persistent_key(t)),
            },
            forall|kk: TokenKey| kk.lifecycle != LifecycleKey::PersistentCounter ==> #[trigger] m.spec_get(kk) is None,
        decreases config.initial_balances.len() - k,
    {
        let (t, v) = config.initial_balances[k];
        m.insert(Token::persistent(t), v);
        proof {
            let s = config.initial_balances@.subrange(0, k + 1);
            assert(s.drop_last() =~= config.initial_balances@.subrange(0, k as int));
            assert forall|u: TokenType| #[trigger] m.spec_get(persistent_key(u)) == match configured(s, u) {
                Some(w) => Some(w),
                None => base.spec_get(persistent_key(u)),
            } by {
                if u != t {
                    assert(persistent_key(u) != persistent_key(t));
                }
            }
        }
        k += 1;
    }
    assert(config.initial_balances@.subrange(0, config.initial_balances@.len() as int) =~= config.initial_balances@);
    m
}

fn copy_tags(v: &Vec<Discipline>) -> (r: Vec<Discipline>)
    ensures
        r@ == v@,
{
    let mut out: Vec<Discipline> = Vec::new();
    let mut i: usize = 0;
    while i < v.len()
        invariant
            i <= v.len(),
            out@ == v@.subrange(0, i as int),
        decreases v.len() - i,
    {
        out.push(v[i]);
        i += 1;
    }
    assert(v@.subrange(0, v@.len() as int) =~= v@);
    out
}

fn concat_name(prefix: &str, name: &String) -> (r: String)
    ensures
        r@ == prefix@ + seq![':'] + name@,
{
    let p = String::from_str(prefix);
    let p = p.concat(":");
    proof {
        reveal_strlit(":");
    }
    p.concat(name.as_str())
}

/// Whether a template's ranges can be rolled.
fn rollable(kind: &CardEffectKind) -> (r: bool)
    ensures
        r == template_rollable(Some(kind@)),
{
    match kind {
        CardEffectKind::GainTokens { cap_min, cap_max, gain_min_percent, gain_max_percent, costs, .. } => {
            let (lo, hi) = if *cap_min <= *cap_max { (*cap_min as i128, *cap_max as i128) } else { (*cap_max as i128, *cap_min as i128) };
            let (glo, ghi) = if *gain_min_percent <= *gain_max_percent { (*gain_min_percent as i128, *gain_max_percent as i128) } else { (*gain_max_percent as i128, *gain_min_percent as i128) };
            let a = if *cap_min >= 0 { *cap_min as i128 } else { 0i128 - *cap_min as i128 };
            let b = if *cap_max >= 0 { *cap_max as i128 } else { 0i128 - *cap_max as i128 };
            let m = if a >= b { a } else { b };
            proof {
                assert(m * ghi <= 0x8000_0000_0000_0000i128 * 0x1_0000_0000i128) by (nonlinear_arith)
                    requires
                        0 <= m <= 0x8000_0000_0000_0000i128,
                        0 <= ghi <= 0xffff_ffffi128,
                ;
            }
            hi - lo < 0x7fff_ffff_ffff_ffffi128 && ghi - glo < 0xffff_ffffi128 && m * ghi <= 0x7fff_ffff_ffff_ffffi128
                && cost_ranges_fit_exec(costs)
        },
        CardEffectKind::LoseTokens { min, max, costs, .. } => {
            let (lo, hi) = if *min <= *max { (*min as i128, *max as i128) } else { (*max as i128, *min as i128) };
            hi - lo < 0x7fff_ffff_ffff_ffffi128 && cost_ranges_fit_exec(costs)
        },
        CardEffectKind::Insight { min, max } => {
            let (lo, hi) = if *min <= *max { (*min as i128, *max as i128) } else { (*max as i128, *min as i128) };
            hi - lo < 0x7fff_ffff_ffff_ffffi128
        },
        CardEffectKind::FishingValue { min, max, costs } => {
            let (lo, hi) = if *min <= *max { (*min as i128, *max as i128) } else { (*max as i128, *min as i128) };
            hi - lo < 0x7fff_ffff_ffff_ffffi128 && cost_ranges_fit_exec(costs)
        },
        CardEffectKind::HerbalismMatch { costs, .. } => cost_ranges_fit_exec(costs),
        CardEffectKind::WoodcuttingChop { costs, .. } => cost_ranges_fit_exec(costs),
        CardEffectKind::ResearchProbe { costs, .. } => cost_ranges_fit_exec(costs),
        _ => true,
    }
}

fn costs_type(costs: &Vec<CardEffectCost>, t: TokenType) -> (r: bool)
    ensures
        r == exists|i: int| 0 <= i < costs@.len() && #[trigger] costs@[i].token_type == t,
{
    let mut i: usize = 0;
    while i < costs.len()
        invariant
            i <= costs.len(),
            forall|j: int| 0 <= j < i ==> #[trigger] costs@[j].token_type != t,
        decreases costs.len() - i,
    {
        if costs[i].token_type == t {
            assert(costs@[i as int].token_type == t);
            return true;
        }
        i += 1;
    }
    false
}

/// Whether a gain template costs the token type it grants.
fn pays_itself(kind: &CardEffectKind) -> (r: bool)
    ensures
        r == gain_pays_itself(CardKind::PlayerCardEffect { kind: *kind }),
        r == gain_pays_itself(CardKind::EnemyCardEffect { kind: *kind }),
{
    match kind {
        CardEffectKind::GainTokens { token_type, costs, .. } => costs_type(costs, *token_type),
        _ => false,
    }
}

/// Whether the crafting cost of a card with these effects fits the game's integers.
fn effects_cost_fits(effects: &Vec<ConcreteEffect>) -> (r: bool)
    ensures
        r == base_cost_fits(CardKind::Attack { effects: *effects }),
{
    let mut sum: i128 = 0;
    let mut i: usize = 0;
    while i < effects.len()
        invariant
            i <= effects.len(),
            forall|j: int| 0 <= j < i ==> #[trigger] effects@[j].rolled_value != i64::MIN,
            sum == super::sum_abs_effects(effects@.subrange(0, i as int)),
            0 <= sum <= i64::MAX,
        decreases effects.len() - i,
    {
        let v = effects[i].rolled_value;
        proof {
            assert(effects@.subrange(0, i + 1).drop_last() =~= effects@.subrange(0, i as int));
        }
        if v == i64::MIN {
            proof {
                assert(!super::values_have_abs(CardKind::Attack { effects: *effects }));
            }
            return false;
        }
        let a: i128 = if v >= 0 { v as i128 } else { 0i128 - v as i128 };
        sum = sum + a;
        if sum > 0x7fff_ffff_ffff_ffffi128 {
            proof {
                super::lemma_sum_abs_effects_prefix(effects@, i + 1);
                assert(super::sum_abs_effects(effects@) > i64::MAX);
            }
            return false;
        }
        i += 1;
    }
    proof {
        assert(effects@.subrange(0, effects@.len() as int) =~= effects@);
    }
    let n = effects.len() as i128;
    if sum == 0 {
        return true;
    }
    if n >= 0x7fff_ffff_ffff_ffffi128 {
        return false;
    }
    proof {
        assert(sum * (1 + n) <= 0x7fff_ffff_ffff_ffffi128 * 0x7fff_ffff_ffff_ffffi128) by (nonlinear_arith)
            requires
                0 <= sum <= 0x7fff_ffff_ffff_ffffi128,
                0 <= n < 0x7fff_ffff_ffff_ffffi128,
        ;
    }
    let prod = sum * (1 + n);
    if prod > 0x7fff_ffff_ffff_ffffi128 {
        return false;
    }
    (prod / 4) * 75 <= 0x7fff_ffff_ffff_ffffi128
}

/// `effects` are one roll of each template named in `refs`, in order.
pub open spec fn effects_resolved(refs: Seq<String>, effects: Seq<ConcreteEffect>, names: Seq<(Seq<char>, usize)>, lib: Library) -> bool {
    &&& effects.len() == refs.len()
    &&& forall|i: int| 0 <= i < refs.len() ==> {
        &&& name_lookup(names, refs[i]@) == Some((#[trigger] effects[i]).effect_id)
        &&& rolled_from(effects[i]@, template_of(lib, effects[i].effect_id))
    }
}

/// Every name in `refs` stands for some template.
pub open spec fn refs_known(refs: Seq<String>, names: Seq<(Seq<char>, usize)>) -> bool {
    forall|i: int| 0 <= i < refs.len() ==> name_lookup(names, (#[trigger] refs[i])@) is Some
}

/// Every template of the library can be rolled.
pub open spec fn all_rollable(lib: Library) -> bool {
    forall|id: usize| template_rollable(#[trigger] template_of(lib, id))
}

/// Roll one effect per named template.
fn resolve_effect_refs(refs: &Vec<String>, name_map: &EffectNameMap, rng: &mut Lcg64Xsh32, lib: &Library) -> (r: Result<Vec<ConcreteEffect>, ConfigError>)
    requires
        all_rollable(*lib),
    ensures
        r matches Ok(effects) ==> effects_resolved(refs@, effects@, name_map@, *lib),
        r is Ok <==> refs_known(refs@, name_map@),
        r matches Err(e) ==> e is UnknownEffect,
{
    let mut out: Vec<ConcreteEffect> = Vec::new();
    let mut i: usize = 0;
    while i < refs.len()
        invariant
            i <= refs.len(),
            all_rollable(*lib),
            out@.len() == i,
            forall|j: int| 0 <= j < i ==> {
                &&& name_lookup(name_map@, refs@[j]@) == Some((#[trigger] out@[j]).effect_id)
                &&& rolled_from(out@[j]@, template_of(*lib, out@[j].effect_id))
            },
        decreases refs.len() - i,
    {
        match name_map.get(&refs[i]) {
            Some(id) => {
                let e = roll_concrete_effect(rng, id, lib);
                out.push(e);
            },
            None => {
                let name = refs[i].clone();
                return Err(ConfigError::UnknownEffect { name });
            },
        }
        i += 1;
    }
    assert forall|j: int| 0 <= j < refs@.len() implies name_lookup(name_map@, (#[trigger] refs@[j])@) is Some by {
        assert(name_lookup(name_map@, refs@[j]@) == Some(out@[j].effect_id));
    }
    Ok(out)
}

/// The configured tokens, each on its type's persistent counter, in order.
pub open spec fn tokens_persistent(pairs: Seq<(TokenType, u64)>, toks: Seq<(Token, u64)>) -> bool {
    &&& toks.len() == pairs.len()
    &&& forall|i: int| 0 <= i < pairs.len() ==> (#[trigger] toks[i]).0@ == persistent_key(pairs[i].0) && toks[i].1 == pairs[i].1
}

/// `m` holds the configured amounts (the last one of a type counts), each on
/// its type's persistent counter, and nothing else.
pub open spec fn rewards_map(pairs: Seq<(TokenType, i64)>, m: TokenMap) -> bool {
    &&& forall|t: TokenType| #[trigger] m.spec_get(persistent_key(t)) == configured(pairs, t)
    &&& forall|k: TokenKey| k.lifecycle != LifecycleKey::PersistentCounter ==> #[trigger] m.spec_get(k) is None
}

/// An enemy deck built from its configured entries.
pub open spec fn enemy_deck_built(entries: Seq<EnemyDeckEntryConfig>, deck: Seq<EnemyCardDef>, names: Seq<(Seq<char>, usize)>, lib: Library) -> bool {
    &&& deck.len() == entries.len()
    &&& forall|i: int| 0 <= i < entries.len() ==> {
        &&& (#[trigger] deck[i]).counts == entries[i].counts
        &&& effects_resolved(entries[i].effect_refs@, deck[i].effects@, names, lib)
    }
}

/// An ore deck built from its configured entries (ore cards carry no damage list).
pub open spec fn ore_deck_built(entries: Seq<OreDeckEntryConfig>, deck: Seq<OreCard>, names: Seq<(Seq<char>, usize)>, lib: Library) -> bool {
    &&& deck.len() == entries.len()
    &&& forall|i: int| 0 <= i < entries.len() ==> {
        &&& (#[trigger] deck[i]).counts == entries[i].counts
        &&& deck[i].damages@.len() == 0
        &&& effects_resolved(entries[i].effect_refs@, deck[i].effects@, names, lib)
    }
}

/// A plant hand built from its configured entries.
pub open spec fn plants_built(entries: Seq<PlantCardConfig>, hand: Seq<PlantCard>, names: Seq<(Seq<char>, usize)>, lib: Library) -> bool {
    &&& hand.len() == entries.len()
    &&& forall|i: int| 0 <= i < entries.len() ==> {
        &&& (#[trigger] hand[i]).counts == entries[i].counts
        &&& hand[i].characteristics@ == entries[i].characteristics@
        &&& effects_resolved(entries[i].effect_refs@, hand[i].effects@, names, lib)
    }
}

/// A fish deck built from its configured entries.
pub open spec fn fish_deck_built(entries: Seq<FishDeckEntryConfig>, deck: Seq<FishCard>, names: Seq<(Seq<char>, usize)>, lib: Library) -> bool {
    &&& deck.len() == entries.len()
    &&& forall|i: int| 0 <= i < entries.len() ==> {
        &&& (#[trigger] deck[i]).counts == entries[i].counts
        &&& deck[i].value == entries[i].value
        &&& effects_resolved(entries[i].effect_refs@, deck[i].effects@, names, lib)
    }
}

/// An enemy crafting deck built from its configured entries (no increase list).
pub open spec fn crafting_deck_built(entries: Seq<EnemyCraftingEntryConfig>, deck: Seq<EnemyCraftingCard>, names: Seq<(Seq<char>, usize)>, lib: Library) -> bool {
    &&& deck.len() == entries.len()
    &&& forall|i: int| 0 <= i < entries.len() ==> {
        &&& (#[trigger] deck[i]).counts == entries[i].counts
        &&& deck[i].increases@.len() == 0
        &&& effects_resolved(entries[i].effect_refs@, deck[i].effects@, names, lib)
    }
}

/// An enemy built from its configuration.
pub open spec fn combatant_built(c: CombatantConfig, d: CombatantDef, names: Seq<(Seq<char>, usize)>, lib: Library) -> bool {
    &&& tokens_persistent(c.initial_tokens@, d.initial_tokens@)
    &&& enemy_deck_built(c.attack_deck@, d.attack_deck@, names, lib)
    &&& enemy_deck_built(c.defence_deck@, d.defence_deck@, names, lib)
    &&& enemy_deck_built(c.resource_deck@, d.resource_deck@, names, lib)
}

/// An encounter built from its configuration.
pub open spec fn encounter_built(def: EncounterDefConfig, kind: EncounterKind, names: Seq<(Seq<char>, usize)>, lib: Library) -> bool {
    match def {
        EncounterDefConfig::Combat { combatant } => kind matches EncounterKind::Combat { combatant_def } && combatant_built(
            combatant,
            combatant_def,
            names,
            lib,
        ),
        EncounterDefConfig::Mining { mining_def: c } => kind matches EncounterKind::Mining { mining_def } && {
            &&& mining_def.initial_light_level == c.initial_light_level
            &&& ore_deck_built(c.ore_deck@, mining_def.ore_deck@, names, lib)
        },
        EncounterDefConfig::Herbalism { herbalism_def: c } => kind matches EncounterKind::Herbalism { herbalism_def } && {
            &&& plants_built(c.plant_hand@, herbalism_def.plant_hand@, names, lib)
            &&& rewards_map(c.rewards@, herbalism_def.rewards)
        },
        EncounterDefConfig::Woodcutting { woodcutting_def: c } => kind matches EncounterKind::Woodcutting { woodcutting_def } && {
            &&& woodcutting_def.max_plays == c.max_plays
            &&& rewards_map(c.base_rewards@, woodcutting_def.base_rewards)
        },
        EncounterDefConfig::Fishing { fishing_def: c } => kind matches EncounterKind::Fishing { fishing_def } && {
            &&& fishing_def.valid_range_min == c.valid_range_min
            &&& fishing_def.valid_range_max == c.valid_range_max
            &&& fishing_def.max_turns == c.max_turns
            &&& fishing_def.win_turns_needed == c.win_turns_needed
            &&& fish_deck_built(c.fish_deck@, fishing_def.fish_deck@, names, lib)
            &&& rewards_map(c.rewards@, fishing_def.rewards)
        },
        EncounterDefConfig::Rest { rest_def } => kind == EncounterKind::Rest { rest_def },
        EncounterDefConfig::Crafting { crafting_def: c } => kind matches EncounterKind::Crafting { crafting_def } && {
            &&& crafting_def.initial_crafting_tokens == c.initial_crafting_tokens
            &&& crafting_deck_built(c.enemy_crafting_deck@, crafting_def.enemy_crafting_deck@, names, lib)
        },
    }
}

/// Every effect name in a deck's entries is known.
pub open spec fn deck_refs_known(entries: Seq<EnemyDeckEntryConfig>, names: Seq<(Seq<char>, usize)>) -> bool {
    forall|i: int| 0 <= i < entries.len() ==> refs_known((#[trigger] entries[i]).effect_refs@, names)
}

/// Every effect name in an enemy's decks is known.
pub open spec fn combatant_refs_known(c: CombatantConfig, names: Seq<(Seq<char>, usize)>) -> bool {
    &&& deck_refs_known(c.attack_deck@, names)
    &&& deck_refs_known(c.defence_deck@, names)
    &&& deck_refs_known(c.resource_deck@, names)
}

/// Every effect name that an encounter's configuration refers to is known.
pub open spec fn encounter_refs_known(def: EncounterDefConfig, names: Seq<(Seq<char>, usize)>) -> bool {
    match def {
        EncounterDefConfig::Combat { combatant } => combatant_refs_known(combatant, names),
        EncounterDefConfig::Mining { mining_def } => forall|i: int|
            0 <= i < mining_def.ore_deck@.len() ==> refs_known((#[trigger] mining_def.ore_deck@[i]).effect_refs@, names),
        EncounterDefConfig::Herbalism { herbalism_def } => forall|i: int|
            0 <= i < herbalism_def.plant_hand@.len() ==> refs_known((#[trigger] herbalism_def.plant_hand@[i]).effect_refs@, names),
        EncounterDefConfig::Fishing { fishing_def } => forall|i: int|
            0 <= i < fishing_def.fish_deck@.len() ==> refs_known((#[trigger] fishing_def.fish_deck@[i]).effect_refs@, names),
        EncounterDefConfig::Crafting { crafting_def } => forall|i: int|
            0 <= i < crafting_def.enemy_crafting_deck@.len() ==> refs_known(
                (#[trigger] crafting_def.enemy_crafting_deck@[i]).effect_refs@,
                names,
            ),
        _ => true,
    }
}

fn build_token_pairs(pairs: &Vec<(TokenType, u64)>) -> (r: Vec<(Token, u64)>)
    ensures
        tokens_persistent(pairs@, r@),
{
    let mut out: Vec<(Token, u64)> = Vec::new();
    let mut i: usize = 0;
    while i < pairs.len()
        invariant
            i <= pairs.len(),
            tokens_persistent(pairs@.subrange(0, i as int), out@),
        decreases pairs.len() - i,
    {
        let (t, v) = pairs[i];
        out.push((Token::persistent(t), v));
        i += 1;
    }
    assert(pairs@.subrange(0, pairs@.len() as int) =~= pairs@);
    out
}

fn build_rewards(pairs: &Vec<(TokenType, i64)>) -> (r: TokenMap)
    ensures
        rewards_map(pairs@, r),
{
    let mut m = TokenMap::new();
    let mut k: usize = 0;
    while k < pairs.len()
        invariant
            k <= pairs.len(),
            rewards_map(pairs@.subrange(0, k as int), m),
        decreases pairs.len() - k,
    {
        let (t, v) = pairs[k];
        m.insert(Token::persistent(t), v);
        proof {
            let s = pairs@.subrange(0, k + 1);
            assert(s.drop_last() =~= pairs@.subrange(0, k as int));
            assert forall|u: TokenType| #[trigger] m.spec_get(persistent_key(u)) == configured(s, u) by {
                if u != t {
                    assert(persistent_key(u) != persistent_key(t));
                }
            }
        }
        k += 1;
    }
    assert(pairs@.subrange(0, pairs@.len() as int) =~= pairs@);
    m
}

fn build_enemy_deck(entries: &Vec<EnemyDeckEntryConfig>, name_map: &EffectNameMap, rng: &mut Lcg64Xsh32, lib: &Library) -> (r: Result<Vec<EnemyCardDef>, ConfigError>)
    requires
        all_rollable(*lib),
    ensures
        r matches Ok(deck) ==> enemy_deck_built(entries@, deck@, name_map@, *lib),
        r is Ok <==> deck_refs_known(entries@, name_map@),
        r matches Err(e) ==> e is UnknownEffect,
{
    let mut out: Vec<EnemyCardDef> = Vec::new();
    let mut i: usize = 0;
    while i < entries.len()
        invariant
            i <= entries.len(),
            all_rollable(*lib),
            enemy_deck_built(entries@.subrange(0, i as int), out@, name_map@, *lib),
            forall|j: int| 0 <= j < i ==> refs_known((#[trigger] entries@[j]).effect_refs@, name_map@),
        decreases entries.len() - i,
    {
        let effects = resolve_effect_refs(&entries[i].effect_refs, name_map, rng, lib)?;
        out.push(EnemyCardDef { effects, counts: entries[i].counts });
        i += 1;
    }
    assert(entries@.subrange(0, entries@.len() as int) =~= entries@);
    Ok(out)
}

fn build_ore_deck(entries: &Vec<OreDeckEntryConfig>, name_map: &EffectNameMap, rng: &mut Lcg64Xsh32, lib: &Library) -> (r: Result<Vec<OreCard>, ConfigError>)
    requires
        all_rollable(*lib),
    ensures
        r matches Ok(deck) ==> ore_deck_built(entries@, deck@, name_map@, *lib),
        r is Ok <==> forall|i: int| 0 <= i < entries@.len() ==> refs_known((#[trigger] entries@[i]).effect_refs@, name_map@),
        r matches Err(e) ==> e is UnknownEffect,
{
    let mut out: Vec<OreCard> = Vec::new();
    let mut i: usize = 0;
    while i < entries.len()
        invariant
            i <= entries.len(),
            all_rollable(*lib),
            ore_deck_built(entries@.subrange(0, i as int), out@, name_map@, *lib),
            forall|j: int| 0 <= j < i ==> refs_known((#[trigger] entries@[j]).effect_refs@, name_map@),
        decreases entries.len() - i,
    {
        let effects = resolve_effect_refs(&entries[i].effect_refs, name_map, rng, lib)?;
        out.push(OreCard { damages: Vec::new(), effects, counts: entries[i].counts });
        i += 1;
    }
    assert(entries@.subrange(0, entries@.len() as int) =~= entries@);
    Ok(out)
}

fn copy_characteristics(v: &Vec<PlantCharacteristic>) -> (r: Vec<PlantCharacteristic>)
    ensures
        r@ == v@,
{
    let mut out: Vec<PlantCharacteristic> = Vec::new();
    let mut i: usize = 0;
    while i < v.len()
        invariant
            i <= v.len(),
            out@ == v@.subrange(0, i as int),
        decreases v.len() - i,
    {
        out.push(v[i]);
        i += 1;
    }
    assert(v@.subrange(0, v@.len() as int) =~= v@);
    out
}

fn build_plants(entries: &Vec<PlantCardConfig>, name_map: &EffectNameMap, rng: &mut Lcg64Xsh32, lib: &Library) -> (r: Result<Vec<PlantCard>, ConfigError>)
    requires
        all_rollable(*lib),
    ensures
        r matches Ok(hand) ==> plants_built(entries@, hand@, name_map@, *lib),
        r is Ok <==> forall|i: int| 0 <= i < entries@.len() ==> refs_known((#[trigger] entries@[i]).effect_refs@, name_map@),
        r matches Err(e) ==> e is UnknownEffect,
{
    let mut out: Vec<PlantCard> = Vec::new();
    let mut i: usize = 0;
    while i < entries.len()
        invariant
            i <= entries.len(),
            all_rollable(*lib),
            plants_built(entries@.subrange(0, i as int), out@, name_map@, *lib),
            forall|j: int| 0 <= j < i ==> refs_known((#[trigger] entries@[j]).effect_refs@, name_map@),
        decreases entries.len() - i,
    {
        let effects = resolve_effect_refs(&entries[i].effect_refs, name_map, rng, lib)?;
        let characteristics = copy_characteristics(&entries[i].characteristics);
        out.push(PlantCard { characteristics, effects, counts: entries[i].counts });
        i += 1;
    }
    assert(entries@.subrange(0, entries@.len() as int) =~= entries@);
    Ok(out)
}

fn build_fish_deck(entries: &Vec<FishDeckEntryConfig>, name_map: &EffectNameMap, rng: &mut Lcg64Xsh32, lib: &Library) -> (r: Result<Vec<FishCard>, ConfigError>)
    requires
        all_rollable(*lib),
    ensures
        r matches Ok(deck) ==> fish_deck_built(entries@, deck@, name_map@, *lib),
        r is Ok <==> forall|i: int| 0 <= i < entries@.len() ==> refs_known((#[trigger] entries@[i]).effect_refs@, name_map@),
        r matches Err(e) ==> e is UnknownEffect,
{
    let mut out: Vec<FishCard> = Vec::new();
    let mut i: usize = 0;
    while i < entries.len()
        invariant
            i <= entries.len(),
            all_rollable(*lib),
            fish_deck_built(entries@.subrange(0, i as int), out@, name_map@, *lib),
            forall|j: int| 0 <= j < i ==> refs_known((#[trigger] entries@[j]).effect_refs@, name_map@),
        decreases entries.len() - i,
    {
        let effects = resolve_effect_refs(&entries[i].effect_refs, name_map, rng, lib)?;
        out.push(FishCard { value: entries[i].value, effects, counts: entries[i].counts });
        i += 1;
    }
    assert(entries@.subrange(0, entries@.len() as int) =~= entries@);
    Ok(out)
}

fn build_crafting_deck(entries: &Vec<EnemyCraftingEntryConfig>, name_map: &EffectNameMap, rng: &mut Lcg64Xsh32, lib: &Library) -> (r: Result<Vec<EnemyCraftingCard>, ConfigError>)
    requires
        all_rollable(*lib),
    ensures
        r matches Ok(deck) ==> crafting_deck_built(entries@, deck@, name_map@, *lib),
        r is Ok <==> forall|i: int| 0 <= i < entries@.len() ==> refs_known((#[trigger] entries@[i]).effect_refs@, name_map@),
        r matches Err(e) ==> e is UnknownEffect,
{
    let mut out: Vec<EnemyCraftingCard> = Vec::new();
    let mut i: usize = 0;
    while i < entries.len()
        invariant
            i <= entries.len(),
            all_rollable(*lib),
            crafting_deck_built(entries@.subrange(0, i as int), out@, name_map@, *lib),
            forall|j: int| 0 <= j < i ==> refs_known((#[trigger] entries@[j]).effect_refs@, name_map@),
        decreases entries.len() - i,
    {
        let effects = resolve_effect_refs(&entries[i].effect_refs, name_map, rng, lib)?;
        out.push(EnemyCraftingCard { increases: Vec::new(), effects, counts: entries[i].counts });
        i += 1;
    }
    assert(entries@.subrange(0, entries@.len() as int) =~= entries@);
    Ok(out)
}

fn build_combatant_def(config: &CombatantConfig, name_map: &EffectNameMap, rng: &mut Lcg64Xsh32, lib: &Library) -> (r: Result<CombatantDef, ConfigError>)
    requires
        all_rollable(*lib),
    ensures
        r matches Ok(d) ==> combatant_built(*config, d, name_map@, *lib),
        r is Ok <==> combatant_refs_known(*config, name_map@),
        r matches Err(e) ==> e is UnknownEffect,
{
    let initial_tokens = build_token_pairs(&config.initial_tokens);
    let attack_deck = match build_enemy_deck(&config.attack_deck, name_map, rng, lib) {
        Ok(d) => d,
        Err(e) => {
            return Err(e);
        },
    };
    let defence_deck = match build_enemy_deck(&config.defence_deck, name_map, rng, lib) {
        Ok(d) => d,
        Err(e) => {
            return Err(e);
        },
    };
    let resource_deck = match build_enemy_deck(&config.resource_deck, name_map, rng, lib) {
        Ok(d) => d,
        Err(e) => {
            return Err(e);
        },
    };
    Ok(CombatantDef { initial_tokens, attack_deck, defence_deck, resource_deck })
}

/// Build an encounter from its configuration, rolling every named effect.
fn build_encounter_kind(def: &EncounterDefConfig, name_map: &EffectNameMap, rng: &mut Lcg64Xsh32, lib: &Library) -> (r: Result<EncounterKind, ConfigError>)
    requires
        all_rollable(*lib),
    ensures
        r matches Ok(k) ==> encounter_built(*def, k, name_map@, *lib),
        r is Ok <==> encounter_refs_known(*def, name_map@),
        r matches Err(e) ==> e is UnknownEffect,
{
    match def {
        EncounterDefConfig::Combat { combatant } => {
            let combatant_def = build_combatant_def(combatant, name_map, rng, lib)?;
            Ok(EncounterKind::Combat { combatant_def })
        },
        EncounterDefConfig::Mining { mining_def } => {
            let ore_deck = build_ore_deck(&mining_def.ore_deck, name_map, rng, lib)?;
            Ok(EncounterKind::Mining { mining_def: MiningDef { initial_light_level: mining_def.initial_light_level, ore_deck } })
        },
        EncounterDefConfig::Herbalism { herbalism_def } => {
            let plant_hand = build_plants(&herbalism_def.plant_hand, name_map, rng, lib)?;
            let rewards = build_rewards(&herbalism_def.rewards);
            Ok(EncounterKind::Herbalism { herbalism_def: HerbalismDef { plant_hand, rewards } })
        },
        EncounterDefConfig::Woodcutting { woodcutting_def } => {
            let base_rewards = build_rewards(&woodcutting_def.base_rewards);
            Ok(EncounterKind::Woodcutting { woodcutting_def: WoodcuttingDef { max_plays: woodcutting_def.max_plays, base_rewards } })
        },
        EncounterDefConfig::Fishing { fishing_def } => {
            let fish_deck = build_fish_deck(&fishing_def.fish_deck, name_map, rng, lib)?;
            let rewards = build_rewards(&fishing_def.rewards);
            Ok(EncounterKind::Fishing {
                fishing_def: FishingDef {
                    valid_range_min: fishing_def.valid_range_min,
                    valid_range_max: fishing_def.valid_range_max,
                    max_turns: fishing_def.max_turns,
                    win_turns_needed: fishing_def.win_turns_needed,
                    fish_deck,
                    rewards,
                },
            })
        },
        EncounterDefConfig::Rest { rest_def } => Ok(EncounterKind::Rest { rest_def: *rest_def }),
        EncounterDefConfig::Crafting { crafting_def } => {
            let enemy_crafting_deck = build_crafting_deck(&crafting_def.enemy_crafting_deck, name_map, rng, lib)?;
            Ok(EncounterKind::Crafting {
                crafting_def: CraftingDef { initial_crafting_tokens: crafting_def.initial_crafting_tokens, enemy_crafting_deck },
            })
        },
    }
}

/// `lib2` holds the cards of `lib1` first, unchanged.
pub open spec fn lib_extends(lib1: Library, lib2: Library) -> bool {
    &&& lib1.cards@.len() <= lib2.cards@.len()
    &&& lib2.cards@.subrange(0, lib1.cards@.len() as int) == lib1.cards@
}

proof fn lemma_template_stable(lib1: Library, lib2: Library, id: usize)
    requires
        lib_extends(lib1, lib2),
        id < lib1.cards@.len(),
    ensures
        template_of(lib1, id) == template_of(lib2, id),
{
    assert(lib2.cards@[id as int] == lib2.cards@.subrange(0, lib1.cards@.len() as int)[id as int]);
}

proof fn lemma_resolved_stable(refs: Seq<String>, effects: Seq<ConcreteEffect>, names: Seq<(Seq<char>, usize)>, lib1: Library, lib2: Library)
    requires
        effects_resolved(refs, effects, names, lib1),
        names_below(names, lib1.cards@.len() as int),
        lib_extends(lib1, lib2),
    ensures
        effects_resolved(refs, effects, names, lib2),
{
    assert forall|i: int| 0 <= i < refs.len() implies rolled_from((#[trigger] effects[i])@, template_of(lib2, effects[i].effect_id)) by {
        assert(name_lookup(names, refs[i]@) == Some(effects[i].effect_id));
        lemma_lookup_below(names, lib1.cards@.len() as int, refs[i]@);
        lemma_template_stable(lib1, lib2, effects[i].effect_id);
    }
}

proof fn lemma_encounter_stable(def: EncounterDefConfig, kind: EncounterKind, names: Seq<(Seq<char>, usize)>, lib1: Library, lib2: Library)
    requires
        encounter_built(def, kind, names, lib1),
        names_below(names, lib1.cards@.len() as int),
        lib_extends(lib1, lib2),
    ensures
        encounter_built(def, kind, names, lib2),
{
    match def {
        EncounterDefConfig::Combat { combatant } => {
            let d = kind->combatant_def;
            assert forall|i: int| 0 <= i < combatant.attack_deck@.len() implies effects_resolved(
                combatant.attack_deck@[i].effect_refs@,
                (#[trigger] d.attack_deck@[i]).effects@,
                names,
                lib2,
            ) by {
                lemma_resolved_stable(combatant.attack_deck@[i].effect_refs@, d.attack_deck@[i].effects@, names, lib1, lib2);
            }
            assert forall|i: int| 0 <= i < combatant.defence_deck@.len() implies effects_resolved(
                combatant.defence_deck@[i].effect_refs@,
                (#[trigger] d.defence_deck@[i]).effects@,
                names,
                lib2,
            ) by {
                lemma_resolved_stable(combatant.defence_deck@[i].effect_refs@, d.defence_deck@[i].effects@, names, lib1, lib2);
            }
            assert forall|i: int| 0 <= i < combatant.resource_deck@.len() implies effects_resolved(
                combatant.resource_deck@[i].effect_refs@,
                (#[trigger] d.resource_deck@[i]).effects@,
                names,
                lib2,
            ) by {
                lemma_resolved_stable(combatant.resource_deck@[i].effect_refs@, d.resource_deck@[i].effects@, names, lib1, lib2);
            }
        },
        EncounterDefConfig::Mining { mining_def: c } => {
            let d = kind->mining_def;
            assert forall|i: int| 0 <= i < c.ore_deck@.len() implies effects_resolved(
                c.ore_deck@[i].effect_refs@,
                (#[trigger] d.ore_deck@[i]).effects@,
                names,
                lib2,
            ) by {
                lemma_resolved_stable(c.ore_deck@[i].effect_refs@, d.ore_deck@[i].effects@, names, lib1, lib2);
            }
        },
        EncounterDefConfig::Herbalism { herbalism_def: c } => {
            let d = kind->herbalism_def;
            assert forall|i: int| 0 <= i < c.plant_hand@.len() implies effects_resolved(
                c.plant_hand@[i].effect_refs@,
                (#[trigger] d.plant_hand@[i]).effects@,
                names,
                lib2,
            ) by {
                lemma_resolved_stable(c.plant_hand@[i].effect_refs@, d.plant_hand@[i].effects@, names, lib1, lib2);
            }
        },
        EncounterDefConfig::Fishing { fishing_def: c } => {
            let d = kind->fishing_def;
            assert forall|i: int| 0 <= i < c.fish_deck@.len() implies effects_resolved(
                c.fish_deck@[i].effect_refs@,
                (#[trigger] d.fish_deck@[i]).effects@,
                names,
                lib2,
            ) by {
                lemma_resolved_stable(c.fish_deck@[i].effect_refs@, d.fish_deck@[i].effects@, names, lib1, lib2);
            }
        },
        EncounterDefConfig::Crafting { crafting_def: c } => {
            let d = kind->crafting_def;
            assert forall|i: int| 0 <= i < c.enemy_crafting_deck@.len() implies effects_resolved(
                c.enemy_crafting_deck@[i].effect_refs@,
                (#[trigger] d.enemy_crafting_deck@[i]).effects@,
                names,
                lib2,
            ) by {
                lemma_resolved_stable(c.enemy_crafting_deck@[i].effect_refs@, d.enemy_crafting_deck@[i].effects@, names, lib1, lib2);
            }
        },
        _ => {},
    }
}

/// The kinds of player card that carry an effect list in this game.
pub open spec fn supported_kind(k: PlayerCardKind) -> bool {
    ||| k == PlayerCardKind::Attack
    ||| k == PlayerCardKind::Defence
    ||| k == PlayerCardKind::Resource
    ||| k == PlayerCardKind::Rest
    ||| k == PlayerCardKind::Mining
    ||| k == PlayerCardKind::Fishing
    ||| k == PlayerCardKind::Herbalism
    ||| k == PlayerCardKind::Woodcutting
    ||| k == PlayerCardKind::Crafting
    ||| k == PlayerCardKind::Research
}

fn is_supported(k: PlayerCardKind) -> (r: bool)
    ensures
        r == supported_kind(k),
{
    match k {
        PlayerCardKind::Attack | PlayerCardKind::Defence | PlayerCardKind::Resource | PlayerCardKind::Rest
        | PlayerCardKind::Mining | PlayerCardKind::Fishing | PlayerCardKind::Herbalism | PlayerCardKind::Woodcutting
        | PlayerCardKind::Crafting | PlayerCardKind::Research => true,
    }
}

/// A template card made from a configured effect.
pub open spec fn template_card(e: CardEffectConfig, kind: CardKind) -> bool {
    match kind {
        CardKind::PlayerCardEffect { kind: k } => e.owner == EffectOwner::Player && k@ == e.kind@,
        CardKind::EnemyCardEffect { kind: k } => e.owner == EffectOwner::Enemy && k@ == e.kind@,
        _ => false,
    }
}

/// A player card made from its configuration: its effects rolled from the named templates.
pub open spec fn player_card_built(p: PlayerCardConfig, kind: CardKind, names: Seq<(Seq<char>, usize)>, lib: Library) -> bool {
    match kind {
        CardKind::Attack { effects } => p.card_kind == PlayerCardKind::Attack && effects_resolved(p.effect_refs@, effects@, names, lib),
        CardKind::Defence { effects } => p.card_kind == PlayerCardKind::Defence && effects_resolved(p.effect_refs@, effects@, names, lib),
        CardKind::Resource { effects } => p.card_kind == PlayerCardKind::Resource && effects_resolved(p.effect_refs@, effects@, names, lib),
        CardKind::Mining { effects } => p.card_kind == PlayerCardKind::Mining && effects_resolved(p.effect_refs@, effects@, names, lib),
        CardKind::Fishing { effects } => p.card_kind == PlayerCardKind::Fishing && effects_resolved(p.effect_refs@, effects@, names, lib),
        CardKind::Herbalism { effects } => p.card_kind == PlayerCardKind::Herbalism && effects_resolved(p.effect_refs@, effects@, names, lib),
        CardKind::Woodcutting { effects } => p.card_kind == PlayerCardKind::Woodcutting && effects_resolved(p.effect_refs@, effects@, names, lib),
        CardKind::Crafting { effects } => p.card_kind == PlayerCardKind::Crafting && effects_resolved(p.effect_refs@, effects@, names, lib),
        CardKind::Research { effects } => p.card_kind == PlayerCardKind::Research && effects_resolved(p.effect_refs@, effects@, names, lib),
        CardKind::Rest { effects, rest_token_cost } => {
            &&& p.card_kind == PlayerCardKind::Rest
            &&& effects_resolved(p.effect_refs@, effects@, names, lib)
            &&& rest_token_cost == sum_of_type(gathering_costs(effects@), TokenType::RestToken)
        },
        _ => false,
    }
}

/// The crafting cost that the library gives a card of this kind.
pub open spec fn crafting_cost_ok(card: LibraryCard) -> bool {
    match spec_base_cost(card.kind) {
        Some(b) => valid_spread(card.crafting_cost@, b),
        None => card.crafting_cost@.len() == 0,
    }
}

/// What loading `entry` put into `card`, with `names` the effect names known before it.
#[verifier::opaque]
pub open spec fn entry_loaded(entry: CardEntry, card: LibraryCard, names: Seq<(Seq<char>, usize)>, lib: Library) -> bool {
    &&& crafting_cost_ok(card)
    &&& match entry {
        CardEntry::Effect(e) => {
            &&& template_card(e, card.kind)
            &&& card.counts == e.counts
            &&& card.discipline_tags@ == e.valid_disciplines@
        },
        CardEntry::PlayerCard(p) => {
            &&& player_card_built(p, card.kind, names, lib)
            &&& card.counts == p.counts
            &&& card.discipline_tags@ == p.valid_disciplines@
        },
        CardEntry::Encounter(enc) => {
            &&& card.kind matches CardKind::Encounter { encounter_kind } && encounter_built(enc.encounter_def, encounter_kind, names, lib)
            &&& card.counts == enc.counts
            &&& card.discipline_tags@ == enc.valid_disciplines@
        },
    }
}

/// The effect names known after loading `entries` from id `base` on: each
/// effect entry adds its full name `prefix:name` for its own id.
pub open spec fn names_after(prefix: Seq<char>, entries: Seq<CardEntry>, base: int, names: Seq<(Seq<char>, usize)>) -> Seq<(Seq<char>, usize)>
    decreases entries.len(),
{
    if entries.len() == 0 {
        names
    } else {
        let prev = names_after(prefix, entries.drop_last(), base, names);
        match entries.last() {
            CardEntry::Effect(e) => prev.push((prefix + seq![':'] + e.name@, (base + entries.len() - 1) as usize)),
            _ => prev,
        }
    }
}

/// An entry refused before anything is rolled for it.
pub open spec fn entry_refused(entry: CardEntry, names: Seq<(Seq<char>, usize)>) -> bool {
    match entry {
        CardEntry::Effect(e) => gain_pays_itself(CardKind::PlayerCardEffect { kind: e.kind }) || !template_rollable(Some(e.kind@)),
        CardEntry::PlayerCard(p) => !supported_kind(p.card_kind) || !refs_known(p.effect_refs@, names),
        CardEntry::Encounter(enc) => !encounter_refs_known(enc.encounter_def, names),
    }
}

proof fn lemma_names_after_below(prefix: Seq<char>, entries: Seq<CardEntry>, base: int, names: Seq<(Seq<char>, usize)>)
    requires
        names_below(names, base),
        0 <= base,
        base + entries.len() <= usize::MAX + 1,
    ensures
        names_below(names_after(prefix, entries, base, names), base + entries.len()),
    decreases entries.len(),
{
    if entries.len() > 0 {
        lemma_names_after_below(prefix, entries.drop_last(), base, names);
    }
}

proof fn lemma_entry_stable(entry: CardEntry, card: LibraryCard, names: Seq<(Seq<char>, usize)>, lib1: Library, lib2: Library)
    requires
        entry_loaded(entry, card, names, lib1),
        names_below(names, lib1.cards@.len() as int),
        lib_extends(lib1, lib2),
    ensures
        entry_loaded(entry, card, names, lib2),
{
    reveal(entry_loaded);
    match entry {
        CardEntry::PlayerCard(p) => {
            match card.kind {
                CardKind::Attack { effects } => lemma_resolved_stable(p.effect_refs@, effects@, names, lib1, lib2),
                CardKind::Defence { effects } => lemma_resolved_stable(p.effect_refs@, effects@, names, lib1, lib2),
                CardKind::Resource { effects } => lemma_resolved_stable(p.effect_refs@, effects@, names, lib1, lib2),
                CardKind::Mining { effects } => lemma_resolved_stable(p.effect_refs@, effects@, names, lib1, lib2),
                CardKind::Fishing { effects } => lemma_resolved_stable(p.effect_refs@, effects@, names, lib1, lib2),
                CardKind::Herbalism { effects } => lemma_resolved_stable(p.effect_refs@, effects@, names, lib1, lib2),
                CardKind::Woodcutting { effects } => lemma_resolved_stable(p.effect_refs@, effects@, names, lib1, lib2),
                CardKind::Crafting { effects } => lemma_resolved_stable(p.effect_refs@, effects@, names, lib1, lib2),
                CardKind::Research { effects } => lemma_resolved_stable(p.effect_refs@, effects@, names, lib1, lib2),
                CardKind::Rest { effects, .. } => lemma_resolved_stable(p.effect_refs@, effects@, names, lib1, lib2),
                _ => {},
            }
        },
        CardEntry::Encounter(enc) => {
            lemma_encounter_stable(enc.encounter_def, card.kind->encounter_kind, names, lib1, lib2);
        },
        _ => {},
    }
}

proof fn lemma_add_keeps_rollable(lib1: Library, lib2: Library)
    requires
        all_rollable(lib1),
        lib_extends(lib1, lib2),
        lib2.cards@.len() == lib1.cards@.len() + 1,
        template_rollable(template_of(lib2, lib1.cards@.len() as usize)),
    ensures
        all_rollable(lib2),
{
    assert forall|id: usize| template_rollable(#[trigger] template_of(lib2, id)) by {
        if id < lib1.cards@.len() {
            lemma_template_stable(lib1, lib2, id);
        }
    }
}

/// What refusing `entry` with `err` says of it, with `names` the effect names known before it.
pub open spec fn entry_error(entry: CardEntry, names: Seq<(Seq<char>, usize)>, err: ConfigError) -> bool {
    match err {
        ConfigError::GainPaysItself { name } => entry matches CardEntry::Effect(e) && e.name@ == name@ && gain_pays_itself(
            CardKind::PlayerCardEffect { kind: e.kind },
        ),
        ConfigError::TemplateOutOfRange { name } => entry matches CardEntry::Effect(e) && e.name@ == name@ && !template_rollable(Some(e.kind@)),
        ConfigError::UnsupportedCardKind { kind } => entry matches CardEntry::PlayerCard(p) && p.card_kind == kind && !supported_kind(kind),
        ConfigError::UnknownEffect { .. } => {
            ||| entry matches CardEntry::PlayerCard(p) && !refs_known(p.effect_refs@, names)
            ||| entry matches CardEntry::Encounter(x) && !encounter_refs_known(x.encounter_def, names)
        },
        ConfigError::CardOutOfRange => entry is PlayerCard,
    }
}

/// The effect names known after loading `entry` as card `id`.
pub open spec fn names_with(prefix: Seq<char>, entry: CardEntry, id: usize, names: Seq<(Seq<char>, usize)>) -> Seq<(Seq<char>, usize)> {
    match entry {
        CardEntry::Effect(e) => names.push((prefix + seq![':'] + e.name@, id)),
        _ => names,
    }
}

/// Load one configured card into the library.
fn load_entry(lib: &mut Library, rng: &mut Lcg64Xsh32, entry: &CardEntry, prefix: &str, name_map: &mut EffectNameMap) -> (r: Result<(), ConfigError>)
    requires
        all_rollable(*old(lib)),
        names_below(old(name_map)@, old(lib).cards@.len() as int),
    ensures
        r is Ok ==> {
            &&& final(lib).cards@.len() == old(lib).cards@.len() + 1
            &&& lib_extends(*old(lib), *final(lib))
            &&& entry_loaded(*entry, final(lib).cards@[old(lib).cards@.len() as int], old(name_map)@, *final(lib))
            &&& final(name_map)@ == names_with(prefix@, *entry, old(lib).cards@.len() as usize, old(name_map)@)
            &&& all_rollable(*final(lib))
        },
        !entry_refused(*entry, old(name_map)@) && !(*entry is PlayerCard) ==> r is Ok,
        r matches Err(e) ==> entry_error(*entry, old(name_map)@, e),
{
    let ghost lib_prev = *lib;
    match entry {
        CardEntry::Effect(effect) => {
            if pays_itself(&effect.kind) {
                return Err(ConfigError::GainPaysItself { name: effect.name.clone() });
            }
            if !rollable(&effect.kind) {
                return Err(ConfigError::TemplateOutOfRange { name: effect.name.clone() });
            }
            let k = effect.kind.duplicate();
            let kind = match effect.owner {
                EffectOwner::Player => CardKind::PlayerCardEffect { kind: k },
                EffectOwner::Enemy => CardKind::EnemyCardEffect { kind: k },
            };
            let id = lib.add_card(kind, effect.counts, rng, copy_tags(&effect.valid_disciplines));
            name_map.insert(concat_name(prefix, &effect.name), id);
        },
        CardEntry::PlayerCard(card) => {
            if !is_supported(card.card_kind) {
                return Err(ConfigError::UnsupportedCardKind { kind: card.card_kind });
            }
            let effects = match resolve_effect_refs(&card.effect_refs, name_map, rng, lib) {
                Ok(e) => e,
                Err(e) => {
                    return Err(e);
                },
            };
            if !effects_cost_fits(&effects) {
                return Err(ConfigError::CardOutOfRange);
            }
            let kind = match card.card_kind {
                PlayerCardKind::Attack => CardKind::Attack { effects },
                PlayerCardKind::Defence => CardKind::Defence { effects },
                PlayerCardKind::Resource => CardKind::Resource { effects },
                PlayerCardKind::Mining => CardKind::Mining { effects },
                PlayerCardKind::Fishing => CardKind::Fishing { effects },
                PlayerCardKind::Herbalism => CardKind::Herbalism { effects },
                PlayerCardKind::Woodcutting => CardKind::Woodcutting { effects },
                PlayerCardKind::Crafting => CardKind::Crafting { effects },
                PlayerCardKind::Research => CardKind::Research { effects },
                _ => {
                    match rest_token_cost_checked(effects.as_slice()) {
                        Some(c) => CardKind::Rest { effects, rest_token_cost: c },
                        None => {
                            return Err(ConfigError::CardOutOfRange);
                        },
                    }
                },
            };
            lib.add_card(kind, card.counts, rng, copy_tags(&card.valid_disciplines));
        },
        CardEntry::Encounter(enc) => {
            let encounter_kind = match build_encounter_kind(&enc.encounter_def, name_map, rng, lib) {
                Ok(k) => k,
                Err(e) => {
                    return Err(e);
                },
            };
            lib.add_card(CardKind::Encounter { encounter_kind }, enc.counts, rng, copy_tags(&enc.valid_disciplines));
        },
    }
    proof {
        reveal(entry_loaded);
        lemma_add_keeps_rollable(lib_prev, *lib);
        lemma_entry_stable(*entry, lib.cards@[lib_prev.cards@.len() as int], old(name_map)@, lib_prev, *lib);
    }
    Ok(())
}

/// Load one discipline's configured cards into the library, in order.
/// Effect templates are refused where they cost what they grant or cannot be
/// rolled; player cards where their kind carries no effect list here or their
/// crafting cost does not fit; any card whose effect names are unknown.
/// Loading stops at the first refused card.
#[verifier::spinoff_prover]
#[verifier::rlimit(100)]
pub fn load_discipline_config(
    lib: &mut Library,
    rng: &mut Lcg64Xsh32,
    config: &DisciplineConfig,
    prefix: &str,
    name_map: &mut EffectNameMap,
) -> (r: Result<(), ConfigError>)
    requires
        all_rollable(*old(lib)),
        names_below(old(name_map)@, old(lib).cards@.len() as int),
    ensures
        r is Ok ==> {
            let base = old(lib).cards@.len() as int;
            &&& final(lib).cards@.len() == base + config.cards@.len()
            &&& lib_extends(*old(lib), *final(lib))
            &&& forall|i: int| 0 <= i < config.cards@.len() ==> entry_loaded(
                #[trigger] config.cards@[i],
                final(lib).cards@[base + i],
                names_after(prefix@, config.cards@.take(i), base, old(name_map)@),
                *final(lib),
            )
            &&& final(name_map)@ == names_after(prefix@, config.cards@, base, old(name_map)@)
            &&& all_rollable(*final(lib))
            &&& names_below(final(name_map)@, final(lib).cards@.len() as int)
        },
        (forall|i: int| 0 <= i < config.cards@.len() ==> !entry_refused(
            #[trigger] config.cards@[i],
            names_after(prefix@, config.cards@.take(i), old(lib).cards@.len() as int, old(name_map)@),
        ) && !(config.cards@[i] is PlayerCard)) ==> r is Ok,
        r matches Err(e) ==> exists|i: int| 0 <= i < config.cards@.len() && entry_error(
            #[trigger] config.cards@[i],
            names_after(prefix@, config.cards@.take(i), old(lib).cards@.len() as int, old(name_map)@),
            e,
        ),
{
    let ghost base = lib.cards@.len() as int;
    let ghost names0 = name_map@;
    let ghost lib0 = *lib;
    let ghost pre = prefix@;
    let mut i: usize = 0;
    assert(config.cards@.take(0) =~= Seq::<CardEntry>::empty());
    assert(lib.cards@.subrange(0, base) =~= lib.cards@);
    while i < config.cards.len()
        invariant
            i <= config.cards@.len(),
            base == lib0.cards@.len(),
            lib0 == *old(lib),
            names0 == old(name_map)@,
            pre == prefix@,
            names_below(names0, base),
            lib.cards@.len() == base + i,
            lib_extends(lib0, *lib),
            all_rollable(*lib),
            name_map@ == names_after(pre, config.cards@.take(i as int), base, names0),
            forall|j: int| 0 <= j < i ==> entry_loaded(
                #[trigger] config.cards@[j],
                lib.cards@[base + j],
                names_after(pre, config.cards@.take(j), base, names0),
                *lib,
            ),
        decreases config.cards@.len() - i,
    {
        let ghost lib_prev = *lib;
        let ghost names_prev = name_map@;
        let _len_before = lib.cards.len();
        proof {
            assert(config.cards@.take(i + 1).drop_last() =~= config.cards@.take(i as int));
            assert(config.cards@.take(i + 1).last() == config.cards@[i as int]);
            lemma_names_after_below(pre, config.cards@.take(i as int), base, names0);
        }
        let res = load_entry(lib, rng, &config.cards[i], prefix, name_map);
        if let Err(e) = res {
            return Err(e);
        }
        let _len_after = lib.cards.len();
        proof {
            assert(lib_extends(lib0, *lib)) by {
                assert(lib.cards@.subrange(0, base) =~= lib_prev.cards@.subrange(0, base));
            }
            assert forall|j: int| 0 <= j < i implies entry_loaded(
                #[trigger] config.cards@[j],
                lib.cards@[base + j],
                names_after(pre, config.cards@.take(j), base, names0),
                *lib,
            ) by {
                lemma_names_after_below(pre, config.cards@.take(j), base, names0);
                assert(lib.cards@[base + j] == lib_prev.cards@[base + j]) by {
                    assert(lib.cards@.subrange(0, lib_prev.cards@.len() as int)[base + j] == lib.cards@[base + j]);
                }
                lemma_entry_stable(config.cards@[j], lib_prev.cards@[base + j], names_after(pre, config.cards@.take(j), base, names0), lib_prev, *lib);
            }
        }
        i += 1;
    }
    assert(config.cards@.take(config.cards@.len() as int) =~= config.cards@);
    let _len_final = lib.cards.len();
    proof {
        lemma_names_after_below(pre, config.cards@, base, names0);
    }
    Ok(())
}

/// Why the library could not be loaded.
#[derive(Debug)]
pub enum LoadError {
    /// A discipline's configuration was refused.
    Config { prefix: String, error: ConfigError },
    /// Cards refer to effect templates of the wrong owner.
    Validation { errors: Vec<EffectRefError> },
}

/// The number of cards in a list of discipline configurations.
pub open spec fn total_cards(configs: Seq<(String, DisciplineConfig)>) -> int
    decreases configs.len(),
{
    if configs.len() == 0 {
        0
    } else {
        total_cards(configs.drop_last()) + configs.last().1.cards@.len()
    }
}

/// The effect names known after loading `configs` in order.
pub open spec fn names_through(configs: Seq<(String, DisciplineConfig)>) -> Seq<(Seq<char>, usize)>
    decreases configs.len(),
{
    if configs.len() == 0 {
        Seq::empty()
    } else {
        names_after(configs.last().0@, configs.last().1.cards@, total_cards(configs.drop_last()), names_through(configs.drop_last()))
    }
}

/// The effect names known where entry `i` of configuration `k` is read.
#[verifier::opaque]
pub open spec fn names_at(configs: Seq<(String, DisciplineConfig)>, k: int, i: int) -> Seq<(Seq<char>, usize)> {
    names_after(configs[k].0@, configs[k].1.cards@.take(i), total_cards(configs.take(k)), names_through(configs.take(k)))
}

/// `lib` is what loading `configs` made of their entries: a card for each
/// entry, in order, built from it (see `entry_loaded`).
pub open spec fn library_loaded(configs: Seq<(String, DisciplineConfig)>, lib: Library) -> bool {
    &&& lib.cards@.len() == total_cards(configs)
    &&& forall|k: int, i: int|
        #![trigger configs[k].1.cards@[i]]
        0 <= k < configs.len() && 0 <= i < configs[k].1.cards@.len() ==> entry_loaded(
            configs[k].1.cards@[i],
            lib.cards@[total_cards(configs.take(k)) + i],
            names_at(configs, k, i),
            lib,
        )
}

/// Loading `configs` may be refused by the configurations: an entry is
/// refused where it is read, or a player card's rolled effects may leave
/// range.
pub open spec fn config_refusable(configs: Seq<(String, DisciplineConfig)>) -> bool {
    exists|k: int, i: int|
        #![trigger configs[k].1.cards@[i]]
        0 <= k < configs.len() && 0 <= i < configs[k].1.cards@.len() && (entry_refused(configs[k].1.cards@[i], names_at(configs, k, i))
            || configs[k].1.cards@[i] is PlayerCard)
}

proof fn lemma_total_cards_take(configs: Seq<(String, DisciplineConfig)>, k: int)
    requires
        0 <= k < configs.len(),
    ensures
        total_cards(configs.take(k + 1)) == total_cards(configs.take(k)) + configs[k].1.cards@.len(),
        names_through(configs.take(k + 1))
            == names_after(configs[k].0@, configs[k].1.cards@, total_cards(configs.take(k)), names_through(configs.take(k))),
{
    assert(configs.take(k + 1).drop_last() =~= configs.take(k));
}

proof fn lemma_total_cards_nonneg(configs: Seq<(String, DisciplineConfig)>)
    ensures
        total_cards(configs) >= 0,
    decreases configs.len(),
{
    if configs.len() > 0 {
        lemma_total_cards_nonneg(configs.drop_last());
    }
}

proof fn lemma_entry_kept(entry: CardEntry, idx: int, names: Seq<(Seq<char>, usize)>, lib0: Library, lib: Library)
    requires
        0 <= idx < lib0.cards@.len(),
        entry_loaded(entry, lib0.cards@[idx], names, lib0),
        names_below(names, lib0.cards@.len() as int),
        lib_extends(lib0, lib),
    ensures
        entry_loaded(entry, lib.cards@[idx], names, lib),
        names_below(names, lib.cards@.len() as int),
        idx < lib.cards@.len(),
{
    assert(lib.cards@.subrange(0, lib0.cards@.len() as int)[idx] == lib.cards@[idx]);
    lemma_entry_stable(entry, lib0.cards@[idx], names, lib0, lib);
}

/// The first `n` configurations are loaded into `lib`: each of their entries
/// made its card, and the names known there lie below the library's size.
#[verifier::opaque]
pub open spec fn loaded_prefix(configs: Seq<(String, DisciplineConfig)>, n: int, lib: Library) -> bool {
    forall|k2: int, i: int|
        #![trigger configs[k2].1.cards@[i]]
        0 <= k2 < n && 0 <= i < configs[k2].1.cards@.len() ==> {
            &&& entry_loaded(configs[k2].1.cards@[i], lib.cards@[total_cards(configs.take(k2)) + i], names_at(configs, k2, i), lib)
            &&& names_below(names_at(configs, k2, i), lib.cards@.len() as int)
            &&& total_cards(configs.take(k2)) + i < lib.cards@.len()
        }
}

#[verifier::rlimit(50)]
proof fn lemma_load_step(configs: Seq<(String, DisciplineConfig)>, k: int, lib0: Library, lib: Library, names0: Seq<(Seq<char>, usize)>)
    requires
        0 <= k < configs.len(),
        loaded_prefix(configs, k, lib0),
        lib0.cards@.len() == total_cards(configs.take(k)),
        names0 == names_through(configs.take(k)),
        names_below(names0, lib0.cards@.len() as int),
        lib.cards@.len() <= usize::MAX,
        lib.cards@.len() == lib0.cards@.len() + configs[k].1.cards@.len(),
        lib_extends(lib0, lib),
        forall|i: int| 0 <= i < configs[k].1.cards@.len() ==> entry_loaded(
            #[trigger] configs[k].1.cards@[i],
            lib.cards@[lib0.cards@.len() + i],
            names_after(configs[k].0@, configs[k].1.cards@.take(i), lib0.cards@.len() as int, names0),
            lib,
        ),
    ensures
        loaded_prefix(configs, k + 1, lib),
{
    reveal(loaded_prefix);
    assert forall|k2: int, i: int|
        #![trigger configs[k2].1.cards@[i]]
        0 <= k2 < k + 1 && 0 <= i < configs[k2].1.cards@.len() implies {
            &&& entry_loaded(configs[k2].1.cards@[i], lib.cards@[total_cards(configs.take(k2)) + i], names_at(configs, k2, i), lib)
            &&& names_below(names_at(configs, k2, i), lib.cards@.len() as int)
            &&& total_cards(configs.take(k2)) + i < lib.cards@.len()
        } by {
        if k2 < k {
            let idx = total_cards(configs.take(k2)) + i;
            lemma_total_cards_nonneg(configs.take(k2));
            lemma_entry_kept(configs[k2].1.cards@[i], idx, names_at(configs, k2, i), lib0, lib);
        } else {
            lemma_load_step_new(configs, k, lib0, lib, names0, i);
        }
    }
}

proof fn lemma_loaded_all(configs: Seq<(String, DisciplineConfig)>, lib: Library)
    requires
        loaded_prefix(configs, configs.len() as int, lib),
        lib.cards@.len() == total_cards(configs),
    ensures
        library_loaded(configs, lib),
{
    reveal(loaded_prefix);
}

/// The names known at an entry, from those known before its configuration.
proof fn lemma_names_at(configs: Seq<(String, DisciplineConfig)>, k: int, i: int, base: int, names0: Seq<(Seq<char>, usize)>)
    requires
        0 <= k < configs.len(),
        base == total_cards(configs.take(k)),
        names0 == names_through(configs.take(k)),
    ensures
        names_at(configs, k, i) == names_after(configs[k].0@, configs[k].1.cards@.take(i), base, names0),
{
    reveal(names_at);
}

/// An entry that loading refuses is refused where it is read, or a player card.
proof fn lemma_error_refusable(entry: CardEntry, names: Seq<(Seq<char>, usize)>, e: ConfigError)
    requires
        entry_error(entry, names, e),
    ensures
        entry_refused(entry, names) || entry is PlayerCard,
{
}

proof fn lemma_load_step_new(configs: Seq<(String, DisciplineConfig)>, k: int, lib0: Library, lib: Library, names0: Seq<(Seq<char>, usize)>, i: int)
    requires
        0 <= k < configs.len(),
        0 <= i < configs[k].1.cards@.len(),
        lib0.cards@.len() == total_cards(configs.take(k)),
        names0 == names_through(configs.take(k)),
        names_below(names0, lib0.cards@.len() as int),
        lib.cards@.len() <= usize::MAX,
        lib.cards@.len() == lib0.cards@.len() + configs[k].1.cards@.len(),
        entry_loaded(
            configs[k].1.cards@[i],
            lib.cards@[lib0.cards@.len() + i],
            names_after(configs[k].0@, configs[k].1.cards@.take(i), lib0.cards@.len() as int, names0),
            lib,
        ),
    ensures
        entry_loaded(configs[k].1.cards@[i], lib.cards@[total_cards(configs.take(k)) + i], names_at(configs, k, i), lib),
        names_below(names_at(configs, k, i), lib.cards@.len() as int),
        total_cards(configs.take(k)) + i < lib.cards@.len(),
{
    reveal(names_at);
    let base = lib0.cards@.len() as int;
    lemma_names_after_below(configs[k].0@, configs[k].1.cards@.take(i), base, names0);
    assert(configs[k].1.cards@.take(i).len() == i);
}

/// Load the library from discipline configurations, in order (shared effects
/// first), each under its prefix, then check every effect reference.
#[verifier::rlimit(50)]
pub fn load_library(rng: &mut Lcg64Xsh32, configs: &Vec<(String, DisciplineConfig)>) -> (r: Result<Library, LoadError>)
    ensures
        r matches Ok(lib) ==> {
            &&& lib.cards@.len() == total_cards(configs@)
            &&& library_loaded(configs@, lib)
            &&& all_rollable(lib)
            &&& library_errors(lib.cards@, lib.cards@.len() as int).len() == 0
        },
        r matches Err(LoadError::Config { prefix, error }) ==> exists|k: int, i: int|
            #![trigger configs@[k].1.cards@[i]]
            0 <= k < configs@.len() && 0 <= i < configs@[k].1.cards@.len() && configs@[k].0@ == prefix@
                && entry_error(configs@[k].1.cards@[i], names_at(configs@, k, i), error),
        r matches Err(LoadError::Validation { errors }) ==> errors@.len() > 0 && exists|lib: Library|
            library_loaded(configs@, lib) && errors@ == library_errors(lib.cards@, lib.cards@.len() as int),
        !config_refusable(configs@) && (forall|lib: Library| #[trigger] library_loaded(configs@, lib)
            ==> library_errors(lib.cards@, lib.cards@.len() as int).len() == 0) ==> r is Ok,
{
    let mut lib = Library::new();
    let mut name_map = EffectNameMap::new();
    let mut k: usize = 0;
    proof {
        assert(configs@.take(0) =~= Seq::<(String, DisciplineConfig)>::empty());
        assert forall|id: usize| template_rollable(#[trigger] template_of(lib, id)) by {}
        reveal(loaded_prefix);
    }
    while k < configs.len()
        invariant
            k <= configs@.len(),
            all_rollable(lib),
            names_below(name_map@, lib.cards@.len() as int),
            lib.cards@.len() == total_cards(configs@.take(k as int)),
            name_map@ == names_through(configs@.take(k as int)),
            loaded_prefix(configs@, k as int, lib),
        decreases configs@.len() - k,
    {
        let (prefix, config) = &configs[k];
        let ghost lib0 = lib;
        let ghost names0 = name_map@;
        proof {
            lemma_total_cards_take(configs@, k as int);
        }
        match load_discipline_config(&mut lib, rng, config, prefix.as_str(), &mut name_map) {
            Ok(()) => {},
            Err(error) => {
                proof {
                    let i = choose|i: int| 0 <= i < config.cards@.len() && entry_error(
                        #[trigger] config.cards@[i],
                        names_after(prefix@, config.cards@.take(i), lib0.cards@.len() as int, names0),
                        error,
                    );
                    assert(configs@[k as int].1.cards@[i] == config.cards@[i]);
                    lemma_names_at(configs@, k as int, i, lib0.cards@.len() as int, names0);
                    lemma_error_refusable(config.cards@[i], names_at(configs@, k as int, i), error);
                }
                return Err(LoadError::Config { prefix: prefix.clone(), error });
            },
        }
        let _ = lib.cards.len();
        proof {
            lemma_load_step(configs@, k as int, lib0, lib, names0);
        }
        k += 1;
    }
    assert(configs@.take(configs@.len() as int) =~= configs@);
    proof {
        lemma_loaded_all(configs@, lib);
    }
    match lib.validate_card_effects() {
        Ok(()) => Ok(lib),
        Err(errors) => Err(LoadError::Validation { errors }),
    }
}

} // verus!
