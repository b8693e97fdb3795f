//! Mining encounters: the player plays mining cards that raise the light and
//! turn mining power into yield; after each play the ore strikes back with a
//! random card of its hand. Concluding turns the yield into ore, paid for in
//! stamina, as far as the stamina goes.
use crate::library::concrete::template_of;
use crate::library::costs::{
    check_and_deduct_gathering_costs, deduct_b, preview_gathering_costs, deduct_fits, extract_gathering_costs_from_effects, gathering_costs,
    preview_result, balances_fit, totals_fit, all_affordable, Balances, CostError,
};
use crate::library::disciplines::combat::{fits, lemma_same_templates, max_int, same_templates};
use crate::library::game_state::{after_death_check, class_hand, counts_fit, draw_result, only_counts_moved, CardClass, GameState};
use crate::library::rolls::{
    deck_draw_random, deck_play_random, deck_shuffle_hand, lemma_same_cards_refl, lemma_sums_nonneg, lemma_total_fits_draw,
    same_cards, sum_deck, sum_discard, sum_hand, total_fits,
};
use crate::library::token_map::{bal, bset, get0, TokenMap};
use crate::library::types::{
    duplicate_ore_deck, effects_view, filter_durability, persistent_key, split_token_amounts, same_ore_cards, HasDeckCounts, CardEffectKind, CardEffectKindView, CardKind,
    ConcreteEffect, EncounterKind, EncounterOutcome, LibraryCard, EncounterPhase, EncounterState, MiningEncounterState, OreCard,
    Token, TokenKey, TokenType,
};
use crate::library::Library;
use rand_pcg::Lcg64Xsh32;
use vstd::prelude::*;

verus! {

/// Why a mining action was refused.
#[derive(Clone, Copy, Debug, PartialEq, Eq, Structural)]
pub enum MiningError {
    /// The library has no card with this id.
    CardNotFound { card_id: usize },
    /// The card is not a mining encounter.
    NotAMiningEncounter { card_id: usize },
    /// Only mining cards can be played in a mining encounter.
    NotAMiningCard { card_id: usize },
    /// No mining encounter is active (or it is already decided).
    NoActiveMining,
    /// The player cannot pay the card's costs.
    Cost(CostError),
}

/// The mining encounter in progress, if any.
pub open spec fn mining_of(enc: Option<EncounterState>) -> Option<MiningEncounterState> {
    match enc {
        Some(EncounterState::Mining(m)) => Some(m),
        _ => None,
    }
}

/// The encounter's light level counter.
pub open spec fn light_key() -> TokenKey {
    persistent_key(TokenType::MiningLightLevel)
}

/// The encounter's yield counter.
pub open spec fn yield_key() -> TokenKey {
    persistent_key(TokenType::MiningYield)
}

/// `a / 100`, rounded toward zero as integer division rounds.
pub open spec fn tdiv100(a: int) -> int {
    if a >= 0 {
        a / 100
    } else {
        -((-a) / 100)
    }
}

/// One mining effect of rolled value `v` applied to the player's (`p`) and
/// the encounter's (`m`) tokens: mining power adds `v * light / 100` to the
/// yield, light adds to the light level, another gain adds to the player's
/// counter of its type, insight to the player's insight. `None` where the
/// arithmetic leaves `i64`.
pub open spec fn mining_gain_one(p: Balances, m: Balances, v: int, k: Option<CardEffectKindView>) -> Option<(Balances, Balances)> {
    match k {
        Some(CardEffectKindView::GainTokens { token_type, .. }) => if token_type == TokenType::MiningPower {
            let light = get0(m.0, light_key());
            let y = get0(m.0, yield_key());
            let inc = tdiv100(v * light);
            if fits(v * light) && fits(y + inc) {
                Some((p, bset(m, yield_key(), (y + inc) as i64)))
            } else {
                None
            }
        } else if token_type == TokenType::MiningLightLevel {
            let l = get0(m.0, light_key());
            if fits(l + v) {
                Some((p, bset(m, light_key(), (l + v) as i64)))
            } else {
                None
            }
        } else {
            let key = persistent_key(token_type);
            let x = get0(p.0, key);
            if fits(x + v) {
                Some((bset(p, key, (x + v) as i64), m))
            } else {
                None
            }
        },
        Some(CardEffectKindView::Insight { .. }) => {
            let key = persistent_key(TokenType::Insight);
            let x = get0(p.0, key);
            if fits(x + v) {
                Some((bset(p, key, (x + v) as i64), m))
            } else {
                None
            }
        },
        _ => Some((p, m)),
    }
}

/// The mining effects applied one after the other.
pub open spec fn mining_gains(p: Balances, m: Balances, effects: Seq<ConcreteEffect>, lib: Library) -> Option<(Balances, Balances)>
    decreases effects.len(),
{
    if effects.len() == 0 {
        Some((p, m))
    } else {
        match mining_gain_one(p, m, effects[0].rolled_value as int, template_of(lib, effects[0].effect_id)) {
            Some((p1, m1)) => mining_gains(p1, m1, effects.drop_first(), lib),
            None => None,
        }
    }
}

/// The token an ore loss strikes: generic durability is the mining durability.
pub open spec fn ore_target(t: TokenType) -> TokenType {
    if t == TokenType::Durability {
        TokenType::MiningDurability
    } else {
        t
    }
}

/// One ore effect of rolled value `d`: a loss takes `d` off its target's
/// counter, down to zero at most: the encounter's light or yield, else the
/// player's counter. Other effects do nothing.
pub open spec fn ore_hit_one(p: Balances, m: Balances, d: int, k: Option<CardEffectKindView>) -> Option<(Balances, Balances)> {
    match k {
        Some(CardEffectKindView::LoseTokens { token_type, .. }) => {
            let rt = ore_target(token_type);
            let key = persistent_key(rt);
            if rt == TokenType::MiningLightLevel || rt == TokenType::MiningYield {
                let x = get0(m.0, key);
                if fits(x - d) {
                    Some((p, bset(m, key, max_int(x - d, 0) as i64)))
                } else {
                    None
                }
            } else {
                let x = get0(p.0, key);
                if fits(x - d) {
                    Some((bset(p, key, max_int(x - d, 0) as i64), m))
                } else {
                    None
                }
            }
        },
        _ => Some((p, m)),
    }
}

/// The ore card's effects applied one after the other.
pub open spec fn ore_hits(p: Balances, m: Balances, effects: Seq<ConcreteEffect>, lib: Library) -> Option<(Balances, Balances)>
    decreases effects.len(),
{
    if effects.len() == 0 {
        Some((p, m))
    } else {
        match ore_hit_one(p, m, effects[0].rolled_value as int, template_of(lib, effects[0].effect_id)) {
            Some((p1, m1)) => ore_hits(p1, m1, effects.drop_first(), lib),
            None => None,
        }
    }
}

fn apply_mining_gain(p: &mut TokenMap, m: &mut TokenMap, effect: &ConcreteEffect, library: &Library)
    requires
        mining_gain_one(bal(*old(p)), bal(*old(m)), effect.rolled_value as int, template_of(*library, effect.effect_id)) is Some,
    ensures
        (bal(*final(p)), bal(*final(m))) == mining_gain_one(bal(*old(p)), bal(*old(m)), effect.rolled_value as int,
            template_of(*library, effect.effect_id))->Some_0,
{
    proof {
        crate::library::costs::lemma_bal_facts(*p);
        crate::library::costs::lemma_bal_facts(*m);
    }
    match library.effect_kind(effect.effect_id) {
        Some(CardEffectKind::GainTokens { token_type, .. }) => {
            if *token_type == TokenType::MiningPower {
                let light = m.value(&Token::persistent(TokenType::MiningLightLevel));
                let prod = effect.rolled_value as i128 * light as i128;
                let inc: i128 = if prod >= 0 { prod / 100 } else { 0 - ((0 - prod) / 100) };
                let y = m.value(&Token::persistent(TokenType::MiningYield));
                m.insert(Token::persistent(TokenType::MiningYield), (y as i128 + inc) as i64);
            } else if *token_type == TokenType::MiningLightLevel {
                let l = m.value(&Token::persistent(TokenType::MiningLightLevel));
                m.insert(Token::persistent(TokenType::MiningLightLevel), l + effect.rolled_value);
            } else {
                let x = p.value(&Token::persistent(*token_type));
                p.insert(Token::persistent(*token_type), x + effect.rolled_value);
            }
        },
        Some(CardEffectKind::Insight { .. }) => {
            let x = p.value(&Token::persistent(TokenType::Insight));
            p.insert(Token::persistent(TokenType::Insight), x + effect.rolled_value);
        },
        _ => {},
    }
}

fn apply_ore_hit(p: &mut TokenMap, m: &mut TokenMap, effect: &ConcreteEffect, library: &Library)
    requires
        ore_hit_one(bal(*old(p)), bal(*old(m)), effect.rolled_value as int, template_of(*library, effect.effect_id)) is Some,
    ensures
        (bal(*final(p)), bal(*final(m))) == ore_hit_one(bal(*old(p)), bal(*old(m)), effect.rolled_value as int,
            template_of(*library, effect.effect_id))->Some_0,
{
    proof {
        crate::library::costs::lemma_bal_facts(*p);
        crate::library::costs::lemma_bal_facts(*m);
    }
    match library.effect_kind(effect.effect_id) {
        Some(CardEffectKind::LoseTokens { token_type, .. }) => {
            let rt = if *token_type == TokenType::Durability { TokenType::MiningDurability } else { *token_type };
            let key = Token::persistent(rt);
            if rt == TokenType::MiningLightLevel || rt == TokenType::MiningYield {
                let x = m.value(&key);
                let left = x - effect.rolled_value;
                m.insert(key, if left > 0 { left } else { 0 });
            } else {
                let x = p.value(&key);
                let left = x - effect.rolled_value;
                p.insert(key, if left > 0 { left } else { 0 });
            }
        },
        _ => {},
    }
}

/// An ore deck dealt from its definition: the same cards with the same
/// numbers of copies, however they are spread over deck, hand and discard,
/// and the same totals per pile.
pub open spec fn ore_deck_from_def(d: Seq<OreCard>, def: Seq<OreCard>) -> bool {
    &&& d.len() == def.len()
    &&& forall|i: int| 0 <= i < d.len() ==> {
        &&& (#[trigger] d[i]).damages@ == def[i].damages@
        &&& effects_view(d[i].effects@) == effects_view(def[i].effects@)
        &&& crate::library::rolls::copies(d[i].counts) == crate::library::rolls::copies(def[i].counts)
    }
    &&& sum_deck(d) == sum_deck(def)
    &&& sum_hand(d) == sum_hand(def)
    &&& sum_discard(d) == sum_discard(def)
}

proof fn lemma_sums_same_ore_counts(a: Seq<OreCard>, b: Seq<OreCard>)
    requires
        a.len() == b.len(),
        forall|i: int| 0 <= i < a.len() ==> (#[trigger] a[i]).counts == b[i].counts,
    ensures
        sum_deck(a) == sum_deck(b),
        sum_hand(a) == sum_hand(b),
        sum_discard(a) == sum_discard(b),
    decreases a.len(),
{
    if a.len() > 0 {
        lemma_sums_same_ore_counts(a.drop_last(), b.drop_last());
        assert(a[a.len() - 1].counts == b[b.len() - 1].counts);
    }
}

/// The encounter tokens a mining encounter starts with: the light level and a
/// zero yield, nothing else.
pub open spec fn start_tokens(m: TokenMap, light: i64) -> bool {
    &&& m.spec_get(light_key()) == Some(light)
    &&& m.spec_get(yield_key()) == Some(0i64)
    &&& forall|k: TokenKey| k != light_key() && k != yield_key() ==> #[trigger] m.spec_get(k) is None
}

/// Concluding the mining encounter of `s` stays in range: the stamina paid
/// for the yield and the ore gained.
pub open spec fn mining_conclude_fits(s: GameState) -> bool {
    match mining_of(s.current_encounter) {
        Some(st) => st.outcome == EncounterOutcome::Undecided ==> {
            let y = st.encounter_tokens.spec_value(yield_key());
            let stamina = s.token_balances.spec_value(persistent_key(TokenType::Stamina));
            let reward = if stamina <= y { stamina } else { y };
            &&& fits(stamina - reward)
            &&& fits(s.token_balances.spec_value(persistent_key(TokenType::Ore)) + reward)
            &&& s.token_balances.spec_value(persistent_key(TokenType::PlayerDeaths)) < i64::MAX
        },
        None => true,
    }
}

/// The mining encounter `st` of `s` concluded, giving `t`: the yield, at most
/// the stamina held, is paid in stamina and gained as ore, death is checked,
/// and the encounter is won.
pub open spec fn mining_concluded(s: GameState, t: GameState, st: MiningEncounterState) -> bool {
    let p = bal(s.token_balances);
    let y = get0(bal(st.encounter_tokens).0, yield_key());
    let stamina = get0(p.0, persistent_key(TokenType::Stamina));
    let reward = if stamina <= y { stamina } else { y };
    let p1 = if p.0.contains_key(persistent_key(TokenType::Stamina)) {
        bset(p, persistent_key(TokenType::Stamina), (stamina - reward) as i64)
    } else {
        p
    };
    let p2 = bset(p1, persistent_key(TokenType::Ore), (get0(p1.0, persistent_key(TokenType::Ore)) + reward) as i64);
    &&& bal(t.token_balances) == after_death_check(p2, s.game_rules.general)
    &&& t.current_encounter is None
    &&& t.encounter_phase == EncounterPhase::Scouting
    &&& t.encounter_results@ == s.encounter_results@.push(EncounterOutcome::PlayerWon)
    &&& t.library == s.library
}

impl GameState {
    /// Initialize a mining encounter from a library encounter card: the ore
    /// deck is dealt from the definition with its hand drawn anew, the light
    /// starts at the configured level and the yield at zero.
    pub fn start_mining_encounter(&mut self, encounter_card_id: usize, rng: &mut Lcg64Xsh32) -> (r: Result<(), MiningError>)
        requires
            encounter_card_id < old(self).library.cards@.len() ==> match old(self).library.cards@[encounter_card_id as int].kind {
                CardKind::Encounter { encounter_kind: EncounterKind::Mining { mining_def } } => total_fits(mining_def.ore_deck@),
                _ => true,
            },
        ensures
            encounter_card_id >= old(self).library.cards@.len() ==> r == Err::<(), MiningError>(MiningError::CardNotFound { card_id: encounter_card_id })
                && *final(self) == *old(self),
            encounter_card_id < old(self).library.cards@.len() ==> match old(self).library.cards@[encounter_card_id as int].kind {
                CardKind::Encounter { encounter_kind: EncounterKind::Mining { mining_def } } => {
                    &&& r is Ok
                    &&& mining_of(final(self).current_encounter) matches Some(st) && {
                        &&& st.round == 1
                        &&& st.encounter_card_id == encounter_card_id
                        &&& st.outcome == EncounterOutcome::Undecided
                        &&& ore_deck_from_def(st.ore_deck@, mining_def.ore_deck@)
                        &&& start_tokens(st.encounter_tokens, mining_def.initial_light_level)
                    }
                    &&& final(self).encounter_phase == EncounterPhase::InEncounter
                    &&& final(self).token_balances == old(self).token_balances
                    &&& final(self).library == old(self).library
                    &&& final(self).encounter_results@ == old(self).encounter_results@
                    &&& final(self).game_rules == old(self).game_rules
                },
                _ => r == Err::<(), MiningError>(MiningError::NotAMiningEncounter { card_id: encounter_card_id }) && *final(self) == *old(self),
            },
    {
        if encounter_card_id >= self.library.cards.len() {
            return Err(MiningError::CardNotFound { card_id: encounter_card_id });
        }
        let (light, mut ore_deck) = match &self.library.cards[encounter_card_id].kind {
            CardKind::Encounter { encounter_kind: EncounterKind::Mining { mining_def } } => {
                (mining_def.initial_light_level, duplicate_ore_deck(&mining_def.ore_deck))
            },
            _ => {
                return Err(MiningError::NotAMiningEncounter { card_id: encounter_card_id });
            },
        };
        let ghost def = match self.library.cards@[encounter_card_id as int].kind {
            CardKind::Encounter { encounter_kind: EncounterKind::Mining { mining_def } } => mining_def.ore_deck@,
            _ => Seq::empty(),
        };
        let ghost dealt = ore_deck@;
        proof {
            lemma_sums_same_ore_counts(dealt, def);
        }
        deck_shuffle_hand(rng, &mut ore_deck);
        proof {
            assert forall|i: int| 0 <= i < ore_deck@.len() implies {
                &&& (#[trigger] ore_deck@[i]).damages@ == def[i].damages@
                &&& effects_view(ore_deck@[i].effects@) == effects_view(def[i].effects@)
                &&& crate::library::rolls::copies(ore_deck@[i].counts) == crate::library::rolls::copies(def[i].counts)
            } by {
                assert(ore_deck@[i] == dealt[i].with_counts(ore_deck@[i].spec_counts()));
                assert(crate::library::rolls::copies(ore_deck@[i].spec_counts()) == crate::library::rolls::copies(dealt[i].spec_counts()));
            }
        }
        let mut tokens = TokenMap::new();
        tokens.insert(Token::persistent(TokenType::MiningLightLevel), light);
        tokens.insert(Token::persistent(TokenType::MiningYield), 0);
        let state = MiningEncounterState {
            round: 1,
            encounter_card_id,
            outcome: EncounterOutcome::Undecided,
            ore_deck,
            encounter_tokens: tokens,
        };
        self.current_encounter = Some(EncounterState::Mining(state));
        self.encounter_phase = EncounterPhase::InEncounter;
        Ok(())
    }

    /// Close the mining encounter with this outcome: it is recorded, scouting
    /// follows, and a player left without health dies.
    fn finish_mining_encounter(&mut self, is_win: bool)
        requires
            old(self).token_balances.spec_value(persistent_key(TokenType::PlayerDeaths)) < i64::MAX,
        ensures
            ({
                let o = if is_win { EncounterOutcome::PlayerWon } else { EncounterOutcome::PlayerLost };
                &&& final(self).last_encounter_result == Some(o)
                &&& final(self).encounter_results@ == old(self).encounter_results@.push(o)
            }),
            final(self).current_encounter is None,
            final(self).encounter_phase == EncounterPhase::Scouting,
            bal(final(self).token_balances) == after_death_check(bal(old(self).token_balances), old(self).game_rules.general),
            final(self).library == old(self).library,
            final(self).game_rules == old(self).game_rules,
    {
        let outcome = if is_win { EncounterOutcome::PlayerWon } else { EncounterOutcome::PlayerLost };
        self.last_encounter_result = Some(outcome);
        self.encounter_results.push(outcome);
        self.current_encounter = None;
        self.encounter_phase = EncounterPhase::Scouting;
        self.check_player_death();
    }

    /// Conclude a mining encounter: the reward is the yield, as far as the
    /// player's stamina pays for it (the lesser of the two); the stamina is
    /// spent (where the player has a stamina counter) and the reward added to
    /// the ore, and the encounter is won.
    pub fn conclude_mining_encounter(&mut self) -> (r: Result<(), MiningError>)
        requires
            mining_conclude_fits(*old(self)),
        ensures
            match mining_of(old(self).current_encounter) {
                Some(st) if st.outcome == EncounterOutcome::Undecided => r is Ok && mining_concluded(*old(self), *final(self), st),
                _ => r == Err::<(), MiningError>(MiningError::NoActiveMining) && *final(self) == *old(self),
            },
    {
        let y = match &self.current_encounter {
            Some(EncounterState::Mining(m)) => {
                if m.outcome != EncounterOutcome::Undecided {
                    return Err(MiningError::NoActiveMining);
                }
                m.encounter_tokens.value(&Token::persistent(TokenType::MiningYield))
            },
            _ => {
                return Err(MiningError::NoActiveMining);
            },
        };
        proof {
            crate::library::costs::lemma_bal_facts(self.token_balances);
            crate::library::costs::lemma_bal_facts(mining_of(self.current_encounter)->Some_0.encounter_tokens);
        }
        let stamina_key = Token::persistent(TokenType::Stamina);
        let stamina = self.token_balances.value(&stamina_key);
        let reward = if stamina <= y { stamina } else { y };
        if let Some(s) = self.token_balances.get(&stamina_key) {
            self.token_balances.insert(stamina_key, s - reward);
        }
        proof {
            crate::library::costs::lemma_bal_facts(self.token_balances);
        }
        let ore_key = Token::persistent(TokenType::Ore);
        let ore = self.token_balances.value(&ore_key);
        self.token_balances.insert(ore_key, ore + reward);
        proof {
            crate::library::costs::lemma_bal_facts(self.token_balances);
        }
        self.finish_mining_encounter(true);
        Ok(())
    }
}

/// The effects of a mining card, if it is one.
pub open spec fn mining_effects(k: CardKind) -> Option<Seq<ConcreteEffect>> {
    match k {
        CardKind::Mining { effects } => Some(effects@),
        _ => None,
    }
}

/// Why resolving mining card `id` is refused, if it is.
pub open spec fn mining_play_error(s: GameState, id: usize) -> Option<MiningError> {
    if id >= s.library.cards@.len() {
        Some(MiningError::CardNotFound { card_id: id })
    } else if mining_effects(s.library.cards@[id as int].kind) is None {
        Some(MiningError::NotAMiningCard { card_id: id })
    } else if mining_of(s.current_encounter) is None {
        Some(MiningError::NoActiveMining)
    } else {
        match preview_result(gathering_costs(mining_effects(s.library.cards@[id as int].kind)->Some_0), s.token_balances) {
            Err(e) => Some(MiningError::Cost(e)),
            Ok(_) => None,
        }
    }
}

/// A mining card whose pre-play costs (those not paid in durability) the
/// player cannot pay from balances `b`; a card without such costs is always
/// playable.
pub open spec fn mining_card_unpayable(c: LibraryCard, b: Balances) -> bool {
    match mining_effects(c.kind) {
        Some(effs) => {
            let pre = filter_durability(gathering_costs(effs), false);
            pre.len() > 0 && !all_affordable(pre, b)
        },
        None => false,
    }
}

/// A mining card with a copy in hand.
pub open spec fn is_mining_hand_card(c: LibraryCard) -> bool {
    c.counts.hand > 0 && mining_effects(c.kind) is Some
}

/// The player holds mining cards in hand and can pay for none of them.
pub open spec fn all_mining_unpayable(cards: Seq<LibraryCard>, b: Balances) -> bool {
    &&& exists|i: int| 0 <= i < cards.len() && is_mining_hand_card(#[trigger] cards[i])
    &&& forall|i: int| 0 <= i < cards.len() && is_mining_hand_card(#[trigger] cards[i]) ==> mining_card_unpayable(cards[i], b)
}

/// The balances after the ore's play: unchanged when the ore had no card to
/// play, else after the hits of the ore card played.
pub open spec fn ore_result(st: MiningEncounterState, p: Balances, m: Balances, o: Option<usize>, lib: Library) -> (Balances, Balances) {
    match o {
        None => (p, m),
        Some(i) => ore_hits(p, m, st.ore_deck@[i as int].effects@, lib)->Some_0,
    }
}

/// The ore's play: no card where its hand and discard are empty, else one of its cards.
pub open spec fn ore_choice(st: MiningEncounterState, o: Option<usize>) -> bool {
    match o {
        None => sum_hand(st.ore_deck@) == 0 && sum_discard(st.ore_deck@) == 0,
        Some(i) => i < st.ore_deck@.len(),
    }
}

/// How a mining play ends, with `p` and `m` the balances after the ore's play:
/// either lost (the encounter is closed, a death checked) or going on.
pub open spec fn mining_end(s: GameState, t: GameState, st: MiningEncounterState, p: Balances, m: Balances) -> bool {
    if t.current_encounter is None {
        &&& t.encounter_phase == EncounterPhase::Scouting
        &&& t.encounter_results@ == s.encounter_results@.push(EncounterOutcome::PlayerLost)
        &&& t.last_encounter_result == Some(EncounterOutcome::PlayerLost)
        &&& bal(t.token_balances) == after_death_check(p, s.game_rules.general)
    } else {
        &&& mining_of(t.current_encounter) matches Some(st2) && {
            &&& st2.encounter_card_id == st.encounter_card_id
            &&& st2.outcome == st.outcome
            &&& bal(st2.encounter_tokens) == m
        }
        &&& bal(t.token_balances) == p
        &&& t.encounter_phase == s.encounter_phase
        &&& t.encounter_results@ == s.encounter_results@
        &&& t.last_encounter_result == s.last_encounter_result
    }
}

/// What a mining play needs to stay in range, given the balances after the
/// card's own effects: every possible ore play and what follows it.
pub open spec fn ore_play_fits(st: MiningEncounterState, p: Balances, m: Balances, lib: Library) -> bool {
    &&& totals_fit(p)
    &&& get0(p.0, persistent_key(TokenType::PlayerDeaths)) < i64::MAX
    &&& total_fits(st.ore_deck@)
    &&& st.round < u64::MAX
    &&& forall|i: int| 0 <= i < st.ore_deck@.len() ==> (ore_hits(p, m, (#[trigger] st.ore_deck@[i]).effects@, lib) matches Some(pm) && {
        &&& totals_fit(pm.0)
        &&& get0(pm.0.0, persistent_key(TokenType::PlayerDeaths)) < i64::MAX
    })
}

proof fn lemma_total_fits_kept(a: Seq<OreCard>, b: Seq<OreCard>)
    requires
        total_fits(b),
        sum_deck(a) + sum_hand(a) + sum_discard(a) == sum_deck(b) + sum_hand(b) + sum_discard(b),
    ensures
        total_fits(a),
{
}

impl GameState {
    /// The ore plays a random card of its hand (taking its discard back when
    /// the hand is empty): the card's losses strike the player or the
    /// encounter's light and yield, then the ore draws a card. A player whose
    /// mining durability is gone loses the encounter.
    fn resolve_ore_play(&mut self, rng: &mut Lcg64Xsh32) -> (r: Option<usize>)
        requires
            mining_of(old(self).current_encounter) matches Some(st)
                && ore_play_fits(st, bal(old(self).token_balances), bal(st.encounter_tokens), old(self).library),
        ensures
            ({
                let st = mining_of(old(self).current_encounter)->Some_0;
                let (p2, m2) = ore_result(st, bal(old(self).token_balances), bal(st.encounter_tokens), r, old(self).library);
                &&& ore_choice(st, r)
                &&& mining_end(*old(self), *final(self), st, p2, m2)
                &&& (final(self).current_encounter is None <==> (r is Some && get0(p2.0, persistent_key(TokenType::MiningDurability)) <= 0))
                &&& final(self).current_encounter is Some ==> mining_of(final(self).current_encounter)->Some_0.round
                    == st.round + (if r is Some { 1int } else { 0int })
                &&& final(self).current_encounter is Some ==> total_fits(mining_of(final(self).current_encounter)->Some_0.ore_deck@)
            }),
            final(self).library == old(self).library,
            final(self).game_rules == old(self).game_rules,
    {
        let ghost s0 = *self;
        let ghost st0 = mining_of(self.current_encounter)->Some_0;
        let enc = self.current_encounter.take();
        let mut st = match enc {
            Some(EncounterState::Mining(st)) => st,
            _ => {
                proof {
                    assert(false);
                }
                return None;
            },
        };
        proof {
            lemma_total_fits_draw(st.ore_deck@);
            lemma_sums_nonneg(st.ore_deck@);
        }
        let played = deck_play_random(rng, &mut st.ore_deck);
        let idx = match played {
            Some(i) => i,
            None => {
                self.current_encounter = Some(EncounterState::Mining(st));
                return None;
            },
        };
        st.round = st.round + 1;
        let ghost deck_after_play = st.ore_deck@;
        proof {
            assert(deck_after_play[idx as int] == st0.ore_deck@[idx as int].with_counts(deck_after_play[idx as int].spec_counts()));
            assert(deck_after_play[idx as int].effects == st0.ore_deck@[idx as int].effects);
            lemma_total_fits_kept(deck_after_play, st0.ore_deck@);
            lemma_total_fits_draw(deck_after_play);
        }
        let ghost total = ore_hits(bal(self.token_balances), bal(st.encounter_tokens), st0.ore_deck@[idx as int].effects@, self.library);
        let n = st.ore_deck[idx].effects.len();
        let mut i: usize = 0;
        assert(st0.ore_deck@[idx as int].effects@.subrange(0, n as int) =~= st0.ore_deck@[idx as int].effects@);
        while i < n
            invariant
                i <= n,
                n == st0.ore_deck@[idx as int].effects@.len(),
                st.ore_deck@ == deck_after_play,
                deck_after_play[idx as int].effects == st0.ore_deck@[idx as int].effects,
                idx < deck_after_play.len(),
                total is Some,
                total == ore_hits(bal(self.token_balances), bal(st.encounter_tokens),
                    st0.ore_deck@[idx as int].effects@.subrange(i as int, n as int), self.library),
                self.library == s0.library,
                self.game_rules == s0.game_rules,
                self.encounter_phase == s0.encounter_phase,
                self.encounter_results == s0.encounter_results,
                self.last_encounter_result == s0.last_encounter_result,
                self.current_encounter is None,
                st.encounter_card_id == st0.encounter_card_id,
                st.outcome == st0.outcome,
                st.round == st0.round + 1,
            decreases n - i,
        {
            let ghost rest = st0.ore_deck@[idx as int].effects@.subrange(i as int, n as int);
            proof {
                assert(rest[0] == st0.ore_deck@[idx as int].effects@[i as int]);
                assert(rest.drop_first() =~= st0.ore_deck@[idx as int].effects@.subrange(i + 1, n as int));
            }
            apply_ore_hit(&mut self.token_balances, &mut st.encounter_tokens, &st.ore_deck[idx].effects[i], &self.library);
            i += 1;
        }
        proof {
            assert(st0.ore_deck@[idx as int].effects@.subrange(n as int, n as int) =~= Seq::<ConcreteEffect>::empty());
        }
        let ghost deck_before_draw = st.ore_deck@;
        deck_draw_random(rng, &mut st.ore_deck);
        proof {
            lemma_sums_nonneg(deck_before_draw);
            lemma_total_fits_kept(st.ore_deck@, deck_before_draw);
        }
        self.current_encounter = Some(EncounterState::Mining(st));
        let durability = self.token_balances.value(&Token::persistent(TokenType::MiningDurability));
        proof {
            crate::library::costs::lemma_bal_facts(self.token_balances);
        }
        if durability <= 0 {
            self.finish_mining_encounter(false);
        }
        Some(idx)
    }
}


impl GameState {
    /// Whether the player holds mining cards in hand and can pay the costs of
    /// none of them (a card without costs is always playable).
    fn all_mining_hand_cards_unpayable(&self) -> (r: bool)
        requires
            balances_fit(self.token_balances),
        ensures
            r == all_mining_unpayable(self.library.cards@, bal(self.token_balances)),
    {
        let cards = &self.library.cards;
        let mut any = false;
        let mut i: usize = 0;
        while i < cards.len()
            invariant
                i <= cards.len(),
                cards@ == self.library.cards@,
                balances_fit(self.token_balances),
                any == exists|j: int| 0 <= j < i && is_mining_hand_card(#[trigger] cards@[j]),
                forall|j: int| 0 <= j < i && is_mining_hand_card(#[trigger] cards@[j])
                    ==> mining_card_unpayable(cards@[j], bal(self.token_balances)),
            decreases cards.len() - i,
        {
            let card = &cards[i];
            if card.counts.hand > 0 {
                if let CardKind::Mining { effects } = &card.kind {
                    any = true;
                    let all_costs = extract_gathering_costs_from_effects(effects.as_slice());
                    let (costs, _) = split_token_amounts(all_costs.as_slice());
                    if costs.len() == 0 {
                        proof {
                            assert(is_mining_hand_card(cards@[i as int]));
                        }
                        return false;
                    }
                    let ok = preview_gathering_costs(costs.as_slice(), &self.token_balances).is_ok();
                    proof {
                        crate::library::costs::lemma_preview_ok(costs@, self.token_balances);
                    }
                    if ok {
                        proof {
                            assert(is_mining_hand_card(cards@[i as int]));
                        }
                        return false;
                    }
                }
            }
            i += 1;
        }
        any
    }
}

/// How a mining play ends, with `pm` the balances after the ore's play (of a
/// card where `hit`): lost where the mining durability is gone after a hit or
/// every mining card in hand (after the draw) is unpayable, and then the
/// encounter is closed and a death checked; else going on.
pub open spec fn mining_play_end(s: GameState, t: GameState, st: MiningEncounterState, pm: (Balances, Balances), hit: bool) -> bool {
    let p = pm.0;
    if (hit && get0(p.0, persistent_key(TokenType::MiningDurability)) <= 0) || all_mining_unpayable(t.library.cards@, p) {
        &&& t.current_encounter is None
        &&& t.encounter_phase == EncounterPhase::Scouting
        &&& t.encounter_results@ == s.encounter_results@.push(EncounterOutcome::PlayerLost)
        &&& t.last_encounter_result == Some(EncounterOutcome::PlayerLost)
        &&& bal(t.token_balances) == after_death_check(p, s.game_rules.general)
    } else {
        &&& mining_of(t.current_encounter) matches Some(st2) && {
            &&& st2.encounter_card_id == st.encounter_card_id
            &&& st2.outcome == st.outcome
            &&& st2.round == st.round + (if hit { 1int } else { 0int })
            &&& bal(st2.encounter_tokens) == pm.1
            &&& total_fits(st2.ore_deck@)
        }
        &&& bal(t.token_balances) == p
        &&& t.encounter_phase == s.encounter_phase
        &&& t.encounter_results@ == s.encounter_results@
        &&& t.last_encounter_result == s.last_encounter_result
    }
}

/// The balances after paying for mining card `id` and applying its effects.
pub open spec fn mining_play_gains(s: GameState, id: usize) -> Option<(Balances, Balances)> {
    let effs = mining_effects(s.library.cards@[id as int].kind)->Some_0;
    let st = mining_of(s.current_encounter)->Some_0;
    mining_gains(deduct_b(bal(s.token_balances), gathering_costs(effs)), bal(st.encounter_tokens), effs, s.library)
}

/// What playing mining card `id` needs to stay in range: paying its costs,
/// applying its effects and every possible ore play after them.
pub open spec fn mining_play_fits(s: GameState, id: usize) -> bool {
    let effs = mining_effects(s.library.cards@[id as int].kind)->Some_0;
    let st = mining_of(s.current_encounter)->Some_0;
    &&& deduct_fits(gathering_costs(effs), s.token_balances)
    &&& mining_play_gains(s, id) matches Some(pm) && ore_play_fits(st, pm.0, pm.1, s.library)
}

/// What playing mining card `id` in state `s` gives, `t`, with `cards` the
/// library before the player's draw: the card's costs and effects, the ore's
/// play (of some card of its hand) and its end (see `mining_play_end`), and
/// one mining card drawn.
pub open spec fn mining_played(s: GameState, t: GameState, id: usize, cards: Seq<LibraryCard>) -> bool {
    let st = mining_of(s.current_encounter)->Some_0;
    let pm = mining_play_gains(s, id)->Some_0;
    &&& draw_result(cards, t.library.cards@, CardClass::Mining, 1)
    &&& t.game_rules == s.game_rules
    &&& exists|o: Option<usize>| #[trigger] ore_choice(st, o)
        && mining_play_end(s, t, st, ore_result(st, pm.0, pm.1, o, s.library), o is Some)
}

impl GameState {
    /// Resolve a player mining card against the current mining encounter: its
    /// costs are paid, its effects applied (mining power to the yield, light
    /// to the light level, other gains and insight to the player), then the
    /// ore plays, the player draws a mining card, and the encounter is lost
    /// where the mining durability is gone or no mining card in hand can be
    /// paid for.
    pub fn resolve_player_mining_card(&mut self, card_id: usize, rng: &mut Lcg64Xsh32) -> (r: Result<(), MiningError>)
        requires
            balances_fit(old(self).token_balances),
            counts_fit(old(self).library.cards@),
            class_hand(old(self).library.cards@, CardClass::Mining) < u32::MAX,
            mining_play_error(*old(self), card_id) is None ==> mining_play_fits(*old(self), card_id),
        ensures
            mining_play_error(*old(self), card_id) matches Some(e) ==> r == Err::<(), MiningError>(e) && *final(self) == *old(self),
            mining_play_error(*old(self), card_id) is None ==> r is Ok
                && mining_played(*old(self), *final(self), card_id, old(self).library.cards@),
    {
        let ghost s0 = *self;
        if card_id >= self.library.cards.len() {
            return Err(MiningError::CardNotFound { card_id });
        }
        let effects = match &self.library.cards[card_id].kind {
            CardKind::Mining { effects } => effects,
            _ => {
                return Err(MiningError::NotAMiningCard { card_id });
            },
        };
        match &self.current_encounter {
            Some(EncounterState::Mining(_)) => {},
            _ => {
                return Err(MiningError::NoActiveMining);
            },
        }
        let costs = extract_gathering_costs_from_effects(effects.as_slice());
        match check_and_deduct_gathering_costs(costs.as_slice(), &mut self.token_balances) {
            Err(e) => {
                return Err(MiningError::Cost(e));
            },
            Ok(()) => {},
        }
        let ghost st0 = mining_of(self.current_encounter)->Some_0;
        let mut st = match self.current_encounter.take() {
            Some(EncounterState::Mining(st)) => st,
            _ => {
                proof {
                    assert(false);
                }
                return Err(MiningError::NoActiveMining);
            },
        };
        let ghost total = mining_play_gains(s0, card_id);
        let n = effects.len();
        let mut i: usize = 0;
        assert(effects@.subrange(0, n as int) =~= effects@);
        while i < n
            invariant
                i <= n,
                n == effects@.len(),
                mining_effects(s0.library.cards@[card_id as int].kind) == Some(effects@),
                total is Some,
                total == mining_gains(bal(self.token_balances), bal(st.encounter_tokens), effects@.subrange(i as int, n as int), self.library),
                self.library == s0.library,
                self.game_rules == s0.game_rules,
                self.encounter_phase == s0.encounter_phase,
                self.encounter_results == s0.encounter_results,
                self.last_encounter_result == s0.last_encounter_result,
                self.current_encounter is None,
                st.encounter_card_id == st0.encounter_card_id,
                st.outcome == st0.outcome,
                st.round == st0.round,
                st.ore_deck == st0.ore_deck,
            decreases n - i,
        {
            let ghost rest = effects@.subrange(i as int, n as int);
            proof {
                assert(rest[0] == effects@[i as int]);
                assert(rest.drop_first() =~= effects@.subrange(i + 1, n as int));
            }
            apply_mining_gain(&mut self.token_balances, &mut st.encounter_tokens, &effects[i], &self.library);
            i += 1;
        }
        proof {
            assert(effects@.subrange(n as int, n as int) =~= Seq::<ConcreteEffect>::empty());
        }
        self.current_encounter = Some(EncounterState::Mining(st));
        let ghost s1 = *self;
        let ghost st1 = mining_of(self.current_encounter)->Some_0;
        let ghost pm = mining_play_gains(s0, card_id)->Some_0;
        let played = self.resolve_ore_play(rng);
        let ghost s2 = *self;
        let ghost pm2 = ore_result(st1, pm.0, pm.1, played, s0.library);
        proof {
            crate::library::costs::lemma_bal_facts(self.token_balances);
            assert(ore_result(st0, pm.0, pm.1, played, s0.library) == pm2);
            if let Some(k) = played {
                assert(st1.ore_deck@[k as int] == st1.ore_deck@[k as int]);
            }
            assert(totals_fit(pm2.0));
            assert(bal(self.token_balances).1[TokenType::MiningMaxHand] == pm2.0.1[TokenType::MiningMaxHand]);
        }
        self.draw_player_cards_of_kind(1, CardClass::Mining, rng, Some(TokenType::MiningMaxHand));
        proof {
            assert(mining_end(s1, s2, st1, pm2.0, pm2.1));
        }
        if self.current_encounter.is_some() {
            proof {
                crate::library::costs::lemma_bal_facts(self.token_balances);
            }
            if self.all_mining_hand_cards_unpayable() {
                self.finish_mining_encounter(false);
            }
        }
        proof {
            assert(ore_choice(st0, played));
            assert(mining_play_end(s0, *self, st0, pm2, played is Some));
        }
        Ok(())
    }
}

proof fn lemma_mining_gains_cong(p: Balances, m: Balances, effs: Seq<ConcreteEffect>, a: Library, b: Library)
    requires
        same_templates(a, b),
    ensures
        mining_gains(p, m, effs, a) == mining_gains(p, m, effs, b),
    decreases effs.len(),
{
    if effs.len() > 0 {
        assert(template_of(a, effs[0].effect_id) == template_of(b, effs[0].effect_id));
        match mining_gain_one(p, m, effs[0].rolled_value as int, template_of(a, effs[0].effect_id)) {
            Some((p1, m1)) => lemma_mining_gains_cong(p1, m1, effs.drop_first(), a, b),
            None => {},
        }
    }
}

proof fn lemma_ore_hits_cong(p: Balances, m: Balances, effs: Seq<ConcreteEffect>, a: Library, b: Library)
    requires
        same_templates(a, b),
    ensures
        ore_hits(p, m, effs, a) == ore_hits(p, m, effs, b),
    decreases effs.len(),
{
    if effs.len() > 0 {
        assert(template_of(a, effs[0].effect_id) == template_of(b, effs[0].effect_id));
        match ore_hit_one(p, m, effs[0].rolled_value as int, template_of(a, effs[0].effect_id)) {
            Some((p1, m1)) => lemma_ore_hits_cong(p1, m1, effs.drop_first(), a, b),
            None => {},
        }
    }
}

/// Moving copies of cards between piles changes neither whether a mining
/// card's play is refused nor what it needs to stay in range.
pub proof fn lemma_mining_play_counts_moved(s: GameState, t: GameState, id: usize)
    requires
        only_counts_moved(s.library.cards@, t.library.cards@),
        t.token_balances == s.token_balances,
        t.current_encounter == s.current_encounter,
    ensures
        mining_play_error(t, id) == mining_play_error(s, id),
        mining_play_error(s, id) is None ==> mining_play_fits(t, id) == mining_play_fits(s, id)
            && mining_play_gains(t, id) == mining_play_gains(s, id),
{
    lemma_same_templates(s.library, t.library);
    if id < s.library.cards@.len() {
        assert(t.library.cards@[id as int].kind == s.library.cards@[id as int].kind);
    }
    if mining_play_error(s, id) is None {
        let effs = mining_effects(s.library.cards@[id as int].kind)->Some_0;
        let st = mining_of(s.current_encounter)->Some_0;
        lemma_mining_gains_cong(deduct_b(bal(s.token_balances), gathering_costs(effs)), bal(st.encounter_tokens), effs, s.library, t.library);
        if let Some(pm) = mining_play_gains(s, id) {
            assert forall|i: int| 0 <= i < st.ore_deck@.len() implies
                ore_hits(pm.0, pm.1, (#[trigger] st.ore_deck@[i]).effects@, t.library)
                    == ore_hits(pm.0, pm.1, st.ore_deck@[i].effects@, s.library) by {
                lemma_ore_hits_cong(pm.0, pm.1, st.ore_deck@[i].effects@, s.library, t.library);
            }
            assert(ore_play_fits(st, pm.0, pm.1, t.library) == ore_play_fits(st, pm.0, pm.1, s.library));
        }
    }
}

/// A play resolved after its card went to the discard is the play of the
/// state before, from the library with the card in the discard.
pub proof fn lemma_mining_played_counts_moved(s: GameState, s1: GameState, t: GameState, id: usize)
    requires
        only_counts_moved(s.library.cards@, s1.library.cards@),
        s1.token_balances == s.token_balances,
        s1.current_encounter == s.current_encounter,
        s1.game_rules == s.game_rules,
        s1.encounter_results == s.encounter_results,
        s1.encounter_phase == s.encounter_phase,
        s1.last_encounter_result == s.last_encounter_result,
        mining_play_error(s, id) is None,
        mining_played(s1, t, id, s1.library.cards@),
    ensures
        mining_played(s, t, id, s1.library.cards@),
{
    lemma_mining_play_counts_moved(s, s1, id);
    lemma_same_templates(s.library, s1.library);
    let st = mining_of(s.current_encounter)->Some_0;
    let pm = mining_play_gains(s, id)->Some_0;
    let o = choose|o: Option<usize>| #[trigger] ore_choice(st, o)
        && mining_play_end(s1, t, st, ore_result(st, pm.0, pm.1, o, s1.library), o is Some);
    if let Some(i) = o {
        lemma_ore_hits_cong(pm.0, pm.1, st.ore_deck@[i as int].effects@, s.library, s1.library);
    }
    assert(ore_result(st, pm.0, pm.1, o, s1.library) == ore_result(st, pm.0, pm.1, o, s.library));
    assert(ore_choice(st, o));
}

/// Concluding a mining encounter trades stamina for ore: the player gains
/// `min(stamina, yield)` ore and loses the same amount of stamina (where a
/// stamina counter is held), provided the player is alive and the amounts
/// stay within the machine's integers; no other balance changes.
pub proof fn law_mining_conclusion_trades_stamina_for_ore(s: GameState, t: GameState, st: MiningEncounterState)
    requires
        mining_concluded(s, t, st),
        s.token_balances.spec_value(persistent_key(TokenType::Health)) > 0,
        ({
            let y = st.encounter_tokens.spec_value(yield_key());
            let stamina = s.token_balances.spec_value(persistent_key(TokenType::Stamina));
            let reward = if y <= stamina { y } else { stamina };
            fits(stamina - reward) && fits(s.token_balances.spec_value(persistent_key(TokenType::Ore)) + reward)
        }),
    ensures
        ({
            let y = st.encounter_tokens.spec_value(yield_key());
            let stamina = s.token_balances.spec_value(persistent_key(TokenType::Stamina));
            let reward = if y <= stamina { y } else { stamina };
            &&& t.token_balances.spec_value(persistent_key(TokenType::Ore))
                == s.token_balances.spec_value(persistent_key(TokenType::Ore)) + reward
            &&& s.token_balances.spec_get(persistent_key(TokenType::Stamina)) is Some
                ==> t.token_balances.spec_value(persistent_key(TokenType::Stamina)) == stamina - reward
            &&& t.encounter_results@ == s.encounter_results@.push(EncounterOutcome::PlayerWon)
            &&& forall|k: TokenKey| k != persistent_key(TokenType::Ore) && k != persistent_key(TokenType::Stamina)
                ==> #[trigger] t.token_balances.spec_value(k) == s.token_balances.spec_value(k)
        }),
{
    crate::library::costs::lemma_bal_facts(s.token_balances);
    crate::library::costs::lemma_bal_facts(t.token_balances);
    crate::library::costs::lemma_bal_facts(st.encounter_tokens);
    let p = bal(s.token_balances);
    let y = get0(bal(st.encounter_tokens).0, yield_key());
    let sk = persistent_key(TokenType::Stamina);
    let ok = persistent_key(TokenType::Ore);
    let hk = persistent_key(TokenType::Health);
    let stamina = get0(p.0, sk);
    let reward = if stamina <= y { stamina } else { y };
    let p1 = if p.0.contains_key(sk) { bset(p, sk, (stamina - reward) as i64) } else { p };
    let p2 = bset(p1, ok, (get0(p1.0, ok) + reward) as i64);
    assert(sk != ok && sk != hk && ok != hk);
    assert(get0(p1.0, ok) == get0(p.0, ok));
    assert(get0(p2.0, hk) == get0(p.0, hk));
    assert(after_death_check(p2, s.game_rules.general) == p2);
    assert(get0(p2.0, ok) == get0(p.0, ok) + reward);
    if s.token_balances.spec_get(sk) is Some {
        assert(p.0.contains_key(sk));
        assert(get0(p2.0, sk) == stamina - reward);
    }
    assert forall|k: TokenKey| k != ok && k != sk implies #[trigger] t.token_balances.spec_value(k) == s.token_balances.spec_value(k) by {
        assert(get0(p1.0, k) == get0(p.0, k));
        assert(get0(p2.0, k) == get0(p1.0, k));
        assert(get0(bal(t.token_balances).0, k) == t.token_balances.spec_value(k));
        assert(get0(p.0, k) == s.token_balances.spec_value(k));
    }
}

} // verus!
