//! Checking that every concrete effect in the library points at an effect
//! template of the right side (player or enemy).
use super::types::{
    CardKind, ConcreteEffect, EncounterKind, EnemyCardDef, EnemyCraftingCard, FishCard, LibraryCard, OreCard,
    PlantCard,
};
use super::Library;
use vstd::prelude::*;

verus! {

/// The holder of a concrete effect whose reference is checked.
#[derive(Clone, Copy, Debug, PartialEq, Eq, Structural)]
pub enum EffectHolder {
    /// A player card (attack, defence, resource, rest): must point at a player effect.
    PlayerCard,
    /// A card of an enemy combatant deck: must point at an enemy effect.
    EnemyCard,
    /// A card of an ore deck: must point at an enemy effect.
    OreCard,
    /// A card of a plant hand: must point at an enemy effect.
    PlantCard,
    /// A card of a fish deck: must point at an enemy effect.
    FishCard,
    /// A card of an enemy crafting deck: must point at an enemy effect.
    EnemyCraftingCard,
}

/// One effect reference that does not point at a template of the right side.
#[derive(Clone, Copy, Debug, PartialEq, Eq, Structural)]
pub struct EffectRefError {
    /// The library card that holds the effect.
    pub card_id: usize,
    /// Which kind of card holds the effect.
    pub holder: EffectHolder,
    /// The referenced template id.
    pub effect_id: usize,
}

/// Anything that carries a list of concrete effects.
pub trait HasEffects {
    spec fn effects_spec(&self) -> Seq<ConcreteEffect>;

    fn effects(&self) -> (r: &Vec<ConcreteEffect>)
        ensures
            r@ == self.effects_spec(),
    ;
}

impl HasEffects for EnemyCardDef {
    open spec fn effects_spec(&self) -> Seq<ConcreteEffect> {
        self.effects@
    }

    fn effects(&self) -> (r: &Vec<ConcreteEffect>) {
        &self.effects
    }
}

impl HasEffects for OreCard {
    open spec fn effects_spec(&self) -> Seq<ConcreteEffect> {
        self.effects@
    }

    fn effects(&self) -> (r: &Vec<ConcreteEffect>) {
        &self.effects
    }
}

impl HasEffects for PlantCard {
    open spec fn effects_spec(&self) -> Seq<ConcreteEffect> {
        self.effects@
    }

    fn effects(&self) -> (r: &Vec<ConcreteEffect>) {
        &self.effects
    }
}

impl HasEffects for FishCard {
    open spec fn effects_spec(&self) -> Seq<ConcreteEffect> {
        self.effects@
    }

    fn effects(&self) -> (r: &Vec<ConcreteEffect>) {
        &self.effects
    }
}

impl HasEffects for EnemyCraftingCard {
    open spec fn effects_spec(&self) -> Seq<ConcreteEffect> {
        self.effects@
    }

    fn effects(&self) -> (r: &Vec<ConcreteEffect>) {
        &self.effects
    }
}

/// The template ids referenced by a list of effects, in order.
pub open spec fn effect_ids(effects: Seq<ConcreteEffect>) -> Seq<usize> {
    effects.map_values(|e: ConcreteEffect| e.effect_id)
}

/// The template ids referenced by the cards of a deck, card after card.
pub open spec fn nested_ids<T: HasEffects>(deck: Seq<T>) -> Seq<usize>
    decreases deck.len(),
{
    if deck.len() == 0 {
        Seq::empty()
    } else {
        nested_ids(deck.drop_last()) + effect_ids(deck.last().effects_spec())
    }
}

/// Which holder a library card's effects belong to.
pub open spec fn holder_of(kind: CardKind) -> EffectHolder {
    match kind {
        CardKind::Encounter { encounter_kind } => match encounter_kind {
            EncounterKind::Combat { .. } => EffectHolder::EnemyCard,
            EncounterKind::Mining { .. } => EffectHolder::OreCard,
            EncounterKind::Herbalism { .. } => EffectHolder::PlantCard,
            EncounterKind::Fishing { .. } => EffectHolder::FishCard,
            EncounterKind::Crafting { .. } => EffectHolder::EnemyCraftingCard,
            _ => EffectHolder::PlayerCard,
        },
        _ => EffectHolder::PlayerCard,
    }
}

/// The template ids a library card refers to, in the order they are checked.
pub open spec fn card_refs(kind: CardKind) -> Seq<usize> {
    match kind {
        CardKind::Attack { effects } => effect_ids(effects@),
        CardKind::Defence { effects } => effect_ids(effects@),
        CardKind::Resource { effects } => effect_ids(effects@),
        CardKind::Rest { effects, .. } => effect_ids(effects@),
        CardKind::Encounter { encounter_kind } => match encounter_kind {
            EncounterKind::Combat { combatant_def } => nested_ids(combatant_def.attack_deck@) + nested_ids(
                combatant_def.defence_deck@,
            ) + nested_ids(combatant_def.resource_deck@),
            EncounterKind::Mining { mining_def } => nested_ids(mining_def.ore_deck@),
            EncounterKind::Herbalism { herbalism_def } => nested_ids(herbalism_def.plant_hand@),
            EncounterKind::Fishing { fishing_def } => nested_ids(fishing_def.fish_deck@),
            EncounterKind::Crafting { crafting_def } => nested_ids(crafting_def.enemy_crafting_deck@),
            _ => Seq::empty(),
        },
        _ => Seq::empty(),
    }
}

/// Whether `effect_id` points at a template of the side that `holder` needs.
pub open spec fn ref_valid(cards: Seq<LibraryCard>, holder: EffectHolder, effect_id: usize) -> bool {
    &&& effect_id < cards.len()
    &&& if holder == EffectHolder::PlayerCard {
        cards[effect_id as int].kind is PlayerCardEffect
    } else {
        cards[effect_id as int].kind is EnemyCardEffect
    }
}

/// The errors for the references `refs` of card `card_id`, in order.
pub open spec fn bad_refs(cards: Seq<LibraryCard>, card_id: usize, holder: EffectHolder, refs: Seq<usize>) -> Seq<
    EffectRefError,
>
    decreases refs.len(),
{
    if refs.len() == 0 {
        Seq::empty()
    } else {
        let prev = bad_refs(cards, card_id, holder, refs.drop_last());
        if ref_valid(cards, holder, refs.last()) {
            prev
        } else {
            prev.push(EffectRefError { card_id, holder, effect_id: refs.last() })
        }
    }
}

/// The errors for the first `n` cards of the library, card after card.
pub open spec fn library_errors(cards: Seq<LibraryCard>, n: int) -> Seq<EffectRefError>
    decreases n,
{
    if n <= 0 {
        Seq::empty()
    } else {
        library_errors(cards, n - 1) + bad_refs(
            cards,
            (n - 1) as usize,
            holder_of(cards[n - 1].kind),
            card_refs(cards[n - 1].kind),
        )
    }
}

fn push_effect_ids(out: &mut Vec<usize>, effects: &Vec<ConcreteEffect>)
    ensures
        final(out)@ == old(out)@ + effect_ids(effects@),
{
    let ghost start = out@;
    let mut j: usize = 0;
    while j < effects.len()
        invariant
            j <= effects.len(),
            out@ == start + effect_ids(effects@.subrange(0, j as int)),
        decreases effects.len() - j,
    {
        proof {
            assert(effect_ids(effects@.subrange(0, j + 1)) =~= effect_ids(effects@.subrange(0, j as int)).push(
                effects@[j as int].effect_id,
            ));
        }
        out.push(effects[j].effect_id);
        j += 1;
    }
    assert(effects@.subrange(0, effects@.len() as int) =~= effects@);
}

fn push_nested_ids<T: HasEffects>(out: &mut Vec<usize>, deck: &Vec<T>)
    ensures
        final(out)@ == old(out)@ + nested_ids(deck@),
{
    let ghost start = out@;
    let mut j: usize = 0;
    while j < deck.len()
        invariant
            j <= deck.len(),
            out@ == start + nested_ids(deck@.subrange(0, j as int)),
        decreases deck.len() - j,
    {
        proof {
            let s = deck@.subrange(0, j + 1);
            assert(s.drop_last() =~= deck@.subrange(0, j as int));
            assert(s.last() == deck@[j as int]);
        }
        push_effect_ids(out, deck[j].effects());
        proof {
            let s = deck@.subrange(0, j + 1);
            assert(out@ =~= start + nested_ids(s));
        }
        j += 1;
    }
    assert(deck@.subrange(0, deck@.len() as int) =~= deck@);
}

fn holder_and_refs(kind: &CardKind) -> (r: (EffectHolder, Vec<usize>))
    ensures
        r.0 == holder_of(*kind),
        r.1@ == card_refs(*kind),
{
    let mut refs: Vec<usize> = Vec::new();
    match kind {
        CardKind::Attack { effects } | CardKind::Defence { effects } | CardKind::Resource { effects } => {
            push_effect_ids(&mut refs, effects);
            (EffectHolder::PlayerCard, refs)
        },
        CardKind::Rest { effects, .. } => {
            push_effect_ids(&mut refs, effects);
            (EffectHolder::PlayerCard, refs)
        },
        CardKind::Encounter { encounter_kind } => match encounter_kind {
            EncounterKind::Combat { combatant_def } => {
                push_nested_ids(&mut refs, &combatant_def.attack_deck);
                push_nested_ids(&mut refs, &combatant_def.defence_deck);
                push_nested_ids(&mut refs, &combatant_def.resource_deck);
                (EffectHolder::EnemyCard, refs)
            },
            EncounterKind::Mining { mining_def } => {
                push_nested_ids(&mut refs, &mining_def.ore_deck);
                (EffectHolder::OreCard, refs)
            },
            EncounterKind::Herbalism { herbalism_def } => {
                push_nested_ids(&mut refs, &herbalism_def.plant_hand);
                (EffectHolder::PlantCard, refs)
            },
            EncounterKind::Fishing { fishing_def } => {
                push_nested_ids(&mut refs, &fishing_def.fish_deck);
                (EffectHolder::FishCard, refs)
            },
            EncounterKind::Crafting { crafting_def } => {
                push_nested_ids(&mut refs, &crafting_def.enemy_crafting_deck);
                (EffectHolder::EnemyCraftingCard, refs)
            },
            _ => (EffectHolder::PlayerCard, refs),
        },
        _ => (EffectHolder::PlayerCard, refs),
    }
}

impl Library {
    /// Whether template `effect_id` exists and belongs to the side `holder` needs.
    fn reference_ok(&self, holder: EffectHolder, effect_id: usize) -> (r: bool)
        ensures
            r == ref_valid(self.cards@, holder, effect_id),
    {
        if effect_id >= self.cards.len() {
            return false;
        }
        match &self.cards[effect_id].kind {
            CardKind::PlayerCardEffect { .. } => holder == EffectHolder::PlayerCard,
            CardKind::EnemyCardEffect { .. } => holder != EffectHolder::PlayerCard,
            _ => false,
        }
    }

    /// Validate that all card effects reference valid CardEffect deck entries:
    /// player cards must reference player effect templates, cards of encounter
    /// decks must reference enemy effect templates. Every bad reference is
    /// reported, in library order.
    pub fn validate_card_effects(&self) -> (r: Result<(), Vec<EffectRefError>>)
        ensures
            library_errors(self.cards@, self.cards@.len() as int).len() == 0 ==> r is Ok,
            library_errors(self.cards@, self.cards@.len() as int).len() > 0 ==> (r matches Err(v) && v@
                == library_errors(self.cards@, self.cards@.len() as int)),
    {
        let mut errors: Vec<EffectRefError> = Vec::new();
        let mut id: usize = 0;
        while id < self.cards.len()
            invariant
                id <= self.cards.len(),
                errors@ == library_errors(self.cards@, id as int),
            decreases self.cards.len() - id,
        {
            let (holder, refs) = holder_and_refs(&self.cards[id].kind);
            let ghost before = errors@;
            let mut k: usize = 0;
            while k < refs.len()
                invariant
                    k <= refs.len(),
                    id < self.cards.len(),
                    holder == holder_of(self.cards@[id as int].kind),
                    refs@ == card_refs(self.cards@[id as int].kind),
                    errors@ == before + bad_refs(self.cards@, id, holder, refs@.subrange(0, k as int)),
                decreases refs.len() - k,
            {
                proof {
                    let s = refs@.subrange(0, k + 1);
                    assert(s.drop_last() =~= refs@.subrange(0, k as int));
                    assert(s.last() == refs@[k as int]);
                }
                if !self.reference_ok(holder, refs[k]) {
                    errors.push(EffectRefError { card_id: id, holder, effect_id: refs[k] });
                }
                proof {
                    let s = refs@.subrange(0, k + 1);
                    assert(errors@ =~= before + bad_refs(self.cards@, id, holder, s));
                }
                k += 1;
            }
            proof {
                assert(refs@.subrange(0, refs@.len() as int) =~= refs@);
            }
            id += 1;
        }
        if errors.len() == 0 {
            Ok(())
        } else {
            Err(errors)
        }
    }
}

} // verus!
