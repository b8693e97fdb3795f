use crate::deck::card::CardType;
use crate::deck::token::{PermanentDefinition, Token, TokenPermanence, TokenType};
use crate::deck::CardStateCounts;
use vstd::prelude::*;

verus! {

#[derive(Clone, Debug)]
pub struct Unit {
    pub attack_deck: Vec<UnitCard>,
    pub defence_deck: Vec<UnitCard>,
    pub resource_deck: Vec<UnitCard>,
    pub tokens: Vec<Token>,
}

#[derive(Clone, Debug)]
pub struct UnitCard {
    pub effects: Vec<Token>,
    pub costs: Vec<Token>,
    pub card_type: CardType,
    pub state: CardStateCounts,
}

/// A token of `t` with permanence `p` and `count` copies.
pub open spec fn tok(t: TokenType, p: TokenPermanence, count: u32) -> Token {
    Token { token_type: t, permanence: p, count }
}

/// Only `n` copies, all in the deck.
pub open spec fn in_deck(n: u32) -> CardStateCounts {
    CardStateCounts { deck: Some(n), hand: None, discard: None, deleted: None }
}

/// A unit card's type, its copies in the deck, its effects and its costs.
pub open spec fn card_is(c: UnitCard, ty: CardType, copies: u32, effects: Seq<Token>, costs: Seq<Token>) -> bool {
    &&& c.card_type == ty
    &&& c.state == in_deck(copies)
    &&& c.effects@ == effects
    &&& c.costs@ == costs
}

fn deck_only(n: u32) -> (r: CardStateCounts)
    ensures
        r == in_deck(n),
{
    CardStateCounts { deck: Some(n), hand: None, discard: None, deleted: None }
}

fn one(a: Token) -> (r: Vec<Token>)
    ensures
        r@ == seq![a],
{
    let mut v = Vec::new();
    v.push(a);
    assert(v@ =~= seq![a]);
    v
}

fn two(a: Token, b: Token) -> (r: Vec<Token>)
    ensures
        r@ == seq![a, b],
{
    let mut v = Vec::new();
    v.push(a);
    v.push(b);
    assert(v@ =~= seq![a, b]);
    v
}

fn permanent(max_count: u32) -> (r: TokenPermanence)
    ensures
        r == TokenPermanence::Permanent(PermanentDefinition { max_count }),
{
    TokenPermanence::Permanent(PermanentDefinition { max_count })
}

/// The gnome: the first enemy unit.
pub fn get_gnome() -> (r: Unit)
    ensures
        r.attack_deck@.len() == 4,
        r.defence_deck@.len() == 1,
        r.resource_deck@.len() == 3,
        gnome_resource_deck_is(r.resource_deck@),
        gnome_attack_deck_is(r.attack_deck@),
        gnome_defence_deck_is(r.defence_deck@),
        gnome_tokens_are(r.tokens@),
{
    Unit {
        attack_deck: get_gnome_attack_deck(),
        defence_deck: get_gnome_defence_deck(),
        resource_deck: get_gnome_resource_deck(),
        tokens: get_gnome_tokens(),
    }
}

pub open spec fn gnome_resource_deck_is(d: Seq<UnitCard>) -> bool {
    let p20 = TokenPermanence::Permanent(PermanentDefinition { max_count: 20 });
    let p10 = TokenPermanence::Permanent(PermanentDefinition { max_count: 10 });
    &&& d.len() == 3
    &&& card_is(d[0], CardType::Resource, 20, seq![tok(TokenType::Stamina, p20, 2)], seq![])
    &&& card_is(d[1], CardType::Resource, 10, seq![tok(TokenType::Health, p10, 1), tok(TokenType::Stamina, p10, 1)], seq![])
    &&& card_is(d[2], CardType::Resource, 10, seq![tok(TokenType::Mana, p10, 1), tok(TokenType::Stamina, p10, 1)], seq![])
}

pub open spec fn gnome_attack_deck_is(d: Seq<UnitCard>) -> bool {
    let i = TokenPermanence::Instant;
    &&& d.len() == 4
    &&& card_is(d[0], CardType::Attack, 5, seq![tok(TokenType::Poison, i, 1)], seq![tok(TokenType::Mana, i, 1)])
    &&& card_is(d[1], CardType::Attack, 5, seq![tok(TokenType::Health, i, 3)], seq![tok(TokenType::Stamina, i, 2)])
    &&& card_is(d[2], CardType::Attack, 10, seq![tok(TokenType::Health, i, 2)], seq![tok(TokenType::Stamina, i, 1)])
    &&& card_is(d[3], CardType::Attack, 20, seq![tok(TokenType::Health, i, 1)], seq![])
}

pub open spec fn gnome_defence_deck_is(d: Seq<UnitCard>) -> bool {
    &&& d.len() == 1
    &&& card_is(
        d[0],
        CardType::Defence,
        40,
        seq![tok(TokenType::Dodge, TokenPermanence::AllAtBeginningOfRound, 1)],
        seq![tok(TokenType::Stamina, TokenPermanence::Instant, 2)],
    )
}

pub open spec fn gnome_tokens_are(t: Seq<Token>) -> bool {
    t == seq![
        tok(TokenType::Health, TokenPermanence::UsedOnUnit, 20),
        tok(TokenType::Stamina, TokenPermanence::UsedOnUnit, 20),
        tok(TokenType::Mana, TokenPermanence::UsedOnUnit, 1),
    ]
}

fn get_gnome_resource_deck() -> (r: Vec<UnitCard>)
    ensures
        gnome_resource_deck_is(r@),
{
    let r = vec![
        UnitCard {
            state: deck_only(20),
            card_type: CardType::Resource,
            effects: one(Token { token_type: TokenType::Stamina, permanence: permanent(20), count: 2 }),
            costs: Vec::new(),
        },
        UnitCard {
            state: deck_only(10),
            card_type: CardType::Resource,
            effects: two(Token { token_type: TokenType::Health, permanence: permanent(10), count: 1 }, Token { token_type: TokenType::Stamina, permanence: permanent(10), count: 1 }),
            costs: Vec::new(),
        },
        UnitCard {
            state: deck_only(10),
            card_type: CardType::Resource,
            effects: two(Token { token_type: TokenType::Mana, permanence: permanent(10), count: 1 }, Token { token_type: TokenType::Stamina, permanence: permanent(10), count: 1 }),
            costs: Vec::new(),
        },
    ];
    r
}

fn get_gnome_attack_deck() -> (r: Vec<UnitCard>)
    ensures
        gnome_attack_deck_is(r@),
{
    let r = vec![
        UnitCard {
            state: deck_only(5),
            card_type: CardType::Attack,
            effects: one(Token { token_type: TokenType::Poison, permanence: TokenPermanence::Instant, count: 1 }),
            costs: one(Token { token_type: TokenType::Mana, permanence: TokenPermanence::Instant, count: 1 }),
        },
        UnitCard {
            state: deck_only(5),
            card_type: CardType::Attack,
            effects: one(Token { token_type: TokenType::Health, permanence: TokenPermanence::Instant, count: 3 }),
            costs: one(Token { token_type: TokenType::Stamina, permanence: TokenPermanence::Instant, count: 2 }),
        },
        UnitCard {
            state: deck_only(10),
            card_type: CardType::Attack,
            effects: one(Token { token_type: TokenType::Health, permanence: TokenPermanence::Instant, count: 2 }),
            costs: one(Token { token_type: TokenType::Stamina, permanence: TokenPermanence::Instant, count: 1 }),
        },
        UnitCard {
            state: deck_only(20),
            card_type: CardType::Attack,
            effects: one(Token { token_type: TokenType::Health, permanence: TokenPermanence::Instant, count: 1 }),
            costs: Vec::new(),
        },
    ];
    r
}

fn get_gnome_defence_deck() -> (r: Vec<UnitCard>)
    ensures
        gnome_defence_deck_is(r@),
{
    vec![
        UnitCard {
            state: deck_only(40),
            card_type: CardType::Defence,
            effects: one(Token { token_type: TokenType::Dodge, permanence: TokenPermanence::AllAtBeginningOfRound, count: 1 }),
            costs: one(Token { token_type: TokenType::Stamina, permanence: TokenPermanence::Instant, count: 2 }),
        },
    ]
}

fn get_gnome_tokens() -> (r: Vec<Token>)
    ensures
        gnome_tokens_are(r@),
{
    vec![
        Token { token_type: TokenType::Health, permanence: TokenPermanence::UsedOnUnit, count: 20 },
        Token { token_type: TokenType::Stamina, permanence: TokenPermanence::UsedOnUnit, count: 20 },
        Token { token_type: TokenType::Mana, permanence: TokenPermanence::UsedOnUnit, count: 1 },
    ]
}

} // verus!
