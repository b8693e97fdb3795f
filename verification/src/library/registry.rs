//! The registry of known token types and their caps.
use super::types::TokenType;
use vstd::prelude::*;

verus! {

/// A registered token type and the most a balance of it may hold.
#[derive(Clone, Copy, Debug, PartialEq, Eq, Structural)]
pub struct TokenRegistryEntry {
    pub id: TokenType,
    pub cap: Option<i64>,
}

/// The cap recorded last for `t` among the entries.
pub open spec fn reg_lookup(s: Seq<TokenRegistryEntry>, t: TokenType) -> Option<Option<i64>>
    decreases s.len(),
{
    if s.len() == 0 {
        None
    } else if s.last().id == t {
        Some(s.last().cap)
    } else {
        reg_lookup(s.drop_last(), t)
    }
}

/// No token type occurs twice.
pub open spec fn reg_distinct(s: Seq<TokenRegistryEntry>) -> bool {
    forall|i: int, j: int| 0 <= i < s.len() && 0 <= j < s.len() && i != j ==> #[trigger] s[i].id != #[trigger] s[j].id
}

proof fn lemma_reg_absent(s: Seq<TokenRegistryEntry>, t: TokenType)
    ensures
        (forall|i: int| 0 <= i < s.len() ==> #[trigger] s[i].id != t) <==> reg_lookup(s, t) is None,
    decreases s.len(),
{
    if s.len() > 0 {
        lemma_reg_absent(s.drop_last(), t);
        if reg_lookup(s, t) is None {
            assert forall|i: int| 0 <= i < s.len() implies #[trigger] s[i].id != t by {
                if i < s.len() - 1 {
                    assert(s.drop_last()[i] == s[i]);
                }
            }
        } else if s.last().id != t {
            let i = choose|i: int| 0 <= i < s.drop_last().len() && #[trigger] s.drop_last()[i].id == t;
            assert(s[i].id == t);
        }
    }
}

proof fn lemma_reg_update(s: Seq<TokenRegistryEntry>, i: int, e: TokenRegistryEntry)
    requires
        reg_distinct(s),
        0 <= i < s.len(),
        s[i].id == e.id,
    ensures
        reg_distinct(s.update(i, e)),
        forall|t: TokenType| #[trigger] reg_lookup(s.update(i, e), t) == if t == e.id { Some(e.cap) } else { reg_lookup(s, t) },
    decreases s.len(),
{
    let u = s.update(i, e);
    assert(reg_distinct(u)) by {
        assert forall|a: int, b: int| 0 <= a < u.len() && 0 <= b < u.len() && a != b implies #[trigger] u[a].id != #[trigger] u[b].id by {
            assert(s[a].id != s[b].id);
        }
    }
    if i == s.len() - 1 {
        assert(u.drop_last() =~= s.drop_last());
        assert forall|t: TokenType| #[trigger] reg_lookup(u, t) == if t == e.id { Some(e.cap) } else { reg_lookup(s, t) } by {}
    } else {
        let d = s.drop_last();
        assert(u.drop_last() =~= d.update(i, e));
        assert(reg_distinct(d)) by {
            assert forall|a: int, b: int| 0 <= a < d.len() && 0 <= b < d.len() && a != b implies #[trigger] d[a].id != #[trigger] d[b].id by {
                assert(s[a].id != s[b].id);
            }
        }
        lemma_reg_update(d, i, e);
        assert(s.last().id != e.id) by {
            assert(s[s.len() - 1].id != s[i].id);
        }
        assert forall|t: TokenType| #[trigger] reg_lookup(u, t) == if t == e.id { Some(e.cap) } else { reg_lookup(s, t) } by {
            assert(u.last() == s.last());
            assert(reg_lookup(u.drop_last(), t) == if t == e.id { Some(e.cap) } else { reg_lookup(d, t) });
        }
    }
}

proof fn lemma_reg_push(s: Seq<TokenRegistryEntry>, e: TokenRegistryEntry)
    requires
        reg_distinct(s),
        reg_lookup(s, e.id) is None,
    ensures
        reg_distinct(s.push(e)),
        forall|t: TokenType| #[trigger] reg_lookup(s.push(e), t) == if t == e.id { Some(e.cap) } else { reg_lookup(s, t) },
{
    let u = s.push(e);
    lemma_reg_absent(s, e.id);
    assert(u.drop_last() =~= s);
    assert(reg_distinct(u)) by {
        assert forall|a: int, b: int| 0 <= a < u.len() && 0 <= b < u.len() && a != b implies #[trigger] u[a].id != #[trigger] u[b].id by {
            if a < s.len() && b < s.len() {
                assert(s[a].id != s[b].id);
            } else if a < s.len() {
                assert(s[a].id != e.id);
            } else {
                assert(s[b].id != e.id);
            }
        }
    }
}

/// The token types in the canonical registry.
pub open spec fn is_canonical(t: TokenType) -> bool {
    ||| t == TokenType::Insight
    ||| t == TokenType::Renown
    ||| t == TokenType::Refinement
    ||| t == TokenType::Stability
    ||| t == TokenType::Foresight
    ||| t == TokenType::Momentum
    ||| t == TokenType::Corruption
    ||| t == TokenType::Exhaustion
    ||| t == TokenType::Durability
    ||| t == TokenType::Health
    ||| t == TokenType::MaxHealth
    ||| t == TokenType::Shield
    ||| t == TokenType::Stamina
    ||| t == TokenType::Mana
    ||| t == TokenType::Dodge
}

/// Known token types with their caps, each type at most once.
#[derive(Debug)]
pub struct TokenRegistry {
    tokens: Vec<TokenRegistryEntry>,
}

impl View for TokenRegistry {
    type V = Map<TokenType, Option<i64>>;

    closed spec fn view(&self) -> Map<TokenType, Option<i64>> {
        Map::new(|t: TokenType| reg_lookup(self.tokens@, t) is Some, |t: TokenType| reg_lookup(self.tokens@, t)->Some_0)
    }
}

impl TokenRegistry {
    #[verifier::type_invariant]
    spec fn inv(self) -> bool {
        reg_distinct(self.tokens@)
    }

    /// An empty registry.
    pub fn new() -> (r: Self)
        ensures
            r@ == Map::<TokenType, Option<i64>>::empty(),
    {
        let r = TokenRegistry { tokens: Vec::new() };
        assert(r@ =~= Map::<TokenType, Option<i64>>::empty());
        r
    }

    /// Register a token type, replacing an earlier entry for the same type.
    pub fn register(&mut self, token: TokenRegistryEntry)
        ensures
            final(self)@ == old(self)@.insert(token.id, token.cap),
    {
        proof {
            use_type_invariant(&*self);
        }
        let ghost s0 = self.tokens@;
        let mut pos: Option<usize> = None;
        let mut i: usize = 0;
        while i < self.tokens.len()
            invariant
                i <= self.tokens.len(),
                self.tokens@ == s0,
                pos is None ==> forall|j: int| 0 <= j < i ==> #[trigger] s0[j].id != token.id,
                pos matches Some(p) ==> p < s0.len() && s0[p as int].id == token.id,
            decreases self.tokens.len() - i,
        {
            if pos.is_none() && self.tokens[i].id == token.id {
                pos = Some(i);
            }
            i += 1;
        }
        let mut v: Vec<TokenRegistryEntry> = Vec::new();
        std::mem::swap(&mut v, &mut self.tokens);
        match pos {
            Some(p) => {
                proof {
                    lemma_reg_update(s0, p as int, token);
                }
                v.set(p, token);
            },
            None => {
                proof {
                    lemma_reg_absent(s0, token.id);
                    lemma_reg_push(s0, token);
                }
                v.push(token);
            },
        }
        self.tokens = v;
        proof {
            assert(self@ =~= old(self)@.insert(token.id, token.cap));
        }
    }

    /// The canonical token registry: the combat, meta and durability types,
    /// each capped at 9999.
    pub fn with_canonical() -> (r: Self)
        ensures
            forall|t: TokenType| #[trigger] r@.dom().contains(t) <==> is_canonical(t),
            forall|t: TokenType| is_canonical(t) ==> #[trigger] r@[t] == Some(9999i64),
    {
        let mut r = Self::new();
        let ids = vec![
            TokenType::Insight,
            TokenType::Renown,
            TokenType::Refinement,
            TokenType::Stability,
            TokenType::Foresight,
            TokenType::Momentum,
            TokenType::Corruption,
            TokenType::Exhaustion,
            TokenType::Durability,
            TokenType::Health,
            TokenType::MaxHealth,
            TokenType::Shield,
            TokenType::Stamina,
            TokenType::Mana,
            TokenType::Dodge,
        ];
        let mut i: usize = 0;
        while i < ids.len()
            invariant
                i <= ids.len(),
                forall|t: TokenType| #[trigger] r@.dom().contains(t) <==> exists|j: int| 0 <= j < i && ids@[j] == t,
                forall|t: TokenType| r@.dom().contains(t) ==> #[trigger] r@[t] == Some(9999i64),
            decreases ids.len() - i,
        {
            r.register(TokenRegistryEntry { id: ids[i], cap: Some(9999) });
            proof {
                assert forall|t: TokenType| #[trigger] r@.dom().contains(t) <==> exists|j: int| 0 <= j < i + 1 && ids@[j] == t by {
                    if t == ids@[i as int] {
                        assert(exists|j: int| 0 <= j < i + 1 && ids@[j] == t);
                    }
                }
            }
            i += 1;
        }
        proof {
            assert forall|t: TokenType| #[trigger] r@.dom().contains(t) <==> is_canonical(t) by {
                if is_canonical(t) {
                    if t == TokenType::Insight { assert(ids@[0] == t); }
                    if t == TokenType::Renown { assert(ids@[1] == t); }
                    if t == TokenType::Refinement { assert(ids@[2] == t); }
                    if t == TokenType::Stability { assert(ids@[3] == t); }
                    if t == TokenType::Foresight { assert(ids@[4] == t); }
                    if t == TokenType::Momentum { assert(ids@[5] == t); }
                    if t == TokenType::Corruption { assert(ids@[6] == t); }
                    if t == TokenType::Exhaustion { assert(ids@[7] == t); }
                    if t == TokenType::Durability { assert(ids@[8] == t); }
                    if t == TokenType::Health { assert(ids@[9] == t); }
                    if t == TokenType::MaxHealth { assert(ids@[10] == t); }
                    if t == TokenType::Shield { assert(ids@[11] == t); }
                    if t == TokenType::Stamina { assert(ids@[12] == t); }
                    if t == TokenType::Mana { assert(ids@[13] == t); }
                    if t == TokenType::Dodge { assert(ids@[14] == t); }
                }
            }
        }
        r
    }

    /// Whether `id` is registered.
    pub fn contains(&self, id: &TokenType) -> (r: bool)
        ensures
            r == self@.dom().contains(*id),
    {
        proof {
            use_type_invariant(self);
            lemma_reg_absent(self.tokens@, *id);
        }
        let mut i: usize = 0;
        while i < self.tokens.len()
            invariant
                i <= self.tokens.len(),
                forall|j: int| 0 <= j < i ==> #[trigger] self.tokens@[j].id != *id,
            decreases self.tokens.len() - i,
        {
            if self.tokens[i].id == *id {
                proof {
                    lemma_reg_absent(self.tokens@, *id);
                    assert(self.tokens@[i as int].id == *id);
                }
                return true;
            }
            i += 1;
        }
        false
    }
}

} // verus!
