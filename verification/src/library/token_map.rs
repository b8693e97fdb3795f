//! Token balances: a map from a token (type and lifecycle) to a signed amount.
use super::types::{Token, TokenKey, TokenType};
use vstd::prelude::*;

verus! {

/// The last value recorded for `k` in an association list.
pub open spec fn lookup(s: Seq<(Token, i64)>, k: TokenKey) -> Option<i64>
    decreases s.len(),
{
    if s.len() == 0 {
        None
    } else if s.last().0@ == k {
        Some(s.last().1)
    } else {
        lookup(s.drop_last(), k)
    }
}

/// The sum of all amounts held by tokens of type `tt`.
pub open spec fn type_sum(s: Seq<(Token, i64)>, tt: TokenType) -> int
    decreases s.len(),
{
    if s.len() == 0 {
        0
    } else {
        type_sum(s.drop_last(), tt) + (if s.last().0.token_type == tt { s.last().1 as int } else { 0 })
    }
}

/// No token occurs twice.
pub open spec fn distinct_keys(s: Seq<(Token, i64)>) -> bool {
    forall|i: int, j: int| 0 <= i < s.len() && 0 <= j < s.len() && i != j ==> #[trigger] s[i].0@ != #[trigger] s[j].0@
}

pub proof fn lemma_lookup_absent(s: Seq<(Token, i64)>, k: TokenKey)
    ensures
        (forall|i: int| 0 <= i < s.len() ==> #[trigger] s[i].0@ != k) <==> lookup(s, k) is None,
    decreases s.len(),
{
    if s.len() > 0 {
        lemma_lookup_absent(s.drop_last(), k);
        if lookup(s, k) is None {
            assert forall|i: int| 0 <= i < s.len() implies #[trigger] s[i].0@ != k by {
                if i < s.len() - 1 {
                    assert(s.drop_last()[i] == s[i]);
                }
            }
        } else if s.last().0@ != k {
            let i = choose|i: int| 0 <= i < s.drop_last().len() && #[trigger] s.drop_last()[i].0@ == k;
            assert(s[i].0@ == k);
        }
    }
}

pub proof fn lemma_lookup_at(s: Seq<(Token, i64)>, i: int)
    requires
        distinct_keys(s),
        0 <= i < s.len(),
    ensures
        lookup(s, s[i].0@) == Some(s[i].1),
    decreases s.len(),
{
    if i < s.len() - 1 {
        assert(s.last().0@ != s[i].0@);
        assert(s.drop_last()[i] == s[i]);
        lemma_lookup_at(s.drop_last(), i);
    }
}

pub proof fn lemma_update(s: Seq<(Token, i64)>, i: int, t: Token, v: i64)
    requires
        distinct_keys(s),
        0 <= i < s.len(),
        t@ == s[i].0@,
    ensures
        distinct_keys(s.update(i, (t, v))),
        forall|k: TokenKey| k != t@ ==> lookup(s.update(i, (t, v)), k) == lookup(s, k),
        lookup(s.update(i, (t, v)), t@) == Some(v),
        forall|tt: TokenType| type_sum(s.update(i, (t, v)), tt) == type_sum(s, tt)
            - (if s[i].0.token_type == tt { s[i].1 as int } else { 0 })
            + (if t.token_type == tt { v as int } else { 0 }),
    decreases s.len(),
{
    let u = s.update(i, (t, v));
    assert(distinct_keys(u)) by {
        assert forall|a: int, b: int| 0 <= a < u.len() && 0 <= b < u.len() && a != b implies #[trigger] u[a].0@ != #[trigger] u[b].0@ by {
            assert(s[a].0@ != s[b].0@);
        }
    }
    lemma_lookup_at(u, i);
    if i == s.len() - 1 {
        assert(u.drop_last() =~= s.drop_last());
    } else {
        let d = s.drop_last();
        assert(u.drop_last() =~= d.update(i, (t, v)));
        assert(distinct_keys(d)) by {
            assert forall|a: int, b: int| 0 <= a < d.len() && 0 <= b < d.len() && a != b implies #[trigger] d[a].0@ != #[trigger] d[b].0@ by {
                assert(s[a].0@ != s[b].0@);
            }
        }
        lemma_update(d, i, t, v);
        assert(s.last().0@ != t@) by {
            assert(s[s.len() - 1].0@ != s[i].0@);
        }
        assert forall|k: TokenKey| k != t@ implies lookup(u, k) == lookup(s, k) by {
            assert(lookup(u.drop_last(), k) == lookup(d, k));
            assert(u.last() == s.last());
        }
        assert forall|tt: TokenType| type_sum(u, tt) == type_sum(s, tt)
            - (if s[i].0.token_type == tt { s[i].1 as int } else { 0 })
            + (if t.token_type == tt { v as int } else { 0 }) by {
            assert(type_sum(u.drop_last(), tt) == type_sum(d, tt)
                - (if d[i].0.token_type == tt { d[i].1 as int } else { 0 })
                + (if t.token_type == tt { v as int } else { 0 }));
            assert(u.last() == s.last());
        }
    }
}

pub proof fn lemma_push(s: Seq<(Token, i64)>, t: Token, v: i64)
    requires
        distinct_keys(s),
        lookup(s, t@) is None,
    ensures
        distinct_keys(s.push((t, v))),
        forall|k: TokenKey| k != t@ ==> lookup(s.push((t, v)), k) == lookup(s, k),
        lookup(s.push((t, v)), t@) == Some(v),
        forall|tt: TokenType| type_sum(s.push((t, v)), tt) == type_sum(s, tt) + (if t.token_type == tt { v as int } else { 0 }),
{
    let u = s.push((t, v));
    lemma_lookup_absent(s, t@);
    assert(u.drop_last() =~= s);
    assert(distinct_keys(u)) by {
        assert forall|a: int, b: int| 0 <= a < u.len() && 0 <= b < u.len() && a != b implies #[trigger] u[a].0@ != #[trigger] u[b].0@ by {
            if a < s.len() && b < s.len() {
                assert(s[a].0@ != s[b].0@);
            } else if a < s.len() {
                assert(s[a].0@ != t@);
            } else {
                assert(s[b].0@ != t@);
            }
        }
    }
}

pub proof fn lemma_type_sum_bound(s: Seq<(Token, i64)>, tt: TokenType)
    ensures
        -(s.len() as int) * 0x8000_0000_0000_0000 <= type_sum(s, tt) <= (s.len() as int) * 0x8000_0000_0000_0000,
    decreases s.len(),
{
    if s.len() > 0 {
        lemma_type_sum_bound(s.drop_last(), tt);
    }
}


/// The balances as values: the amount of each recorded token, and the total
/// of each token type.
pub open spec fn bal(m: TokenMap) -> (Map<TokenKey, i64>, Map<TokenType, int>) {
    (
        Map::new(|k: TokenKey| m.spec_get(k) is Some, |k: TokenKey| m.spec_get(k)->Some_0),
        Map::new(|tt: TokenType| true, |tt: TokenType| m.spec_balance(tt)),
    )
}

/// The amount recorded for `k`, zero when absent.
pub open spec fn get0(m: Map<TokenKey, i64>, k: TokenKey) -> int {
    if m.contains_key(k) {
        m[k] as int
    } else {
        0
    }
}

/// The balances after recording `v` for `k`.
pub open spec fn bset(b: (Map<TokenKey, i64>, Map<TokenType, int>), k: TokenKey, v: i64) -> (Map<TokenKey, i64>, Map<TokenType, int>) {
    (b.0.insert(k, v), b.1.insert(k.token_type, b.1[k.token_type] - get0(b.0, k) + v))
}


pub proof fn lemma_type_sum_zero(s: Seq<(Token, i64)>, tt: TokenType)
    requires
        forall|j: int| 0 <= j < s.len() && (#[trigger] s[j]).0.token_type == tt ==> s[j].1 == 0,
    ensures
        type_sum(s, tt) == 0,
    decreases s.len(),
{
    if s.len() > 0 {
        lemma_type_sum_zero(s.drop_last(), tt);
        assert(s[s.len() - 1] == s.last());
    }
}

pub proof fn lemma_type_sum_same(a: Seq<(Token, i64)>, b: Seq<(Token, i64)>, tt: TokenType)
    requires
        a.len() == b.len(),
        forall|j: int| 0 <= j < a.len() ==> (#[trigger] b[j]).0.token_type == a[j].0.token_type,
        forall|j: int| 0 <= j < a.len() && (#[trigger] a[j]).0.token_type == tt ==> b[j].1 == a[j].1,
    ensures
        type_sum(a, tt) == type_sum(b, tt),
    decreases a.len(),
{
    if a.len() > 0 {
        lemma_type_sum_same(a.drop_last(), b.drop_last(), tt);
        assert(a[a.len() - 1] == a.last());
        assert(b[b.len() - 1] == b.last());
    }
}

/// Token balances: each token at most once, with its amount.
#[derive(Debug)]
pub struct TokenMap {
    entries: Vec<(Token, i64)>,
}

impl TokenMap {
    #[verifier::type_invariant]
    spec fn inv(self) -> bool {
        distinct_keys(self.entries@)
    }

    /// The entries, each token once.
    pub closed spec fn spec_entries(self) -> Seq<(Token, i64)> {
        self.entries@
    }

    /// The amount recorded for a token, if any.
    pub open spec fn spec_get(self, k: TokenKey) -> Option<i64> {
        lookup(self.spec_entries(), k)
    }

    /// The amount recorded for a token, zero when absent.
    pub open spec fn spec_value(self, k: TokenKey) -> int {
        match self.spec_get(k) {
            Some(v) => v as int,
            None => 0,
        }
    }

    /// The total of all tokens of type `tt`.
    pub open spec fn spec_balance(self, tt: TokenType) -> int {
        type_sum(self.spec_entries(), tt)
    }

    fn take_entries(&mut self) -> (r: Vec<(Token, i64)>)
        ensures
            r@ == old(self).entries@,
            final(self).entries@ == Seq::<(Token, i64)>::empty(),
    {
        let mut e: Vec<(Token, i64)> = Vec::new();
        std::mem::swap(&mut e, &mut self.entries);
        e
    }

    /// No balance recorded.
    pub fn new() -> (r: Self)
        ensures
            r.spec_entries() == Seq::<(Token, i64)>::empty(),
            forall|k: TokenKey| r.spec_get(k) is None,
            forall|tt: TokenType| r.spec_balance(tt) == 0,
    {
        TokenMap { entries: Vec::new() }
    }

    /// Number of tokens recorded.
    pub fn len(&self) -> (r: usize)
        ensures
            r == self.spec_entries().len(),
    {
        self.entries.len()
    }

    /// The token and amount at position `i`.
    pub fn entry_at(&self, i: usize) -> (r: (Token, i64))
        requires
            i < self.spec_entries().len(),
        ensures
            r.0@ == self.spec_entries()[i as int].0@,
            r.0.token_type == self.spec_entries()[i as int].0.token_type,
            r.1 == self.spec_entries()[i as int].1,
            self.spec_get(r.0@) == Some(r.1),
    {
        proof {
            use_type_invariant(self);
            lemma_lookup_at(self.entries@, i as int);
        }
        let (t, v) = &self.entries[i];
        (t.duplicate(), *v)
    }

    fn position(&self, key: &Token) -> (r: Option<usize>)
        ensures
            r is None <==> self.spec_get(key@) is None,
            r matches Some(i) ==> i < self.spec_entries().len() && self.spec_entries()[i as int].0@ == key@
                && self.spec_get(key@) == Some(self.spec_entries()[i as int].1),
    {
        proof {
            use_type_invariant(self);
            lemma_lookup_absent(self.entries@, key@);
        }
        let mut i: usize = 0;
        while i < self.entries.len()
            invariant
                i <= self.entries.len(),
                forall|j: int| 0 <= j < i ==> #[trigger] self.entries@[j].0@ != key@,
            decreases self.entries.len() - i,
        {
            if self.entries[i].0.equals(key) {
                proof {
                    use_type_invariant(self);
                    lemma_lookup_at(self.entries@, i as int);
                }
                return Some(i);
            }
            i += 1;
        }
        None
    }

    /// The amount recorded for `key`.
    pub fn get(&self, key: &Token) -> (r: Option<i64>)
        ensures
            r == self.spec_get(key@),
    {
        match self.position(key) {
            Some(i) => Some(self.entries[i].1),
            None => None,
        }
    }

    /// The amount recorded for `key`, zero when absent.
    pub fn value(&self, key: &Token) -> (r: i64)
        ensures
            r == self.spec_value(key@),
    {
        match self.get(key) {
            Some(v) => v,
            None => 0,
        }
    }

    /// Record `v` for `key`, replacing an earlier amount.
    pub fn insert(&mut self, key: Token, v: i64)
        ensures
            final(self).spec_get(key@) == Some(v),
            forall|k: TokenKey| k != key@ ==> final(self).spec_get(k) == old(self).spec_get(k),
            forall|tt: TokenType| #[trigger] final(self).spec_balance(tt) == old(self).spec_balance(tt)
                - (if key.token_type == tt { old(self).spec_value(key@) } else { 0 })
                + (if key.token_type == tt { v as int } else { 0 }),
            bal(*final(self)) == bset(bal(*old(self)), key@, v),
            final(self).spec_entries().len() == old(self).spec_entries().len() + (if old(self).spec_get(key@) is Some { 0int } else { 1int }),
            old(self).spec_get(key@) is None ==> final(self).spec_entries() == old(self).spec_entries().push((key, v)),
    {
        proof {
            use_type_invariant(&*self);
        }
        let ghost before = *self;
        self.insert_entry(key, v);
        proof {
            let b = bset(bal(before), key@, v);
            assert(bal(*self).0 =~= b.0);
            assert(bal(*self).1 =~= b.1);
        }
    }

    fn insert_entry(&mut self, key: Token, v: i64)
        ensures
            final(self).spec_get(key@) == Some(v),
            forall|k: TokenKey| k != key@ ==> final(self).spec_get(k) == old(self).spec_get(k),
            forall|tt: TokenType| #[trigger] final(self).spec_balance(tt) == old(self).spec_balance(tt)
                - (if key.token_type == tt { old(self).spec_value(key@) } else { 0 })
                + (if key.token_type == tt { v as int } else { 0 }),
            final(self).spec_entries().len() == old(self).spec_entries().len() + (if old(self).spec_get(key@) is Some { 0int } else { 1int }),
            old(self).spec_get(key@) is None ==> final(self).spec_entries() == old(self).spec_entries().push((key, v)),
    {
        proof {
            use_type_invariant(&*self);
        }
        match self.position(&key) {
            Some(i) => {
                proof {
                    lemma_update(self.entries@, i as int, key, v);
                }
                let mut e = self.take_entries();
                e.set(i, (key, v));
                self.entries = e;
            },
            None => {
                proof {
                    lemma_push(self.entries@, key, v);
                }
                let mut e = self.take_entries();
                e.push((key, v));
                self.entries = e;
            },
        }
    }

    /// Add `delta` to the amount of `key`, an absent token counting as zero.
    pub fn add(&mut self, key: Token, delta: i64)
        requires
            i64::MIN <= old(self).spec_value(key@) + delta <= i64::MAX,
        ensures
            final(self).spec_get(key@) == Some((old(self).spec_value(key@) + delta) as i64),
            forall|k: TokenKey| k != key@ ==> final(self).spec_get(k) == old(self).spec_get(k),
            forall|tt: TokenType| #[trigger] final(self).spec_balance(tt) == old(self).spec_balance(tt)
                + (if key.token_type == tt { delta as int } else { 0 }),
            final(self).spec_entries().len() == old(self).spec_entries().len() + (if old(self).spec_get(key@) is Some { 0int } else { 1int }),
    {
        let cur = self.value(&key);
        self.insert(key, cur + delta);
    }

    /// The total held by tokens of type `tt`.
    pub fn balance_by_type(&self, tt: &TokenType) -> (r: i64)
        requires
            i64::MIN <= self.spec_balance(*tt) <= i64::MAX,
        ensures
            r == self.spec_balance(*tt),
    {
        let mut sum: i128 = 0;
        let mut i: usize = 0;
        while i < self.entries.len()
            invariant
                i <= self.entries.len(),
                sum == type_sum(self.entries@.subrange(0, i as int), *tt),
            decreases self.entries.len() - i,
        {
            proof {
                lemma_type_sum_bound(self.entries@.subrange(0, i as int), *tt);
                assert(self.entries@.subrange(0, i + 1).drop_last() =~= self.entries@.subrange(0, i as int));
            }
            if self.entries[i].0.token_type == *tt {
                sum = sum + self.entries[i].1 as i128;
            }
            i += 1;
        }
        proof {
            assert(self.entries@.subrange(0, self.entries@.len() as int) =~= self.entries@);
        }
        sum as i64
    }

    /// A copy with the same entries.
    pub fn duplicate(&self) -> (r: Self)
        ensures
            r.spec_entries().len() == self.spec_entries().len(),
            forall|k: TokenKey| r.spec_get(k) == self.spec_get(k),
            forall|tt: TokenType| r.spec_balance(tt) == self.spec_balance(tt),
    {
        let mut e: Vec<(Token, i64)> = Vec::new();
        let mut i: usize = 0;
        proof {
            use_type_invariant(self);
        }
        while i < self.entries.len()
            invariant
                i <= self.entries.len(),
                distinct_keys(self.entries@),
                e@.len() == i,
                forall|j: int| 0 <= j < i ==> same_entry(#[trigger] e@[j], self.entries@[j]),
            decreases self.entries.len() - i,
        {
            let t = self.entries[i].0.duplicate();
            let v = self.entries[i].1;
            e.push((t, v));
            i += 1;
        }
        proof {
            lemma_same_entries(e@, self.entries@);
            assert(distinct_keys(e@)) by {
                assert forall|a: int, b: int| 0 <= a < e@.len() && 0 <= b < e@.len() && a != b implies #[trigger] e@[a].0@ != #[trigger] e@[b].0@ by {
                    assert(self.entries@[a].0@ != self.entries@[b].0@);
                }
            }
        }
        TokenMap { entries: e }
    }

    /// Copy of the entries, for reading them out.
    pub fn to_vec(&self) -> (r: Vec<(Token, i64)>)
        ensures
            r@.len() == self.spec_entries().len(),
            forall|j: int| 0 <= j < r@.len() ==> #[trigger] r@[j].0@ == self.spec_entries()[j].0@
                && r@[j].1 == self.spec_entries()[j].1,
    {
        let mut r: Vec<(Token, i64)> = Vec::new();
        let mut i: usize = 0;
        while i < self.entries.len()
            invariant
                i <= self.entries.len(),
                r@.len() == i,
                forall|j: int| 0 <= j < i ==> #[trigger] r@[j].0@ == self.entries@[j].0@ && r@[j].1 == self.entries@[j].1,
            decreases self.entries.len() - i,
        {
            let t = self.entries[i].0.duplicate();
            let v = self.entries[i].1;
            r.push((t, v));
            i += 1;
        }
        r
    }

    /// Set the amount of every recorded token whose type is in `tts` to zero.
    pub fn zero_types(&mut self, tts: &Vec<TokenType>)
        ensures
            forall|k: TokenKey| tts@.contains(k.token_type) && old(self).spec_get(k) is Some ==> final(self).spec_get(k) == Some(0i64),
            forall|k: TokenKey| !tts@.contains(k.token_type) ==> final(self).spec_get(k) == old(self).spec_get(k),
            forall|k: TokenKey| old(self).spec_get(k) is None ==> final(self).spec_get(k) is None,
            forall|tt: TokenType| #[trigger] final(self).spec_balance(tt) == (if tts@.contains(tt) { 0 } else { old(self).spec_balance(tt) }),
    {
        let mut i: usize = 0;
        let ghost s0 = self.entries@;
        proof {
            use_type_invariant(&*self);
        }
        while i < self.entries.len()
            invariant
                i <= self.entries.len(),
                self.entries@.len() == s0.len(),
                distinct_keys(s0),
                forall|j: int| 0 <= j < s0.len() ==> #[trigger] self.entries@[j].0@ == s0[j].0@,
                forall|j: int| 0 <= j < i && tts@.contains(s0[j].0.token_type) ==> #[trigger] self.entries@[j].1 == 0,
                forall|j: int| 0 <= j < s0.len() && !(j < i && tts@.contains(s0[j].0.token_type)) ==> #[trigger] self.entries@[j].1 == s0[j].1,
                forall|j: int| 0 <= j < s0.len() ==> #[trigger] self.entries@[j].0.token_type == s0[j].0.token_type,
            decreases self.entries.len() - i,
        {
            let tt = self.entries[i].0.token_type;
            if contains_type(tts, tt) {
                let t = self.entries[i].0.duplicate();
                proof {
                    assert(distinct_keys(self.entries@)) by {
                        assert forall|a: int, b: int| 0 <= a < self.entries@.len() && 0 <= b < self.entries@.len() && a != b implies #[trigger] self.entries@[a].0@ != #[trigger] self.entries@[b].0@ by {
                            assert(s0[a].0@ != s0[b].0@);
                        }
                    }
                    lemma_update(self.entries@, i as int, t, 0);
                }
                let mut e = self.take_entries();
                e.set(i, (t, 0));
                self.entries = e;
            }
            i += 1;
        }
        proof {
            assert forall|k: TokenKey| true implies
                (tts@.contains(k.token_type) && lookup(s0, k) is Some ==> lookup(self.entries@, k) == Some(0i64))
                && (!tts@.contains(k.token_type) ==> lookup(self.entries@, k) == lookup(s0, k))
                && (lookup(s0, k) is None ==> lookup(self.entries@, k) is None) by {
                lemma_lookup_absent(s0, k);
                lemma_lookup_absent(self.entries@, k);
                if lookup(s0, k) is Some {
                    let j = choose|j: int| 0 <= j < s0.len() && #[trigger] s0[j].0@ == k;
                    lemma_lookup_at(s0, j);
                    lemma_lookup_at(self.entries@, j);
                    lemma_key_type(s0[j].0, k);
                }
            }
            assert forall|tt: TokenType| #[trigger] type_sum(self.entries@, tt) == (if tts@.contains(tt) { 0 } else { type_sum(s0, tt) }) by {
                if tts@.contains(tt) {
                    lemma_type_sum_zero(self.entries@, tt);
                } else {
                    lemma_type_sum_same(s0, self.entries@, tt);
                }
            }
        }
    }
}

/// Whether `tt` occurs in `tts`.
pub fn contains_type(tts: &Vec<TokenType>, tt: TokenType) -> (r: bool)
    ensures
        r == tts@.contains(tt),
{
    let mut i: usize = 0;
    while i < tts.len()
        invariant
            i <= tts.len(),
            forall|j: int| 0 <= j < i ==> tts@[j] != tt,
        decreases tts.len() - i,
    {
        if tts[i] == tt {
            return true;
        }
        i += 1;
    }
    false
}

/// A token's view carries its type.
pub proof fn lemma_key_type(t: Token, k: TokenKey)
    requires
        t@ == k,
    ensures
        t.token_type == k.token_type,
{
}

/// Same token and amount.
pub open spec fn same_entry(a: (Token, i64), b: (Token, i64)) -> bool {
    a.0@ == b.0@ && a.0.token_type == b.0.token_type && a.1 == b.1
}

/// Two entry lists with the same keys and amounts, position by position, record the same map.
pub proof fn lemma_same_entries(a: Seq<(Token, i64)>, b: Seq<(Token, i64)>)
    requires
        a.len() == b.len(),
        forall|j: int| 0 <= j < a.len() ==> same_entry(#[trigger] a[j], b[j]),
    ensures
        forall|k: TokenKey| lookup(a, k) == lookup(b, k),
        forall|tt: TokenType| type_sum(a, tt) == type_sum(b, tt),
    decreases a.len(),
{
    if a.len() > 0 {
        let (da, db) = (a.drop_last(), b.drop_last());
        assert forall|j: int| 0 <= j < da.len() implies same_entry(#[trigger] da[j], db[j]) by {
            assert(same_entry(a[j], b[j]));
        }
        lemma_same_entries(da, db);
        assert(same_entry(a[a.len() - 1], b[b.len() - 1]));
        assert forall|k: TokenKey| lookup(a, k) == lookup(b, k) by {
            assert(lookup(da, k) == lookup(db, k));
        }
        assert forall|tt: TokenType| type_sum(a, tt) == type_sum(b, tt) by {
            assert(type_sum(da, tt) == type_sum(db, tt));
        }
    }
}

} // verus!
