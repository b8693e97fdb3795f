use vstd::prelude::*;
use vstd::utf8::encode_utf8;
use vstd::wrapping::u64_specs::{wrapping_add, wrapping_mul};

verus! {

/// Scouting parameters that influence encounter replacement
#[derive(Clone, Debug)]
pub struct ScoutingParams {
    pub preview_count: usize,
    pub affix_bias: Option<Vec<String>>,
    pub pool_modifier: Option<String>,
}

/// Length in bytes of a string, as `str::len` reports it.
pub open spec fn byte_len(s: Seq<char>) -> u64 {
    (encode_utf8(s).len() as usize) as u64
}

/// Folding the affix biases into a seed: `acc * 31 + len` per affix, modulo 2^64.
pub open spec fn fold_bias(seed: u64, affixes: Seq<String>) -> u64
    decreases affixes.len(),
{
    if affixes.len() == 0 {
        seed
    } else {
        wrapping_add(
            wrapping_mul(fold_bias(seed, affixes.drop_last()), 31),
            byte_len(affixes.last()@),
        )
    }
}

/// The seed that `apply_to_seed` derives.
pub open spec fn spec_apply_to_seed(p: ScoutingParams, base_seed: u64) -> u64 {
    let after_bias = match p.affix_bias {
        Some(bias) => fold_bias(base_seed, bias@),
        None => base_seed,
    };
    let after_pool = match p.pool_modifier {
        Some(m) => wrapping_add(wrapping_mul(after_bias, 17), byte_len(m@)),
        None => after_bias,
    };
    wrapping_add(after_pool, p.preview_count as u64)
}

fn str_byte_len(s: &String) -> (r: u64)
    ensures
        r == byte_len(s@),
{
    let t = s.as_str();
    let n = t.len();
    n as u64
}

impl ScoutingParams {
    pub fn new(preview_count: usize) -> (r: Self)
        ensures
            r.preview_count == preview_count,
            r.affix_bias is None,
            r.pool_modifier is None,
    {
        ScoutingParams { preview_count, affix_bias: None, pool_modifier: None }
    }

    pub fn with_affix_bias(self, bias: Vec<String>) -> (r: Self)
        ensures
            r.preview_count == self.preview_count,
            r.affix_bias == Some(bias),
            r.pool_modifier == self.pool_modifier,
    {
        let mut s = self;
        s.affix_bias = Some(bias);
        s
    }

    pub fn with_pool_modifier(self, modifier: String) -> (r: Self)
        ensures
            r.preview_count == self.preview_count,
            r.affix_bias == self.affix_bias,
            r.pool_modifier == Some(modifier),
    {
        let mut s = self;
        s.pool_modifier = Some(modifier);
        s
    }

    /// Apply scouting parameters to bias affix selection
    pub fn apply_to_seed(&self, base_seed: u64) -> (r: u64)
        ensures
            r == spec_apply_to_seed(*self, base_seed),
    {
        let mut result = base_seed;
        match &self.affix_bias {
            Some(bias) => {
                let mut i: usize = 0;
                while i < bias.len()
                    invariant
                        i <= bias.len(),
                        result == fold_bias(base_seed, bias@.subrange(0, i as int)),
                    decreases bias.len() - i,
                {
                    let l = str_byte_len(&bias[i]);
                    result = result.wrapping_mul(31).wrapping_add(l);
                    proof {
                        assert(bias@.subrange(0, i + 1).drop_last() =~= bias@.subrange(0, i as int));
                    }
                    i += 1;
                }
                proof {
                    assert(bias@.subrange(0, bias@.len() as int) =~= bias@);
                }
            },
            None => {},
        }
        match &self.pool_modifier {
            Some(modifier) => {
                let l = str_byte_len(modifier);
                result = result.wrapping_mul(17).wrapping_add(l);
            },
            None => {},
        }
        result.wrapping_add(self.preview_count as u64)
    }
}

} // verus!
