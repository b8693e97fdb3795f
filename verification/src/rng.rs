//! The seeded pseudo-random generator used by the game (`rand_pcg::Lcg64Xsh32`).
//!
//! The generator's state is opaque here: every draw is treated as an
//! arbitrary value, so each contract below holds for every outcome.
use rand::{Rng, RngCore, SeedableRng};
use rand_pcg::Lcg64Xsh32;
use vstd::prelude::*;

verus! {

/// The PCG32 generator of `rand_pcg`, carried through the game logic.
#[verifier::external_type_specification]
#[verifier::external_body]
pub struct ExLcg64Xsh32(Lcg64Xsh32);

/// Calls `rand::RngCore::next_u64` on the generator.
/// Nothing is claimed of the value: it rests on the generator's hidden state,
/// which the call advances.
#[verifier::external_body]
pub(crate) fn next_u64(rng: &mut Lcg64Xsh32) -> (r: u64) {
    rng.next_u64()
}

/// Calls `rand::Rng::gen_range(0..len)`: a value in `0..len`.
/// `gen_range` panics on an empty range, hence `len > 0`.
#[verifier::external_body]
pub(crate) fn gen_index(rng: &mut Lcg64Xsh32, len: usize) -> (r: usize)
    requires
        len > 0,
    ensures
        r < len,
{
    rng.gen_range(0..len)
}

/// Calls `rand::SeedableRng::from_seed` for the generator.
/// The generator built is opaque; nothing about it is claimed.
#[verifier::external_body]
pub(crate) fn pcg_from_seed(seed: [u8; 16]) -> (r: Lcg64Xsh32) {
    Lcg64Xsh32::from_seed(seed)
}

} // verus!
