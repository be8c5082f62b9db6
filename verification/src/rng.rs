//! The source of randomness: a seeded generator handed explicitly to
//! every function that draws from it.

use vstd::prelude::*;

use rand::Rng;
use rand::SeedableRng;

use crate::fixed::SCALE;

verus! {

#[verifier::external_type_specification]
#[verifier::external_body]
pub struct ExStdRng(rand::rngs::StdRng);

/// Deterministic generator from a 64-bit seed.
/// Relies on rand's `StdRng::seed_from_u64`.
#[verifier::external_body]
pub fn new_rng(seed: u64) -> rand::rngs::StdRng {
    rand::rngs::StdRng::seed_from_u64(seed)
}

/// One uniform fixed-point draw in `[0, 1)`.
/// Relies on rand's `Rng::gen_range`: the sample lies in the given
/// half-open range.
#[verifier::external_body]
pub fn next_unit(rng: &mut rand::rngs::StdRng) -> (r: i64)
    ensures
        0 <= r < SCALE,
{
    rng.gen_range(0..SCALE)
}

} // verus!
