//! The pseudo-random source used for sampling.
//!
//! The renderer draws all of its randomness through [`next_unit`], a
//! uniform fixed-point scalar in `[0, 1)`. Each pixel owns a private
//! generator built by [`rng_from_seed`], so workers never share
//! mutable state.

use vstd::prelude::*;

verus! {

#[verifier::external_type_specification]
#[verifier::external_body]
pub struct ExStdRng(rand::rngs::StdRng);

/// Relies on `rand::SeedableRng::seed_from_u64`: builds a generator
/// from a 64-bit seed. Nothing is assumed of the stream it yields.
#[verifier::external_body]
pub fn rng_from_seed(seed: u64) -> rand::rngs::StdRng {
    <rand::rngs::StdRng as rand::SeedableRng>::seed_from_u64(seed)
}

/// Relies on `rand::Rng::gen::<u16>`: one 16-bit draw, so the result
/// read as a fixed-point scalar lies in `[0, 1)`. Which value comes
/// back is not specified.
#[verifier::external_body]
pub fn next_unit(rng: &mut rand::rngs::StdRng) -> (r: i64)
    ensures
        0 <= r < 65536,
{
    rand::Rng::gen::<u16>(rng) as i64
}

} // verus!
