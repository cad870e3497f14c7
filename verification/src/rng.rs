//! Seeded random number generation for the dungeon generator, through
//! trusted wrappers around the `rand` crate. Nothing is assumed about which
//! value comes out beyond the documented range, so every caller is verified
//! for every possible draw.

use vstd::prelude::*;

verus! {

#[verifier::external_type_specification]
#[verifier::external_body]
pub struct ExStdRng(rand::rngs::StdRng);

/// Relies on rand's `SeedableRng::seed_from_u64`: builds a deterministic
/// generator from a 64-bit seed.
#[verifier::external_body]
pub(crate) fn rng_from_seed(seed: u64) -> rand::rngs::StdRng {
    <rand::rngs::StdRng as rand::SeedableRng>::seed_from_u64(seed)
}

/// Relies on rand's `RngExt::random_range`: a draw from `low..high`, which
/// its documentation promises lies in that half-open range (and panics on an
/// empty range, hence the precondition).
#[verifier::external_body]
pub(crate) fn rng_range(rng: &mut rand::rngs::StdRng, low: i32, high: i32) -> (r: i32)
    requires
        low < high,
    ensures
        low <= r < high,
{
    rand::RngExt::random_range(rng, low..high)
}

/// Relies on rand's `RngExt::random::<bool>`: a coin flip. Nothing is
/// promised about the outcome.
#[verifier::external_body]
pub(crate) fn rng_coin(rng: &mut rand::rngs::StdRng) -> bool {
    rand::RngExt::random::<bool>(rng)
}

} // verus!
