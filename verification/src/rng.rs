//! The boundary to the `rand` crate: the standard generator type and the two
//! calls the library makes into it.

use vstd::prelude::*;

verus! {

#[verifier::external_type_specification]
#[verifier::external_body]
pub struct ExStdRng(rand::rngs::StdRng);

/// Relies on rand's `SeedableRng::from_seed` for `StdRng`: builds the
/// deterministic generator for a 256-bit seed. Nothing is assumed about the
/// values it will produce.
#[verifier::external_body]
pub(crate) fn rng_from_seed(seed: [u8; 32]) -> rand::rngs::StdRng {
    <rand::rngs::StdRng as rand::SeedableRng>::from_seed(seed)
}

/// Relies on rand's `Rng::next_u64`: returns the generator's next value.
/// Nothing can be promised of a random value.
#[verifier::external_body]
pub(crate) fn rng_next_u64(rng: &mut rand::rngs::StdRng) -> u64 {
    rand::Rng::next_u64(rng)
}

} // verus!
