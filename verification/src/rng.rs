//! The injected random source the engine draws spawn variants from: a seeded
//! generator from the rand crate, behind trusted declarations.

use vstd::prelude::*;

verus! {

/// Declares rand's seedable standard generator so it can be held in a field.
/// Verus sees nothing of a value of this type.
#[verifier::external_type_specification]
#[verifier::external_body]
pub struct ExStdRng(rand::rngs::StdRng);

/// Relies on rand's `SeedableRng::seed_from_u64`: builds a generator from a
/// plain seed; rand documents the output stream as reproducible for a fixed
/// seed, which nothing here needs to state.
#[verifier::external_body]
pub(crate) fn seed_rng(seed: u64) -> rand::rngs::StdRng {
    rand::SeedableRng::seed_from_u64(seed)
}

/// Relies on rand's `Rng::gen_range` on the non-empty range `0..6`: it
/// returns a value of that range and panics only on an empty range.
#[verifier::external_body]
pub(crate) fn pick_variant_index(rng: &mut rand::rngs::StdRng) -> (i: usize)
    ensures
        i < 6,
{
    rand::Rng::gen_range(rng, 0..6)
}

} // verus!
