use vstd::prelude::*;
use rand::rngs::StdRng;
use rand::seq::SliceRandom;
use rand::SeedableRng;

verus! {

/// `rand::rngs::StdRng`, the standard seeded random number generator.
#[verifier::external_type_specification]
#[verifier::external_body]
pub struct ExStdRng(StdRng);

/// Calls `rand::SeedableRng::seed_from_u64`: a generator seeded from `seed`.
/// Nothing is stated of the numbers it gives: `rand` documents them as not
/// reproducible across versions and platforms.
#[verifier::external_body]
pub(crate) fn seeded_rng(seed: u64) -> StdRng {
    StdRng::seed_from_u64(seed)
}

/// Calls `rand::seq::SliceRandom::shuffle`: the vector afterwards holds the
/// same elements, each as often as before, in an order that the generator
/// picks. Which order comes out is not stated.
#[verifier::external_body]
pub(crate) fn shuffle_indices(v: &mut Vec<usize>, rng: &mut StdRng)
    ensures
        final(v)@.to_multiset() == old(v)@.to_multiset(),
{
    v.shuffle(rng)
}

} // verus!
