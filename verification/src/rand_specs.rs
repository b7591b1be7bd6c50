use vstd::prelude::*;
use rand::rngs::{StdRng, ThreadRng};
use rand::seq::SliceRandom;
use rand::{RngExt, SeedableRng};

verus! {

#[verifier::external_type_specification]
#[verifier::external_body]
pub struct ExThreadRng(ThreadRng);

#[verifier::external_type_specification]
#[verifier::external_body]
pub struct ExStdRng(StdRng);

/// `rand::rng`: the thread-local generator.
#[verifier::external_body]
pub(crate) fn thread_rng() -> ThreadRng {
    rand::rng()
}

/// `SeedableRng::seed_from_u64` for the standard generator.
#[verifier::external_body]
pub(crate) fn seeded_rng(seed: u64) -> StdRng {
    StdRng::seed_from_u64(seed)
}

/// `SliceRandom::shuffle` with the thread-local generator: the elements
/// are swapped around, so they come out in some order, all of them.
#[verifier::external_body]
pub(crate) fn shuffle_with_thread_rng(v: &mut Vec<usize>, rng: &mut ThreadRng)
    ensures
        final(v)@.len() == old(v)@.len(),
        final(v)@.to_multiset() == old(v)@.to_multiset(),
{
    v.shuffle(rng)
}

/// `SliceRandom::shuffle` with a seeded generator: as above.
#[verifier::external_body]
pub(crate) fn shuffle_with_std_rng(v: &mut Vec<usize>, rng: &mut StdRng)
    ensures
        final(v)@.len() == old(v)@.len(),
        final(v)@.to_multiset() == old(v)@.to_multiset(),
{
    v.shuffle(rng)
}

/// `RngExt::random_range` over `0..=max`: some number from 0 to `max`.
#[verifier::external_body]
pub(crate) fn random_at_most(rng: &mut ThreadRng, max: usize) -> (r: usize)
    ensures
        r <= max,
{
    rng.random_range(0..=max)
}

} // verus!
