//! The random choices the games make, drawn from `rand`'s small generator.

use vstd::prelude::*;
use rand::rngs::SmallRng;
use rand::seq::SliceRandom;
use rand::Rng;
use rand::SeedableRng;

verus! {

#[verifier::external_type_specification]
#[verifier::external_body]
pub struct ExSmallRng(SmallRng);

/// Draws an index uniformly from `lo..hi` with `rand::Rng::gen_range`.
/// Claimed: the result lies in `lo..hi` (`gen_range` asserts the range is not
/// empty, hence the `requires`). Which index comes out is left unsaid: it
/// rests on the generator's state.
#[verifier::external_body]
pub(crate) fn random_index(rng: &mut SmallRng, lo: usize, hi: usize) -> (r: usize)
    requires
        lo < hi,
    ensures
        lo <= r < hi,
{
    rng.gen_range(lo..hi)
}

/// Shuffles a vector in place with `rand::seq::SliceRandom::shuffle`, which
/// swaps elements pairwise (Fisher-Yates). Claimed: the vector afterwards holds
/// the same elements, each as often as before. Their order is left unsaid: it
/// rests on the generator's state.
#[verifier::external_body]
pub(crate) fn shuffle_in_place<T>(items: &mut Vec<T>, rng: &mut SmallRng)
    ensures
        final(items)@.to_multiset() == old(items)@.to_multiset(),
{
    items.shuffle(rng)
}

/// Builds a generator with `rand::SeedableRng::seed_from_u64`. Nothing is
/// claimed of the generator: its stream is not promised to be the same
/// across platforms or versions.
#[verifier::external_body]
pub(crate) fn seeded_rng(seed: u64) -> (rng: SmallRng) {
    SmallRng::seed_from_u64(seed)
}

} // verus!
