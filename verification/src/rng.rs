use vstd::prelude::*;
use rand::seq::SliceRandom;
use crate::geom::IVec2;


verus! {

/// The small, fast generator of the `rand` crate.
#[verifier::external_type_specification]
#[verifier::external_body]
pub struct ExSmallRng(rand::rngs::SmallRng);

/// Calls `SliceRandom::shuffle` of `rand` on the first `count` offsets.
/// The contract claims only that those entries are permuted and the rest left alone;
/// which permutation comes out depends on the generator's state.
#[verifier::external_body]
pub(crate) fn shuffle_prefix(dirs: &mut [IVec2; 8], count: usize, rng: &mut rand::rngs::SmallRng)
    requires
        count <= 8,
    ensures
        final(dirs)@.len() == 8,
        final(dirs)@.subrange(0, count as int).to_multiset() == old(dirs)@.subrange(0, count as int).to_multiset(),
        final(dirs)@.subrange(count as int, 8) == old(dirs)@.subrange(count as int, 8),
{
    dirs[0..count].shuffle(rng);
}

} // verus!

verus! {

/// Calls `RngExt::random_ratio` of `rand`: `true` with probability `numerator / denominator`.
/// The contract claims what the documentation guarantees: a ratio of one always gives `true`
/// and a numerator of zero always gives `false`; any other outcome depends on the generator.
#[verifier::external_body]
pub(crate) fn random_ratio(rng: &mut rand::rngs::SmallRng, numerator: u32, denominator: u32) -> (r: bool)
    requires
        0 < denominator,
        numerator <= denominator,
    ensures
        numerator == denominator ==> r,
        numerator == 0 ==> !r,
{
    rand::RngExt::random_ratio(rng, numerator, denominator)
}

} // verus!
