//! The random source of the scheduler.
use vstd::prelude::*;

verus! {

/// rand's seedable generator, carried opaque from caller to the wrappers
/// below.
#[verifier::external_type_specification]
#[verifier::external_body]
pub struct ExStdRng(rand::rngs::StdRng);

/// Relies on `rand::Rng::gen_range` on a half-open range: the value drawn lies
/// in `0..n`; it panics on an empty range, which `requires` leaves out.
#[verifier::external_body]
pub(crate) fn random_below(rng: &mut rand::rngs::StdRng, n: usize) -> (r: usize)
    requires
        n > 0,
    ensures
        r < n,
{
    rand::Rng::gen_range(rng, 0..n)
}

/// Relies on `rand::seq::SliceRandom::shuffle`: a Fisher-Yates shuffle made of
/// swaps, which keeps every item and changes only their order.
#[verifier::external_body]
pub(crate) fn shuffle_indices(rng: &mut rand::rngs::StdRng, v: &mut Vec<usize>)
    ensures
        final(v)@.to_multiset() == old(v)@.to_multiset(),
{
    rand::seq::SliceRandom::shuffle(v.as_mut_slice(), rng)
}

} // verus!
