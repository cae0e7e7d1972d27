//! Trusted boundary to the process random number generator.

use vstd::prelude::*;

verus! {

#[verifier::external_type_specification]
#[verifier::external_body]
pub struct ExThreadRng(rand::rngs::ThreadRng);

/// Relies on rand::rng: a handle to the thread-local random number
/// generator. Nothing is promised of the values it will yield.
#[verifier::external_body]
pub fn thread_rng() -> rand::rngs::ThreadRng {
    rand::rng()
}

/// Relies on rand::Rng::random_range: a value sampled uniformly from the
/// non-empty range `lo..hi`. Only the bounds are promised; the sample
/// itself depends on the generator state.
#[verifier::external_body]
pub fn random_range_u32(rng: &mut rand::rngs::ThreadRng, lo: u32, hi: u32) -> (r: u32)
    requires
        lo < hi,
    ensures
        lo <= r < hi,
{
    rand::Rng::random_range(rng, lo..hi)
}

/// Relies on rand::seq::SliceRandom::shuffle: an in-place permutation of
/// the slice, so the multiset of elements is unchanged.
#[verifier::external_body]
pub fn shuffle_u16(v: &mut Vec<u16>, rng: &mut rand::rngs::ThreadRng)
    ensures
        final(v)@.to_multiset() == old(v)@.to_multiset(),
        final(v)@.len() == old(v)@.len(),
{
    rand::seq::SliceRandom::shuffle(v.as_mut_slice(), rng)
}

} // verus!
