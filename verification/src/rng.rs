//! Randomness, from the `rand` crate's thread-local generator. Nothing is
//! promised of a draw beyond its range: every caller is verified for all
//! values a draw can take.
use vstd::prelude::*;
use rand::Rng;
use rand::seq::SliceRandom;

verus! {

/// `rand::Rng::gen_range(0..n)` on the thread generator: a value in `0..n`.
/// `gen_range` panics on an empty range, so `n` must be positive.
#[verifier::external_body]
pub(crate) fn random_index(n: usize) -> (r: usize)
    requires
        n > 0,
    ensures
        r < n,
{
    rand::thread_rng().gen_range(0..n)
}

/// `rand::Rng::gen_ratio(numerator, denominator)` on the thread generator:
/// true with probability `numerator / denominator`; rand documents that it is
/// always true when the two are equal and always false when `numerator` is 0,
/// and that it panics when `denominator` is 0 or below `numerator`.
#[verifier::external_body]
pub(crate) fn random_ratio(numerator: u32, denominator: u32) -> (r: bool)
    requires
        0 < denominator,
        numerator <= denominator,
    ensures
        numerator == denominator ==> r,
        numerator == 0 ==> !r,
{
    rand::thread_rng().gen_ratio(numerator, denominator)
}

/// `rand::seq::SliceRandom::shuffle` on the thread generator: a random
/// permutation of the elements (the source swaps elements in place).
#[verifier::external_body]
pub(crate) fn shuffle_bytes(v: &mut Vec<u8>)
    ensures
        final(v)@.to_multiset() == old(v)@.to_multiset(),
{
    v.shuffle(&mut rand::thread_rng())
}

} // verus!
