//! The source of randomness: rand's thread-local generator.
use vstd::prelude::*;
use rand::Rng;

verus! {

/// Draws a number from `0..n` with rand's thread-local generator
/// (`rand::thread_rng().gen_range(0..n)`, which panics on an empty range).
/// Only the range of the result is stated: the number is random.
#[verifier::external_body]
pub(crate) fn random_below(n: usize) -> (r: usize)
    requires
        n > 0,
    ensures
        r < n,
{
    rand::thread_rng().gen_range(0..n)
}

} // verus!
