//! Random numbers, from the thread's generator of `rand`. The operating system seeds
//! it on its first use on a thread, and again each time it has given out a fixed
//! number of bytes; a use that needs a seed panics where none is to be had.

use rand::Rng;
use vstd::prelude::*;

verus! {

/// Calls `rand::Rng::random` on the thread's generator. Nothing is claimed of the
/// number: any value may come.
#[verifier::external_body]
pub(crate) fn random_u32() -> (n: u32) {
    rand::rng().random()
}

/// Calls `rand::Rng::random` on the thread's generator. Nothing is claimed of the
/// bytes: any may come.
#[verifier::external_body]
pub(crate) fn random_salt() -> (salt: [u8; 16]) {
    rand::rng().random()
}

/// Calls `rand::Rng::random_range` on the thread's generator, with the range
/// `0..bound`. Claims only that the number lies in that range, which must not be
/// empty: on an empty one the call panics.
#[verifier::external_body]
pub(crate) fn random_below(bound: usize) -> (n: usize)
    requires
        bound > 0,
    ensures
        n < bound,
{
    rand::rng().random_range(0..bound)
}

} // verus!
