//! The library's one source of randomness: a trusted bridge to `rand`.

use vstd::prelude::*;

verus! {

/// Relies on rand::random_range (rand's thread-local generator): it returns
/// a uniformly distributed value in the given half-open range, and panics
/// only on an empty range, which the precondition rules out. Nothing more
/// can be promised of a random draw than its range.
#[verifier::external_body]
pub(crate) fn random_in_range(lo: usize, hi: usize) -> (r: usize)
    requires
        lo < hi,
    ensures
        lo <= r < hi,
{
    rand::random_range(lo..hi)
}

} // verus!
