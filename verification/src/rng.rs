//! The source of randomness, behind a trusted boundary.  Verified code
//! states only what holds of every outcome: the result is below the bound.

use rand::Rng;
use vstd::prelude::*;

verus! {

/// Relies on `rand::Rng::gen_range` over the half-open range `0..n` of the
/// thread-local generator: the result lies below `n`.  The call panics only
/// on an empty range, which the precondition rules out.
#[verifier::external_body]
pub(crate) fn rand_below(n: u32) -> (r: u32)
    requires
        1 <= n,
    ensures
        r < n,
{
    rand::thread_rng().gen_range(0..n)
}

} // verus!
