//! The one place where the library draws randomness.
//!
//! Every sampling decision the verified code makes (shuffling the noise
//! permutations, picking a split axis while building the hierarchy) reduces
//! to drawing one index below a bound.  Nothing can be promised about which
//! index comes back, so the contract states only the bound.

use vstd::prelude::*;
use rand::Rng;

verus! {

/// Relies on `rand::thread_rng` and `rand::Rng::gen_range`: a value drawn
/// from the half-open range `0..n`, which is always below `n`.
#[verifier::external_body]
pub(crate) fn random_below(n: usize) -> (r: usize)
    requires
        n > 0,
    ensures
        r < n,
{
    rand::thread_rng().gen_range(0..n)
}

} // verus!
