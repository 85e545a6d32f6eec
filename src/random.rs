//! Random draws for food placement.

use vstd::prelude::*;
use rand::distributions::IndependentSample;

verus! {

/// Relies on rand's `Range::new(low, high).ind_sample(&mut thread_rng())`,
/// which returns a value in `[low, high)` and panics when `low >= high`.
#[verifier::external_body]
pub(crate) fn random_in(low: usize, high: usize) -> (r: usize)
    requires
        low < high,
    ensures
        low <= r < high,
{
    rand::distributions::Range::new(low, high).ind_sample(&mut rand::thread_rng())
}

} // verus!
