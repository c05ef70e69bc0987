//! Random numbers from the `rand` crate.
use vstd::prelude::*;

verus! {

/// A number drawn uniformly from `low..high`, `rand::random_range`.  The crate
/// panics on an empty range, so `low < high` is required; what is promised
/// of the draw is only that it lies in the range.
#[verifier::external_body]
pub fn random_range(low: i64, high: i64) -> (r: i64)
    requires
        low < high,
    ensures
        low <= r < high,
{
    rand::random_range(low..high)
}

} // verus!
