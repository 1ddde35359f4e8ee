//! The crate's only sources of randomness, as thin trusted wrappers.

use vstd::prelude::*;
use rand::Rng;

verus! {

/// Relies on rand's `Rng::gen_range` over the inclusive range `min..=max`:
/// it returns a value inside the range and panics only on an empty range,
/// which the bound excludes.
#[verifier::external_body]
pub fn random_in_range(min: i32, max: i32) -> (r: i32)
    requires
        min <= max,
    ensures
        min <= r <= max,
{
    rand::thread_rng().gen_range(min..=max)
}

/// Relies on rand's `Rng::gen_range` over the half-open range `0..bound`:
/// it returns an index below the bound and panics only on an empty range,
/// which the bound excludes.
#[verifier::external_body]
pub fn random_index(bound: usize) -> (r: usize)
    requires
        bound >= 1,
    ensures
        r < bound,
{
    rand::thread_rng().gen_range(0..bound)
}

} // verus!
