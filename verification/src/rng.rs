//! Sources of randomness.
//!
//! Rendering draws from the thread-local generator, exactly as the sampling
//! code needs it: a fixed-point value in `[0, 1)` and an index below a bound.
//! Nothing can be promised about *which* value comes back, only its range.

use vstd::prelude::*;
use crate::fx::FX_ONE;

verus! {

/// Relies on rand::Rng::gen_range over rand::thread_rng: the result lies
/// in the half-open range handed to it.
#[verifier::external_body]
pub fn random_unit() -> (r: i64)
    ensures
        0 <= r < FX_ONE,
{
    rand::Rng::gen_range(&mut rand::thread_rng(), 0i64..65536i64)
}

/// Relies on rand::Rng::gen_range over rand::thread_rng: the result lies
/// in the half-open range handed to it.
#[verifier::external_body]
pub fn random_index(n: usize) -> (r: usize)
    requires
        n > 0,
    ensures
        r < n,
{
    rand::Rng::gen_range(&mut rand::thread_rng(), 0usize..n)
}

} // verus!
