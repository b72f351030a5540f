//! The one door to the random number generator.
use vstd::prelude::*;
use rand::Rng;
use crate::decimal::SCALE;

verus! {

/// A number drawn from zero up to, and not including, `bound`, by
/// `rand::Rng::gen_range` on the generator of the calling thread. Nothing is
/// claimed of the draw but its range; `gen_range` does not take an empty
/// range, so the bound is positive.
#[verifier::external_body]
pub(crate) fn random_below(bound: u128) -> (drawn: u128)
    requires
        bound > 0,
    ensures
        drawn < bound,
{
    rand::thread_rng().gen_range(0..bound)
}

/// A fraction drawn from the unit interval, one excluded.
pub fn random_unit() -> (roll: i64)
    ensures
        0 <= roll < SCALE,
{
    random_below(SCALE as u128) as i64
}

} // verus!
