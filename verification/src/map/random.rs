//! The random numbers that the map is made from. Each function here hands
//! on one call of the `rand` crate; what is said of its result is taken on
//! trust from that crate.

use rand::Rng;
use vstd::prelude::*;

verus! {

/// `rand::Rng::gen_range` on the generator of the thread: some number from
/// `low` up to, and not including, `high`. The call panics unless
/// `low < high`.
#[verifier::external_body]
pub(crate) fn random_in_range(low: i32, high: i32) -> (n: i32)
    requires
        low < high,
    ensures
        low <= n < high,
{
    rand::thread_rng().gen_range(low, high)
}

/// `rand::random` for a `bool`: one or the other.
#[verifier::external_body]
pub(crate) fn random_coin() -> bool {
    rand::random()
}

/// `rand::Rng::gen_ratio` on the generator of the thread: `true` in
/// `numerator` cases out of `denominator`, so always when the two are
/// equal and never when `numerator` is zero. The call panics when
/// `denominator` is zero or below `numerator`.
#[verifier::external_body]
pub(crate) fn random_ratio(numerator: u32, denominator: u32) -> (hit: bool)
    requires
        denominator > 0,
        numerator <= denominator,
    ensures
        numerator == denominator ==> hit,
        numerator == 0 ==> !hit,
{
    rand::thread_rng().gen_ratio(numerator, denominator)
}

} // verus!
