use vstd::prelude::*;
use rand::Rng;

verus! {

/// Relies on `rand::Rng::gen_ratio` on the thread-local generator: true with
/// probability `numerator / denominator`, always true when the two are equal
/// and always false when `numerator` is zero; it panics when `denominator` is
/// zero or smaller than `numerator`.
#[verifier::external_body]
pub(crate) fn chance(numerator: u32, denominator: u32) -> (r: bool)
    requires
        0 < denominator,
        numerator <= denominator,
    ensures
        numerator == 0 ==> !r,
        numerator == denominator ==> r,
{
    rand::thread_rng().gen_ratio(numerator, denominator)
}

/// Relies on `rand::Rng::gen_range` on the thread-local generator: a value of
/// the half-open range `0..bound`; it panics on an empty range.
#[verifier::external_body]
pub(crate) fn random_below(bound: usize) -> (r: usize)
    requires
        0 < bound,
    ensures
        r < bound,
{
    rand::thread_rng().gen_range(0..bound)
}

} // verus!
