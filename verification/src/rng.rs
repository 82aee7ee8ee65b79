use vstd::prelude::*;

verus! {

/// Relies on rand::random_range: draws a uniformly random index from
/// `0..n` with the thread-local generator. The draw is random, so nothing
/// beyond its bound is promised; callers state what holds for every draw.
#[verifier::external_body]
pub(crate) fn random_index(n: usize) -> (r: usize)
    requires
        n >= 1,
    ensures
        r < n,
{
    rand::random_range(0..n)
}

} // verus!
