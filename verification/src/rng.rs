use vstd::prelude::*;

verus! {

/// Relies on rand::rng and rand::RngExt::random_range: a sample drawn from
/// the non-empty range `0..n` lies in that range. random_range panics only
/// on an empty range, which the precondition rules out; rand::rng can fail
/// only if the operating system's generator fails at its first seeding.
/// Nothing more is assumed of the sample: it comes from the process-wide
/// generator and two calls may differ.
#[verifier::external_body]
pub(crate) fn random_below(n: usize) -> (r: usize)
    requires
        n > 0,
    ensures
        r < n,
{
    rand::RngExt::random_range(&mut rand::rng(), 0..n)
}

} // verus!
