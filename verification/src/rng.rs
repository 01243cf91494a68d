use vstd::prelude::*;
use rand::RngExt;

verus! {

/// Relies on rand::RngExt::random_range over the thread-local generator:
/// it samples uniformly from `0..bound` and always returns a value below
/// the bound; it panics only on an empty range, which the precondition
/// rules out. Nothing more is assumed of the draw: callers must hold for
/// every outcome below the bound.
#[verifier::external_body]
pub(crate) fn random_below(bound: u32) -> (r: u32)
    requires
        bound >= 1,
    ensures
        r < bound,
{
    rand::rng().random_range(0..bound)
}

} // verus!
