//! The randomness source for checkout selection.

use vstd::prelude::*;

verus! {

/// Relies on `rand::Rng::gen_range` over the thread-local generator
/// `rand::thread_rng`: returns a uniformly random value in `[0, n)`. The
/// call panics only on an empty range, which the precondition rules out.
#[verifier::external_body]
pub(crate) fn rand_below(n: u64) -> (r: u64)
    requires
        n > 0,
    ensures
        r < n,
{
    rand::Rng::gen_range(&mut rand::thread_rng(), 0..n)
}

} // verus!
