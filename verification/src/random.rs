//! The one place where the library draws random numbers.

use rand::Rng;
use vstd::prelude::*;

verus! {

/// Draws one number from `low` up to, but not including, `high`.
///
/// The body makes `rand`'s thread-local generator (`rand::thread_rng`) sample
/// the distribution `rand::distributions::Uniform::new(low, high)`. `Uniform`
/// refuses an empty range, hence the precondition, and samples from the
/// half-open range it was made with; nothing else is claimed of the result,
/// and nothing is proved of any of it. The generator panics where the
/// operating system fails to give it a seed, at its first use in a thread or
/// when it seeds itself anew; no choice of `low` and `high` can cause or
/// prevent that.
#[verifier::external_body]
pub(crate) fn uniform(low: i64, high: i64) -> (r: i64)
    requires
        low < high,
    ensures
        low <= r < high,
{
    rand::thread_rng().sample(rand::distributions::Uniform::new(low, high))
}

} // verus!
