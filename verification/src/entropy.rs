//! The ledger's two sources of nondeterminism — the clock and the random
//! number generator — behind trusted wrappers. Nothing useful can be
//! promised of a clock reading or a random draw, so every function that
//! consumes one states what holds of every possible value.

use vstd::prelude::*;

verus! {

/// Relies on `chrono::Utc::now` and `DateTime::timestamp`: the current
/// time as whole epoch seconds. Which moment the clock reads is not
/// promised, but the reading is nonnegative: `Utc::now` panics when the
/// system clock reads before the Unix epoch (an environment fault no
/// precondition can exclude), and otherwise counts whole seconds since
/// it. A clock so far ahead that the count overflows `i64` seconds is
/// set aside with the same class of environment faults.
#[verifier::external_body]
pub(crate) fn now_timestamp() -> (r: i64)
    ensures
        r >= 0,
{
    chrono::Utc::now().timestamp()
}

/// Relies on `fastrand::u64` over the full range, which never panics.
/// The value is random, so nothing is promised of it.
#[verifier::external_body]
pub(crate) fn random_u64() -> u64 {
    fastrand::u64(..)
}

/// Relies on `fastrand::u64` on the half-open range `0..n`: the draw
/// lies below `n`, and the call panics only on an empty range, which the
/// precondition rules out.
#[verifier::external_body]
pub(crate) fn random_below(n: u64) -> (r: u64)
    requires
        n > 0,
    ensures
        r < n,
{
    fastrand::u64(0..n)
}

} // verus!
