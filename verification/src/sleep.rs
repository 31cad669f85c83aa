//! Jittered delay durations, in milliseconds.
//!
//! Randomized delays avoid synchronized, predictable timing across competing
//! agents. Only the durations are computed here; performing a cancellable
//! wait of that length is the caller's business.

use crate::COOLDOWN_TIME_MS;
use nanorand::Rng;
use vstd::prelude::*;

verus! {

/// Relies on nanorand's `generate_range` (thread-local WyRand): on an
/// inclusive, non-empty range it returns a value inside that range.
#[verifier::external_body]
pub(crate) fn rand_in_range(lo: u64, hi: u64) -> (r: u64)
    requires
        lo <= hi,
    ensures
        lo <= r <= hi,
{
    nanorand::tls_rng().generate_range(lo..=hi)
}

/// A short random delay: anywhere up to a tenth of the cooldown.
pub fn short_jitter() -> (r: u64)
    ensures
        r <= COOLDOWN_TIME_MS / 10,
{
    rand_in_range(0, COOLDOWN_TIME_MS / 10)
}

/// A long random delay: anywhere up to half of the cooldown.
pub fn long_jitter() -> (r: u64)
    ensures
        r <= COOLDOWN_TIME_MS / 2,
{
    rand_in_range(0, COOLDOWN_TIME_MS / 2)
}

/// The wait after an action attempt: the full cooldown plus a short jitter.
pub fn cooldown_with_short_jitter() -> (r: u64)
    ensures
        COOLDOWN_TIME_MS <= r <= COOLDOWN_TIME_MS + COOLDOWN_TIME_MS / 10,
{
    COOLDOWN_TIME_MS + short_jitter()
}

} // verus!
