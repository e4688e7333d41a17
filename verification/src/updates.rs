//! When the application looks for a newer release.
use vstd::prelude::*;

verus! {

/// Minimum time, in seconds, between two looks for a newer release.
pub const UPDATE_CHECK_INTERVAL_SECS: u64 = 60 * 60;

/// A look for a newer release is due when more than the interval has passed
/// since the last one; `now` and `last_check` are seconds since the Unix
/// epoch, the last check never lying in the future.
pub fn update_check_due(now: u64, last_check: u64) -> (due: bool)
    requires
        last_check <= now,
    ensures
        due == (now - last_check > UPDATE_CHECK_INTERVAL_SECS),
{
    now - last_check > UPDATE_CHECK_INTERVAL_SECS
}

} // verus!
