//! The daemon's persistent runtime state.

use std::time::{Duration, SystemTime, SystemTimeError, UNIX_EPOCH};
use vstd::prelude::*;

verus! {

#[verifier::external_type_specification]
#[verifier::external_body]
pub struct ExSystemTime(SystemTime);

#[verifier::external_type_specification]
#[verifier::external_body]
pub struct ExSystemTimeError(SystemTimeError);

/// Reads the system clock through `std::time::SystemTime::now`; nothing is
/// claimed of the reading.
#[verifier::external_body]
fn system_now() -> SystemTime {
    SystemTime::now()
}

/// `std::time::SystemTime::duration_since` with `UNIX_EPOCH`: the time since
/// the epoch, or an error where the clock reads earlier. Nothing is claimed
/// of either.
#[verifier::external_body]
fn since_unix_epoch(t: &SystemTime) -> Result<Duration, SystemTimeError> {
    t.duration_since(UNIX_EPOCH)
}

/// `std::time::Duration::as_secs`: the whole seconds of a duration. Nothing
/// is claimed of the count, as the duration has no model here.
#[verifier::external_body]
fn whole_seconds(d: &Duration) -> u64 {
    d.as_secs()
}

/// How often the daemon has started, when it last started (seconds since the
/// Unix epoch), and its longest run.
#[derive(Clone, Copy, Debug, PartialEq, Eq, Structural)]
pub struct DaemonState {
    pub starts: u64,
    pub started_at: u64,
    pub longest_run: u64,
}

impl Default for DaemonState {
    fn default() -> (s: Self)
        ensures
            s == (DaemonState { starts: 0, started_at: 0, longest_run: 0 }),
    {
        DaemonState { starts: 0, started_at: 0, longest_run: 0 }
    }
}

impl DaemonState {
    /// The current time in whole seconds since the Unix epoch, or `None`
    /// where the clock reads earlier than the epoch. The value comes from the
    /// clock; nothing is claimed of it.
    pub fn now() -> Option<u64> {
        let t = system_now();
        match since_unix_epoch(&t) {
            Ok(d) => Some(whole_seconds(&d)),
            Err(_) => None,
        }
    }

    /// Records a start of the daemon at time `now`: one more start, started
    /// at `now`, the longest run unchanged.
    pub fn record_start(&mut self, now: u64)
        requires
            old(self).starts < u64::MAX,
        ensures
            *final(self) == (DaemonState {
                starts: (old(self).starts + 1) as u64,
                started_at: now,
                longest_run: old(self).longest_run,
            }),
    {
        self.starts = self.starts + 1;
        self.started_at = now;
    }
}

} // verus!
