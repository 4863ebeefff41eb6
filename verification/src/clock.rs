//! The system clock.
use vstd::prelude::*;
use std::time::{Duration, SystemTime, UNIX_EPOCH};

verus! {

/// `std::time::SystemTime`, carried through unexamined.
#[verifier::external_type_specification]
#[verifier::external_body]
pub struct ExSystemTime(SystemTime);

/// Wraps `SystemTime::now`, the current time; nothing is stated of it.
#[verifier::external_body]
pub(crate) fn system_time_now() -> SystemTime {
    SystemTime::now()
}

/// Wraps `SystemTime::duration_since(UNIX_EPOCH)`, `None` for a time before the
/// epoch; nothing is stated of the duration.
#[verifier::external_body]
pub(crate) fn since_unix_epoch(t: &SystemTime) -> Option<Duration> {
    t.duration_since(UNIX_EPOCH).ok()
}

/// Wraps `Duration::as_secs`; nothing is stated of the seconds.
#[verifier::external_body]
pub(crate) fn duration_as_secs(d: &Duration) -> u64 {
    d.as_secs()
}

/// Wraps `Duration::subsec_nanos`; nothing is stated of the nanoseconds.
#[verifier::external_body]
pub(crate) fn duration_subsec_nanos(d: &Duration) -> u32 {
    d.subsec_nanos()
}

} // verus!
