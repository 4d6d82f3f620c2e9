//! The wall clock.

use vstd::prelude::*;
use crate::models::Timestamp;

verus! {

/// Reads the system clock with `std::time::SystemTime::elapsed` on
/// `std::time::UNIX_EPOCH` and hands back the whole seconds and the
/// nanoseconds of the time gone by since the epoch. `None` where the system
/// clock stands before the epoch, which is where `elapsed` returns an error.
///
/// Nothing is claimed of the value: two readings may be equal or go backwards
/// when the system clock is set.
#[verifier::external_body]
fn since_epoch() -> (r: Option<(u64, u32)>) {
    let gone = std::time::UNIX_EPOCH.elapsed().ok()?;
    Some((gone.as_secs(), gone.subsec_nanos()))
}

/// Makes the instant `secs` seconds and `nanos` nanoseconds after the Unix
/// epoch with `chrono::DateTime::from_timestamp`, and hands it back as the
/// seconds (`DateTime::timestamp`) and nanoseconds
/// (`DateTime::timestamp_subsec_nanos`) that `chrono` holds for it. `None`
/// where `from_timestamp` returns `None`: the instant lies outside the dates
/// that `chrono` can hold.
///
/// Nothing is claimed of the value.
#[verifier::external_body]
fn instant(secs: i64, nanos: u32) -> (r: Option<Timestamp>) {
    let t = chrono::DateTime::from_timestamp(secs, nanos)?;
    Some(Timestamp { secs: t.timestamp(), nanos: t.timestamp_subsec_nanos() })
}

/// The present time, where the system clock shows one that can be held:
/// `None` where it stands before the Unix epoch or beyond the dates that
/// `chrono` can hold.
pub(crate) fn now() -> (r: Option<Timestamp>) {
    match since_epoch() {
        Some((secs, nanos)) => {
            if secs <= i64::MAX as u64 {
                instant(secs as i64, nanos)
            } else {
                None
            }
        },
        None => None,
    }
}

} // verus!
