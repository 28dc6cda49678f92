//! The wall clock.

use crate::data::Timestamp;
use vstd::prelude::*;

verus! {

/// Reads the current time with `chrono::Utc::now` and hands it back as
/// seconds and nanoseconds since the Unix epoch. Nothing is claimed of the
/// value: two readings may differ in any way. `chrono` panics where the
/// system clock stands before the epoch.
#[verifier::external_body]
pub(crate) fn current_time() -> (now: Timestamp) {
    let now = chrono::Utc::now();
    Timestamp { seconds: now.timestamp(), nanoseconds: now.timestamp_subsec_nanos() }
}

} // verus!
