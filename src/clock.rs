//! Wall-clock time, read through chrono.

use vstd::prelude::*;

verus! {

/// Relies on chrono's `From<SystemTime> for DateTime<Utc>` and
/// `DateTime::timestamp_millis`: the current UTC time in milliseconds since
/// the Unix epoch, negative for a clock set before 1970. The conversion only
/// fails for a time hundreds of thousands of years away, beyond what the
/// system clock can hold. The value depends on the moment of the call, so
/// nothing is promised of it.
#[verifier::external_body]
pub(crate) fn now_millis() -> (r: i64) {
    chrono::DateTime::<chrono::Utc>::from(std::time::SystemTime::now()).timestamp_millis()
}

} // verus!
