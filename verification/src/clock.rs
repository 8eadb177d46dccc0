//! The wall clock, read through chrono.
use vstd::prelude::*;

verus! {

/// `chrono::Utc::now().timestamp_millis()`: the current UTC time in milliseconds since the Unix
/// epoch. It depends on the machine's clock, so nothing is stated of it.
#[verifier::external_body]
pub(crate) fn utc_now_millis() -> (r: i64) {
    chrono::Utc::now().timestamp_millis()
}

/// `chrono::Utc::now().timestamp_micros()`: the current UTC time in microseconds since the Unix
/// epoch. It depends on the machine's clock, so nothing is stated of it.
#[verifier::external_body]
pub(crate) fn utc_now_micros() -> (r: i64) {
    chrono::Utc::now().timestamp_micros()
}

/// A time in microseconds taken to nanoseconds, saturating at the bounds of `i64`.
pub open spec fn micros_to_nanos(us: i64) -> i64 {
    if us * 1000 > i64::MAX {
        i64::MAX
    } else if us * 1000 < i64::MIN {
        i64::MIN
    } else {
        (us * 1000) as i64
    }
}

/// The current time in nanoseconds since the Unix epoch, at microsecond resolution.
pub fn now_ns() -> (r: i64)
    ensures
        exists|us: i64| r == micros_to_nanos(us),
{
    let us = utc_now_micros();
    let r = if us > 9_223_372_036_854_775 {
        i64::MAX
    } else if us < -9_223_372_036_854_775 {
        i64::MIN
    } else {
        us * 1000
    };
    assert(r == micros_to_nanos(us));
    r
}

/// The current time in milliseconds since the Unix epoch.
pub fn now_ms() -> (r: i64) {
    utc_now_millis()
}

} // verus!
