//! Times of day as timestamps.
//!
//! A timeline counts the milliseconds of the simulated day. Times of day come
//! from `chrono`; here they are read off as timestamps.

use chrono::{NaiveTime, Timelike};
use vstd::prelude::*;

verus! {

#[verifier::external_type_specification]
#[verifier::external_body]
pub struct ExNaiveTime(NaiveTime);

/// The most seconds that a time of day counts since midnight.
pub const LAST_SECOND: u32 = 86_399;

/// The most nanoseconds that a time of day counts within its second; from a
/// thousand million on they stand for a leap second.
pub const LAST_NANOSECOND: u32 = 1_999_999_999;

/// The timestamp of the time of day that is `nanoseconds` past the second
/// `seconds` of the day: whole milliseconds, the rest is dropped.
pub open spec fn millis_of_day(seconds: int, nanoseconds: int) -> int {
    seconds * 1000 + nanoseconds / 1_000_000
}

/// `Timelike::num_seconds_from_midnight` on a `NaiveTime`: the whole seconds
/// since midnight, at most 86399.
#[verifier::external_body]
fn seconds_from_midnight(time: &NaiveTime) -> (seconds: u32)
    ensures
        seconds <= LAST_SECOND,
{
    time.num_seconds_from_midnight()
}

/// `Timelike::nanosecond` on a `NaiveTime`: the nanoseconds since the whole
/// second, below two thousand million.
#[verifier::external_body]
fn nanosecond_of(time: &NaiveTime) -> (nanoseconds: u32)
    ensures
        nanoseconds <= LAST_NANOSECOND,
{
    time.nanosecond()
}

/// The timestamp of a time of day that is given by its seconds and
/// nanoseconds.
pub fn timestamp_from(seconds: u32, nanoseconds: u32) -> (millis: u32)
    requires
        seconds <= LAST_SECOND,
    ensures
        millis == millis_of_day(seconds as int, nanoseconds as int),
{
    seconds * 1000 + nanoseconds / 1_000_000
}

/// The timestamp of a time of day. What the time of day holds is not known
/// here, so the contract only says that the timestamp is made of its seconds
/// and nanoseconds.
pub fn timestamp_of(time: &NaiveTime) -> (millis: u32)
    ensures
        exists|seconds: int, nanoseconds: int|
            0 <= seconds <= LAST_SECOND && 0 <= nanoseconds <= LAST_NANOSECOND && millis
                == #[trigger] millis_of_day(seconds, nanoseconds),
        millis <= 86_400_999,
{
    let seconds = seconds_from_midnight(time);
    let nanoseconds = nanosecond_of(time);
    let millis = timestamp_from(seconds, nanoseconds);
    assert(millis == millis_of_day(seconds as int, nanoseconds as int));
    millis
}

} // verus!
