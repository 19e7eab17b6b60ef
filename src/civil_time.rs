//! The meter's civil clock (Asia/Tokyo) and instants in UTC, as seconds since
//! the Unix epoch.
use chrono::{Datelike, TimeZone, Timelike};
use vstd::prelude::*;

verus! {

/// The UTC instant of a civil time in Tokyo, where there is exactly one.
pub uninterp spec fn tokyo_utc_of(year: i32, month: u32, day: u32, hour: u32, minute: u32, second: u32) -> Option<i64>;

/// Relies on chrono-tz's `Asia::Tokyo` through chrono's
/// `TimeZone::with_ymd_and_hms` and `MappedLocalTime::single`, and on chrono's
/// `DateTime::timestamp`: the instant, in seconds since the Unix epoch, of a
/// civil time in Tokyo; `None` where the civil time does not exist or is
/// ambiguous.
#[verifier::external_body]
pub(crate) fn tokyo_utc(year: i32, month: u32, day: u32, hour: u32, minute: u32, second: u32) -> (r: Option<i64>)
    ensures
        r == tokyo_utc_of(year, month, day, hour, minute, second),
{
    match chrono_tz::Asia::Tokyo.with_ymd_and_hms(year, month, day, hour, minute, second).single() {
        Some(t) => Some(t.timestamp()),
        None => None,
    }
}

/// The civil date and time in Tokyo at an instant.
pub uninterp spec fn tokyo_civil_of(utc: i64) -> Option<(i32, u32, u32, u32, u32, u32)>;

/// Relies on chrono's `DateTime::from_timestamp` and
/// `DateTime::with_timezone` with chrono-tz's `Asia::Tokyo`, read through
/// chrono's `Datelike` and `Timelike`: the year, month, day, hour, minute
/// and second in Tokyo at an instant, in seconds since the Unix epoch;
/// `None` where the instant is out of chrono's range.
#[verifier::external_body]
pub(crate) fn tokyo_civil(utc: i64) -> (r: Option<(i32, u32, u32, u32, u32, u32)>)
    ensures
        r == tokyo_civil_of(utc),
{
    match chrono::DateTime::from_timestamp(utc, 0) {
        Some(t) => {
            let l = t.with_timezone(&chrono_tz::Asia::Tokyo);
            Some((l.year(), l.month(), l.day(), l.hour(), l.minute(), l.second()))
        },
        None => None,
    }
}

/// The instants that a reading received at `now` is filed under: the start
/// of that day in Tokyo, and `now` cut to its minute in Tokyo.
pub open spec fn recording_clock_of(now: i64) -> Option<(i64, i64)> {
    match tokyo_civil_of(now) {
        None => None,
        Some((y, mo, d, h, mi, _)) => match (tokyo_utc_of(y, mo, d, 0, 0, 0), tokyo_utc_of(y, mo, d, h, mi, 0)) {
            (Some(day), Some(minute)) => Some((day, minute)),
            _ => None,
        },
    }
}

/// The start of the day in Tokyo and the start of the minute in Tokyo, as
/// instants, of a reading received at `now`.
pub fn recording_clock(now: i64) -> (r: Option<(i64, i64)>)
    ensures
        r == recording_clock_of(now),
{
    match tokyo_civil(now) {
        None => None,
        Some((y, mo, d, h, mi, _)) => match (tokyo_utc(y, mo, d, 0, 0, 0), tokyo_utc(y, mo, d, h, mi, 0)) {
            (Some(day), Some(minute)) => Some((day, minute)),
            _ => None,
        },
    }
}

} // verus!
