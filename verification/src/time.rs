//! Points in time.

use chrono::{DateTime, Timelike};
use vstd::prelude::*;

verus! {

/// The least second that a date can be given to.
pub const MIN_SECONDS: i64 = -8_334_601_228_800;

/// The greatest second that a date can be given to.
pub const MAX_SECONDS: i64 = 8_210_266_876_799;

/// A point in time: seconds since the epoch and nanoseconds within the second.
#[derive(Debug, Clone, Copy, PartialEq, Eq, Structural, PartialOrd, Ord, Hash)]
pub struct Timestamp {
    pub seconds: i64,
    pub nanos: u32,
}

impl Timestamp {
    /// The time lies in the range of dates, and the nanoseconds within the second.
    pub open spec fn valid(self) -> bool {
        MIN_SECONDS <= self.seconds <= MAX_SECONDS && self.nanos < 1_000_000_000
    }

    /// Nanoseconds since the epoch.
    pub open spec fn total_nanos(self) -> int {
        self.seconds * 1_000_000_000 + self.nanos
    }

    /// The hour of the day, in universal time.
    pub open spec fn hour_of_day(self) -> int {
        (self.seconds as int % 86_400) / 3_600
    }

    /// The time at the given second, in whole seconds.
    pub fn at(seconds: i64) -> (r: Self)
        ensures
            r.seconds == seconds,
            r.nanos == 0,
    {
        Timestamp { seconds, nanos: 0 }
    }

    /// Whether this time is before the other.
    pub fn before(self, other: Self) -> (r: bool)
        requires
            self.nanos < 1_000_000_000,
            other.nanos < 1_000_000_000,
        ensures
            r == (self.total_nanos() < other.total_nanos()),
    {
        self.seconds < other.seconds || (self.seconds == other.seconds && self.nanos < other.nanos)
    }

    /// Whether the values can be made a date.
    pub fn is_valid(self) -> (r: bool)
        ensures
            r == self.valid(),
    {
        MIN_SECONDS <= self.seconds && self.seconds <= MAX_SECONDS && self.nanos < 1_000_000_000
    }

    /// The hour of the day, in universal time.
    pub fn hour(self) -> (r: u32)
        requires
            self.valid(),
        ensures
            r == self.hour_of_day(),
            r < 24,
    {
        utc_hour(self.seconds, self.nanos)
    }

    /// Whole seconds from the other time to this one, rounded towards zero.
    pub fn seconds_since(self, other: Self) -> (r: i64)
        requires
            self.valid(),
            other.valid(),
        ensures
            r == whole_seconds(self.total_nanos() - other.total_nanos()),
    {
        seconds_between(self.seconds, self.nanos, other.seconds, other.nanos)
    }
}

/// Whole seconds in a number of nanoseconds, rounded towards zero.
pub open spec fn whole_seconds(nanos: int) -> int {
    if nanos < 0 {
        -((-nanos) / 1_000_000_000)
    } else {
        nanos / 1_000_000_000
    }
}

/// Calls `chrono::Timelike::hour` on the `DateTime<Utc>` for the given second, made
/// by `DateTime::from_timestamp`. Claims that the hour of a date in universal time
/// is the hour within its day of 86400 seconds, counted from the epoch.
#[verifier::external_body]
fn utc_hour(seconds: i64, nanos: u32) -> (r: u32)
    requires
        MIN_SECONDS <= seconds <= MAX_SECONDS,
        nanos < 1_000_000_000,
    ensures
        r == (seconds as int % 86_400) / 3_600,
        r < 24,
{
    DateTime::from_timestamp(seconds, nanos).unwrap().hour()
}

/// Calls `chrono::DateTime::signed_duration_since` and `TimeDelta::num_seconds` on the
/// dates for the given seconds, made by `DateTime::from_timestamp`. Claims that the
/// result is the difference in whole seconds, with the rest cut off.
#[verifier::external_body]
fn seconds_between(seconds: i64, nanos: u32, since_seconds: i64, since_nanos: u32) -> (r: i64)
    requires
        MIN_SECONDS <= seconds <= MAX_SECONDS,
        nanos < 1_000_000_000,
        MIN_SECONDS <= since_seconds <= MAX_SECONDS,
        since_nanos < 1_000_000_000,
    ensures
        r == whole_seconds(
            (seconds * 1_000_000_000 + nanos) - (since_seconds * 1_000_000_000 + since_nanos),
        ),
{
    let to = DateTime::from_timestamp(seconds, nanos).unwrap();
    let from = DateTime::from_timestamp(since_seconds, since_nanos).unwrap();
    to.signed_duration_since(from).num_seconds()
}

} // verus!
