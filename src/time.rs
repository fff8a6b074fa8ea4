use vstd::prelude::*;

use chrono::{DateTime, Datelike, NaiveDate};

verus! {

/// Seconds since the Unix epoch of 0001-01-01T00:00:00Z, the earliest instant handled.
pub const MIN_TIMESTAMP: i64 = -62135596800;

/// Seconds since the Unix epoch of 9999-12-31T23:59:59Z, the latest instant handled.
pub const MAX_TIMESTAMP: i64 = 253402300799;

/// Seconds since the Unix epoch of 10000-01-01T00:00:00Z, one second past the latest instant.
pub const END_TIMESTAMP: i64 = 253402300800;

/// Length of one day in seconds.
pub const SECONDS_PER_DAY: i64 = 86400;

/// The calendar year (proleptic Gregorian, UTC) that contains the instant `secs`.
pub uninterp spec fn civil_year(secs: int) -> int;

/// The zero-based day of the year (UTC) of the instant `secs`: 0 for January 1.
pub uninterp spec fn civil_ordinal0(secs: int) -> int;

/// The Unix timestamp of January 1, 00:00:00 UTC of `year`.
pub uninterp spec fn year_start_of(year: int) -> int;

pub open spec fn timestamp_in_range(secs: int) -> bool {
    MIN_TIMESTAMP <= secs <= MAX_TIMESTAMP
}

/// An instant in UTC, held as whole seconds since the Unix epoch.
#[derive(Clone, Copy, Debug, PartialEq, Eq, Structural)]
pub struct UtcDateTime {
    pub timestamp: i64,
}

impl UtcDateTime {
    pub open spec fn wf(&self) -> bool {
        timestamp_in_range(self.timestamp as int)
    }

    /// The instant `timestamp` seconds after the Unix epoch, if it lies
    /// between the years 1 and 9999 inclusive.
    pub fn from_timestamp(timestamp: i64) -> (r: Option<UtcDateTime>)
        ensures
            r.is_some() <==> timestamp_in_range(timestamp as int),
            r.is_some() ==> r.unwrap().timestamp == timestamp,
    {
        if MIN_TIMESTAMP <= timestamp && timestamp <= MAX_TIMESTAMP {
            Some(UtcDateTime { timestamp })
        } else {
            None
        }
    }

    /// The calendar year of this instant.
    pub fn year(&self) -> (r: i32)
        requires
            self.wf(),
        ensures
            r as int == civil_year(self.timestamp as int),
            1 <= r <= 9999,
    {
        year_of_timestamp(self.timestamp)
    }

    /// The zero-based day of the year of this instant.
    pub fn ordinal0(&self) -> (r: u32)
        requires
            self.wf(),
        ensures
            r as int == civil_ordinal0(self.timestamp as int),
            r <= 365,
    {
        ordinal0_of_timestamp(self.timestamp)
    }
}

/// The instant January 1, 00:00:00 UTC of `year`.
pub fn new_date_year(year: i32) -> (r: UtcDateTime)
    requires
        1 <= year <= 9999,
    ensures
        r.wf(),
        r.timestamp as int == year_start_of(year as int),
{
    UtcDateTime { timestamp: year_start_timestamp(year) }
}

/// `date` truncated to year granularity: January 1, 00:00:00 UTC of its year,
/// with month, day, hour, minute and second all zeroed.
pub fn date_with_just_year(date: UtcDateTime) -> (r: Option<UtcDateTime>)
    requires
        date.wf(),
    ensures
        r.is_some(),
        r.unwrap().wf(),
        r.unwrap().timestamp as int == year_start_of(civil_year(date.timestamp as int)),
{
    Some(new_date_year(date.year()))
}

/// Relies on chrono's `DateTime::from_timestamp` and `Datelike::year`: the
/// year of an instant between 0001-01-01 and 9999-12-31 lies in that range.
#[verifier::external_body]
fn year_of_timestamp(secs: i64) -> (r: i32)
    requires
        timestamp_in_range(secs as int),
    ensures
        r as int == civil_year(secs as int),
        1 <= r <= 9999,
{
    DateTime::from_timestamp(secs, 0).unwrap().year()
}

/// Relies on chrono's `DateTime::from_timestamp` and `Datelike::ordinal0`,
/// documented to range from 0 to 365.
#[verifier::external_body]
fn ordinal0_of_timestamp(secs: i64) -> (r: u32)
    requires
        timestamp_in_range(secs as int),
    ensures
        r as int == civil_ordinal0(secs as int),
        r <= 365,
{
    DateTime::from_timestamp(secs, 0).unwrap().ordinal0()
}

/// Relies on chrono's `NaiveDate::from_ymd_opt`, `and_hms_opt`, `and_utc` and
/// `timestamp`: the Unix timestamp of January 1 of `year`, which for the
/// years 1 to 9999 lies between 0001-01-01 and 9999-12-31, and for the year
/// 10000 is 10000-01-01.
#[verifier::external_body]
pub(crate) fn year_start_timestamp(year: i32) -> (r: i64)
    requires
        1 <= year <= 10000,
    ensures
        r as int == year_start_of(year as int),
        year <= 9999 ==> MIN_TIMESTAMP <= r <= MAX_TIMESTAMP,
        year == 10000 ==> r == END_TIMESTAMP,
{
    NaiveDate::from_ymd_opt(year, 1, 1).unwrap().and_hms_opt(0, 0, 0).unwrap().and_utc().timestamp()
}

} // verus!
