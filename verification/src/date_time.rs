//! Civil UTC date-times and second-counted spans.
//!
//! Every retention decision in this crate compares instants through
//! [`Timestamp::as_seconds`], the number of seconds since the reference
//! origin 0000-03-01 00:00:00 of the proleptic Gregorian calendar. The
//! conversion from a civil date to a day number is the classic closed form
//! over a year that starts in March, so that the leap day is the last day of
//! the shifted year.

use vstd::prelude::*;

verus! {

/// A span of time, counted in whole seconds. A negative count is a span
/// reaching backwards; the strategies take either sign.
#[derive(Clone, Copy, Debug)]
pub struct Duration {
    pub secs: i64,
}

impl Duration {
    /// The span of `secs` seconds.
    pub fn seconds(secs: i64) -> (r: Duration)
        ensures
            r.secs == secs,
    {
        Duration { secs }
    }

    /// The span of `minutes` minutes.
    pub fn minutes(minutes: i64) -> (r: Duration)
        requires
            -153_722_867_280_912_930 <= minutes <= 153_722_867_280_912_930,
        ensures
            r.secs == minutes * 60,
    {
        Duration { secs: minutes * 60 }
    }

    /// The span of `days` civil days of 86400 seconds.
    pub fn days(days: i64) -> (r: Duration)
        requires
            -106_751_991_167_300 <= days <= 106_751_991_167_300,
        ensures
            r.secs == days * 86400,
    {
        Duration { secs: days * 86400 }
    }
}

/// Whether `year` is a leap year of the proleptic Gregorian calendar.
pub open spec fn is_leap_year(year: int) -> bool {
    year % 4 == 0 && (year % 100 != 0 || year % 400 == 0)
}

/// The number of days in the given month of the given year.
pub open spec fn days_in_month(year: int, month: int) -> int {
    if month == 2 {
        if is_leap_year(year) {
            29
        } else {
            28
        }
    } else if month == 4 || month == 6 || month == 9 || month == 11 {
        30
    } else {
        31
    }
}

/// The day number of the civil date `year-month-day`, counted from
/// 0000-03-01. Valid for dates at or after that origin.
pub open spec fn days_from_civil(year: int, month: int, day: int) -> int {
    let shifted_year = if month <= 2 {
        year - 1
    } else {
        year
    };
    let shifted_month = if month <= 2 {
        month + 9
    } else {
        month - 3
    };
    shifted_year * 365 + shifted_year / 4 - shifted_year / 100 + shifted_year / 400 + (153
        * shifted_month + 2) / 5 + day - 1
}

/// The second count of the civil instant `year-month-day hour:minute:second`,
/// measured from the reference origin.
pub open spec fn civil_seconds(
    year: int,
    month: int,
    day: int,
    hour: int,
    minute: int,
    second: int,
) -> int {
    days_from_civil(year, month, day) * 86400 + hour * 3600 + minute * 60 + second
}

/// An instant in UTC, kept as a civil date and time of day.
#[derive(Clone, Copy, Debug)]
pub struct Timestamp {
    pub year: u32,
    pub month: u32,
    pub day: u32,
    pub hour: u32,
    pub minute: u32,
    pub second: u32,
}

impl Timestamp {
    /// A well-formed timestamp: a real instant of years 1 through 9999.
    pub open spec fn wf(self) -> bool {
        &&& 1 <= self.year <= 9999
        &&& 1 <= self.month <= 12
        &&& 1 <= self.day <= days_in_month(self.year as int, self.month as int)
        &&& self.hour <= 23
        &&& self.minute <= 59
        &&& self.second <= 59
    }

    /// The instant as a second count from the reference origin.
    pub open spec fn as_seconds(self) -> int {
        civil_seconds(
            self.year as int,
            self.month as int,
            self.day as int,
            self.hour as int,
            self.minute as int,
            self.second as int,
        )
    }

    /// The timestamp `year-month-day hour:minute:second` UTC.
    pub fn from_ymd_hms(
        year: u32,
        month: u32,
        day: u32,
        hour: u32,
        minute: u32,
        second: u32,
    ) -> (r: Timestamp)
        requires
            1 <= year <= 9999,
            1 <= month <= 12,
            1 <= day <= days_in_month(year as int, month as int),
            hour <= 23,
            minute <= 59,
            second <= 59,
        ensures
            r == (Timestamp { year, month, day, hour, minute, second }),
            r.wf(),
    {
        Timestamp { year, month, day, hour, minute, second }
    }

    /// The second count of this instant, computed in machine integers.
    pub fn seconds(&self) -> (r: i64)
        requires
            self.wf(),
        ensures
            r == self.as_seconds(),
            0 <= r <= 400_000_000_000,
    {
        civil_secs(
            self.year as u64,
            self.month as u64,
            self.day as u64,
            self.hour as u64,
            self.minute as u64,
            self.second as u64,
        )
    }
}

/// The machine computation behind [`Timestamp::seconds`], also used for month
/// anchors of the year after the last well-formed one.
pub(crate) fn civil_secs(year: u64, month: u64, day: u64, hour: u64, minute: u64, second: u64) -> (r:
    i64)
    requires
        1 <= year <= 10000,
        1 <= month <= 12,
        1 <= day <= 31,
        hour <= 23,
        minute <= 59,
        second <= 59,
    ensures
        r == civil_seconds(
            year as int,
            month as int,
            day as int,
            hour as int,
            minute as int,
            second as int,
        ),
        0 <= r <= 400_000_000_000,
{
    let (shifted_year, shifted_month): (u64, u64) = if month <= 2 {
        (year - 1, month + 9)
    } else {
        (year, month - 3)
    };
    let leap_days: u64 = shifted_year / 4 - shifted_year / 100 + shifted_year / 400;
    let day_of_year: u64 = (153 * shifted_month + 2) / 5 + day - 1;
    let days: u64 = shifted_year * 365 + leap_days + day_of_year;
    let secs: u64 = days * 86400 + hour * 3600 + minute * 60 + second;
    secs as i64
}

} // verus!
