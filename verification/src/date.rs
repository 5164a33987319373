//! Calendar dates as they appear in page metadata, with the range and
//! calendar rules of `chrono::NaiveDate`.

use vstd::prelude::*;
use chrono::TimeZone;

verus! {

/// The earliest year a date can have.
pub const MIN_YEAR: i32 = -262143;

/// The latest year a date can have.
pub const MAX_YEAR: i32 = 262142;

/// Whether `y` is a leap year of the proleptic Gregorian calendar.
pub open spec fn is_leap_year(y: int) -> bool {
    (y % 4 == 0 && y % 100 != 0) || y % 400 == 0
}

/// The number of days of month `m` (1 to 12) in year `y`.
pub open spec fn days_in_month(y: int, m: int) -> int {
    if m == 2 {
        if is_leap_year(y) { 29 } else { 28 }
    } else if m == 4 || m == 6 || m == 9 || m == 11 {
        30
    } else {
        31
    }
}

/// Whether `year-month-day` is a day that exists and lies in the range of
/// years that a date can hold.
pub open spec fn valid_date(year: int, month: int, day: int) -> bool {
    &&& MIN_YEAR <= year <= MAX_YEAR
    &&& 1 <= month <= 12
    &&& 1 <= day <= days_in_month(year, month)
}

/// Whether `chrono::NaiveDate::from_ymd_opt` accepts the three numbers:
/// its source rejects a year outside `MIN_YEAR..=MAX_YEAR`, a month outside
/// 1 to 12 and a day that the month does not have.
#[verifier::external_body]
fn chrono_accepts(year: i32, month: u32, day: u32) -> (r: bool)
    ensures
        r == valid_date(year as int, month as int, day as int),
{
    chrono::NaiveDate::from_ymd_opt(year, month, day).is_some()
}

/// What `chrono` prints for midnight UTC of the valid date
/// `year-month-day` in the format `%a, %d %b %Y %H:%M:%S %z` (the RFC 2822
/// form, such as `Tue, 08 Sep 2026 00:00:00 +0000`).
pub uninterp spec fn rfc2822_midnight_utc(year: int, month: int, day: int) -> Seq<char>;

/// Formats midnight UTC of a valid date through `chrono`: the date is built
/// with `NaiveDate::from_ymd_opt`, set to 00:00:00, placed in `Utc` and
/// printed with `%a, %d %b %Y %H:%M:%S %z`. The result is named
/// [`rfc2822_midnight_utc`] of the three numbers.
#[verifier::external_body]
fn chrono_rfc2822_midnight(year: i32, month: u32, day: u32) -> (r: String)
    requires
        valid_date(year as int, month as int, day as int),
    ensures
        r@ == rfc2822_midnight_utc(year as int, month as int, day as int),
{
    match chrono::NaiveDate::from_ymd_opt(year, month, day) {
        Some(d) => chrono::Utc.from_utc_datetime(&d.and_time(chrono::NaiveTime::MIN))
            .format("%a, %d %b %Y %H:%M:%S %z").to_string(),
        None => String::new(),
    }
}

/// A day of the calendar: a year, a month from 1 to 12 and a day of that
/// month.
#[derive(Debug, Clone, Copy, PartialEq, Eq, PartialOrd, Ord, Hash)]
pub struct Date {
    year: i32,
    month: u32,
    day: u32,
}

impl Date {
    #[verifier::type_invariant]
    closed spec fn is_real_day(self) -> bool {
        valid_date(self.year as int, self.month as int, self.day as int)
    }

    /// The year.
    pub closed spec fn year_spec(self) -> int {
        self.year as int
    }

    /// The month, from 1 to 12.
    pub closed spec fn month_spec(self) -> int {
        self.month as int
    }

    /// The day of the month.
    pub closed spec fn day_spec(self) -> int {
        self.day as int
    }

    /// The date `year-month-day`, or `None` where that day does not exist
    /// or lies out of range.
    pub fn from_ymd(year: i32, month: u32, day: u32) -> (r: Option<Date>)
        ensures
            r is Some <==> valid_date(year as int, month as int, day as int),
            r matches Some(d) ==> d.year_spec() == year && d.month_spec() == month
                && d.day_spec() == day,
    {
        if chrono_accepts(year, month, day) {
            Some(Date { year, month, day })
        } else {
            None
        }
    }

    /// The year.
    pub fn year(&self) -> (r: i32)
        ensures
            r == self.year_spec(),
    {
        self.year
    }

    /// The month, from 1 to 12.
    pub fn month(&self) -> (r: u32)
        ensures
            r == self.month_spec(),
    {
        self.month
    }

    /// The day of the month.
    pub fn day(&self) -> (r: u32)
        ensures
            r == self.day_spec(),
    {
        self.day
    }

    /// Midnight UTC of this date in the RFC 2822 form used for feed
    /// publication dates.
    pub fn rfc2822_midnight(&self) -> (r: String)
        ensures
            r@ == rfc2822_midnight_utc(self.year_spec(), self.month_spec(), self.day_spec()),
    {
        proof {
            use_type_invariant(self);
        }
        chrono_rfc2822_midnight(self.year, self.month, self.day)
    }
}

} // verus!
