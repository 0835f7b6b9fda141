use vstd::prelude::*;

verus! {

/// The smallest and largest years that chrono's `NaiveDate` represents.
pub const CHRONO_MIN_YEAR: i32 = -262143;

pub const CHRONO_MAX_YEAR: i32 = 262142;

pub open spec fn is_leap_year(y: int) -> bool {
    (y % 4 == 0 && y % 100 != 0) || y % 400 == 0
}

/// The number of days of month `m` (1 to 12) in year `y`.
pub open spec fn days_in_month(y: int, m: int) -> int {
    if m == 2 {
        if is_leap_year(y) {
            29
        } else {
            28
        }
    } else if m == 4 || m == 6 || m == 9 || m == 11 {
        30
    } else {
        31
    }
}

/// `y-m-d` is a day of the proleptic Gregorian calendar that chrono can hold.
pub open spec fn is_calendar_date(y: int, m: int, d: int) -> bool {
    &&& CHRONO_MIN_YEAR <= y <= CHRONO_MAX_YEAR
    &&& 1 <= m <= 12
    &&& 1 <= d <= days_in_month(y, m)
}

/// `h:m:s` is a time of the 24-hour clock, without leap seconds.
pub open spec fn is_clock_time(h: int, m: int, s: int) -> bool {
    0 <= h < 24 && 0 <= m < 60 && 0 <= s < 60
}

/// Relies on chrono's `NaiveDate::from_ymd_opt`, which gives a date exactly
/// when the year lies in chrono's range and the month and day exist in it.
#[verifier::external_body]
pub(crate) fn calendar_date_exists(year: i32, month: u32, day: u32) -> (r: bool)
    ensures
        r == is_calendar_date(year as int, month as int, day as int),
{
    chrono::NaiveDate::from_ymd_opt(year, month, day).is_some()
}

/// Relies on chrono's `NaiveTime::from_hms_opt`, which gives a time exactly
/// when the hour is below 24 and the minute and second below 60.
#[verifier::external_body]
pub(crate) fn clock_time_exists(hour: u32, minute: u32, second: u32) -> (r: bool)
    ensures
        r == is_clock_time(hour as int, minute as int, second as int),
{
    chrono::NaiveTime::from_hms_opt(hour, minute, second).is_some()
}

} // verus!
