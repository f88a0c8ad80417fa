//! Dates of the Gregorian calendar and the seconds that they stand for.

use vstd::prelude::*;

verus! {

/// Whether `year` has a 29th of February.
pub open spec fn is_leap_year(year: int) -> bool {
    year % 4 == 0 && (year % 100 != 0 || year % 400 == 0)
}

/// How many days the month has.
pub open spec fn days_in_month(year: int, month: int) -> int {
    if month == 2 {
        if is_leap_year(year) {
            29
        } else {
            28
        }
    } else if month == 4 || month == 6 || month == 9 || month == 11 {
        30
    } else {
        31
    }
}

/// Whether the calendar has the date.
pub open spec fn is_date(year: int, month: int, day: int) -> bool {
    1 <= month <= 12 && 1 <= day <= days_in_month(year, month)
}

/// How many days of the year come before the month.
pub open spec fn days_before_month(year: int, month: int) -> int
    decreases month,
{
    if month <= 1 {
        0
    } else {
        days_before_month(year, month - 1) + days_in_month(year, month - 1)
    }
}

/// How many days lie between the first of January of year 1 and that of
/// `year`.
pub open spec fn days_before_year(year: int) -> int {
    365 * (year - 1) + (year - 1) / 4 - (year - 1) / 100 + (year - 1) / 400
}

/// The days from the first of January 1970 to the date.
pub open spec fn epoch_day(year: int, month: int, day: int) -> int {
    days_before_year(year) + days_before_month(year, month) + day - 1 - 719_162
}

/// Whether a day has the time.
pub open spec fn is_clock_time(hour: int, minute: int, second: int) -> bool {
    0 <= hour < 24 && 0 <= minute < 60 && 0 <= second < 60
}

/// The seconds from the start of 1970 to a date and time of the same clock.
pub open spec fn epoch_seconds(
    year: int,
    month: int,
    day: int,
    hour: int,
    minute: int,
    second: int,
) -> int {
    86_400 * epoch_day(year, month, day) + 3_600 * hour + 60 * minute + second
}

/// The seconds that a date and time in UTC stand for, for years of at most
/// four digits.
pub open spec fn utc_seconds(
    year: int,
    month: int,
    day: int,
    hour: int,
    minute: int,
    second: int,
) -> Option<int> {
    if -9_999 <= year <= 9_999 && is_date(year, month, day) && is_clock_time(
        hour,
        minute,
        second,
    ) {
        Some(epoch_seconds(year, month, day, hour, minute, second))
    } else {
        None
    }
}

/// Calls `time::Date::from_calendar_date` and `time::Time::from_hms`, and
/// `unix_timestamp` on the two together in UTC. Claimed of them: they accept
/// exactly the dates of the Gregorian calendar in the years -9999 to 9999 and
/// the times of a day without leap seconds, and the timestamp counts the
/// seconds from the start of 1970.
#[verifier::external_body]
pub(crate) fn utc_timestamp(
    year: i32,
    month: u8,
    day: u8,
    hour: u8,
    minute: u8,
    second: u8,
) -> (r: Option<i64>)
    ensures
        match r {
            Some(t) => utc_seconds(
                year as int,
                month as int,
                day as int,
                hour as int,
                minute as int,
                second as int,
            ) == Some(t as int),
            None => utc_seconds(
                year as int,
                month as int,
                day as int,
                hour as int,
                minute as int,
                second as int,
            ) is None,
        },
{
    let month = time::Month::try_from(month).ok()?;
    let date = time::Date::from_calendar_date(year, month, day).ok()?;
    let clock = time::Time::from_hms(hour, minute, second).ok()?;
    Some(date.with_time(clock).assume_utc().unix_timestamp())
}

/// A year is as long as its months together.
proof fn lemma_days_in_year(year: int)
    ensures
        days_before_month(year, 12) + days_in_month(year, 12) == (if is_leap_year(year) {
            366int
        } else {
            365int
        }),
{
    reveal_with_fuel(days_before_month, 12);
}

/// The day after the last of December is the first of January.
pub proof fn years_follow_each_other(year: int)
    ensures
        epoch_day(year + 1, 1, 1) == epoch_day(year, 12, 31) + 1,
{
    lemma_days_in_year(year);
    assert(days_before_year(year + 1) - days_before_year(year) == 365 + (if is_leap_year(year) {
        1int
    } else {
        0int
    })) by {
        let p = year - 1;
        assert(year / 4 - p / 4 == (if year % 4 == 0 {
            1int
        } else {
            0int
        }));
        assert(year / 100 - p / 100 == (if year % 100 == 0 {
            1int
        } else {
            0int
        }));
        assert(year / 400 - p / 400 == (if year % 400 == 0 {
            1int
        } else {
            0int
        }));
    }
}

/// The day after the last of a month is the first of the next.
pub proof fn months_follow_each_other(year: int, month: int)
    requires
        1 <= month < 12,
    ensures
        epoch_day(year, month + 1, 1) == epoch_day(year, month, days_in_month(year, month)) + 1,
{
}

/// Days are counted one by one within a month, and 1970 starts with day zero.
pub proof fn days_follow_each_other(year: int, month: int, day: int)
    ensures
        epoch_day(year, month, day + 1) == epoch_day(year, month, day) + 1,
        epoch_day(1970, 1, 1) == 0,
{
    assert(days_before_year(1970) == 719_162);
}

/// Seconds are counted one by one through minutes, hours and days.
pub proof fn seconds_follow_each_other(
    year: int,
    month: int,
    day: int,
    hour: int,
    minute: int,
)
    ensures
        epoch_seconds(year, month, day, hour, minute + 1, 0) == epoch_seconds(
            year,
            month,
            day,
            hour,
            minute,
            59,
        ) + 1,
        epoch_seconds(year, month, day, hour + 1, 0, 0) == epoch_seconds(
            year,
            month,
            day,
            hour,
            59,
            59,
        ) + 1,
        epoch_seconds(year, month, day + 1, 0, 0, 0) == epoch_seconds(
            year,
            month,
            day,
            23,
            59,
            59,
        ) + 1,
{
}

} // verus!
