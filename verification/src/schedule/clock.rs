//! Instants, calendar dates and readings of the local clock.

use crate::calendar;
use crate::decimal;
use chrono::{Datelike, TimeZone, Timelike};
use vstd::prelude::*;

verus! {

/// The first second that an instant can have: the start of the year -262143.
pub const MIN_SECS: i64 = -8_334_601_228_800;

/// The last second that an instant can have: the end of the year 262142.
pub const MAX_SECS: i64 = 8_210_266_876_799;

/// An instant: seconds since the start of 1970 in UTC, and nanoseconds of the
/// second.
#[derive(Debug, Clone, Copy, PartialEq, Eq, Structural)]
pub struct UtcInstant {
    pub secs: i64,
    pub nanos: u32,
}

/// Whether the second lies within the calendar.
pub open spec fn in_range(secs: int) -> bool {
    MIN_SECS <= secs <= MAX_SECS
}

impl View for UtcInstant {
    type V = UtcInstant;

    open spec fn view(&self) -> UtcInstant {
        *self
    }
}

impl UtcInstant {
    /// Whether the instant lies within the calendar.
    pub open spec fn wf(self) -> bool {
        in_range(self.secs as int) && self.nanos < 1_000_000_000
    }

    /// The nanoseconds since the start of 1970.
    pub open spec fn total_nanos(self) -> int {
        self.secs * 1_000_000_000 + self.nanos
    }

    /// Whether the instant is `other` or earlier.
    pub open spec fn le(self, other: UtcInstant) -> bool {
        self.secs < other.secs || (self.secs == other.secs && self.nanos <= other.nanos)
    }

    /// Whether the instant is `other` or earlier.
    pub fn is_at_or_before(&self, other: &UtcInstant) -> (r: bool)
        ensures
            r == self.le(*other),
    {
        self.secs < other.secs || (self.secs == other.secs && self.nanos <= other.nanos)
    }

    /// The instant `seconds` later, or earlier where that is negative; none
    /// outside the calendar.
    pub fn plus_seconds(&self, seconds: i64) -> (r: Option<UtcInstant>)
        requires
            self.wf(),
            is_duration(seconds as int),
        ensures
            r == plus(*self, seconds as int),
    {
        instant_plus_seconds(*self, seconds)
    }
}

/// The longest time between two instants that can be reckoned with, in
/// seconds.
pub const MAX_DURATION_SECS: i64 = 9_223_372_036_854_775;

/// Whether so many seconds can be reckoned with.
pub open spec fn is_duration(seconds: int) -> bool {
    -MAX_DURATION_SECS <= seconds <= MAX_DURATION_SECS
}

/// The instant `seconds` later; none outside the calendar.
pub open spec fn plus(t: UtcInstant, seconds: int) -> Option<UtcInstant> {
    if in_range(t.secs + seconds) {
        Some(UtcInstant { secs: (t.secs + seconds) as i64, nanos: t.nanos })
    } else {
        None
    }
}

/// Calls `chrono::DateTime::checked_add_signed` on a UTC time. Claimed of it:
/// adding whole seconds moves the seconds by as many and keeps the
/// nanoseconds, and gives nothing exactly where the sum lies outside the
/// calendar's years.
#[verifier::external_body]
fn instant_plus_seconds(t: UtcInstant, seconds: i64) -> (r: Option<UtcInstant>)
    requires
        t.wf(),
        is_duration(seconds as int),
    ensures
        r == plus(t, seconds as int),
{
    let start = chrono::DateTime::<chrono::Utc>::from_timestamp(t.secs, t.nanos)?;
    let end = start.checked_add_signed(chrono::TimeDelta::try_seconds(seconds)?)?;
    Some(UtcInstant { secs: end.timestamp(), nanos: end.timestamp_subsec_nanos() })
}

/// Any two instants compare, and only an instant and itself compare both ways.
pub proof fn instants_are_ordered(a: UtcInstant, b: UtcInstant, c: UtcInstant)
    ensures
        a.le(b) || b.le(a),
        a.le(b) && b.le(a) ==> a == b,
        a.le(b) && b.le(c) ==> a.le(c),
{
}

/// The whole seconds from `now` to `t`, with a part of a second dropped.
pub open spec fn seconds_until(t: UtcInstant, now: UtcInstant) -> int {
    let d = t.total_nanos() - now.total_nanos();
    if d >= 0 {
        d / 1_000_000_000
    } else {
        -((-d) / 1_000_000_000)
    }
}

/// The whole seconds from `now` to `t`, with a part of a second dropped.
pub fn whole_seconds_until(t: &UtcInstant, now: &UtcInstant) -> (r: i64)
    requires
        t.wf(),
        now.wf(),
    ensures
        r == seconds_until(*t, *now),
{
    let secs: i64 = t.secs - now.secs;
    let ghost d = t.total_nanos() - now.total_nanos();
    let part: i64 = t.nanos as i64 - now.nanos as i64;
    assert(d == secs * 1_000_000_000 + part);
    if secs > 0 && part < 0 {
        secs - 1
    } else if secs < 0 && part > 0 {
        secs + 1
    } else {
        secs
    }
}

/// A stretch of time: seconds and nanoseconds of a second.
#[derive(Debug, Clone, Copy, PartialEq, Eq, Structural)]
pub struct Delay {
    pub secs: u64,
    pub nanos: u32,
}

/// How long it is from `now` until `t`; nothing if `t` has passed.
pub open spec fn delay_nanos(t: UtcInstant, now: UtcInstant) -> int {
    if t.total_nanos() > now.total_nanos() {
        t.total_nanos() - now.total_nanos()
    } else {
        0
    }
}

/// How long it is from `now` until `t`; nothing if `t` has passed.
pub fn delay_until(t: &UtcInstant, now: &UtcInstant) -> (r: Delay)
    requires
        t.wf(),
        now.wf(),
    ensures
        r.secs * 1_000_000_000 + r.nanos == delay_nanos(*t, *now),
        r.nanos < 1_000_000_000,
{
    if t.is_at_or_before(now) {
        return Delay { secs: 0, nanos: 0 };
    }
    let secs: i64 = t.secs - now.secs;
    if t.nanos >= now.nanos {
        Delay { secs: secs as u64, nanos: t.nanos - now.nanos }
    } else {
        Delay { secs: (secs - 1) as u64, nanos: 1_000_000_000 + t.nanos - now.nanos }
    }
}

/// A date of the calendar.
#[derive(Debug, Clone, Copy, PartialEq, Eq, Structural)]
pub struct CalendarDate {
    pub year: i32,
    pub month: u32,
    pub day: u32,
}

impl CalendarDate {
    /// Whether the calendar has the date.
    pub open spec fn wf(self) -> bool {
        -262_143 <= self.year <= 262_142 && calendar::is_date(
            self.year as int,
            self.month as int,
            self.day as int,
        )
    }
}

/// The day after a date; none after the last day of the calendar.
pub open spec fn next_date(date: CalendarDate) -> Option<CalendarDate> {
    if date.day < calendar::days_in_month(date.year as int, date.month as int) {
        Some(CalendarDate { day: (date.day + 1) as u32, ..date })
    } else if date.month < 12 {
        Some(CalendarDate { month: (date.month + 1) as u32, day: 1, ..date })
    } else if date.year < 262_142 {
        Some(CalendarDate { year: (date.year + 1) as i32, month: 1, day: 1 })
    } else {
        None
    }
}

/// Calls `chrono::NaiveDate::succ_opt`. Claimed of it: it gives the next day of
/// the Gregorian calendar, and nothing after the last of the year 262142.
#[verifier::external_body]
pub(crate) fn day_after(date: CalendarDate) -> (r: Option<CalendarDate>)
    requires
        date.wf(),
    ensures
        r == next_date(date),
{
    let next = chrono::NaiveDate::from_ymd_opt(date.year, date.month, date.day)?.succ_opt()?;
    Some(CalendarDate { year: next.year(), month: next.month(), day: next.day() })
}

/// The day after a date is the next one, and is a date.
pub proof fn next_date_is_the_next_day(date: CalendarDate)
    requires
        date.wf(),
    ensures
        next_date(date) matches Some(next) ==> next.wf() && calendar::epoch_day(
            next.year as int,
            next.month as int,
            next.day as int,
        ) == calendar::epoch_day(date.year as int, date.month as int, date.day as int) + 1,
{
    if date.day >= calendar::days_in_month(date.year as int, date.month as int) {
        if date.month < 12 {
            calendar::months_follow_each_other(date.year as int, date.month as int);
        } else {
            calendar::years_follow_each_other(date.year as int);
        }
    }
}

/// A time of day.
#[derive(Debug, Clone, Copy, PartialEq, Eq, Structural)]
pub struct ClockTime {
    pub hour: u32,
    pub minute: u32,
}

impl ClockTime {
    /// Whether a day has the time.
    pub open spec fn wf(self) -> bool {
        calendar::is_clock_time(self.hour as int, self.minute as int, 0)
    }
}

/// Calls `chrono::NaiveTime::from_hms_opt` with zero seconds. Claimed of it: it
/// accepts exactly the hours below 24 and the minutes below 60.
#[verifier::external_body]
pub(crate) fn clock_time(hour: u32, minute: u32) -> (r: Option<ClockTime>)
    ensures
        r == (if hour < 24 && minute < 60 {
            Some(ClockTime { hour, minute })
        } else {
            None
        }),
{
    let time = chrono::NaiveTime::from_hms_opt(hour, minute, 0)?;
    Some(ClockTime { hour: time.hour(), minute: time.minute() })
}

/// Calls `chrono::TimeDelta::try_minutes`. Claimed of it: it gives as many times
/// sixty seconds, and nothing exactly where those are more than can be reckoned
/// with.
#[verifier::external_body]
pub(crate) fn minutes_to_seconds(minutes: i64) -> (r: Option<i64>)
    requires
        minutes >= 0,
    ensures
        match r {
            Some(s) => s == minutes * 60 && s <= MAX_DURATION_SECS,
            None => minutes * 60 > MAX_DURATION_SECS,
        },
{
    Some(chrono::TimeDelta::try_minutes(minutes)?.num_seconds())
}

/// What a clock on the wall shows at some instant.
#[derive(Debug, Clone, Copy, PartialEq, Eq, Structural)]
pub struct LocalTime {
    pub date: CalendarDate,
    pub time: ClockTime,
}

impl LocalTime {
    /// Whether there is such a time.
    pub open spec fn wf(self) -> bool {
        self.date.wf() && self.time.wf()
    }

    /// The seconds that the reading would stand for in UTC.
    pub open spec fn as_utc(self) -> int {
        calendar::epoch_seconds(
            self.date.year as int,
            self.date.month as int,
            self.date.day as int,
            self.time.hour as int,
            self.time.minute as int,
            0,
        )
    }
}

/// Whether `local` can be what a clock on the wall shows at `t`: clocks on the
/// wall are less than a day away from UTC.
pub open spec fn is_reading(t: UtcInstant, local: LocalTime) -> bool {
    local.wf() && -86_400 < local.as_utc() - t.secs + 60 && local.as_utc() - t.secs < 86_400
}

/// Whether `t` can be the instant at which a clock on the wall shows `local`,
/// with no seconds: it is a whole second less than a day away.
pub open spec fn is_local_instant(local: LocalTime, t: UtcInstant) -> bool {
    t.wf() && t.nanos == 0 && -86_400 < local.as_utc() - t.secs < 86_400
}

/// Calls `chrono::Local.from_local_datetime` and takes the earliest instant.
/// Claimed of it: a result lies within the calendar, has no part of a second,
/// and is less than a day away from the same reading in UTC. Which instant it
/// is, and whether there is one, depends on the machine's time zone and is left
/// unsaid.
#[verifier::external_body]
pub(crate) fn local_to_utc(local: LocalTime) -> (r: Option<UtcInstant>)
    requires
        local.wf(),
    ensures
        r matches Some(t) ==> is_local_instant(local, t),
{
    let date = chrono::NaiveDate::from_ymd_opt(local.date.year, local.date.month, local.date.day)?;
    let time = chrono::NaiveTime::from_hms_opt(local.time.hour, local.time.minute, 0)?;
    let t = chrono::Local.from_local_datetime(&date.and_time(time)).earliest()?.to_utc();
    Some(UtcInstant { secs: t.timestamp(), nanos: t.timestamp_subsec_nanos() })
}

/// Calls `chrono::DateTime::with_timezone` with the machine's time zone. Claimed
/// of it: the reading is that of a clock less than a day away from UTC. Which
/// reading it is depends on the machine's time zone and is left unsaid.
#[verifier::external_body]
pub(crate) fn utc_to_local(t: UtcInstant) -> (r: LocalTime)
    requires
        t.wf(),
        MIN_SECS + 86_400 <= t.secs <= MAX_SECS - 86_400,
    ensures
        is_reading(t, r),
{
    let utc = chrono::DateTime::<chrono::Utc>::from_timestamp(t.secs, t.nanos).unwrap_or_default();
    let local = utc.with_timezone(&chrono::Local);
    let date = local.date_naive();
    LocalTime {
        date: CalendarDate { year: date.year(), month: date.month(), day: date.day() },
        time: ClockTime { hour: local.hour(), minute: local.minute() },
    }
}

/// A time of day in text, such as `09:05`.
pub open spec fn clock_text(time: ClockTime) -> Seq<char> {
    decimal::padded_digits(time.hour as nat, 2) + ":"@ + decimal::padded_digits(
        time.minute as nat,
        2,
    )
}

/// A year in text: four digits, and a sign before years that have other than
/// four digits or are negative.
pub open spec fn year_text(year: int) -> Seq<char> {
    if 0 <= year <= 9_999 {
        decimal::padded_digits(year as nat, 4)
    } else if year > 0 {
        "+"@ + decimal::padded_digits(year as nat, 4)
    } else {
        "-"@ + decimal::padded_digits((-year) as nat, 4)
    }
}

/// A date in text, such as `2026-08-25`.
pub open spec fn date_text(date: CalendarDate) -> Seq<char> {
    year_text(date.year as int) + "-"@ + decimal::padded_digits(date.month as nat, 2) + "-"@
        + decimal::padded_digits(date.day as nat, 2)
}

/// Calls `chrono::NaiveTime::format` with `%H:%M`. Claimed of it: it writes the
/// hour and the minute in two digits each with a colon between them.
#[verifier::external_body]
pub(crate) fn format_clock(time: ClockTime) -> (r: String)
    requires
        time.wf(),
    ensures
        r@ == clock_text(time),
{
    let time = chrono::NaiveTime::from_hms_opt(time.hour, time.minute, 0).unwrap_or_default();
    time.format("%H:%M").to_string()
}

/// Calls `chrono::NaiveDate::format` with `%Y-%m-%d`. Claimed of it: it writes
/// the year in at least four digits, with a sign unless it is from 0 to 9999,
/// and the month and the day in two digits each, with hyphens between them.
#[verifier::external_body]
pub(crate) fn format_date(date: CalendarDate) -> (r: String)
    requires
        date.wf(),
    ensures
        r@ == date_text(date),
{
    let date = chrono::NaiveDate::from_ymd_opt(date.year, date.month, date.day).unwrap_or_default();
    date.format("%Y-%m-%d").to_string()
}

/// Of two instants of the calendar the one comes first that has fewer
/// nanoseconds since the start of 1970.
pub proof fn instants_are_ordered_by_their_nanoseconds(a: UtcInstant, b: UtcInstant)
    requires
        a.nanos < 1_000_000_000,
        b.nanos < 1_000_000_000,
    ensures
        a.le(b) <==> a.total_nanos() <= b.total_nanos(),
{
}

/// Whole seconds between two instants are counted towards zero: as many as have
/// passed in full, before or after.
pub proof fn whole_seconds_have_passed_in_full(t: UtcInstant, now: UtcInstant)
    ensures
        ({
            let d = t.total_nanos() - now.total_nanos();
            let s = seconds_until(t, now);
            &&& d >= 0 ==> s >= 0 && s * 1_000_000_000 <= d < (s + 1) * 1_000_000_000
            &&& d < 0 ==> s <= 0 && (s - 1) * 1_000_000_000 < d <= s * 1_000_000_000
        }),
{
}

/// After a delay the instant has come, and not before; for one that has passed
/// there is no delay.
pub proof fn delays_end_at_the_instant(t: UtcInstant, now: UtcInstant)
    ensures
        delay_nanos(t, now) >= 0,
        t.total_nanos() >= now.total_nanos() ==> now.total_nanos() + delay_nanos(t, now)
            == t.total_nanos(),
        t.total_nanos() < now.total_nanos() ==> delay_nanos(t, now) == 0,
{
}

/// Every date but the calendar's last has a day after it.
pub proof fn only_the_last_day_has_no_next(date: CalendarDate)
    requires
        date.wf(),
    ensures
        next_date(date) is None <==> date == (CalendarDate { year: 262_142, month: 12, day: 31 }),
{
}

/// An instant moved by seconds is that many seconds away, wherever the calendar
/// has it.
pub proof fn moved_instants_are_as_far_away(t: UtcInstant, seconds: int)
    requires
        t.wf(),
    ensures
        MIN_SECS <= t.secs + seconds <= MAX_SECS <==> plus(t, seconds) is Some,
        plus(t, seconds) matches Some(moved) ==> moved.wf() && moved.total_nanos() - t.total_nanos()
            == seconds * 1_000_000_000,
{
}

} // verus!
