//! Fire times and countdowns as the user reads them.

use crate::calendar;
use crate::decimal;
use crate::schedule::clock;
use crate::schedule::clock::{
    day_after, format_clock, format_date, utc_to_local, CalendarDate, LocalTime, UtcInstant,
    MAX_SECS, MIN_SECS,
};
use crate::schedule::parsing;
use vstd::prelude::*;
use vstd::string::StringExecFns;

verus! {

/// A countdown in two units at most: `in 2d 3h`, `in 1h 05m`, `in 4m 32s`, `in
/// 42s`. What has passed counts as now.
pub open spec fn countdown_text(total_seconds: int) -> Seq<char> {
    let total = if total_seconds > 0 {
        total_seconds
    } else {
        0
    };
    let days = (total / 86_400) as nat;
    let hours = (total / 3_600 % 24) as nat;
    let minutes = (total / 60 % 60) as nat;
    let seconds = (total % 60) as nat;
    if days > 0 {
        "in "@ + decimal::digits(days) + "d "@ + decimal::digits(hours) + "h"@
    } else if hours > 0 {
        "in "@ + decimal::digits(hours) + "h "@ + decimal::padded_digits(minutes, 2) + "m"@
    } else if minutes > 0 {
        "in "@ + decimal::digits(minutes) + "m "@ + decimal::padded_digits(seconds, 2) + "s"@
    } else {
        "in "@ + decimal::digits(seconds) + "s"@
    }
}

/// A countdown in two units at most.
pub fn format_countdown(total_seconds: i64) -> (r: String)
    ensures
        r@ == countdown_text(total_seconds as int),
{
    let total: u64 = if total_seconds > 0 {
        total_seconds as u64
    } else {
        0
    };
    let days: u64 = total / 86_400;
    let hours: u64 = total / 3_600 % 24;
    let minutes: u64 = total / 60 % 60;
    let seconds: u64 = total % 60;
    let mut out = "in ".to_owned();
    if days > 0 {
        decimal::push_digits(&mut out, days);
        out.append("d ");
        decimal::push_digits(&mut out, hours);
        out.append("h");
    } else if hours > 0 {
        decimal::push_digits(&mut out, hours);
        out.append("h ");
        decimal::push_two_digits(&mut out, minutes);
        out.append("m");
    } else if minutes > 0 {
        decimal::push_digits(&mut out, minutes);
        out.append("m ");
        decimal::push_two_digits(&mut out, seconds);
        out.append("s");
    } else {
        decimal::push_digits(&mut out, seconds);
        out.append("s");
    }
    out
}

/// A day as seen from another: the same, the next, or any other.
#[derive(Debug, Clone, Copy, PartialEq, Eq, Structural)]
pub enum RelativeDay {
    Today,
    Tomorrow,
    Other,
}

/// How `date` stands to `today`.
pub open spec fn relative_day(date: CalendarDate, today: CalendarDate) -> RelativeDay {
    if date == today {
        RelativeDay::Today
    } else if Some(date) == clock::next_date(today) {
        RelativeDay::Tomorrow
    } else {
        RelativeDay::Other
    }
}

/// How `date` stands to `today`.
pub fn compare_days(date: CalendarDate, today: CalendarDate) -> (r: RelativeDay)
    requires
        today.wf(),
    ensures
        r == relative_day(date, today),
{
    if date == today {
        return RelativeDay::Today;
    }
    match day_after(today) {
        Some(next) => {
            if date == next {
                RelativeDay::Tomorrow
            } else {
                RelativeDay::Other
            }
        },
        None => RelativeDay::Other,
    }
}

/// The label of a fire time: `Today 22:00`, `Tomorrow 09:00`, or the date and
/// the time.
pub open spec fn label_text(local: LocalTime, today: CalendarDate) -> Seq<char> {
    match relative_day(local.date, today) {
        RelativeDay::Today => "Today "@ + clock::clock_text(local.time),
        RelativeDay::Tomorrow => "Tomorrow "@ + clock::clock_text(local.time),
        RelativeDay::Other => clock::date_text(local.date) + " "@ + clock::clock_text(local.time),
    }
}

/// What the picker says of a time: `Will send today at 22:00` and the like.
pub open spec fn preview_text(local: LocalTime, today: CalendarDate) -> Seq<char> {
    match relative_day(local.date, today) {
        RelativeDay::Today => "Will send today at "@ + clock::clock_text(local.time),
        RelativeDay::Tomorrow => "Will send tomorrow at "@ + clock::clock_text(local.time),
        RelativeDay::Other => "Will send on "@ + clock::date_text(local.date) + " at "@
            + clock::clock_text(local.time),
    }
}

/// The label of a fire time that the clock on the wall shows as `local`.
pub fn local_time_label(local: LocalTime, today: CalendarDate) -> (r: String)
    requires
        local.wf(),
        today.wf(),
    ensures
        r@ == label_text(local, today),
{
    let mut out = match compare_days(local.date, today) {
        RelativeDay::Today => "Today ".to_owned(),
        RelativeDay::Tomorrow => "Tomorrow ".to_owned(),
        RelativeDay::Other => {
            let mut date = format_date(local.date);
            date.append(" ");
            date
        },
    };
    let time = format_clock(local.time);
    out.append(time.as_str());
    out
}

/// What the picker says of a time that the clock on the wall shows as `local`.
pub fn local_time_preview(local: LocalTime, today: CalendarDate) -> (r: String)
    requires
        local.wf(),
        today.wf(),
    ensures
        r@ == preview_text(local, today),
{
    let mut out = match compare_days(local.date, today) {
        RelativeDay::Today => "Will send today at ".to_owned(),
        RelativeDay::Tomorrow => "Will send tomorrow at ".to_owned(),
        RelativeDay::Other => {
            let mut date = "Will send on ".to_owned();
            let day = format_date(local.date);
            date.append(day.as_str());
            date.append(" at ");
            date
        },
    };
    let time = format_clock(local.time);
    out.append(time.as_str());
    out
}

/// Whether the clock on the wall can show the instant: it lies a day or more
/// from the ends of the calendar.
pub open spec fn is_showable(t: UtcInstant) -> bool {
    t.wf() && MIN_SECS + 86_400 <= t.secs <= MAX_SECS - 86_400
}

/// The label of a fire time. The time zone of the machine says what the clock on
/// the wall shows at it.
pub fn fire_time_label(fire_at: UtcInstant, today: CalendarDate) -> (r: String)
    requires
        is_showable(fire_at),
        today.wf(),
    ensures
        exists|local: LocalTime|
            clock::is_reading(fire_at, local) && r@ == #[trigger] label_text(local, today),
{
    let local = utc_to_local(fire_at);
    let r = local_time_label(local, today);
    assert(clock::is_reading(fire_at, local) && r@ == label_text(local, today));
    r
}

/// What the picker says of a fire time.
pub fn schedule_preview(fire_at: UtcInstant, today: CalendarDate) -> (r: String)
    requires
        is_showable(fire_at),
        today.wf(),
    ensures
        exists|local: LocalTime|
            clock::is_reading(fire_at, local) && r@ == #[trigger] preview_text(local, today),
{
    let local = utc_to_local(fire_at);
    let r = local_time_preview(local, today);
    assert(clock::is_reading(fire_at, local) && r@ == preview_text(local, today));
    r
}

/// A countdown shows the two largest units that are not zero, and drops the rest:
/// what it says is no more than what is left, and less by under one of its
/// smaller unit.
pub proof fn countdowns_show_what_is_left(total: int)
    ensures
        total >= 86_400 ==> exists|days: nat, hours: nat|
            days >= 1 && hours < 24 && 86_400 * days + 3_600 * hours <= total < 86_400 * days
                + 3_600 * hours + 3_600 && countdown_text(total) == "in "@ + #[trigger]
            decimal::digits(days) + "d "@ + #[trigger] decimal::digits(hours) + "h"@,
        3_600 <= total < 86_400 ==> exists|hours: nat, minutes: nat|
            1 <= hours < 24 && minutes < 60 && 3_600 * hours + 60 * minutes <= total < 3_600 * hours
                + 60 * minutes + 60 && countdown_text(total) == "in "@ + #[trigger]
            decimal::digits(hours) + "h "@ + #[trigger] decimal::padded_digits(minutes, 2) + "m"@,
        60 <= total < 3_600 ==> exists|minutes: nat, seconds: nat|
            1 <= minutes < 60 && seconds < 60 && 60 * minutes + seconds == total && countdown_text(
                total,
            ) == "in "@ + #[trigger] decimal::digits(minutes) + "m "@ + #[trigger]
            decimal::padded_digits(seconds, 2) + "s"@,
        0 <= total < 60 ==> countdown_text(total) == "in "@ + decimal::digits(total as nat) + "s"@,
        total < 0 ==> countdown_text(total) == countdown_text(0),
{
    let days = (total / 86_400) as nat;
    let hours = (total / 3_600 % 24) as nat;
    let minutes = (total / 60 % 60) as nat;
    let seconds = (total % 60) as nat;
    if total >= 86_400 {
        assert(86_400 * days + 3_600 * hours <= total < 86_400 * days + 3_600 * hours + 3_600);
        assert(countdown_text(total) == "in "@ + decimal::digits(days) + "d "@ + decimal::digits(
            hours,
        ) + "h"@);
    } else if total >= 3_600 {
        assert(3_600 * hours + 60 * minutes <= total < 3_600 * hours + 60 * minutes + 60);
        assert(countdown_text(total) == "in "@ + decimal::digits(hours) + "h "@
            + decimal::padded_digits(minutes, 2) + "m"@);
    } else if total >= 60 {
        assert(60 * minutes + seconds == total);
        assert(countdown_text(total) == "in "@ + decimal::digits(minutes) + "m "@
            + decimal::padded_digits(seconds, 2) + "s"@);
    }
}

/// The day after today is tomorrow, today is today, and no day but the next is
/// tomorrow.
pub proof fn tomorrow_is_the_next_day(date: CalendarDate, today: CalendarDate)
    requires
        today.wf(),
    ensures
        relative_day(today, today) == RelativeDay::Today,
        clock::next_date(today) matches Some(next) ==> relative_day(next, today)
            == RelativeDay::Tomorrow,
        relative_day(date, today) == RelativeDay::Today ==> date == today,
        relative_day(date, today) == RelativeDay::Tomorrow ==> calendar::epoch_day(
            date.year as int,
            date.month as int,
            date.day as int,
        ) == calendar::epoch_day(today.year as int, today.month as int, today.day as int) + 1,
{
    clock::next_date_is_the_next_day(today);
}

/// Labels and previews end in the time of day, from which it is read back, and
/// name the day before it: today and tomorrow by their names, another day by its
/// date.
pub proof fn labels_name_day_and_time(local: LocalTime, today: CalendarDate)
    requires
        local.wf(),
        today.wf(),
    ensures
        ({
            let label = label_text(local, today);
            let preview = preview_text(local, today);
            let n = label.len() - 5;
            let m = preview.len() - 5;
            let day = label.take(n);
            let announced = preview.take(m);
            &&& n >= 0 && m >= 0
            &&& parsing::wall_clock(label.skip(n)) == Some(local.time)
            &&& parsing::wall_clock(preview.skip(m)) == Some(local.time)
            &&& local.date == today ==> day == "Today "@ && announced == "Will send today at "@
            &&& Some(local.date) == clock::next_date(today) ==> day == "Tomorrow "@ && announced
                == "Will send tomorrow at "@
            &&& local.date != today && Some(local.date) != clock::next_date(today) ==> day
                == clock::date_text(local.date) + " "@ && announced == "Will send on "@
                + clock::date_text(local.date) + " at "@
        }),
{
    let time = clock::clock_text(local.time);
    let label = label_text(local, today);
    let preview = preview_text(local, today);
    parsing::clock_text_reads_back(local.time);
    lemma_clock_text_length(local.time);
    clock::next_date_is_the_next_day(today);
    let n = label.len() - 5;
    let m = preview.len() - 5;
    assert(label.skip(n) =~= time);
    assert(preview.skip(m) =~= time);
    match relative_day(local.date, today) {
        RelativeDay::Today => {
            assert(label.take(n) =~= "Today "@);
            assert(preview.take(m) =~= "Will send today at "@);
        },
        RelativeDay::Tomorrow => {
            assert(label.take(n) =~= "Tomorrow "@);
            assert(preview.take(m) =~= "Will send tomorrow at "@);
        },
        RelativeDay::Other => {
            assert(label.take(n) =~= clock::date_text(local.date) + " "@);
            assert(preview.take(m) =~= "Will send on "@ + clock::date_text(local.date) + " at "@);
        },
    }
}

/// A time of day has five characters.
proof fn lemma_clock_text_length(time: clock::ClockTime)
    requires
        time.wf(),
    ensures
        clock::clock_text(time).len() == 5,
{
    reveal_strlit(":");
    reveal_with_fuel(decimal::digits, 3);
}

} // verus!
