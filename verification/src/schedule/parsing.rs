//! Fire times as the user types them.

use crate::decimal;
use crate::schedule::clock;
use crate::schedule::clock::{
    clock_time, day_after, local_to_utc, minutes_to_seconds, CalendarDate, ClockTime, LocalTime,
    UtcInstant, MAX_DURATION_SECS, MAX_SECS,
};
use crate::text;
use vstd::prelude::*;
use vstd::slice::slice_subrange;

verus! {

/// Why a text could not be turned into a fire time.
#[derive(Debug, Clone, Copy, PartialEq, Eq, Structural)]
pub enum ParseError {
    Empty,
    Unrecognized,
    TooSoon,
}

/// What the user is told.
pub open spec fn error_text(error: ParseError) -> Seq<char> {
    match error {
        ParseError::Empty => "Enter a time, e.g. 30m, 21:30, or tomorrow 09:00"@,
        ParseError::Unrecognized => "Unrecognized time; use 30m, 1h30m, 21:30, or tomorrow 09:00"@,
        ParseError::TooSoon => "Time must be at least 10 seconds from now"@,
    }
}

impl ParseError {
    /// What the user is told.
    pub fn message(self) -> (r: &'static str)
        ensures
            r@ == error_text(self),
    {
        match self {
            ParseError::Empty => "Enter a time, e.g. 30m, 21:30, or tomorrow 09:00",
            ParseError::Unrecognized => {
                "Unrecognized time; use 30m, 1h30m, 21:30, or tomorrow 09:00"
            },
            ParseError::TooSoon => "Time must be at least 10 seconds from now",
        }
    }
}

/// The least time between now and a fire time, in seconds.
pub const MIN_LEAD_SECONDS: i64 = 10;

/// How many digits `s` starts with.
pub open spec fn digit_count(s: Seq<char>) -> int
    decreases s.len(),
{
    if s.len() > 0 && decimal::is_digit(s[0]) {
        1 + digit_count(s.skip(1))
    } else {
        0
    }
}

/// Whether `s` starts with a number and then the unit.
pub open spec fn has_part(s: Seq<char>, unit: char) -> bool {
    let n = digit_count(s);
    0 < n < s.len() && s[n] == unit
}

/// The number that `s` starts with, where the unit follows it; zero otherwise.
pub open spec fn part_value(s: Seq<char>, unit: char) -> nat {
    if has_part(s, unit) {
        decimal::value_of(s.take(digit_count(s)))
    } else {
        0
    }
}

/// `s` after the number and the unit that it starts with.
pub open spec fn after_part(s: Seq<char>, unit: char) -> Seq<char> {
    if has_part(s, unit) {
        s.skip(digit_count(s) + 1)
    } else {
        s
    }
}

/// The minutes that an offset such as `1d2h3m` stands for: days, hours and
/// minutes in this order, at least one of them, and nothing else.
pub open spec fn offset_minutes(s: Seq<char>) -> Option<nat> {
    let after_days = after_part(s, 'd');
    let after_hours = after_part(after_days, 'h');
    let rest = after_part(after_hours, 'm');
    if (has_part(s, 'd') || has_part(after_days, 'h') || has_part(after_hours, 'm'))
        && rest.len() == 0 {
        Some(
            part_value(s, 'd') * 1_440 + part_value(after_days, 'h') * 60 + part_value(
                after_hours,
                'm',
            ),
        )
    } else {
        None
    }
}

/// The seconds that an offset stands for, unless they are more than can be
/// reckoned with.
pub open spec fn offset_seconds(s: Seq<char>) -> Option<nat> {
    match offset_minutes(s) {
        Some(minutes) => if minutes * 60 <= MAX_DURATION_SECS {
            Some(minutes * 60)
        } else {
            None
        },
        None => None,
    }
}

/// The time of day that a text such as `9:05` or `21:30` writes: one or two
/// digits, a colon, two digits.
pub open spec fn wall_clock(s: Seq<char>) -> Option<ClockTime> {
    match text::split_at_pattern(s, ":"@) {
        Some((hour, minute)) => if 1 <= hour.len() <= 2 && minute.len() == 2 && decimal::all_digits(
            hour,
        ) && decimal::all_digits(minute) && decimal::value_of(hour) < 24 && decimal::value_of(
            minute,
        ) < 60 {
            Some(
                ClockTime {
                    hour: decimal::value_of(hour) as u32,
                    minute: decimal::value_of(minute) as u32,
                },
            )
        } else {
            None
        },
        None => None,
    }
}

/// What a text asks for.
#[derive(Debug, Clone, Copy, PartialEq, Eq, Structural)]
pub enum FireTimeRequest {
    /// Nothing was entered.
    Empty,
    /// So many seconds from now.
    After(i64),
    /// Tomorrow at the time of day.
    Tomorrow(ClockTime),
    /// At the time of day, today or, if that has passed, tomorrow.
    At(ClockTime),
    /// Nothing that is understood.
    Unrecognized,
}

/// What the user typed, without whitespace around it and in small letters.
pub open spec fn normalized_input(s: Seq<char>) -> Seq<char> {
    let t = text::trimmed(s);
    Seq::new(t.len(), |i: int| text::ascii_lower(t[i]))
}

/// What a text asks for.
pub open spec fn fire_time_request(input: Seq<char>) -> FireTimeRequest {
    let s = normalized_input(input);
    if s.len() == 0 {
        FireTimeRequest::Empty
    } else {
        match offset_seconds(s) {
            Some(seconds) => FireTimeRequest::After(seconds as i64),
            None => match text::after_prefix(s, "tomorrow "@) {
                Some(rest) => match wall_clock(text::trimmed_start(rest)) {
                    Some(time) => FireTimeRequest::Tomorrow(time),
                    None => FireTimeRequest::Unrecognized,
                },
                None => match wall_clock(s) {
                    Some(time) => FireTimeRequest::At(time),
                    None => FireTimeRequest::Unrecognized,
                },
            },
        }
    }
}

/// How many digits `s` starts with.
fn count_digits(s: &[char]) -> (r: usize)
    ensures
        r == digit_count(s@),
        r <= s@.len(),
        forall|i: int| 0 <= i < r ==> decimal::is_digit(#[trigger] s@[i]),
{
    let mut n: usize = 0;
    assert(s@.skip(0) =~= s@);
    while n < s.len() && '0' <= s[n] && s[n] <= '9'
        invariant
            n <= s@.len(),
            digit_count(s@) == n + digit_count(s@.skip(n as int)),
            forall|i: int| 0 <= i < n ==> decimal::is_digit(#[trigger] s@[i]),
        decreases s@.len() - n,
    {
        assert(s@.skip(n as int).skip(1) =~= s@.skip(n + 1));
        n = n + 1;
    }
    n
}

/// The largest number of minutes that can be reckoned with.
const MAX_MINUTES: u64 = 153_722_867_280_912;

/// Takes a number and the unit from the start of `s`: whether they are there,
/// the number, and what follows. The number is `None` where it is larger than
/// any offset can be.
fn take_part<'a>(s: &'a [char], unit: char) -> (r: (bool, Option<u64>, &'a [char]))
    ensures
        r.0 == has_part(s@, unit),
        match r.1 {
            Some(n) => n == part_value(s@, unit) && n <= MAX_MINUTES,
            None => part_value(s@, unit) > MAX_MINUTES,
        },
        r.2@ == after_part(s@, unit),
{
    let n: usize = count_digits(s);
    if n == 0 || n >= s.len() || s[n] != unit {
        return (false, Some(0), s);
    }
    let digits = slice_subrange(s, 0, n);
    assert(decimal::all_digits(digits@));
    (true, decimal::parse_digits(digits, MAX_MINUTES), slice_subrange(s, n + 1, s.len()))
}

/// The seconds that an offset such as `30m`, `1h30m` or `1d2h3m` stands for.
pub fn parse_relative_offset(input: &[char]) -> (r: Option<i64>)
    ensures
        match r {
            Some(s) => offset_seconds(input@) == Some(s as nat) && 0 <= s <= MAX_DURATION_SECS,
            None => offset_seconds(input@) is None,
        },
{
    let (has_days, days, after_days) = take_part(input, 'd');
    let (has_hours, hours, after_hours) = take_part(after_days, 'h');
    let (has_minutes, minutes, rest) = take_part(after_hours, 'm');
    if !(has_days || has_hours || has_minutes) || rest.len() > 0 {
        return None;
    }
    match (days, hours, minutes) {
        (Some(d), Some(h), Some(m)) => {
            let total: u64 = d * 1_440 + h * 60 + m;
            minutes_to_seconds(total as i64)
        },
        _ => None,
    }
}

/// Whether `s` is made of digits alone.
fn are_digits(s: &[char]) -> (r: bool)
    ensures
        r == decimal::all_digits(s@),
{
    let n: usize = count_digits(s);
    proof {
        if n < s@.len() {
            lemma_digit_count_stops(s@);
        }
    }
    n == s.len()
}

/// What follows the digits that a text starts with is no digit.
proof fn lemma_digit_count_stops(s: Seq<char>)
    ensures
        0 <= digit_count(s) <= s.len(),
        digit_count(s) < s.len() ==> !decimal::is_digit(s[digit_count(s)]),
    decreases s.len(),
{
    if s.len() > 0 && decimal::is_digit(s[0]) {
        lemma_digit_count_stops(s.skip(1));
    }
}

/// Two digits write a number below a hundred.
proof fn lemma_two_digits(s: Seq<char>)
    requires
        s.len() <= 2,
        decimal::all_digits(s),
    ensures
        decimal::value_of(s) < 100,
{
    reveal_with_fuel(decimal::value_of, 3);
    if s.len() == 2 {
        assert(decimal::is_digit(s[0]) && decimal::is_digit(s[1]));
        assert(s.drop_last().last() == s[0]);
    } else if s.len() == 1 {
        assert(decimal::is_digit(s[0]));
    }
}

/// The time of day that a text writes; the hour may have one digit or two.
pub fn parse_wall_clock(input: &[char]) -> (r: Option<ClockTime>)
    ensures
        r == wall_clock(input@),
{
    match text::split_once(input, ":") {
        Some((hour, minute)) => {
            if hour.len() == 0 || hour.len() > 2 || minute.len() != 2 || !are_digits(hour)
                || !are_digits(minute) {
                return None;
            }
            proof {
                lemma_two_digits(hour@);
                lemma_two_digits(minute@);
            }
            match (decimal::parse_digits(hour, 99), decimal::parse_digits(minute, 99)) {
                (Some(h), Some(m)) => clock_time(h as u32, m as u32),
                _ => None,
            }
        },
        None => None,
    }
}

/// What the user typed, without whitespace around it and in small letters.
fn normalize_input(input: &str) -> (r: Vec<char>)
    ensures
        r@ == normalized_input(input@),
{
    let chars = text::to_chars(input);
    let trimmed = text::trim(chars.as_slice());
    let mut out: Vec<char> = Vec::new();
    let mut i: usize = 0;
    while i < trimmed.len()
        invariant
            i <= trimmed@.len(),
            trimmed@ == text::trimmed(input@),
            out@ == normalized_input(input@).take(i as int),
        decreases trimmed@.len() - i,
    {
        out.push(text::to_ascii_lower(trimmed[i]));
        i = i + 1;
        assert(out@ =~= normalized_input(input@).take(i as int));
    }
    assert(out@ =~= normalized_input(input@));
    out
}

/// What a text asks for.
pub fn parse_fire_time_request(input: &str) -> (r: FireTimeRequest)
    ensures
        r == fire_time_request(input@),
        r matches FireTimeRequest::After(s) ==> 0 <= s <= MAX_DURATION_SECS,
        r matches FireTimeRequest::Tomorrow(time) ==> time.wf(),
        r matches FireTimeRequest::At(time) ==> time.wf(),
{
    let chars = normalize_input(input);
    let s = chars.as_slice();
    if s.len() == 0 {
        return FireTimeRequest::Empty;
    }
    if let Some(seconds) = parse_relative_offset(s) {
        return FireTimeRequest::After(seconds);
    }
    if let Some(rest) = text::strip_prefix(s, "tomorrow ") {
        return match parse_wall_clock(text::trim_start(rest)) {
            Some(time) => FireTimeRequest::Tomorrow(time),
            None => FireTimeRequest::Unrecognized,
        };
    }
    match parse_wall_clock(s) {
        Some(time) => FireTimeRequest::At(time),
        None => FireTimeRequest::Unrecognized,
    }
}

/// An instant, and the date that a clock on the wall shows at it.
#[derive(Debug, Clone, Copy, PartialEq, Eq, Structural)]
pub struct LocalNow {
    pub instant: UtcInstant,
    pub today: CalendarDate,
}

impl LocalNow {
    /// Whether the instant lies far enough from the calendar's end for a fire
    /// time to come after it.
    pub open spec fn wf(self) -> bool {
        self.instant.wf() && self.today.wf() && self.instant.secs + MIN_LEAD_SECONDS <= MAX_SECS
    }
}

/// The instant that a request asks for, given the instants at which the clock
/// on the wall shows its time today and tomorrow. A time that has passed today
/// means tomorrow.
pub open spec fn requested_instant(
    request: FireTimeRequest,
    now: UtcInstant,
    today_at: Option<UtcInstant>,
    tomorrow_at: Option<UtcInstant>,
) -> Result<UtcInstant, ParseError> {
    let found = match request {
        FireTimeRequest::After(seconds) => clock::plus(now, seconds as int),
        FireTimeRequest::Tomorrow(_) => tomorrow_at,
        FireTimeRequest::At(_) => match today_at {
            Some(t) => if t.le(now) {
                tomorrow_at
            } else {
                today_at
            },
            None => tomorrow_at,
        },
        _ => None,
    };
    match found {
        Some(t) => Ok(t),
        None => if request is Empty {
            Err(ParseError::Empty)
        } else {
            Err(ParseError::Unrecognized)
        },
    }
}

/// The earliest fire time.
pub open spec fn earliest_fire_time(now: UtcInstant) -> UtcInstant {
    UtcInstant { secs: (now.secs + MIN_LEAD_SECONDS) as i64, nanos: now.nanos }
}

/// The fire time of a request: the instant that it asks for, unless that is too
/// soon.
pub open spec fn resolved_fire_time(
    request: FireTimeRequest,
    now: UtcInstant,
    today_at: Option<UtcInstant>,
    tomorrow_at: Option<UtcInstant>,
) -> Result<UtcInstant, ParseError> {
    match requested_instant(request, now, today_at, tomorrow_at) {
        Ok(t) => if earliest_fire_time(now).le(t) {
            Ok(t)
        } else {
            Err(ParseError::TooSoon)
        },
        Err(e) => Err(e),
    }
}

/// The fire time of a request, given the instants at which the clock on the
/// wall shows its time today and tomorrow.
pub fn resolve_fire_time(
    request: FireTimeRequest,
    now: UtcInstant,
    today_at: Option<UtcInstant>,
    tomorrow_at: Option<UtcInstant>,
) -> (r: Result<UtcInstant, ParseError>)
    requires
        now.wf(),
        now.secs + MIN_LEAD_SECONDS <= MAX_SECS,
        request matches FireTimeRequest::After(s) ==> clock::is_duration(s as int),
    ensures
        r == resolved_fire_time(request, now, today_at, tomorrow_at),
{
    let found = match request {
        FireTimeRequest::After(seconds) => now.plus_seconds(seconds),
        FireTimeRequest::Tomorrow(time) => tomorrow_at,
        FireTimeRequest::At(time) => match today_at {
            Some(t) => {
                if t.is_at_or_before(&now) {
                    tomorrow_at
                } else {
                    today_at
                }
            },
            None => tomorrow_at,
        },
        FireTimeRequest::Empty => {
            return Err(ParseError::Empty);
        },
        FireTimeRequest::Unrecognized => {
            return Err(ParseError::Unrecognized);
        },
    };
    match found {
        Some(t) => {
            let earliest = UtcInstant { secs: now.secs + MIN_LEAD_SECONDS, nanos: now.nanos };
            if earliest.is_at_or_before(&t) {
                Ok(t)
            } else {
                Err(ParseError::TooSoon)
            }
        },
        None => Err(ParseError::Unrecognized),
    }
}

/// The time of day in a request.
pub open spec fn requested_time(request: FireTimeRequest) -> Option<ClockTime> {
    match request {
        FireTimeRequest::Tomorrow(time) => Some(time),
        FireTimeRequest::At(time) => Some(time),
        _ => None,
    }
}

/// Whether `t` can be the instant at which the clock on the wall shows the
/// requested time on the date; no instant always can.
pub open spec fn can_be_instant(
    request: FireTimeRequest,
    date: Option<CalendarDate>,
    t: Option<UtcInstant>,
) -> bool {
    t matches Some(t) ==> (requested_time(request) matches Some(time) && (date matches Some(date)
        && clock::is_local_instant(LocalTime { date, time }, t)))
}

/// Turns what the user typed into a fire time: an offset (`30m`, `2h`, `1h30m`,
/// `1d`), a time of day (`21:30`, which means tomorrow once it has passed
/// today), or a time of day tomorrow (`tomorrow 09:00`). A fire time comes at
/// least ten seconds after now. The time zone of the machine says at which
/// instant a clock on the wall shows a time of day.
pub fn parse_fire_time(input: &str, now: LocalNow) -> (r: Result<UtcInstant, ParseError>)
    requires
        now.wf(),
    ensures
        exists|today_at: Option<UtcInstant>, tomorrow_at: Option<UtcInstant>|
            can_be_instant(fire_time_request(input@), Some(now.today), today_at)
                && can_be_instant(
                fire_time_request(input@),
                clock::next_date(now.today),
                tomorrow_at,
            ) && r == #[trigger] resolved_fire_time(
                fire_time_request(input@),
                now.instant,
                today_at,
                tomorrow_at,
            ),
        r matches Ok(t) ==> earliest_fire_time(now.instant).le(t),
{
    let request = parse_fire_time_request(input);
    let today_at = match request {
        FireTimeRequest::At(time) => local_to_utc(LocalTime { date: now.today, time }),
        _ => None,
    };
    proof {
        clock::next_date_is_the_next_day(now.today);
    }
    let tomorrow_at = match request {
        FireTimeRequest::At(time) | FireTimeRequest::Tomorrow(time) => match day_after(now.today) {
            Some(date) => local_to_utc(LocalTime { date, time }),
            None => None,
        },
        _ => None,
    };
    let r = resolve_fire_time(request, now.instant, today_at, tomorrow_at);
    assert(r == resolved_fire_time(
        fire_time_request(input@),
        now.instant,
        today_at,
        tomorrow_at,
    ));
    r
}

/// A fire time comes at least ten seconds after now.
pub proof fn fire_times_keep_the_lead(
    request: FireTimeRequest,
    now: UtcInstant,
    today_at: Option<UtcInstant>,
    tomorrow_at: Option<UtcInstant>,
)
    requires
        now.wf(),
        now.secs + MIN_LEAD_SECONDS <= MAX_SECS,
    ensures
        resolved_fire_time(request, now, today_at, tomorrow_at) matches Ok(t) ==> t.secs - now.secs
            >= MIN_LEAD_SECONDS && !t.le(now),
{
}

/// A time of day means tomorrow exactly where it has passed today, or today has
/// no such time. A time a few seconds ahead stays today, and is too soon.
pub proof fn passed_times_mean_tomorrow(
    time: ClockTime,
    now: UtcInstant,
    today_at: Option<UtcInstant>,
    tomorrow_at: Option<UtcInstant>,
)
    ensures
        requested_instant(FireTimeRequest::At(time), now, today_at, tomorrow_at) == (if today_at
            matches Some(t) && !t.le(now) {
            Ok(today_at->0)
        } else {
            requested_instant(FireTimeRequest::Tomorrow(time), now, today_at, tomorrow_at)
        }),
{
}

/// Whitespace around a text and the case of ASCII letters make no difference to
/// what it asks for.
pub proof fn space_and_case_do_not_matter(a: Seq<char>, b: Seq<char>)
    requires
        text::same_ignoring_ascii_case(text::trimmed(a), text::trimmed(b)),
    ensures
        fire_time_request(a) == fire_time_request(b),
{
    let x = text::trimmed(a);
    let y = text::trimmed(b);
    assert forall|i: int| 0 <= i < x.len() implies normalized_input(a)[i] == normalized_input(
        b,
    )[i] by {
        assert(text::ascii_lower(x[i]) == text::ascii_lower(y[i]));
    }
    assert(normalized_input(a) =~= normalized_input(b));
}

/// A text of digits, a unit and more starts with just these digits.
proof fn lemma_part(digits: Seq<char>, unit: char, rest: Seq<char>)
    requires
        digits.len() > 0,
        decimal::all_digits(digits),
        !decimal::is_digit(unit),
    ensures
        digit_count(digits + seq![unit] + rest) == digits.len(),
        has_part(digits + seq![unit] + rest, unit),
        part_value(digits + seq![unit] + rest, unit) == decimal::value_of(digits),
        after_part(digits + seq![unit] + rest, unit) == rest,
        forall|other: char|
            other != unit ==> !#[trigger] has_part(digits + seq![unit] + rest, other),
{
    let s = digits + seq![unit] + rest;
    lemma_digit_run(s, digits.len() as int);
    assert(s.take(digits.len() as int) =~= digits);
    assert(s.skip(digits.len() as int + 1) =~= rest);
}

/// The digits at the start of a text end where the first other character
/// stands.
proof fn lemma_digit_run(s: Seq<char>, n: int)
    requires
        0 <= n < s.len(),
        forall|i: int| 0 <= i < n ==> decimal::is_digit(#[trigger] s[i]),
        !decimal::is_digit(s[n]),
    ensures
        digit_count(s) == n,
    decreases n,
{
    if n > 0 {
        assert(decimal::is_digit(s[0]));
        let t = s.skip(1);
        assert forall|i: int| 0 <= i < n - 1 implies decimal::is_digit(#[trigger] t[i]) by {
            assert(t[i] == s[i + 1]);
        }
        lemma_digit_run(t, n - 1);
    }
}

/// An offset of days, hours and minutes is read as it was written.
pub proof fn written_offset_reads_back(days: nat, hours: nat, minutes: nat)
    ensures
        offset_minutes(
            decimal::digits(days) + seq!['d'] + (decimal::digits(hours) + seq!['h'] + (
            decimal::digits(minutes) + seq!['m'] + Seq::empty())),
        ) == Some(days * 1_440 + hours * 60 + minutes),
{
    let last = decimal::digits(minutes) + seq!['m'] + Seq::<char>::empty();
    let middle = decimal::digits(hours) + seq!['h'] + last;
    decimal::digits_read_back(days);
    decimal::digits_read_back(hours);
    decimal::digits_read_back(minutes);
    lemma_part(decimal::digits(days), 'd', middle);
    lemma_part(decimal::digits(hours), 'h', last);
    lemma_part(decimal::digits(minutes), 'm', Seq::empty());
}

/// Units out of order are not understood.
pub proof fn units_out_of_order_are_refused(minutes: nat, hours: nat)
    ensures
        offset_minutes(
            decimal::digits(minutes) + seq!['m'] + (decimal::digits(hours) + seq!['h']
                + Seq::empty()),
        ) is None,
{
    let rest = decimal::digits(hours) + seq!['h'] + Seq::<char>::empty();
    let s = decimal::digits(minutes) + seq!['m'] + rest;
    decimal::digits_read_back(minutes);
    decimal::digits_read_back(hours);
    lemma_part(decimal::digits(minutes), 'm', rest);
    assert(!has_part(s, 'd') && !has_part(s, 'h'));
    assert(rest.len() > 0);
}

/// A number below a hundred has one digit or two, and in two places is read
/// back as it was written.
proof fn lemma_two_places(n: nat)
    requires
        n < 100,
    ensures
        decimal::padded_digits(n, 2).len() == 2,
        decimal::all_digits(decimal::padded_digits(n, 2)),
        decimal::value_of(decimal::padded_digits(n, 2)) == n,
{
    let d = decimal::digits(n);
    let s = decimal::padded_digits(n, 2);
    decimal::digits_read_back(n);
    reveal_with_fuel(decimal::digits, 3);
    reveal_with_fuel(decimal::value_of, 3);
    assert(n >= 10 ==> n / 10 < 10);
    assert(d.len() == (if n < 10 {
        1nat
    } else {
        2nat
    }));
    if n < 10 {
        assert(s =~= seq!['0'] + d);
        assert(decimal::is_digit(d[0]));
        assert(s.drop_last() =~= seq!['0']);
        assert(s.last() == d[0]);
        assert(decimal::value_of(s.drop_last()) == 0) by {
            assert(seq!['0'].drop_last() =~= Seq::<char>::empty());
        }
        assert(d.drop_last() =~= Seq::<char>::empty());
    } else {
        assert(s =~= d);
    }
}

/// A time of day is read back from its text.
pub proof fn clock_text_reads_back(time: ClockTime)
    requires
        time.wf(),
    ensures
        wall_clock(clock::clock_text(time)) == Some(time),
{
    let hour = decimal::padded_digits(time.hour as nat, 2);
    let minute = decimal::padded_digits(time.minute as nat, 2);
    lemma_two_places(time.hour as nat);
    lemma_two_places(time.minute as nat);
    let s = clock::clock_text(time);
    reveal_strlit(":");
    assert(s =~= hour + seq![':'] + minute);
    assert(decimal::is_digit(hour[0]) && decimal::is_digit(hour[1]));
    let s1 = s.skip(1);
    let s2 = s1.skip(1);
    assert(s2 =~= seq![':'] + minute);
    assert(":"@ =~= seq![':']);
    assert(!":"@.is_prefix_of(s)) by {
        assert(s.subrange(0, 1)[0] == hour[0]);
        assert(":"@[0] == ':');
    }
    assert(!":"@.is_prefix_of(s1)) by {
        assert(s1.subrange(0, 1)[0] == hour[1]);
        assert(":"@[0] == ':');
    }
    assert(":"@.is_prefix_of(s2)) by {
        assert(s2.subrange(0, 1) =~= ":"@);
    }
    assert(s2.skip(1) =~= minute);
    assert(text::split_at_pattern(s2, ":"@) == Some((Seq::<char>::empty(), minute)));
    assert(text::split_at_pattern(s1, ":"@) == Some((seq![s1[0]] + Seq::<char>::empty(), minute)));
    assert(seq![s[0]] + (seq![s1[0]] + Seq::<char>::empty()) =~= hour);
    assert(text::split_at_pattern(s, ":"@) == Some((hour, minute)));
}

/// The text of a time of day, with the hour as it is written.
pub open spec fn written_time(hour: Seq<char>, minute: nat) -> Seq<char> {
    hour + ":"@ + decimal::padded_digits(minute, 2)
}

/// Digits hold nothing that is no digit.
proof fn lemma_digits_hold(s: Seq<char>, c: char)
    requires
        decimal::all_digits(s),
        !decimal::is_digit(c),
    ensures
        !s.contains(c),
{
    if s.contains(c) {
        let k = choose|k: int| 0 <= k < s.len() && s[k] == c;
        assert(decimal::is_digit(s[k]));
    }
}

/// A time of day is read from the plain digits of its hour as from two digits.
pub proof fn written_times_read_back(time: ClockTime)
    requires
        time.wf(),
    ensures
        wall_clock(written_time(decimal::digits(time.hour as nat), time.minute as nat)) == Some(
            time,
        ),
        wall_clock(
            written_time(decimal::padded_digits(time.hour as nat, 2), time.minute as nat),
        ) == Some(time),
{
    let plain = decimal::digits(time.hour as nat);
    let padded = decimal::padded_digits(time.hour as nat, 2);
    let minute = decimal::padded_digits(time.minute as nat, 2);
    lemma_two_places(time.hour as nat);
    lemma_two_places(time.minute as nat);
    decimal::digits_read_back(time.hour as nat);
    reveal_with_fuel(decimal::digits, 3);
    assert(1 <= plain.len() <= 2);
    reveal_strlit(":");
    assert(":"@ =~= seq![':']);
    lemma_digits_hold(plain, ':');
    lemma_digits_hold(padded, ':');
    text::part_without_the_character_is_split_off(plain, ':', minute);
    text::part_without_the_character_is_split_off(padded, ':', minute);
}

/// One or two digits are the plain digits of their number, or its two digits.
proof fn lemma_short_digits(s: Seq<char>)
    requires
        1 <= s.len() <= 2,
        decimal::all_digits(s),
    ensures
        s.len() == 2 ==> s == decimal::padded_digits(decimal::value_of(s), 2),
        s.len() == 1 ==> s == decimal::digits(decimal::value_of(s)),
{
    reveal_with_fuel(decimal::value_of, 3);
    reveal_with_fuel(decimal::digits, 3);
    assert(decimal::is_digit(s[0]));
    let a = (s[0] as u32 - '0' as u32) as nat;
    if s.len() == 1 {
        assert(s.drop_last() =~= Seq::<char>::empty());
        assert(decimal::value_of(s) == a);
        assert(s =~= seq![decimal::digit(a)]);
    } else {
        assert(decimal::is_digit(s[1]));
        let b = (s[1] as u32 - '0' as u32) as nat;
        assert(s.drop_last() =~= seq![s[0]]);
        assert(seq![s[0]].drop_last() =~= Seq::<char>::empty());
        assert(decimal::value_of(s) == 10 * a + b);
        let n = decimal::value_of(s);
        if a == 0 {
            assert(decimal::digits(n) =~= seq![s[1]]);
            assert(decimal::padded_digits(n, 2) =~= s);
        } else {
            assert(n / 10 == a && n % 10 == b);
            assert(decimal::digits(n) =~= seq![decimal::digit(a)].push(decimal::digit(b)));
            assert(decimal::padded_digits(n, 2) =~= s);
        }
    }
}

/// Nothing else is read as a time of day: a text that is read is that of the
/// time, with one digit or two for the hour.
pub proof fn only_written_times_are_read(s: Seq<char>)
    ensures
        wall_clock(s) matches Some(time) ==> time.wf() && (s == written_time(
            decimal::digits(time.hour as nat),
            time.minute as nat,
        ) || s == written_time(
            decimal::padded_digits(time.hour as nat, 2),
            time.minute as nat,
        )),
{
    text::text_is_split_at_the_first(s, ":"@);
    if let Some(time) = wall_clock(s) {
        let (hour, minute) = text::split_at_pattern(s, ":"@)->0;
        lemma_short_digits(hour);
        lemma_short_digits(minute);
    }
}

/// A number and its unit, or nothing.
pub open spec fn offset_part(digits: Option<Seq<char>>, unit: char) -> Seq<char> {
    match digits {
        Some(d) => d + seq![unit],
        None => Seq::empty(),
    }
}

/// The text of an offset: days, hours and minutes, each if it is there.
pub open spec fn offset_text(
    days: Option<Seq<char>>,
    hours: Option<Seq<char>>,
    minutes: Option<Seq<char>>,
) -> Seq<char> {
    offset_part(days, 'd') + offset_part(hours, 'h') + offset_part(minutes, 'm')
}

/// Whether a number that is there has digits, and nothing else.
pub open spec fn is_number(digits: Option<Seq<char>>) -> bool {
    digits matches Some(d) ==> d.len() > 0 && decimal::all_digits(d)
}

/// What a number that is there stands for.
pub open spec fn number_or_zero(digits: Option<Seq<char>>) -> nat {
    match digits {
        Some(d) => decimal::value_of(d),
        None => 0,
    }
}

/// Where a part is written, it is read and taken off; where it is not, and
/// another or nothing follows, nothing is.
proof fn lemma_offset_part(digits: Option<Seq<char>>, unit: char, rest: Seq<char>)
    requires
        is_number(digits),
        !decimal::is_digit(unit),
        digits is None ==> !has_part(rest, unit),
    ensures
        has_part(offset_part(digits, unit) + rest, unit) == (digits is Some),
        part_value(offset_part(digits, unit) + rest, unit) == number_or_zero(digits),
        after_part(offset_part(digits, unit) + rest, unit) == rest,
        digits is Some ==> forall|other: char|
            other != unit ==> !#[trigger] has_part(offset_part(digits, unit) + rest, other),
{
    let s = offset_part(digits, unit) + rest;
    match digits {
        Some(d) => {
            lemma_part(d, unit, rest);
            assert(s =~= d + seq![unit] + rest);
        },
        None => {
            assert(s =~= rest);
        },
    }
}

/// Days, hours and minutes, any of them and in this order, are read as what they
/// come to: a day has 1440 minutes, and an hour 60.
pub proof fn written_offsets_read_back(
    days: Option<Seq<char>>,
    hours: Option<Seq<char>>,
    minutes: Option<Seq<char>>,
)
    requires
        is_number(days),
        is_number(hours),
        is_number(minutes),
        days is Some || hours is Some || minutes is Some,
    ensures
        offset_minutes(offset_text(days, hours, minutes)) == Some(
            number_or_zero(days) * 1_440 + number_or_zero(hours) * 60 + number_or_zero(minutes),
        ),
{
    let none = Seq::<char>::empty();
    let last = offset_part(minutes, 'm');
    let middle = offset_part(hours, 'h') + last;
    let s = offset_text(days, hours, minutes);
    assert(last + none =~= last);
    assert(s =~= offset_part(days, 'd') + middle);
    lemma_offset_part(minutes, 'm', none);
    assert(!has_part(last, 'h'));
    lemma_offset_part(hours, 'h', last);
    assert(!has_part(middle, 'd')) by {
        if hours is None {
            assert(middle =~= last);
            assert(!has_part(last, 'd'));
        }
    }
    lemma_offset_part(days, 'd', middle);
}

/// The digits that a text starts with are digits.
proof fn lemma_digit_count_digits(s: Seq<char>)
    ensures
        0 <= digit_count(s) <= s.len(),
        forall|i: int| 0 <= i < digit_count(s) ==> decimal::is_digit(#[trigger] s[i]),
    decreases s.len(),
{
    if s.len() > 0 && decimal::is_digit(s[0]) {
        lemma_digit_count_digits(s.skip(1));
        assert forall|i: int| 0 <= i < digit_count(s) implies decimal::is_digit(
            #[trigger] s[i],
        ) by {
            if i > 0 {
                assert(s.skip(1)[i - 1] == s[i]);
            }
        }
    }
}

/// The part that a text starts with, as it was written.
spec fn part_of(s: Seq<char>, unit: char) -> Option<Seq<char>> {
    if has_part(s, unit) {
        Some(s.take(digit_count(s)))
    } else {
        None
    }
}

/// A text is the part that it starts with and what follows it.
proof fn lemma_part_of(s: Seq<char>, unit: char)
    ensures
        is_number(part_of(s, unit)),
        s == offset_part(part_of(s, unit), unit) + after_part(s, unit),
{
    lemma_digit_count_digits(s);
    if has_part(s, unit) {
        let n = digit_count(s);
        assert(s =~= s.take(n) + seq![unit] + s.skip(n + 1));
    } else {
        assert(s =~= Seq::<char>::empty() + s);
    }
}

/// Nothing else is read as an offset.
pub proof fn only_written_offsets_are_read(s: Seq<char>)
    ensures
        offset_minutes(s) is Some ==> exists|
            days: Option<Seq<char>>,
            hours: Option<Seq<char>>,
            minutes: Option<Seq<char>>,
        |
            is_number(days) && is_number(hours) && is_number(minutes) && (days is Some || hours is Some
                || minutes is Some) && s == #[trigger] offset_text(days, hours, minutes),
{
    if offset_minutes(s) is Some {
        let after_days = after_part(s, 'd');
        let after_hours = after_part(after_days, 'h');
        let days = part_of(s, 'd');
        let hours = part_of(after_days, 'h');
        let minutes = part_of(after_hours, 'm');
        lemma_part_of(s, 'd');
        lemma_part_of(after_days, 'h');
        lemma_part_of(after_hours, 'm');
        assert(s =~= offset_text(days, hours, minutes));
    }
}

/// A text with firm ends and without capitals is taken as it is.
proof fn lemma_normal_text(s: Seq<char>)
    requires
        text::has_firm_ends(s),
        forall|i: int| 0 <= i < s.len() ==> !('A' <= #[trigger] s[i] <= 'Z'),
    ensures
        normalized_input(s) == s,
{
    text::firm_text_is_not_trimmed(s);
    assert(normalized_input(s) =~= s);
}

/// Whether a text is that of a time, with one digit or two for the hour.
pub open spec fn is_time_text(s: Seq<char>, time: ClockTime) -> bool {
    s == written_time(decimal::digits(time.hour as nat), time.minute as nat) || s == written_time(
        decimal::padded_digits(time.hour as nat, 2),
        time.minute as nat,
    )
}

/// What holds of the text of a time.
proof fn lemma_time_text(s: Seq<char>, time: ClockTime)
    requires
        time.wf(),
        is_time_text(s, time),
    ensures
        wall_clock(s) == Some(time),
        s.len() > 0,
        decimal::is_digit(s[0]),
        decimal::is_digit(s.last()),
        forall|i: int| 0 <= i < s.len() ==> decimal::is_digit(#[trigger] s[i]) || s[i] == ':',
        offset_minutes(s) is None,
{
    written_times_read_back(time);
    lemma_two_places(time.hour as nat);
    lemma_two_places(time.minute as nat);
    decimal::digits_read_back(time.hour as nat);
    reveal_strlit(":");
    assert(":"@ =~= seq![':']);
    let minute = decimal::padded_digits(time.minute as nat, 2);
    let hour = if s == written_time(decimal::digits(time.hour as nat), time.minute as nat) {
        decimal::digits(time.hour as nat)
    } else {
        decimal::padded_digits(time.hour as nat, 2)
    };
    assert(s =~= hour + seq![':'] + minute);
    assert(decimal::is_digit(hour[0]));
    assert(decimal::is_digit(minute[1]));
    assert(s.last() == minute[1]);
    assert forall|i: int| 0 <= i < s.len() implies decimal::is_digit(#[trigger] s[i]) || s[i]
        == ':' by {
        if i < hour.len() {
            assert(decimal::is_digit(hour[i]));
        } else if i > hour.len() {
            assert(decimal::is_digit(minute[i - hour.len() - 1]));
        }
    }
    assert forall|i: int| 0 <= i < hour.len() implies decimal::is_digit(#[trigger] s[i]) by {
        assert(decimal::is_digit(hour[i]));
    }
    lemma_digit_run(s, hour.len() as int);
}

/// A time of day asks for that time.
pub proof fn times_ask_for_themselves(s: Seq<char>, time: ClockTime)
    requires
        time.wf(),
        is_time_text(s, time),
    ensures
        fire_time_request(s) == FireTimeRequest::At(time),
{
    lemma_time_text(s, time);
    lemma_normal_text(s);
    reveal_strlit("tomorrow ");
    assert(!"tomorrow "@.is_prefix_of(s)) by {
        if "tomorrow "@.is_prefix_of(s) {
            assert(s.subrange(0, "tomorrow "@.len() as int)[0] == s[0]);
            assert("tomorrow "@[0] == 't');
        }
    }
}

/// A time of day after the word for tomorrow and any space asks for that time
/// tomorrow.
pub proof fn tomorrow_asks_for_the_next_day(space: Seq<char>, s: Seq<char>, time: ClockTime)
    requires
        time.wf(),
        is_time_text(s, time),
        text::all_whitespace(space),
    ensures
        fire_time_request("tomorrow "@ + space + s) == FireTimeRequest::Tomorrow(time),
{
    lemma_time_text(s, time);
    reveal_strlit("tomorrow ");
    let word = "tomorrow "@;
    let whole = word + space + s;
    assert(whole[0] == 't');
    assert(whole.last() == s.last());
    assert forall|i: int| 0 <= i < whole.len() implies !('A' <= #[trigger] whole[i] <= 'Z') by {
        if i < word.len() {
            assert(whole[i] == word[i]);
        } else if i < word.len() + space.len() {
            assert(text::is_whitespace(space[i - word.len()]));
        } else {
            let k = i - word.len() - space.len();
            assert(whole[i] == s[k]);
        }
    }
    lemma_normal_text(whole);
    assert(digit_count(whole) == 0);
    assert(whole.subrange(0, word.len() as int) =~= word);
    assert(whole.skip(word.len() as int) =~= space + s);
    text::leading_whitespace_is_trimmed(space, s);
}

/// An offset asks for that much time from now, in seconds, unless it is more than
/// can be reckoned with.
pub proof fn offsets_ask_for_their_seconds(
    days: Option<Seq<char>>,
    hours: Option<Seq<char>>,
    minutes: Option<Seq<char>>,
)
    requires
        is_number(days),
        is_number(hours),
        is_number(minutes),
        days is Some || hours is Some || minutes is Some,
    ensures
        ({
            let seconds = 60 * (number_or_zero(days) * 1_440 + number_or_zero(hours) * 60
                + number_or_zero(minutes));
            fire_time_request(offset_text(days, hours, minutes)) == (if seconds
                <= MAX_DURATION_SECS {
                FireTimeRequest::After(seconds as i64)
            } else {
                FireTimeRequest::Unrecognized
            })
        }),
{
    let s = offset_text(days, hours, minutes);
    written_offsets_read_back(days, hours, minutes);
    let a = offset_part(days, 'd');
    let b = offset_part(hours, 'h');
    let c = offset_part(minutes, 'm');
    assert forall|i: int| 0 <= i < s.len() implies decimal::is_digit(#[trigger] s[i]) || s[i] == 'd'
        || s[i] == 'h' || s[i] == 'm' by {
        if i < a.len() {
            assert(s[i] == a[i]);
            if i < a.len() - 1 {
                assert(decimal::is_digit((days->0)[i]));
            }
        } else if i < a.len() + b.len() {
            let k = i - a.len();
            assert(s[i] == b[k]);
            if k < b.len() - 1 {
                assert(decimal::is_digit((hours->0)[k]));
            }
        } else {
            let k = i - a.len() - b.len();
            assert(s[i] == c[k]);
            if k < c.len() - 1 {
                assert(decimal::is_digit((minutes->0)[k]));
            }
        }
    }
    assert(s.len() > 0);
    lemma_normal_text(s);
    reveal_strlit("tomorrow ");
    assert(!"tomorrow "@.is_prefix_of(s)) by {
        if "tomorrow "@.is_prefix_of(s) {
            assert(s.subrange(0, "tomorrow "@.len() as int)[0] == s[0]);
            assert("tomorrow "@[0] == 't');
        }
    }
    reveal_strlit(":");
    text::text_is_split_at_the_first(s, ":"@);
    assert(text::split_at_pattern(s, ":"@) is None) by {
        if let Some((before, after)) = text::split_at_pattern(s, ":"@) {
            assert(s[before.len() as int] == ":"@[0]);
        }
    }
}

/// A request that nothing was entered for, or that is not understood, comes to
/// nothing.
pub proof fn nothing_comes_of_what_is_not_understood(
    now: UtcInstant,
    today_at: Option<UtcInstant>,
    tomorrow_at: Option<UtcInstant>,
)
    ensures
        resolved_fire_time(FireTimeRequest::Empty, now, today_at, tomorrow_at) == Err::<
            UtcInstant,
            ParseError,
        >(ParseError::Empty),
        resolved_fire_time(FireTimeRequest::Unrecognized, now, today_at, tomorrow_at) == Err::<
            UtcInstant,
            ParseError,
        >(ParseError::Unrecognized),
{
}

/// An offset of ten seconds or more comes to just that much after now, as far as
/// the calendar reaches; a smaller one is too soon.
pub proof fn offsets_are_counted_from_now(
    seconds: i64,
    now: UtcInstant,
    today_at: Option<UtcInstant>,
    tomorrow_at: Option<UtcInstant>,
)
    requires
        now.wf(),
        0 <= seconds,
        now.secs + seconds <= MAX_SECS,
        now.secs + 10 <= MAX_SECS,
    ensures
        match resolved_fire_time(FireTimeRequest::After(seconds), now, today_at, tomorrow_at) {
            Ok(t) => seconds >= 10 && t.total_nanos() - now.total_nanos() == seconds
                * 1_000_000_000,
            Err(e) => seconds < 10 && e == ParseError::TooSoon,
        },
{
}

/// A time of day comes to the instant at which it is shown next: the one of
/// today if that lies ahead, and else the one of tomorrow.
pub proof fn times_come_to_their_next_instant(
    time: ClockTime,
    now: UtcInstant,
    today_at: UtcInstant,
    tomorrow_at: UtcInstant,
)
    requires
        now.wf(),
        now.secs + 10 <= MAX_SECS,
        today_at.wf(),
        tomorrow_at.wf(),
    ensures
        today_at.total_nanos() >= now.total_nanos() + 10_000_000_000 ==> resolved_fire_time(
            FireTimeRequest::At(time),
            now,
            Some(today_at),
            Some(tomorrow_at),
        ) == Ok::<UtcInstant, ParseError>(today_at),
        today_at.total_nanos() <= now.total_nanos() && tomorrow_at.total_nanos()
            >= now.total_nanos() + 10_000_000_000 ==> resolved_fire_time(
            FireTimeRequest::At(time),
            now,
            Some(today_at),
            Some(tomorrow_at),
        ) == Ok::<UtcInstant, ParseError>(tomorrow_at),
        now.total_nanos() < today_at.total_nanos() < now.total_nanos() + 10_000_000_000
            ==> resolved_fire_time(
            FireTimeRequest::At(time),
            now,
            Some(today_at),
            Some(tomorrow_at),
        ) == Err::<UtcInstant, ParseError>(ParseError::TooSoon),
        tomorrow_at.total_nanos() >= now.total_nanos() + 10_000_000_000 ==> resolved_fire_time(
            FireTimeRequest::Tomorrow(time),
            now,
            Some(today_at),
            Some(tomorrow_at),
        ) == Ok::<UtcInstant, ParseError>(tomorrow_at),
{
}

} // verus!
