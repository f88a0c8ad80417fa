//! What the user sees of scheduled messages: the menu behind the send button,
//! the picker for a custom time, and the block that lists the messages.

use crate::decimal;
use crate::schedule::clock;
use crate::schedule::clock::{
    day_after, local_to_utc, utc_to_local, whole_seconds_until, CalendarDate, ClockTime, LocalTime,
    UtcInstant, MAX_SECS,
};
use crate::schedule::labels;
use crate::schedule::labels::{format_countdown, local_time_label, schedule_preview};
use crate::schedule::message::ScheduledMessageId;
use crate::schedule::parsing;
use crate::schedule::parsing::{parse_fire_time, LocalNow, ParseError};
use crate::schedule::state;
use crate::schedule::state::ScheduledMessagesState;
use crate::text;
use agent_client_protocol::schema::v1::ContentBlock;
use vstd::prelude::*;
use vstd::string::StringExecFns;

verus! {

/// The fire times that the menu offers.
#[derive(Debug, Clone, Copy, PartialEq, Eq, Structural)]
pub enum Preset {
    InHalfAnHour,
    InOneHour,
    Tonight,
    TomorrowMorning,
}

/// The icon of the button that opens the menu.
#[derive(Debug, Clone, Copy, PartialEq, Eq, Structural)]
pub enum ChevronIcon {
    Up,
    Down,
}

/// The hour from which tonight's preset is not offered any more.
pub const TONIGHT_HOUR: u32 = 22;

/// The hour of tomorrow's preset.
pub const MORNING_HOUR: u32 = 9;

/// What is shown while the pointer rests on the button that opens the menu.
pub const SEND_LATER: &'static str = "Send Later";

/// What stands in the picker's input before anything is typed.
pub const PICKER_PLACEHOLDER: &'static str = "30m, 21:30, tomorrow 09:00…";

/// What is shown while the pointer rests on a message of the block, which
/// withdraws it when it is clicked.
pub const WITHDRAW_TOOLTIP: &'static str = "Move Back to Editor";

/// What is shown while the pointer rests on the button that deletes a message.
pub const DELETE_TOOLTIP: &'static str = "Delete Scheduled Message";

/// What is shown while the pointer rests on the button that sends a message.
pub const SEND_NOW_TOOLTIP: &'static str = "Send Now";

/// The text of a preset.
pub open spec fn preset_text(preset: Preset) -> Seq<char> {
    match preset {
        Preset::InHalfAnHour => "In 30 minutes"@,
        Preset::InOneHour => "In 1 hour"@,
        Preset::Tonight => "Tonight at 22:00"@,
        Preset::TomorrowMorning => "Tomorrow at 9:00"@,
    }
}

impl Preset {
    /// The text of the preset.
    pub fn label(self) -> (r: &'static str)
        ensures
            r@ == preset_text(self),
    {
        match self {
            Preset::InHalfAnHour => "In 30 minutes",
            Preset::InOneHour => "In 1 hour",
            Preset::Tonight => "Tonight at 22:00",
            Preset::TomorrowMorning => "Tomorrow at 9:00",
        }
    }
}

/// An item of the menu behind the send button.
#[derive(Debug, Clone, Copy, PartialEq, Eq, Structural)]
pub enum ScheduleMenuItem {
    /// The heading `Send Later`.
    Header,
    Preset { preset: Preset, disabled: bool },
    Separator,
    /// Opens the picker for a custom time.
    CustomTime { disabled: bool },
}

/// The text of an item of the menu.
pub open spec fn item_text(item: ScheduleMenuItem) -> Seq<char> {
    match item {
        ScheduleMenuItem::Header => "Send Later"@,
        ScheduleMenuItem::Preset { preset, .. } => preset_text(preset),
        ScheduleMenuItem::Separator => ""@,
        ScheduleMenuItem::CustomTime { .. } => "Custom time…"@,
    }
}

impl ScheduleMenuItem {
    /// The text of the item.
    pub fn label(self) -> (r: &'static str)
        ensures
            r@ == item_text(self),
    {
        match self {
            ScheduleMenuItem::Header => "Send Later",
            ScheduleMenuItem::Preset { preset, .. } => preset.label(),
            ScheduleMenuItem::Separator => "",
            ScheduleMenuItem::CustomTime { .. } => "Custom time…",
        }
    }
}

/// The items of the menu. Without anything to send they are disabled; tonight
/// is offered until its hour.
pub open spec fn menu_items(editor_is_empty: bool, hour: int) -> Seq<ScheduleMenuItem> {
    let disabled = editor_is_empty;
    let head = seq![
        ScheduleMenuItem::Header,
        ScheduleMenuItem::Preset { preset: Preset::InHalfAnHour, disabled },
        ScheduleMenuItem::Preset { preset: Preset::InOneHour, disabled },
    ];
    let tonight = if hour < TONIGHT_HOUR {
        seq![ScheduleMenuItem::Preset { preset: Preset::Tonight, disabled }]
    } else {
        Seq::empty()
    };
    let tail = seq![
        ScheduleMenuItem::Preset { preset: Preset::TomorrowMorning, disabled },
        ScheduleMenuItem::Separator,
        ScheduleMenuItem::CustomTime { disabled },
    ];
    head + tonight + tail
}

/// The items of the menu behind the send button, at an hour of the clock on the
/// wall.
pub fn build_schedule_menu(editor_is_empty: bool, hour: u32) -> (r: Vec<ScheduleMenuItem>)
    ensures
        r@ == menu_items(editor_is_empty, hour as int),
{
    let disabled = editor_is_empty;
    let mut items: Vec<ScheduleMenuItem> = Vec::new();
    items.push(ScheduleMenuItem::Header);
    items.push(ScheduleMenuItem::Preset { preset: Preset::InHalfAnHour, disabled });
    items.push(ScheduleMenuItem::Preset { preset: Preset::InOneHour, disabled });
    if hour < TONIGHT_HOUR {
        items.push(ScheduleMenuItem::Preset { preset: Preset::Tonight, disabled });
    }
    items.push(ScheduleMenuItem::Preset { preset: Preset::TomorrowMorning, disabled });
    items.push(ScheduleMenuItem::Separator);
    items.push(ScheduleMenuItem::CustomTime { disabled });
    assert(items@ =~= menu_items(editor_is_empty, hour as int));
    items
}

/// The icon of the button that opens the menu.
pub fn send_dropdown_icon(menu_open: bool) -> (r: ChevronIcon)
    ensures
        r == (if menu_open {
            ChevronIcon::Up
        } else {
            ChevronIcon::Down
        }),
{
    if menu_open {
        ChevronIcon::Up
    } else {
        ChevronIcon::Down
    }
}

/// The fire time of a preset, given the instant at which the clock on the wall
/// shows its time of day. A time that has passed while the menu was open is
/// none.
pub open spec fn preset_instant(preset: Preset, now: UtcInstant, at: Option<UtcInstant>) -> Option<
    UtcInstant,
> {
    let found = match preset {
        Preset::InHalfAnHour => clock::plus(now, 1_800),
        Preset::InOneHour => clock::plus(now, 3_600),
        _ => at,
    };
    match found {
        Some(t) => if t.le(now) {
            None
        } else {
            Some(t)
        },
        None => None,
    }
}

/// The fire time of a preset, given the instant at which the clock on the wall
/// shows its time of day.
pub fn resolve_preset(preset: Preset, now: UtcInstant, at: Option<UtcInstant>) -> (r: Option<
    UtcInstant,
>)
    requires
        now.wf(),
        now.secs + 3_600 <= MAX_SECS,
    ensures
        r == preset_instant(preset, now, at),
{
    let found = match preset {
        Preset::InHalfAnHour => now.plus_seconds(1_800),
        Preset::InOneHour => now.plus_seconds(3_600),
        _ => at,
    };
    match found {
        Some(t) => {
            if t.is_at_or_before(&now) {
                None
            } else {
                Some(t)
            }
        },
        None => None,
    }
}

/// The reading of the clock on the wall that a preset stands for.
pub open spec fn preset_reading(preset: Preset, today: CalendarDate) -> Option<LocalTime> {
    match preset {
        Preset::Tonight => Some(
            LocalTime { date: today, time: ClockTime { hour: TONIGHT_HOUR, minute: 0 } },
        ),
        Preset::TomorrowMorning => match clock::next_date(today) {
            Some(date) => Some(
                LocalTime { date, time: ClockTime { hour: MORNING_HOUR, minute: 0 } },
            ),
            None => None,
        },
        _ => None,
    }
}

/// The fire time of a preset when it is clicked. The time zone of the machine
/// says at which instant the clock on the wall shows a time of day; a time that
/// it skips is none.
pub fn preset_fire_at(preset: Preset, now: LocalNow) -> (r: Option<UtcInstant>)
    requires
        now.instant.wf(),
        now.today.wf(),
        now.instant.secs + 3_600 <= MAX_SECS,
    ensures
        exists|at: Option<UtcInstant>|
            (at matches Some(t) ==> (preset_reading(preset, now.today) matches Some(local)
                && clock::is_local_instant(local, t))) && r == #[trigger] preset_instant(
                preset,
                now.instant,
                at,
            ),
        r matches Some(t) ==> !t.le(now.instant),
{
    proof {
        clock::next_date_is_the_next_day(now.today);
    }
    let at = match preset {
        Preset::Tonight => local_to_utc(
            LocalTime { date: now.today, time: ClockTime { hour: TONIGHT_HOUR, minute: 0 } },
        ),
        Preset::TomorrowMorning => match day_after(now.today) {
            Some(date) => local_to_utc(
                LocalTime { date, time: ClockTime { hour: MORNING_HOUR, minute: 0 } },
            ),
            None => None,
        },
        _ => None,
    };
    let r = resolve_preset(preset, now.instant, at);
    assert(r == preset_instant(preset, now.instant, at));
    r
}

/// A preset never gives a time that is not in the future.
pub proof fn presets_lie_ahead(preset: Preset, now: UtcInstant, at: Option<UtcInstant>)
    ensures
        preset_instant(preset, now, at) matches Some(t) ==> !t.le(now),
{
}

/// What is shown below the picker's input.
#[derive(Debug, Clone, Copy, PartialEq, Eq, Structural)]
pub enum FeedbackColor {
    Muted,
    Error,
}

/// The picker for a custom time. What is typed is read on every keystroke.
#[derive(Debug)]
pub struct ScheduleTimePicker {
    pub text: String,
    pub parsed: Result<UtcInstant, ParseError>,
}

/// Whether `parsed` can be what a text comes to at an instant.
pub open spec fn can_be_parsed(
    input: Seq<char>,
    now: LocalNow,
    parsed: Result<UtcInstant, ParseError>,
) -> bool {
    exists|today_at: Option<UtcInstant>, tomorrow_at: Option<UtcInstant>|
        parsing::can_be_instant(parsing::fire_time_request(input), Some(now.today), today_at)
            && parsing::can_be_instant(
            parsing::fire_time_request(input),
            clock::next_date(now.today),
            tomorrow_at,
        ) && parsed == #[trigger] parsing::resolved_fire_time(
            parsing::fire_time_request(input),
            now.instant,
            today_at,
            tomorrow_at,
        )
}

impl ScheduleTimePicker {
    /// The picker before anything is typed.
    pub fn new() -> (r: ScheduleTimePicker)
        ensures
            r.text@.len() == 0,
            r.parsed == Err::<UtcInstant, ParseError>(ParseError::Empty),
    {
        ScheduleTimePicker { text: String::new(), parsed: Err(ParseError::Empty) }
    }

    /// Takes what is typed now.
    pub fn edit(&mut self, text: String, now: LocalNow)
        requires
            now.wf(),
        ensures
            final(self).text@ == text@,
            can_be_parsed(text@, now, final(self).parsed),
    {
        self.parsed = parse_fire_time(text.as_str(), now);
        self.text = text;
    }

    /// Confirms what is typed. It is read again, since the time that was shown
    /// may by now be too soon. Gives the fire time; without one the picker stays
    /// open.
    pub fn confirm(&mut self, now: LocalNow) -> (r: Option<UtcInstant>)
        requires
            now.wf(),
        ensures
            final(self).text@ == old(self).text@,
            can_be_parsed(old(self).text@, now, final(self).parsed),
            r == (match final(self).parsed {
                Ok(t) => Some(t),
                Err(_) => None,
            }),
            r matches Some(t) ==> parsing::earliest_fire_time(now.instant).le(t),
    {
        self.parsed = parse_fire_time(self.text.as_str(), now);
        match self.parsed {
            Ok(t) => Some(t),
            Err(e) => None,
        }
    }

    /// What is shown below the input: when the message will be sent, or what is
    /// wrong. That nothing is typed is no error.
    pub fn feedback(&self, today: CalendarDate) -> (r: (String, FeedbackColor))
        requires
            today.wf(),
            self.parsed matches Ok(t) ==> labels::is_showable(t),
        ensures
            match self.parsed {
                Ok(t) => (exists|local: LocalTime|
                    clock::is_reading(t, local) && r.0@ == #[trigger] labels::preview_text(
                        local,
                        today,
                    )) && r.1 == FeedbackColor::Muted,
                Err(e) => r.0@ == parsing::error_text(e) && r.1 == (if e == ParseError::Empty {
                    FeedbackColor::Muted
                } else {
                    FeedbackColor::Error
                }),
            },
    {
        match self.parsed {
            Ok(t) => (schedule_preview(t, today), FeedbackColor::Muted),
            Err(e) => (
                e.message().to_owned(),
                if e == ParseError::Empty {
                    FeedbackColor::Muted
                } else {
                    FeedbackColor::Error
                },
            ),
        }
    }
}

/// The title of the block that lists the messages.
pub open spec fn block_title(count: nat) -> Seq<char> {
    if count == 1 {
        "1 Scheduled Message"@
    } else {
        decimal::digits(count) + " Scheduled Messages"@
    }
}

/// The title of the block that lists the messages.
pub fn scheduled_block_title(count: usize) -> (r: String)
    ensures
        r@ == block_title(count as nat),
{
    if count == 1 {
        "1 Scheduled Message".to_owned()
    } else {
        let mut out = decimal::to_digits(count as u64);
        out.append(" Scheduled Messages");
        out
    }
}

/// A row of the block.
#[derive(Debug)]
pub struct ScheduledRow {
    pub id: ScheduledMessageId,
    /// What the message's editor shows; none without an editor.
    pub content: Option<Vec<ContentBlock>>,
    /// Whether the message is overdue and held back.
    pub is_overdue: bool,
    /// When the message is sent.
    pub label: String,
    /// Whether a line separates the row from the next.
    pub has_divider: bool,
}

/// What is said of a message that is overdue and held back.
pub open spec fn overdue_text(seconds: int) -> Seq<char> {
    "Overdue — sending in "@ + decimal::digits(
        if seconds > 0 {
            seconds as nat
        } else {
            0
        },
    ) + "s…"@
}

/// What is said of a message that will be sent at its own time.
pub open spec fn upcoming_text(local: LocalTime, today: CalendarDate, seconds: int) -> Seq<char> {
    labels::label_text(local, today) + " · "@ + labels::countdown_text(seconds)
}

/// What is said of a message, given what the clock on the wall shows at its
/// fire time. It is overdue where it is held back past its own time.
pub open spec fn row_text(
    effective: UtcInstant,
    fire_at: UtcInstant,
    now: UtcInstant,
    local: LocalTime,
    today: CalendarDate,
) -> Seq<char> {
    if effective != fire_at {
        overdue_text(clock::seconds_until(effective, now))
    } else {
        upcoming_text(local, today, clock::seconds_until(effective, now))
    }
}

/// What is said of a message, given what the clock on the wall shows at its
/// fire time.
pub fn row_label(
    effective: UtcInstant,
    fire_at: UtcInstant,
    now: UtcInstant,
    local: LocalTime,
    today: CalendarDate,
) -> (r: String)
    requires
        effective.wf(),
        now.wf(),
        local.wf(),
        today.wf(),
    ensures
        r@ == row_text(effective, fire_at, now, local, today),
{
    let seconds: i64 = whole_seconds_until(&effective, &now);
    if effective != fire_at {
        let left: u64 = if seconds > 0 {
            seconds as u64
        } else {
            0
        };
        let mut out = "Overdue — sending in ".to_owned();
        decimal::push_digits(&mut out, left);
        out.append("s…");
        out
    } else {
        let mut out = local_time_label(local, today);
        out.append(" · ");
        let countdown = format_countdown(seconds);
        out.append(countdown.as_str());
        out
    }
}

/// What a row shows of its message.
pub open spec fn row_content(row: ScheduledRow) -> Option<Seq<ContentBlock>> {
    match row.content {
        Some(content) => Some(content@),
        None => None,
    }
}

/// Whether a row can be that of the message at place `i`.
pub open spec fn is_row(
    row: ScheduledRow,
    state: state::StateView,
    i: int,
    now: UtcInstant,
    today: CalendarDate,
) -> bool {
    let m = state.set[i];
    let effective = state::effective(state.overdue_grace, m);
    &&& row.id@ == m.id
    &&& row_content(row) == (if state.editors.contains(m.id) {
        Some(m.content)
    } else {
        None
    })
    &&& row.is_overdue == (effective != m.fire_at)
    &&& row.has_divider == (i < state.set.len() - 1)
    &&& exists|local: LocalTime|
        clock::is_reading(m.fire_at, local) && row.label@ == #[trigger] row_text(
            effective,
            m.fire_at,
            now,
            local,
            today,
        )
}

/// The title and the rows of the block that lists the messages, in the order in
/// which they fire.
pub fn scheduled_messages_block(
    state: &ScheduledMessagesState,
    now: UtcInstant,
    today: CalendarDate,
) -> (r: (String, Vec<ScheduledRow>))
    requires
        now.wf(),
        today.wf(),
        state::instants_are_valid(state@),
        forall|i: int|
            0 <= i < state@.set.len() ==> labels::is_showable((#[trigger] state@.set[i]).fire_at),
    ensures
        r.0@ == block_title(state@.set.len()),
        r.1@.len() == state@.set.len(),
        forall|i: int| 0 <= i < r.1@.len() ==> is_row(#[trigger] r.1@[i], state@, i, now, today),
{
    let entries = state.set.entries();
    let n: usize = entries.len();
    let mut rows: Vec<ScheduledRow> = Vec::new();
    let mut i: usize = 0;
    assert(text::views(entries@).len() == entries@.len());
    while i < n
        invariant
            i <= n,
            n == entries@.len(),
            n == state@.set.len(),
            text::views(entries@) == state@.set,
            now.wf(),
            today.wf(),
            state::instants_are_valid(state@),
            forall|k: int|
                0 <= k < state@.set.len() ==> labels::is_showable(
                    (#[trigger] state@.set[k]).fire_at,
                ),
            rows@.len() == i,
            forall|k: int| 0 <= k < i ==> is_row(#[trigger] rows@[k], state@, k, now, today),
        decreases n - i,
    {
        let message = &entries[i];
        assert(state@.set[i as int] == message@);
        let effective = state.effective_fire_at(message);
        let local = utc_to_local(message.fire_at);
        let label = row_label(effective, message.fire_at, now, local, today);
        let content = if state.editors.contains(message.id.as_text()) {
            let blocks = message.content.clone();
            assert(blocks@ =~= message.content@);
            Some(blocks)
        } else {
            None
        };
        let row = ScheduledRow {
            id: message.id.clone(),
            content,
            is_overdue: effective != message.fire_at,
            label,
            has_divider: i < n - 1,
        };
        proof {
            assert(clock::is_reading(message.fire_at, local) && row.label@ == row_text(
                effective,
                message.fire_at,
                now,
                local,
                today,
            ));
            assert(is_row(row, state@, i as int, now, today));
        }
        rows.push(row);
        i = i + 1;
    }
    (scheduled_block_title(n), rows)
}

/// The two presets of the next hour fire exactly half an hour and an hour after
/// now.
pub proof fn short_presets_are_counted_from_now(now: UtcInstant, at: Option<UtcInstant>)
    requires
        now.wf(),
        now.secs + 3_600 <= MAX_SECS,
    ensures
        preset_instant(Preset::InHalfAnHour, now, at) matches Some(t) && t.total_nanos()
            - now.total_nanos() == 1_800_000_000_000,
        preset_instant(Preset::InOneHour, now, at) matches Some(t) && t.total_nanos()
            - now.total_nanos() == 3_600_000_000_000,
{
}

/// The other presets fire when the clock on the wall shows their time, tonight at
/// 22:00 and on the next day at 9:00, unless that has passed.
pub proof fn long_presets_have_their_times(
    preset: Preset,
    today: CalendarDate,
    now: UtcInstant,
    at: UtcInstant,
)
    requires
        today.wf(),
        preset == Preset::Tonight || preset == Preset::TomorrowMorning,
    ensures
        preset_instant(preset, now, Some(at)) == (if at.le(now) {
            None
        } else {
            Some(at)
        }),
        preset_instant(preset, now, None) is None,
        preset == Preset::Tonight ==> (preset_reading(preset, today) matches Some(local)
            && local.date == today && local.time == (ClockTime { hour: 22, minute: 0 })),
        preset == Preset::TomorrowMorning ==> (preset_reading(preset, today) matches Some(local)
            ==> local.time == (ClockTime { hour: 9, minute: 0 }) && Some(local.date)
            == clock::next_date(today)),
        preset == Preset::TomorrowMorning && clock::next_date(today) is Some ==> preset_reading(
            preset,
            today,
        ) is Some,
{
}

/// The menu offers every preset, each once, but tonight only before 22 o'clock;
/// everything that can be chosen is disabled just while there is nothing to send.
pub proof fn menu_offers_what_can_be_had(editor_is_empty: bool, hour: int, preset: Preset)
    ensures
        forall|disabled: bool|
            #[trigger] menu_items(editor_is_empty, hour).contains(
                (ScheduleMenuItem::Preset { preset, disabled }),
            ) <==> disabled == editor_is_empty && (preset == Preset::Tonight ==> hour < 22),
        forall|disabled: bool|
            #[trigger] menu_items(editor_is_empty, hour).contains(
                (ScheduleMenuItem::CustomTime { disabled }),
            ) <==> disabled == editor_is_empty,
        menu_items(editor_is_empty, hour)[0] == ScheduleMenuItem::Header,
        menu_items(editor_is_empty, hour).last() is CustomTime,
        menu_items(editor_is_empty, hour)[menu_items(editor_is_empty, hour).len() - 2]
            == ScheduleMenuItem::Separator,
        menu_items(editor_is_empty, hour).len() == (if hour < 22 {
            7nat
        } else {
            6
        }),
{
    let items = menu_items(editor_is_empty, hour);
    let d = editor_is_empty;
    assert(items[1] == (ScheduleMenuItem::Preset { preset: Preset::InHalfAnHour, disabled: d }));
    assert(items[2] == (ScheduleMenuItem::Preset { preset: Preset::InOneHour, disabled: d }));
    if hour < 22 {
        assert(items[3] == (ScheduleMenuItem::Preset { preset: Preset::Tonight, disabled: d }));
        assert(items[4] == (ScheduleMenuItem::Preset {
            preset: Preset::TomorrowMorning,
            disabled: d,
        }));
        assert(items[6] == (ScheduleMenuItem::CustomTime { disabled: d }));
    } else {
        assert(items[3] == (ScheduleMenuItem::Preset {
            preset: Preset::TomorrowMorning,
            disabled: d,
        }));
        assert(items[5] == (ScheduleMenuItem::CustomTime { disabled: d }));
    }
    assert forall|disabled: bool|
        #[trigger] items.contains((ScheduleMenuItem::Preset { preset, disabled })) implies disabled
        == editor_is_empty && (preset == Preset::Tonight ==> hour < 22) by {
        let k = choose|k: int|
            0 <= k < items.len() && items[k] == (ScheduleMenuItem::Preset { preset, disabled });
        assert(items[k] == (ScheduleMenuItem::Preset { preset, disabled }));
    }
    assert forall|disabled: bool|
        #[trigger] items.contains((ScheduleMenuItem::CustomTime { disabled })) implies disabled
        == editor_is_empty by {
        let k = choose|k: int|
            0 <= k < items.len() && items[k] == (ScheduleMenuItem::CustomTime { disabled });
        assert(items[k] == (ScheduleMenuItem::CustomTime { disabled }));
    }
}

/// The title of the block starts with the number of messages, from which it is
/// read back; one message is named in the singular.
pub proof fn title_counts_the_messages(count: nat)
    requires
        count <= usize::MAX,
    ensures
        ({
            let title = block_title(count);
            let n = text::char_index(title, ' ');
            &&& decimal::unsigned_value(title.take(n), usize::MAX as nat) == Some(count)
            &&& title.skip(n) == (if count == 1 {
                " Scheduled Message"@
            } else {
                " Scheduled Messages"@
            })
        }),
{
    let d = decimal::digits(count);
    let title = block_title(count);
    decimal::digits_read_back(count);
    decimal::unsigned_reads_back(count, usize::MAX as nat);
    reveal_strlit("1 Scheduled Message");
    reveal_strlit(" Scheduled Message");
    reveal_strlit(" Scheduled Messages");
    reveal_with_fuel(decimal::digits, 2);
    if count == 1 {
        assert(d =~= seq!['1']);
        assert(title =~= d + " Scheduled Message"@);
    }
    let n = d.len() as int;
    assert(title[n] == ' ');
    assert forall|j: int| 0 <= j < n implies #[trigger] title[j] != ' ' by {
        assert(title[j] == d[j]);
        assert(decimal::is_digit(d[j]));
    }
    text::lemma_char_index_is(title, ' ', n);
    assert(title.take(n) =~= d);
    assert(title.skip(n) =~= (if count == 1 {
        " Scheduled Message"@
    } else {
        " Scheduled Messages"@
    }));
}

/// A message that is held back past its own time says in how many whole seconds
/// it is sent, and zero once that has passed; any other says when it is sent and
/// how long that is away.
pub proof fn rows_say_when_messages_are_sent(
    effective: UtcInstant,
    fire_at: UtcInstant,
    now: UtcInstant,
    local: LocalTime,
    today: CalendarDate,
)
    ensures
        effective == fire_at ==> row_text(effective, fire_at, now, local, today)
            == labels::label_text(local, today) + " · "@ + labels::countdown_text(
            clock::seconds_until(fire_at, now),
        ),
        effective != fire_at && clock::seconds_until(effective, now) >= 0 ==> row_text(
            effective,
            fire_at,
            now,
            local,
            today,
        ) == "Overdue — sending in "@ + decimal::digits(
            clock::seconds_until(effective, now) as nat,
        ) + "s…"@,
        effective != fire_at && clock::seconds_until(effective, now) < 0 ==> row_text(
            effective,
            fire_at,
            now,
            local,
            today,
        ) == "Overdue — sending in "@ + decimal::digits(0) + "s…"@,
{
}

} // verus!
