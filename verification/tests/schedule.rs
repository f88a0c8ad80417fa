//! Scheduled messages: fire times, the set, the store, firing and what is shown.

use agent_client_protocol::schema::v1::{ContentBlock, ResourceLink, TextContent};
use chrono::{DateTime, Datelike, Local, TimeZone, Timelike, Utc};
use editor_backend::schedule::actions::{front_to_send, FireStep};
use editor_backend::schedule::clock::{
    delay_until, whole_seconds_until, CalendarDate, ClockTime, LocalTime, UtcInstant, MAX_SECS,
    MIN_SECS,
};
use editor_backend::schedule::labels::{
    compare_days, fire_time_label, format_countdown, local_time_label, local_time_preview,
    schedule_preview, RelativeDay,
};
use editor_backend::schedule::menu::{
    build_schedule_menu, preset_fire_at, resolve_preset, row_label, scheduled_block_title,
    scheduled_messages_block, send_dropdown_icon, ChevronIcon, FeedbackColor, Preset,
    ScheduleMenuItem, ScheduleTimePicker,
};
use editor_backend::schedule::message::{
    ScheduledMessage, ScheduledMessageId, ScheduledMessageSet,
};
use editor_backend::schedule::parsing::{
    parse_fire_time, parse_fire_time_request, parse_relative_offset, parse_wall_clock,
    resolve_fire_time, FireTimeRequest, LocalNow, ParseError,
};
use editor_backend::schedule::state::{
    restore_scheduled_messages, OverdueGrace, ScheduledMessagesState, OVERDUE_GRACE_SECONDS,
};
use editor_backend::schedule::store::{
    gc, session_key, ScheduledMessageStore, ScheduledMessagesFile, SessionMap,
    SCHEDULED_MESSAGES_FILE_VERSION,
};

fn instant(time: DateTime<Utc>) -> UtcInstant {
    UtcInstant { secs: time.timestamp(), nanos: time.timestamp_subsec_nanos() }
}

fn local_now(time: DateTime<Local>) -> LocalNow {
    LocalNow {
        instant: instant(time.with_timezone(&Utc)),
        today: CalendarDate { year: time.year(), month: time.month(), day: time.day() },
    }
}

/// Noon of a fixed day on the clock on the wall. The expected values go through
/// the machine's time zone as well, so that they hold in any.
fn fixed_now() -> LocalNow {
    local_now(Local.with_ymd_and_hms(2026, 8, 25, 12, 0, 0).unwrap())
}

fn local_utc(y: i32, mo: u32, d: u32, h: u32, mi: u32, s: u32) -> UtcInstant {
    instant(Local.with_ymd_and_hms(y, mo, d, h, mi, s).unwrap().with_timezone(&Utc))
}

fn chars(s: &str) -> Vec<char> {
    s.chars().collect()
}

#[test]
fn test_parse_relative_minutes() {
    assert_eq!(parse_fire_time("30m", fixed_now()), Ok(local_utc(2026, 8, 25, 12, 30, 0)));
}

#[test]
fn test_parse_relative_hours() {
    assert_eq!(parse_fire_time("2h", fixed_now()), Ok(local_utc(2026, 8, 25, 14, 0, 0)));
}

#[test]
fn test_parse_relative_days() {
    assert_eq!(parse_fire_time("1d", fixed_now()), Ok(local_utc(2026, 8, 26, 12, 0, 0)));
}

#[test]
fn test_parse_relative_combined_units() {
    assert_eq!(parse_fire_time("1h30m", fixed_now()), Ok(local_utc(2026, 8, 25, 13, 30, 0)));
    assert_eq!(parse_fire_time("1d2h3m", fixed_now()), Ok(local_utc(2026, 8, 26, 14, 3, 0)));
    // The units come in the order of days, hours and minutes only.
    assert!(parse_fire_time("30m1h", fixed_now()).is_err());
}

#[test]
fn test_parse_trims_whitespace() {
    assert_eq!(parse_fire_time("  30m  ", fixed_now()), Ok(local_utc(2026, 8, 25, 12, 30, 0)));
}

#[test]
fn test_parse_absolute_time_later_today() {
    assert_eq!(parse_fire_time("22:00", fixed_now()), Ok(local_utc(2026, 8, 25, 22, 0, 0)));
}

#[test]
fn test_parse_absolute_time_already_past_rolls_to_tomorrow() {
    assert_eq!(parse_fire_time("09:00", fixed_now()), Ok(local_utc(2026, 8, 26, 9, 0, 0)));
}

#[test]
fn test_parse_tomorrow_with_time() {
    assert_eq!(parse_fire_time("tomorrow 09:00", fixed_now()), Ok(local_utc(2026, 8, 26, 9, 0, 0)));
    assert_eq!(
        parse_fire_time("Tomorrow 21:30", fixed_now()),
        Ok(local_utc(2026, 8, 26, 21, 30, 0))
    );
}

#[test]
fn test_parse_rejects_garbage() {
    assert_eq!(parse_fire_time("banana", fixed_now()), Err(ParseError::Unrecognized));
    assert_eq!(parse_fire_time("25:99", fixed_now()), Err(ParseError::Unrecognized));
    assert_eq!(parse_fire_time("tomorrow", fixed_now()), Err(ParseError::Unrecognized));
}

#[test]
fn test_parse_rejects_empty_input() {
    assert_eq!(parse_fire_time("", fixed_now()), Err(ParseError::Empty));
    assert_eq!(parse_fire_time("   ", fixed_now()), Err(ParseError::Empty));
}

#[test]
fn test_parse_rejects_zero_relative_offset() {
    assert_eq!(parse_fire_time("0m", fixed_now()), Err(ParseError::TooSoon));
}

#[test]
fn test_parse_rejects_absolute_time_within_lead_window() {
    // A time a few seconds ahead has not passed, so it does not mean tomorrow.
    let now = local_now(Local.with_ymd_and_hms(2026, 8, 25, 11, 59, 55).unwrap());
    assert_eq!(parse_fire_time("12:00", now), Err(ParseError::TooSoon));
}

#[test]
fn relative_offsets_are_counted_in_seconds() {
    assert_eq!(parse_relative_offset(&chars("1d2h3m")), Some(86_400 + 7_200 + 180));
    assert_eq!(parse_relative_offset(&chars("90m")), Some(5_400));
    assert_eq!(parse_relative_offset(&chars("0m")), Some(0));
    assert_eq!(parse_relative_offset(&chars("")), None);
    assert_eq!(parse_relative_offset(&chars("m")), None);
    assert_eq!(parse_relative_offset(&chars("5")), None);
    assert_eq!(parse_relative_offset(&chars("1m1m")), None);
    assert_eq!(parse_relative_offset(&chars("99999999999999999999m")), None);
}

#[test]
fn wall_clock_times_are_read_exactly() {
    assert_eq!(parse_wall_clock(&chars("09:05")), Some(ClockTime { hour: 9, minute: 5 }));
    assert_eq!(parse_wall_clock(&chars("23:59")), Some(ClockTime { hour: 23, minute: 59 }));
    assert_eq!(parse_wall_clock(&chars("24:00")), None);
    assert_eq!(parse_wall_clock(&chars("12:60")), None);
    assert_eq!(parse_wall_clock(&chars("12")), None);
    assert_eq!(parse_wall_clock(&chars("ab:cd")), None);
}

#[test]
fn requests_tell_the_forms_apart() {
    assert_eq!(parse_fire_time_request(" 2h "), FireTimeRequest::After(7_200));
    assert_eq!(
        parse_fire_time_request("21:30"),
        FireTimeRequest::At(ClockTime { hour: 21, minute: 30 })
    );
    assert_eq!(
        parse_fire_time_request("TOMORROW 07:15"),
        FireTimeRequest::Tomorrow(ClockTime { hour: 7, minute: 15 })
    );
    assert_eq!(parse_fire_time_request(" "), FireTimeRequest::Empty);
    assert_eq!(parse_fire_time_request("soon"), FireTimeRequest::Unrecognized);
}

#[test]
fn requests_resolve_against_the_clock() {
    let now = utc(12, 0);
    let earlier = utc(9, 0);
    let tomorrow = UtcInstant { secs: earlier.secs + 86_400, nanos: 0 };
    let nine = ClockTime { hour: 9, minute: 0 };
    assert_eq!(
        resolve_fire_time(FireTimeRequest::At(nine), now, Some(earlier), Some(tomorrow)),
        Ok(tomorrow)
    );
    assert_eq!(
        resolve_fire_time(FireTimeRequest::At(nine), now, Some(utc(13, 0)), Some(tomorrow)),
        Ok(utc(13, 0))
    );
    // A time of day that the clock on the wall skips can not be met.
    assert_eq!(
        resolve_fire_time(FireTimeRequest::Tomorrow(nine), now, Some(earlier), None),
        Err(ParseError::Unrecognized)
    );
    // Exactly the least lead is enough.
    assert_eq!(
        resolve_fire_time(FireTimeRequest::After(10), now, None, None),
        Ok(UtcInstant { secs: now.secs + 10, nanos: 0 })
    );
    assert_eq!(
        resolve_fire_time(FireTimeRequest::After(9), now, None, None),
        Err(ParseError::TooSoon)
    );
}

#[test]
fn errors_have_their_texts() {
    assert_ne!(ParseError::Empty.message(), ParseError::Unrecognized.message());
    assert_ne!(ParseError::Unrecognized.message(), ParseError::TooSoon.message());
}

fn message_at(fire_at: UtcInstant, created_at: UtcInstant) -> ScheduledMessage {
    ScheduledMessage {
        id: ScheduledMessageId::new(),
        content: vec![ContentBlock::Text(TextContent::new("hello"))],
        fire_at,
        created_at,
    }
}

fn utc(h: u32, mi: u32) -> UtcInstant {
    instant(Utc.with_ymd_and_hms(2026, 8, 25, h, mi, 0).unwrap())
}

fn days(t: UtcInstant, n: i64) -> UtcInstant {
    UtcInstant { secs: t.secs + n * 86_400, nanos: t.nanos }
}

#[test]
fn test_set_orders_entries_by_fire_time_after_unordered_adds() {
    let mut set = ScheduledMessageSet::default();
    assert!(set.is_empty());
    set.add(message_at(utc(15, 0), utc(10, 0)));
    set.add(message_at(utc(13, 0), utc(10, 1)));
    set.add(message_at(utc(14, 0), utc(10, 2)));
    assert_eq!(set.len(), 3);
    let fire_times: Vec<_> = set.iter().map(|message| message.fire_at).collect();
    assert_eq!(fire_times, vec![utc(13, 0), utc(14, 0), utc(15, 0)]);
}

#[test]
fn test_set_breaks_fire_time_ties_by_created_at() {
    let mut set = ScheduledMessageSet::default();
    let later_created = message_at(utc(13, 0), utc(11, 0));
    let earlier_created = message_at(utc(13, 0), utc(10, 0));
    set.add(later_created.clone());
    set.add(earlier_created.clone());
    let ids: Vec<_> = set.iter().map(|message| message.id.clone()).collect();
    assert_eq!(ids, vec![earlier_created.id, later_created.id]);
}

#[test]
fn test_set_remove_and_get() {
    let mut set = ScheduledMessageSet::default();
    let message = message_at(utc(13, 0), utc(10, 0));
    let id = message.id.clone();
    set.add(message.clone());
    assert_eq!(set.get(&id), Some(&message));

    let removed = set.remove(&id);
    assert_eq!(removed, Some(message));
    assert_eq!(set.get(&id), None);
    assert!(set.is_empty());
    assert_eq!(set.remove(&id), None);
}

#[test]
fn test_set_due_entries_boundary_and_order() {
    let mut set = ScheduledMessageSet::default();
    let due_exactly_now = message_at(utc(12, 0), utc(10, 0));
    let overdue = message_at(utc(11, 0), utc(10, 0));
    let future = message_at(utc(13, 0), utc(10, 0));
    set.add(due_exactly_now.clone());
    set.add(overdue.clone());
    set.add(future);

    let due = set.due_entries(utc(12, 0));
    assert_eq!(due, vec![overdue.id, due_exactly_now.id]);
    assert!(set.due_entries(utc(10, 0)).is_empty());
}

#[test]
fn test_set_next_fire_at() {
    let mut set = ScheduledMessageSet::default();
    assert_eq!(set.next_fire_at(), None);
    set.add(message_at(utc(15, 0), utc(10, 0)));
    set.add(message_at(utc(13, 0), utc(10, 0)));
    assert_eq!(set.next_fire_at(), Some(utc(13, 0)));
}

fn file_with_session(key: &str, messages: Vec<ScheduledMessage>) -> ScheduledMessagesFile {
    let mut sessions = SessionMap::default();
    sessions.insert(key.to_string(), messages);
    ScheduledMessagesFile { version: SCHEDULED_MESSAGES_FILE_VERSION, sessions }
}

#[test]
fn test_gc_drops_messages_whose_fire_time_expired_over_thirty_days_ago() {
    let now = utc(12, 0);
    let expired = message_at(days(now, -31), days(now, -40));
    let file = file_with_session("zed|stale-session", vec![expired]);

    let collected = gc(file, now);
    assert!(collected.sessions.is_empty());
    assert_eq!(collected.version, SCHEDULED_MESSAGES_FILE_VERSION);
}

#[test]
fn test_gc_keeps_overdue_messages_within_thirty_days() {
    let now = utc(12, 0);
    let overdue = message_at(days(now, -29), days(now, -40));
    let file = file_with_session("zed|session", vec![overdue.clone()]);

    let collected = gc(file, now);
    assert_eq!(collected.sessions.get("zed|session"), Some(&vec![overdue]));
}

#[test]
fn test_gc_keeps_future_messages_regardless_of_creation_age() {
    let now = utc(12, 0);
    let future = message_at(days(now, 2), days(now, -300));
    let file = file_with_session("zed|session", vec![future.clone()]);

    let collected = gc(file, now);
    assert_eq!(collected.sessions.get("zed|session"), Some(&vec![future]));
}

#[test]
fn gc_keeps_a_message_that_is_exactly_thirty_days_overdue() {
    let now = utc(12, 0);
    let edge = message_at(days(now, -30), days(now, -30));
    let past = message_at(UtcInstant { secs: days(now, -30).secs - 1, nanos: 0 }, days(now, -30));
    let collected = gc(file_with_session("k", vec![past, edge.clone()]), now);
    assert_eq!(collected.sessions.get("k"), Some(&vec![edge]));
}

#[test]
fn test_removing_last_grace_window_entry_clears_overdue_grace() {
    let cutoff = utc(12, 0);
    let deadline = UtcInstant { secs: cutoff.secs + OVERDUE_GRACE_SECONDS, nanos: 0 };
    let mut state = ScheduledMessagesState::default();
    state.overdue_grace = Some(OverdueGrace { cutoff, deadline });
    let held = message_at(utc(11, 0), utc(10, 0));
    let future = message_at(utc(14, 0), utc(10, 0));
    state.set.add(held.clone());
    state.set.add(future.clone());

    state.remove_entry(&future.id);
    assert_eq!(state.overdue_grace, Some(OverdueGrace { cutoff, deadline }));

    state.remove_entry(&held.id);
    assert_eq!(state.overdue_grace, None);
}

#[test]
fn test_gc_prunes_sessions_left_empty() {
    let now = utc(12, 0);
    let expired = message_at(days(now, -31), days(now, -31));
    let kept = message_at(days(now, 1), now);
    let mut sessions = SessionMap::default();
    sessions.insert("zed|dead-session".to_string(), vec![expired]);
    sessions.insert("zed|live-session".to_string(), vec![kept.clone()]);
    let file = ScheduledMessagesFile { version: SCHEDULED_MESSAGES_FILE_VERSION, sessions };

    let collected = gc(file, now);
    assert_eq!(collected.sessions.len(), 1);
    assert_eq!(collected.sessions.get("zed|live-session"), Some(&vec![kept]));
}

fn text_message(text: &str, fire_at: UtcInstant) -> ScheduledMessage {
    ScheduledMessage {
        id: ScheduledMessageId::new(),
        content: vec![ContentBlock::Text(TextContent::new(text))],
        fire_at,
        created_at: utc(1, 0),
    }
}

fn text_of(content: &[ContentBlock]) -> Vec<String> {
    content
        .iter()
        .map(|block| match block {
            ContentBlock::Text(text) => text.text.clone(),
            _ => panic!("no text"),
        })
        .collect()
}

fn empty_store() -> ScheduledMessageStore {
    ScheduledMessageStore::load(None, utc(12, 0)).0
}

/// What a store holds, as it is written and read again.
fn reloaded(store: &ScheduledMessageStore, now: UtcInstant) -> ScheduledMessageStore {
    let mut sessions = SessionMap::default();
    for (key, messages) in store.file().sessions.entries() {
        sessions.insert(key.clone(), messages.clone());
    }
    let file = ScheduledMessagesFile { version: store.file().version, sessions };
    ScheduledMessageStore::load(Some(file), now).0
}

#[test]
fn test_store_round_trip_isolates_sessions() {
    let mut store = empty_store();
    let now = utc(12, 0);
    let message_a = message_at(utc(14, 0), now);
    let message_b = message_at(utc(15, 0), now);
    store.add("zed|session-a".to_string(), message_a.clone());
    store.add("other|session-b".to_string(), message_b.clone());
    assert_eq!(store.messages_for("zed|session-a"), vec![message_a.clone()]);
    assert!(store.messages_for("zed|session-b").is_empty());

    let store = reloaded(&store, now);
    assert_eq!(store.messages_for("zed|session-a"), vec![message_a]);
    assert_eq!(store.messages_for("other|session-b"), vec![message_b]);
}

#[test]
fn test_store_load_drops_expired_entries() {
    let now = utc(12, 0);
    let expired = message_at(days(now, -31), days(now, -40));
    let valid = message_at(days(now, 1), now);
    let mut sessions = SessionMap::default();
    sessions.insert("zed|stale".to_string(), vec![expired]);
    sessions.insert("zed|live".to_string(), vec![valid.clone()]);
    let file = ScheduledMessagesFile { version: SCHEDULED_MESSAGES_FILE_VERSION, sessions };
    let (store, write_back) = ScheduledMessageStore::load(Some(file), now);
    assert_eq!(store.messages_for("zed|live"), vec![valid]);
    assert!(store.messages_for("zed|stale").is_empty());
    assert!(write_back);
}

#[test]
fn collecting_earlier_makes_no_difference() {
    let now = utc(12, 0);
    let file = || {
        let mut sessions = SessionMap::default();
        sessions.insert(
            "zed|a".to_string(),
            vec![
                message_at(days(now, -31), now),
                message_at(days(now, -29), now),
                message_at(days(now, 1), now),
            ],
        );
        sessions.insert("zed|b".to_string(), vec![message_at(days(now, -29), now)]);
        ScheduledMessagesFile { version: SCHEDULED_MESSAGES_FILE_VERSION, sessions }
    };
    let twice = gc(gc(file(), now), days(now, 2));
    let once = gc(file(), days(now, 2));
    assert_eq!(twice.sessions.len(), 1);
    assert_eq!(once.sessions.len(), 1);
    let times = |file: &ScheduledMessagesFile| -> Vec<UtcInstant> {
        file.sessions.get("zed|a").unwrap().iter().map(|m| m.fire_at).collect()
    };
    assert_eq!(times(&twice), vec![days(now, 1)]);
    assert_eq!(times(&once), vec![days(now, 1)]);
}

#[test]
fn test_store_loads_empty_on_unsupported_version() {
    let now = utc(12, 0);
    let mut file = file_with_session("zed|session", vec![message_at(days(now, 1), now)]);
    file.version = SCHEDULED_MESSAGES_FILE_VERSION + 1;
    let (store, write_back) = ScheduledMessageStore::load(Some(file), now);
    assert!(store.file().sessions.is_empty());
    assert!(!write_back);
    assert_eq!(store.file().version, SCHEDULED_MESSAGES_FILE_VERSION);
}

#[test]
fn test_store_loads_empty_on_corrupted_value() {
    let (store, write_back) = ScheduledMessageStore::load(None, utc(12, 0));
    assert!(store.file().sessions.is_empty());
    assert!(!write_back);
}

#[test]
fn test_store_load_leaves_corrupted_value_untouched_on_disk() {
    // What can not be read is not written over.
    assert!(!ScheduledMessageStore::load(None, utc(12, 0)).1);
}

#[test]
fn test_store_remove_drops_empty_session() {
    let mut store = empty_store();
    let now = utc(12, 0);
    let message = message_at(utc(13, 0), now);
    let id = message.id.clone();
    store.add("zed|session".to_string(), message.clone());
    assert_eq!(store.remove("zed|session", &id), Some(message));
    assert!(!store.file().sessions.contains_key("zed|session"));
    assert_eq!(store.remove("zed|session", &id), None);
    assert!(reloaded(&store, now).file().sessions.is_empty());
}

#[test]
fn removing_leaves_the_rest_of_the_session() {
    let mut store = empty_store();
    let a = text_message("a", utc(13, 0));
    let b = text_message("b", utc(14, 0));
    store.add("zed|one".to_string(), a.clone());
    store.add("zed|one".to_string(), b.clone());
    assert_eq!(store.remove("zed|one", &a.id), Some(a.clone()));
    assert_eq!(store.remove("zed|one", &a.id), None);
    assert_eq!(store.messages_for("zed|one"), vec![b.clone()]);
    assert_eq!(store.remove("zed|two", &b.id), None);
    assert_eq!(store.remove("zed|one", &b.id), Some(b));
    assert!(store.file().sessions.is_empty());
}

#[test]
fn session_keys_join_agent_and_session() {
    assert_eq!(session_key("zed", "session-123"), "zed|session-123");
}

#[test]
fn identities_are_fresh_uuids() {
    let a = ScheduledMessageId::new();
    let b = ScheduledMessageId::default();
    assert_ne!(a, b);
    assert!(!a.same(&b) && a.same(&a.clone()));
    let text = a.as_text();
    assert_eq!(text.len(), 36);
    assert_eq!(text.chars().nth(14), Some('4'));
    assert!(text
        .chars()
        .enumerate()
        .all(|(i, c)| if [8, 13, 18, 23].contains(&i) { c == '-' } else { c.is_ascii_hexdigit() }));
    assert_eq!(ScheduledMessageId::from_text("x".to_string()).as_text(), "x");
}

fn seconds(t: UtcInstant, n: i64) -> UtcInstant {
    UtcInstant { secs: t.secs + n, nanos: t.nanos }
}

/// A thread and its store, with a queue and a main editor around them.
struct Thread {
    state: ScheduledMessagesState,
    store: ScheduledMessageStore,
    idle: bool,
    queue: Vec<(u64, Vec<String>)>,
    next_entry: u64,
    sent: Vec<Vec<String>>,
    editor: String,
    /// How many messages the store had when each write was waited for.
    writes: Vec<usize>,
}

impl Thread {
    fn new() -> Thread {
        let mut state = ScheduledMessagesState::default();
        state.session_key = session_key("Test", "0");
        Thread {
            state,
            store: empty_store(),
            idle: true,
            queue: Vec::new(),
            next_entry: 0,
            sent: Vec::new(),
            editor: String::new(),
            writes: Vec::new(),
        }
    }

    /// Stores a message and adds it to the set, with nothing around it.
    fn seed(&mut self, message: &ScheduledMessage) {
        self.store.add(self.state.session_key.clone(), message.clone());
        self.state.set.add(message.clone());
    }

    /// Stores a message and adds it with its display editor and the timer.
    fn seed_with_runtime_state(&mut self, message: &ScheduledMessage) {
        self.seed(message);
        self.state.editors.insert(message.id.as_text().to_string());
        self.state.arm_scheduled_message_timer();
    }

    fn has_editor(&self, id: &ScheduledMessageId) -> bool {
        self.state.editors.contains(id.as_text())
    }

    fn stored(&self) -> Vec<ScheduledMessage> {
        self.store.messages_for(&self.state.session_key)
    }

    fn enqueue(&mut self, text: Vec<String>) {
        self.queue.push((self.next_entry, text));
        self.next_entry += 1;
    }

    fn send(&mut self, text: Vec<String>) {
        assert!(self.idle);
        self.sent.push(text);
        self.idle = false;
    }

    fn perform(&mut self, steps: Vec<FireStep>) {
        for step in steps {
            match step {
                FireStep::AwaitWrite => self.writes.push(self.stored().len()),
                FireStep::Enqueue(content) => self.enqueue(text_of(&content)),
                FireStep::DispatchFront => {
                    let front = self.queue.first().map(|entry| entry.0);
                    if let Some(entry) = front_to_send(self.idle, front) {
                        let place = self.queue.iter().position(|e| e.0 == entry).unwrap();
                        let text = self.queue.remove(place).1;
                        self.send(text);
                    }
                }
            }
        }
    }

    fn fire_due(&mut self, now: UtcInstant) {
        let steps = self.state.fire_due_scheduled_messages(&mut self.store, now);
        self.perform(steps);
    }

    fn withdraw(&mut self, id: &ScheduledMessageId) {
        let empty = self.editor.is_empty();
        if let Some(w) = self.state.withdraw_scheduled_message(&mut self.store, id, empty) {
            if w.replaces {
                self.editor.clear();
            }
            self.editor.push_str(w.separator);
            self.editor.push_str(&text_of(&w.content).concat());
        }
    }

    fn queue_texts(&self) -> Vec<String> {
        self.queue.iter().map(|entry| entry.1.concat()).collect()
    }

    fn sent_texts(&self) -> Vec<String> {
        self.sent.iter().map(|text| text.concat()).collect()
    }
}

fn texts(list: &[&str]) -> Vec<String> {
    list.iter().map(|text| text.to_string()).collect()
}

#[test]
fn test_fire_while_generating_appends_to_queue_tail_without_cancelling() {
    let mut thread = Thread::new();
    thread.send(texts(&["first"]));
    thread.enqueue(texts(&["queued earlier"]));
    let now = utc(12, 0);
    thread.seed(&text_message("scheduled follow-up", seconds(now, -1)));
    thread.fire_due(now);
    assert!(!thread.idle);
    assert_eq!(thread.queue_texts(), texts(&["queued earlier", "scheduled follow-up"]));
    assert!(thread.state.set.is_empty());
    assert_eq!(thread.sent_texts(), texts(&["first"]));
}

#[test]
fn test_fire_while_idle_with_empty_queue_starts_new_turn() {
    let mut thread = Thread::new();
    let now = utc(12, 0);
    thread.seed(&text_message("scheduled kick-off", seconds(now, -1)));
    thread.fire_due(now);
    assert!(!thread.idle);
    assert_eq!(thread.sent_texts(), texts(&["scheduled kick-off"]));
    assert!(thread.queue.is_empty());
    assert!(thread.state.set.is_empty());
}

#[test]
fn test_fire_while_idle_with_paused_queue_dispatches_queue_front_first() {
    let mut thread = Thread::new();
    thread.send(texts(&["first"]));
    thread.enqueue(texts(&["stale queued"]));
    thread.idle = true;
    assert_eq!(thread.queue_texts(), texts(&["stale queued"]));
    let now = utc(12, 0);
    thread.seed(&text_message("scheduled behind", seconds(now, -1)));
    thread.fire_due(now);
    assert_eq!(thread.sent_texts(), texts(&["first", "stale queued"]));
    assert_eq!(thread.queue_texts(), texts(&["scheduled behind"]));
    assert!(!thread.idle);
}

#[test]
fn the_front_is_sent_only_while_idle() {
    assert_eq!(front_to_send(false, Some(7)), None);
    assert_eq!(front_to_send(true, Some(7)), Some(7));
    assert_eq!(front_to_send(true, None), None);
}

#[test]
fn test_fire_deletes_store_record_before_enqueueing() {
    let mut thread = Thread::new();
    let now = utc(12, 0);
    let message = text_message("persist first", seconds(now, -1));
    thread.seed(&message);
    let steps = thread.state.fire_due_scheduled_messages(&mut thread.store, now);
    assert!(thread.stored().is_empty());
    assert!(thread.queue.is_empty());
    assert!(thread.state.set.get(&message.id).is_none());
    assert!(matches!(steps[0], FireStep::AwaitWrite));
    thread.perform(steps);
    assert_eq!(thread.writes, vec![0]);
    assert_eq!(thread.sent_texts(), texts(&["persist first"]));
    assert!(reloaded(&thread.store, now).messages_for("Test|0").is_empty());
}

#[test]
fn due_messages_fire_in_order_and_once() {
    let mut thread = Thread::new();
    let first = text_message("first", utc(11, 0));
    let second = text_message("second", utc(11, 30));
    let later = text_message("later", utc(13, 0));
    for message in [&second, &later, &first] {
        thread.seed_with_runtime_state(message);
    }
    assert_eq!(thread.state.timer, Some(utc(11, 0)));
    let steps = thread.state.fire_due_scheduled_messages(&mut thread.store, utc(12, 0));
    assert_eq!(steps.len(), 5);
    assert!(matches!(steps[0], FireStep::AwaitWrite));
    assert!(matches!(&steps[1], FireStep::Enqueue(c) if text_of(c) == vec!["first"]));
    assert!(matches!(steps[2], FireStep::AwaitWrite));
    assert!(matches!(&steps[3], FireStep::Enqueue(c) if text_of(c) == vec!["second"]));
    assert!(matches!(steps[4], FireStep::DispatchFront));
    assert_eq!(thread.stored(), vec![later.clone()]);
    assert_eq!(thread.state.set.len(), 1);
    assert_eq!(thread.state.set.entries()[0], later);
    assert!(thread.has_editor(&later.id) && !thread.has_editor(&first.id));
    assert_eq!(thread.state.timer, Some(utc(13, 0)));
    assert!(thread.state.countdown_ticker);
    assert!(thread
        .state
        .fire_due_scheduled_messages(&mut thread.store, utc(12, 0))
        .is_empty());
    assert_eq!(thread.state.timer, Some(utc(13, 0)));
}

#[test]
fn firing_arms_the_timer_even_if_nothing_is_due() {
    let mut thread = Thread::new();
    thread.seed(&text_message("later", utc(13, 0)));
    assert_eq!(thread.state.timer, None);
    thread.fire_due(utc(12, 0));
    assert_eq!(thread.state.timer, Some(utc(13, 0)));
    assert!(thread.state.countdown_ticker);
    assert!(thread.sent.is_empty());
}

#[test]
fn firing_a_message_that_is_not_stored_waits_for_nothing() {
    let mut thread = Thread::new();
    thread.state.set.add(text_message("a", utc(11, 0)));
    let steps = thread.state.fire_due_scheduled_messages(&mut thread.store, utc(12, 0));
    assert_eq!(steps.len(), 2);
    assert!(matches!(steps[0], FireStep::Enqueue(_)));
    assert!(matches!(steps[1], FireStep::DispatchFront));
}

#[test]
fn test_restore_populates_state_for_future_entry() {
    let now = utc(12, 0);
    let future = text_message("later", utc(14, 0));
    let mut store = empty_store();
    store.add("Test|0".to_string(), future.clone());
    store.add("Test|1".to_string(), text_message("other", utc(14, 0)));
    let state = restore_scheduled_messages("Test", "0", &store, now);
    assert_eq!(state.session_key, "Test|0");
    assert_eq!(state.set.len(), 1);
    assert_eq!(state.set.next_fire_at(), Some(future.fire_at));
    assert!(state.editors.contains(future.id.as_text()));
    assert_eq!(state.editors.len(), 1);
    assert_eq!(state.overdue_grace, None);
    assert_eq!(state.timer, Some(utc(14, 0)));
    assert!(state.countdown_ticker);
    let delay = state.timer_delay(now).unwrap();
    assert_eq!((delay.secs, delay.nanos), (7_200, 0));
    let empty = restore_scheduled_messages("Test", "2", &store, now);
    assert!(empty.set.is_empty() && empty.editors.is_empty());
    assert!(empty.timer.is_none() && !empty.countdown_ticker);
    assert!(empty.timer_delay(now).is_none());
}

#[test]
fn test_restore_holds_overdue_entry_in_grace_window() {
    let now = utc(12, 0);
    let overdue = text_message("overdue", utc(11, 0));
    let mut store = empty_store();
    store.add("Test|0".to_string(), overdue.clone());
    let state = restore_scheduled_messages("Test", "0", &store, now);
    assert_eq!(state.set.len(), 1);
    assert_eq!(store.messages_for("Test|0").len(), 1);
    let grace = state.overdue_grace.expect("an overdue entry enters the grace window");
    assert_eq!(grace.cutoff, now);
    assert_eq!(grace.deadline, seconds(grace.cutoff, OVERDUE_GRACE_SECONDS));
    assert_eq!(state.effective_fire_at(&overdue), grace.deadline);
    assert!(state.due_now(grace.cutoff).is_empty());
    assert_eq!(state.due_now(grace.deadline), vec![overdue.id.clone()]);
    assert_eq!(state.next_wake(), Some(grace.deadline));
    assert_eq!(state.timer, Some(grace.deadline));
    assert!(state.editors.contains(overdue.id.as_text()));
    let future = text_message("later", utc(13, 0));
    store.add("Test|0".to_string(), future.clone());
    let state = restore_scheduled_messages("Test", "0", &store, now);
    assert_eq!(state.effective_fire_at(&future), utc(13, 0));
}

#[test]
fn test_withdraw_moves_content_to_empty_main_editor_and_cancels_schedule() {
    let mut thread = Thread::new();
    let message = text_message("come back to me", utc(13, 0));
    thread.seed_with_runtime_state(&message);
    assert_eq!(thread.state.timer, Some(utc(13, 0)));
    thread.withdraw(&message.id);
    assert_eq!(thread.editor, "come back to me");
    assert!(thread.state.set.is_empty());
    assert!(thread.state.editors.is_empty());
    assert!(thread.state.timer.is_none());
    assert!(!thread.state.countdown_ticker);
    assert!(thread.queue.is_empty());
    assert!(thread.sent.is_empty());
    assert!(thread.stored().is_empty());
    let again = thread.state.withdraw_scheduled_message(&mut thread.store, &message.id, true);
    assert!(again.is_none());
}

#[test]
fn test_withdraw_appends_after_existing_main_editor_text() {
    let mut thread = Thread::new();
    thread.editor = "draft in progress".to_string();
    let message = text_message("withdrawn text", utc(13, 0));
    thread.seed_with_runtime_state(&message);
    thread.withdraw(&message.id);
    assert_eq!(thread.editor, "draft in progress\n\nwithdrawn text");
    assert!(thread.state.set.is_empty());
}

#[test]
fn test_send_now_fires_only_the_requested_entry() {
    let mut thread = Thread::new();
    let keep = text_message("stays scheduled", utc(14, 0));
    let send = text_message("goes out now", utc(13, 0));
    thread.seed_with_runtime_state(&keep);
    thread.seed_with_runtime_state(&send);
    let steps = thread.state.send_scheduled_message_now(&mut thread.store, &send.id);
    assert_eq!(thread.stored(), vec![keep.clone()]);
    assert!(thread.queue.is_empty());
    assert!(thread.state.set.get(&send.id).is_none());
    assert!(thread.state.set.get(&keep.id).is_some());
    thread.perform(steps);
    assert_eq!(thread.writes, vec![1]);
    assert_eq!(thread.sent_texts(), texts(&["goes out now"]));
    assert_eq!(thread.state.set.len(), 1);
    assert!(thread.has_editor(&keep.id));
    assert!(!thread.has_editor(&send.id));
    assert_eq!(thread.state.timer, Some(utc(14, 0)));
}

#[test]
fn test_delete_removes_entry_without_editor_interaction_or_sending() {
    let mut thread = Thread::new();
    thread.editor = "draft stays".to_string();
    let message = text_message("discarded", utc(13, 0));
    thread.seed_with_runtime_state(&message);
    let removed = thread.state.delete_scheduled_message(&mut thread.store, &message.id);
    assert_eq!(removed, Some(message.clone()));
    assert_eq!(thread.editor, "draft stays");
    assert!(thread.state.set.is_empty());
    assert!(thread.state.editors.is_empty());
    assert!(thread.state.timer.is_none());
    assert!(thread.queue.is_empty());
    assert!(thread.sent.is_empty());
    assert!(reloaded(&thread.store, utc(12, 0)).messages_for("Test|0").is_empty());
    let again = thread.state.delete_scheduled_message(&mut thread.store, &message.id);
    assert_eq!(again, None);
}

#[test]
fn removing_what_is_not_there_takes_its_editor() {
    let mut thread = Thread::new();
    let kept = text_message("kept", utc(13, 0));
    thread.seed_with_runtime_state(&kept);
    let stray = ScheduledMessageId::new();
    thread.state.editors.insert(stray.as_text().to_string());
    assert_eq!(thread.state.remove_entry(&stray), None);
    assert!(!thread.has_editor(&stray) && thread.has_editor(&kept.id));
    assert_eq!(thread.state.set.len(), 1);
    assert_eq!(thread.state.timer, Some(utc(13, 0)));
}

#[test]
fn test_schedule_current_message_moves_editor_content_to_scheduled() {
    let mut thread = Thread::new();
    let fire_at = utc(13, 0);
    let content = vec![ContentBlock::Text(TextContent::new("send this later"))];
    let scheduled = thread.state.schedule_current_message(
        &mut thread.store,
        false,
        content,
        fire_at,
        utc(12, 0),
    );
    assert!(scheduled);
    assert_eq!(thread.state.set.len(), 1);
    let entry = thread.state.set.iter().next().unwrap().clone();
    assert_eq!(entry.fire_at, fire_at);
    assert_eq!(entry.created_at, utc(12, 0));
    assert_eq!(text_of(&entry.content), vec!["send this later"]);
    assert!(thread.has_editor(&entry.id));
    assert_eq!(thread.state.timer, Some(fire_at));
    assert!(thread.state.countdown_ticker);
    assert!(thread.queue.is_empty());
    assert!(thread.sent.is_empty());
    assert_eq!(thread.stored(), vec![entry.clone()]);
    // Deleting it leaves everything as it was.
    thread.state.delete_scheduled_message(&mut thread.store, &entry.id);
    assert!(thread.state.set.is_empty() && thread.store.file().sessions.is_empty());
    assert!(thread.state.editors.is_empty() && thread.state.timer.is_none());
    assert!(!thread.state.countdown_ticker);
}

#[test]
fn scheduled_content_keeps_its_links() {
    let mut thread = Thread::new();
    let content = vec![
        ContentBlock::Text(TextContent::new("check the deploy status")),
        ContentBlock::ResourceLink(ResourceLink::new("main.rs", "file:///project/src/main.rs")),
    ];
    let id = ScheduledMessageId::from_text("x".to_string());
    assert!(thread.state.schedule_with_id(
        &mut thread.store,
        id.clone(),
        content.clone(),
        utc(13, 0),
        utc(12, 0)
    ));
    assert_eq!(thread.state.set.get(&id).unwrap().content, content);
    assert_eq!(thread.stored()[0].content, content);
}

#[test]
fn test_schedule_current_message_with_empty_editor_does_nothing() {
    let mut thread = Thread::new();
    let content = vec![ContentBlock::Text(TextContent::new("x"))];
    let (state, store) = (&mut thread.state, &mut thread.store);
    assert!(!state.schedule_current_message(store, true, content, utc(13, 0), utc(12, 0)));
    assert!(!state.schedule_current_message(store, false, vec![], utc(13, 0), utc(12, 0)));
    assert!(state.set.is_empty());
    assert!(state.editors.is_empty());
    assert!(state.timer.is_none());
    assert!(thread.stored().is_empty());
}

#[test]
fn calendar_ends_where_the_time_crate_says() {
    assert_eq!(DateTime::<Utc>::MIN_UTC.timestamp(), MIN_SECS);
    assert_eq!(DateTime::<Utc>::MAX_UTC.timestamp(), MAX_SECS);
    let last = UtcInstant { secs: MAX_SECS, nanos: 0 };
    assert_eq!(last.plus_seconds(1), None);
    assert_eq!(last.plus_seconds(0), Some(last));
    let first = UtcInstant { secs: MIN_SECS, nanos: 5 };
    assert_eq!(first.plus_seconds(-1), None);
    assert_eq!(first.plus_seconds(2), Some(UtcInstant { secs: MIN_SECS + 2, nanos: 5 }));
}

#[test]
fn seconds_between_instants_are_cut_toward_zero() {
    let t = UtcInstant { secs: 100, nanos: 500_000_000 };
    assert_eq!(whole_seconds_until(&t, &UtcInstant { secs: 99, nanos: 600_000_000 }), 0);
    assert_eq!(whole_seconds_until(&t, &UtcInstant { secs: 99, nanos: 500_000_000 }), 1);
    assert_eq!(whole_seconds_until(&t, &UtcInstant { secs: 101, nanos: 400_000_000 }), 0);
    assert_eq!(whole_seconds_until(&t, &UtcInstant { secs: 102, nanos: 0 }), -1);
    let delay = delay_until(&t, &UtcInstant { secs: 99, nanos: 600_000_000 });
    assert_eq!((delay.secs, delay.nanos), (0, 900_000_000));
    let none = delay_until(&t, &UtcInstant { secs: 101, nanos: 0 });
    assert_eq!((none.secs, none.nanos), (0, 0));
}

#[test]
fn countdowns_have_two_units_at_most() {
    assert_eq!(format_countdown(2 * 86_400 + 3 * 3_600 + 59), "in 2d 3h");
    assert_eq!(format_countdown(3_600 + 5 * 60), "in 1h 05m");
    assert_eq!(format_countdown(4 * 60 + 32), "in 4m 32s");
    assert_eq!(format_countdown(42), "in 42s");
    assert_eq!(format_countdown(-5), "in 0s");
    assert_eq!(format_countdown(0), "in 0s");
}

fn date(year: i32, month: u32, day: u32) -> CalendarDate {
    CalendarDate { year, month, day }
}

#[test]
fn days_are_named_relative_to_today() {
    let today = date(2024, 2, 28);
    assert_eq!(compare_days(today, today), RelativeDay::Today);
    assert_eq!(compare_days(date(2024, 2, 29), today), RelativeDay::Tomorrow);
    assert_eq!(compare_days(date(2024, 3, 1), today), RelativeDay::Other);
    assert_eq!(compare_days(date(2024, 3, 1), date(2024, 2, 29)), RelativeDay::Tomorrow);
    assert_eq!(compare_days(date(2023, 3, 1), date(2023, 2, 28)), RelativeDay::Tomorrow);
    assert_eq!(compare_days(date(2024, 1, 1), date(2023, 12, 31)), RelativeDay::Tomorrow);
}

#[test]
fn labels_and_previews_name_the_day() {
    let today = date(2026, 8, 25);
    let at = |d: CalendarDate, hour: u32, minute: u32| LocalTime {
        date: d,
        time: ClockTime { hour, minute },
    };
    assert_eq!(local_time_label(at(today, 22, 0), today), "Today 22:00");
    assert_eq!(local_time_label(at(date(2026, 8, 26), 9, 5), today), "Tomorrow 09:05");
    assert_eq!(local_time_label(at(date(2026, 9, 1), 9, 5), today), "2026-09-01 09:05");
    assert_eq!(local_time_preview(at(today, 22, 0), today), "Will send today at 22:00");
    assert_eq!(
        local_time_preview(at(date(2026, 8, 26), 9, 5), today),
        "Will send tomorrow at 09:05"
    );
    assert_eq!(
        local_time_preview(at(date(2026, 12, 1), 0, 0), today),
        "Will send on 2026-12-01 at 00:00"
    );
    assert_eq!(fire_time_label(local_utc(2026, 8, 25, 22, 0, 0), today), "Today 22:00");
    assert_eq!(
        schedule_preview(local_utc(2026, 8, 27, 7, 30, 0), today),
        "Will send on 2026-08-27 at 07:30"
    );
}

#[test]
fn menu_offers_tonight_until_its_hour() {
    let items = build_schedule_menu(false, 21);
    let labels: Vec<&str> = items.iter().map(|item| item.label()).collect();
    assert_eq!(
        labels,
        vec![
            "Send Later",
            "In 30 minutes",
            "In 1 hour",
            "Tonight at 22:00",
            "Tomorrow at 9:00",
            "",
            "Custom time…"
        ]
    );
    let late = build_schedule_menu(true, 22);
    assert_eq!(late.len(), 6);
    assert!(late.contains(&ScheduleMenuItem::CustomTime { disabled: true }));
    assert!(!late
        .contains(&ScheduleMenuItem::Preset { preset: Preset::Tonight, disabled: true }));
    assert_eq!(send_dropdown_icon(true), ChevronIcon::Up);
    assert_eq!(send_dropdown_icon(false), ChevronIcon::Down);
}

#[test]
fn presets_give_times_ahead_only() {
    let now = fixed_now();
    assert_eq!(
        preset_fire_at(Preset::InHalfAnHour, now),
        Some(local_utc(2026, 8, 25, 12, 30, 0))
    );
    assert_eq!(preset_fire_at(Preset::InOneHour, now), Some(local_utc(2026, 8, 25, 13, 0, 0)));
    assert_eq!(preset_fire_at(Preset::Tonight, now), Some(local_utc(2026, 8, 25, 22, 0, 0)));
    assert_eq!(
        preset_fire_at(Preset::TomorrowMorning, now),
        Some(local_utc(2026, 8, 26, 9, 0, 0))
    );
    // The menu was left open past the hour.
    let late = local_now(Local.with_ymd_and_hms(2026, 8, 25, 22, 0, 0).unwrap());
    assert_eq!(preset_fire_at(Preset::Tonight, late), None);
    assert_eq!(resolve_preset(Preset::Tonight, utc(12, 0), None), None);
}

#[test]
fn picker_reads_what_is_typed() {
    let mut picker = ScheduleTimePicker::new();
    let today = fixed_now().today;
    assert_eq!(picker.parsed, Err(ParseError::Empty));
    assert_eq!(picker.feedback(today).1, FeedbackColor::Muted);
    picker.edit("banana".to_string(), fixed_now());
    assert_eq!(picker.parsed, Err(ParseError::Unrecognized));
    assert_eq!(
        picker.feedback(today),
        (ParseError::Unrecognized.message().to_string(), FeedbackColor::Error)
    );
    assert_eq!(picker.confirm(fixed_now()), None);
    picker.edit("22:00".to_string(), fixed_now());
    assert_eq!(
        picker.feedback(today),
        ("Will send today at 22:00".to_string(), FeedbackColor::Muted)
    );
    assert_eq!(picker.confirm(fixed_now()), Some(local_utc(2026, 8, 25, 22, 0, 0)));
    // It is read again when it is confirmed.
    picker.edit("12:01".to_string(), fixed_now());
    let late = local_now(Local.with_ymd_and_hms(2026, 8, 25, 12, 0, 55).unwrap());
    assert_eq!(picker.confirm(late), None);
    assert_eq!(picker.parsed, Err(ParseError::TooSoon));
}

#[test]
fn block_lists_the_messages() {
    assert_eq!(scheduled_block_title(1), "1 Scheduled Message");
    assert_eq!(scheduled_block_title(3), "3 Scheduled Messages");
    let now = fixed_now();
    let overdue = text_message("overdue", local_utc(2026, 8, 25, 11, 0, 0));
    let future = text_message("later", local_utc(2026, 8, 25, 13, 5, 0));
    let mut state = ScheduledMessagesState::default();
    state.set.add(future.clone());
    state.set.add(overdue.clone());
    state.editors.insert(future.id.as_text().to_string());
    let deadline = UtcInstant { secs: now.instant.secs + 10, nanos: 0 };
    state.overdue_grace = Some(OverdueGrace { cutoff: now.instant, deadline });
    let (title, rows) = scheduled_messages_block(&state, now.instant, now.today);
    assert_eq!(title, "2 Scheduled Messages");
    assert_eq!(rows.len(), 2);
    assert_eq!(rows[0].id, overdue.id);
    assert_eq!(rows[0].content, None);
    assert!(rows[0].is_overdue && rows[0].has_divider);
    assert_eq!(rows[0].label, "Overdue — sending in 10s…");
    assert_eq!(rows[1].id, future.id);
    assert_eq!(rows[1].content, Some(future.content.clone()));
    assert!(!rows[1].is_overdue && !rows[1].has_divider);
    assert_eq!(rows[1].label, "Today 13:05 · in 1h 05m");
    let local = LocalTime { date: now.today, time: ClockTime { hour: 11, minute: 0 } };
    assert_eq!(
        row_label(deadline, overdue.fire_at, days(now.instant, 1), local, now.today),
        "Overdue — sending in 0s…"
    );
}

#[test]
fn local_readings_follow_the_machine() {
    let time = Local.with_ymd_and_hms(2026, 8, 25, 21, 7, 9).unwrap();
    let today = local_now(time).today;
    assert_eq!(
        fire_time_label(instant(time.with_timezone(&Utc)), today),
        format!("Today {:02}:{:02}", time.hour(), time.minute())
    );
}
