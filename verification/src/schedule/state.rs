//! What a thread knows of its scheduled messages while it is open, and what
//! happens when they fire, are withdrawn, deleted or added.

use crate::order;
use crate::order::Ordered;
use crate::schedule::clock;
use crate::schedule::clock::{delay_until, Delay, UtcInstant, MAX_SECS};
use crate::schedule::message;
use crate::schedule::message::{
    ScheduledMessage, ScheduledMessageId, ScheduledMessageSet, ScheduledMessageView,
};
use crate::schedule::store;
use crate::schedule::store::{ScheduledMessageStore, Sessions};
use crate::seqs;
use crate::text;
use vstd::hash_set::StringHashSet;
use vstd::prelude::*;

verus! {

/// How long messages that were overdue when their thread was opened are held
/// back, in seconds, so that the user can still cancel them.
pub const OVERDUE_GRACE_SECONDS: i64 = 10;

/// The window in which overdue messages are held back. They share one deadline.
#[derive(Debug, Clone, Copy, PartialEq, Eq, Structural)]
pub struct OverdueGrace {
    /// When the thread was opened: messages with a fire time at or before this
    /// are held back.
    pub cutoff: UtcInstant,
    /// When the messages that are held back fire.
    pub deadline: UtcInstant,
}

/// What a thread knows of its scheduled messages while it is open.
pub struct ScheduledMessagesState {
    /// The key of the session in the store.
    pub session_key: String,
    pub set: ScheduledMessageSet,
    /// The identities of the messages that have a read-only editor, in which
    /// their content is shown.
    pub editors: StringHashSet,
    pub overdue_grace: Option<OverdueGrace>,
    /// When the timer goes off; none while nothing is to fire.
    pub timer: Option<UtcInstant>,
    /// Whether the countdowns are kept up to date.
    pub countdown_ticker: bool,
}

/// What a [`ScheduledMessagesState`] says.
#[verifier::ext_equal]
pub struct StateView {
    pub session_key: Seq<char>,
    pub set: Seq<ScheduledMessageView>,
    pub editors: Set<Seq<char>>,
    pub overdue_grace: Option<OverdueGrace>,
    pub timer: Option<UtcInstant>,
    pub countdown_ticker: bool,
}

impl View for ScheduledMessagesState {
    type V = StateView;

    open spec fn view(&self) -> StateView {
        StateView {
            session_key: self.session_key@,
            set: self.set@,
            editors: self.editors@,
            overdue_grace: self.overdue_grace,
            timer: self.timer,
            countdown_ticker: self.countdown_ticker,
        }
    }
}

/// When a message fires: at the deadline if it is held back, and at its own
/// fire time otherwise.
pub open spec fn effective(grace: Option<OverdueGrace>, message: ScheduledMessageView) -> UtcInstant {
    match grace {
        Some(g) => if message.fire_at.le(g.cutoff) {
            g.deadline
        } else {
            message.fire_at
        },
        None => message.fire_at,
    }
}

/// Gives the identity of a message that is to fire by `now`.
pub open spec fn due_effective(grace: Option<OverdueGrace>, now: UtcInstant) -> spec_fn(
    ScheduledMessageView,
) -> Option<Seq<char>> {
    |message: ScheduledMessageView|
        if effective(grace, message).le(now) {
            Some(message.id)
        } else {
            None
        }
}

/// The earlier of two instants.
pub open spec fn earlier(a: UtcInstant, b: UtcInstant) -> UtcInstant {
    if a.le(b) {
        a
    } else {
        b
    }
}

/// When the first message fires.
pub open spec fn first_wake(grace: Option<OverdueGrace>, set: Seq<ScheduledMessageView>) -> Option<
    UtcInstant,
>
    decreases set.len(),
{
    if set.len() == 0 {
        None
    } else {
        match first_wake(grace, set.drop_last()) {
            Some(t) => Some(earlier(t, effective(grace, set.last()))),
            None => Some(effective(grace, set.last())),
        }
    }
}

/// Whether any message is held back by the window.
pub open spec fn holds_any(grace: OverdueGrace, set: Seq<ScheduledMessageView>) -> bool {
    exists|i: int| 0 <= i < set.len() && (#[trigger] set[i]).fire_at.le(grace.cutoff)
}

/// The window, as long as it holds any message back.
pub open spec fn remaining_grace(
    grace: Option<OverdueGrace>,
    set: Seq<ScheduledMessageView>,
) -> Option<OverdueGrace> {
    match grace {
        Some(g) => if holds_any(g, set) {
            grace
        } else {
            None
        },
        None => None,
    }
}

/// The state after the message with the identity has left it, and its editor
/// with it. An editor without a message leaves too.
pub open spec fn without_entry(state: StateView, id: Seq<char>) -> StateView {
    let editors = state.editors.remove(id);
    if message::find_message(state.set, id) is None {
        StateView { editors, ..state }
    } else {
        let set = message::without_message(state.set, id);
        StateView {
            set,
            editors,
            overdue_grace: remaining_grace(state.overdue_grace, set),
            ..state
        }
    }
}

/// The state with its timer set to the first fire time, and its ticker running
/// while there are messages.
pub open spec fn armed(state: StateView) -> StateView {
    StateView {
        timer: first_wake(state.overdue_grace, state.set),
        countdown_ticker: state.set.len() > 0,
        ..state
    }
}

/// Whether the timer is set to the first fire time, and the ticker runs just
/// while there are messages.
pub open spec fn is_armed(state: StateView) -> bool {
    &&& state.timer == first_wake(state.overdue_grace, state.set)
    &&& state.countdown_ticker == (state.set.len() > 0)
}

/// Whether every message has an editor.
pub open spec fn all_have_editors(state: StateView) -> bool {
    forall|i: int| 0 <= i < state.set.len() ==> state.editors.contains((#[trigger] state.set[i]).id)
}

/// Whether every instant in the state lies within the calendar.
pub open spec fn instants_are_valid(state: StateView) -> bool {
    &&& forall|i: int| 0 <= i < state.set.len() ==> (#[trigger] state.set[i]).fire_at.wf()
    &&& state.overdue_grace matches Some(g) ==> g.cutoff.wf() && g.deadline.wf()
}

impl Default for ScheduledMessagesState {
    fn default() -> (r: ScheduledMessagesState)
        ensures
            r@ == (StateView {
                session_key: Seq::empty(),
                set: Seq::empty(),
                editors: Set::empty(),
                overdue_grace: None,
                timer: None,
                countdown_ticker: false,
            }),
            r.wf(),
    {
        ScheduledMessagesState {
            session_key: String::new(),
            set: ScheduledMessageSet::default(),
            editors: StringHashSet::new(),
            overdue_grace: None,
            timer: None,
            countdown_ticker: false,
        }
    }
}

impl ScheduledMessagesState {
    /// The messages are in order.
    pub open spec fn wf(self) -> bool {
        self.set.wf()
    }

    /// When a message fires: at the deadline if it is held back, and at its own
    /// fire time otherwise.
    pub fn effective_fire_at(&self, message: &ScheduledMessage) -> (r: UtcInstant)
        ensures
            r == effective(self@.overdue_grace, message@),
    {
        match self.overdue_grace {
            Some(g) => {
                if message.fire_at.is_at_or_before(&g.cutoff) {
                    g.deadline
                } else {
                    message.fire_at
                }
            },
            None => message.fire_at,
        }
    }

    /// The identities of the messages that are to fire by `now`, in order.
    /// Messages that are held back stay out until the deadline.
    pub fn due_now(&self, now: UtcInstant) -> (r: Vec<ScheduledMessageId>)
        ensures
            text::views(r@) == seqs::filter_mapped(
                self@.set,
                due_effective(self@.overdue_grace, now),
            ),
    {
        let entries = self.set.entries();
        let ghost all = self@.set;
        let ghost f = due_effective(self@.overdue_grace, now);
        let mut out: Vec<ScheduledMessageId> = Vec::new();
        let mut i: usize = 0;
        assert(text::views(out@) =~= seqs::filter_mapped(all.take(0), f));
        while i < entries.len()
            invariant
                i <= entries@.len(),
                all == self@.set,
                all == text::views(entries@),
                f == due_effective(self@.overdue_grace, now),
                text::views(out@) == seqs::filter_mapped(all.take(i as int), f),
            decreases entries@.len() - i,
        {
            proof {
                seqs::lemma_filter_mapped_step(all, f, i as int);
            }
            assert(all[i as int] == entries@[i as int]@);
            let fires = self.effective_fire_at(&entries[i]);
            if fires.is_at_or_before(&now) {
                let ghost before = text::views(out@);
                let id = entries[i].id.clone();
                out.push(id);
                assert(text::views(out@) =~= before.push(id@));
            }
            i = i + 1;
        }
        assert(all.take(i as int) =~= all);
        out
    }

    /// When the first message fires; none without messages.
    pub fn next_wake(&self) -> (r: Option<UtcInstant>)
        ensures
            r == first_wake(self@.overdue_grace, self@.set),
    {
        let entries = self.set.entries();
        let ghost all = self@.set;
        let mut first: Option<UtcInstant> = None;
        let mut i: usize = 0;
        while i < entries.len()
            invariant
                i <= entries@.len(),
                all == self@.set,
                all == text::views(entries@),
                first == first_wake(self@.overdue_grace, all.take(i as int)),
            decreases entries@.len() - i,
        {
            assert(all.take(i + 1).drop_last() =~= all.take(i as int));
            assert(all.take(i + 1).last() == entries@[i as int]@);
            let fires = self.effective_fire_at(&entries[i]);
            first = match first {
                Some(t) => {
                    if t.is_at_or_before(&fires) {
                        Some(t)
                    } else {
                        Some(fires)
                    }
                },
                None => Some(fires),
            };
            i = i + 1;
        }
        assert(all.take(i as int) =~= all);
        first
    }

    /// Takes a message and its editor out. The window for overdue messages
    /// closes when the last that it held back has left, so that it never
    /// outlives them.
    pub fn remove_entry(&mut self, id: &ScheduledMessageId) -> (r: Option<ScheduledMessage>)
        requires
            old(self).wf(),
        ensures
            text::option_view(r) == message::find_message(old(self)@.set, id@),
            final(self)@ == without_entry(old(self)@, id@),
            final(self).wf(),
    {
        self.editors.remove(id.as_text());
        let removed = self.set.remove(id);
        if removed.is_none() {
            return None;
        }
        if let Some(g) = self.overdue_grace {
            if !self.any_held(&g) {
                self.overdue_grace = None;
            }
        }
        removed
    }

    /// Whether any message is held back by the window.
    fn any_held(&self, grace: &OverdueGrace) -> (r: bool)
        ensures
            r == holds_any(*grace, self@.set),
    {
        let entries = self.set.entries();
        let mut i: usize = 0;
        while i < entries.len()
            invariant
                i <= entries@.len(),
                text::views(entries@) == self@.set,
                forall|k: int|
                    0 <= k < i ==> !(#[trigger] self@.set[k]).fire_at.le(grace.cutoff),
            decreases entries@.len() - i,
        {
            assert(self@.set[i as int] == entries@[i as int]@);
            if entries[i].fire_at.is_at_or_before(&grace.cutoff) {
                assert(self@.set[i as int].fire_at.le(grace.cutoff));
                return true;
            }
            i = i + 1;
        }
        assert(text::views(entries@).len() == entries@.len());
        false
    }

    /// Sets the timer to the first fire time, or stops it without messages, and
    /// keeps the ticker running while there are messages.
    pub fn arm_scheduled_message_timer(&mut self)
        requires
            old(self).wf(),
        ensures
            final(self)@ == armed(old(self)@),
            final(self).wf(),
    {
        self.countdown_ticker = !self.set.is_empty();
        self.timer = self.next_wake();
    }

    /// How long the timer is to sleep; none if it is not to run.
    pub fn timer_delay(&self, now: UtcInstant) -> (r: Option<Delay>)
        requires
            self@.timer matches Some(t) ==> t.wf(),
            now.wf(),
        ensures
            match self@.timer {
                Some(t) => r matches Some(d) && d.secs * 1_000_000_000 + d.nanos
                    == clock::delay_nanos(t, now) && d.nanos < 1_000_000_000,
                None => r is None,
            },
    {
        match self.timer {
            Some(t) => Some(delay_until(&t, &now)),
            None => None,
        }
    }
}

/// The first fire time lies within the calendar, where every instant does.
pub proof fn first_wake_is_valid(grace: Option<OverdueGrace>, set: Seq<ScheduledMessageView>)
    requires
        forall|i: int| 0 <= i < set.len() ==> (#[trigger] set[i]).fire_at.wf(),
        grace matches Some(g) ==> g.cutoff.wf() && g.deadline.wf(),
    ensures
        first_wake(grace, set) matches Some(t) ==> t.wf(),
    decreases set.len(),
{
    if set.len() > 0 {
        let rest = set.drop_last();
        assert forall|i: int| 0 <= i < rest.len() implies (#[trigger] rest[i]).fire_at.wf() by {
            assert(set[i] == rest[i]);
        }
        first_wake_is_valid(grace, rest);
        assert(set[set.len() - 1].fire_at.wf());
    }
}

/// Some message fires at the first fire time, and none before it.
pub proof fn first_wake_is_the_first(
    grace: Option<OverdueGrace>,
    set: Seq<ScheduledMessageView>,
)
    ensures
        match first_wake(grace, set) {
            Some(t) => (exists|i: int|
                0 <= i < set.len() && effective(grace, #[trigger] set[i]) == t) && (forall|i: int|
                0 <= i < set.len() ==> t.le(effective(grace, #[trigger] set[i]))),
            None => set.len() == 0,
        },
    decreases set.len(),
{
    if set.len() > 0 {
        let rest = set.drop_last();
        first_wake_is_the_first(grace, rest);
        let t = first_wake(grace, set)->0;
        let last = set.len() - 1;
        if let Some(u) = first_wake(grace, rest) {
            let i = choose|i: int| 0 <= i < rest.len() && effective(grace, #[trigger] rest[i]) == u;
            assert(set[i] == rest[i]);
            assert(effective(grace, set[i]) == t || effective(grace, set[last]) == t);
            assert forall|k: int| 0 <= k < set.len() implies t.le(
                effective(grace, #[trigger] set[k]),
            ) by {
                if k < rest.len() {
                    assert(rest[k] == set[k]);
                    assert(u.le(effective(grace, rest[k])));
                }
            }
        } else {
            assert(effective(grace, set[last]) == t);
        }
    }
}

/// The window that a thread opens with: one of ten seconds if any message is
/// overdue.
pub open spec fn opening_grace(messages: Seq<ScheduledMessageView>, now: UtcInstant) -> Option<
    OverdueGrace,
> {
    if exists|i: int| 0 <= i < messages.len() && (#[trigger] messages[i]).fire_at.le(now) {
        Some(
            OverdueGrace {
                cutoff: now,
                deadline: UtcInstant {
                    secs: (now.secs + OVERDUE_GRACE_SECONDS) as i64,
                    nanos: now.nanos,
                },
            },
        )
    } else {
        None
    }
}

/// The identities of the messages.
pub open spec fn ids_of(messages: Seq<ScheduledMessageView>) -> Set<Seq<char>> {
    messages.map_values(|m: ScheduledMessageView| m.id).to_set()
}

/// One message more has its identity among the others.
proof fn lemma_ids_of_step(messages: Seq<ScheduledMessageView>, k: int)
    requires
        0 <= k < messages.len(),
    ensures
        ids_of(messages.take(k + 1)) == ids_of(messages.take(k)).insert(messages[k].id),
{
    let f = |m: ScheduledMessageView| m.id;
    let before = messages.take(k).map_values(f);
    let after = messages.take(k + 1).map_values(f);
    assert(after =~= before.push(messages[k].id));
    assert forall|id: Seq<char>| after.contains(id) <==> before.contains(id) || id
        == messages[k].id by {
        if before.contains(id) {
            let i = choose|i: int| 0 <= i < before.len() && before[i] == id;
            assert(after[i] == id);
        }
        if id == messages[k].id {
            assert(after[k] == id);
        }
    }
    assert(ids_of(messages.take(k + 1)) =~= ids_of(messages.take(k)).insert(messages[k].id));
}

/// The state that a thread opens with: every message has an editor, and the
/// timer is set.
pub open spec fn opening_state(
    key: Seq<char>,
    messages: Seq<ScheduledMessageView>,
    now: UtcInstant,
) -> StateView {
    armed(
        StateView {
            session_key: key,
            set: order::stable_sorted(messages, message::message_order()),
            editors: ids_of(messages),
            overdue_grace: opening_grace(messages, now),
            timer: None,
            countdown_ticker: false,
        },
    )
}

/// The state that a thread opens with, from the store. Messages whose fire time
/// has passed are held back for ten seconds.
pub fn restore_scheduled_messages(
    agent_id: &str,
    session_id: &str,
    store: &ScheduledMessageStore,
    now: UtcInstant,
) -> (r: ScheduledMessagesState)
    requires
        now.wf(),
        now.secs + OVERDUE_GRACE_SECONDS <= MAX_SECS,
    ensures
        ({
            let key = store::key_of_session(agent_id@, session_id@);
            r@ == opening_state(key, store::messages_of(store@, key), now)
        }),
        r.wf(),
{
    let session_key = store::session_key(agent_id, session_id);
    let messages = store.messages_for(session_key.as_str());
    let ghost all = text::views(messages@);
    let ghost list = messages@;
    let mut set = ScheduledMessageSet::default();
    let mut editors = StringHashSet::new();
    let mut overdue = false;
    assert(editors@ =~= ids_of(all.take(0)));
    assert(set@ =~= order::stable_sorted(all.take(0), message::message_order()));
    for message in it: messages
        invariant
            it.seq() == list,
            all == text::views(list),
            set.wf(),
            set@ == order::stable_sorted(all.take(it.index() as int), message::message_order()),
            editors@ == ids_of(all.take(it.index() as int)),
            overdue == (exists|i: int|
                0 <= i < it.index() && (#[trigger] all[i]).fire_at.le(now)),
    {
        let ghost k = it.index() as int;
        assert(all[k] == message@);
        assert(all.take(k + 1).drop_last() =~= all.take(k));
        if message.fire_at.is_at_or_before(&now) {
            assert(all[k].fire_at.le(now));
            overdue = true;
        }
        proof {
            lemma_ids_of_step(all, k);
        }
        editors.insert(message.id.as_text().to_owned());
        set.add(message);
    }
    assert(all.take(all.len() as int) =~= all);
    let overdue_grace = if overdue {
        Some(
            OverdueGrace {
                cutoff: now,
                deadline: UtcInstant { secs: now.secs + OVERDUE_GRACE_SECONDS, nanos: now.nanos },
            },
        )
    } else {
        None
    };
    let mut state = ScheduledMessagesState {
        session_key,
        set,
        editors,
        overdue_grace,
        timer: None,
        countdown_ticker: false,
    };
    state.arm_scheduled_message_timer();
    state
}

/// A thread opens with an editor for every message, and with its timer set.
pub proof fn opened_thread_is_ready(
    key: Seq<char>,
    messages: Seq<ScheduledMessageView>,
    now: UtcInstant,
)
    ensures
        is_armed(opening_state(key, messages, now)),
        all_have_editors(opening_state(key, messages, now)),
{
    broadcast use vstd::seq_lib::group_to_multiset_ensures;

    let le = message::message_order();
    let set = order::stable_sorted(messages, le);
    order::stable_sorted_holds(messages, le);
    let ids = messages.map_values(|m: ScheduledMessageView| m.id);
    assert forall|i: int| 0 <= i < set.len() implies ids_of(messages).contains(
        (#[trigger] set[i]).id,
    ) by {
        assert(set.contains(set[i]));
        assert(set.to_multiset().count(set[i]) > 0);
        assert(messages.contains(set[i]));
        let k = choose|k: int| 0 <= k < messages.len() && messages[k] == set[i];
        assert(ids[k] == set[i].id);
    }
}

/// A thread that is opened again has just the messages that are stored for it,
/// one that was just scheduled among them.
pub proof fn reopened_thread_has_its_messages(
    sessions: Sessions,
    key: Seq<char>,
    scheduled: ScheduledMessageView,
    now: UtcInstant,
)
    ensures
        opening_state(key, store::messages_of(sessions, key), now).set.to_multiset()
            == store::messages_of(sessions, key).to_multiset(),
        opening_state(
            key,
            store::messages_of(store::with_stored(sessions, key, scheduled), key),
            now,
        ).set.contains(scheduled),
{
    broadcast use vstd::seq_lib::group_to_multiset_ensures;

    let le = message::message_order();
    let after = store::messages_of(store::with_stored(sessions, key, scheduled), key);
    order::stable_sorted_holds(store::messages_of(sessions, key), le);
    order::stable_sorted_holds(after, le);
    assert(after.last() == scheduled);
    assert(after.contains(scheduled));
    assert(after.to_multiset().count(scheduled) > 0);
    assert(order::stable_sorted(after, le).to_multiset().count(scheduled) > 0);
}

/// Messages that are overdue when their thread is opened fire together ten
/// seconds after that, and the others at their own times; without overdue messages
/// nothing is held back.
pub proof fn overdue_messages_are_held_for_ten_seconds(
    key: Seq<char>,
    messages: Seq<ScheduledMessageView>,
    now: UtcInstant,
    i: int,
)
    requires
        now.wf(),
        now.secs + 10 <= MAX_SECS,
        0 <= i < messages.len(),
    ensures
        ({
            let grace = opening_state(key, messages, now).overdue_grace;
            let m = messages[i];
            &&& m.fire_at.le(now) ==> effective(grace, m).total_nanos() == now.total_nanos()
                + 10_000_000_000
            &&& !m.fire_at.le(now) ==> effective(grace, m) == m.fire_at
        }),
        (forall|k: int| 0 <= k < messages.len() ==> !(#[trigger] messages[k]).fire_at.le(now))
            ==> opening_state(key, messages, now).overdue_grace is None,
{
    if messages[i].fire_at.le(now) {
        assert(opening_grace(messages, now) is Some);
    }
}

/// A thread opens with its messages in the order in which they fire.
pub proof fn opened_messages_are_in_order(
    key: Seq<char>,
    messages: Seq<ScheduledMessageView>,
    now: UtcInstant,
    i: int,
    j: int,
)
    requires
        0 <= i < j < opening_state(key, messages, now).set.len(),
    ensures
        ({
            let set = opening_state(key, messages, now).set;
            &&& set[i].fire_at.le(set[j].fire_at)
            &&& set[i].fire_at == set[j].fire_at ==> set[i].created_at.le(set[j].created_at)
        }),
{
    let le = message::message_order();
    ScheduledMessage::order_is_total();
    order::stable_sorted_is_sorted(messages, le);
    let set = order::stable_sorted(messages, le);
    assert(le(set[i], set[j]));
}

} // verus!
