//! What happens to scheduled messages: they fire, are withdrawn, deleted or
//! added.

use crate::order;
use crate::schedule::clock::UtcInstant;
use crate::schedule::message;
use crate::schedule::message::{ScheduledMessage, ScheduledMessageId, ScheduledMessageView};
use crate::schedule::state;
use crate::schedule::state::{OverdueGrace, ScheduledMessagesState, StateView};
use crate::schedule::store;
use crate::schedule::store::{ScheduledMessageStore, Sessions};
use crate::seqs;
use crate::text;
use agent_client_protocol::schema::v1::ContentBlock;
use vstd::prelude::*;

verus! {

/// What is to be done, in order, when messages fire.
#[derive(Debug)]
pub enum FireStep {
    /// Wait until every change to the store so far has been written. A message
    /// whose deletion was not written could be sent a second time after a
    /// crash.
    AwaitWrite,
    /// Put the content at the end of the queue.
    Enqueue(Vec<ContentBlock>),
    /// Send the front of the queue, if the thread is idle.
    DispatchFront,
}

/// What a [`FireStep`] says.
pub enum FireStepView {
    AwaitWrite,
    Enqueue(Seq<ContentBlock>),
    DispatchFront,
}

impl View for FireStep {
    type V = FireStepView;

    open spec fn view(&self) -> FireStepView {
        match self {
            FireStep::AwaitWrite => FireStepView::AwaitWrite,
            FireStep::Enqueue(content) => FireStepView::Enqueue(content@),
            FireStep::DispatchFront => FireStepView::DispatchFront,
        }
    }
}

/// What firing comes to: the state, the store, and what is to be done.
#[verifier::ext_equal]
pub struct Firing {
    pub state: StateView,
    pub sessions: Sessions,
    pub steps: Seq<FireStepView>,
}

/// Firing one more message: it leaves the state and the store, and its content
/// is enqueued once its deletion from the store has been written. What is not in
/// the set does not fire.
pub open spec fn fire_one(firing: Firing, id: Seq<char>) -> Firing {
    match message::find_message(firing.state.set, id) {
        None => Firing { state: state::without_entry(firing.state, id), ..firing },
        Some(m) => {
            let key = firing.state.session_key;
            let stored = message::find_message(store::messages_of(firing.sessions, key), id) is Some;
            Firing {
                state: state::without_entry(firing.state, id),
                sessions: store::without_stored(firing.sessions, key, id),
                steps: firing.steps + (if stored {
                    seq![FireStepView::AwaitWrite]
                } else {
                    Seq::empty()
                }) + seq![FireStepView::Enqueue(m.content)],
            }
        },
    }
}

/// Firing messages one after the other.
pub open spec fn fire_all(firing: Firing, ids: Seq<Seq<char>>) -> Firing
    decreases ids.len(),
{
    if ids.len() == 0 {
        firing
    } else {
        fire_one(fire_all(firing, ids.drop_last()), ids.last())
    }
}

/// Firing messages, arming the timer for what is left, and then sending the
/// front of the queue if any fired.
pub open spec fn fire_and_dispatch(firing: Firing, ids: Seq<Seq<char>>) -> Firing {
    let fired = fire_all(firing, ids);
    Firing {
        state: state::armed(fired.state),
        steps: if fired.steps.len() == firing.steps.len() {
            fired.steps
        } else {
            fired.steps.push(FireStepView::DispatchFront)
        },
        ..fired
    }
}

/// Nothing has fired yet.
pub open spec fn nothing_fired(state: StateView, sessions: Sessions) -> Firing {
    Firing { state, sessions, steps: Seq::empty() }
}

impl ScheduledMessagesState {
    /// Fires the messages with the identities, in order. Each leaves the state
    /// and the store; its content is enqueued only when its deletion has been
    /// written, so that a crash loses a message rather than sending it twice.
    /// The timer is armed for the messages that are left.
    pub fn fire_scheduled_messages(
        &mut self,
        store: &mut ScheduledMessageStore,
        ids: &Vec<ScheduledMessageId>,
    ) -> (r: Vec<FireStep>)
        requires
            old(self).wf(),
            old(store).wf(),
        ensures
            ({
                let fired = fire_and_dispatch(
                    nothing_fired(old(self)@, old(store)@),
                    text::views(ids@),
                );
                &&& final(self)@ == fired.state
                &&& final(store)@ == fired.sessions
                &&& text::views(r@) == fired.steps
            }),
            final(self).wf(),
            final(store).wf(),
    {
        let ghost start = nothing_fired(self@, store@);
        let ghost all = text::views(ids@);
        let mut steps: Vec<FireStep> = Vec::new();
        let mut i: usize = 0;
        assert(all.take(0) =~= Seq::<Seq<char>>::empty());
        assert(text::views(steps@) =~= Seq::<FireStepView>::empty());
        while i < ids.len()
            invariant
                i <= ids.len(),
                all == text::views(ids@),
                self.wf(),
                store.wf(),
                fire_all(start, all.take(i as int)) == (Firing {
                    state: self@,
                    sessions: store@,
                    steps: text::views(steps@),
                }),
            decreases ids.len() - i,
        {
            assert(all.take(i + 1).drop_last() =~= all.take(i as int));
            assert(all.take(i + 1).last() == ids@[i as int]@);
            let ghost before = text::views(steps@);
            let id = &ids[i];
            if let Some(m) = self.remove_entry(id) {
                let stored = store.remove(self.session_key.as_str(), id).is_some();
                if stored {
                    steps.push(FireStep::AwaitWrite);
                    assert(text::views(steps@) =~= before + seq![FireStepView::AwaitWrite]);
                } else {
                    assert(text::views(steps@) =~= before + Seq::<FireStepView>::empty());
                }
                let ghost middle = text::views(steps@);
                let step = FireStep::Enqueue(m.content);
                steps.push(step);
                assert(text::views(steps@) =~= middle + seq![step@]);
            }
            i = i + 1;
        }
        assert(all.take(i as int) =~= all);
        assert(text::views(steps@).len() == steps@.len());
        self.arm_scheduled_message_timer();
        if steps.len() > 0 {
            let ghost before = text::views(steps@);
            steps.push(FireStep::DispatchFront);
            assert(text::views(steps@) =~= before.push(FireStepView::DispatchFront));
        }
        steps
    }

    /// Fires every message that is to fire by `now`.
    pub fn fire_due_scheduled_messages(
        &mut self,
        store: &mut ScheduledMessageStore,
        now: UtcInstant,
    ) -> (r: Vec<FireStep>)
        requires
            old(self).wf(),
            old(store).wf(),
        ensures
            ({
                let fired = fire_and_dispatch(
                    nothing_fired(old(self)@, old(store)@),
                    seqs::filter_mapped(
                        old(self)@.set,
                        state::due_effective(old(self)@.overdue_grace, now),
                    ),
                );
                &&& final(self)@ == fired.state
                &&& final(store)@ == fired.sessions
                &&& text::views(r@) == fired.steps
            }),
            final(self).wf(),
            final(store).wf(),
    {
        let due = self.due_now(now);
        self.fire_scheduled_messages(store, &due)
    }

    /// Fires one message at once, whatever its fire time.
    pub fn send_scheduled_message_now(
        &mut self,
        store: &mut ScheduledMessageStore,
        id: &ScheduledMessageId,
    ) -> (r: Vec<FireStep>)
        requires
            old(self).wf(),
            old(store).wf(),
        ensures
            ({
                let fired = fire_and_dispatch(
                    nothing_fired(old(self)@, old(store)@),
                    seq![id@],
                );
                &&& final(self)@ == fired.state
                &&& final(store)@ == fired.sessions
                &&& text::views(r@) == fired.steps
            }),
            final(self).wf(),
            final(store).wf(),
    {
        let ids: Vec<ScheduledMessageId> = vec![id.clone()];
        assert(text::views(ids@) =~= seq![id@]);
        self.fire_scheduled_messages(store, &ids)
    }

    /// Takes a message out of the state and the store, and arms the timer for
    /// the messages that are left. Nothing is sent, so nothing waits for the
    /// write.
    pub fn delete_scheduled_message(
        &mut self,
        store: &mut ScheduledMessageStore,
        id: &ScheduledMessageId,
    ) -> (r: Option<ScheduledMessage>)
        requires
            old(self).wf(),
            old(store).wf(),
        ensures
            text::option_view(r) == message::find_message(old(self)@.set, id@),
            final(self)@ == discarded(old(self)@, id@),
            final(store)@ == (if r is Some {
                store::without_stored(old(store)@, old(self)@.session_key, id@)
            } else {
                old(store)@
            }),
            final(self).wf(),
            final(store).wf(),
    {
        let removed = self.remove_entry(id);
        if removed.is_some() {
            store.remove(self.session_key.as_str(), id);
            self.arm_scheduled_message_timer();
        }
        removed
    }

    /// Takes a message out of the state and the store, and says how its content
    /// goes back into the message editor: in place of what is there, which is
    /// nothing, or after it and an empty line.
    pub fn withdraw_scheduled_message(
        &mut self,
        store: &mut ScheduledMessageStore,
        id: &ScheduledMessageId,
        editor_is_empty: bool,
    ) -> (r: Option<Withdrawal>)
        requires
            old(self).wf(),
            old(store).wf(),
        ensures
            match message::find_message(old(self)@.set, id@) {
                Some(m) => r matches Some(w) && w.content@ == m.content && w.separator@ == (
                if editor_is_empty {
                    ""@
                } else {
                    "\n\n"@
                }) && w.replaces == editor_is_empty && final(store)@ == store::without_stored(
                    old(store)@,
                    old(self)@.session_key,
                    id@,
                ),
                None => r is None && final(store)@ == old(store)@,
            },
            final(self)@ == discarded(old(self)@, id@),
            final(self).wf(),
            final(store).wf(),
    {
        match self.delete_scheduled_message(store, id) {
            Some(m) => Some(
                Withdrawal {
                    content: m.content,
                    replaces: editor_is_empty,
                    separator: if editor_is_empty {
                        ""
                    } else {
                        "\n\n"
                    },
                },
            ),
            None => None,
        }
    }

    /// Adds a message with a given identity to the state, with an editor, and to
    /// the store, and arms the timer, unless there is nothing to send.
    pub fn schedule_with_id(
        &mut self,
        store: &mut ScheduledMessageStore,
        id: ScheduledMessageId,
        content: Vec<ContentBlock>,
        fire_at: UtcInstant,
        now: UtcInstant,
    ) -> (r: bool)
        requires
            old(self).wf(),
            old(store).wf(),
        ensures
            r == (content@.len() > 0),
            r ==> ({
                let m = ScheduledMessageView {
                    id: id@,
                    content: content@,
                    fire_at,
                    created_at: now,
                };
                &&& final(self)@ == with_entry(old(self)@, m)
                &&& final(store)@ == store::with_stored(old(store)@, old(self)@.session_key, m)
            }),
            !r ==> final(self)@ == old(self)@ && final(store)@ == old(store)@,
            final(self).wf(),
            final(store).wf(),
    {
        if content.len() == 0 {
            return false;
        }
        let m = ScheduledMessage { id, content, fire_at, created_at: now };
        store.add(self.session_key.clone(), m.clone());
        self.editors.insert(m.id.as_text().to_owned());
        self.set.add(m);
        self.arm_scheduled_message_timer();
        true
    }

    /// Adds what is in the message editor to the state and the store, to be
    /// sent at `fire_at`, under a fresh identity, unless there is nothing to
    /// send. Says whether it did; the editor is then to be cleared.
    pub fn schedule_current_message(
        &mut self,
        store: &mut ScheduledMessageStore,
        editor_is_empty: bool,
        content: Vec<ContentBlock>,
        fire_at: UtcInstant,
        now: UtcInstant,
    ) -> (r: bool)
        requires
            old(self).wf(),
            old(store).wf(),
        ensures
            r == (!editor_is_empty && content@.len() > 0),
            r ==> exists|id: Seq<char>|
                message::is_random_uuid(id) && final(self)@ == #[trigger] with_entry(
                    old(self)@,
                    new_message(id, content@, fire_at, now),
                ) && final(store)@ == store::with_stored(
                    old(store)@,
                    old(self)@.session_key,
                    new_message(id, content@, fire_at, now),
                ),
            !r ==> final(self)@ == old(self)@ && final(store)@ == old(store)@,
            final(self).wf(),
            final(store).wf(),
    {
        if editor_is_empty {
            return false;
        }
        let id = ScheduledMessageId::new();
        let ghost text_of_id = id@;
        let ghost m = new_message(text_of_id, content@, fire_at, now);
        let ghost goal = with_entry(self@, m);
        let r = self.schedule_with_id(store, id, content, fire_at, now);
        assert(r ==> self@ == goal);
        r
    }
}

/// A message with a given identity.
pub open spec fn new_message(
    id: Seq<char>,
    content: Seq<ContentBlock>,
    fire_at: UtcInstant,
    now: UtcInstant,
) -> ScheduledMessageView {
    ScheduledMessageView { id, content, fire_at, created_at: now }
}

/// The state with a message added where it belongs, with an editor, and with the
/// timer armed.
pub open spec fn with_entry(state: StateView, m: ScheduledMessageView) -> StateView {
    state::armed(
        StateView {
            set: order::inserted(state.set, m, message::message_order()),
            editors: state.editors.insert(m.id),
            ..state
        },
    )
}

/// The state after a message has been withdrawn or deleted: the timer is armed
/// for the messages that are left. Without the message the timer stays as it is.
pub open spec fn discarded(state: StateView, id: Seq<char>) -> StateView {
    let left = state::without_entry(state, id);
    if message::find_message(state.set, id) is Some {
        state::armed(left)
    } else {
        left
    }
}

/// How the content of a withdrawn message goes back into the message editor.
#[derive(Debug)]
pub struct Withdrawal {
    pub content: Vec<ContentBlock>,
    /// Whether it takes the place of what is there.
    pub replaces: bool,
    /// What stands between what is there and it.
    pub separator: &'static str,
}

/// Which message of the queue is sent once messages have fired: the front one
/// if the thread is idle. While a turn is running the queue waits.
pub fn front_to_send(thread_is_idle: bool, front: Option<u64>) -> (r: Option<u64>)
    ensures
        r == (if thread_is_idle {
            front
        } else {
            None
        }),
{
    if thread_is_idle {
        front
    } else {
        None
    }
}

/// Whether no identity occurs twice.
pub open spec fn ids_are_unique(messages: Seq<ScheduledMessageView>) -> bool {
    forall|i: int, j: int|
        0 <= i < j < messages.len() ==> (#[trigger] messages[i]).id != (#[trigger] messages[j]).id
}

/// Where identities are unique, a message that was taken out is not found any
/// more, and the others still have their own identities.
pub proof fn removed_message_is_gone(messages: Seq<ScheduledMessageView>, id: Seq<char>)
    requires
        ids_are_unique(messages),
    ensures
        message::find_message(message::without_message(messages, id), id) is None,
        ids_are_unique(message::without_message(messages, id)),
{
    let i = message::index_of_id(messages, id);
    message::lemma_index_of_id(messages, id);
    if i < messages.len() {
        let rest = messages.remove(i);
        message::lemma_index_of_id(rest, id);
        let j = message::index_of_id(rest, id);
        if j < rest.len() {
            if j < i {
                assert(rest[j] == messages[j]);
                assert(messages[j].id != messages[i].id);
            } else {
                assert(rest[j] == messages[j + 1]);
                assert(messages[i].id != messages[j + 1].id);
            }
        }
        assert forall|a: int, b: int| 0 <= a < b < rest.len() implies (#[trigger] rest[a]).id != (
        #[trigger] rest[b]).id by {
            let x = if a < i {
                a
            } else {
                a + 1
            };
            let y = if b < i {
                b
            } else {
                b + 1
            };
            assert(messages[x].id != messages[y].id);
        }
    }
}

/// A message that has fired is neither in the state nor in the store any more,
/// so that it can not fire again.
pub proof fn fired_message_is_gone(firing: Firing, id: Seq<char>)
    requires
        ids_are_unique(firing.state.set),
        ids_are_unique(store::messages_of(firing.sessions, firing.state.session_key)),
        message::find_message(firing.state.set, id) is Some,
    ensures
        message::find_message(fire_one(firing, id).state.set, id) is None,
        message::find_message(
            store::messages_of(fire_one(firing, id).sessions, firing.state.session_key),
            id,
        ) is None,
{
    let key = firing.state.session_key;
    let stored = store::messages_of(firing.sessions, key);
    removed_message_is_gone(firing.state.set, id);
    removed_message_is_gone(stored, id);
    message::lemma_index_of_id(stored, id);
    let after = store::messages_of(store::without_stored(firing.sessions, key, id), key);
    if message::find_message(stored, id) is Some {
        let rest = message::without_message(stored, id);
        assert(after =~= rest);
    }
}

/// Where identities are unique, taking a message out leaves just the messages
/// with other identities.
proof fn lemma_without_message(
    messages: Seq<ScheduledMessageView>,
    id: Seq<char>,
    m: ScheduledMessageView,
)
    requires
        ids_are_unique(messages),
    ensures
        message::without_message(messages, id).contains(m) <==> messages.contains(m) && m.id != id,
{
    message::lemma_index_of_id(messages, id);
    let i = message::index_of_id(messages, id);
    let rest = message::without_message(messages, id);
    if rest.contains(m) {
        let k = choose|k: int| 0 <= k < rest.len() && rest[k] == m;
        if i < messages.len() {
            let j = if k < i {
                k
            } else {
                k + 1
            };
            assert(messages[j] == m);
            assert(messages[j].id != messages[i].id);
        }
    }
    if messages.contains(m) && m.id != id {
        let j = choose|j: int| 0 <= j < messages.len() && messages[j] == m;
        if i < messages.len() {
            if j < i {
                assert(rest[j] == m);
            } else {
                assert(rest[j - 1] == m);
            }
        }
    }
}

/// What is left after firing: the messages with other identities, and the window
/// unless it holds none of them back.
proof fn lemma_fire_all(firing: Firing, ids: Seq<Seq<char>>, m: ScheduledMessageView)
    requires
        ids_are_unique(firing.state.set),
    ensures
        ({
            let left = fire_all(firing, ids).state;
            &&& ids_are_unique(left.set)
            &&& left.set.contains(m) <==> firing.state.set.contains(m) && !ids.contains(m.id)
            &&& left.overdue_grace == firing.state.overdue_grace || (left.overdue_grace is None
                && (left.set.contains(m) ==> !m.fire_at.le((firing.state.overdue_grace->0).cutoff)))
        }),
    decreases ids.len(),
{
    if ids.len() > 0 {
        let earlier = ids.drop_last();
        let id = ids.last();
        lemma_fire_all(firing, earlier, m);
        let before = fire_all(firing, earlier).state;
        let after = fire_all(firing, ids).state;
        removed_message_is_gone(before.set, id);
        lemma_without_message(before.set, id, m);
        message::lemma_index_of_id(before.set, id);
        assert(after.set == message::without_message(before.set, id));
        assert(ids.contains(m.id) <==> earlier.contains(m.id) || m.id == id) by {
            if earlier.contains(m.id) {
                let k = choose|k: int| 0 <= k < earlier.len() && earlier[k] == m.id;
                assert(ids[k] == m.id);
            }
            if m.id == id {
                assert(ids[ids.len() - 1] == m.id);
            }
            if ids.contains(m.id) && m.id != id {
                let k = choose|k: int| 0 <= k < ids.len() && ids[k] == m.id;
                assert(earlier[k] == m.id);
            }
        }
        if after.overdue_grace != before.overdue_grace {
            let g = before.overdue_grace->0;
            assert(!state::holds_any(g, after.set));
            if after.set.contains(m) {
                let k = choose|k: int| 0 <= k < after.set.len() && after.set[k] == m;
                assert(!after.set[k].fire_at.le(g.cutoff));
            }
        }
    }
}

/// Firing what is due fires all of it and nothing else: afterwards nothing is
/// due any more, and the messages that were not due are still there.
pub proof fn firing_leaves_what_is_not_due(
    firing: Firing,
    now: UtcInstant,
    m: ScheduledMessageView,
)
    requires
        ids_are_unique(firing.state.set),
    ensures
        ({
            let due = state::due_effective(firing.state.overdue_grace, now);
            let left = fire_all(firing, seqs::filter_mapped(firing.state.set, due)).state;
            &&& left.set.contains(m) ==> !state::effective(left.overdue_grace, m).le(now)
            &&& left.set.contains(m) <==> firing.state.set.contains(m) && !state::effective(
                firing.state.overdue_grace,
                m,
            ).le(now)
        }),
{
    let set = firing.state.set;
    let due = state::due_effective(firing.state.overdue_grace, now);
    let ids = seqs::filter_mapped(set, due);
    lemma_fire_all(firing, ids, m);
    seqs::filter_mapped_holds(set, due, m.id);
    if set.contains(m) {
        let j = choose|j: int| 0 <= j < set.len() && set[j] == m;
        if state::effective(firing.state.overdue_grace, m).le(now) {
            assert(due(set[j]) == Some(m.id));
        }
        if ids.contains(m.id) {
            let i = choose|i: int| 0 <= i < set.len() && due(#[trigger] set[i]) == Some(m.id);
            assert(set[i].id == set[j].id);
            assert(i == j) by {
                if i < j {
                    assert(set[i].id != set[j].id);
                } else if j < i {
                    assert(set[j].id != set[i].id);
                }
            }
        }
    }
}

/// The content of a message that is stored is enqueued only after the store
/// without it has been written.
pub proof fn content_waits_for_its_deletion(firing: Firing, id: Seq<char>)
    requires
        message::find_message(firing.state.set, id) is Some,
        message::find_message(
            store::messages_of(firing.sessions, firing.state.session_key),
            id,
        ) is Some,
    ensures
        fire_one(firing, id).steps == firing.steps.push(FireStepView::AwaitWrite).push(
            FireStepView::Enqueue((message::find_message(firing.state.set, id)->0).content),
        ),
{
    assert(fire_one(firing, id).steps =~= firing.steps.push(FireStepView::AwaitWrite).push(
        FireStepView::Enqueue((message::find_message(firing.state.set, id)->0).content),
    ));
}

/// While messages are held back none of them is due, and at the deadline all
/// are.
pub proof fn held_messages_wait_for_the_deadline(
    grace: OverdueGrace,
    m: ScheduledMessageView,
    now: UtcInstant,
)
    requires
        m.fire_at.le(grace.cutoff),
    ensures
        state::effective(Some(grace), m).le(now) <==> grace.deadline.le(now),
{
}

/// Once no message is held back any more, the window is closed.
pub proof fn grace_ends_with_its_messages(state: StateView, id: Seq<char>)
    requires
        message::find_message(state.set, id) is Some,
    ensures
        state::without_entry(state, id).overdue_grace matches Some(g) ==> state::holds_any(
            g,
            state::without_entry(state, id).set,
        ),
{
}

/// The timer is set to the first fire time, and the ticker runs just while there
/// are messages, after whatever happens to the messages: one is added, one is
/// withdrawn or deleted, or some fire.
pub proof fn timer_follows_the_messages(
    state: StateView,
    sessions: Sessions,
    m: ScheduledMessageView,
    id: Seq<char>,
    ids: Seq<Seq<char>>,
)
    requires
        state::is_armed(state),
    ensures
        state::is_armed(with_entry(state, m)),
        state::is_armed(discarded(state, id)),
        state::is_armed(fire_and_dispatch(nothing_fired(state, sessions), ids).state),
{
}

/// Taking a message out leaves the editors of the others.
proof fn lemma_others_keep_their_editors(state: StateView, id: Seq<char>)
    requires
        ids_are_unique(state.set),
        state::all_have_editors(state),
    ensures
        ids_are_unique(state::without_entry(state, id).set),
        state::all_have_editors(state::without_entry(state, id)),
{
    let left = state::without_entry(state, id);
    removed_message_is_gone(state.set, id);
    message::lemma_index_of_id(state.set, id);
    assert(left.set == message::without_message(state.set, id));
    assert forall|i: int| 0 <= i < left.set.len() implies left.editors.contains(
        (#[trigger] left.set[i]).id,
    ) by {
        lemma_without_message(state.set, id, left.set[i]);
        assert(left.set.contains(left.set[i]));
        let k = choose|k: int| 0 <= k < state.set.len() && state.set[k] == left.set[i];
        assert(state.editors.contains(state.set[k].id));
    }
}

/// Firing leaves the editors of the messages that did not fire.
proof fn lemma_firing_keeps_editors(firing: Firing, ids: Seq<Seq<char>>)
    requires
        ids_are_unique(firing.state.set),
        state::all_have_editors(firing.state),
    ensures
        ids_are_unique(fire_all(firing, ids).state.set),
        state::all_have_editors(fire_all(firing, ids).state),
    decreases ids.len(),
{
    if ids.len() > 0 {
        lemma_firing_keeps_editors(firing, ids.drop_last());
        lemma_others_keep_their_editors(fire_all(firing, ids.drop_last()).state, ids.last());
    }
}

/// Every message has an editor to be shown in, whatever happens to the messages:
/// one is added, one is withdrawn or deleted, or some fire. What has left has
/// none.
pub proof fn messages_have_editors(
    state: StateView,
    sessions: Sessions,
    m: ScheduledMessageView,
    id: Seq<char>,
    ids: Seq<Seq<char>>,
)
    requires
        ids_are_unique(state.set),
        state::all_have_editors(state),
    ensures
        state::all_have_editors(with_entry(state, m)),
        state::all_have_editors(discarded(state, id)),
        !discarded(state, id).editors.contains(id),
        state::all_have_editors(fire_and_dispatch(nothing_fired(state, sessions), ids).state),
{
    let le = message::message_order();
    let added = with_entry(state, m);
    order::lemma_insertion_point(state.set, m, le);
    let k = order::insertion_point(state.set, m, le);
    assert forall|i: int| 0 <= i < added.set.len() implies added.editors.contains(
        (#[trigger] added.set[i]).id,
    ) by {
        if i < k {
            assert(added.set[i] == state.set[i]);
        } else if i > k {
            assert(added.set[i] == state.set[i - 1]);
        }
    }
    lemma_others_keep_their_editors(state, id);
    lemma_firing_keeps_editors(nothing_fired(state, sessions), ids);
}

/// Adding a message to a thread and deleting it leaves the thread and the store
/// as they were, where the identity is new, nothing is held back that was not
/// there, and the timer was set to the first fire time.
pub proof fn deleting_undoes_scheduling(
    state: StateView,
    sessions: Sessions,
    m: ScheduledMessageView,
)
    requires
        message::find_message(state.set, m.id) is None,
        !state.editors.contains(m.id),
        message::find_message(store::messages_of(sessions, state.session_key), m.id) is None,
        sessions.contains_key(state.session_key) ==> sessions[state.session_key].len() > 0,
        state.overdue_grace matches Some(g) ==> state::holds_any(g, state.set),
        state::is_armed(state),
    ensures
        discarded(with_entry(state, m), m.id) == state,
        store::without_stored(
            store::with_stored(sessions, state.session_key, m),
            state.session_key,
            m.id,
        ) == sessions,
{
    message::added_message_is_found(state.set, m);
    store::removing_undoes_adding(sessions, state.session_key, m);
    assert(state.editors.insert(m.id).remove(m.id) =~= state.editors);
}

/// What was to be done for the messages that fired first stays to be done first.
pub proof fn earlier_steps_stay_first(firing: Firing, ids: Seq<Seq<char>>, id: Seq<char>)
    ensures
        fire_all(firing, ids).steps.is_prefix_of(fire_all(firing, ids.push(id)).steps),
        fire_all(firing, ids.push(id)) == fire_one(fire_all(firing, ids), id),
{
    assert(ids.push(id).drop_last() =~= ids);
    let before = fire_all(firing, ids).steps;
    let after = fire_one(fire_all(firing, ids), id).steps;
    assert(after.subrange(0, before.len() as int) =~= before);
}

/// A message that is not stored is enqueued without waiting, and one that is not
/// in the set changes no step.
pub proof fn unstored_content_waits_for_nothing(firing: Firing, id: Seq<char>)
    ensures
        message::find_message(firing.state.set, id) is None ==> fire_one(firing, id).steps
            == firing.steps && fire_one(firing, id).sessions == firing.sessions,
        message::find_message(firing.state.set, id) is Some && message::find_message(
            store::messages_of(firing.sessions, firing.state.session_key),
            id,
        ) is None ==> fire_one(firing, id).steps == firing.steps.push(
            FireStepView::Enqueue((message::find_message(firing.state.set, id)->0).content),
        ),
{
    if message::find_message(firing.state.set, id) is Some && message::find_message(
        store::messages_of(firing.sessions, firing.state.session_key),
        id,
    ) is None {
        assert(fire_one(firing, id).steps =~= firing.steps.push(
            FireStepView::Enqueue((message::find_message(firing.state.set, id)->0).content),
        ));
    }
}

/// No step of firing sends the front of the queue.
proof fn lemma_firing_sends_nothing(firing: Firing, ids: Seq<Seq<char>>)
    requires
        forall|i: int| 0 <= i < firing.steps.len() ==> !(#[trigger] firing.steps[i] is DispatchFront),
    ensures
        forall|i: int|
            0 <= i < fire_all(firing, ids).steps.len() ==> !(#[trigger] fire_all(
                firing,
                ids,
            ).steps[i] is DispatchFront),
    decreases ids.len(),
{
    if ids.len() > 0 {
        lemma_firing_sends_nothing(firing, ids.drop_last());
        let before = fire_all(firing, ids.drop_last());
        let after = fire_all(firing, ids);
        assert forall|i: int| 0 <= i < after.steps.len() implies !(
        #[trigger] after.steps[i] is DispatchFront) by {
            if i < before.steps.len() {
                assert(after.steps[i] == before.steps[i]);
            }
        }
    }
}

/// Once messages have fired, the front of the queue is sent, once and last; where
/// none fired, nothing is done.
pub proof fn front_is_sent_once_and_last(
    state: StateView,
    sessions: Sessions,
    ids: Seq<Seq<char>>,
)
    ensures
        ({
            let steps = fire_and_dispatch(nothing_fired(state, sessions), ids).steps;
            &&& steps.len() > 0 ==> steps.last() is DispatchFront && steps.len() > 1
            &&& forall|i: int|
                0 <= i < steps.len() - 1 ==> !(#[trigger] steps[i] is DispatchFront)
        }),
{
    let start = nothing_fired(state, sessions);
    lemma_firing_sends_nothing(start, ids);
    let fired = fire_all(start, ids).steps;
    let steps = fire_and_dispatch(start, ids).steps;
    assert forall|i: int| 0 <= i < steps.len() - 1 implies !(
    #[trigger] steps[i] is DispatchFront) by {
        assert(steps[i] == fired[i]);
    }
}

/// A message that was scheduled is found in the set as it was given, and its own
/// session's stored messages end in it.
pub proof fn scheduled_message_is_there(
    state: StateView,
    sessions: Sessions,
    id: Seq<char>,
    content: Seq<ContentBlock>,
    fire_at: UtcInstant,
    now: UtcInstant,
)
    requires
        message::find_message(state.set, id) is None,
    ensures
        ({
            let m = new_message(id, content, fire_at, now);
            let after = with_entry(state, m);
            &&& message::find_message(after.set, id) == Some(m)
            &&& m.content == content && m.fire_at == fire_at && m.created_at == now && m.id == id
            &&& after.session_key == state.session_key
            &&& after.overdue_grace == state.overdue_grace
            &&& store::messages_of(
                store::with_stored(sessions, state.session_key, m),
                state.session_key,
            ).last() == m
        }),
{
    message::added_message_is_found(state.set, new_message(id, content, fire_at, now));
}

} // verus!
