//! The stored messages of all sessions.

use crate::schedule::clock::{UtcInstant, MIN_SECS};
use crate::schedule::message;
use crate::schedule::message::{
    position_of_id, ScheduledMessage, ScheduledMessageId, ScheduledMessageView,
};
use crate::seqs;
use crate::text;
use vstd::prelude::*;
use vstd::string::StringExecFns;

verus! {

/// The messages of sessions by key.
pub type Sessions = Map<Seq<char>, Seq<ScheduledMessageView>>;

/// A session's key with its messages.
pub type SessionEntry = (Seq<char>, Seq<ScheduledMessageView>);

/// Where the key first stands; the length if it does not.
pub open spec fn index_of_key(entries: Seq<SessionEntry>, key: Seq<char>) -> int
    decreases entries.len(),
{
    if entries.len() == 0 || entries[0].0 == key {
        0
    } else {
        1 + index_of_key(entries.skip(1), key)
    }
}

/// The index lies within the sequence, stands on the key unless it is the
/// length, and no entry before it has the key.
pub proof fn lemma_index_of_key(entries: Seq<SessionEntry>, key: Seq<char>)
    ensures
        0 <= index_of_key(entries, key) <= entries.len(),
        index_of_key(entries, key) < entries.len() ==> entries[index_of_key(entries, key)].0 == key,
        forall|j: int|
            0 <= j < index_of_key(entries, key) ==> (#[trigger] entries[j]).0 != key,
    decreases entries.len(),
{
    if entries.len() > 0 && entries[0].0 != key {
        lemma_index_of_key(entries.skip(1), key);
        assert forall|j: int| 0 <= j < index_of_key(entries, key) implies (
        #[trigger] entries[j]).0 != key by {
            if j > 0 {
                assert(entries.skip(1)[j - 1].0 != key);
            }
        }
    }
}

/// Whether no key occurs twice.
pub open spec fn keys_are_unique(entries: Seq<SessionEntry>) -> bool {
    forall|i: int, j: int|
        0 <= i < j < entries.len() ==> (#[trigger] entries[i]).0 != (#[trigger] entries[j]).0
}

/// The map that the entries make up.
pub open spec fn sessions_of(entries: Seq<SessionEntry>) -> Sessions {
    Map::new(
        |key: Seq<char>| index_of_key(entries, key) < entries.len(),
        |key: Seq<char>| entries[index_of_key(entries, key)].1,
    )
}

/// Where keys are unique, an entry's place is where its key is found.
proof fn lemma_entry_is_found(entries: Seq<SessionEntry>, i: int)
    requires
        keys_are_unique(entries),
        0 <= i < entries.len(),
    ensures
        index_of_key(entries, entries[i].0) == i,
{
    lemma_index_of_key(entries, entries[i].0);
    let k = index_of_key(entries, entries[i].0);
    if k < i {
        assert(entries[k].0 == entries[i].0);
    } else if k > i {
        assert(entries[i].0 != entries[i].0);
    }
}

/// The messages of sessions, by key. There are few of them, so they stand in a
/// list; no key stands in it twice.
#[derive(Debug, PartialEq)]
pub struct SessionMap {
    entries: Vec<(String, Vec<ScheduledMessage>)>,
}

/// The entries of a list, by their views.
pub open spec fn entry_views(entries: Seq<(String, Vec<ScheduledMessage>)>) -> Seq<SessionEntry> {
    Seq::new(entries.len(), |i: int| (entries[i].0@, text::views(entries[i].1@)))
}

impl View for SessionMap {
    type V = Sessions;

    closed spec fn view(&self) -> Sessions {
        sessions_of(entry_views(self.entries@))
    }
}

/// The copy of a list of messages.
pub fn clone_messages(messages: &Vec<ScheduledMessage>) -> (r: Vec<ScheduledMessage>)
    ensures
        text::views(r@) == text::views(messages@),
{
    let ghost all = text::views(messages@);
    let mut out: Vec<ScheduledMessage> = Vec::new();
    let mut i: usize = 0;
    assert(text::views(out@) =~= all.take(0));
    while i < messages.len()
        invariant
            i <= messages.len(),
            all == text::views(messages@),
            text::views(out@) == all.take(i as int),
        decreases messages.len() - i,
    {
        let ghost before = text::views(out@);
        let copy = messages[i].clone();
        out.push(copy);
        assert(text::views(out@) =~= before.push(copy@));
        assert(all.take(i + 1) =~= all.take(i as int).push(all[i as int]));
        i = i + 1;
    }
    assert(all.take(i as int) =~= all);
    out
}

impl Default for SessionMap {
    fn default() -> (r: SessionMap)
        ensures
            r@ == Map::<Seq<char>, Seq<ScheduledMessageView>>::empty(),
            r.wf(),
    {
        let r = SessionMap { entries: Vec::new() };
        assert(r@ =~= Map::<Seq<char>, Seq<ScheduledMessageView>>::empty());
        r
    }
}

impl SessionMap {
    /// No key stands in the list twice.
    pub closed spec fn wf(self) -> bool {
        keys_are_unique(entry_views(self.entries@))
    }

    /// The sessions in the order in which they were added.
    pub fn entries(&self) -> (r: &Vec<(String, Vec<ScheduledMessage>)>)
        ensures
            sessions_of(entry_views(r@)) == self@,
            self.wf() ==> keys_are_unique(entry_views(r@)),
    {
        &self.entries
    }

    /// Where the key stands; the length if it does not.
    fn position(&self, key: &str) -> (r: usize)
        ensures
            r == index_of_key(entry_views(self.entries@), key@),
            r <= self.entries@.len(),
    {
        let ghost all = entry_views(self.entries@);
        let mut i: usize = 0;
        assert(all.skip(0) =~= all);
        while i < self.entries.len()
            invariant
                i <= self.entries@.len(),
                all == entry_views(self.entries@),
                index_of_key(all, key@) == i + index_of_key(all.skip(i as int), key@),
            decreases self.entries@.len() - i,
        {
            assert(all.skip(i as int)[0] == all[i as int]);
            if text::same_text(self.entries[i].0.as_str(), key) {
                return i;
            }
            assert(all.skip(i as int).skip(1) =~= all.skip(i + 1));
            i = i + 1;
        }
        i
    }

    /// The messages of a session.
    pub fn get(&self, key: &str) -> (r: Option<&Vec<ScheduledMessage>>)
        ensures
            match r {
                Some(messages) => self@.contains_key(key@) && text::views(messages@) == self@[key@],
                None => !self@.contains_key(key@),
            },
    {
        let i: usize = self.position(key);
        if i < self.entries.len() {
            Some(&self.entries[i].1)
        } else {
            None
        }
    }

    /// Whether there are messages of the session.
    pub fn contains_key(&self, key: &str) -> (r: bool)
        ensures
            r == self@.contains_key(key@),
    {
        self.position(key) < self.entries.len()
    }

    /// Gives a session its messages, in place of those it had.
    pub fn insert(&mut self, key: String, messages: Vec<ScheduledMessage>)
        requires
            old(self).wf(),
        ensures
            final(self)@ == old(self)@.insert(key@, text::views(messages@)),
            final(self).wf(),
    {
        let ghost before = entry_views(self.entries@);
        let i: usize = self.position(key.as_str());
        proof {
            lemma_index_of_key(before, key@);
        }
        if i < self.entries.len() {
            self.entries[i].1 = messages;
            proof {
                let after = entry_views(self.entries@);
                assert(after =~= before.update(i as int, (key@, text::views(messages@))));
                lemma_update(before, i as int, text::views(messages@));
            }
        } else {
            self.entries.push((key, messages));
            proof {
                let after = entry_views(self.entries@);
                assert(after =~= before.push((key@, text::views(messages@))));
                lemma_push(before, key@, text::views(messages@));
            }
        }
    }

    /// Takes a session out of the map.
    pub fn remove(&mut self, key: &str)
        requires
            old(self).wf(),
        ensures
            final(self)@ == old(self)@.remove(key@),
            final(self).wf(),
    {
        let ghost before = entry_views(self.entries@);
        let i: usize = self.position(key);
        proof {
            lemma_index_of_key(before, key@);
        }
        if i < self.entries.len() {
            self.entries.remove(i);
            proof {
                let after = entry_views(self.entries@);
                assert(after =~= before.remove(i as int));
                lemma_remove(before, i as int);
            }
        } else {
            assert(old(self)@.remove(key@) =~= old(self)@);
        }
    }

    /// Whether there is no session.
    pub fn is_empty(&self) -> (r: bool)
        ensures
            r == self@.is_empty(),
    {
        proof {
            let all = entry_views(self.entries@);
            if all.len() > 0 {
                lemma_index_of_key(all, all[0].0);
                assert(index_of_key(all, all[0].0) == 0);
                assert(self@.dom().contains(all[0].0));
            } else {
                assert(self@.dom() =~= Set::<Seq<char>>::empty());
            }
        }
        self.entries.len() == 0
    }

    /// How many sessions there are.
    pub fn len(&self) -> (r: usize)
        requires
            self.wf(),
        ensures
            r == self@.len(),
            self@.dom().finite(),
    {
        proof {
            lemma_len(entry_views(self.entries@));
        }
        self.entries.len()
    }
}

/// Changing the messages of an entry changes those of its key alone.
proof fn lemma_update(entries: Seq<SessionEntry>, i: int, messages: Seq<ScheduledMessageView>)
    requires
        keys_are_unique(entries),
        0 <= i < entries.len(),
    ensures
        sessions_of(entries.update(i, (entries[i].0, messages))) == sessions_of(entries).insert(
            entries[i].0,
            messages,
        ),
        keys_are_unique(entries.update(i, (entries[i].0, messages))),
{
    let after = entries.update(i, (entries[i].0, messages));
    assert forall|k: Seq<char>| index_of_key(after, k) == index_of_key(entries, k) by {
        lemma_same_keys(entries, after, k);
    }
    lemma_entry_is_found(entries, i);
    assert(sessions_of(after) =~= sessions_of(entries).insert(entries[i].0, messages)) by {
        assert forall|k: Seq<char>| sessions_of(after).contains_key(k) implies sessions_of(after)[k]
            == sessions_of(entries).insert(entries[i].0, messages)[k] by {
            lemma_index_of_key(entries, k);
        }
    }
}

/// Entries with the same keys have each key at the same place.
proof fn lemma_same_keys(a: Seq<SessionEntry>, b: Seq<SessionEntry>, key: Seq<char>)
    requires
        a.len() == b.len(),
        forall|i: int| 0 <= i < a.len() ==> (#[trigger] a[i]).0 == b[i].0,
    ensures
        index_of_key(a, key) == index_of_key(b, key),
{
    lemma_index_of_key(a, key);
    lemma_index_of_key(b, key);
    let i = index_of_key(a, key);
    let j = index_of_key(b, key);
    if i < j {
        assert(a[i].0 == b[i].0);
    } else if j < i {
        assert(a[j].0 == b[j].0);
    }
}

/// An entry with a new key adds that key alone.
proof fn lemma_push(entries: Seq<SessionEntry>, key: Seq<char>, messages: Seq<ScheduledMessageView>)
    requires
        keys_are_unique(entries),
        index_of_key(entries, key) == entries.len(),
    ensures
        sessions_of(entries.push((key, messages))) == sessions_of(entries).insert(key, messages),
        keys_are_unique(entries.push((key, messages))),
{
    let after = entries.push((key, messages));
    lemma_index_of_key(entries, key);
    assert forall|k: Seq<char>| k != key implies #[trigger] index_of_key(after, k) == (
    if index_of_key(entries, k) < entries.len() {
        index_of_key(entries, k)
    } else {
        after.len() as int
    }) by {
        lemma_index_of_key(entries, k);
        lemma_index_of_key(after, k);
        let i = index_of_key(entries, k);
        let j = index_of_key(after, k);
        if i < entries.len() {
            assert(after[i] == entries[i]);
            if j < i {
                assert(after[j] == entries[j]);
            }
        } else if j < entries.len() {
            assert(after[j] == entries[j]);
        }
    }
    lemma_index_of_key(after, key);
    let j = index_of_key(after, key);
    assert(after[entries.len() as int].0 == key);
    if j < entries.len() {
        assert(after[j] == entries[j]);
    }
    assert forall|k: Seq<char>| sessions_of(after).contains_key(k) <==> #[trigger] sessions_of(
        entries,
    ).insert(key, messages).contains_key(k) by {
        if k != key {
            let at = index_of_key(after, k);
        }
    }
    assert forall|k: Seq<char>| sessions_of(after).contains_key(k) implies #[trigger] sessions_of(
        after,
    )[k] == sessions_of(entries).insert(key, messages)[k] by {
        if k != key {
            let at = index_of_key(after, k);
            lemma_index_of_key(entries, k);
        }
    }
    assert(sessions_of(after) =~= sessions_of(entries).insert(key, messages));
}

/// Taking an entry out takes its key out and leaves the others.
proof fn lemma_remove(entries: Seq<SessionEntry>, i: int)
    requires
        keys_are_unique(entries),
        0 <= i < entries.len(),
    ensures
        sessions_of(entries.remove(i)) == sessions_of(entries).remove(entries[i].0),
        keys_are_unique(entries.remove(i)),
{
    let after = entries.remove(i);
    let key = entries[i].0;
    assert(keys_are_unique(after)) by {
        assert forall|a: int, b: int| 0 <= a < b < after.len() implies (#[trigger] after[a]).0 != (
        #[trigger] after[b]).0 by {
            let x = if a < i {
                a
            } else {
                a + 1
            };
            let y = if b < i {
                b
            } else {
                b + 1
            };
            assert(entries[x].0 != entries[y].0);
        }
    }
    lemma_entry_is_found(entries, i);
    assert forall|k: Seq<char>| true implies #[trigger] sessions_of(after).contains_key(k)
        == sessions_of(entries).remove(key).contains_key(k) by {
        lemma_removed_key(entries, i, k);
        lemma_index_of_key(entries, k);
    }
    assert forall|k: Seq<char>| sessions_of(after).contains_key(k) implies #[trigger] sessions_of(
        after,
    )[k] == sessions_of(entries).remove(key)[k] by {
        lemma_removed_key(entries, i, k);
    }
    assert(sessions_of(after) =~= sessions_of(entries).remove(key));
}

/// Where a key stands once an entry has been taken out.
proof fn lemma_removed_key(entries: Seq<SessionEntry>, i: int, k: Seq<char>)
    requires
        keys_are_unique(entries),
        0 <= i < entries.len(),
    ensures
        ({
            let after = entries.remove(i);
            let before = index_of_key(entries, k);
            &&& k == entries[i].0 ==> index_of_key(after, k) == after.len()
            &&& k != entries[i].0 && before < entries.len() ==> index_of_key(after, k)
                < after.len() && after[index_of_key(after, k)] == entries[before]
            &&& k != entries[i].0 && before == entries.len() ==> index_of_key(after, k)
                == after.len()
        }),
{
    let after = entries.remove(i);
    let before = index_of_key(entries, k);
    let j = index_of_key(after, k);
    lemma_index_of_key(entries, k);
    lemma_index_of_key(after, k);
    let j_before = if j < i {
        j
    } else {
        j + 1
    };
    if j < after.len() {
        assert(after[j] == entries[j_before]);
        lemma_entry_is_found(entries, j_before);
        if k == entries[i].0 {
            lemma_entry_is_found(entries, i);
        }
    } else if before < entries.len() && before != i {
        let at = if before < i {
            before
        } else {
            before - 1
        };
        assert(after[at] == entries[before]);
        assert(after[at].0 != k);
    }
}

/// There are as many keys as entries.
proof fn lemma_len(entries: Seq<SessionEntry>)
    requires
        keys_are_unique(entries),
    ensures
        sessions_of(entries).dom().finite(),
        sessions_of(entries).len() == entries.len(),
    decreases entries.len(),
{
    if entries.len() == 0 {
        assert(sessions_of(entries).dom() =~= Set::<Seq<char>>::empty());
    } else {
        let rest = entries.drop_last();
        let (key, messages) = entries.last();
        assert forall|i: int, j: int| 0 <= i < j < rest.len() implies (#[trigger] rest[i]).0 != (
        #[trigger] rest[j]).0 by {
            assert(entries[i].0 != entries[j].0);
        }
        lemma_len(rest);
        lemma_index_of_key(rest, key);
        let k = index_of_key(rest, key);
        if k < rest.len() {
            assert(entries[k].0 != entries[entries.len() - 1].0);
        }
        assert(rest.push((key, messages)) =~= entries);
        lemma_push(rest, key, messages);
        assert(sessions_of(entries).dom() =~= sessions_of(rest).dom().insert(key));
    }
}

/// The version of the stored form.
pub const SCHEDULED_MESSAGES_FILE_VERSION: u32 = 1;

/// How many days a message may be overdue before it is given up.
pub const EXPIRY_DAYS: i64 = 30;

/// The stored form of all scheduled messages.
#[derive(Debug, PartialEq)]
pub struct ScheduledMessagesFile {
    pub version: u32,
    pub sessions: SessionMap,
}

/// Gives a message that fires at the cutoff or after it.
pub open spec fn not_expired(cutoff: UtcInstant) -> spec_fn(ScheduledMessageView) -> Option<
    ScheduledMessageView,
> {
    |message: ScheduledMessageView|
        if cutoff.le(message.fire_at) {
            Some(message)
        } else {
            None
        }
}

/// The messages that fire at the cutoff or after it, in order.
pub open spec fn kept(messages: Seq<ScheduledMessageView>, cutoff: UtcInstant) -> Seq<
    ScheduledMessageView,
> {
    seqs::filter_mapped(messages, not_expired(cutoff))
}

/// The sessions with the messages that fire at the cutoff or after it. A
/// session without any is left out.
pub open spec fn collected(sessions: Sessions, cutoff: UtcInstant) -> Sessions {
    Map::new(
        |key: Seq<char>| sessions.contains_key(key) && kept(sessions[key], cutoff).len() > 0,
        |key: Seq<char>| kept(sessions[key], cutoff),
    )
}

/// The instant before which messages have expired.
pub open spec fn expiry_cutoff(now: UtcInstant) -> UtcInstant {
    UtcInstant { secs: (now.secs - EXPIRY_DAYS * 86_400) as i64, nanos: now.nanos }
}

/// Whether the instant lies far enough from the calendar's start for messages
/// to have expired before it.
pub open spec fn has_cutoff(now: UtcInstant) -> bool {
    now.wf() && now.secs - EXPIRY_DAYS * 86_400 >= MIN_SECS
}

/// No more messages are kept than there were, and where as many are kept, all
/// are.
proof fn lemma_kept_len(messages: Seq<ScheduledMessageView>, cutoff: UtcInstant)
    ensures
        kept(messages, cutoff).len() <= messages.len(),
        kept(messages, cutoff).len() == messages.len() ==> kept(messages, cutoff) == messages,
    decreases messages.len(),
{
    if messages.len() > 0 {
        lemma_kept_len(messages.drop_last(), cutoff);
        if kept(messages, cutoff).len() == messages.len() {
            assert(kept(messages, cutoff) =~= messages);
        }
    }
}

/// Collecting one more session.
proof fn lemma_collected_insert(
    sessions: Sessions,
    key: Seq<char>,
    messages: Seq<ScheduledMessageView>,
    cutoff: UtcInstant,
)
    requires
        !sessions.contains_key(key),
    ensures
        collected(sessions.insert(key, messages), cutoff) == (if kept(messages, cutoff).len() > 0 {
            collected(sessions, cutoff).insert(key, kept(messages, cutoff))
        } else {
            collected(sessions, cutoff)
        }),
{
    let all = sessions.insert(key, messages);
    if kept(messages, cutoff).len() > 0 {
        assert(collected(all, cutoff) =~= collected(sessions, cutoff).insert(
            key,
            kept(messages, cutoff),
        ));
    } else {
        assert(collected(all, cutoff) =~= collected(sessions, cutoff));
    }
}

/// The messages that fire at the cutoff or after it.
fn keep_messages(messages: Vec<ScheduledMessage>, cutoff: UtcInstant) -> (r: Vec<ScheduledMessage>)
    ensures
        text::views(r@) == kept(text::views(messages@), cutoff),
{
    let ghost all = text::views(messages@);
    let ghost list = messages@;
    let ghost f = not_expired(cutoff);
    let mut out: Vec<ScheduledMessage> = Vec::new();
    assert(text::views(out@) =~= seqs::filter_mapped(all.take(0), f));
    for message in it: messages
        invariant
            it.seq() == list,
            all == text::views(list),
            f == not_expired(cutoff),
            text::views(out@) == seqs::filter_mapped(all.take(it.index() as int), f),
    {
        let ghost i = it.index() as int;
        proof {
            seqs::lemma_filter_mapped_step(all, f, i);
        }
        assert(all[i] == message@);
        if cutoff.is_at_or_before(&message.fire_at) {
            let ghost before = text::views(out@);
            out.push(message);
            assert(text::views(out@) =~= before.push(message@));
        }
    }
    assert(all.take(all.len() as int) =~= all);
    out
}

/// Drops expired messages and sessions left without any, and says whether
/// anything was dropped.
fn collect(sessions: SessionMap, cutoff: UtcInstant) -> (r: (SessionMap, bool))
    requires
        sessions.wf(),
    ensures
        r.0@ == collected(sessions@, cutoff),
        r.0.wf(),
        r.1 == (collected(sessions@, cutoff) != sessions@),
{
    let list = sessions.entries;
    let ghost all = entry_views(list@);
    let ghost given = list@;
    let mut out = SessionMap::default();
    let mut dropped = false;
    let ghost mut where_dropped: int = 0;
    assert(sessions_of(all.take(0)) =~= Map::<Seq<char>, Seq<ScheduledMessageView>>::empty());
    assert(out@ =~= collected(sessions_of(all.take(0)), cutoff));
    for entry in it: list
        invariant
            it.seq() == given,
            all == entry_views(given),
            keys_are_unique(all),
            out.wf(),
            out@ == collected(sessions_of(all.take(it.index() as int)), cutoff),
            !dropped ==> forall|j: int|
                0 <= j < it.index() ==> (#[trigger] all[j]).1.len() > 0 && kept(all[j].1, cutoff)
                    == all[j].1,
            dropped ==> 0 <= where_dropped < it.index() && (kept(
                all[where_dropped].1,
                cutoff,
            ).len() < all[where_dropped].1.len() || all[where_dropped].1.len() == 0),
    {
        let ghost i = it.index() as int;
        let (key, messages) = entry;
        let n: usize = messages.len();
        let ghost earlier = all.take(i);
        assert(all[i] == (key@, text::views(messages@)));
        proof {
            assert(all.take(i + 1) =~= earlier.push(all[i]));
            lemma_index_of_key(earlier, key@);
            let k = index_of_key(earlier, key@);
            if k < earlier.len() {
                assert(all[k].0 != all[i].0);
            }
            assert forall|a: int, b: int| 0 <= a < b < earlier.len() implies (
            #[trigger] earlier[a]).0 != (#[trigger] earlier[b]).0 by {
                assert(all[a].0 != all[b].0);
            }
            lemma_push(earlier, key@, all[i].1);
            lemma_collected_insert(sessions_of(earlier), key@, all[i].1, cutoff);
            lemma_kept_len(all[i].1, cutoff);
        }
        let remaining = keep_messages(messages, cutoff);
        assert(text::views(remaining@).len() == remaining@.len());
        if remaining.len() < n || n == 0 {
            dropped = true;
            proof {
                where_dropped = i;
            }
        }
        if remaining.len() > 0 {
            out.insert(key, remaining);
        }
    }
    assert(all.take(all.len() as int) =~= all);
    proof {
        let whole = sessions_of(all);
        let result = collected(whole, cutoff);
        if dropped {
            lemma_entry_is_found(all, where_dropped);
            let key = all[where_dropped].0;
            assert(whole.contains_key(key) && whole[key] == all[where_dropped].1);
            if result == whole {
                assert(result.contains_key(key));
                assert(result[key] == kept(whole[key], cutoff));
            }
        } else {
            assert forall|key: Seq<char>| #[trigger] whole.contains_key(
                key,
            ) implies result.contains_key(key) && result[key] == whole[key] by {
                lemma_index_of_key(all, key);
                let j = index_of_key(all, key);
                assert(all[j].1.len() > 0 && kept(all[j].1, cutoff) == all[j].1);
            }
            assert(result =~= whole);
        }
    }
    (out, dropped)
}

/// Drops the messages whose fire time passed more than thirty days ago, then
/// the sessions left without any. What counts is the fire time, not the time of
/// creation: a message that was scheduled long in advance stays.
pub fn gc(file: ScheduledMessagesFile, now: UtcInstant) -> (r: ScheduledMessagesFile)
    requires
        file.sessions.wf(),
        has_cutoff(now),
    ensures
        r.version == file.version,
        r.sessions@ == collected(file.sessions@, expiry_cutoff(now)),
        r.sessions.wf(),
{
    let cutoff = UtcInstant { secs: now.secs - EXPIRY_DAYS * 86_400, nanos: now.nanos };
    let (sessions, dropped) = collect(file.sessions, cutoff);
    ScheduledMessagesFile { version: file.version, sessions }
}

/// The store of every scheduled message, across sessions. It is read once;
/// afterwards what it holds in memory counts, and is written back after every
/// change.
#[derive(Debug)]
pub struct ScheduledMessageStore {
    file: ScheduledMessagesFile,
}

impl View for ScheduledMessageStore {
    type V = Sessions;

    closed spec fn view(&self) -> Sessions {
        self.file.sessions@
    }
}

/// The sessions that a stored file gives: its own, if it is there and of the
/// version that is understood, and none otherwise.
pub open spec fn stored_sessions(file: Option<ScheduledMessagesFile>) -> Sessions {
    match file {
        Some(f) => if f.version == SCHEDULED_MESSAGES_FILE_VERSION {
            f.sessions@
        } else {
            Map::empty()
        },
        None => Map::empty(),
    }
}

/// The messages of a session; none if it has none.
pub open spec fn messages_of(sessions: Sessions, key: Seq<char>) -> Seq<ScheduledMessageView> {
    if sessions.contains_key(key) {
        sessions[key]
    } else {
        Seq::empty()
    }
}

/// The sessions with a message added to one.
pub open spec fn with_stored(
    sessions: Sessions,
    key: Seq<char>,
    message: ScheduledMessageView,
) -> Sessions {
    sessions.insert(key, messages_of(sessions, key).push(message))
}

/// The sessions with a message taken out of one; a session left without any is
/// dropped.
pub open spec fn without_stored(sessions: Sessions, key: Seq<char>, id: Seq<char>) -> Sessions {
    let messages = messages_of(sessions, key);
    if message::find_message(messages, id) is None {
        sessions
    } else {
        let rest = message::without_message(messages, id);
        if rest.len() == 0 {
            sessions.remove(key)
        } else {
            sessions.insert(key, rest)
        }
    }
}

impl ScheduledMessageStore {
    /// Every key stands in the store once.
    pub closed spec fn wf(self) -> bool {
        self.file.sessions.wf() && self.file.version == SCHEDULED_MESSAGES_FILE_VERSION
    }

    /// The store that a stored file gives, without what has expired, and
    /// whether it must be written back. `None` stands for a file that is
    /// missing or cannot be read; it, and one of another version, give an empty
    /// store, and stay as they are.
    pub fn load(file: Option<ScheduledMessagesFile>, now: UtcInstant) -> (r: (
        ScheduledMessageStore,
        bool,
    ))
        requires
            file matches Some(f) ==> f.sessions.wf(),
            has_cutoff(now),
        ensures
            r.0@ == collected(stored_sessions(file), expiry_cutoff(now)),
            r.0.wf(),
            r.1 == (collected(stored_sessions(file), expiry_cutoff(now)) != stored_sessions(file)),
    {
        let sessions = match file {
            Some(f) => {
                if f.version == SCHEDULED_MESSAGES_FILE_VERSION {
                    f.sessions
                } else {
                    SessionMap::default()
                }
            },
            None => SessionMap::default(),
        };
        let cutoff = UtcInstant { secs: now.secs - EXPIRY_DAYS * 86_400, nanos: now.nanos };
        let (sessions, dropped) = collect(sessions, cutoff);
        let file = ScheduledMessagesFile { version: SCHEDULED_MESSAGES_FILE_VERSION, sessions };
        (ScheduledMessageStore { file }, dropped)
    }

    /// What is to be written back.
    pub fn file(&self) -> (r: &ScheduledMessagesFile)
        requires
            self.wf(),
        ensures
            r.sessions@ == self@,
            r.sessions.wf(),
            r.version == SCHEDULED_MESSAGES_FILE_VERSION,
    {
        &self.file
    }

    /// A copy of the messages of a session.
    pub fn messages_for(&self, session_key: &str) -> (r: Vec<ScheduledMessage>)
        ensures
            text::views(r@) == messages_of(self@, session_key@),
    {
        match self.file.sessions.get(session_key) {
            Some(messages) => clone_messages(messages),
            None => {
                let none: Vec<ScheduledMessage> = Vec::new();
                assert(text::views(none@) =~= Seq::<ScheduledMessageView>::empty());
                none
            },
        }
    }

    /// Adds a message to a session.
    pub fn add(&mut self, session_key: String, message: ScheduledMessage)
        requires
            old(self).wf(),
        ensures
            final(self)@ == with_stored(old(self)@, session_key@, message@),
            final(self).wf(),
    {
        let mut messages = self.messages_for(session_key.as_str());
        let ghost before = text::views(messages@);
        messages.push(message);
        assert(text::views(messages@) =~= before.push(message@));
        self.file.sessions.insert(session_key, messages);
    }

    /// Removes a message from a session.
    pub fn remove(&mut self, session_key: &str, id: &ScheduledMessageId) -> (r: Option<
        ScheduledMessage,
    >)
        requires
            old(self).wf(),
        ensures
            text::option_view(r) == message::find_message(
                messages_of(old(self)@, session_key@),
                id@,
            ),
            final(self)@ == without_stored(old(self)@, session_key@, id@),
            final(self).wf(),
    {
        let mut messages = self.messages_for(session_key);
        let ghost before = text::views(messages@);
        let i: usize = position_of_id(&messages, id);
        proof {
            message::lemma_index_of_id(before, id@);
        }
        if i >= messages.len() {
            return None;
        }
        assert(before[i as int] == messages@[i as int]@);
        let removed = messages.remove(i);
        assert(text::views(messages@) =~= before.remove(i as int));
        assert(text::views(messages@).len() == messages@.len());
        if messages.len() == 0 {
            self.file.sessions.remove(session_key);
        } else {
            self.file.sessions.insert(session_key.to_owned(), messages);
        }
        Some(removed)
    }
}

/// The key of a thread's session.
pub open spec fn key_of_session(agent_id: Seq<char>, session_id: Seq<char>) -> Seq<char> {
    agent_id + "|"@ + session_id
}

/// The key under which a thread's messages are stored.
pub fn session_key(agent_id: &str, session_id: &str) -> (r: String)
    ensures
        r@ == key_of_session(agent_id@, session_id@),
{
    let mut key = agent_id.to_owned();
    key.append("|");
    key.append(session_id);
    key
}

/// Of the messages that are kept at one cutoff, a later one keeps those that it
/// keeps of all.
proof fn lemma_kept_later(
    messages: Seq<ScheduledMessageView>,
    cutoff: UtcInstant,
    later: UtcInstant,
)
    requires
        cutoff.le(later),
    ensures
        kept(kept(messages, cutoff), later) == kept(messages, later),
    decreases messages.len(),
{
    if messages.len() > 0 {
        let rest = messages.drop_last();
        lemma_kept_later(rest, cutoff, later);
        if cutoff.le(messages.last().fire_at) {
            assert(kept(rest, cutoff).push(messages.last()).drop_last() =~= kept(rest, cutoff));
        }
    }
}

/// Collecting at two instants, one after the other, comes to collecting at the
/// later one.
pub proof fn later_collection_covers_the_earlier(
    sessions: Sessions,
    cutoff: UtcInstant,
    later: UtcInstant,
)
    requires
        cutoff.le(later),
    ensures
        collected(collected(sessions, cutoff), later) == collected(sessions, later),
{
    let once = collected(sessions, cutoff);
    let twice = collected(once, later);
    let direct = collected(sessions, later);
    assert forall|key: Seq<char>| #[trigger] sessions.contains_key(key) implies kept(
        kept(sessions[key], cutoff),
        later,
    ) == kept(sessions[key], later) by {
        lemma_kept_later(sessions[key], cutoff, later);
    }
    assert forall|key: Seq<char>| twice.contains_key(key) <==> #[trigger] direct.contains_key(key) by {
        if sessions.contains_key(key) && !once.contains_key(key) {
            assert(kept(sessions[key], cutoff) =~= Seq::<ScheduledMessageView>::empty());
            assert(kept(kept(sessions[key], cutoff), later).len() == 0);
        }
    }
    assert forall|key: Seq<char>| direct.contains_key(key) implies #[trigger] twice[key]
        == direct[key] by {
        assert(twice.contains_key(key));
    }
    assert(twice =~= direct);
}

/// A file that is collected at one time and again at a later one holds what
/// collecting it at the later time alone leaves.
pub proof fn collecting_earlier_makes_no_difference(
    sessions: Sessions,
    first: UtcInstant,
    second: UtcInstant,
)
    requires
        has_cutoff(first),
        has_cutoff(second),
        first.le(second),
    ensures
        collected(collected(sessions, expiry_cutoff(first)), expiry_cutoff(second)) == collected(
            sessions,
            expiry_cutoff(second),
        ),
{
    later_collection_covers_the_earlier(sessions, expiry_cutoff(first), expiry_cutoff(second));
}

/// Collecting a second time drops nothing.
pub proof fn collecting_twice_drops_nothing(sessions: Sessions, cutoff: UtcInstant)
    ensures
        collected(collected(sessions, cutoff), cutoff) == collected(sessions, cutoff),
{
    later_collection_covers_the_earlier(sessions, cutoff, cutoff);
}

/// A message outlives collection exactly where it fires at the cutoff or after
/// it, however long ago it was created.
pub proof fn collection_goes_by_fire_time(
    sessions: Sessions,
    cutoff: UtcInstant,
    key: Seq<char>,
    message: ScheduledMessageView,
)
    requires
        messages_of(sessions, key).contains(message),
    ensures
        messages_of(collected(sessions, cutoff), key).contains(message) <==> cutoff.le(
            message.fire_at,
        ),
{
    let all = sessions[key];
    let f = not_expired(cutoff);
    seqs::filter_mapped_holds(all, f, message);
    let i = choose|i: int| 0 <= i < all.len() && all[i] == message;
    if cutoff.le(message.fire_at) {
        assert(f(all[i]) == Some(message));
        assert(kept(all, cutoff).contains(message));
    } else if kept(all, cutoff).contains(message) {
        let j = choose|j: int| 0 <= j < all.len() && f(#[trigger] all[j]) == Some(message);
    }
}

/// Whether every session has messages.
pub open spec fn none_is_empty(sessions: Sessions) -> bool {
    forall|key: Seq<char>| #[trigger]
        sessions.contains_key(key) ==> sessions[key].len() > 0
}

/// Neither adding a message nor removing one leaves a session without messages
/// in the store.
pub proof fn no_session_is_left_empty(
    sessions: Sessions,
    key: Seq<char>,
    message: ScheduledMessageView,
    id: Seq<char>,
)
    requires
        none_is_empty(sessions),
    ensures
        none_is_empty(with_stored(sessions, key, message)),
        none_is_empty(without_stored(sessions, key, id)),
{
}

/// No session is left without messages by collection.
pub proof fn collection_leaves_no_empty_session(sessions: Sessions, cutoff: UtcInstant)
    ensures
        none_is_empty(collected(sessions, cutoff)),
{
}

/// A change to one session leaves every other as it was.
pub proof fn sessions_are_isolated(
    sessions: Sessions,
    key: Seq<char>,
    other: Seq<char>,
    message: ScheduledMessageView,
    id: Seq<char>,
)
    requires
        key != other,
    ensures
        messages_of(with_stored(sessions, key, message), other) == messages_of(sessions, other),
        messages_of(without_stored(sessions, key, id), other) == messages_of(sessions, other),
{
}

/// A stored message is read back, after those that were there before.
pub proof fn stored_message_is_read_back(
    sessions: Sessions,
    key: Seq<char>,
    message: ScheduledMessageView,
)
    ensures
        messages_of(with_stored(sessions, key, message), key) == messages_of(sessions, key).push(
            message,
        ),
{
}

/// A message that is not there before is found where it was appended.
proof fn lemma_index_after_push(
    messages: Seq<ScheduledMessageView>,
    message: ScheduledMessageView,
)
    requires
        message::find_message(messages, message.id) is None,
    ensures
        message::index_of_id(messages.push(message), message.id) == messages.len(),
{
    let all = messages.push(message);
    message::lemma_index_of_id(messages, message.id);
    message::lemma_index_of_id(all, message.id);
    let i = message::index_of_id(all, message.id);
    assert(all[messages.len() as int].id == message.id);
    if i < messages.len() {
        assert(all[i] == messages[i]);
    }
}

/// Removing a message that was just added undoes the addition, where every
/// session that is there has messages.
pub proof fn removing_undoes_adding(
    sessions: Sessions,
    key: Seq<char>,
    message: ScheduledMessageView,
)
    requires
        message::find_message(messages_of(sessions, key), message.id) is None,
        sessions.contains_key(key) ==> sessions[key].len() > 0,
    ensures
        without_stored(with_stored(sessions, key, message), key, message.id) == sessions,
{
    let messages = messages_of(sessions, key);
    lemma_index_after_push(messages, message);
    assert(messages.push(message).remove(messages.len() as int) =~= messages);
    let added = with_stored(sessions, key, message);
    let after = without_stored(added, key, message.id);
    assert(messages_of(added, key) == messages.push(message));
    if messages.len() == 0 {
        assert(after =~= sessions);
    } else {
        assert(after =~= sessions);
    }
}

/// Sessions of different threads have different keys, where agent ids hold no
/// bar.
pub proof fn threads_have_their_own_keys(
    agent: Seq<char>,
    session: Seq<char>,
    other_agent: Seq<char>,
    other_session: Seq<char>,
)
    requires
        !agent.contains('|'),
        !other_agent.contains('|'),
        key_of_session(agent, session) == key_of_session(other_agent, other_session),
    ensures
        agent == other_agent,
        session == other_session,
{
    reveal_strlit("|");
    let a = key_of_session(agent, session);
    let b = key_of_session(other_agent, other_session);
    let m: int = agent.len() as int;
    let n: int = other_agent.len() as int;
    assert(a[m] == '|');
    assert(b[n] == '|');
    if m < n {
        assert(b[m] == other_agent[m]);
        assert(other_agent.contains(other_agent[m]));
    } else if n < m {
        assert(a[n] == agent[n]);
        assert(agent.contains(agent[n]));
    }
    assert(a.take(m) =~= agent);
    assert(b.take(n) =~= other_agent);
    assert(a.skip(m + 1) =~= session);
    assert(b.skip(n + 1) =~= other_session);
}

/// A stored message is given up exactly where its fire time lies more than thirty
/// days before now.
pub proof fn messages_expire_after_thirty_days(
    sessions: Sessions,
    now: UtcInstant,
    key: Seq<char>,
    message: ScheduledMessageView,
)
    requires
        has_cutoff(now),
        message.fire_at.wf(),
        messages_of(sessions, key).contains(message),
    ensures
        messages_of(collected(sessions, expiry_cutoff(now)), key).contains(message) <==> now.secs
            * 1_000_000_000 + now.nanos - (message.fire_at.secs * 1_000_000_000
            + message.fire_at.nanos) <= 30 * 24 * 3_600 * 1_000_000_000,
{
    collection_goes_by_fire_time(sessions, expiry_cutoff(now), key, message);
}

/// What is kept of a session keeps its order, and is decided message by message.
pub proof fn kept_messages_keep_their_order(
    a: Seq<ScheduledMessageView>,
    b: Seq<ScheduledMessageView>,
    cutoff: UtcInstant,
)
    ensures
        kept(a + b, cutoff) == kept(a, cutoff) + kept(b, cutoff),
{
    seqs::filter_mapped_splits(a, b, not_expired(cutoff));
}

/// Collecting adds no session and no message.
pub proof fn collection_adds_nothing(
    sessions: Sessions,
    cutoff: UtcInstant,
    key: Seq<char>,
    message: ScheduledMessageView,
)
    requires
        messages_of(collected(sessions, cutoff), key).contains(message),
    ensures
        messages_of(sessions, key).contains(message),
        cutoff.le(message.fire_at),
{
    let all = sessions[key];
    let f = not_expired(cutoff);
    seqs::filter_mapped_holds(all, f, message);
    let i = choose|i: int| 0 <= i < all.len() && f(#[trigger] all[i]) == Some(message);
    assert(all[i] == message);
}

/// A file of the first version gives its sessions; a file of another version, or
/// none, gives none.
pub proof fn only_the_known_version_is_read(file: ScheduledMessagesFile)
    ensures
        file.version == 1 ==> stored_sessions(Some(file)) == file.sessions@,
        file.version != 1 ==> stored_sessions(Some(file)).is_empty(),
        stored_sessions(None).is_empty(),
{
}

/// The key of a thread is its agent and its session with a bar between them, and
/// the session is read back from it where the agent's name holds no bar.
pub proof fn sessions_are_named_in_their_keys(agent: Seq<char>, session: Seq<char>)
    requires
        !agent.contains('|'),
    ensures
        text::split_at_pattern(key_of_session(agent, session), seq!['|']) == Some((agent, session)),
{
    reveal_strlit("|");
    assert("|"@ =~= seq!['|']);
    text::part_without_the_character_is_split_off(agent, '|', session);
}

} // verus!
