//! Scheduled messages, and the ordered set of one session's messages.

use crate::order;
use crate::order::Ordered;
use crate::schedule::clock;
use crate::schedule::clock::UtcInstant;
use crate::seqs;
use crate::text;
use agent_client_protocol::schema::v1::ContentBlock;
use vstd::prelude::*;
use vstd::std_specs::iter::IteratorSpec;

verus! {

/// A block of a message's content. What is in it is the agent protocol's
/// matter; a scheduled message carries it unread.
#[verifier::external_type_specification]
#[verifier::external_body]
pub struct ExContentBlock(ContentBlock);

/// `ContentBlock`'s `clone`, which the protocol crate derives, gives an equal
/// block.
pub assume_specification[ <ContentBlock as Clone>::clone ](b: &ContentBlock) -> (r: ContentBlock)
    ensures
        r == *b,
;

/// Whether `c` is a hexadecimal digit in small letters.
pub open spec fn is_hex(c: char) -> bool {
    '0' <= c <= '9' || 'a' <= c <= 'f'
}

/// Whether `s` is the text of a random UUID: thirty-two hexadecimal digits in
/// groups of eight, four, four, four and twelve with hyphens between them, of
/// which two tell the version and the variant.
pub open spec fn is_random_uuid(s: Seq<char>) -> bool {
    &&& s.len() == 36
    &&& s[8] == '-' && s[13] == '-' && s[18] == '-' && s[23] == '-'
    &&& forall|i: int|
        0 <= i < 36 && i != 8 && i != 13 && i != 18 && i != 23 ==> is_hex(#[trigger] s[i])
    &&& s[14] == '4'
    &&& s[19] == '8' || s[19] == '9' || s[19] == 'a' || s[19] == 'b'
}

/// Calls `uuid::Uuid::new_v4` and writes the result in its hyphenated form.
/// Claimed of it: the text has the form of a random UUID. Which one it is is
/// chance, and that two differ is no certainty, so neither is said.
#[verifier::external_body]
fn random_uuid() -> (r: String)
    ensures
        is_random_uuid(r@),
{
    uuid::Uuid::new_v4().to_string()
}

/// The identity of a scheduled message. It outlives the process, since messages
/// are stored.
#[derive(Debug, PartialEq, Eq, Hash)]
pub struct ScheduledMessageId(String);

impl View for ScheduledMessageId {
    type V = Seq<char>;

    closed spec fn view(&self) -> Seq<char> {
        self.0@
    }
}

impl Clone for ScheduledMessageId {
    fn clone(&self) -> (r: ScheduledMessageId)
        ensures
            r@ == self@,
    {
        ScheduledMessageId(self.0.clone())
    }
}

impl ScheduledMessageId {
    /// A fresh identity.
    pub fn new() -> (r: ScheduledMessageId)
        ensures
            is_random_uuid(r@),
    {
        ScheduledMessageId(random_uuid())
    }

    /// The identity that a stored text stands for.
    pub fn from_text(s: String) -> (r: ScheduledMessageId)
        ensures
            r@ == s@,
    {
        ScheduledMessageId(s)
    }

    /// The identity as text.
    pub fn as_text(&self) -> (r: &str)
        ensures
            r@ == self@,
    {
        self.0.as_str()
    }

    /// Whether the two identities are the same.
    pub fn same(&self, other: &ScheduledMessageId) -> (r: bool)
        ensures
            r == (self@ == other@),
    {
        self.0 == other.0
    }
}

impl Default for ScheduledMessageId {
    fn default() -> (r: ScheduledMessageId)
        ensures
            is_random_uuid(r@),
    {
        ScheduledMessageId::new()
    }
}

/// A message that is to be sent at `fire_at`.
#[derive(Debug, PartialEq)]
pub struct ScheduledMessage {
    pub id: ScheduledMessageId,
    pub content: Vec<ContentBlock>,
    pub fire_at: UtcInstant,
    pub created_at: UtcInstant,
}

/// What a [`ScheduledMessage`] says.
#[verifier::ext_equal]
pub struct ScheduledMessageView {
    pub id: Seq<char>,
    pub content: Seq<ContentBlock>,
    pub fire_at: UtcInstant,
    pub created_at: UtcInstant,
}

impl View for ScheduledMessage {
    type V = ScheduledMessageView;

    open spec fn view(&self) -> ScheduledMessageView {
        ScheduledMessageView {
            id: self.id@,
            content: self.content@,
            fire_at: self.fire_at,
            created_at: self.created_at,
        }
    }
}

impl Clone for ScheduledMessage {
    fn clone(&self) -> (r: ScheduledMessage)
        ensures
            r@ == self@,
    {
        let content = self.content.clone();
        assert(content@ =~= self.content@);
        ScheduledMessage {
            id: self.id.clone(),
            content,
            fire_at: self.fire_at,
            created_at: self.created_at,
        }
    }
}

/// The order of messages: by fire time, and by the time of creation where that
/// is the same.
pub open spec fn message_order() -> spec_fn(ScheduledMessageView, ScheduledMessageView) -> bool {
    |a: ScheduledMessageView, b: ScheduledMessageView|
        if a.fire_at == b.fire_at {
            a.created_at.le(b.created_at)
        } else {
            a.fire_at.le(b.fire_at)
        }
}

impl Ordered for ScheduledMessage {
    open spec fn order() -> spec_fn(ScheduledMessageView, ScheduledMessageView) -> bool {
        message_order()
    }

    proof fn order_is_total() {
    }

    fn stands_before(&self, other: &ScheduledMessage) -> (r: bool) {
        if self.fire_at == other.fire_at {
            self.created_at.is_at_or_before(&other.created_at)
        } else {
            self.fire_at.is_at_or_before(&other.fire_at)
        }
    }
}

/// Where the message with the identity first stands; the length if it does not.
pub open spec fn index_of_id(messages: Seq<ScheduledMessageView>, id: Seq<char>) -> int
    decreases messages.len(),
{
    if messages.len() == 0 || messages[0].id == id {
        0
    } else {
        1 + index_of_id(messages.skip(1), id)
    }
}

/// The index lies within the sequence, stands on the identity unless it is the
/// length, and no message before it has the identity.
pub proof fn lemma_index_of_id(messages: Seq<ScheduledMessageView>, id: Seq<char>)
    ensures
        0 <= index_of_id(messages, id) <= messages.len(),
        index_of_id(messages, id) < messages.len() ==> messages[index_of_id(messages, id)].id == id,
        forall|j: int|
            0 <= j < index_of_id(messages, id) ==> (#[trigger] messages[j]).id != id,
    decreases messages.len(),
{
    if messages.len() > 0 && messages[0].id != id {
        lemma_index_of_id(messages.skip(1), id);
        assert forall|j: int| 0 <= j < index_of_id(messages, id) implies (
        #[trigger] messages[j]).id != id by {
            if j > 0 {
                assert(messages.skip(1)[j - 1].id != id);
            }
        }
    }
}

/// The message with the identity; the first, if there were several.
pub open spec fn find_message(messages: Seq<ScheduledMessageView>, id: Seq<char>) -> Option<
    ScheduledMessageView,
> {
    let i = index_of_id(messages, id);
    if i < messages.len() {
        Some(messages[i])
    } else {
        None
    }
}

/// The messages without the one with the identity.
pub open spec fn without_message(messages: Seq<ScheduledMessageView>, id: Seq<char>) -> Seq<
    ScheduledMessageView,
> {
    let i = index_of_id(messages, id);
    if i < messages.len() {
        messages.remove(i)
    } else {
        messages
    }
}

/// Where the message with the identity first stands; the length if it does not.
pub fn position_of_id(messages: &Vec<ScheduledMessage>, id: &ScheduledMessageId) -> (r: usize)
    ensures
        r == index_of_id(text::views(messages@), id@),
        r <= messages@.len(),
{
    let ghost all = text::views(messages@);
    let mut i: usize = 0;
    assert(all.skip(0) =~= all);
    while i < messages.len()
        invariant
            i <= messages@.len(),
            all == text::views(messages@),
            index_of_id(all, id@) == i + index_of_id(all.skip(i as int), id@),
        decreases messages@.len() - i,
    {
        assert(all.skip(i as int)[0] == messages@[i as int]@);
        if messages[i].id.same(id) {
            return i;
        }
        assert(all.skip(i as int).skip(1) =~= all.skip(i + 1));
        i = i + 1;
    }
    i
}

/// Gives the identity of a message whose fire time has come.
pub open spec fn due_at(now: UtcInstant) -> spec_fn(ScheduledMessageView) -> Option<Seq<char>> {
    |message: ScheduledMessageView|
        if message.fire_at.le(now) {
            Some(message.id)
        } else {
            None
        }
}

/// One session's scheduled messages, ordered by fire time; of messages with the
/// same fire time, the one that was created first comes first.
#[derive(Debug)]
pub struct ScheduledMessageSet {
    entries: Vec<ScheduledMessage>,
}

impl View for ScheduledMessageSet {
    type V = Seq<ScheduledMessageView>;

    closed spec fn view(&self) -> Seq<ScheduledMessageView> {
        text::views(self.entries@)
    }
}

impl Default for ScheduledMessageSet {
    fn default() -> (r: ScheduledMessageSet)
        ensures
            r@ == Seq::<ScheduledMessageView>::empty(),
            r.wf(),
    {
        let r = ScheduledMessageSet { entries: Vec::new() };
        assert(r@ =~= Seq::<ScheduledMessageView>::empty());
        r
    }
}

impl ScheduledMessageSet {
    /// The messages are in order.
    pub open spec fn wf(self) -> bool {
        order::sorted(self@, message_order())
    }

    /// Adds a message where it belongs: behind every message that fires before
    /// it or that fires with it and was not created after it.
    pub fn add(&mut self, message: ScheduledMessage)
        requires
            old(self).wf(),
        ensures
            final(self)@ == order::inserted(old(self)@, message@, message_order()),
            final(self).wf(),
    {
        order::insert_sorted(&mut self.entries, message);
    }

    /// Removes the message with the identity.
    pub fn remove(&mut self, id: &ScheduledMessageId) -> (r: Option<ScheduledMessage>)
        requires
            old(self).wf(),
        ensures
            text::option_view(r) == find_message(old(self)@, id@),
            final(self)@ == without_message(old(self)@, id@),
            final(self).wf(),
    {
        let i: usize = position_of_id(&self.entries, id);
        let ghost before = self@;
        if i < self.entries.len() {
            assert(before[i as int] == self.entries@[i as int]@);
            let removed = self.entries.remove(i);
            assert(self@ =~= before.remove(i as int));
            proof {
                lemma_remove_keeps_order(before, i as int);
            }
            Some(removed)
        } else {
            None
        }
    }

    /// The message with the identity.
    pub fn get(&self, id: &ScheduledMessageId) -> (r: Option<&ScheduledMessage>)
        ensures
            text::option_view(r) == find_message(self@, id@),
    {
        let i: usize = position_of_id(&self.entries, id);
        if i < self.entries.len() {
            assert(self@[i as int] == self.entries@[i as int]@);
            Some(&self.entries[i])
        } else {
            None
        }
    }

    /// The messages in order.
    pub fn entries(&self) -> (r: &Vec<ScheduledMessage>)
        ensures
            text::views(r@) == self@,
    {
        &self.entries
    }

    /// Walks over the messages in order.
    pub fn iter(&self) -> (r: std::slice::Iter<'_, ScheduledMessage>)
        ensures
            r.remaining().len() == self@.len(),
            forall|i: int| 0 <= i < self@.len() ==> (#[trigger] r.remaining()[i])@ == self@[i],
    {
        self.entries.as_slice().iter()
    }

    /// Whether there is no message.
    pub fn is_empty(&self) -> (r: bool)
        ensures
            r == (self@.len() == 0),
    {
        self.entries.len() == 0
    }

    /// How many messages there are.
    pub fn len(&self) -> (r: usize)
        ensures
            r == self@.len(),
    {
        self.entries.len()
    }

    /// The identities of the messages whose fire time has come, in the order in
    /// which they fire.
    pub fn due_entries(&self, now: UtcInstant) -> (r: Vec<ScheduledMessageId>)
        requires
            self.wf(),
        ensures
            text::views(r@) == seqs::filter_mapped(self@, due_at(now)),
    {
        let ghost all = self@;
        let mut out: Vec<ScheduledMessageId> = Vec::new();
        let mut i: usize = 0;
        assert(text::views(out@) =~= seqs::filter_mapped(all.take(0), due_at(now)));
        while i < self.entries.len()
            invariant
                i <= self.entries@.len(),
                all == self@,
                self.wf(),
                text::views(out@) == seqs::filter_mapped(all.take(i as int), due_at(now)),
            decreases self.entries@.len() - i,
        {
            proof {
                seqs::lemma_filter_mapped_step(all, due_at(now), i as int);
            }
            assert(all[i as int] == self.entries@[i as int]@);
            if !self.entries[i].fire_at.is_at_or_before(&now) {
                proof {
                    lemma_rest_is_not_due(all, now, i as int, all.len() as int);
                    assert(all.take(all.len() as int) =~= all);
                }
                return out;
            }
            let ghost before = text::views(out@);
            let id = self.entries[i].id.clone();
            out.push(id);
            assert(text::views(out@) =~= before.push(id@));
            i = i + 1;
        }
        assert(all.take(i as int) =~= all);
        out
    }

    /// When the first message fires.
    pub fn next_fire_at(&self) -> (r: Option<UtcInstant>)
        ensures
            r == (if self@.len() > 0 {
                Some(self@[0].fire_at)
            } else {
                None
            }),
    {
        if self.entries.len() > 0 {
            assert(self@[0] == self.entries@[0]@);
            Some(self.entries[0].fire_at)
        } else {
            None
        }
    }
}

/// Taking a message out leaves the others in order.
proof fn lemma_remove_keeps_order(s: Seq<ScheduledMessageView>, i: int)
    requires
        order::sorted(s, message_order()),
        0 <= i < s.len(),
    ensures
        order::sorted(s.remove(i), message_order()),
{
    let r = s.remove(i);
    let le = message_order();
    assert forall|a: int, b: int| 0 <= a <= b < r.len() implies #[trigger] le(r[a], r[b]) by {
        let x = if a < i {
            a
        } else {
            a + 1
        };
        let y = if b < i {
            b
        } else {
            b + 1
        };
        assert(le(s[x], s[y]));
    }
}

/// Behind a message that is not due none is.
proof fn lemma_rest_is_not_due(s: Seq<ScheduledMessageView>, now: UtcInstant, i: int, n: int)
    requires
        order::sorted(s, message_order()),
        0 <= i < s.len(),
        i <= n <= s.len(),
        !s[i].fire_at.le(now),
    ensures
        seqs::filter_mapped(s.take(n), due_at(now)) == seqs::filter_mapped(s.take(i), due_at(now)),
    decreases n,
{
    if n > i {
        lemma_rest_is_not_due(s, now, i, n - 1);
        seqs::lemma_filter_mapped_step(s, due_at(now), n - 1);
        let le = message_order();
        assert(le(s[i], s[n - 1]));
    }
}

/// The first message of a set fires no later than any other.
pub proof fn first_message_fires_first(s: Seq<ScheduledMessageView>, i: int)
    requires
        order::sorted(s, message_order()),
        0 <= i < s.len(),
    ensures
        s[0].fire_at.le(s[i].fire_at),
{
    let le = message_order();
    assert(le(s[0], s[i]));
}

/// The messages of a set fire in its order, and of those that fire together the
/// one created first goes first.
pub proof fn messages_fire_in_order(s: Seq<ScheduledMessageView>, i: int, j: int)
    requires
        order::sorted(s, message_order()),
        0 <= i < j < s.len(),
    ensures
        s[i].fire_at.le(s[j].fire_at),
        s[i].fire_at == s[j].fire_at ==> s[i].created_at.le(s[j].created_at),
{
    let le = message_order();
    assert(le(s[i], s[j]));
}

/// A message that was added is found.
pub proof fn added_message_is_found(s: Seq<ScheduledMessageView>, message: ScheduledMessageView)
    requires
        find_message(s, message.id) is None,
    ensures
        find_message(order::inserted(s, message, message_order()), message.id) == Some(message),
        without_message(order::inserted(s, message, message_order()), message.id) == s,
{
    let le = message_order();
    let r = order::inserted(s, message, le);
    let k = order::insertion_point(s, message, le);
    order::lemma_insertion_point(s, message, le);
    lemma_index_of_id(s, message.id);
    lemma_index_of_id(r, message.id);
    let i = index_of_id(r, message.id);
    assert(r[k] == message);
    if i < k {
        assert(r[i] == s[i]);
    } else if i > k {
        assert(r[k].id != message.id);
    }
    assert(r.remove(k) =~= s);
}

/// Adding a message leaves every other one to be found as before.
pub proof fn adding_leaves_others(
    s: Seq<ScheduledMessageView>,
    message: ScheduledMessageView,
    id: Seq<char>,
)
    requires
        id != message.id,
    ensures
        find_message(order::inserted(s, message, message_order()), id) == find_message(s, id),
{
    let le = message_order();
    let r = order::inserted(s, message, le);
    let k = order::insertion_point(s, message, le);
    order::lemma_insertion_point(s, message, le);
    lemma_index_of_id(s, id);
    lemma_index_of_id(r, id);
    let i = index_of_id(s, id);
    let j = index_of_id(r, id);
    let i_in_r = if i < k {
        i
    } else {
        i + 1
    };
    if i < s.len() {
        assert(r[i_in_r] == s[i]);
        if j > i_in_r {
            assert(r[i_in_r].id != id);
        } else if j < i_in_r {
            if j < k {
                assert(r[j] == s[j]);
            } else if j > k {
                assert(r[j] == s[j - 1]);
            }
        }
    } else if j < r.len() {
        if j < k {
            assert(r[j] == s[j]);
            assert(s[j].id != id);
        } else if j > k {
            assert(r[j] == s[j - 1]);
            assert(s[j - 1].id != id);
        }
    }
}

/// Of a set, the messages that are due are the first ones: those whose fire time
/// has come by the given instant, in order and each once.
pub proof fn due_messages_are_the_first(s: Seq<ScheduledMessageView>, now: UtcInstant, n: int)
    requires
        order::sorted(s, message_order()),
        0 <= n <= s.len(),
        now.nanos < 1_000_000_000,
        forall|i: int| 0 <= i < s.len() ==> (#[trigger] s[i]).fire_at.nanos < 1_000_000_000,
        forall|i: int|
            0 <= i < n ==> (#[trigger] s[i]).fire_at.total_nanos() <= now.total_nanos(),
        n < s.len() ==> s[n].fire_at.total_nanos() > now.total_nanos(),
    ensures
        seqs::filter_mapped(s, due_at(now)).len() == n,
        forall|i: int|
            0 <= i < n ==> #[trigger] seqs::filter_mapped(s, due_at(now))[i] == s[i].id,
{
    let first = s.take(n);
    if n < s.len() {
        clock::instants_are_ordered_by_their_nanoseconds(s[n].fire_at, now);
        lemma_rest_is_not_due(s, now, n, s.len() as int);
        assert(s.take(s.len() as int) =~= s);
    } else {
        assert(first =~= s);
    }
    assert forall|i: int| 0 <= i < first.len() implies due_at(now)(#[trigger] first[i]) == Some(
        s[i].id,
    ) by {
        assert(first[i] == s[i]);
        clock::instants_are_ordered_by_their_nanoseconds(s[i].fire_at, now);
    }
    seqs::filter_mapped_keeps_all(first, due_at(now));
    assert forall|i: int| 0 <= i < n implies #[trigger] seqs::filter_mapped(s, due_at(now))[i]
        == s[i].id by {
        assert(due_at(now)(first[i]) == Some(seqs::filter_mapped(first, due_at(now))[i]));
    }
}

/// A message that is removed is one with the identity, and the others stay as
/// they are and in order; where none has it, nothing is removed.
pub proof fn only_the_named_message_is_removed(s: Seq<ScheduledMessageView>, id: Seq<char>, i: int)
    requires
        0 <= i <= s.len(),
        forall|j: int| 0 <= j < i ==> (#[trigger] s[j]).id != id,
        i < s.len() ==> s[i].id == id,
    ensures
        i < s.len() ==> find_message(s, id) == Some(s[i]) && without_message(s, id) == s.take(i)
            + s.skip(i + 1),
        i == s.len() ==> find_message(s, id) is None && without_message(s, id) == s,
{
    lemma_index_of_id(s, id);
    let k = index_of_id(s, id);
    if k < i {
        assert(s[k].id != id);
    }
    if i < k {
        assert(s[i].id != id);
    }
    if i < s.len() {
        assert(s.remove(i) =~= s.take(i) + s.skip(i + 1));
    }
}

} // verus!
