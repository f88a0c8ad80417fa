//! What `p4 describe` says of a change, and where `p4 where` finds its files.

use crate::decimal;
use crate::perforce::history;
use crate::perforce::pending;
use crate::perforce::ztag;
use crate::perforce::ztag::parse_ztag;
use crate::text;
use crate::text_map::TextMap;
use std::collections::HashMap;
use vstd::prelude::*;
use vstd::string::StringExecFns;

verus! {

broadcast use vstd::std_specs::hash::group_hash_axioms;

/// A key with an index behind it.
pub open spec fn indexed_key(key: Seq<char>, i: nat) -> Seq<char> {
    key + decimal::digits(i)
}

/// One file of a change: its depot path, revision and action.
pub type DescribedFile = (String, u32, String);

/// What a [`DescribedFile`] says.
pub type DescribedFileView = (Seq<char>, u32, Seq<char>);

/// The file with index `i`. A revision that lacks or cannot be read is 0, an
/// action that lacks is empty.
pub open spec fn described_file(record: ztag::Fields, i: nat) -> DescribedFileView {
    let rev = match record.get(indexed_key("rev"@, i)) {
        Some(value) => match history::trimmed_number(value) {
            Some(n) => n,
            None => 0,
        },
        None => 0,
    };
    let action = match record.get(indexed_key("action"@, i)) {
        Some(value) => text::trimmed(value),
        None => Seq::empty(),
    };
    (text::trimmed(record[indexed_key("depotFile"@, i)]), rev, action)
}

/// The files of a record from index `i` on, up to the first index without one.
/// No record has more files than fields.
pub open spec fn files_from(record: ztag::Fields, i: nat) -> Seq<DescribedFileView>
    decreases record.len() - i,
{
    if i < record.len() && record.contains_key(indexed_key("depotFile"@, i)) {
        seq![described_file(record, i)] + files_from(record, i + 1)
    } else {
        Seq::empty()
    }
}

/// The files of all records, in order.
pub open spec fn described_files(records: Seq<ztag::Fields>) -> Seq<DescribedFileView>
    decreases records.len(),
{
    if records.len() == 0 {
        Seq::empty()
    } else {
        described_files(records.drop_last()) + files_from(records.last(), 0)
    }
}

/// A key with an index behind it.
fn key_with_index(key: &str, i: usize) -> (r: String)
    ensures
        r@ == indexed_key(key@, i as nat),
{
    let mut out = String::new();
    out.append(key);
    decimal::push_digits(&mut out, i as u64);
    assert(out@ =~= indexed_key(key@, i as nat));
    out
}

/// The files of one record.
fn push_files(out: &mut Vec<DescribedFile>, record: &TextMap)
    ensures
        text::views(final(out)@) == text::views(old(out)@) + files_from(record@, 0),
{
    let n: usize = record.len();
    let mut i: usize = 0;
    let ghost before = text::views(out@);
    while i < n
        invariant
            i <= n,
            n == record@.len(),
            before == text::views(old(out)@),
            text::views(out@) + files_from(record@, i as nat) == before + files_from(record@, 0),
        decreases n - i,
    {
        let key = key_with_index("depotFile", i);
        match record.get(key.as_str()) {
            None => {
                assert(files_from(record@, i as nat) =~= Seq::<DescribedFileView>::empty());
                assert(text::views(out@) =~= before + files_from(record@, 0));
                return;
            },
            Some(depot) => {
                let rev_key = key_with_index("rev", i);
                let rev: u32 = match record.get(rev_key.as_str()) {
                    Some(value) => {
                        let chars = text::to_chars(value.as_str());
                        match decimal::parse_u32(text::trim(chars.as_slice())) {
                            Some(rev) => rev,
                            None => 0,
                        }
                    },
                    None => 0,
                };
                let action_key = key_with_index("action", i);
                let action = match record.get(action_key.as_str()) {
                    Some(value) => trim_text(value.as_str()),
                    None => String::new(),
                };
                let file = (trim_text(depot.as_str()), rev, action);
                assert(file@ == described_file(record@, i as nat));
                let ghost earlier = text::views(out@);
                out.push(file);
                assert(text::views(out@) =~= earlier.push(file@));
                assert(text::views(out@) + files_from(record@, (i + 1) as nat) =~= earlier
                    + files_from(record@, i as nat));
            },
        }
        i = i + 1;
    }
    assert(files_from(record@, i as nat) =~= Seq::<DescribedFileView>::empty());
    assert(text::views(out@) =~= before + files_from(record@, 0));
}

/// The text without the whitespace around it.
pub fn trim_text(s: &str) -> (r: String)
    ensures
        r@ == text::trimmed(s@),
{
    let chars = text::to_chars(s);
    text::from_chars(text::trim(chars.as_slice()))
}

/// Parses `p4 -ztag describe -s <change>` into the files of the change, from
/// the fields `depotFile<i>`, `rev<i>` and `action<i>` of whichever records
/// hold them.
pub fn parse_describe_files(ztag_output: &str) -> (r: Vec<DescribedFile>)
    ensures
        text::views(r@) == described_files(ztag::records_of(ztag_output@)),
{
    let records = parse_ztag(ztag_output);
    let ghost all = text::views(records@);
    let mut out: Vec<DescribedFile> = Vec::new();
    let mut i: usize = 0;
    assert(text::views(out@) =~= described_files(all.take(0)));
    while i < records.len()
        invariant
            i <= records.len(),
            all == text::views(records@),
            text::views(out@) == described_files(all.take(i as int)),
        decreases records.len() - i,
    {
        assert(all.take(i + 1).drop_last() =~= all.take(i as int));
        assert(all.take(i + 1).last() == records@[i as int]@);
        push_files(&mut out, &records[i]);
        i = i + 1;
    }
    assert(all.take(i as int) =~= all);
    out
}

/// The depot path and client path of a record.
pub open spec fn where_entry(record: ztag::Fields) -> Option<(Seq<char>, Seq<char>)> {
    match (record.get("depotFile"@), record.get("clientFile"@)) {
        (Some(depot), Some(client)) => Some((text::trimmed(depot), text::trimmed(client))),
        _ => None,
    }
}

/// Client paths by depot path; where a depot path occurs twice, the later.
pub open spec fn where_map(records: Seq<ztag::Fields>) -> Map<Seq<char>, Seq<char>>
    decreases records.len(),
{
    if records.len() == 0 {
        Map::empty()
    } else {
        match where_entry(records.last()) {
            Some((depot, client)) => where_map(records.drop_last()).insert(depot, client),
            None => where_map(records.drop_last()),
        }
    }
}

/// Parses `p4 -ztag where` into a map from depot path to client path.
pub fn parse_where(ztag_output: &str) -> (r: TextMap)
    ensures
        r@ == where_map(ztag::records_of(ztag_output@)),
{
    let records = parse_ztag(ztag_output);
    let ghost all = text::views(records@);
    let mut map = TextMap::new();
    let mut i: usize = 0;
    while i < records.len()
        invariant
            i <= records.len(),
            all == text::views(records@),
            map@ == where_map(all.take(i as int)),
        decreases records.len() - i,
    {
        assert(all.take(i + 1).drop_last() =~= all.take(i as int));
        assert(all.take(i + 1).last() == records@[i as int]@);
        let record = &records[i];
        if let (Some(depot), Some(client)) = (record.get("depotFile"), record.get("clientFile")) {
            map.insert(trim_text(depot.as_str()), trim_text(client.as_str()));
        }
        i = i + 1;
    }
    assert(all.take(i as int) =~= all);
    map
}

/// Who made a change, when, and the first line of its description.
#[derive(Debug)]
pub struct ChangeMeta {
    pub user: Option<String>,
    /// Seconds since the start of 1970.
    pub time: Option<i64>,
    pub summary: Option<String>,
}

/// What a [`ChangeMeta`] says.
#[verifier::ext_equal]
pub struct ChangeMetaView {
    pub user: Option<Seq<char>>,
    pub time: Option<i64>,
    pub summary: Option<Seq<char>>,
}

impl View for ChangeMeta {
    type V = ChangeMetaView;

    open spec fn view(&self) -> ChangeMetaView {
        ChangeMetaView {
            user: text::option_view(self.user),
            time: self.time,
            summary: text::option_view(self.summary),
        }
    }
}

/// The clone of an optional text.
pub fn clone_text(s: &Option<String>) -> (r: Option<String>)
    ensures
        text::option_view(r) == text::option_view(*s),
{
    match s {
        Some(s) => Some(s.clone()),
        None => None,
    }
}

impl Clone for ChangeMeta {
    fn clone(&self) -> (r: ChangeMeta)
        ensures
            r@ == self@,
    {
        ChangeMeta {
            user: clone_text(&self.user),
            time: self.time,
            summary: clone_text(&self.summary),
        }
    }
}

/// Nothing is known of the change.
pub open spec fn unknown_change() -> ChangeMetaView {
    ChangeMetaView { user: None, time: None, summary: None }
}

impl Default for ChangeMeta {
    fn default() -> (r: ChangeMeta)
        ensures
            r@ == unknown_change(),
    {
        ChangeMeta { user: None, time: None, summary: None }
    }
}

/// The first line of a text; none of an empty text.
pub open spec fn first_line(s: Seq<char>) -> Option<Seq<char>> {
    let lines = text::lines_of(s);
    if lines.len() > 0 {
        Some(lines[0])
    } else {
        None
    }
}

/// The first line of a description without the whitespace around it, unless
/// nothing is left.
pub open spec fn summary_of(description: Seq<char>) -> Option<Seq<char>> {
    match first_line(description) {
        Some(line) => if text::trimmed(line).len() > 0 {
            Some(text::trimmed(line))
        } else {
            None
        },
        None => None,
    }
}

/// The integer that `s` writes, as an `i64`.
pub open spec fn signed_field(s: Seq<char>) -> Option<i64> {
    match decimal::signed_value(s, i64::MAX as nat) {
        Some(t) => Some(t as i64),
        None => None,
    }
}

/// What a record says of its change.
pub open spec fn change_meta(record: ztag::Fields) -> ChangeMetaView {
    ChangeMetaView {
        user: record.get("user"@),
        time: match record.get("time"@) {
            Some(value) => signed_field(value),
            None => None,
        },
        summary: match record.get("desc"@) {
            Some(description) => summary_of(description),
            None => None,
        },
    }
}

/// The number of a record's change.
pub open spec fn change_number(record: ztag::Fields) -> Option<u32> {
    match record.get("change"@) {
        Some(value) => pending::number_field(value),
        None => None,
    }
}

/// What the records say of each change; of a change that occurs twice, what
/// the first record says.
pub open spec fn describe_meta(records: Seq<ztag::Fields>) -> Map<u32, ChangeMetaView>
    decreases records.len(),
{
    if records.len() == 0 {
        Map::empty()
    } else {
        let earlier = describe_meta(records.drop_last());
        match change_number(records.last()) {
            Some(change) => if earlier.contains_key(change) {
                earlier
            } else {
                earlier.insert(change, change_meta(records.last()))
            },
            None => earlier,
        }
    }
}

/// What the map holds, by its view.
pub open spec fn meta_view(map: Map<u32, ChangeMeta>) -> Map<u32, ChangeMetaView> {
    map.map_values(|meta: ChangeMeta| meta@)
}

/// The first line of a text.
pub fn first_line_of(s: &str) -> (r: Option<String>)
    ensures
        text::option_view(r) == first_line(s@),
{
    let chars = text::to_chars(s);
    let lines = text::split_lines(chars.as_slice());
    assert(text::views(lines@).len() == lines@.len());
    if lines.len() > 0 {
        assert(text::views(lines@)[0] == lines@[0]@);
        Some(text::from_chars(lines[0]))
    } else {
        None
    }
}

/// The first line of a description without the whitespace around it.
fn summarize(description: &str) -> (r: Option<String>)
    ensures
        text::option_view(r) == summary_of(description@),
{
    match first_line_of(description) {
        Some(line) => {
            let chars = text::to_chars(line.as_str());
            let trimmed = text::trim(chars.as_slice());
            if trimmed.len() > 0 {
                Some(text::from_chars(trimmed))
            } else {
                None
            }
        },
        None => None,
    }
}

/// What a record says of its change.
pub fn parse_change_meta(record: &TextMap) -> (r: ChangeMeta)
    ensures
        r@ == change_meta(record@),
{
    let user = match record.get("user") {
        Some(user) => Some(user.clone()),
        None => None,
    };
    let time = match record.get("time") {
        Some(value) => {
            let chars = text::to_chars(value.as_str());
            decimal::parse_i64(chars.as_slice())
        },
        None => None,
    };
    let summary = match record.get("desc") {
        Some(description) => summarize(description.as_str()),
        None => None,
    };
    ChangeMeta { user, time, summary }
}

/// Parses `p4 -ztag describe -s <changes>` into what is known of each change.
pub fn parse_describe_meta(ztag_output: &str) -> (r: HashMap<u32, ChangeMeta>)
    ensures
        meta_view(r@) == describe_meta(ztag::records_of(ztag_output@)),
{
    let records = parse_ztag(ztag_output);
    let ghost all = text::views(records@);
    let mut map: HashMap<u32, ChangeMeta> = HashMap::new();
    let mut i: usize = 0;
    assert(meta_view(map@) =~= Map::<u32, ChangeMetaView>::empty());
    while i < records.len()
        invariant
            i <= records.len(),
            all == text::views(records@),
            meta_view(map@) == describe_meta(all.take(i as int)),
        decreases records.len() - i,
    {
        assert(all.take(i + 1).drop_last() =~= all.take(i as int));
        assert(all.take(i + 1).last() == records@[i as int]@);
        let record = &records[i];
        if let Some(value) = record.get("change") {
            let chars = text::to_chars(value.as_str());
            if let Some(change) = decimal::parse_u32(chars.as_slice()) {
                assert(meta_view(map@).contains_key(change) == map@.contains_key(change));
                if !map.contains_key(&change) {
                    let ghost before = meta_view(map@);
                    let meta = parse_change_meta(record);
                    map.insert(change, meta);
                    assert(meta_view(map@) =~= before.insert(change, meta@));
                }
            }
        }
        i = i + 1;
    }
    assert(all.take(i as int) =~= all);
    map
}

/// The keys `depotFile<i>` for the indices below `n`.
spec fn keys_below(n: nat) -> Set<Seq<char>>
    decreases n,
{
    if n == 0 {
        Set::empty()
    } else {
        keys_below((n - 1) as nat).insert(indexed_key("depotFile"@, (n - 1) as nat))
    }
}

/// Different indices make different keys.
pub proof fn indexed_keys_differ(key: Seq<char>, i: nat, j: nat)
    requires
        indexed_key(key, i) == indexed_key(key, j),
    ensures
        i == j,
{
    decimal::digits_read_back(i);
    decimal::digits_read_back(j);
    assert(indexed_key(key, i).skip(key.len() as int) =~= decimal::digits(i));
    assert(indexed_key(key, j).skip(key.len() as int) =~= decimal::digits(j));
}

/// The keys below `n` are `n` keys, and are those with an index below `n`.
proof fn lemma_keys_below(n: nat)
    ensures
        keys_below(n).finite(),
        keys_below(n).len() == n,
        forall|k: Seq<char>| #[trigger]
            keys_below(n).contains(k) ==> exists|i: nat|
                i < n && k == #[trigger] indexed_key("depotFile"@, i),
    decreases n,
{
    if n > 0 {
        let m = (n - 1) as nat;
        lemma_keys_below(m);
        let last = indexed_key("depotFile"@, m);
        if keys_below(m).contains(last) {
            let i = choose|i: nat| i < m && last == #[trigger] indexed_key("depotFile"@, i);
            indexed_keys_differ("depotFile"@, i, m);
        }
        assert forall|k: Seq<char>| #[trigger] keys_below(n).contains(k) implies exists|i: nat|
            i < n && k == #[trigger] indexed_key("depotFile"@, i) by {
            if keys_below(m).contains(k) {
                let i = choose|i: nat| i < m && k == #[trigger] indexed_key("depotFile"@, i);
                assert(i < n && k == indexed_key("depotFile"@, i));
            } else {
                assert(m < n && k == indexed_key("depotFile"@, m));
            }
        }
    }
}

/// Where the files of a record from index `i` on end.
proof fn lemma_files_from(record: ztag::Fields, i: nat)
    ensures
        ({
            let n = files_from(record, i).len();
            &&& forall|j: nat|
                i <= j < i + n ==> record.contains_key(#[trigger] indexed_key("depotFile"@, j))
            &&& forall|j: nat|
                i <= j < i + n ==> files_from(record, i)[j - i] == #[trigger] described_file(record, j)
            &&& i + n < record.len() ==> !record.contains_key(indexed_key("depotFile"@, i + n))
        }),
    decreases record.len() - i,
{
    if i < record.len() && record.contains_key(indexed_key("depotFile"@, i)) {
        lemma_files_from(record, i + 1);
        let n = files_from(record, i).len();
        let rest = files_from(record, i + 1);
        assert forall|j: nat| i <= j < i + n implies files_from(record, i)[j - i]
            == #[trigger] described_file(record, j) by {
            if j > i {
                assert(rest[j - (i + 1)] == described_file(record, j));
            }
        }
        assert(i + 1 + rest.len() == i + n);
    }
}

/// A change's files are those with the indices from 0 up to the first that
/// lacks, in the order of the indices.
pub proof fn files_run_to_the_first_gap(record: ztag::Fields)
    requires
        record.dom().finite(),
    ensures
        forall|i: nat|
            i < files_from(record, 0).len() ==> record.contains_key(
                #[trigger] indexed_key("depotFile"@, i),
            ),
        forall|i: nat|
            i < files_from(record, 0).len() ==> files_from(record, 0)[i as int]
                == #[trigger] described_file(record, i),
        !record.contains_key(indexed_key("depotFile"@, files_from(record, 0).len())),
{
    let n = files_from(record, 0).len();
    lemma_files_from(record, 0);
    if record.contains_key(indexed_key("depotFile"@, n)) {
        lemma_keys_below(n + 1);
        assert(keys_below(n + 1).subset_of(record.dom())) by {
            assert forall|k: Seq<char>| #[trigger] keys_below(n + 1).contains(k) implies record.dom().contains(
                k,
            ) by {
                let i = choose|i: nat| i < n + 1 && k == #[trigger] indexed_key("depotFile"@, i);
                if i < n {
                    assert(record.contains_key(indexed_key("depotFile"@, i)));
                }
            }
        }
        vstd::set_lib::lemma_len_subset(keys_below(n + 1), record.dom());
    }
    assert forall|i: nat| i < n implies files_from(record, 0)[i as int] == #[trigger] described_file(
        record,
        i,
    ) by {
        assert(files_from(record, 0)[i - 0] == described_file(record, i));
    }
}

/// A described file is read back from its three fields: its path, its revision
/// and its action.
pub proof fn described_file_reads_back(
    record: ztag::Fields,
    i: nat,
    depot: Seq<char>,
    rev: u32,
    action: Seq<char>,
)
    requires
        text::has_firm_ends(depot),
        text::has_firm_ends(action),
        record.get("depotFile"@ + decimal::digits(i)) == Some(depot),
        record.get("rev"@ + decimal::digits(i)) == Some(decimal::digits(rev as nat)),
        record.get("action"@ + decimal::digits(i)) == Some(action),
    ensures
        described_file(record, i) == (depot, rev, action),
{
    let d = decimal::digits(rev as nat);
    decimal::digits_read_back(rev as nat);
    decimal::unsigned_reads_back(rev as nat, u32::MAX as nat);
    assert(decimal::is_digit(d[0]) && decimal::is_digit(d[d.len() - 1]));
    text::firm_text_is_not_trimmed(d);
    text::firm_text_is_not_trimmed(depot);
    text::firm_text_is_not_trimmed(action);
}

/// A file without a revision that can be read has revision 0, and one without an
/// action the empty one.
pub proof fn lacking_fields_are_empty(record: ztag::Fields, i: nat)
    ensures
        !record.contains_key("rev"@ + decimal::digits(i)) ==> described_file(record, i).1 == 0,
        !record.contains_key("action"@ + decimal::digits(i)) ==> described_file(record, i).2.len()
            == 0,
{
}

/// The files of two outputs together are those of the one and then those of the
/// other.
pub proof fn described_files_come_in_order(a: Seq<ztag::Fields>, b: Seq<ztag::Fields>)
    ensures
        described_files(a + b) == described_files(a) + described_files(b),
    decreases b.len(),
{
    if b.len() == 0 {
        assert(a + b =~= a);
        assert(described_files(a) + described_files(b) =~= described_files(a));
    } else {
        described_files_come_in_order(a, b.drop_last());
        assert((a + b).drop_last() =~= a + b.drop_last());
        assert((a + b).last() == b.last());
        assert(described_files(a + b) =~= described_files(a) + described_files(b));
    }
}

/// Whether a record places the depot file.
pub open spec fn places(record: ztag::Fields, depot: Seq<char>) -> bool {
    where_entry(record) matches Some(e) && e.0 == depot
}

/// A depot file is where the last record that places it says, without space
/// around either path.
pub proof fn last_place_counts(
    records: Seq<ztag::Fields>,
    i: int,
    depot: Seq<char>,
    place: Seq<char>,
)
    requires
        0 <= i < records.len(),
        text::has_firm_ends(depot),
        text::has_firm_ends(place),
        records[i].get("depotFile"@) == Some(depot),
        records[i].get("clientFile"@) == Some(place),
        forall|j: int| i < j < records.len() ==> !#[trigger] places(records[j], depot),
    ensures
        where_map(records).get(depot) == Some(place),
    decreases records.len(),
{
    text::firm_text_is_not_trimmed(depot);
    text::firm_text_is_not_trimmed(place);
    let rest = records.drop_last();
    if i < rest.len() {
        assert forall|j: int| i < j < rest.len() implies !#[trigger] places(rest[j], depot) by {
            assert(!places(records[j], depot));
        }
        last_place_counts(rest, i, depot, place);
        assert(!places(records[records.len() - 1], depot));
    }
}

/// A depot file that no record places is nowhere.
pub proof fn unplaced_files_are_nowhere(records: Seq<ztag::Fields>, depot: Seq<char>)
    requires
        forall|j: int| 0 <= j < records.len() ==> !#[trigger] places(records[j], depot),
    ensures
        !where_map(records).contains_key(depot),
    decreases records.len(),
{
    if records.len() > 0 {
        let rest = records.drop_last();
        assert forall|j: int| 0 <= j < rest.len() implies !#[trigger] places(rest[j], depot) by {
            assert(!places(records[j], depot));
        }
        unplaced_files_are_nowhere(rest, depot);
        assert(!places(records[records.len() - 1], depot));
    }
}

/// The summary of a description is its first line without the space around it,
/// whatever follows; of a description that starts with an empty line it is none.
pub proof fn summary_is_the_first_line(
    before: Seq<char>,
    line: Seq<char>,
    after: Seq<char>,
    more: Seq<char>,
)
    requires
        text::all_whitespace(before),
        text::all_whitespace(after),
        text::has_firm_ends(line),
        text::is_one_line(before + line + after),
    ensures
        summary_of(before + line + after + seq!['\n'] + more) == (if line.len() > 0 {
            Some(line)
        } else {
            None
        }),
        summary_of(before + line + after) == (if line.len() > 0 {
            Some(line)
        } else {
            None
        }),
{
    let first = before + line + after;
    let whole = first + seq!['\n'] + more;
    let n = first.len() as int;
    text::whitespace_around_is_trimmed(before, line, after);
    assert forall|j: int| 0 <= j < n implies #[trigger] whole[j] != '\n' && first[j] != '\n' by {
        assert(whole[j] == first[j]);
        assert(first.contains(first[j]));
    }
    assert(whole[n] == '\n');
    text::lemma_char_index_is(whole, '\n', n);
    assert(whole.take(n) =~= first);
    assert(text::lines_of(whole)[0] == first);
    assert forall|j: int| 0 <= j < n implies #[trigger] first[j] != '\n' by {
        assert(whole[j] != '\n');
    }
    text::lemma_char_index_is(first, '\n', n);
    if n > 0 {
        assert(text::lines_of(first)[0] == first);
    } else {
        assert(line.len() == 0);
    }
}

/// A record says who made its change, and when, by a number of seconds that is
/// read back from its digits.
pub proof fn change_meta_reads_back(record: ztag::Fields, user: Seq<char>, seconds: nat)
    requires
        seconds <= i64::MAX,
    ensures
        record.get("user"@) == Some(user) ==> change_meta(record).user == Some(user),
        !record.contains_key("user"@) ==> change_meta(record).user is None,
        record.get("time"@) == Some(decimal::digits(seconds)) ==> change_meta(record).time == Some(
            seconds as i64,
        ),
        !record.contains_key("time"@) ==> change_meta(record).time is None,
        record.get("desc"@) matches Some(desc) ==> change_meta(record).summary == summary_of(desc),
        !record.contains_key("desc"@) ==> change_meta(record).summary is None,
{
    decimal::numbers_are_read_up_to_the_limit(seconds, 0, i64::MAX as nat);
    assert(text::repeated('0', 0) + decimal::digits(seconds) =~= decimal::digits(seconds));
}

/// A change is known by what the first record of its number says, and no other
/// change is known.
pub proof fn first_record_counts(records: Seq<ztag::Fields>, i: int, change: u32)
    requires
        0 <= i < records.len(),
        records[i].get("change"@) == Some(decimal::digits(change as nat)),
        forall|j: int| 0 <= j < i ==> change_number(#[trigger] records[j]) != Some(change),
    ensures
        describe_meta(records).get(change) == Some(change_meta(records[i])),
    decreases records.len(),
{
    decimal::unsigned_reads_back(change as nat, u32::MAX as nat);
    assert(change_number(records[i]) == Some(change));
    let rest = records.drop_last();
    if i < rest.len() {
        assert forall|j: int| 0 <= j < i implies change_number(#[trigger] rest[j]) != Some(
            change,
        ) by {
            assert(rest[j] == records[j]);
        }
        first_record_counts(rest, i, change);
    } else {
        assert forall|j: int| 0 <= j < rest.len() implies change_number(#[trigger] rest[j]) != Some(
            change,
        ) by {
            assert(rest[j] == records[j]);
        }
        unnamed_changes_are_unknown(rest, change);
    }
}

/// A change that no record names is not known.
pub proof fn unnamed_changes_are_unknown(records: Seq<ztag::Fields>, change: u32)
    requires
        forall|j: int|
            0 <= j < records.len() ==> change_number(#[trigger] records[j]) != Some(change),
    ensures
        !describe_meta(records).contains_key(change),
    decreases records.len(),
{
    if records.len() > 0 {
        let rest = records.drop_last();
        assert forall|j: int| 0 <= j < rest.len() implies change_number(#[trigger] rest[j]) != Some(
            change,
        ) by {
            assert(rest[j] == records[j]);
        }
        unnamed_changes_are_unknown(rest, change);
        assert(change_number(records[records.len() - 1]) != Some(change));
    }
}

} // verus!
