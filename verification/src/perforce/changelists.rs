//! The pending changelists of a client, with their opened and shelved files.

use crate::decimal;
use crate::order;
use crate::order::Ordered;
use crate::path;
use crate::path::RepoPath;
use crate::perforce::client;
use crate::perforce::client::{client_path_to_repo_path, local_path_to_repo_path};
use crate::perforce::opened;
use crate::perforce::opened::action_to_status;
use crate::perforce::pending;
use crate::perforce::pending::{PendingChange, PendingChangeView};
use crate::perforce::ztag;
use crate::perforce::ztag::parse_ztag;
use crate::seqs;
use crate::status::FileStatus;
use crate::text;
use crate::text_map::TextMap;
use vstd::prelude::*;

verus! {

/// A pending changelist: the default one, or one with a number.
#[derive(Debug, Clone, Copy, PartialEq, Eq, Hash, Structural)]
pub enum ChangelistId {
    Default,
    Numbered(u32),
}

/// The text by which `p4` knows a changelist.
pub open spec fn changelist_text(id: ChangelistId) -> Seq<char> {
    match id {
        ChangelistId::Default => "default"@,
        ChangelistId::Numbered(n) => decimal::digits(n as nat),
    }
}

/// The changelist that a `change` field names.
pub open spec fn change_field(field: Seq<char>) -> Option<ChangelistId> {
    if field == "default"@ {
        Some(ChangelistId::Default)
    } else {
        match decimal::unsigned_value(field, u32::MAX as nat) {
            Some(n) => Some(ChangelistId::Numbered(n as u32)),
            None => None,
        }
    }
}

impl View for ChangelistId {
    type V = ChangelistId;

    open spec fn view(&self) -> ChangelistId {
        *self
    }
}

impl ChangelistId {
    /// The value that `p4` expects after `-c` for the changelist.
    pub fn as_p4_arg(self) -> (r: String)
        ensures
            r@ == changelist_text(self),
    {
        match self {
            ChangelistId::Default => "default".to_owned(),
            ChangelistId::Numbered(n) => decimal::to_digits(n as u64),
        }
    }
}

/// Parses a `change` field: `default`, or a decimal number.
pub fn parse_change_field(field: &str) -> (r: Option<ChangelistId>)
    ensures
        r == change_field(field@),
{
    let chars = text::to_chars(field);
    if text::is_text(chars.as_slice(), "default") {
        Some(ChangelistId::Default)
    } else {
        match decimal::parse_u32(chars.as_slice()) {
            Some(n) => Some(ChangelistId::Numbered(n)),
            None => None,
        }
    }
}

/// A changelist is read back from the text by which `p4` knows it.
pub proof fn changelist_text_reads_back(id: ChangelistId)
    ensures
        change_field(changelist_text(id)) == Some(id),
{
    if let ChangelistId::Numbered(n) = id {
        decimal::unsigned_reads_back(n as nat, u32::MAX as nat);
        decimal::digits_read_back(n as nat);
        reveal_strlit("default");
        assert(decimal::is_digit(decimal::digits(n as nat)[0]));
        assert(!decimal::is_digit("default"@[0]));
    }
}

/// A file open or shelved in a changelist.
#[derive(Debug, PartialEq, Eq)]
pub struct ChangelistFile {
    pub path: RepoPath,
    pub status: FileStatus,
    pub shelved: bool,
}

/// What a [`ChangelistFile`] says.
#[verifier::ext_equal]
pub struct ChangelistFileView {
    pub path: Seq<char>,
    pub status: FileStatus,
    pub shelved: bool,
}

impl View for ChangelistFile {
    type V = ChangelistFileView;

    open spec fn view(&self) -> ChangelistFileView {
        ChangelistFileView { path: self.path@, status: self.status, shelved: self.shelved }
    }
}

impl Clone for ChangelistFile {
    fn clone(&self) -> (r: ChangelistFile)
        ensures
            r@ == self@,
    {
        ChangelistFile { path: self.path.clone(), status: self.status, shelved: self.shelved }
    }
}

/// The order of a changelist's files: opened files first, then shelved ones,
/// each group by path.
pub open spec fn file_order() -> spec_fn(ChangelistFileView, ChangelistFileView) -> bool {
    |a: ChangelistFileView, b: ChangelistFileView|
        if a.shelved == b.shelved {
            path::path_le(a.path, b.path)
        } else {
            b.shelved
        }
}

impl Ordered for ChangelistFile {
    open spec fn order() -> spec_fn(ChangelistFileView, ChangelistFileView) -> bool {
        file_order()
    }

    proof fn order_is_total() {
        let le = file_order();
        assert forall|a: ChangelistFileView, b: ChangelistFileView| #[trigger]
            le(a, b) || le(b, a) by {
            path::path_le_is_total(a.path, b.path);
        }
        assert forall|a: ChangelistFileView, b: ChangelistFileView, c: ChangelistFileView|
            #[trigger]
            le(a, b) && #[trigger] le(b, c) implies le(a, c) by {
            if a.shelved == b.shelved && b.shelved == c.shelved {
                path::path_le_is_transitive(a.path, b.path, c.path);
            }
        }
    }

    fn stands_before(&self, other: &ChangelistFile) -> (r: bool) {
        if self.shelved == other.shelved {
            self.path.le(&other.path)
        } else {
            other.shelved
        }
    }
}

/// A pending changelist with its files.
#[derive(Debug, PartialEq, Eq)]
pub struct PerforceChangelist {
    pub id: ChangelistId,
    pub description: String,
    pub files: Vec<ChangelistFile>,
}

/// What a [`PerforceChangelist`] says.
#[verifier::ext_equal]
pub struct PerforceChangelistView {
    pub id: ChangelistId,
    pub description: Seq<char>,
    pub files: Seq<ChangelistFileView>,
}

impl View for PerforceChangelist {
    type V = PerforceChangelistView;

    open spec fn view(&self) -> PerforceChangelistView {
        PerforceChangelistView {
            id: self.id,
            description: self.description@,
            files: text::views(self.files@),
        }
    }
}

/// The changelist number and file of a shelved file's record. Its path is a
/// local one.
pub open spec fn shelved_file(root: Seq<char>, record: ztag::Fields) -> Option<
    (u32, ChangelistFileView),
> {
    match (record.get("clientFile"@), record.get("action"@), record.get("change"@)) {
        (Some(file), Some(action), Some(change)) => match (
            opened::action_status(action),
            client::repo_path_of_local_path(root, file),
            pending::number_field(change),
        ) {
            (Some(status), Some(path), Some(number)) => Some(
                (number, ChangelistFileView { path, status, shelved: true }),
            ),
            _ => None,
        },
        _ => None,
    }
}

/// The shelved files of all records that give one, in order.
pub open spec fn shelved_files(root: Seq<char>, records: Seq<ztag::Fields>) -> Seq<
    (u32, ChangelistFileView),
> {
    seqs::filter_mapped(records, |record: ztag::Fields| shelved_file(root, record))
}

/// The changelist number and file of a shelved file's record.
fn parse_shelved_file(working_directory: &str, record: &TextMap) -> (r: Option<
    (u32, ChangelistFile),
>)
    ensures
        match r {
            Some(item) => shelved_file(working_directory@, record@) == Some(item@),
            None => shelved_file(working_directory@, record@) is None,
        },
{
    if let (Some(file), Some(action), Some(change)) = (
        record.get("clientFile"),
        record.get("action"),
        record.get("change"),
    ) {
        let change = text::to_chars(change.as_str());
        if let (Some(status), Some(path), Some(number)) = (
            action_to_status(action.as_str()),
            local_path_to_repo_path(working_directory, file.as_str()),
            decimal::parse_u32(change.as_slice()),
        ) {
            return Some((number, ChangelistFile { path, status, shelved: true }));
        }
    }
    None
}

/// Parses `p4 -ztag fstat -Rs -e <changelist>` into the shelved files, each
/// with the number of its changelist. Records that lack a part are passed
/// over.
pub fn parse_shelved_files(working_directory: &str, fstat_output: &str) -> (r: Vec<
    (u32, ChangelistFile),
>)
    ensures
        text::views(r@) == shelved_files(
            working_directory@,
            ztag::records_of(fstat_output@),
        ),
{
    let records = parse_ztag(fstat_output);
    let ghost all = text::views(records@);
    let ghost f = |record: ztag::Fields| shelved_file(working_directory@, record);
    let mut out: Vec<(u32, ChangelistFile)> = Vec::new();
    let mut i: usize = 0;
    assert(text::views(out@) =~= seqs::filter_mapped(all.take(0), f));
    while i < records.len()
        invariant
            i <= records.len(),
            all == text::views(records@),
            f == (|record: ztag::Fields| shelved_file(working_directory@, record)),
            text::views(out@) == seqs::filter_mapped(all.take(i as int), f),
        decreases records.len() - i,
    {
        proof {
            seqs::lemma_filter_mapped_step(all, f, i as int);
        }
        assert(all[i as int] == records@[i as int]@);
        let ghost before = out@;
        if let Some(item) = parse_shelved_file(working_directory, &records[i]) {
            out.push(item);
            assert(text::views(out@) =~= text::views(before).push(item@));
        }
        i = i + 1;
    }
    assert(all.take(i as int) =~= all);
    out
}

/// The changelist and file of an opened file's record.
pub open spec fn opened_file(client: Seq<char>, record: ztag::Fields) -> Option<
    (ChangelistId, ChangelistFileView),
> {
    match (record.get("action"@), record.get("change"@), record.get("clientFile"@)) {
        (Some(action), Some(change), Some(file)) => match (
            opened::action_status(action),
            change_field(change),
            client::repo_path_of_client_path(client, file),
        ) {
            (Some(status), Some(id), Some(path)) => Some(
                (id, ChangelistFileView { path, status, shelved: false }),
            ),
            _ => None,
        },
        _ => None,
    }
}

/// The opened files of all records that give one, in order.
pub open spec fn opened_files(client: Seq<char>, records: Seq<ztag::Fields>) -> Seq<
    (ChangelistId, ChangelistFileView),
> {
    seqs::filter_mapped(records, |record: ztag::Fields| opened_file(client, record))
}

/// Opened files, then shelved ones, each with its changelist.
pub open spec fn all_files(
    opened: Seq<(ChangelistId, ChangelistFileView)>,
    shelved: Seq<(u32, ChangelistFileView)>,
) -> Seq<(ChangelistId, ChangelistFileView)> {
    opened + Seq::new(
        shelved.len(),
        |i: int| (ChangelistId::Numbered(shelved[i].0), shelved[i].1),
    )
}

/// Gives the file of an item that stands in changelist `id`.
pub open spec fn file_in(id: ChangelistId) -> spec_fn(
    (ChangelistId, ChangelistFileView),
) -> Option<ChangelistFileView> {
    |item: (ChangelistId, ChangelistFileView)|
        if item.0 == id {
            Some(item.1)
        } else {
            None
        }
}

/// The files that stand in changelist `id`, in order.
pub open spec fn files_in(
    files: Seq<(ChangelistId, ChangelistFileView)>,
    id: ChangelistId,
) -> Seq<ChangelistFileView> {
    seqs::filter_mapped(files, file_in(id))
}

/// Gives the number of an item's changelist.
pub open spec fn number_of() -> spec_fn((ChangelistId, ChangelistFileView)) -> Option<u32> {
    |item: (ChangelistId, ChangelistFileView)|
        match item.0 {
            ChangelistId::Numbered(n) => Some(n),
            ChangelistId::Default => None,
        }
}

/// The description of changelist `number`: the first that is reported for it;
/// empty if none is.
pub open spec fn description_of(changes: Seq<PendingChangeView>, number: u32) -> Seq<char>
    decreases changes.len(),
{
    if changes.len() == 0 {
        Seq::empty()
    } else if changes[0].number == number {
        changes[0].description
    } else {
        description_of(changes.skip(1), number)
    }
}

/// The descending order of numbers.
pub open spec fn descending() -> spec_fn(u32, u32) -> bool {
    |a: u32, b: u32| a >= b
}

/// `numbers` in descending order, each once.
pub open spec fn distinct_descending(numbers: Seq<u32>) -> Seq<u32>
    decreases numbers.len(),
{
    if numbers.len() == 0 {
        Seq::empty()
    } else {
        let earlier = distinct_descending(numbers.drop_last());
        if earlier.contains(numbers.last()) {
            earlier
        } else {
            order::inserted(earlier, numbers.last(), descending())
        }
    }
}

/// The numbers of the changelists that are reported or that a file stands in.
pub open spec fn changelist_numbers(
    changes: Seq<PendingChangeView>,
    files: Seq<(ChangelistId, ChangelistFileView)>,
) -> Seq<u32> {
    distinct_descending(
        changes.map_values(|change: PendingChangeView| change.number) + seqs::filter_mapped(
            files,
            number_of(),
        ),
    )
}

/// One changelist with its files in order.
pub open spec fn changelist_group(
    id: ChangelistId,
    description: Seq<char>,
    files: Seq<(ChangelistId, ChangelistFileView)>,
) -> PerforceChangelistView {
    PerforceChangelistView {
        id,
        description,
        files: order::stable_sorted(files_in(files, id), file_order()),
    }
}

/// The default changelist, then the numbered ones from the highest down.
pub open spec fn changelist_groups(
    changes: Seq<PendingChangeView>,
    files: Seq<(ChangelistId, ChangelistFileView)>,
) -> Seq<PerforceChangelistView> {
    seq![changelist_group(ChangelistId::Default, Seq::empty(), files)] + changelist_numbers(
        changes,
        files,
    ).map_values(
        |n: u32|
            changelist_group(ChangelistId::Numbered(n), description_of(changes, n), files),
    )
}

/// The distinct numbers descend strictly, and are those of the list.
pub proof fn distinct_descending_is_exact(numbers: Seq<u32>)
    ensures
        order::sorted(distinct_descending(numbers), descending()),
        forall|i: int, j: int|
            0 <= i < j < distinct_descending(numbers).len() ==> #[trigger] distinct_descending(
                numbers,
            )[i] > #[trigger] distinct_descending(numbers)[j],
        forall|n: u32|
            #[trigger] distinct_descending(numbers).contains(n) <==> numbers.contains(n),
    decreases numbers.len(),
{
    let r = distinct_descending(numbers);
    if numbers.len() > 0 {
        let rest = numbers.drop_last();
        let earlier = distinct_descending(rest);
        let last = numbers.last();
        distinct_descending_is_exact(rest);
        assert(order::total_order(descending()));
        order::lemma_insertion_point(earlier, last, descending());
        order::inserted_is_sorted(earlier, last, descending());
        let k = order::insertion_point(earlier, last, descending());
        assert forall|n: u32| #[trigger] r.contains(n) implies numbers.contains(n) by {
            if n != last {
                let q = choose|q: int| 0 <= q < r.len() && r[q] == n;
                if earlier.contains(last) {
                } else if q < k {
                    assert(earlier[q] == n);
                } else {
                    assert(earlier[q - 1] == n);
                }
                assert(earlier.contains(n));
                assert(rest.contains(n));
                let w = choose|w: int| 0 <= w < rest.len() && rest[w] == n;
                assert(numbers[w] == n);
            } else {
                assert(numbers[numbers.len() - 1] == n);
            }
        }
        assert forall|n: u32| numbers.contains(n) implies #[trigger] r.contains(n) by {
            let w = choose|w: int| 0 <= w < numbers.len() && numbers[w] == n;
            if w < rest.len() {
                assert(rest[w] == n);
                assert(earlier.contains(n));
                let q = choose|q: int| 0 <= q < earlier.len() && earlier[q] == n;
                if earlier.contains(last) {
                } else if q < k {
                    assert(r[q] == n);
                } else {
                    assert(r[q + 1] == n);
                }
            } else if !earlier.contains(last) {
                assert(r[k] == n);
            }
        }
        if !earlier.contains(last) {
            assert forall|i: int, j: int| 0 <= i < j < r.len() implies #[trigger] r[i]
                > #[trigger] r[j] by {
                let le = descending();
                if i == k {
                    assert(r[j] == earlier[j - 1]);
                    assert(le(earlier[k], earlier[j - 1]));
                } else if j == k {
                    assert(r[i] == earlier[i]);
                    assert(le(earlier[i], last));
                    assert(earlier.contains(earlier[i]));
                } else {
                    let a = if i < k {
                        i
                    } else {
                        i - 1
                    };
                    let b = if j < k {
                        j
                    } else {
                        j - 1
                    };
                    assert(earlier[a] > earlier[b]);
                }
            }
        }
    }
}

/// Adds a number to distinct numbers in descending order.
fn add_number(numbers: &mut Vec<u32>, n: u32, Ghost(listed): Ghost<Seq<u32>>)
    requires
        old(numbers)@ == distinct_descending(listed),
    ensures
        final(numbers)@ == distinct_descending(listed.push(n)),
{
    let mut i: usize = 0;
    proof {
        distinct_descending_is_exact(listed);
        assert(listed.push(n).drop_last() =~= listed);
    }
    while i < numbers.len() && numbers[i] > n
        invariant
            i <= numbers.len(),
            forall|j: int| 0 <= j < i ==> #[trigger] numbers@[j] > n,
        decreases numbers.len() - i,
    {
        i = i + 1;
    }
    if i < numbers.len() && numbers[i] == n {
        assert(numbers@.contains(numbers@[i as int]));
        return;
    }
    proof {
        let le = descending();
        if numbers@.contains(n) {
            let q = choose|q: int| 0 <= q < numbers@.len() && numbers@[q] == n;
            assert(le(numbers@[i as int], numbers@[q]));
        }
        order::lemma_insertion_point_is(numbers@, n, le, i as int);
    }
    numbers.insert(i, n);
}

/// The changelist and file of an opened file's record.
fn parse_opened_file(client_name: &str, record: &TextMap) -> (r: Option<
    (ChangelistId, ChangelistFile),
>)
    ensures
        text::option_view(r) == opened_file(client_name@, record@),
{
    if let (Some(action), Some(change), Some(file)) = (
        record.get("action"),
        record.get("change"),
        record.get("clientFile"),
    ) {
        if let (Some(status), Some(id), Some(path)) = (
            action_to_status(action.as_str()),
            parse_change_field(change.as_str()),
            client_path_to_repo_path(client_name, file.as_str()),
        ) {
            return Some((id, ChangelistFile { path, status, shelved: false }));
        }
    }
    None
}

/// The opened files that `p4 -ztag opened` lists, each with its changelist.
fn parse_opened_files(client_name: &str, opened_output: &str) -> (r: Vec<
    (ChangelistId, ChangelistFile),
>)
    ensures
        text::views(r@) == opened_files(client_name@, ztag::records_of(opened_output@)),
{
    let records = parse_ztag(opened_output);
    let ghost all = text::views(records@);
    let ghost f = |record: ztag::Fields| opened_file(client_name@, record);
    let mut out: Vec<(ChangelistId, ChangelistFile)> = Vec::new();
    let mut i: usize = 0;
    assert(text::views(out@) =~= seqs::filter_mapped(all.take(0), f));
    while i < records.len()
        invariant
            i <= records.len(),
            all == text::views(records@),
            f == (|record: ztag::Fields| opened_file(client_name@, record)),
            text::views(out@) == seqs::filter_mapped(all.take(i as int), f),
        decreases records.len() - i,
    {
        proof {
            seqs::lemma_filter_mapped_step(all, f, i as int);
        }
        assert(all[i as int] == records@[i as int]@);
        let ghost before = out@;
        if let Some(item) = parse_opened_file(client_name, &records[i]) {
            out.push(item);
            assert(text::views(out@) =~= text::views(before).push(item@));
        }
        i = i + 1;
    }
    assert(all.take(i as int) =~= all);
    out
}

/// The description of changelist `number`.
fn find_description(changes: &[PendingChange], number: u32) -> (r: String)
    ensures
        r@ == description_of(text::views(changes@), number),
{
    let mut i: usize = 0;
    let ghost all = text::views(changes@);
    assert(all.skip(0) =~= all);
    while i < changes.len()
        invariant
            i <= changes.len(),
            all == text::views(changes@),
            description_of(all, number) == description_of(all.skip(i as int), number),
        decreases changes.len() - i,
    {
        assert(all.skip(i as int)[0] == changes@[i as int]@);
        if changes[i].number == number {
            return changes[i].description.clone();
        }
        assert(all.skip(i as int).skip(1) =~= all.skip(i + 1));
        i = i + 1;
    }
    String::new()
}

/// The numbers of the changelists that are reported or that a file stands in,
/// from the highest down.
fn collect_numbers(changes: &[PendingChange], files: &Vec<(ChangelistId, ChangelistFile)>) -> (r:
    Vec<u32>)
    ensures
        r@ == changelist_numbers(text::views(changes@), text::views(files@)),
{
    let ghost f = number_of();
    let ghost reported = text::views(changes@).map_values(|change: PendingChangeView| change.number);
    let ghost all = text::views(files@);
    let mut numbers: Vec<u32> = Vec::new();
    let mut i: usize = 0;
    assert(reported.take(0) =~= Seq::<u32>::empty());
    while i < changes.len()
        invariant
            i <= changes.len(),
            reported == text::views(changes@).map_values(
                |change: PendingChangeView| change.number,
            ),
            numbers@ == distinct_descending(reported.take(i as int)),
        decreases changes.len() - i,
    {
        add_number(&mut numbers, changes[i].number, Ghost(reported.take(i as int)));
        assert(reported.take(i + 1) =~= reported.take(i as int).push(reported[i as int]));
        i = i + 1;
    }
    let mut k: usize = 0;
    assert(reported.take(i as int) =~= reported);
    assert(reported + seqs::filter_mapped(all.take(0), f) =~= reported);
    while k < files.len()
        invariant
            k <= files.len(),
            all == text::views(files@),
            f == number_of(),
            numbers@ == distinct_descending(
                reported + seqs::filter_mapped(all.take(k as int), f),
            ),
        decreases files.len() - k,
    {
        proof {
            seqs::lemma_filter_mapped_step(all, f, k as int);
        }
        assert(all[k as int] == files@[k as int]@);
        let ghost listed = reported + seqs::filter_mapped(all.take(k as int), f);
        if let ChangelistId::Numbered(n) = files[k].0 {
            add_number(&mut numbers, n, Ghost(listed));
            assert(listed.push(n) =~= reported + seqs::filter_mapped(all.take(k + 1), f));
        }
        k = k + 1;
    }
    assert(all.take(k as int) =~= all);
    numbers
}

/// The groups for given numbers.
spec fn groups_for(
    numbers: Seq<u32>,
    changes: Seq<PendingChangeView>,
    files: Seq<(ChangelistId, ChangelistFileView)>,
) -> Seq<PerforceChangelistView> {
    seq![changelist_group(ChangelistId::Default, Seq::empty(), files)] + numbers.map_values(
        |n: u32|
            changelist_group(ChangelistId::Numbered(n), description_of(changes, n), files),
    )
}

/// One more file joins the files of its own changelist and of no other.
proof fn lemma_files_in_step(
    files: Seq<(ChangelistId, ChangelistFileView)>,
    k: int,
    id: ChangelistId,
)
    requires
        0 <= k < files.len(),
    ensures
        files_in(files.take(k + 1), id) == (if files[k].0 == id {
            files_in(files.take(k), id).push(files[k].1)
        } else {
            files_in(files.take(k), id)
        }),
        order::stable_sorted(files_in(files.take(k + 1), id), file_order()) == (if files[k].0
            == id {
            order::inserted(
                order::stable_sorted(files_in(files.take(k), id), file_order()),
                files[k].1,
                file_order(),
            )
        } else {
            order::stable_sorted(files_in(files.take(k), id), file_order())
        }),
{
    seqs::lemma_filter_mapped_step(files, file_in(id), k);
    let before = files_in(files.take(k), id);
    assert(before.push(files[k].1).drop_last() =~= before);
}

/// The changelists without their files.
fn empty_groups(numbers: &Vec<u32>, changes: &[PendingChange]) -> (r: Vec<PerforceChangelist>)
    ensures
        text::views(r@) == groups_for(numbers@, text::views(changes@), Seq::empty()),
{
    let ghost none = Seq::<(ChangelistId, ChangelistFileView)>::empty();
    let ghost reported = text::views(changes@);
    let mut groups: Vec<PerforceChangelist> = Vec::new();
    groups.push(
        PerforceChangelist {
            id: ChangelistId::Default,
            description: String::new(),
            files: Vec::new(),
        },
    );
    assert(groups@[0]@ =~= changelist_group(ChangelistId::Default, Seq::empty(), none));
    assert(text::views(groups@) =~= groups_for(numbers@.take(0), reported, none));
    let mut i: usize = 0;
    while i < numbers.len()
        invariant
            i <= numbers.len(),
            none == Seq::<(ChangelistId, ChangelistFileView)>::empty(),
            reported == text::views(changes@),
            text::views(groups@) == groups_for(numbers@.take(i as int), reported, none),
        decreases numbers.len() - i,
    {
        let number: u32 = numbers[i];
        let ghost before = groups@;
        let group = PerforceChangelist {
            id: ChangelistId::Numbered(number),
            description: find_description(changes, number),
            files: Vec::new(),
        };
        assert(group@ =~= changelist_group(
            ChangelistId::Numbered(number),
            description_of(reported, number),
            none,
        ));
        groups.push(group);
        assert(text::views(groups@) =~= text::views(before).push(group@));
        assert(numbers@.take(i + 1) =~= numbers@.take(i as int).push(number));
        assert(text::views(groups@) =~= groups_for(numbers@.take(i + 1), reported, none));
        i = i + 1;
    }
    assert(numbers@.take(i as int) =~= numbers@);
    groups
}

/// Where the changelist `id` stands among the groups.
fn find_group(groups: &Vec<PerforceChangelist>, id: ChangelistId) -> (r: usize)
    requires
        exists|g: int| 0 <= g < groups@.len() && (#[trigger] groups@[g]).id == id,
    ensures
        r < groups@.len(),
        groups@[r as int].id == id,
{
    let mut g: usize = 0;
    while g < groups.len()
        invariant
            g <= groups.len(),
            forall|h: int| 0 <= h < g ==> (#[trigger] groups@[h]).id != id,
            exists|h: int| 0 <= h < groups@.len() && (#[trigger] groups@[h]).id == id,
        decreases groups.len() - g,
    {
        if groups[g].id == id {
            return g;
        }
        g = g + 1;
    }
    0
}

/// Groups the opened files that `p4 -ztag opened` lists and the shelved files
/// by changelist. The default changelist comes first, then every numbered
/// changelist that is reported as pending or that a file stands in, from the
/// highest number down. Within a changelist the opened files come first, then
/// the shelved ones, each by path.
pub fn build_changelists(
    client_name: &str,
    opened_output: &str,
    changes: &[PendingChange],
    shelved: Vec<(u32, ChangelistFile)>,
) -> (r: Vec<PerforceChangelist>)
    ensures
        text::views(r@) == changelist_groups(
            text::views(changes@),
            all_files(
                opened_files(client_name@, ztag::records_of(opened_output@)),
                text::views(shelved@),
            ),
        ),
{
    let mut files = parse_opened_files(client_name, opened_output);
    let ghost open = text::views(files@);
    let ghost shelf = text::views(shelved@);
    let ghost reported = text::views(changes@);
    let ghost all = all_files(open, shelf);
    assert(text::views(files@) =~= all.take(open.len() as int));
    for item in it: shelved
        invariant
            it.seq() == shelved@,
            shelf == text::views(shelved@),
            all == all_files(open, shelf),
            text::views(files@) == all.take(open.len() + it.index()),
    {
        let ghost before = files@;
        let ghost i = it.index() as int;
        assert(shelf[i] == item@);
        files.push((ChangelistId::Numbered(item.0), item.1));
        assert(text::views(files@) =~= text::views(before).push(
            (ChangelistId::Numbered(item.0), item.1@),
        ));
        assert(all.take(open.len() + i + 1) =~= all.take(open.len() + i).push(all[open.len() + i]));
    }
    assert(all.take(all.len() as int) =~= all);
    let numbers = collect_numbers(changes, &files);
    let mut groups = empty_groups(&numbers, changes);
    let ghost list = files@;
    proof {
        lemma_numbers_cover(reported, all);
    }
    assert(all.take(0) =~= Seq::<(ChangelistId, ChangelistFileView)>::empty());
    for item in it: files
        invariant
            it.seq() == list,
            all == text::views(list),
            numbers@ == changelist_numbers(reported, all),
            forall|i: int, j: int|
                0 <= i < j < numbers@.len() ==> #[trigger] numbers@[i] > #[trigger] numbers@[j],
            forall|i: int|
                0 <= i < all.len() ==> ((#[trigger] all[i]).0 matches ChangelistId::Numbered(n)
                    ==> numbers@.contains(n)),
            text::views(groups@) == groups_for(numbers@, reported, all.take(it.index() as int)),
    {
        let ghost k = it.index() as int;
        let ghost before = groups@;
        let ghost earlier = groups_for(numbers@, reported, all.take(k));
        assert(all[k] == item@);
        let id = item.0;
        proof {
            assert(text::views(before).len() == earlier.len());
            assert(text::views(before)[0] == before[0]@);
            assert(before[0].id == ChangelistId::Default);
            if let ChangelistId::Numbered(n) = id {
                let q = choose|q: int| 0 <= q < numbers@.len() && numbers@[q] == n;
                assert(earlier[q + 1].id == id);
                assert(text::views(before)[q + 1] == before[q + 1]@);
                assert(before[q + 1].id == id);
            }
        }
        let g: usize = find_group(&groups, id);
        proof {
            lemma_files_in_step(all, k, id);
            assert(text::views(before)[g as int] == before[g as int]@);
            <ChangelistFile as Ordered>::order_is_total();
            order::stable_sorted_is_sorted(files_in(all.take(k), id), file_order());
        }
        order::insert_sorted(&mut groups[g].files, item.1);
        proof {
            let after = groups_for(numbers@, reported, all.take(k + 1));
            assert(groups@.len() == before.len());
            assert forall|h: int| 0 <= h < after.len() implies #[trigger] after[h]
                == text::views(groups@)[h] by {
                assert(text::views(before)[h] == before[h]@);
                lemma_files_in_step(all, k, earlier[h].id);
                if h != g {
                    assert(groups@[h] == before[h]);
                    assert(earlier[h].id != id) by {
                        if h > 0 && g > 0 {
                            assert(numbers@[h - 1] != numbers@[g - 1]);
                        }
                    }
                }
                assert(after[h] =~= groups@[h]@);
            }
            assert(text::views(groups@) =~= after);
        }
    }
    assert(all.take(all.len() as int) =~= all);
    groups
}

/// The numbers descend strictly, and every file's changelist is among them.
proof fn lemma_numbers_cover(
    changes: Seq<PendingChangeView>,
    files: Seq<(ChangelistId, ChangelistFileView)>,
)
    ensures
        forall|i: int, j: int|
            0 <= i < j < changelist_numbers(changes, files).len() ==> #[trigger] changelist_numbers(
                changes,
                files,
            )[i] > #[trigger] changelist_numbers(changes, files)[j],
        forall|i: int|
            0 <= i < files.len() ==> ((#[trigger] files[i]).0 matches ChangelistId::Numbered(n)
                ==> changelist_numbers(changes, files).contains(n)),
        forall|i: int|
            0 <= i < changes.len() ==> changelist_numbers(changes, files).contains(
                (#[trigger] changes[i]).number,
            ),
        forall|n: u32| #[trigger]
            changelist_numbers(changes, files).contains(n) ==> (exists|i: int|
                0 <= i < changes.len() && (#[trigger] changes[i]).number == n) || (exists|i: int|
                0 <= i < files.len() && (#[trigger] files[i]).0 == ChangelistId::Numbered(n)),
{
    let f = number_of();
    let reported = changes.map_values(|change: PendingChangeView| change.number);
    let used = seqs::filter_mapped(files, f);
    let listed = reported + used;
    let numbers = changelist_numbers(changes, files);
    distinct_descending_is_exact(listed);
    assert forall|i: int| 0 <= i < files.len() implies ((#[trigger] files[i]).0
        matches ChangelistId::Numbered(n) ==> numbers.contains(n)) by {
        if let ChangelistId::Numbered(n) = files[i].0 {
            assert(f(files[i]) == Some(n));
            seqs::filter_mapped_holds(files, f, n);
            let q = choose|q: int| 0 <= q < used.len() && used[q] == n;
            assert(listed[reported.len() + q] == n);
        }
    }
    assert forall|i: int| 0 <= i < changes.len() implies numbers.contains(
        (#[trigger] changes[i]).number,
    ) by {
        assert(listed[i] == changes[i].number);
    }
    assert forall|n: u32| #[trigger] numbers.contains(n) implies (exists|i: int|
        0 <= i < changes.len() && (#[trigger] changes[i]).number == n) || (exists|i: int|
        0 <= i < files.len() && (#[trigger] files[i]).0 == ChangelistId::Numbered(n)) by {
        assert(listed.contains(n));
        let q = choose|q: int| 0 <= q < listed.len() && listed[q] == n;
        if q < reported.len() {
            assert(changes[q].number == n);
        } else {
            assert(used[q - reported.len()] == n);
            assert(used.contains(n));
            seqs::filter_mapped_holds(files, f, n);
            let i = choose|i: int| 0 <= i < files.len() && f(#[trigger] files[i]) == Some(n);
            assert(files[i].0 == ChangelistId::Numbered(n));
        }
    }
}

/// The default changelist comes first, the others descend strictly by number,
/// and none has a group twice.
pub proof fn groups_are_in_order(
    changes: Seq<PendingChangeView>,
    files: Seq<(ChangelistId, ChangelistFileView)>,
)
    ensures
        changelist_groups(changes, files).len() > 0,
        changelist_groups(changes, files)[0].id == ChangelistId::Default,
        changelist_groups(changes, files)[0].description.len() == 0,
        forall|i: int|
            1 <= i < changelist_groups(changes, files).len() ==> (#[trigger] changelist_groups(
                changes,
                files,
            )[i]).id is Numbered,
        forall|i: int, j: int|
            1 <= i < j < changelist_groups(changes, files).len() ==> (#[trigger] changelist_groups(
                changes,
                files,
            )[i]).id->Numbered_0 > (#[trigger] changelist_groups(changes, files)[j]).id->Numbered_0,
{
    lemma_numbers_cover(changes, files);
    let numbers = changelist_numbers(changes, files);
    let groups = changelist_groups(changes, files);
    assert forall|i: int, j: int| 1 <= i < j < groups.len() implies (
    #[trigger] groups[i]).id->Numbered_0 > (#[trigger] groups[j]).id->Numbered_0 by {
        assert(numbers[i - 1] > numbers[j - 1]);
    }
}

/// A changelist has a group exactly where it is the default one, is reported
/// as pending, or has a file.
pub proof fn groups_are_complete(
    changes: Seq<PendingChangeView>,
    files: Seq<(ChangelistId, ChangelistFileView)>,
    id: ChangelistId,
)
    ensures
        (exists|g: int|
            0 <= g < changelist_groups(changes, files).len() && (#[trigger] changelist_groups(
                changes,
                files,
            )[g]).id == id) <==> id is Default || (exists|i: int|
            0 <= i < changes.len() && ChangelistId::Numbered((#[trigger] changes[i]).number) == id)
            || (exists|i: int| 0 <= i < files.len() && (#[trigger] files[i]).0 == id),
{
    lemma_numbers_cover(changes, files);
    let numbers = changelist_numbers(changes, files);
    let groups = changelist_groups(changes, files);
    if exists|g: int| 0 <= g < groups.len() && (#[trigger] groups[g]).id == id {
        let g = choose|g: int| 0 <= g < groups.len() && (#[trigger] groups[g]).id == id;
        if let ChangelistId::Numbered(n) = id {
            assert(numbers[g - 1] == n);
            assert(numbers.contains(n));
        }
    }
    if id is Default {
        assert(groups[0].id == id);
    } else if (exists|i: int|
        0 <= i < changes.len() && ChangelistId::Numbered((#[trigger] changes[i]).number) == id) || (
    exists|i: int| 0 <= i < files.len() && (#[trigger] files[i]).0 == id) {
        let n = id->Numbered_0;
        if exists|i: int|
            0 <= i < changes.len() && ChangelistId::Numbered((#[trigger] changes[i]).number) == id {
            let i = choose|i: int|
                0 <= i < changes.len() && ChangelistId::Numbered((#[trigger] changes[i]).number)
                    == id;
            assert(numbers.contains(changes[i].number));
        } else {
            let i = choose|i: int| 0 <= i < files.len() && (#[trigger] files[i]).0 == id;
            assert(files[i].0 == ChangelistId::Numbered(n));
        }
        assert(numbers.contains(n));
        let q = choose|q: int| 0 <= q < numbers.len() && numbers[q] == n;
        assert(groups[q + 1].id == id);
    }
}

/// Every file stands in the group of its changelist: none is dropped, even
/// where its changelist was not reported as pending.
pub proof fn no_file_is_dropped(
    changes: Seq<PendingChangeView>,
    files: Seq<(ChangelistId, ChangelistFileView)>,
    i: int,
)
    requires
        0 <= i < files.len(),
    ensures
        exists|g: int|
            0 <= g < changelist_groups(changes, files).len() && (#[trigger] changelist_groups(
                changes,
                files,
            )[g]).id == files[i].0 && changelist_groups(changes, files)[g].files.contains(
                files[i].1,
            ),
{
    let groups = changelist_groups(changes, files);
    let (id, file) = files[i];
    groups_are_complete(changes, files, id);
    assert(files[i].0 == id);
    let g = choose|g: int| 0 <= g < groups.len() && (#[trigger] groups[g]).id == id;
    assert(file_in(id)(files[i]) == Some(file));
    seqs::filter_mapped_holds(files, file_in(id), file);
    order::stable_sorted_holds(files_in(files, id), file_order());
    broadcast use vstd::seq_lib::group_to_multiset_ensures;

    assert(files_in(files, id).to_multiset().count(file) > 0);
    assert(groups[g].files.contains(file));
}

/// A group holds each file of its changelist as often as it was listed, and no
/// other; opened files come before shelved ones, and each kind by path.
pub proof fn group_files_are_exact(
    id: ChangelistId,
    description: Seq<char>,
    files: Seq<(ChangelistId, ChangelistFileView)>,
)
    ensures
        changelist_group(id, description, files).files.to_multiset() == files_in(
            files,
            id,
        ).to_multiset(),
        order::sorted(changelist_group(id, description, files).files, file_order()),
{
    <ChangelistFile as Ordered>::order_is_total();
    order::stable_sorted_holds(files_in(files, id), file_order());
    order::stable_sorted_is_sorted(files_in(files, id), file_order());
}

/// The record of an opened file gives the changelist that it names, by its number
/// or as the default one, and the file as open.
pub proof fn opened_file_reads_back(
    client: Seq<char>,
    record: ztag::Fields,
    id: ChangelistId,
    p: Seq<char>,
    action: Seq<char>,
)
    requires
        path::is_relative(p),
        record.get("action"@) == Some(action),
        record.get("change"@) == Some(changelist_text(id)),
        record.get("clientFile"@) == Some(client::client_syntax(client, p)),
    ensures
        opened_file(client, record) == (match opened::action_status(action) {
            Some(status) => Some((id, ChangelistFileView { path: p, status, shelved: false })),
            None => None,
        }),
{
    changelist_text_reads_back(id);
    client::client_syntax_reads_back(client, p);
}

/// The record of a shelved file gives the number of its changelist, and the file,
/// which is named by its local path, as shelved.
pub proof fn shelved_file_reads_back(
    root: Seq<char>,
    record: ztag::Fields,
    number: u32,
    p: Seq<char>,
    action: Seq<char>,
)
    requires
        path::is_relative(p),
        p.len() > 0,
        !p.contains('\\'),
        record.get("action"@) == Some(action),
        record.get("change"@) == Some(decimal::digits(number as nat)),
        record.get("clientFile"@) == Some(client::normalized_root(root) + "/"@ + p),
    ensures
        shelved_file(root, record) == (match opened::action_status(action) {
            Some(status) => Some((number, ChangelistFileView { path: p, status, shelved: true })),
            None => None,
        }),
{
    decimal::unsigned_reads_back(number as nat, u32::MAX as nat);
    client::local_path_reads_back(root, p);
}

/// A record that lacks the file, the action or the changelist is passed over.
pub proof fn incomplete_records_are_passed_over(
    client: Seq<char>,
    root: Seq<char>,
    record: ztag::Fields,
)
    requires
        !record.contains_key("clientFile"@) || !record.contains_key("action"@)
            || !record.contains_key("change"@),
    ensures
        opened_file(client, record) is None,
        shelved_file(root, record) is None,
{
}

/// A group has the description that was reported for its changelist first.
pub proof fn groups_have_their_descriptions(
    changes: Seq<PendingChangeView>,
    files: Seq<(ChangelistId, ChangelistFileView)>,
    g: int,
    i: int,
)
    requires
        0 <= g < changelist_groups(changes, files).len(),
        0 <= i < changes.len(),
        changelist_groups(changes, files)[g].id == ChangelistId::Numbered(changes[i].number),
        forall|j: int| 0 <= j < i ==> (#[trigger] changes[j]).number != changes[i].number,
    ensures
        changelist_groups(changes, files)[g].description == changes[i].description,
{
    lemma_description(changes, i);
}

/// The first change with a number has the description of the number.
proof fn lemma_description(changes: Seq<PendingChangeView>, i: int)
    requires
        0 <= i < changes.len(),
        forall|j: int| 0 <= j < i ==> (#[trigger] changes[j]).number != changes[i].number,
    ensures
        description_of(changes, changes[i].number) == changes[i].description,
    decreases i,
{
    if i > 0 {
        let rest = changes.skip(1);
        assert(changes[0].number != changes[i].number);
        assert forall|j: int| 0 <= j < i - 1 implies (#[trigger] rest[j]).number != rest[i
            - 1].number by {
            assert(rest[j] == changes[j + 1]);
        }
        lemma_description(rest, i - 1);
    }
}

/// Within a group every open file stands before every shelved one, and files of
/// one kind stand by path.
pub proof fn open_files_stand_first(
    changes: Seq<PendingChangeView>,
    files: Seq<(ChangelistId, ChangelistFileView)>,
    g: int,
    i: int,
    j: int,
)
    requires
        0 <= g < changelist_groups(changes, files).len(),
        0 <= i < j < changelist_groups(changes, files)[g].files.len(),
    ensures
        ({
            let group = changelist_groups(changes, files)[g].files;
            &&& group[i].shelved ==> group[j].shelved
            &&& group[i].shelved == group[j].shelved ==> path::path_le(group[i].path, group[j].path)
        }),
{
    let group = changelist_groups(changes, files)[g];
    ChangelistFile::order_is_total();
    order::stable_sorted_is_sorted(files_in(files, group.id), file_order());
    assert(file_order()(group.files[i], group.files[j]));
}

/// A group holds a file just as often as the file was listed for its changelist.
pub proof fn groups_hold_their_files(
    changes: Seq<PendingChangeView>,
    files: Seq<(ChangelistId, ChangelistFileView)>,
    g: int,
    file: ChangelistFileView,
)
    requires
        0 <= g < changelist_groups(changes, files).len(),
    ensures
        changelist_groups(changes, files)[g].files.contains(file) <==> files.contains(
            (changelist_groups(changes, files)[g].id, file),
        ),
{
    broadcast use vstd::seq_lib::group_to_multiset_ensures;

    let group = changelist_groups(changes, files)[g];
    let listed = files_in(files, group.id);
    order::stable_sorted_holds(listed, file_order());
    assert(group.files.contains(file) <==> group.files.to_multiset().count(file) > 0);
    assert(listed.contains(file) <==> listed.to_multiset().count(file) > 0);
    seqs::filter_mapped_holds(files, file_in(group.id), file);
    if files.contains((group.id, file)) {
        let k = choose|k: int| 0 <= k < files.len() && files[k] == (group.id, file);
        assert(file_in(group.id)(files[k]) == Some(file));
    }
    if listed.contains(file) {
        let k = choose|k: int|
            0 <= k < files.len() && file_in(group.id)(#[trigger] files[k]) == Some(file);
        assert(files[k] == (group.id, file));
    }
}

/// A shelved file stands in the changelist with its number, and an open one in
/// that of its record.
pub proof fn files_keep_their_changelists(
    opened: Seq<(ChangelistId, ChangelistFileView)>,
    shelved: Seq<(u32, ChangelistFileView)>,
    id: ChangelistId,
    file: ChangelistFileView,
)
    ensures
        all_files(opened, shelved).contains((id, file)) <==> opened.contains((id, file)) || (
        id matches ChangelistId::Numbered(n) && shelved.contains((n, file))),
{
    let all = all_files(opened, shelved);
    if all.contains((id, file)) {
        let k = choose|k: int| 0 <= k < all.len() && all[k] == (id, file);
        if k < opened.len() {
            assert(opened[k] == (id, file));
        } else {
            assert(shelved[k - opened.len()] == (id->Numbered_0, file));
        }
    }
    if opened.contains((id, file)) {
        let k = choose|k: int| 0 <= k < opened.len() && opened[k] == (id, file);
        assert(all[k] == (id, file));
    }
    if let ChangelistId::Numbered(n) = id {
        if shelved.contains((n, file)) {
            let k = choose|k: int| 0 <= k < shelved.len() && shelved[k] == (n, file);
            assert(all[k + opened.len()] == (id, file));
        }
    }
}

} // verus!
