//! The files open in a client, as `p4 opened` and `p4 fstat` report them.

use crate::decimal;
use crate::order;
use crate::order::Ordered;
use crate::path;
use crate::path::RepoPath;
use crate::perforce::client;
use crate::perforce::client::{client_path_to_repo_path, file_to_repo_path};
use crate::perforce::ztag;
use crate::perforce::ztag::parse_ztag;
use crate::seqs;
use crate::status;
use crate::status::{FileStatus, GitStatus, StatusCode};
use crate::text;
use crate::text_map::{PathSet, TextMap};
use vstd::prelude::*;

verus! {

/// Whether an action verb opens a file that the depot does not have yet.
pub open spec fn is_add_action(action: Seq<char>) -> bool {
    action == "add"@ || action == "branch"@ || action == "import"@ || action == "move/add"@
}

/// Whether an action verb opens a file for removal.
pub open spec fn is_delete_action(action: Seq<char>) -> bool {
    action == "delete"@ || action == "move/delete"@ || action == "purge"@
}

/// Whether an action verb opens a file for change.
pub open spec fn is_edit_action(action: Seq<char>) -> bool {
    action == "edit"@ || action == "integrate"@ || action == "archive"@
}

/// The state of a file opened with an action verb: an unstaged change.
pub open spec fn action_status(action: Seq<char>) -> Option<FileStatus> {
    if is_add_action(action) {
        Some(status::worktree_status(StatusCode::Added))
    } else if is_delete_action(action) {
        Some(status::worktree_status(StatusCode::Deleted))
    } else if is_edit_action(action) {
        Some(status::worktree_status(StatusCode::Modified))
    } else {
        None
    }
}

/// Whether an action verb opens a file that the depot does not have yet.
pub fn action_adds(action: &str) -> (r: bool)
    ensures
        r == is_add_action(action@),
{
    let a = text::to_chars(action);
    let a = a.as_slice();
    text::is_text(a, "add") || text::is_text(a, "branch") || text::is_text(a, "import")
        || text::is_text(a, "move/add")
}

/// Whether an action verb opens a file for removal.
pub fn action_deletes(action: &str) -> (r: bool)
    ensures
        r == is_delete_action(action@),
{
    let a = text::to_chars(action);
    let a = a.as_slice();
    text::is_text(a, "delete") || text::is_text(a, "move/delete") || text::is_text(a, "purge")
}

/// The state that a `p4 opened` or `fstat` action verb stands for. The opened
/// state counts as an unstaged change; an unknown verb stands for none.
pub fn action_to_status(action: &str) -> (r: Option<FileStatus>)
    ensures
        r == action_status(action@),
{
    if action_adds(action) {
        return Some(FileStatus::worktree(StatusCode::Added));
    }
    if action_deletes(action) {
        return Some(FileStatus::worktree(StatusCode::Deleted));
    }
    let a = text::to_chars(action);
    let a = a.as_slice();
    if text::is_text(a, "edit") || text::is_text(a, "integrate") || text::is_text(a, "archive") {
        Some(FileStatus::worktree(StatusCode::Modified))
    } else {
        None
    }
}

/// The path and action verb of an opened file's record.
pub open spec fn opened_action(client: Seq<char>, record: ztag::Fields) -> Option<
    (Seq<char>, Seq<char>),
> {
    match (record.get("clientFile"@), record.get("action"@)) {
        (Some(file), Some(action)) => match client::repo_path_of_client_path(client, file) {
            Some(p) => Some((p, action)),
            None => None,
        },
        _ => None,
    }
}

/// The action verbs by path; where a path occurs twice, the later verb.
pub open spec fn opened_actions(client: Seq<char>, records: Seq<ztag::Fields>) -> Map<
    Seq<char>,
    Seq<char>,
>
    decreases records.len(),
{
    if records.len() == 0 {
        Map::empty()
    } else {
        let earlier = opened_actions(client, records.drop_last());
        match opened_action(client, records.last()) {
            Some((p, action)) => earlier.insert(p, action),
            None => earlier,
        }
    }
}

/// Parses `p4 -ztag opened` into a map from repository path to action verb.
pub fn parse_opened_actions(client_name: &str, opened_output: &str) -> (r: TextMap)
    ensures
        r@ == opened_actions(client_name@, ztag::records_of(opened_output@)),
{
    let records = parse_ztag(opened_output);
    let ghost all = text::views(records@);
    let mut map = TextMap::new();
    let mut i: usize = 0;
    while i < records.len()
        invariant
            i <= records.len(),
            all == text::views(records@),
            map@ == opened_actions(client_name@, all.take(i as int)),
        decreases records.len() - i,
    {
        assert(all.take(i + 1).drop_last() =~= all.take(i as int));
        assert(all[i as int] == records@[i as int]@);
        let record = &records[i];
        if let (Some(file), Some(action)) = (record.get("clientFile"), record.get("action")) {
            if let Some(p) = client_path_to_repo_path(client_name, file.as_str()) {
                map.insert(p.as_unix_str().to_owned(), action.clone());
            }
        }
        i = i + 1;
    }
    assert(all.take(i as int) =~= all);
    map
}

/// The path and state of an opened file's record.
pub open spec fn opened_entry(client: Seq<char>, record: ztag::Fields) -> Option<
    (Seq<char>, FileStatus),
> {
    match opened_action(client, record) {
        Some((p, action)) => match action_status(action) {
            Some(s) => Some((p, s)),
            None => None,
        },
        None => None,
    }
}

/// The entries of all records that give one, in order.
pub open spec fn opened_entries(client: Seq<char>, records: Seq<ztag::Fields>) -> Seq<
    (Seq<char>, FileStatus),
> {
    seqs::filter_mapped(records, |record: ztag::Fields| opened_entry(client, record))
}

/// The order of entries by their paths.
pub open spec fn entry_order() -> spec_fn((Seq<char>, FileStatus), (Seq<char>, FileStatus)) -> bool {
    |a: (Seq<char>, FileStatus), b: (Seq<char>, FileStatus)| path::path_le(a.0, b.0)
}

/// The entries without those whose path is that of the entry before.
pub open spec fn first_of_each_path(entries: Seq<(Seq<char>, FileStatus)>) -> Seq<
    (Seq<char>, FileStatus),
>
    decreases entries.len(),
{
    if entries.len() == 0 {
        Seq::empty()
    } else {
        let kept = first_of_each_path(entries.drop_last());
        if kept.len() > 0 && kept.last().0 == entries.last().0 {
            kept
        } else {
            kept.push(entries.last())
        }
    }
}

/// The status that the records of `p4 opened` give: one entry for each path,
/// in the order of the paths, from the first record of the path.
pub open spec fn opened_status(client: Seq<char>, records: Seq<ztag::Fields>) -> Seq<
    (Seq<char>, FileStatus),
> {
    first_of_each_path(order::stable_sorted(opened_entries(client, records), entry_order()))
}

impl Ordered for (RepoPath, FileStatus) {
    open spec fn order() -> spec_fn((Seq<char>, FileStatus), (Seq<char>, FileStatus)) -> bool {
        entry_order()
    }

    proof fn order_is_total() {
        let le = entry_order();
        assert forall|a: (Seq<char>, FileStatus), b: (Seq<char>, FileStatus)| #[trigger]
            le(a, b) || le(b, a) by {
            path::path_le_is_total(a.0, b.0);
        }
        assert forall|
            a: (Seq<char>, FileStatus),
            b: (Seq<char>, FileStatus),
            c: (Seq<char>, FileStatus),
        | #[trigger]
            le(a, b) && #[trigger] le(b, c) implies le(a, c) by {
            path::path_le_is_transitive(a.0, b.0, c.0);
        }
    }

    fn stands_before(&self, other: &(RepoPath, FileStatus)) -> (r: bool) {
        self.0.le(&other.0)
    }
}

/// Builds the status from the output of `p4 -ztag opened`, which lists exactly
/// the files open in the client.
pub fn parse_opened_status(client_name: &str, opened_output: &str) -> (r: GitStatus)
    ensures
        r@ == opened_status(client_name@, ztag::records_of(opened_output@)),
{
    let records = parse_ztag(opened_output);
    let ghost all = text::views(records@);
    let ghost f = |record: ztag::Fields| opened_entry(client_name@, record);
    let mut sorted: Vec<(RepoPath, FileStatus)> = Vec::new();
    let mut i: usize = 0;
    assert(all.take(0) =~= Seq::<ztag::Fields>::empty());
    assert(text::views(sorted@) =~= Seq::<(Seq<char>, FileStatus)>::empty());
    while i < records.len()
        invariant
            i <= records.len(),
            all == text::views(records@),
            f == (|record: ztag::Fields| opened_entry(client_name@, record)),
            text::views(sorted@) == order::stable_sorted(
                seqs::filter_mapped(all.take(i as int), f),
                entry_order(),
            ),
            order::sorted(text::views(sorted@), entry_order()),
        decreases records.len() - i,
    {
        proof {
            seqs::lemma_filter_mapped_step(all, f, i as int);
        }
        assert(all[i as int] == records@[i as int]@);
        let ghost before = seqs::filter_mapped(all.take(i as int), f);
        let record = &records[i];
        if let (Some(action), Some(file)) = (record.get("action"), record.get("clientFile")) {
            if let Some(s) = action_to_status(action.as_str()) {
                if let Some(p) = client_path_to_repo_path(client_name, file.as_str()) {
                    assert(before.push((p@, s)).drop_last() =~= before);
                    order::insert_sorted(&mut sorted, (p, s));
                }
            }
        }
        i = i + 1;
    }
    assert(all.take(i as int) =~= all);
    let ghost whole = text::views(sorted@);
    let mut entries: Vec<(RepoPath, FileStatus)> = Vec::new();
    let n: usize = sorted.len();
    let mut k: usize = 0;
    assert(whole.take(0) =~= Seq::<(Seq<char>, FileStatus)>::empty());
    assert(text::views(entries@) =~= Seq::<(Seq<char>, FileStatus)>::empty());
    while k < n
        invariant
            k <= n,
            n == sorted.len(),
            whole == text::views(sorted@),
            text::views(entries@) == first_of_each_path(whole.take(k as int)),
        decreases n - k,
    {
        assert(whole.take(k + 1).drop_last() =~= whole.take(k as int));
        assert(whole.take(k + 1).last() == sorted@[k as int]@);
        let ghost before = entries@;
        let m: usize = entries.len();
        if m > 0 {
            assert(text::views(entries@).last() == entries@[m - 1]@);
        }
        if m == 0 || !entries[m - 1].0.same(&sorted[k].0) {
            entries.push((sorted[k].0.clone(), sorted[k].1));
            assert(text::views(entries@) =~= text::views(before).push(whole[k as int]));
        }
        k = k + 1;
    }
    assert(whole.take(k as int) =~= whole);
    GitStatus { entries }
}

/// A status lists its paths in strictly ascending order, so that none occurs
/// twice.
pub proof fn opened_status_is_ascending(client: Seq<char>, records: Seq<ztag::Fields>)
    ensures
        forall|i: int, j: int|
            0 <= i < j < opened_status(client, records).len() ==> path::path_le(
                #[trigger] opened_status(client, records)[i].0,
                #[trigger] opened_status(client, records)[j].0,
            ) && opened_status(client, records)[i].0 != opened_status(client, records)[j].0,
{
    <(RepoPath, FileStatus) as Ordered>::order_is_total();
    order::stable_sorted_is_sorted(opened_entries(client, records), entry_order());
    lemma_first_of_each_path(order::stable_sorted(opened_entries(client, records), entry_order()));
}

/// Of entries in order, the first of each path are in strictly ascending
/// order, and hold every path.
proof fn lemma_first_of_each_path(entries: Seq<(Seq<char>, FileStatus)>)
    requires
        order::sorted(entries, entry_order()),
    ensures
        ({
            let kept = first_of_each_path(entries);
            &&& kept.len() > 0 <==> entries.len() > 0
            &&& entries.len() > 0 ==> kept.last().0 == entries.last().0
            &&& forall|i: int, j: int|
                0 <= i < j < kept.len() ==> path::path_le(
                    #[trigger] kept[i].0,
                    #[trigger] kept[j].0,
                ) && kept[i].0 != kept[j].0
            &&& forall|i: int|
                0 <= i < kept.len() ==> entries.contains(#[trigger] kept[i])
            &&& forall|i: int|
                0 <= i < entries.len() ==> exists|k: int|
                    0 <= k < kept.len() && kept[k].0 == (#[trigger] entries[i]).0
        }),
    decreases entries.len(),
{
    if entries.len() > 0 {
        let rest = entries.drop_last();
        let kept = first_of_each_path(rest);
        let r = first_of_each_path(entries);
        let le = entry_order();
        assert forall|i: int, j: int| 0 <= i <= j < rest.len() implies #[trigger] le(
            rest[i],
            rest[j],
        ) by {
            assert(le(entries[i], entries[j]));
        }
        lemma_first_of_each_path(rest);
        assert forall|i: int| 0 <= i < r.len() implies entries.contains(#[trigger] r[i]) by {
            if i < kept.len() {
                assert(rest.contains(kept[i]));
                let q = choose|q: int| 0 <= q < rest.len() && rest[q] == kept[i];
                assert(entries[q] == kept[i]);
            } else {
                assert(entries[entries.len() - 1] == r[i]);
            }
        }
        assert forall|i: int, j: int| 0 <= i < j < r.len() implies path::path_le(
            #[trigger] r[i].0,
            #[trigger] r[j].0,
        ) && r[i].0 != r[j].0 by {
            if j == kept.len() {
                let last = kept.len() - 1;
                assert(kept[last].0 == rest.last().0);
                assert(le(entries[entries.len() - 2], entries[entries.len() - 1]));
                if i < last {
                    path::path_le_is_transitive(kept[i].0, kept[last].0, entries.last().0);
                    if kept[i].0 == entries.last().0 {
                        path::path_le_is_total(kept[i].0, kept[last].0);
                    }
                }
            }
        }
        assert forall|i: int| 0 <= i < entries.len() implies exists|k: int|
            0 <= k < r.len() && r[k].0 == (#[trigger] entries[i]).0 by {
            if i < rest.len() {
                assert(rest[i] == entries[i]);
                let k = choose|k: int| 0 <= k < kept.len() && kept[k].0 == rest[i].0;
                assert(r[k].0 == entries[i].0);
            } else {
                assert(r[r.len() - 1].0 == entries[i].0);
            }
        }
    }
}

/// Every opened file has an entry in the status, and every entry is that of an
/// opened file.
pub proof fn opened_status_is_complete(client: Seq<char>, records: Seq<ztag::Fields>, p: Seq<char>)
    ensures
        (exists|k: int|
            0 <= k < opened_status(client, records).len() && (#[trigger] opened_status(
                client,
                records,
            )[k]).0 == p) <==> (exists|i: int|
            0 <= i < records.len() && ((#[trigger] opened_entry(client, records[i])) matches Some(e)
                && e.0 == p)),
{
    let f = |record: ztag::Fields| opened_entry(client, record);
    let found = opened_entries(client, records);
    let ordered = order::stable_sorted(found, entry_order());
    let r = opened_status(client, records);
    <(RepoPath, FileStatus) as Ordered>::order_is_total();
    order::stable_sorted_is_sorted(found, entry_order());
    order::stable_sorted_holds(found, entry_order());
    lemma_first_of_each_path(ordered);
    broadcast use vstd::seq_lib::group_to_multiset_ensures;

    if exists|k: int| 0 <= k < r.len() && (#[trigger] r[k]).0 == p {
        let k = choose|k: int| 0 <= k < r.len() && (#[trigger] r[k]).0 == p;
        assert(ordered.contains(r[k]));
        assert(found.to_multiset().count(r[k]) > 0);
        assert(found.contains(r[k]));
        seqs::filter_mapped_holds(records, f, r[k]);
        let i = choose|i: int| 0 <= i < records.len() && f(#[trigger] records[i]) == Some(r[k]);
        assert(opened_entry(client, records[i]) == Some((p, r[k].1)));
    }
    if exists|i: int|
        0 <= i < records.len() && ((#[trigger] opened_entry(client, records[i])) matches Some(e)
            && e.0 == p) {
        let i = choose|i: int|
            0 <= i < records.len() && ((#[trigger] opened_entry(client, records[i])) matches Some(e)
                && e.0 == p);
        let s = (opened_entry(client, records[i])->0).1;
        assert(f(records[i]) == Some((p, s)));
        seqs::filter_mapped_holds(records, f, (p, s));
        assert(ordered.to_multiset().count((p, s)) > 0);
        assert(ordered.contains((p, s)));
        let q = choose|q: int| 0 <= q < ordered.len() && ordered[q] == (p, s);
        assert(ordered[q].0 == p);
    }
}

/// The revision number that a record's field holds.
pub open spec fn revision_field(record: ztag::Fields, key: Seq<char>) -> Option<nat> {
    match record.get(key) {
        Some(value) => decimal::unsigned_value(text::trimmed(value), u64::MAX as nat),
        None => None,
    }
}

/// What names a record's file, where the synced revision is behind the head
/// revision.
pub open spec fn stale_file(record: ztag::Fields) -> Option<Seq<char>> {
    match (
        revision_field(record, "haveRev"@),
        revision_field(record, "headRev"@),
        record.get("clientFile"@),
    ) {
        (Some(have), Some(head), Some(file)) => if have < head {
            Some(file)
        } else {
            None
        },
        _ => None,
    }
}

/// The path of a record's file, where the synced revision is behind the head
/// revision. Without a root the file is named in client syntax; with one it may
/// be named by a local path too.
pub open spec fn stale_path(
    client: Seq<char>,
    root: Option<Seq<char>>,
    record: ztag::Fields,
) -> Option<Seq<char>> {
    match (stale_file(record), root) {
        (Some(file), Some(root)) => client::repo_path_of_file(client, root, file),
        (Some(file), None) => client::repo_path_of_client_path(client, file),
        (None, _) => None,
    }
}

/// The paths of all records' files that are behind the head revision.
pub open spec fn stale_paths(
    client: Seq<char>,
    root: Option<Seq<char>>,
    records: Seq<ztag::Fields>,
) -> Set<Seq<char>> {
    Set::new(
        |p: Seq<char>|
            exists|i: int|
                0 <= i < records.len() && #[trigger] stale_path(client, root, records[i]) == Some(
                    p,
                ),
    )
}

/// The revision number that a record's field holds.
fn parse_revision(record: &TextMap, key: &str) -> (r: Option<u64>)
    ensures
        match r {
            Some(n) => revision_field(record@, key@) == Some(n as nat),
            None => revision_field(record@, key@) is None,
        },
{
    match record.get(key) {
        Some(value) => {
            let chars = text::to_chars(value.as_str());
            decimal::parse_unsigned(text::trim(chars.as_slice()), u64::MAX)
        },
        None => None,
    }
}

/// The path of a record's file, where the synced revision is behind the head
/// revision.
fn stale_record(client_name: &str, root: Option<&str>, record: &TextMap) -> (r: Option<RepoPath>)
    ensures
        text::option_view(r) == stale_path(client_name@, text::option_view(root), record@),
{
    let have = parse_revision(record, "haveRev");
    let head = parse_revision(record, "headRev");
    match (have, head, record.get("clientFile")) {
        (Some(have), Some(head), Some(file)) => {
            if have >= head {
                return None;
            }
            match root {
                Some(root) => file_to_repo_path(client_name, root, file.as_str()),
                None => client_path_to_repo_path(client_name, file.as_str()),
            }
        },
        _ => None,
    }
}

/// Parses `p4 -ztag fstat -Ro` with files in client syntax into the set of opened
/// files whose synced revision is behind the head revision. A file without either
/// revision, such as one opened for add, is not behind.
pub fn parse_out_of_date(client_name: &str, fstat_output: &str) -> (r: PathSet)
    ensures
        r@ == stale_paths(client_name@, None, ztag::records_of(fstat_output@)),
{
    collect_stale(client_name, None, fstat_output)
}

/// Parses `p4 -ztag fstat -Ro` into the set of opened files whose synced revision
/// is behind the head revision. `fstat` names files by local paths; client syntax
/// is read too.
pub fn parse_out_of_date_files(
    client_name: &str,
    working_directory: &str,
    fstat_output: &str,
) -> (r: PathSet)
    ensures
        r@ == stale_paths(
            client_name@,
            Some(working_directory@),
            ztag::records_of(fstat_output@),
        ),
{
    collect_stale(client_name, Some(working_directory), fstat_output)
}

/// The set of the files that are behind the head revision.
fn collect_stale(client_name: &str, root: Option<&str>, fstat_output: &str) -> (r: PathSet)
    ensures
        r@ == stale_paths(
            client_name@,
            text::option_view(root),
            ztag::records_of(fstat_output@),
        ),
{
    let records = parse_ztag(fstat_output);
    let ghost all = text::views(records@);
    let ghost top = text::option_view(root);
    let mut set = PathSet::new();
    let mut i: usize = 0;
    assert(set@ =~= stale_paths(client_name@, top, all.take(0)));
    while i < records.len()
        invariant
            i <= records.len(),
            all == text::views(records@),
            top == text::option_view(root),
            set@ == stale_paths(client_name@, top, all.take(i as int)),
        decreases records.len() - i,
    {
        let ghost before = set@;
        assert(all[i as int] == records@[i as int]@);
        let found = stale_record(client_name, root, &records[i]);
        if let Some(p) = &found {
            set.insert(p);
        }
        proof {
            let earlier = all.take(i as int);
            let upto = all.take(i + 1);
            assert forall|p: Seq<char>| #[trigger] set@.contains(p) implies stale_paths(
                client_name@,
                top,
                upto,
            ).contains(p) by {
                if before.contains(p) {
                    let k = choose|k: int|
                        0 <= k < earlier.len() && #[trigger] stale_path(
                            client_name@,
                            top,
                            earlier[k],
                        ) == Some(p);
                    assert(stale_path(client_name@, top, upto[k]) == Some(p));
                } else {
                    assert(stale_path(client_name@, top, upto[i as int]) == Some(p));
                }
            }
            assert forall|p: Seq<char>| #[trigger]
                stale_paths(client_name@, top, upto).contains(p) implies set@.contains(p) by {
                let k = choose|k: int|
                    0 <= k < upto.len() && #[trigger] stale_path(client_name@, top, upto[k])
                        == Some(p);
                if k < i {
                    assert(stale_path(client_name@, top, earlier[k]) == Some(p));
                    assert(before.contains(p));
                }
            }
            assert(set@ =~= stale_paths(client_name@, top, upto));
        }
        i = i + 1;
    }
    assert(all.take(i as int) =~= all);
    set
}

/// The verbs that are known: those of a new file, of a file that goes, and of a
/// file that changes. Any other verb stands for nothing.
pub proof fn known_verbs_have_a_state(action: Seq<char>)
    ensures
        action_status(action) is Some <==> seq![
            "add"@,
            "branch"@,
            "import"@,
            "move/add"@,
            "delete"@,
            "move/delete"@,
            "purge"@,
            "edit"@,
            "integrate"@,
            "archive"@,
        ].contains(action),
        action_status(action) matches Some(s) ==> (is_add_action(action) <==> s.says(
            StatusCode::Added,
        )) && (is_delete_action(action) <==> s.says(StatusCode::Deleted)) && !(is_add_action(action)
            && is_delete_action(action)),
{
    let known = seq![
        "add"@,
        "branch"@,
        "import"@,
        "move/add"@,
        "delete"@,
        "move/delete"@,
        "purge"@,
        "edit"@,
        "integrate"@,
        "archive"@,
    ];
    assert(known[0] == "add"@ && known[1] == "branch"@ && known[2] == "import"@ && known[3]
        == "move/add"@ && known[4] == "delete"@ && known[5] == "move/delete"@ && known[6]
        == "purge"@ && known[7] == "edit"@ && known[8] == "integrate"@ && known[9] == "archive"@);
    reveal_strlit("add");
    reveal_strlit("branch");
    reveal_strlit("import");
    reveal_strlit("move/add");
    reveal_strlit("delete");
    reveal_strlit("move/delete");
    reveal_strlit("purge");
    assert("add"@[0] == 'a' && "branch"@[0] == 'b' && "import"@[0] == 'i' && "move/add"@[0] == 'm');
    assert("delete"@[0] == 'd' && "purge"@[0] == 'p' && "move/delete"@[5] == 'd' && "move/add"@[5]
        == 'a' && "move/delete"@[0] == 'm');
    if known.contains(action) {
        let k = choose|k: int| 0 <= k < known.len() && known[k] == action;
        assert(known[k] == action);
    }
}

/// The record of an opened file, in client syntax, gives its path and verb, and
/// its state where the verb is known.
pub proof fn opened_record_reads_back(
    client: Seq<char>,
    record: ztag::Fields,
    p: Seq<char>,
    action: Seq<char>,
)
    requires
        path::is_relative(p),
        record.get("clientFile"@) == Some(client::client_syntax(client, p)),
        record.get("action"@) == Some(action),
    ensures
        opened_action(client, record) == Some((p, action)),
        opened_entry(client, record) == (match action_status(action) {
            Some(s) => Some((p, s)),
            None => None,
        }),
{
    client::client_syntax_reads_back(client, p);
}

/// Whether a record names the path as one of the client's opened files.
pub open spec fn names(client: Seq<char>, record: ztag::Fields, p: Seq<char>) -> bool {
    opened_action(client, record) matches Some(e) && e.0 == p
}

/// A path has the verb of the last record that names it.
pub proof fn last_verb_counts(
    client: Seq<char>,
    records: Seq<ztag::Fields>,
    i: int,
    p: Seq<char>,
    verb: Seq<char>,
)
    requires
        0 <= i < records.len(),
        opened_action(client, records[i]) == Some((p, verb)),
        forall|j: int| i < j < records.len() ==> !#[trigger] names(client, records[j], p),
    ensures
        opened_actions(client, records).get(p) == Some(verb),
    decreases records.len(),
{
    let rest = records.drop_last();
    if i < rest.len() {
        assert forall|j: int| i < j < rest.len() implies !#[trigger] names(client, rest[j], p) by {
            assert(!names(client, records[j], p));
        }
        last_verb_counts(client, rest, i, p, verb);
        assert(!names(client, records[records.len() - 1], p));
    }
}

/// A path that no record names has no verb.
pub proof fn unnamed_paths_have_no_verb(
    client: Seq<char>,
    records: Seq<ztag::Fields>,
    p: Seq<char>,
)
    requires
        forall|j: int| 0 <= j < records.len() ==> !#[trigger] names(client, records[j], p),
    ensures
        !opened_actions(client, records).contains_key(p),
    decreases records.len(),
{
    if records.len() > 0 {
        let rest = records.drop_last();
        assert forall|j: int| 0 <= j < rest.len() implies !#[trigger] names(client, rest[j], p) by {
            assert(!names(client, records[j], p));
        }
        unnamed_paths_have_no_verb(client, rest, p);
        assert(!names(client, records[records.len() - 1], p));
    }
}

/// Every entry of a status, path and state together, is that of a record.
pub proof fn status_entries_come_from_records(
    client: Seq<char>,
    records: Seq<ztag::Fields>,
    k: int,
)
    requires
        0 <= k < opened_status(client, records).len(),
    ensures
        exists|i: int|
            0 <= i < records.len() && #[trigger] opened_entry(client, records[i]) == Some(
                opened_status(client, records)[k],
            ),
{
    let f = |record: ztag::Fields| opened_entry(client, record);
    let found = opened_entries(client, records);
    let ordered = order::stable_sorted(found, entry_order());
    let e = opened_status(client, records)[k];
    <(RepoPath, FileStatus) as Ordered>::order_is_total();
    order::stable_sorted_is_sorted(found, entry_order());
    order::stable_sorted_holds(found, entry_order());
    lemma_first_of_each_path(ordered);
    broadcast use vstd::seq_lib::group_to_multiset_ensures;

    assert(ordered.contains(e));
    assert(found.to_multiset().count(e) > 0);
    assert(found.contains(e));
    seqs::filter_mapped_holds(records, f, e);
    let i = choose|i: int| 0 <= i < records.len() && f(#[trigger] records[i]) == Some(e);
    assert(opened_entry(client, records[i]) == Some(e));
}

/// A file is behind exactly where its synced revision, as it was written, is
/// below the head revision, for all revisions that a machine word holds.
pub proof fn written_revisions_are_compared(
    client: Seq<char>,
    root: Seq<char>,
    record: ztag::Fields,
    p: Seq<char>,
    have: u64,
    head: u64,
)
    requires
        path::is_relative(p),
        record.get("haveRev"@) == Some(decimal::digits(have as nat)),
        record.get("headRev"@) == Some(decimal::digits(head as nat)),
        record.get("clientFile"@) == Some(client::client_syntax(client, p)),
    ensures
        stale_paths(client, None, seq![record]).contains(p) <==> have < head,
        stale_paths(client, Some(root), seq![record]).contains(p) <==> have < head,
        forall|q: Seq<char>| q != p ==> !stale_paths(client, None, seq![record]).contains(q),
        forall|q: Seq<char>| q != p ==> !stale_paths(client, Some(root), seq![record]).contains(q),
{
    lemma_written_revision(record, "haveRev"@, have);
    lemma_written_revision(record, "headRev"@, head);
    client::client_syntax_reads_back(client, p);
    let records = seq![record];
    assert(records[0] == record);
    assert(stale_path(client, None, records[0]) == (if have < head {
        Some(p)
    } else {
        None
    }));
    assert(stale_path(client, Some(root), records[0]) == stale_path(client, None, records[0]));
}

/// The same of a file that is named by its local path below the root.
pub proof fn written_revisions_of_local_files_are_compared(
    client: Seq<char>,
    root: Seq<char>,
    record: ztag::Fields,
    p: Seq<char>,
    have: u64,
    head: u64,
)
    requires
        path::is_relative(p),
        p.len() > 0,
        !p.contains('\\'),
        !client::client_prefix(client).is_prefix_of(client::normalized_root(root) + "/"@ + p),
        record.get("haveRev"@) == Some(decimal::digits(have as nat)),
        record.get("headRev"@) == Some(decimal::digits(head as nat)),
        record.get("clientFile"@) == Some(client::normalized_root(root) + "/"@ + p),
    ensures
        stale_paths(client, Some(root), seq![record]).contains(p) <==> have < head,
{
    lemma_written_revision(record, "haveRev"@, have);
    lemma_written_revision(record, "headRev"@, head);
    client::either_name_gives_the_path(client, root, p);
    let records = seq![record];
    assert(records[0] == record);
    assert(stale_path(client, Some(root), records[0]) == (if have < head {
        Some(p)
    } else {
        None
    }));
}

/// A revision is read back from its digits.
proof fn lemma_written_revision(record: ztag::Fields, key: Seq<char>, n: u64)
    requires
        record.get(key) == Some(decimal::digits(n as nat)),
    ensures
        revision_field(record, key) == Some(n as nat),
{
    let d = decimal::digits(n as nat);
    decimal::digits_read_back(n as nat);
    assert(decimal::is_digit(d[0]) && decimal::is_digit(d[d.len() - 1]));
    text::firm_text_is_not_trimmed(d);
    decimal::unsigned_reads_back(n as nat, u64::MAX as nat);
}

/// A file whose record lacks a revision is not behind: one that was just added
/// has none.
pub proof fn files_without_revisions_are_not_behind(
    client: Seq<char>,
    root: Option<Seq<char>>,
    record: ztag::Fields,
)
    requires
        !record.contains_key("haveRev"@) || !record.contains_key("headRev"@)
            || !record.contains_key("clientFile"@),
    ensures
        stale_path(client, root, record) is None,
{
}

/// The files that are behind are those of each record: what two outputs report
/// together is what each reports.
pub proof fn records_are_judged_one_by_one(
    client: Seq<char>,
    root: Option<Seq<char>>,
    a: Seq<ztag::Fields>,
    b: Seq<ztag::Fields>,
)
    ensures
        stale_paths(client, root, a + b) == stale_paths(client, root, a).union(
            stale_paths(client, root, b),
        ),
{
    let whole = a + b;
    assert forall|p: Seq<char>| stale_paths(client, root, whole).contains(p) <==> stale_paths(
        client,
        root,
        a,
    ).contains(p) || stale_paths(client, root, b).contains(p) by {
        if stale_paths(client, root, whole).contains(p) {
            let i = choose|i: int|
                0 <= i < whole.len() && #[trigger] stale_path(client, root, whole[i]) == Some(p);
            if i < a.len() {
                assert(stale_path(client, root, a[i]) == Some(p));
            } else {
                assert(stale_path(client, root, b[i - a.len()]) == Some(p));
            }
        }
        if stale_paths(client, root, a).contains(p) {
            let i = choose|i: int|
                0 <= i < a.len() && #[trigger] stale_path(client, root, a[i]) == Some(p);
            assert(stale_path(client, root, whole[i]) == Some(p));
        }
        if stale_paths(client, root, b).contains(p) {
            let i = choose|i: int|
                0 <= i < b.len() && #[trigger] stale_path(client, root, b[i]) == Some(p);
            assert(stale_path(client, root, whole[i + a.len()]) == Some(p));
        }
    }
    assert(stale_paths(client, root, whole) =~= stale_paths(client, root, a).union(
        stale_paths(client, root, b),
    ));
}

} // verus!
