//! The rows of the panel: a header for each changelist and, below the headers
//! that are expanded, their files.

use crate::decimal;
use crate::panel::expansion::Expanded;
use crate::perforce::changelists::{
    ChangelistFile, ChangelistFileView, ChangelistId, PerforceChangelist, PerforceChangelistView,
};
use crate::perforce::describe;
use crate::path::RepoPath;
use crate::status;
use crate::status::{FileStatus, StatusCode};
use crate::text;
use crate::text_map::PathSet;
use vstd::prelude::*;
use vstd::string::{StrSliceExecFns, StringExecFns};

verus! {

/// What a row shows: a changelist, or a file of one. The numbers are places in
/// the list of changelists and in the changelist's list of files.
#[derive(Debug, Clone, Copy, PartialEq, Eq, Structural)]
pub enum RowRef {
    Header(usize),
    File(usize, usize),
}

/// The rows of the files of the changelist at place `ci`.
pub open spec fn file_rows(ci: int, files: nat) -> Seq<RowRef> {
    Seq::new(files, |fi: int| RowRef::File(ci as usize, fi as usize))
}

/// The rows of the changelist at place `ci`.
pub open spec fn changelist_rows(
    ci: int,
    changelist: PerforceChangelistView,
    expanded: Set<ChangelistId>,
) -> Seq<RowRef> {
    seq![RowRef::Header(ci as usize)] + if expanded.contains(changelist.id) {
        file_rows(ci, changelist.files.len())
    } else {
        Seq::empty()
    }
}

/// The rows of some changelists, one after the other.
pub open spec fn rows(
    changelists: Seq<PerforceChangelistView>,
    expanded: Set<ChangelistId>,
) -> Seq<RowRef>
    decreases changelists.len(),
{
    if changelists.len() == 0 {
        Seq::empty()
    } else {
        rows(changelists.drop_last(), expanded) + changelist_rows(
            changelists.len() - 1,
            changelists.last(),
            expanded,
        )
    }
}

/// The rows of some changelists.
pub fn build_rows(changelists: &Vec<PerforceChangelist>, expanded: &Expanded) -> (r: Vec<RowRef>)
    ensures
        r@ == rows(text::views(changelists@), expanded@),
{
    let ghost all = text::views(changelists@);
    let n: usize = changelists.len();
    let mut out: Vec<RowRef> = Vec::new();
    let mut ci: usize = 0;
    while ci < n
        invariant
            ci <= n,
            n == changelists@.len(),
            all == text::views(changelists@),
            out@ == rows(all.take(ci as int), expanded@),
        decreases n - ci,
    {
        let changelist = &changelists[ci];
        let ghost before = out@;
        out.push(RowRef::Header(ci));
        assert(all[ci as int] == changelist@);
        if expanded.contains(changelist.id) {
            let files: usize = changelist.files.len();
            let mut fi: usize = 0;
            assert(out@ =~= before + (seq![RowRef::Header(ci)] + file_rows(ci as int, 0)));
            while fi < files
                invariant
                    fi <= files,
                    out@ == before + (seq![RowRef::Header(ci)] + file_rows(ci as int, fi as nat)),
                decreases files - fi,
            {
                out.push(RowRef::File(ci, fi));
                fi = fi + 1;
                assert(out@ =~= before + (seq![RowRef::Header(ci)] + file_rows(
                    ci as int,
                    fi as nat,
                )));
            }
        } else {
            assert(out@ =~= before + (seq![RowRef::Header(ci)] + Seq::<RowRef>::empty()));
        }
        proof {
            let longer = all.take(ci + 1);
            assert(longer.drop_last() =~= all.take(ci as int));
            assert(longer.last() == changelist@);
            assert(out@ == before + changelist_rows(ci as int, changelist@, expanded@));
        }
        ci = ci + 1;
    }
    assert(all.take(n as int) =~= all);
    out
}

/// Whether a row shows something that is there: a changelist, or a file of an
/// expanded one.
pub open spec fn points_at_something(
    row: RowRef,
    changelists: Seq<PerforceChangelistView>,
    expanded: Set<ChangelistId>,
) -> bool {
    match row {
        RowRef::Header(ci) => ci < changelists.len(),
        RowRef::File(ci, fi) => {
            &&& ci < changelists.len()
            &&& fi < changelists[ci as int].files.len()
            &&& expanded.contains(changelists[ci as int].id)
        },
    }
}

/// The rows show each changelist, and each file of the expanded ones, and
/// nothing else.
pub proof fn rows_are_exact(
    changelists: Seq<PerforceChangelistView>,
    expanded: Set<ChangelistId>,
    row: RowRef,
)
    requires
        changelists.len() <= usize::MAX,
        forall|i: int|
            0 <= i < changelists.len() ==> (#[trigger] changelists[i]).files.len() <= usize::MAX,
    ensures
        rows(changelists, expanded).contains(row) <==> points_at_something(
            row,
            changelists,
            expanded,
        ),
    decreases changelists.len(),
{
    if changelists.len() > 0 {
        let shorter = changelists.drop_last();
        let ci = changelists.len() - 1;
        let last = changelists.last();
        let head = rows(shorter, expanded);
        let tail = changelist_rows(ci, last, expanded);
        assert forall|i: int| 0 <= i < shorter.len() implies (#[trigger] shorter[i]).files.len()
            <= usize::MAX by {
            assert(shorter[i] == changelists[i]);
        }
        rows_are_exact(shorter, expanded, row);
        let all = head + tail;
        if all.contains(row) {
            let k = choose|k: int| 0 <= k < all.len() && all[k] == row;
            if k < head.len() {
                assert(head[k] == row);
            } else {
                assert(tail[k - head.len()] == row);
            }
        }
        if head.contains(row) {
            let k = choose|k: int| 0 <= k < head.len() && head[k] == row;
            assert(all[k] == row);
        }
        if row == RowRef::Header(ci as usize) {
            assert(tail[0] == row);
            assert(all[head.len() as int] == row);
        }
        if let RowRef::File(c, fi) = row {
            if c == ci && fi < last.files.len() && expanded.contains(last.id) {
                assert(tail[fi + 1] == row);
                assert(all[head.len() + fi + 1] == row);
            }
        }
    }
}

/// No row stands twice.
pub proof fn rows_are_distinct(
    changelists: Seq<PerforceChangelistView>,
    expanded: Set<ChangelistId>,
)
    requires
        changelists.len() <= usize::MAX,
        forall|i: int|
            0 <= i < changelists.len() ==> (#[trigger] changelists[i]).files.len() <= usize::MAX,
    ensures
        rows(changelists, expanded).no_duplicates(),
    decreases changelists.len(),
{
    if changelists.len() > 0 {
        let shorter = changelists.drop_last();
        let ci = changelists.len() - 1;
        let head = rows(shorter, expanded);
        let tail = changelist_rows(ci, changelists.last(), expanded);
        assert forall|i: int| 0 <= i < shorter.len() implies (#[trigger] shorter[i]).files.len()
            <= usize::MAX by {
            assert(shorter[i] == changelists[i]);
        }
        rows_are_distinct(shorter, expanded);
        let all = head + tail;
        assert forall|i: int, j: int| 0 <= i < j < all.len() implies #[trigger] all[i]
            != #[trigger] all[j] by {
            if i < head.len() && j >= head.len() {
                assert(head[i] == all[i]);
                assert(head.contains(all[i]));
                rows_are_exact(shorter, expanded, all[i]);
                assert(all[j] == tail[j - head.len()]);
            } else if j < head.len() {
                assert(head[i] == all[i] && head[j] == all[j]);
            } else {
                assert(all[i] == tail[i - head.len()] && all[j] == tail[j - head.len()]);
            }
        }
    }
}

/// The title of a changelist: its number and the first line of its description.
pub open spec fn title(changelist: PerforceChangelistView) -> Seq<char> {
    match changelist.id {
        ChangelistId::Default => "Default Changelist"@,
        ChangelistId::Numbered(n) => {
            let number = "#"@ + decimal::digits(n as nat);
            match describe::first_line(changelist.description) {
                Some(line) => if line.len() == 0 {
                    number
                } else {
                    number + ": "@ + line
                },
                None => number,
            }
        },
    }
}

/// What is shown while the pointer rests on a header: the number and the whole
/// description of a changelist that has both.
pub open spec fn tooltip(changelist: PerforceChangelistView) -> Option<Seq<char>> {
    match changelist.id {
        ChangelistId::Default => None,
        ChangelistId::Numbered(n) => if changelist.description.len() == 0 {
            None
        } else {
            Some("#"@ + decimal::digits(n as nat) + "\n"@ + changelist.description)
        },
    }
}

/// The name of a header.
pub open spec fn header_id(id: ChangelistId) -> Seq<char> {
    match id {
        ChangelistId::Default => "cl_Default"@,
        ChangelistId::Numbered(n) => "cl_Numbered("@ + decimal::digits(n as nat) + ")"@,
    }
}

/// Which files are shelved, or which are not.
pub open spec fn is_shelved(shelved: bool) -> spec_fn(ChangelistFileView) -> bool {
    |f: ChangelistFileView| f.shelved == shelved
}

/// How many files are shelved, or how many are not.
pub open spec fn count_of(files: Seq<ChangelistFileView>, shelved: bool) -> nat {
    files.filter(is_shelved(shelved)).len()
}

/// The header of a changelist.
#[derive(Debug)]
pub struct ChangelistHeader {
    pub element_id: String,
    pub id: ChangelistId,
    pub title: String,
    /// Whether the files of the changelist are shown.
    pub expanded: bool,
    /// How many files are open, with a plus sign.
    pub pending: String,
    /// How many files are shelved.
    pub shelved: String,
    /// Whether the number of shelved files stands out.
    pub shelved_stands_out: bool,
    pub tooltip: Option<String>,
}

/// What a [`ChangelistHeader`] says.
#[verifier::ext_equal]
pub struct ChangelistHeaderView {
    pub element_id: Seq<char>,
    pub id: ChangelistId,
    pub title: Seq<char>,
    pub expanded: bool,
    pub pending: Seq<char>,
    pub shelved: Seq<char>,
    pub shelved_stands_out: bool,
    pub tooltip: Option<Seq<char>>,
}

impl View for ChangelistHeader {
    type V = ChangelistHeaderView;

    open spec fn view(&self) -> ChangelistHeaderView {
        ChangelistHeaderView {
            element_id: self.element_id@,
            id: self.id,
            title: self.title@,
            expanded: self.expanded,
            pending: self.pending@,
            shelved: self.shelved@,
            shelved_stands_out: self.shelved_stands_out,
            tooltip: match self.tooltip {
                Some(t) => Some(t@),
                None => None,
            },
        }
    }
}

/// The header of a changelist.
pub open spec fn header(changelist: PerforceChangelistView, expanded: Set<ChangelistId>)
    -> ChangelistHeaderView {
    let pending = count_of(changelist.files, false);
    let shelved = count_of(changelist.files, true);
    ChangelistHeaderView {
        element_id: header_id(changelist.id),
        id: changelist.id,
        title: title(changelist),
        expanded: expanded.contains(changelist.id),
        pending: decimal::digits(pending) + "+"@,
        shelved: decimal::digits(shelved),
        shelved_stands_out: shelved > 0,
        tooltip: tooltip(changelist),
    }
}

/// How many files are shelved, or how many are not.
fn count_files(files: &Vec<ChangelistFile>, shelved: bool) -> (r: usize)
    ensures
        r == count_of(text::views(files@), shelved),
{
    let ghost all = text::views(files@);
    let n: usize = files.len();
    let mut count: usize = 0;
    let mut i: usize = 0;
    assert(all.take(0).filter(is_shelved(shelved)).len() == 0) by {
        reveal(Seq::filter);
    }
    while i < n
        invariant
            i <= n,
            n == files@.len(),
            all == text::views(files@),
            count <= i,
            count == count_of(all.take(i as int), shelved),
        decreases n - i,
    {
        proof {
            reveal(Seq::filter);
            assert(all.take(i + 1).drop_last() =~= all.take(i as int));
            assert(all.take(i + 1).last() == files@[i as int]@);
        }
        if files[i].shelved == shelved {
            count = count + 1;
        }
        i = i + 1;
    }
    assert(all.take(n as int) =~= all);
    count
}

/// `#` and a number.
fn number_text(n: u32) -> (r: String)
    ensures
        r@ == "#"@ + decimal::digits(n as nat),
{
    let mut out = "#".to_owned();
    decimal::push_digits(&mut out, n as u64);
    out
}

/// The title of a changelist.
fn title_of(changelist: &PerforceChangelist) -> (r: String)
    ensures
        r@ == title(changelist@),
{
    match changelist.id {
        ChangelistId::Default => "Default Changelist".to_owned(),
        ChangelistId::Numbered(n) => {
            let mut out = number_text(n);
            match describe::first_line_of(changelist.description.as_str()) {
                Some(line) => {
                    if line.as_str().unicode_len() != 0 {
                        out.append(": ");
                        out.append(line.as_str());
                    }
                },
                None => {},
            }
            out
        },
    }
}

/// The header of a changelist.
pub fn render_changelist_header(changelist: &PerforceChangelist, expanded: &Expanded) -> (r:
    ChangelistHeader)
    ensures
        r@ == header(changelist@, expanded@),
{
    let pending = count_files(&changelist.files, false);
    let shelved = count_files(&changelist.files, true);
    let mut pending_text = decimal::to_digits(pending as u64);
    pending_text.append("+");
    let tooltip = match changelist.id {
        ChangelistId::Default => None,
        ChangelistId::Numbered(n) => {
            if changelist.description.as_str().unicode_len() == 0 {
                None
            } else {
                let mut out = number_text(n);
                out.append("\n");
                out.append(changelist.description.as_str());
                Some(out)
            }
        },
    };
    let element_id = match changelist.id {
        ChangelistId::Default => "cl_Default".to_owned(),
        ChangelistId::Numbered(n) => {
            let mut out = "cl_Numbered(".to_owned();
            decimal::push_digits(&mut out, n as u64);
            out.append(")");
            out
        },
    };
    ChangelistHeader {
        element_id,
        id: changelist.id,
        title: title_of(changelist),
        expanded: expanded.contains(changelist.id),
        pending: pending_text,
        shelved: decimal::to_digits(shelved as u64),
        shelved_stands_out: shelved > 0,
        tooltip,
    }
}

/// Every changelist has a header name of its own.
pub proof fn header_names_are_distinct(a: ChangelistId, b: ChangelistId)
    ensures
        header_id(a) == header_id(b) ==> a == b,
{
    reveal_strlit("cl_Default");
    reveal_strlit("cl_Numbered(");
    reveal_strlit(")");
    if let ChangelistId::Numbered(n) = a {
        assert(header_id(a)[3] == 'N');
        if let ChangelistId::Numbered(m) = b {
            if header_id(a) == header_id(b) {
                let x = decimal::digits(n as nat);
                let y = decimal::digits(m as nat);
                assert(header_id(a).subrange(12, header_id(a).len() - 1) =~= x);
                assert(header_id(b).subrange(12, header_id(b).len() - 1) =~= y);
                decimal::digits_read_back(n as nat);
                decimal::digits_read_back(m as nat);
            }
        } else {
            assert(header_id(b)[3] == 'D');
        }
    } else if let ChangelistId::Numbered(m) = b {
        assert(header_id(b)[3] == 'N');
        assert(header_id(a)[3] == 'D');
    }
}

/// The lines of a tooltip.
pub fn tooltip_lines(tooltip: &str) -> (r: Vec<String>)
    ensures
        text::views(r@) == text::pieces(tooltip@, '\n'),
{
    let chars = text::to_chars(tooltip);
    let lines = text::split_char(chars.as_slice(), '\n');
    let ghost all = text::views(lines@);
    let n: usize = lines.len();
    let mut out: Vec<String> = Vec::new();
    let mut i: usize = 0;
    assert(text::views(out@) =~= all.take(0));
    while i < n
        invariant
            i <= n,
            n == lines@.len(),
            all == text::views(lines@),
            text::views(out@) == all.take(i as int),
        decreases n - i,
    {
        let ghost before = out@;
        out.push(text::from_chars(lines[i]));
        proof {
            assert(text::views(out@) =~= text::views(before).push(lines@[i as int]@));
            assert(all.take(i + 1) =~= all.take(i as int).push(all[i as int]));
        }
        i = i + 1;
    }
    assert(all.take(n as int) =~= all);
    out
}

/// A file that is dragged from its changelist onto another.
#[derive(Debug)]
pub struct DraggedPerforceFile {
    pub path: RepoPath,
    /// The changelist that the file is in.
    pub source: ChangelistId,
    pub shelved: bool,
    pub name: String,
    pub status: FileStatus,
}

/// What a [`DraggedPerforceFile`] says.
#[verifier::ext_equal]
pub struct DraggedPerforceFileView {
    pub path: Seq<char>,
    pub source: ChangelistId,
    pub shelved: bool,
    pub name: Seq<char>,
    pub status: FileStatus,
}

impl View for DraggedPerforceFile {
    type V = DraggedPerforceFileView;

    open spec fn view(&self) -> DraggedPerforceFileView {
        DraggedPerforceFileView {
            path: self.path@,
            source: self.source,
            shelved: self.shelved,
            name: self.name@,
            status: self.status,
        }
    }
}

/// The directory and the name of a path.
pub open spec fn directory_and_name(path: Seq<char>) -> (Option<Seq<char>>, Seq<char>) {
    match text::split_at_last(path, '/') {
        Some((directory, name)) => (Some(directory + "/"@), name),
        None => (None, path),
    }
}

/// The name of a file's row.
pub open spec fn file_id(path: Seq<char>, shelved: bool) -> Seq<char> {
    "p4_file_"@ + (if shelved {
        "s"@
    } else {
        "p"@
    }) + "_"@ + path
}

/// The row of a file.
#[derive(Debug)]
pub struct FileRow {
    pub element_id: String,
    /// The file's name and a space.
    pub label: String,
    /// The directory that the file is in.
    pub directory: Option<String>,
    /// Whether the directory is dimmed, as that of a deleted file is.
    pub dimmed: bool,
    /// Whether a newer revision exists.
    pub out_of_date: bool,
    /// What is dragged when the row is.
    pub dragged: DraggedPerforceFile,
}

/// What a [`FileRow`] says.
#[verifier::ext_equal]
pub struct FileRowView {
    pub element_id: Seq<char>,
    pub label: Seq<char>,
    pub directory: Option<Seq<char>>,
    pub dimmed: bool,
    pub out_of_date: bool,
    pub dragged: DraggedPerforceFileView,
}

impl View for FileRow {
    type V = FileRowView;

    open spec fn view(&self) -> FileRowView {
        FileRowView {
            element_id: self.element_id@,
            label: self.label@,
            directory: match self.directory {
                Some(d) => Some(d@),
                None => None,
            },
            dimmed: self.dimmed,
            out_of_date: self.out_of_date,
            dragged: self.dragged@,
        }
    }
}

/// The row of a file.
pub open spec fn file_row(
    file: ChangelistFileView,
    source: ChangelistId,
    out_of_date: Set<Seq<char>>,
) -> FileRowView {
    let (directory, name) = directory_and_name(file.path);
    FileRowView {
        element_id: file_id(file.path, file.shelved),
        label: name + " "@,
        directory,
        dimmed: file.status.says(StatusCode::Deleted),
        out_of_date: out_of_date.contains(file.path),
        dragged: DraggedPerforceFileView {
            path: file.path,
            source,
            shelved: file.shelved,
            name,
            status: file.status,
        },
    }
}

/// The row of a file.
pub fn render_file_row(file: &ChangelistFile, source: ChangelistId, out_of_date: &PathSet) -> (r:
    FileRow)
    ensures
        r@ == file_row(file@, source, out_of_date@),
{
    let unix = file.path.as_unix_str();
    let chars = text::to_chars(unix);
    let (directory, name) = match text::rsplit_once(chars.as_slice(), '/') {
        Some((before, after)) => {
            let mut directory = text::from_chars(before);
            directory.append("/");
            (Some(directory), text::from_chars(after))
        },
        None => (None, unix.to_owned()),
    };
    let mut label = name.clone();
    label.append(" ");
    let mut element_id = "p4_file_".to_owned();
    element_id.append(
        if file.shelved {
            "s"
        } else {
            "p"
        },
    );
    element_id.append("_");
    element_id.append(unix);
    FileRow {
        element_id,
        label,
        directory,
        dimmed: file.status.is_deleted(),
        out_of_date: out_of_date.contains(&file.path),
        dragged: DraggedPerforceFile {
            path: file.path.clone(),
            source,
            shelved: file.shelved,
            name,
            status: file.status,
        },
    }
}

/// The row of an open file and the row of a shelved one have different names,
/// and so have the rows of different files.
pub proof fn file_names_are_distinct(
    path: Seq<char>,
    shelved: bool,
    other_path: Seq<char>,
    other_shelved: bool,
)
    ensures
        file_id(path, shelved) == file_id(other_path, other_shelved) ==> path == other_path
            && shelved == other_shelved,
{
    reveal_strlit("p4_file_");
    reveal_strlit("s");
    reveal_strlit("p");
    reveal_strlit("_");
    let a = file_id(path, shelved);
    let b = file_id(other_path, other_shelved);
    assert(a.skip(10) =~= path);
    assert(b.skip(10) =~= other_path);
    assert(a[8] == (if shelved {
        's'
    } else {
        'p'
    }));
    assert(b[8] == (if other_shelved {
        's'
    } else {
        'p'
    }));
}

/// The directory and the name of a path together are the path, and the name
/// holds no slash.
pub proof fn directory_and_name_are_the_path(path: Seq<char>)
    ensures
        ({
            let (directory, name) = directory_and_name(path);
            &&& !name.contains('/')
            &&& path == (match directory {
                Some(d) => d + name,
                None => name,
            })
        }),
    decreases path.len(),
{
    reveal_strlit("/");
    if path.len() > 0 && path.last() != '/' {
        let shorter = path.drop_last();
        directory_and_name_are_the_path(shorter);
        let (directory, name) = directory_and_name(shorter);
        let longer = name.push(path.last());
        assert forall|i: int| 0 <= i < longer.len() implies longer[i] != '/' by {
            if i < name.len() {
                assert(name.contains(name[i]));
            }
        }
        assert(path =~= shorter.push(path.last()));
        if let Some(d) = directory {
            assert(path =~= d + longer);
        }
    } else if path.len() > 0 {
        assert(path =~= (path.drop_last() + "/"@) + Seq::<char>::empty());
    }
}

/// What a row shows.
#[derive(Debug)]
pub enum Row {
    Header(ChangelistHeader),
    File(FileRow),
}

/// What a [`Row`] says.
#[verifier::ext_equal]
pub enum RowView {
    Header(ChangelistHeaderView),
    File(FileRowView),
}

impl View for Row {
    type V = RowView;

    open spec fn view(&self) -> RowView {
        match self {
            Row::Header(header) => RowView::Header(header@),
            Row::File(file) => RowView::File(file@),
        }
    }
}

/// What is shown for a row.
pub open spec fn shown_row(
    row: RowRef,
    changelists: Seq<PerforceChangelistView>,
    expanded: Set<ChangelistId>,
    out_of_date: Set<Seq<char>>,
) -> RowView {
    match row {
        RowRef::Header(ci) => RowView::Header(header(changelists[ci as int], expanded)),
        RowRef::File(ci, fi) => {
            let changelist = changelists[ci as int];
            RowView::File(file_row(changelist.files[fi as int], changelist.id, out_of_date))
        },
    }
}

/// What is shown for a row.
pub fn render_row(
    row: RowRef,
    changelists: &Vec<PerforceChangelist>,
    expanded: &Expanded,
    out_of_date: &PathSet,
) -> (r: Row)
    requires
        points_at_something(row, text::views(changelists@), expanded@),
    ensures
        r@ == shown_row(row, text::views(changelists@), expanded@, out_of_date@),
{
    match row {
        RowRef::Header(ci) => {
            assert(text::views(changelists@)[ci as int] == changelists@[ci as int]@);
            Row::Header(render_changelist_header(&changelists[ci], expanded))
        },
        RowRef::File(ci, fi) => {
            let changelist = &changelists[ci];
            assert(text::views(changelists@)[ci as int] == changelist@);
            assert(text::views(changelist.files@)[fi as int] == changelist.files@[fi as int]@);
            Row::File(render_file_row(&changelist.files[fi], changelist.id, out_of_date))
        },
    }
}

/// Where a row stands: with its changelist, whose header comes before its files,
/// which come in their order.
pub open spec fn row_rank(row: RowRef) -> (int, int) {
    match row {
        RowRef::Header(ci) => (ci as int, -1),
        RowRef::File(ci, fi) => (ci as int, fi as int),
    }
}

/// Rows come in the order of the changelists, each header before its files, and
/// the files in their order.
pub proof fn rows_come_in_order(
    changelists: Seq<PerforceChangelistView>,
    expanded: Set<ChangelistId>,
    i: int,
    j: int,
)
    requires
        changelists.len() <= usize::MAX,
        forall|k: int|
            0 <= k < changelists.len() ==> (#[trigger] changelists[k]).files.len() <= usize::MAX,
        0 <= i < j < rows(changelists, expanded).len(),
    ensures
        ({
            let a = row_rank(rows(changelists, expanded)[i]);
            let b = row_rank(rows(changelists, expanded)[j]);
            a.0 < b.0 || (a.0 == b.0 && a.1 < b.1)
        }),
    decreases changelists.len(),
{
    if changelists.len() > 0 {
        let rest = changelists.drop_last();
        let earlier = rows(rest, expanded);
        let all = rows(changelists, expanded);
        let last = changelist_rows(changelists.len() - 1, changelists.last(), expanded);
        assert(all == earlier + last);
        assert forall|k: int| 0 <= k < rest.len() implies (#[trigger] rest[k]).files.len()
            <= usize::MAX by {
            assert(rest[k] == changelists[k]);
        }
        assert(changelists[changelists.len() - 1].files.len() <= usize::MAX);
        if j < earlier.len() {
            rows_come_in_order(rest, expanded, i, j);
        } else if i < earlier.len() {
            assert(earlier.contains(earlier[i]));
            rows_are_exact(rest, expanded, earlier[i]);
            assert(all[i] == earlier[i]);
            assert(all[j] == last[j - earlier.len()]);
        } else {
            assert(all[i] == last[i - earlier.len()]);
            assert(all[j] == last[j - earlier.len()]);
        }
    }
}

/// A header's title is the changelist's number and, behind a colon, the first
/// line of its description, where it has one.
pub proof fn titles_name_number_and_first_line(
    number: u32,
    files: Seq<ChangelistFileView>,
    line: Seq<char>,
    more: Seq<char>,
)
    requires
        text::is_one_line(line),
    ensures
        ({
            let id = ChangelistId::Numbered(number);
            let named = "#"@ + decimal::digits(number as nat);
            let described = line + seq!['\n'] + more;
            &&& title(PerforceChangelistView { id, description: Seq::empty(), files }) == named
            &&& title(PerforceChangelistView { id, description: described, files }) == (if line.len()
                > 0 {
                named + ": "@ + line
            } else {
                named
            })
            &&& title(PerforceChangelistView { id, description: line, files }) == (if line.len() > 0 {
                named + ": "@ + line
            } else {
                named
            })
            &&& title(
                PerforceChangelistView { id: ChangelistId::Default, description: described, files },
            ) == "Default Changelist"@
        }),
{
    let described = line + seq!['\n'] + more;
    let n = line.len() as int;
    assert forall|j: int| 0 <= j < n implies #[trigger] described[j] != '\n' && line[j] != '\n' by {
        assert(described[j] == line[j]);
        assert(line.contains(line[j]));
    }
    assert(described[n] == '\n');
    text::lemma_char_index_is(described, '\n', n);
    assert(described.take(n) =~= line);
    assert(text::lines_of(described)[0] == line);
    assert forall|j: int| 0 <= j < n implies #[trigger] line[j] != '\n' by {
        assert(described[j] != '\n');
    }
    text::lemma_char_index_is(line, '\n', n);
    if n > 0 {
        assert(text::lines_of(line)[0] == line);
    }
}

/// A header's tooltip has the number on its first line and the whole description
/// below it; without a number or a description there is none.
pub proof fn tooltips_hold_the_whole_description(
    id: ChangelistId,
    description: Seq<char>,
    files: Seq<ChangelistFileView>,
)
    ensures
        ({
            let shown = tooltip(PerforceChangelistView { id, description, files });
            &&& shown is Some <==> id is Numbered && description.len() > 0
            &&& shown matches Some(s) ==> {
                let first = "#"@ + decimal::digits(id->Numbered_0 as nat);
                &&& text::char_index(s, '\n') == first.len()
                &&& s.take(first.len() as int) == first
                &&& s.skip(first.len() as int + 1) == description
            }
        }),
{
    if let ChangelistId::Numbered(n) = id {
        if description.len() > 0 {
            reveal_strlit("#");
            reveal_strlit("\n");
            let d = decimal::digits(n as nat);
            let first = "#"@ + d;
            let s = first + "\n"@ + description;
            decimal::digits_read_back(n as nat);
            let k = first.len() as int;
            assert(s[k] == '\n');
            assert forall|j: int| 0 <= j < k implies #[trigger] s[j] != '\n' by {
                assert(s[j] == first[j]);
                if j > 0 {
                    assert(decimal::is_digit(d[j - 1]));
                }
            }
            text::lemma_char_index_is(s, '\n', k);
            assert(s.take(k) =~= first);
            assert(s.skip(k + 1) =~= description);
        }
    }
}

/// The open and the shelved files are counted, each file once.
pub proof fn every_file_is_counted_once(files: Seq<ChangelistFileView>)
    ensures
        count_of(files, false) + count_of(files, true) == files.len(),
        (exists|i: int| 0 <= i < files.len() && (#[trigger] files[i]).shelved) <==> count_of(
            files,
            true,
        ) > 0,
    decreases files.len(),
{
    reveal(Seq::filter);
    if files.len() > 0 {
        let rest = files.drop_last();
        every_file_is_counted_once(rest);
        if exists|i: int| 0 <= i < files.len() && (#[trigger] files[i]).shelved {
            let i = choose|i: int| 0 <= i < files.len() && (#[trigger] files[i]).shelved;
            if i < rest.len() {
                assert(rest[i].shelved);
            }
        }
        if exists|i: int| 0 <= i < rest.len() && (#[trigger] rest[i]).shelved {
            let i = choose|i: int| 0 <= i < rest.len() && (#[trigger] rest[i]).shelved;
            assert(files[i].shelved);
        }
        if files.last().shelved {
            assert(files[files.len() - 1].shelved);
        }
    }
}

/// A header shows how many files are open and how many are shelved: both numbers
/// are read back from it. The shelved ones stand out where there are any.
pub proof fn headers_count_their_files(
    changelist: PerforceChangelistView,
    expanded: Set<ChangelistId>,
)
    requires
        changelist.files.len() <= u64::MAX,
    ensures
        ({
            let h = header(changelist, expanded);
            let n = h.pending.len() - 1;
            &&& n >= 0 && h.pending[n] == '+'
            &&& decimal::unsigned_value(h.pending.take(n), u64::MAX as nat) == Some(
                count_of(changelist.files, false),
            )
            &&& decimal::unsigned_value(h.shelved, u64::MAX as nat) == Some(
                count_of(changelist.files, true),
            )
            &&& h.shelved_stands_out <==> exists|i: int|
                0 <= i < changelist.files.len() && (#[trigger] changelist.files[i]).shelved
            &&& h.id == changelist.id
            &&& h.expanded <==> expanded.contains(changelist.id)
        }),
{
    every_file_is_counted_once(changelist.files);
    decimal::unsigned_reads_back(count_of(changelist.files, false), u64::MAX as nat);
    decimal::unsigned_reads_back(count_of(changelist.files, true), u64::MAX as nat);
    reveal_strlit("+");
    let d = decimal::digits(count_of(changelist.files, false));
    let h = header(changelist, expanded);
    assert(h.pending.take(h.pending.len() - 1) =~= d);
}

/// A file's row shows its name and its directory, is dimmed for a deleted file,
/// and tells whether a newer revision exists; dragging it carries the file, the
/// changelist that it is in, and whether it is shelved.
pub proof fn file_rows_show_their_files(
    file: ChangelistFileView,
    source: ChangelistId,
    out_of_date: Set<Seq<char>>,
)
    ensures
        ({
            let row = file_row(file, source, out_of_date);
            &&& row.label == row.dragged.name + " "@
            &&& (match row.directory {
                Some(directory) => directory + row.dragged.name,
                None => row.dragged.name,
            }) == file.path
            &&& !row.dragged.name.contains('/')
            &&& row.out_of_date <==> out_of_date.contains(file.path)
            &&& file.status == status::worktree_status(StatusCode::Deleted) ==> row.dimmed
            &&& file.status == status::worktree_status(StatusCode::Added) || file.status
                == status::worktree_status(StatusCode::Modified) ==> !row.dimmed
            &&& row.dragged.path == file.path && row.dragged.source == source
                && row.dragged.shelved == file.shelved && row.dragged.status == file.status
        }),
{
    text::text_is_split_at_the_last(file.path, '/');
    reveal_strlit("/");
    assert("/"@ =~= seq!['/']);
}

} // verus!
