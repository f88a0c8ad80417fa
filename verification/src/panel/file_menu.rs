//! What can be done with a file of the panel.

use crate::decimal;
use crate::panel::rows::DraggedPerforceFile;
use crate::panel::rows;
use crate::path::RepoPath;
use crate::perforce::changelists::{ChangelistFile, ChangelistId};
use crate::perforce::commands;
use crate::perforce::commands::swarm_changelist_url;
use crate::status::{FileStatus, StatusCode, TrackedStatus};
use crate::text;
use vstd::prelude::*;

verus! {

/// The address of a changelist's page in Swarm: none where no host is set.
pub open spec fn swarm_page(host: Option<Seq<char>>, chnum: u32) -> Option<Seq<char>> {
    match host {
        Some(host) => if text::trimmed(host).len() == 0 {
            None
        } else {
            Some(commands::swarm_url(text::trimmed(host), chnum))
        },
        None => None,
    }
}

/// The address of a changelist's page in Swarm. The host is what the settings hold.
pub fn swarm_url(host: Option<&str>, chnum: u32) -> (r: Option<String>)
    ensures
        text::option_view(r) == swarm_page(text::option_view(host), chnum),
{
    match host {
        Some(host) => {
            let chars = text::to_chars(host);
            let trimmed = text::trim(chars.as_slice());
            if trimmed.len() == 0 {
                None
            } else {
                let name = text::from_chars(trimmed);
                Some(swarm_changelist_url(name.as_str(), chnum))
            }
        },
        None => None,
    }
}

/// An entry of a file's menu.
#[derive(Debug)]
pub enum FileMenuEntry {
    OpenFile,
    /// Shows the changes, of this file alone where `solo` holds.
    OpenDiff { solo: bool },
    ViewFileHistory,
    Separator,
    Shelve { changelist: u32, also_revert: bool },
    Revert,
    Unshelve { changelist: u32 },
    ViewInSwarm { url: String },
}

/// What a [`FileMenuEntry`] says.
#[verifier::ext_equal]
pub enum FileMenuEntryView {
    OpenFile,
    OpenDiff { solo: bool },
    ViewFileHistory,
    Separator,
    Shelve { changelist: u32, also_revert: bool },
    Revert,
    Unshelve { changelist: u32 },
    ViewInSwarm { url: Seq<char> },
}

impl View for FileMenuEntry {
    type V = FileMenuEntryView;

    open spec fn view(&self) -> FileMenuEntryView {
        match self {
            FileMenuEntry::OpenFile => FileMenuEntryView::OpenFile,
            FileMenuEntry::OpenDiff { solo } => FileMenuEntryView::OpenDiff { solo: *solo },
            FileMenuEntry::ViewFileHistory => FileMenuEntryView::ViewFileHistory,
            FileMenuEntry::Separator => FileMenuEntryView::Separator,
            FileMenuEntry::Shelve { changelist, also_revert } => FileMenuEntryView::Shelve {
                changelist: *changelist,
                also_revert: *also_revert,
            },
            FileMenuEntry::Revert => FileMenuEntryView::Revert,
            FileMenuEntry::Unshelve { changelist } => FileMenuEntryView::Unshelve {
                changelist: *changelist,
            },
            FileMenuEntry::ViewInSwarm { url } => FileMenuEntryView::ViewInSwarm { url: url@ },
        }
    }
}

/// The text of an entry.
pub open spec fn entry_text(entry: FileMenuEntryView) -> Seq<char> {
    match entry {
        FileMenuEntryView::OpenFile => "Open File"@,
        FileMenuEntryView::OpenDiff { solo } => if solo {
            "Open Diff (File)"@
        } else {
            "Open Diff"@
        },
        FileMenuEntryView::ViewFileHistory => "View File History"@,
        FileMenuEntryView::Separator => ""@,
        FileMenuEntryView::Shelve { also_revert, .. } => if also_revert {
            "Shelve and Revert"@
        } else {
            "Shelve"@
        },
        FileMenuEntryView::Revert => "Revert"@,
        FileMenuEntryView::Unshelve { .. } => "Unshelve"@,
        FileMenuEntryView::ViewInSwarm { .. } => "View in Swarm"@,
    }
}

impl FileMenuEntry {
    /// The text of the entry.
    pub fn label(&self) -> (r: &'static str)
        ensures
            r@ == entry_text(self@),
    {
        match self {
            FileMenuEntry::OpenFile => "Open File",
            FileMenuEntry::OpenDiff { solo } => if *solo {
                "Open Diff (File)"
            } else {
                "Open Diff"
            },
            FileMenuEntry::ViewFileHistory => "View File History",
            FileMenuEntry::Separator => "",
            FileMenuEntry::Shelve { also_revert, .. } => if *also_revert {
                "Shelve and Revert"
            } else {
                "Shelve"
            },
            FileMenuEntry::Revert => "Revert",
            FileMenuEntry::Unshelve { .. } => "Unshelve",
            FileMenuEntry::ViewInSwarm { .. } => "View in Swarm",
        }
    }
}

/// The entries that show a file. An open file has changes to show.
pub open spec fn open_entries(shelved: bool) -> Seq<FileMenuEntryView> {
    seq![FileMenuEntryView::OpenFile] + (if shelved {
        Seq::empty()
    } else {
        seq![
            FileMenuEntryView::OpenDiff { solo: false },
            FileMenuEntryView::OpenDiff { solo: true },
        ]
    }) + seq![FileMenuEntryView::ViewFileHistory, FileMenuEntryView::Separator]
}

/// The entries that change a file. An open file can be reverted, and shelved
/// where its changelist has a number; a shelved one can be unshelved.
pub open spec fn change_entries(shelved: bool, source: ChangelistId) -> Seq<FileMenuEntryView> {
    match (shelved, source) {
        (false, ChangelistId::Default) => seq![FileMenuEntryView::Revert],
        (false, ChangelistId::Numbered(n)) => seq![
            FileMenuEntryView::Shelve { changelist: n, also_revert: false },
            FileMenuEntryView::Shelve { changelist: n, also_revert: true },
            FileMenuEntryView::Revert,
        ],
        (true, ChangelistId::Default) => Seq::empty(),
        (true, ChangelistId::Numbered(n)) => seq![FileMenuEntryView::Unshelve { changelist: n }],
    }
}

/// The entries that lead to the Swarm page of a numbered changelist.
pub open spec fn swarm_entries(source: ChangelistId, host: Option<Seq<char>>) -> Seq<
    FileMenuEntryView,
> {
    match source {
        ChangelistId::Default => Seq::empty(),
        ChangelistId::Numbered(n) => match swarm_page(host, n) {
            Some(url) => seq![
                FileMenuEntryView::Separator,
                FileMenuEntryView::ViewInSwarm { url },
            ],
            None => Seq::empty(),
        },
    }
}

/// The menu of a file.
pub open spec fn menu(shelved: bool, source: ChangelistId, host: Option<Seq<char>>) -> Seq<
    FileMenuEntryView,
> {
    open_entries(shelved) + change_entries(shelved, source) + swarm_entries(source, host)
}

/// The menu of a file, given the host that the settings hold.
pub fn file_context_menu(file: &ChangelistFile, source: ChangelistId, swarm_host: Option<&str>)
    -> (r: Vec<FileMenuEntry>)
    ensures
        text::views(r@) == menu(file.shelved, source, text::option_view(swarm_host)),
{
    let is_pending = !file.shelved;
    let numbered: Option<u32> = match source {
        ChangelistId::Numbered(n) => Some(n),
        ChangelistId::Default => None,
    };
    let swarm = match numbered {
        Some(n) => swarm_url(swarm_host, n),
        None => None,
    };
    let mut menu: Vec<FileMenuEntry> = Vec::new();
    menu.push(FileMenuEntry::OpenFile);
    if is_pending {
        menu.push(FileMenuEntry::OpenDiff { solo: false });
        menu.push(FileMenuEntry::OpenDiff { solo: true });
    }
    menu.push(FileMenuEntry::ViewFileHistory);
    menu.push(FileMenuEntry::Separator);
    let ghost first = menu@;
    assert(text::views(first) =~= open_entries(file.shelved));
    if is_pending {
        if let Some(changelist) = numbered {
            menu.push(FileMenuEntry::Shelve { changelist, also_revert: false });
            menu.push(FileMenuEntry::Shelve { changelist, also_revert: true });
        }
        menu.push(FileMenuEntry::Revert);
    }
    if file.shelved {
        if let Some(changelist) = numbered {
            menu.push(FileMenuEntry::Unshelve { changelist });
        }
    }
    let ghost second = menu@;
    assert(text::views(second) =~= open_entries(file.shelved) + change_entries(
        file.shelved,
        source,
    ));
    if let Some(url) = swarm {
        menu.push(FileMenuEntry::Separator);
        menu.push(FileMenuEntry::ViewInSwarm { url });
    }
    assert(text::views(menu@) =~= text::views(second) + swarm_entries(
        source,
        text::option_view(swarm_host),
    ));
    menu
}

/// Shelving is offered for an open file in a numbered changelist only,
/// unshelving for a shelved file only, reverting for an open file only, and a
/// Swarm page only for a numbered changelist with a host.
pub proof fn menu_fits_the_file(shelved: bool, source: ChangelistId, host: Option<Seq<char>>)
    ensures
        forall|n: u32, also_revert: bool|
            #[trigger] menu(shelved, source, host).contains(
                (FileMenuEntryView::Shelve { changelist: n, also_revert }),
            ) <==> !shelved && source == ChangelistId::Numbered(n),
        forall|n: u32|
            #[trigger] menu(shelved, source, host).contains(
                (FileMenuEntryView::Unshelve { changelist: n }),
            ) <==> shelved && source == ChangelistId::Numbered(n),
        menu(shelved, source, host).contains(FileMenuEntryView::Revert) <==> !shelved,
        forall|solo: bool|
            #[trigger] menu(shelved, source, host).contains(
                (FileMenuEntryView::OpenDiff { solo }),
            ) <==> !shelved,
        forall|url: Seq<char>|
            #[trigger] menu(shelved, source, host).contains(
                (FileMenuEntryView::ViewInSwarm { url }),
            ) <==> (source matches ChangelistId::Numbered(n) && swarm_page(host, n) == Some(url)),
{
    let m = menu(shelved, source, host);
    let k = open_entries(shelved).len() as int;
    let c = k + change_entries(shelved, source).len();
    if !shelved {
        assert(m[1] == FileMenuEntryView::OpenDiff { solo: false });
        assert(m[2] == FileMenuEntryView::OpenDiff { solo: true });
        assert(m[c - 1] == FileMenuEntryView::Revert);
        if let ChangelistId::Numbered(n) = source {
            assert(m[k] == FileMenuEntryView::Shelve { changelist: n, also_revert: false });
            assert(m[k + 1] == FileMenuEntryView::Shelve { changelist: n, also_revert: true });
        }
    } else if let ChangelistId::Numbered(n) = source {
        assert(m[k] == FileMenuEntryView::Unshelve { changelist: n });
    }
    if let ChangelistId::Numbered(n) = source {
        if let Some(url) = swarm_page(host, n) {
            assert(m[c + 1] == FileMenuEntryView::ViewInSwarm { url });
        }
    }
}

/// A file to be brought into a changelist: out of the shelf of the changelist
/// with the number `shelved_source` where there is one, and out of the
/// changelist that it is open in otherwise.
#[derive(Debug)]
pub struct MoveRequest {
    pub path: RepoPath,
    pub target: ChangelistId,
    pub shelved_source: Option<u32>,
}

/// What a [`MoveRequest`] says.
#[verifier::ext_equal]
pub struct MoveRequestView {
    pub path: Seq<char>,
    pub target: ChangelistId,
    pub shelved_source: Option<u32>,
}

impl View for MoveRequest {
    type V = MoveRequestView;

    open spec fn view(&self) -> MoveRequestView {
        MoveRequestView {
            path: self.path@,
            target: self.target,
            shelved_source: self.shelved_source,
        }
    }
}

/// What a file that is dropped on a changelist asks for. An open file that is
/// in the changelist already asks for nothing.
pub open spec fn drop_request(dragged: rows::DraggedPerforceFileView, target: ChangelistId)
    -> Option<MoveRequestView> {
    if !dragged.shelved && dragged.source == target {
        None
    } else {
        Some(
            MoveRequestView {
                path: dragged.path,
                target,
                shelved_source: match (dragged.shelved, dragged.source) {
                    (true, ChangelistId::Numbered(n)) => Some(n),
                    _ => None,
                },
            },
        )
    }
}

/// What a file that is dropped on a changelist asks for.
pub fn requested_move(dragged: &DraggedPerforceFile, target: ChangelistId) -> (r: Option<
    MoveRequest,
>)
    ensures
        text::option_view(r) == drop_request(dragged@, target),
{
    if !dragged.shelved && dragged.source == target {
        return None;
    }
    let shelved_source: Option<u32> = match (dragged.shelved, dragged.source) {
        (true, ChangelistId::Numbered(n)) => Some(n),
        _ => None,
    };
    Some(MoveRequest { path: dragged.path.clone(), target, shelved_source })
}

/// What unshelving a file asks for: its own changelist is both where it comes
/// from and where it goes.
pub fn requested_unshelve(changelist: u32, path: RepoPath) -> (r: MoveRequest)
    ensures
        r@ == (MoveRequestView {
            path: path@,
            target: ChangelistId::Numbered(changelist),
            shelved_source: Some(changelist),
        }),
{
    MoveRequest {
        path,
        target: ChangelistId::Numbered(changelist),
        shelved_source: Some(changelist),
    }
}

/// The answer by which the file of a reverted add is deleted.
pub const DELETE_FILE_ANSWER: usize = 1;

/// The question that reverting an added file raises.
pub const REVERT_QUESTION: &'static str = "Revert added file?";

/// What the question is about.
pub const REVERT_DETAIL: &'static str =
    "The file will no longer be open for add. Keep the local file on disk, or also delete it?";

/// The answers to the question that reverting an added file raises.
pub const REVERT_ANSWERS: [&'static str; 2] = ["Keep File", "Delete File"];

/// Whether reverting a file raises the question what to do with it: an added
/// file stays on disk.
pub open spec fn asks_to_delete(status: FileStatus) -> bool {
    status is Untracked || status.says(StatusCode::Added)
}

/// Whether reverting a file raises the question what to do with it.
pub fn revert_asks(file: &ChangelistFile) -> (r: bool)
    ensures
        r == asks_to_delete(file.status),
{
    file.status.is_created()
}

/// Whether a reverted file is deleted from disk, given the answer where there
/// was a question.
pub fn revert_deletes(asked: bool, answer: Option<usize>) -> (r: bool)
    ensures
        r == (asked && answer == Some(DELETE_FILE_ANSWER)),
{
    match answer {
        Some(answer) => asked && answer == DELETE_FILE_ANSWER,
        None => false,
    }
}

/// The page of a changelist is that of the host, whatever space stands around it
/// and whatever slashes at its end; without a host there is none.
pub proof fn swarm_pages_have_their_host(
    space: Seq<char>,
    host: Seq<char>,
    slashes: nat,
    chnum: u32,
)
    requires
        text::all_whitespace(space),
        host.len() > 0,
        host.last() != '/',
        text::has_firm_ends(host),
    ensures
        swarm_page(Some(space + (host + text::repeated('/', slashes)) + space), chnum) == Some(
            host + "/changes/"@ + decimal::digits(chnum as nat),
        ),
        swarm_page(Some(space), chnum) is None,
        swarm_page(None, chnum) is None,
{
    let named = host + text::repeated('/', slashes);
    assert(named[0] == host[0]);
    assert(named.last() == (if slashes > 0 {
        '/'
    } else {
        host.last()
    }));
    text::whitespace_around_is_trimmed(space, named, space);
    text::trailing_characters_are_dropped(host, '/', slashes);
    let none = Seq::<char>::empty();
    text::whitespace_around_is_trimmed(space, none, none);
    assert(space + none + none =~= space);
}

/// The menu starts with what shows the file and its history, goes on with what
/// changes it, and ends in its page, each group behind a separator.
pub proof fn menu_is_in_order(shelved: bool, n: u32, url: Seq<char>, host: Option<Seq<char>>)
    ensures
        menu(false, ChangelistId::Default, host) == seq![
            FileMenuEntryView::OpenFile,
            FileMenuEntryView::OpenDiff { solo: false },
            FileMenuEntryView::OpenDiff { solo: true },
            FileMenuEntryView::ViewFileHistory,
            FileMenuEntryView::Separator,
            FileMenuEntryView::Revert,
        ],
        swarm_page(host, n) is None ==> menu(false, ChangelistId::Numbered(n), host) == seq![
            FileMenuEntryView::OpenFile,
            FileMenuEntryView::OpenDiff { solo: false },
            FileMenuEntryView::OpenDiff { solo: true },
            FileMenuEntryView::ViewFileHistory,
            FileMenuEntryView::Separator,
            FileMenuEntryView::Shelve { changelist: n, also_revert: false },
            FileMenuEntryView::Shelve { changelist: n, also_revert: true },
            FileMenuEntryView::Revert,
        ],
        swarm_page(host, n) is None ==> menu(true, ChangelistId::Numbered(n), host) == seq![
            FileMenuEntryView::OpenFile,
            FileMenuEntryView::ViewFileHistory,
            FileMenuEntryView::Separator,
            FileMenuEntryView::Unshelve { changelist: n },
        ],
        swarm_page(host, n) == Some(url) ==> menu(shelved, ChangelistId::Numbered(n), host) == menu(
            shelved,
            ChangelistId::Numbered(n),
            None,
        ) + seq![FileMenuEntryView::Separator, FileMenuEntryView::ViewInSwarm { url }],
{
    let id = ChangelistId::Numbered(n);
    if swarm_page(host, n) == Some(url) {
        assert(menu(shelved, id, None) =~= open_entries(shelved) + change_entries(shelved, id));
        assert(menu(shelved, id, host) =~= menu(shelved, id, None) + seq![
            FileMenuEntryView::Separator,
            FileMenuEntryView::ViewInSwarm { url },
        ]);
    }
}

/// A file that is dropped on a changelist goes there: an open one is moved, unless
/// it is there already; a shelved one is brought out of the shelf of its own
/// changelist, even into that changelist.
pub proof fn dropped_files_go_to_the_changelist(
    dragged: rows::DraggedPerforceFileView,
    target: ChangelistId,
)
    ensures
        drop_request(dragged, target) is None <==> !dragged.shelved && dragged.source == target,
        drop_request(dragged, target) matches Some(request) ==> {
            &&& request.path == dragged.path
            &&& request.target == target
            &&& request.shelved_source is Some <==> dragged.shelved && dragged.source is Numbered
            &&& request.shelved_source matches Some(n) ==> dragged.source
                == ChangelistId::Numbered(n)
        },
{
}

/// Reverting a file asks what to do with it just where the file is new: deleting
/// or changing one raises no question.
pub proof fn only_new_files_raise_a_question(index: StatusCode, worktree: StatusCode)
    ensures
        asks_to_delete(FileStatus::Untracked),
        asks_to_delete(
            FileStatus::TrackedFile(
                TrackedStatus { index_status: index, worktree_status: worktree },
            ),
        ) <==> index == StatusCode::Added || worktree == StatusCode::Added,
{
}

} // verus!
