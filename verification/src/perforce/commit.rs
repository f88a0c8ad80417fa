//! Changes shown as commits: the history of a file, and the files of a change.

use crate::decimal;
use crate::oid;
use crate::oid::{change_to_oid, Oid};
use crate::path;
use crate::path::RepoPath;
use crate::perforce::client;
use crate::perforce::client::client_path_to_repo_path;
use crate::perforce::describe;
use crate::perforce::describe::{
    first_line_of, ChangeMeta, ChangeMetaView, DescribedFile, DescribedFileView,
};
use crate::perforce::history::{FilelogRev, FilelogRevView};
use crate::perforce::opened;
use crate::perforce::opened::{action_adds, action_deletes};
use crate::perforce::script::{P4Command, P4CommandView};
use crate::text;
use crate::text_map::TextMap;
use vstd::prelude::*;
use vstd::string::StringExecFns;

verus! {

/// A change as a commit.
#[derive(Debug)]
pub struct CommitData {
    pub sha: Oid,
    pub parents: Vec<Oid>,
    pub author_name: String,
    pub author_email: String,
    pub commit_timestamp: i64,
    pub subject: String,
    pub message: String,
}

/// What a [`CommitData`] says.
#[verifier::ext_equal]
pub struct CommitDataView {
    pub sha: Seq<u8>,
    pub parents: Seq<Seq<u8>>,
    pub author_name: Seq<char>,
    pub author_email: Seq<char>,
    pub commit_timestamp: i64,
    pub subject: Seq<char>,
    pub message: Seq<char>,
}

impl View for CommitData {
    type V = CommitDataView;

    open spec fn view(&self) -> CommitDataView {
        CommitDataView {
            sha: self.sha@,
            parents: text::views(self.parents@),
            author_name: self.author_name@,
            author_email: self.author_email@,
            commit_timestamp: self.commit_timestamp,
            subject: self.subject@,
            message: self.message@,
        }
    }
}

/// The copy of a list of ids.
pub fn clone_ids(ids: &Vec<Oid>) -> (r: Vec<Oid>)
    ensures
        text::views(r@) == text::views(ids@),
{
    let mut out: Vec<Oid> = Vec::new();
    let mut i: usize = 0;
    while i < ids.len()
        invariant
            i <= ids.len(),
            out@ == ids@.take(i as int),
        decreases ids.len() - i,
    {
        out.push(ids[i]);
        i = i + 1;
        assert(ids@.take(i as int) =~= ids@.take(i - 1).push(ids@[i - 1]));
    }
    assert(ids@.take(i as int) =~= ids@);
    out
}

impl Clone for CommitData {
    fn clone(&self) -> (r: CommitData)
        ensures
            r@ == self@,
    {
        CommitData {
            sha: self.sha,
            parents: clone_ids(&self.parents),
            author_name: self.author_name.clone(),
            author_email: self.author_email.clone(),
            commit_timestamp: self.commit_timestamp,
            subject: self.subject.clone(),
            message: self.message.clone(),
        }
    }
}

/// The text, or the empty text where there is none.
pub open spec fn text_or_empty(s: Option<Seq<char>>) -> Seq<char> {
    match s {
        Some(s) => s,
        None => Seq::empty(),
    }
}

/// The time, or zero where there is none.
pub open spec fn time_or_zero(t: Option<i64>) -> i64 {
    match t {
        Some(t) => t,
        None => 0,
    }
}

/// The commit of a revision, with the next older one as its parent.
pub open spec fn revision_commit(rev: FilelogRevView, parent: Option<u32>) -> CommitDataView {
    CommitDataView {
        sha: oid::change_bytes(rev.change),
        parents: match parent {
            Some(p) => seq![oid::change_bytes(p)],
            None => Seq::empty(),
        },
        author_name: rev.user,
        author_email: Seq::empty(),
        commit_timestamp: time_or_zero(rev.time),
        subject: text_or_empty(describe::first_line(rev.desc)),
        message: rev.desc,
    }
}

/// The commit of a revision. `parent` is the change of the next older revision.
pub fn filelog_rev_to_commit_data(rev: &FilelogRev, parent: Option<u32>) -> (r: CommitData)
    ensures
        r@ == revision_commit(rev@, parent),
{
    let mut parents: Vec<Oid> = Vec::new();
    if let Some(p) = parent {
        parents.push(change_to_oid(p));
    }
    let subject = match first_line_of(rev.desc.as_str()) {
        Some(line) => line,
        None => String::new(),
    };
    let r = CommitData {
        sha: change_to_oid(rev.change),
        parents,
        author_name: rev.user.clone(),
        author_email: String::new(),
        commit_timestamp: match rev.time {
            Some(t) => t,
            None => 0,
        },
        subject,
        message: rev.desc.clone(),
    };
    assert(r@ =~= revision_commit(rev@, parent));
    r
}

/// The change of the next older revision.
pub open spec fn parent_change(revs: Seq<FilelogRevView>, i: int) -> Option<u32> {
    if i + 1 < revs.len() {
        Some(revs[i + 1].change)
    } else {
        None
    }
}

/// The commits of a file's revisions, the newest first; each has the next older
/// one as its parent.
pub open spec fn history_commits(revs: Seq<FilelogRevView>) -> Seq<CommitDataView> {
    Seq::new(revs.len(), |i: int| revision_commit(revs[i], parent_change(revs, i)))
}

/// The commits of a file's revisions.
pub fn filelog_commits(revs: &Vec<FilelogRev>) -> (r: Vec<CommitData>)
    ensures
        text::views(r@) == history_commits(text::views(revs@)),
{
    let ghost all = text::views(revs@);
    let ghost goal = history_commits(all);
    let mut out: Vec<CommitData> = Vec::new();
    let mut i: usize = 0;
    assert(text::views(out@) =~= goal.take(0));
    while i < revs.len()
        invariant
            i <= revs.len(),
            all == text::views(revs@),
            goal == history_commits(all),
            text::views(out@) == goal.take(i as int),
        decreases revs.len() - i,
    {
        let parent = if i + 1 < revs.len() {
            assert(all[i + 1] == revs@[i + 1]@);
            Some(revs[i + 1].change)
        } else {
            None
        };
        let ghost before = text::views(out@);
        assert(all[i as int] == revs@[i as int]@);
        let data = filelog_rev_to_commit_data(&revs[i], parent);
        out.push(data);
        assert(text::views(out@) =~= before.push(data@));
        assert(goal.take(i + 1) =~= goal.take(i as int).push(goal[i as int]));
        i = i + 1;
    }
    assert(goal.take(i as int) =~= goal);
    out
}

/// A commit of the graph.
#[derive(Debug)]
pub struct InitialGraphCommitData {
    pub sha: Oid,
    pub parents: Vec<Oid>,
    pub ref_names: Vec<String>,
}

/// What an [`InitialGraphCommitData`] says.
#[verifier::ext_equal]
pub struct GraphCommitView {
    pub sha: Seq<u8>,
    pub parents: Seq<Seq<u8>>,
    pub ref_names: Seq<Seq<char>>,
}

impl View for InitialGraphCommitData {
    type V = GraphCommitView;

    open spec fn view(&self) -> GraphCommitView {
        GraphCommitView {
            sha: self.sha@,
            parents: text::views(self.parents@),
            ref_names: text::views(self.ref_names@),
        }
    }
}

/// A commit as it stands in the graph.
pub open spec fn graph_commit(data: CommitDataView) -> GraphCommitView {
    GraphCommitView { sha: data.sha, parents: data.parents, ref_names: Seq::empty() }
}

/// The details of a commit.
#[derive(Debug)]
pub struct CommitDetails {
    pub sha: String,
    pub message: String,
    pub commit_timestamp: i64,
    pub author_email: String,
    pub author_name: String,
}

/// What a [`CommitDetails`] says.
#[verifier::ext_equal]
pub struct CommitDetailsView {
    pub sha: Seq<char>,
    pub message: Seq<char>,
    pub commit_timestamp: i64,
    pub author_email: Seq<char>,
    pub author_name: Seq<char>,
}

impl View for CommitDetails {
    type V = CommitDetailsView;

    open spec fn view(&self) -> CommitDetailsView {
        CommitDetailsView {
            sha: self.sha@,
            message: self.message@,
            commit_timestamp: self.commit_timestamp,
            author_email: self.author_email@,
            author_name: self.author_name@,
        }
    }
}

/// The details that a known commit gives.
pub open spec fn known_details(commit: Seq<char>, data: CommitDataView) -> CommitDetailsView {
    CommitDetailsView {
        sha: commit,
        message: data.message,
        commit_timestamp: data.commit_timestamp,
        author_email: data.author_email,
        author_name: data.author_name,
    }
}

/// The details that `p4 describe` gives.
pub open spec fn described_details(commit: Seq<char>, meta: ChangeMetaView) -> CommitDetailsView {
    CommitDetailsView {
        sha: commit,
        message: text_or_empty(meta.summary),
        commit_timestamp: time_or_zero(meta.time),
        author_email: Seq::empty(),
        author_name: text_or_empty(meta.user),
    }
}

/// The commit that `p4 describe` gives.
pub open spec fn described_commit(id: Seq<u8>, meta: ChangeMetaView) -> CommitDataView {
    CommitDataView {
        sha: id,
        parents: Seq::empty(),
        author_name: text_or_empty(meta.user),
        author_email: Seq::empty(),
        commit_timestamp: time_or_zero(meta.time),
        subject: text_or_empty(meta.summary),
        message: text_or_empty(meta.summary),
    }
}

/// The text, or the empty text where there is none.
fn unwrap_text(s: Option<String>) -> (r: String)
    ensures
        r@ == text_or_empty(text::option_view(s)),
{
    match s {
        Some(s) => s,
        None => String::new(),
    }
}

/// The time, or zero where there is none.
fn unwrap_time(t: Option<i64>) -> (r: i64)
    ensures
        r == time_or_zero(t),
{
    match t {
        Some(t) => t,
        None => 0,
    }
}

/// The details that a known commit gives.
pub fn details_of_data(commit: &str, data: CommitData) -> (r: CommitDetails)
    ensures
        r@ == known_details(commit@, data@),
{
    CommitDetails {
        sha: commit.to_owned(),
        message: data.message,
        commit_timestamp: data.commit_timestamp,
        author_email: data.author_email,
        author_name: data.author_name,
    }
}

/// The details that `p4 describe` gives.
pub fn details_of_meta(commit: &str, meta: ChangeMeta) -> (r: CommitDetails)
    ensures
        r@ == described_details(commit@, meta@),
{
    let r = CommitDetails {
        sha: commit.to_owned(),
        message: unwrap_text(meta.summary),
        commit_timestamp: unwrap_time(meta.time),
        author_email: String::new(),
        author_name: unwrap_text(meta.user),
    };
    assert(r@ =~= described_details(commit@, meta@));
    r
}

/// The commit that `p4 describe` gives.
pub fn data_of_meta(id: Oid, meta: ChangeMeta) -> (r: CommitData)
    ensures
        r@ == described_commit(id@, meta@),
{
    let subject = unwrap_text(meta.summary);
    let r = CommitData {
        sha: id,
        parents: Vec::new(),
        author_name: unwrap_text(meta.user),
        author_email: String::new(),
        commit_timestamp: unwrap_time(meta.time),
        message: subject.clone(),
        subject,
    };
    assert(r@ =~= described_commit(id@, meta@));
    r
}

/// The arguments that print a revision of a depot file.
pub open spec fn print_revision(depot: Seq<char>, rev: int) -> P4CommandView {
    P4CommandView {
        tagged: false,
        args: seq!["print"@, "-q"@, depot + "#"@ + decimal::digits(rev as nat)],
    }
}

/// How the two sides of a changed file are fetched.
#[derive(Debug)]
pub struct CommitFilePlan {
    pub path: RepoPath,
    /// Prints the text before the change; a new file has none.
    pub old: Option<P4Command>,
    /// Prints the text after the change; a deleted file has none.
    pub new: Option<P4Command>,
}

/// What a [`CommitFilePlan`] says.
#[verifier::ext_equal]
pub struct CommitFilePlanView {
    pub path: Seq<char>,
    pub old: Option<P4CommandView>,
    pub new: Option<P4CommandView>,
}

impl View for CommitFilePlan {
    type V = CommitFilePlanView;

    open spec fn view(&self) -> CommitFilePlanView {
        CommitFilePlanView {
            path: self.path@,
            old: text::option_view(self.old),
            new: text::option_view(self.new),
        }
    }
}

/// How the two sides of a file are fetched: the revision of the change, unless
/// it deletes the file, and the one before, unless it adds the file or is the
/// first. A file that is not in the workspace is left out.
pub open spec fn file_plan(
    client: Seq<char>,
    locations: Map<Seq<char>, Seq<char>>,
    file: DescribedFileView,
) -> Option<CommitFilePlanView> {
    match locations.get(file.0) {
        None => None,
        Some(client_path) => match client::repo_path_of_client_path(client, client_path) {
            None => None,
            Some(path) => Some(
                CommitFilePlanView {
                    path,
                    old: if opened::is_add_action(file.2) || file.1 <= 1 {
                        None
                    } else {
                        Some(print_revision(file.0, file.1 - 1))
                    },
                    new: if opened::is_delete_action(file.2) {
                        None
                    } else {
                        Some(print_revision(file.0, file.1 as int))
                    },
                },
            ),
        },
    }
}

/// Gives the plan of a file.
pub open spec fn planner(client: Seq<char>, locations: Map<Seq<char>, Seq<char>>) -> spec_fn(
    DescribedFileView,
) -> Option<CommitFilePlanView> {
    |file: DescribedFileView| file_plan(client, locations, file)
}

/// The command that prints a revision of a depot file.
fn print_command(depot: &str, rev: u32) -> (r: P4Command)
    ensures
        r@ == print_revision(depot@, rev as int),
{
    let mut target = depot.to_owned();
    target.append("#");
    decimal::push_digits(&mut target, rev as u64);
    let r = P4Command {
        tagged: false,
        args: vec!["print".to_owned(), "-q".to_owned(), target],
    };
    assert(r@.args =~= print_revision(depot@, rev as int).args);
    r
}

/// How the two sides of a file are fetched.
pub fn plan_file(client_name: &str, locations: &TextMap, file: &DescribedFile) -> (r: Option<
    CommitFilePlan,
>)
    ensures
        text::option_view(r) == file_plan(client_name@, locations@, file@),
{
    if let Some(client_path) = locations.get(file.0.as_str()) {
        if let Some(path) = client_path_to_repo_path(client_name, client_path.as_str()) {
            let old = if action_adds(file.2.as_str()) || file.1 <= 1 {
                None
            } else {
                Some(print_command(file.0.as_str(), file.1 - 1))
            };
            let new = if action_deletes(file.2.as_str()) {
                None
            } else {
                Some(print_command(file.0.as_str(), file.1))
            };
            return Some(CommitFilePlan { path, old, new });
        }
    }
    None
}

/// The two texts of a changed file.
#[derive(Debug)]
pub struct CommitFile {
    pub path: RepoPath,
    pub old_text: Option<String>,
    pub new_text: Option<String>,
    pub is_binary: bool,
}

/// A changed file with the texts that were fetched. A side that the plan does
/// not fetch has none, whatever is handed in.
pub fn assemble_file(plan: CommitFilePlan, old: Option<String>, new: Option<String>) -> (r:
    CommitFile)
    ensures
        r.path@ == plan@.path,
        text::option_view(r.old_text) == (if plan@.old is Some {
            text::option_view(old)
        } else {
            None
        }),
        text::option_view(r.new_text) == (if plan@.new is Some {
            text::option_view(new)
        } else {
            None
        }),
        !r.is_binary,
{
    CommitFile {
        path: plan.path,
        old_text: if plan.old.is_some() {
            old
        } else {
            None
        },
        new_text: if plan.new.is_some() {
            new
        } else {
            None
        },
        is_binary: false,
    }
}

/// A file's history is a chain, the newest revision first: each commit has the
/// id of the next one of the result as its only parent, and the last has none.
pub proof fn history_is_a_chain(revs: Seq<FilelogRevView>)
    ensures
        history_commits(revs).len() == revs.len(),
        forall|i: int|
            0 <= i < revs.len() - 1 ==> (#[trigger] history_commits(revs)[i]).parents == seq![
                history_commits(revs)[i + 1].sha,
            ],
        revs.len() > 0 ==> history_commits(revs).last().parents.len() == 0,
{
    let c = history_commits(revs);
    assert forall|i: int| 0 <= i < revs.len() - 1 implies (#[trigger] c[i]).parents == seq![
        c[i + 1].sha,
    ] by {
        assert(c[i + 1].sha == oid::change_bytes(revs[i + 1].change));
    }
}

/// A commit of the history says what its revision says: its change, by its id,
/// its user, its time and its whole description, whose first line is the
/// subject.
pub proof fn history_keeps_what_revisions_say(
    revs: Seq<FilelogRevView>,
    i: int,
    subject: Seq<char>,
    body: Seq<char>,
)
    requires
        0 <= i < revs.len(),
    ensures
        oid::leading_number(history_commits(revs)[i].sha) == revs[i].change,
        history_commits(revs)[i].author_name == revs[i].user,
        revs[i].time matches Some(t) ==> history_commits(revs)[i].commit_timestamp == t,
        history_commits(revs)[i].message == revs[i].desc,
        text::is_one_line(subject) && revs[i].desc == subject + seq!['\n'] + body
            ==> history_commits(revs)[i].subject == subject,
        !subject.contains('\n') && subject.len() > 0 && revs[i].desc == subject
            ==> history_commits(revs)[i].subject == subject,
        revs[i].desc.len() == 0 ==> history_commits(revs)[i].subject.len() == 0,
        history_commits(revs)[i].author_email.len() == 0,
{
    oid::change_reads_back(revs[i].change);
    let desc = revs[i].desc;
    if text::is_one_line(subject) && desc == subject + seq!['\n'] + body {
        let n = subject.len() as int;
        assert forall|j: int| 0 <= j < n implies #[trigger] desc[j] != '\n' by {
            assert(subject.contains(subject[j]));
        }
        assert(desc[n] == '\n');
        text::lemma_char_index_is(desc, '\n', n);
        assert(desc.take(n) =~= subject);
        assert(text::lines_of(desc)[0] == subject);
    }
    if !subject.contains('\n') && subject.len() > 0 && desc == subject {
        assert forall|j: int| 0 <= j < desc.len() implies #[trigger] desc[j] != '\n' by {
            assert(subject.contains(subject[j]));
        }
        text::lemma_char_index_is(desc, '\n', desc.len() as int);
        assert(text::lines_of(desc)[0] == subject);
    }
}

/// Of a file that stands in the workspace and is not new, the old side is the
/// revision before the change's; a new file and a first revision have no old
/// side. The new side is the change's own revision, unless the file was deleted.
/// The revisions are read back from what the commands print.
pub proof fn both_sides_are_fetched(
    client: Seq<char>,
    locations: Map<Seq<char>, Seq<char>>,
    depot: Seq<char>,
    rev: u32,
    action: Seq<char>,
    p: Seq<char>,
)
    requires
        path::is_relative(p),
        !depot.contains('#'),
        locations.get(depot) == Some(client::client_syntax(client, p)),
    ensures
        file_plan(client, locations, (depot, rev, action)) is Some,
        ({
            let plan = file_plan(client, locations, (depot, rev, action))->0;
            let added = action == "add"@ || action == "branch"@ || action == "import"@ || action
                == "move/add"@;
            let deleted = action == "delete"@ || action == "move/delete"@ || action == "purge"@;
            &&& plan.path == p
            &&& plan.old is Some <==> !added && rev >= 2
            &&& plan.new is Some <==> !deleted
            &&& plan.old matches Some(command) ==> {
                &&& !command.tagged
                &&& command.args.len() == 3
                &&& command.args[0] == "print"@
                &&& command.args[1] == "-q"@
                &&& text::split_at_last(command.args[2], '#') matches Some((file, written))
                    && file == depot && decimal::unsigned_value(written, u32::MAX as nat) == Some(
                    (rev - 1) as nat,
                )
            }
            &&& plan.new matches Some(command) ==> {
                &&& !command.tagged
                &&& command.args.len() == 3
                &&& command.args[0] == "print"@
                &&& command.args[1] == "-q"@
                &&& text::split_at_last(command.args[2], '#') matches Some((file, written))
                    && file == depot && decimal::unsigned_value(written, u32::MAX as nat) == Some(
                    rev as nat,
                )
            }
        }),
{
    client::client_syntax_reads_back(client, p);
    lemma_revision_reads_back(depot, rev as nat);
    if rev >= 1 {
        lemma_revision_reads_back(depot, (rev - 1) as nat);
    }
}

/// The depot file and its revision are read back from what prints them.
proof fn lemma_revision_reads_back(depot: Seq<char>, rev: nat)
    requires
        rev <= u32::MAX,
    ensures
        text::split_at_last(depot + "#"@ + decimal::digits(rev), '#') == Some(
            (depot, decimal::digits(rev)),
        ),
        decimal::unsigned_value(decimal::digits(rev), u32::MAX as nat) == Some(rev),
{
    reveal_strlit("#");
    let d = decimal::digits(rev);
    let s = depot + "#"@ + d;
    decimal::digits_read_back(rev);
    decimal::unsigned_reads_back(rev, u32::MAX as nat);
    assert(!d.contains('#')) by {
        if d.contains('#') {
            let k = choose|k: int| 0 <= k < d.len() && d[k] == '#';
            assert(decimal::is_digit(d[k]));
        }
    }
    text::text_is_split_at_the_last(s, '#');
    assert(s[depot.len() as int] == '#');
    assert(s.contains('#'));
    let (a, b) = text::split_at_last(s, '#')->0;
    if a.len() < depot.len() {
        assert(b[depot.len() - a.len() - 1] == s[depot.len() as int]);
        assert(b.contains('#'));
    } else if a.len() > depot.len() {
        assert(s[a.len() as int] == '#');
        assert(d[a.len() - depot.len() - 1] == '#');
        assert(d.contains('#'));
    }
    assert(a =~= s.take(depot.len() as int));
    assert(depot =~= s.take(depot.len() as int));
    assert(b =~= s.skip(depot.len() as int + 1));
    assert(d =~= s.skip(depot.len() as int + 1));
}

/// A file that is not in the workspace is left out: `p4 where` does not place
/// it, or places it in another client.
pub proof fn files_elsewhere_are_left_out(
    client: Seq<char>,
    locations: Map<Seq<char>, Seq<char>>,
    file: DescribedFileView,
)
    requires
        locations.get(file.0) matches Some(place) ==> !client::client_prefix(client).is_prefix_of(
            place,
        ),
    ensures
        file_plan(client, locations, file) is None,
{
}

/// The graph of a file's history is the same chain.
pub proof fn history_graph_is_a_chain(revs: Seq<FilelogRevView>)
    ensures
        ({
            let graph = history_commits(revs).map_values(|data: CommitDataView| graph_commit(data));
            &&& graph.len() == revs.len()
            &&& forall|i: int|
                0 <= i < revs.len() ==> oid::leading_number((#[trigger] graph[i]).sha)
                    == revs[i].change && graph[i].ref_names.len() == 0
            &&& forall|i: int|
                0 <= i < revs.len() - 1 ==> (#[trigger] graph[i]).parents == seq![graph[i + 1].sha]
            &&& revs.len() > 0 ==> graph.last().parents.len() == 0
        }),
{
    history_is_a_chain(revs);
    let c = history_commits(revs);
    let graph = c.map_values(|data: CommitDataView| graph_commit(data));
    assert forall|i: int| 0 <= i < revs.len() implies oid::leading_number((#[trigger] graph[i]).sha)
        == revs[i].change && graph[i].ref_names.len() == 0 by {
        oid::change_reads_back(revs[i].change);
        assert(graph[i].sha == c[i].sha);
    }
    assert forall|i: int| 0 <= i < revs.len() - 1 implies (#[trigger] graph[i]).parents == seq![
        graph[i + 1].sha,
    ] by {
        assert(graph[i].parents == c[i].parents);
        assert(graph[i + 1].sha == c[i + 1].sha);
    }
}

} // verus!
