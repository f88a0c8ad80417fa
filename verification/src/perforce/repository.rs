//! A Perforce workspace as a repository: which commands each request needs, and
//! what their output means.

use crate::decimal;
use crate::oid;
use crate::oid::{oid_to_change, Oid};
use crate::path;
use crate::path::RepoPath;
use crate::perforce::blame;
use crate::perforce::blame::{
    build_p4_blame_mapped, parse_formatted_annotate, remap_annotation_to_content, AnnotatedLine,
    AnnotatedLineView, Blame, ANNOTATE_FORMAT,
};
use crate::perforce::changelists;
use crate::perforce::changelists::{
    build_changelists, parse_shelved_files, ChangelistFile, ChangelistFileView, ChangelistId,
    PerforceChangelist,
};
use crate::perforce::client;
use crate::perforce::client::client_syntax_path;
use crate::perforce::commands;
use crate::perforce::commands::{
    p4_move_args, p4_open_args, p4_reopen_args, p4_revert_args, p4_shelve_args, p4_unshelve_args,
    push_client_paths, P4OpenAction,
};
use crate::perforce::commit;
use crate::perforce::commit::{
    clone_ids, data_of_meta, details_of_data, details_of_meta, filelog_commits, plan_file,
    CommitData, CommitDataView, CommitDetails, CommitDetailsView, CommitFilePlan,
    InitialGraphCommitData,
};
use crate::perforce::describe;
use crate::perforce::describe::{
    parse_change_meta, parse_describe_files, parse_describe_meta, parse_where, ChangeMeta,
    ChangeMetaView, DescribedFile, DescribedFileView,
};
use crate::perforce::history;
use crate::perforce::history::{parse_filelog, FilelogRevView};
use crate::perforce::opened;
use crate::perforce::opened::{
    action_adds, parse_opened_actions, parse_opened_status, parse_out_of_date_files,
};
use crate::perforce::pending;
use crate::perforce::pending::{PendingChange, PendingChangeView};
use crate::perforce::script;
use crate::perforce::script::{
    P4Command, P4CommandView, P4OutcomeView, ScriptStep, ScriptStepView,
};
use crate::perforce::workspace;
use crate::perforce::workspace::{
    can_skip_opened_query, parse_workspace, paths_to_open, workspace_root_matches, OpenCandidate,
    PerforceWorkspace,
};
use crate::perforce::ztag;
use crate::perforce::ztag::parse_ztag;
use crate::seqs;
use crate::status::GitStatus;
use crate::text;
use crate::text_map::PathSet;
use std::collections::HashMap;
use vstd::hash_map::StringHashMap;
use vstd::prelude::*;
use vstd::string::StringExecFns;

verus! {

broadcast use vstd::std_specs::hash::group_hash_axioms;

/// What a request for something Perforce does not have is answered.
pub const UNSUPPORTED: &'static str = "operation not supported by the Perforce backend yet";

/// The largest number of paths that a status query names one by one. A full
/// listing is always right; for a few paths the narrower query is cheaper.
pub const SCOPED_CAP: usize = 64;

/// How many changes one `p4 describe` is asked for.
pub const DESCRIBE_CHUNK: usize = 50;

/// When a file was last written.
#[derive(Debug, Clone, Copy, PartialEq, Eq, Structural)]
pub struct FileTime {
    pub secs: i64,
    pub nanos: u32,
}

/// What the depot says of a file's lines, as of the file's last write. It does
/// not depend on the buffer, which changes with every keystroke.
pub struct BlameCacheEntry {
    mtime: Option<FileTime>,
    lines: Vec<AnnotatedLine>,
    depot_text: String,
    descriptions: HashMap<u32, ChangeMeta>,
}

/// What a [`BlameCacheEntry`] says.
#[verifier::ext_equal]
pub struct BlameCacheView {
    pub mtime: Option<FileTime>,
    pub lines: Seq<AnnotatedLineView>,
    pub depot_text: Seq<char>,
    pub descriptions: Map<u32, ChangeMetaView>,
}

impl View for BlameCacheEntry {
    type V = BlameCacheView;

    closed spec fn view(&self) -> BlameCacheView {
        BlameCacheView {
            mtime: self.mtime,
            lines: text::views(self.lines@),
            depot_text: self.depot_text@,
            descriptions: describe::meta_view(self.descriptions@),
        }
    }
}

/// A Perforce workspace as a repository.
pub struct PerforceRepository {
    client_name: String,
    working_directory: String,
    max_history_count: usize,
    blame_cache: StringHashMap<BlameCacheEntry>,
    history_cache: HashMap<u32, CommitData>,
    is_trusted: bool,
}

/// What a [`PerforceRepository`] knows.
#[verifier::ext_equal]
pub struct RepositoryView {
    pub client_name: Seq<char>,
    pub working_directory: Seq<char>,
    pub max_history_count: nat,
    /// What the depot says of the lines of the files that were asked for.
    pub blame_cache: Map<Seq<char>, BlameCacheView>,
    /// The commits of the histories that were asked for, by change.
    pub history_cache: Map<u32, CommitDataView>,
    pub is_trusted: bool,
}

/// Commits by change, each by its view.
spec fn commit_views(map: Map<u32, CommitData>) -> Map<u32, CommitDataView> {
    map.map_values(|data: CommitData| data@)
}

/// Cache entries by path, each by its view.
spec fn blame_views(map: Map<Seq<char>, BlameCacheEntry>) -> Map<Seq<char>, BlameCacheView> {
    map.map_values(|entry: BlameCacheEntry| entry@)
}

impl View for PerforceRepository {
    type V = RepositoryView;

    closed spec fn view(&self) -> RepositoryView {
        RepositoryView {
            client_name: self.client_name@,
            working_directory: self.working_directory@,
            max_history_count: self.max_history_count as nat,
            blame_cache: blame_views(self.blame_cache@),
            history_cache: commit_views(self.history_cache@),
            is_trusted: self.is_trusted,
        }
    }
}

/// A command with tagged output.
pub open spec fn tagged(args: Seq<Seq<char>>) -> P4CommandView {
    P4CommandView { tagged: true, args }
}

/// A command with plain output.
pub open spec fn plain(args: Seq<Seq<char>>) -> P4CommandView {
    P4CommandView { tagged: false, args }
}

/// A step whose failure is passed over.
pub open spec fn lenient_step(args: Seq<Seq<char>>) -> ScriptStepView {
    ScriptStepView { command: plain(args), required: None }
}

/// A step whose failure is reported under `name`.
pub open spec fn required_step(args: Seq<Seq<char>>, name: Seq<char>) -> ScriptStepView {
    ScriptStepView { command: plain(args), required: Some(name) }
}

fn make_lenient(args: Vec<String>) -> (r: ScriptStep)
    ensures
        r@ == lenient_step(text::views(args@)),
{
    ScriptStep { command: P4Command { tagged: false, args }, required: None }
}

fn make_required(args: Vec<String>, name: &str) -> (r: ScriptStep)
    ensures
        r@ == required_step(text::views(args@), name@),
{
    ScriptStep { command: P4Command { tagged: false, args }, required: Some(name.to_owned()) }
}

/// The query for the open files among the paths; for all of them without paths.
pub open spec fn opened_query(client: Seq<char>, paths: Seq<Seq<char>>) -> P4CommandView {
    tagged(seq!["opened"@] + commands::client_paths(client, paths))
}

/// The query that a status request needs: none where no path can be open, a
/// narrow one for a few paths, and a full one otherwise.
pub open spec fn status_query(
    client: Seq<char>,
    prefixes: Seq<Seq<char>>,
    candidates: Seq<OpenCandidate>,
) -> Option<P4CommandView> {
    if 1 <= prefixes.len() <= 64 {
        if workspace::none_can_be_open(candidates) {
            None
        } else {
            Some(opened_query(client, prefixes))
        }
    } else {
        Some(tagged(seq!["opened"@]))
    }
}

/// What opening files needs.
#[derive(Debug)]
pub enum OpenPlan {
    /// Run these commands; none if there is nothing to do.
    Script(Vec<ScriptStep>),
    /// First ask which of the files are open, then run what
    /// [`PerforceRepository::delete_paths`] says.
    AskOpened(P4Command),
}

/// What an [`OpenPlan`] says.
pub enum OpenPlanView {
    Script(Seq<ScriptStepView>),
    AskOpened(P4CommandView),
}

impl View for OpenPlan {
    type V = OpenPlanView;

    open spec fn view(&self) -> OpenPlanView {
        match self {
            OpenPlan::Script(steps) => OpenPlanView::Script(text::views(steps@)),
            OpenPlan::AskOpened(command) => OpenPlanView::AskOpened(command@),
        }
    }
}

/// What opening files needs: a deletion first asks which of them are open;
/// anything else opens what is not open yet, in one command.
pub open spec fn open_plan(
    client: Seq<char>,
    action: P4OpenAction,
    paths: Seq<Seq<char>>,
    candidates: Seq<OpenCandidate>,
) -> OpenPlanView {
    if action == P4OpenAction::Delete {
        if paths.len() == 0 {
            OpenPlanView::Script(Seq::empty())
        } else {
            OpenPlanView::AskOpened(opened_query(client, paths))
        }
    } else {
        let needed = workspace::to_open(action, paths, candidates);
        if needed.len() == 0 {
            OpenPlanView::Script(Seq::empty())
        } else {
            OpenPlanView::Script(
                seq![
                    required_step(
                        commands::open_args(action, client, needed),
                        "p4 "@ + commands::action_verb(action),
                    ),
                ],
            )
        }
    }
}

/// The text of a file's synced revision, from what `p4 print` gives: lines end
/// as they do in a buffer, in a newline alone, where a server on Windows ends
/// them in a carriage return and a newline.
pub fn committed_text(output: &str) -> (r: String)
    ensures
        r@ == text::with_unix_lines(output@),
{
    let chars = text::to_chars(output);
    let lines = text::to_unix_lines(chars.as_slice());
    text::from_chars(lines.as_slice())
}

/// How a file that is to be deleted leaves the depot.
#[derive(Debug, Clone, Copy, PartialEq, Eq, Structural)]
pub enum DeleteKind {
    /// It is open for add: drop the add, the depot never had it.
    RevertAdd,
    /// It is open for something else: give that up, then delete it.
    RevertThenDelete,
    /// It is not open: delete it.
    Delete,
}

/// How a file leaves the depot, by what it is open for.
pub open spec fn delete_kind(actions: Map<Seq<char>, Seq<char>>, path: Seq<char>) -> DeleteKind {
    match actions.get(path) {
        Some(action) => if opened::is_add_action(action) {
            DeleteKind::RevertAdd
        } else {
            DeleteKind::RevertThenDelete
        },
        None => DeleteKind::Delete,
    }
}

/// Gives the client path of a file that leaves the depot in one way.
pub open spec fn target_of_kind(
    client: Seq<char>,
    actions: Map<Seq<char>, Seq<char>>,
    kind: DeleteKind,
) -> spec_fn(Seq<char>) -> Option<Seq<char>> {
    |path: Seq<char>|
        if delete_kind(actions, path) == kind {
            Some(client::client_syntax(client, path))
        } else {
            None
        }
}

/// The client paths of the files that leave the depot in one way.
pub open spec fn targets_of_kind(
    client: Seq<char>,
    actions: Map<Seq<char>, Seq<char>>,
    kind: DeleteKind,
    paths: Seq<Seq<char>>,
) -> Seq<Seq<char>> {
    seqs::filter_mapped(paths, target_of_kind(client, actions, kind))
}

/// A command that runs on all the targets. Its failure is reported under the
/// name of the subcommand.
pub open spec fn target_step(head: Seq<Seq<char>>, targets: Seq<Seq<char>>) -> ScriptStepView {
    required_step(head + targets, "p4 "@ + head[0])
}

/// The steps for the targets; none without targets.
pub open spec fn steps_for(targets: Seq<Seq<char>>, commands: Seq<Seq<Seq<char>>>) -> Seq<
    ScriptStepView,
> {
    if targets.len() == 0 {
        Seq::empty()
    } else {
        commands.map_values(|head: Seq<Seq<char>>| target_step(head, targets))
    }
}

/// The commands that take files out of the depot. The first that fails ends the
/// script with its error.
pub open spec fn delete_script(
    client: Seq<char>,
    actions: Map<Seq<char>, Seq<char>>,
    paths: Seq<Seq<char>>,
) -> Seq<ScriptStepView> {
    steps_for(
        targets_of_kind(client, actions, DeleteKind::RevertAdd, paths),
        seq![seq!["revert"@]],
    ) + steps_for(
        targets_of_kind(client, actions, DeleteKind::RevertThenDelete, paths),
        seq![seq!["revert"@, "-k"@], seq!["delete"@]],
    ) + steps_for(
        targets_of_kind(client, actions, DeleteKind::Delete, paths),
        seq![seq!["delete"@]],
    )
}

/// How a file leaves the depot, by what it is open for.
fn classify_deletion(action: Option<&String>) -> (r: DeleteKind)
    ensures
        r == (match action {
            Some(a) => if opened::is_add_action(a@) {
                DeleteKind::RevertAdd
            } else {
                DeleteKind::RevertThenDelete
            },
            None => DeleteKind::Delete,
        }),
{
    match action {
        Some(a) => {
            if action_adds(a.as_str()) {
                DeleteKind::RevertAdd
            } else {
                DeleteKind::RevertThenDelete
            }
        },
        None => DeleteKind::Delete,
    }
}

/// The arguments followed by the targets.
fn args_with_targets(head: Vec<String>, targets: &Vec<String>) -> (r: Vec<String>)
    ensures
        text::views(r@) == text::views(head@) + text::views(targets@),
{
    let mut args = head;
    let ghost start = text::views(args@);
    let ghost goal = text::views(targets@);
    let mut i: usize = 0;
    assert(start + goal.take(0) =~= start);
    while i < targets.len()
        invariant
            i <= targets.len(),
            goal == text::views(targets@),
            text::views(args@) == start + goal.take(i as int),
        decreases targets.len() - i,
    {
        let ghost before = text::views(args@);
        let target = targets[i].clone();
        args.push(target);
        assert(text::views(args@) =~= before.push(target@));
        assert(start + goal.take(i + 1) =~= (start + goal.take(i as int)).push(goal[i as int]));
        i = i + 1;
    }
    assert(goal.take(i as int) =~= goal);
    args
}

/// Appends the step that runs `head` on the targets.
fn push_target_step(steps: &mut Vec<ScriptStep>, head: Vec<String>, targets: &Vec<String>)
    requires
        head@.len() > 0,
    ensures
        text::views(final(steps)@) == text::views(old(steps)@).push(
            target_step(text::views(head@), text::views(targets@)),
        ),
{
    let ghost before = text::views(steps@);
    let mut name = "p4 ".to_owned();
    name.append(head[0].as_str());
    assert(text::views(head@)[0] == head@[0]@);
    let step = make_required(args_with_targets(head, targets), name.as_str());
    steps.push(step);
    assert(text::views(steps@) =~= before.push(step@));
}

/// The commands that shelve a file and then, if asked to, revert it.
pub open spec fn shelve_script(
    client: Seq<char>,
    changelist: u32,
    file: Seq<char>,
    also_revert: bool,
) -> Seq<ScriptStepView> {
    let shelve = required_step(commands::shelve_args(client, changelist, file), "p4 shelve"@);
    let revert = required_step(commands::revert_args(client, file), "p4 revert (after shelve)"@);
    if also_revert {
        seq![shelve, revert]
    } else {
        seq![shelve]
    }
}

/// The command that lists the pending changelists of a client.
pub open spec fn changes_query(client: Seq<char>) -> P4CommandView {
    tagged(seq!["changes"@, "-s"@, "pending"@, "-l"@, "-c"@, client])
}

/// All files of a client.
pub open spec fn whole_client(client: Seq<char>) -> Seq<char> {
    client::client_prefix(client) + "..."@
}

/// The command that lists the shelved files of a changelist.
pub open spec fn shelved_query(client: Seq<char>, number: u32) -> P4CommandView {
    tagged(
        seq!["fstat"@, "-Rs"@, "-e"@, decimal::digits(number as nat), whole_client(client)],
    )
}

/// Gives the query for a changelist's shelved files, if it has any.
pub open spec fn shelved_query_of(client: Seq<char>) -> spec_fn(PendingChangeView) -> Option<
    P4CommandView,
> {
    |change: PendingChangeView|
        if change.has_shelved {
            Some(shelved_query(client, change.number))
        } else {
            None
        }
}

/// The shelved files that several outputs list, in order.
pub open spec fn all_shelved_files(root: Seq<char>, outputs: Seq<Seq<char>>) -> Seq<
    (u32, ChangelistFileView),
>
    decreases outputs.len(),
{
    if outputs.len() == 0 {
        Seq::empty()
    } else {
        all_shelved_files(root, outputs.drop_last()) + changelists::shelved_files(
            root,
            ztag::records_of(outputs.last()),
        )
    }
}

/// The query for opened files that are behind the head revision.
pub open spec fn out_of_date_query(client: Seq<char>) -> P4CommandView {
    tagged(seq!["fstat"@, "-Ro"@, whole_client(client)])
}

/// The synced revision of a file.
pub open spec fn have_revision(client: Seq<char>, path: Seq<char>) -> Seq<char> {
    client::client_syntax(client, path) + "#have"@
}

/// The command that prints the synced revision of a file.
pub open spec fn print_have(client: Seq<char>, path: Seq<char>) -> P4CommandView {
    plain(seq!["print"@, "-q"@, have_revision(client, path)])
}

/// The command that attributes the lines of a file's synced revision.
pub open spec fn annotate_query(client: Seq<char>, path: Seq<char>) -> P4CommandView {
    tagged(
        seq![
            "-F"@,
            ANNOTATE_FORMAT@,
            "annotate"@,
            "-q"@,
            "-u"@,
            "-c"@,
            "-i"@,
            "-dw"@,
            have_revision(client, path),
        ],
    )
}

/// The command that describes changes.
pub open spec fn describe_query(changes: Seq<u32>) -> P4CommandView {
    tagged(
        seq!["describe"@, "-s"@] + changes.map_values(|c: u32| decimal::digits(c as nat)),
    )
}

/// The command that lists the revisions of a file.
pub open spec fn filelog_query(client: Seq<char>, path: Seq<char>, max: nat) -> P4CommandView {
    plain(
        seq![
            "filelog"@,
            "-l"@,
            "-t"@,
            "-m"@,
            decimal::digits(max),
            client::client_syntax(client, path),
        ],
    )
}

/// The whole client as an argument.
fn whole_client_arg(client_name: &str) -> (r: String)
    ensures
        r@ == whole_client(client_name@),
{
    let mut out = client::prefix_of_client(client_name);
    out.append("...");
    out
}

/// The command that describes changes.
fn describe_command(changes: &[u32]) -> (r: P4Command)
    ensures
        r@ == describe_query(changes@),
{
    let mut args = vec!["describe".to_owned(), "-s".to_owned()];
    let ghost start = seq!["describe"@, "-s"@];
    let ghost goal = changes@.map_values(|c: u32| decimal::digits(c as nat));
    assert(text::views(args@) =~= start + goal.take(0));
    let mut i: usize = 0;
    while i < changes.len()
        invariant
            i <= changes@.len(),
            goal == changes@.map_values(|c: u32| decimal::digits(c as nat)),
            text::views(args@) == start + goal.take(i as int),
        decreases changes@.len() - i,
    {
        let ghost before = text::views(args@);
        let arg = decimal::to_digits(changes[i] as u64);
        args.push(arg);
        assert(text::views(args@) =~= before.push(arg@));
        assert(start + goal.take(i + 1) =~= (start + goal.take(i as int)).push(goal[i as int]));
        i = i + 1;
    }
    assert(goal.take(i as int) =~= goal);
    P4Command { tagged: true, args }
}

/// The command that describes one change.
pub fn describe_change(change: u32) -> (r: P4Command)
    ensures
        r@ == describe_query(seq![change]),
{
    let changes: Vec<u32> = vec![change];
    assert(changes@ =~= seq![change]);
    describe_command(changes.as_slice())
}

impl PerforceRepository {
    /// The repository of a workspace that was found. At most
    /// `max_history_count` revisions of a file are asked for.
    pub fn new(workspace: PerforceWorkspace, max_history_count: usize) -> (r: PerforceRepository)
        ensures
            r@ == (RepositoryView {
                client_name: workspace@.client_name,
                working_directory: workspace@.client_root,
                max_history_count: max_history_count as nat,
                blame_cache: Map::empty(),
                history_cache: Map::empty(),
                is_trusted: false,
            }),
    {
        let r = PerforceRepository {
            client_name: workspace.client_name,
            working_directory: workspace.client_root,
            max_history_count,
            blame_cache: StringHashMap::new(),
            history_cache: HashMap::new(),
            is_trusted: false,
        };
        assert(r@.blame_cache =~= Map::<Seq<char>, BlameCacheView>::empty());
        assert(r@.history_cache =~= Map::<u32, CommitDataView>::empty());
        r
    }

    /// The command that asks for the workspace of the current folder.
    pub fn detect_command() -> (r: P4Command)
        ensures
            r@ == tagged(seq!["info"@]),
    {
        let r = P4Command { tagged: true, args: vec!["info".to_owned()] };
        assert(r@.args =~= seq!["info"@]);
        r
    }

    /// The workspace that the folder `dir` lies in, by what `p4 info` printed
    /// there and whether it succeeded. A client whose root does not contain the
    /// folder is that of another workspace and is refused.
    pub fn detect(info_output: &str, success: bool, dir: &str) -> (r: Option<PerforceWorkspace>)
        ensures
            text::option_view(r) == (if success {
                workspace::detected_workspace(ztag::records_of(info_output@), dir@)
            } else {
                None
            }),
    {
        if !success {
            return None;
        }
        match parse_workspace(info_output) {
            Some(found) => {
                if workspace_root_matches(found.client_root.as_str(), dir) {
                    Some(found)
                } else {
                    None
                }
            },
            None => None,
        }
    }

    /// The path of a file in client syntax.
    pub fn client_syntax_path(&self, path: &RepoPath) -> (r: String)
        ensures
            r@ == client::client_syntax(self@.client_name, path@),
    {
        client_syntax_path(self.client_name.as_str(), path)
    }

    /// The folder of the repository.
    pub fn path(&self) -> (r: &str)
        ensures
            r@ == self@.working_directory,
    {
        self.working_directory.as_str()
    }

    /// The folder of the main repository, which is the only one.
    pub fn main_repository_path(&self) -> (r: &str)
        ensures
            r@ == self@.working_directory,
    {
        self.working_directory.as_str()
    }

    /// Records whether the user trusts the repository.
    pub fn set_trusted(&mut self, trusted: bool)
        ensures
            final(self)@ == (RepositoryView { is_trusted: trusted, ..old(self)@ }),
    {
        self.is_trusted = trusted;
    }

    /// Whether the user trusts the repository.
    pub fn is_trusted(&self) -> (r: bool)
        ensures
            r == self@.is_trusted,
    {
        self.is_trusted
    }

    /// Whether the repository is a Perforce workspace.
    pub fn is_perforce(&self) -> (r: bool)
        ensures
            r,
    {
        true
    }

    /// The query that a status request for some paths needs, given what is
    /// known of each on disk; none where no path can be open, and the status is
    /// empty. The paths of a request for more than [`SCOPED_CAP`], or for none,
    /// are not looked at.
    pub fn status(&self, path_prefixes: &[RepoPath], candidates: &[OpenCandidate]) -> (r: Option<
        P4Command,
    >)
        requires
            1 <= path_prefixes@.len() <= 64 ==> candidates@.len() == path_prefixes@.len(),
        ensures
            text::option_view(r) == status_query(
                self@.client_name,
                text::views(path_prefixes@),
                candidates@,
            ),
    {
        let mut args = vec!["opened".to_owned()];
        assert(text::views(args@) =~= seq!["opened"@]);
        let n: usize = path_prefixes.len();
        if 1 <= n && n <= SCOPED_CAP {
            if can_skip_opened_query(candidates) {
                return None;
            }
            push_client_paths(&mut args, self.client_name.as_str(), path_prefixes);
        }
        Some(P4Command { tagged: true, args })
    }

    /// The status that the output of a status query gives.
    pub fn status_of(&self, opened_output: &str) -> (r: GitStatus)
        ensures
            r@ == opened::opened_status(self@.client_name, ztag::records_of(opened_output@)),
    {
        parse_opened_status(self.client_name.as_str(), opened_output)
    }

    /// The command that prints the text of a file's synced revision. What it
    /// gives is read by [`committed_text`].
    pub fn load_committed_text(&self, path: &RepoPath) -> (r: P4Command)
        ensures
            r@ == print_have(self@.client_name, path@),
    {
        let target = self.have_target(path);
        let r = P4Command {
            tagged: false,
            args: vec!["print".to_owned(), "-q".to_owned(), target],
        };
        assert(r@.args =~= print_have(self@.client_name, path@).args);
        r
    }

    /// The synced revision of a file.
    fn have_target(&self, path: &RepoPath) -> (r: String)
        ensures
            r@ == have_revision(self@.client_name, path@),
    {
        let mut target = client_syntax_path(self.client_name.as_str(), path);
        target.append("#have");
        target
    }

    /// What opening files for an action needs, given what is known of each on
    /// disk.
    pub fn open_for(
        &self,
        action: P4OpenAction,
        paths: Vec<RepoPath>,
        candidates: &[OpenCandidate],
    ) -> (r: OpenPlan)
        requires
            action == P4OpenAction::Edit ==> candidates@.len() == paths@.len(),
        ensures
            r@ == open_plan(self@.client_name, action, text::views(paths@), candidates@),
    {
        assert(text::views(paths@).len() == paths@.len());
        if action == P4OpenAction::Delete {
            if paths.len() == 0 {
                let none: Vec<ScriptStep> = Vec::new();
                assert(text::views(none@) =~= Seq::<ScriptStepView>::empty());
                return OpenPlan::Script(none);
            }
            let mut args = vec!["opened".to_owned()];
            assert(text::views(args@) =~= seq!["opened"@]);
            push_client_paths(&mut args, self.client_name.as_str(), paths.as_slice());
            return OpenPlan::AskOpened(P4Command { tagged: true, args });
        }
        let needed = paths_to_open(action, paths, candidates);
        assert(text::views(needed@).len() == needed@.len());
        let mut steps: Vec<ScriptStep> = Vec::new();
        if needed.len() > 0 {
            let mut name = "p4 ".to_owned();
            name.append(action.verb());
            let step = make_required(
                p4_open_args(action, self.client_name.as_str(), needed.as_slice()),
                name.as_str(),
            );
            steps.push(step);
            assert(text::views(steps@) =~= seq![step@]);
        } else {
            assert(text::views(steps@) =~= Seq::<ScriptStepView>::empty());
        }
        OpenPlan::Script(steps)
    }

    /// The commands that take files out of the depot, given what `p4 opened`
    /// says of them. `p4 delete` fails on a file that is open, so an open file
    /// is reverted first; one that is open for add was never in the depot, and
    /// is only reverted. A failure of any of the commands is reported.
    pub fn delete_paths(&self, paths: &Vec<RepoPath>, opened_output: &str) -> (r: Vec<ScriptStep>)
        ensures
            text::views(r@) == delete_script(
                self@.client_name,
                opened::opened_actions(self@.client_name, ztag::records_of(opened_output@)),
                text::views(paths@),
            ),
    {
        let client_name = self.client_name.as_str();
        let actions = parse_opened_actions(client_name, opened_output);
        let ghost all = text::views(paths@);
        let ghost f_add = target_of_kind(client_name@, actions@, DeleteKind::RevertAdd);
        let ghost f_edit = target_of_kind(client_name@, actions@, DeleteKind::RevertThenDelete);
        let ghost f_plain = target_of_kind(client_name@, actions@, DeleteKind::Delete);
        let mut revert_add: Vec<String> = Vec::new();
        let mut revert_edit: Vec<String> = Vec::new();
        let mut plain_delete: Vec<String> = Vec::new();
        let mut i: usize = 0;
        assert(text::views(revert_add@) =~= seqs::filter_mapped(all.take(0), f_add));
        assert(text::views(revert_edit@) =~= seqs::filter_mapped(all.take(0), f_edit));
        assert(text::views(plain_delete@) =~= seqs::filter_mapped(all.take(0), f_plain));
        while i < paths.len()
            invariant
                i <= paths.len(),
                all == text::views(paths@),
                f_add == target_of_kind(client_name@, actions@, DeleteKind::RevertAdd),
                f_edit == target_of_kind(client_name@, actions@, DeleteKind::RevertThenDelete),
                f_plain == target_of_kind(client_name@, actions@, DeleteKind::Delete),
                text::views(revert_add@) == seqs::filter_mapped(all.take(i as int), f_add),
                text::views(revert_edit@) == seqs::filter_mapped(all.take(i as int), f_edit),
                text::views(plain_delete@) == seqs::filter_mapped(all.take(i as int), f_plain),
            decreases paths.len() - i,
        {
            proof {
                seqs::lemma_filter_mapped_step(all, f_add, i as int);
                seqs::lemma_filter_mapped_step(all, f_edit, i as int);
                seqs::lemma_filter_mapped_step(all, f_plain, i as int);
            }
            assert(all[i as int] == paths@[i as int]@);
            let target = client_syntax_path(client_name, &paths[i]);
            match classify_deletion(actions.get(paths[i].as_unix_str())) {
                DeleteKind::RevertAdd => {
                    let ghost before = text::views(revert_add@);
                    revert_add.push(target);
                    assert(text::views(revert_add@) =~= before.push(target@));
                },
                DeleteKind::RevertThenDelete => {
                    let ghost before = text::views(revert_edit@);
                    revert_edit.push(target);
                    assert(text::views(revert_edit@) =~= before.push(target@));
                },
                DeleteKind::Delete => {
                    let ghost before = text::views(plain_delete@);
                    plain_delete.push(target);
                    assert(text::views(plain_delete@) =~= before.push(target@));
                },
            }
            i = i + 1;
        }
        assert(all.take(i as int) =~= all);
        let ghost adds = text::views(revert_add@);
        let ghost edits = text::views(revert_edit@);
        let ghost plains = text::views(plain_delete@);
        let ghost first = steps_for(adds, seq![seq!["revert"@]]);
        let ghost second = steps_for(edits, seq![seq!["revert"@, "-k"@], seq!["delete"@]]);
        let ghost third = steps_for(plains, seq![seq!["delete"@]]);
        let mut steps: Vec<ScriptStep> = Vec::new();
        if revert_add.len() > 0 {
            let head = vec!["revert".to_owned()];
            assert(text::views(head@) =~= seq!["revert"@]);
            push_target_step(&mut steps, head, &revert_add);
        }
        assert(text::views(steps@) =~= first);
        if revert_edit.len() > 0 {
            let head = vec!["revert".to_owned(), "-k".to_owned()];
            assert(text::views(head@) =~= seq!["revert"@, "-k"@]);
            push_target_step(&mut steps, head, &revert_edit);
            let head = vec!["delete".to_owned()];
            assert(text::views(head@) =~= seq!["delete"@]);
            push_target_step(&mut steps, head, &revert_edit);
        }
        assert(text::views(steps@) =~= first + second);
        if plain_delete.len() > 0 {
            let head = vec!["delete".to_owned()];
            assert(text::views(head@) =~= seq!["delete"@]);
            push_target_step(&mut steps, head, &plain_delete);
        }
        assert(text::views(steps@) =~= first + second + third);
        steps
    }

    /// The commands that record a rename: open the source for edit, which may
    /// fail where it is open for add or not tracked, then move it. They are to
    /// run before the file moves on disk.
    pub fn move_path(&self, src: &RepoPath, dst: &RepoPath) -> (r: Vec<ScriptStep>)
        ensures
            text::views(r@) == seq![
                lenient_step(
                    commands::open_args(P4OpenAction::Edit, self@.client_name, seq![src@]),
                ),
                required_step(
                    commands::move_args(self@.client_name, src@, dst@),
                    "p4 move"@,
                ),
            ],
    {
        let sources: Vec<RepoPath> = vec![src.clone()];
        assert(text::views(sources@) =~= seq![src@]);
        let edit = make_lenient(
            p4_open_args(P4OpenAction::Edit, self.client_name.as_str(), sources.as_slice()),
        );
        let rename = make_required(p4_move_args(self.client_name.as_str(), src, dst), "p4 move");
        let steps = vec![edit, rename];
        assert(text::views(steps@) =~= seq![edit@, rename@]);
        steps
    }

    /// The commands that list the open files and the pending changelists.
    pub fn changelists(&self) -> (r: (P4Command, P4Command))
        ensures
            r.0@ == tagged(seq!["opened"@]),
            r.1@ == changes_query(self@.client_name),
    {
        let opened = P4Command { tagged: true, args: vec!["opened".to_owned()] };
        assert(opened@.args =~= seq!["opened"@]);
        let changes = P4Command {
            tagged: true,
            args: vec![
                "changes".to_owned(),
                "-s".to_owned(),
                "pending".to_owned(),
                "-l".to_owned(),
                "-c".to_owned(),
                self.client_name.clone(),
            ],
        };
        assert(changes@.args =~= changes_query(self@.client_name).args);
        (opened, changes)
    }

    /// The commands that list shelved files: one for each changelist that has
    /// any.
    pub fn shelved_queries(&self, changes: &Vec<PendingChange>) -> (r: Vec<P4Command>)
        ensures
            text::views(r@) == seqs::filter_mapped(
                text::views(changes@),
                shelved_query_of(self@.client_name),
            ),
    {
        let ghost all = text::views(changes@);
        let ghost f = shelved_query_of(self@.client_name);
        let mut out: Vec<P4Command> = Vec::new();
        let mut i: usize = 0;
        assert(text::views(out@) =~= seqs::filter_mapped(all.take(0), f));
        while i < changes.len()
            invariant
                i <= changes.len(),
                all == text::views(changes@),
                f == shelved_query_of(self@.client_name),
                text::views(out@) == seqs::filter_mapped(all.take(i as int), f),
            decreases changes.len() - i,
        {
            proof {
                seqs::lemma_filter_mapped_step(all, f, i as int);
            }
            assert(all[i as int] == changes@[i as int]@);
            if changes[i].has_shelved {
                let ghost before = text::views(out@);
                let command = P4Command {
                    tagged: true,
                    args: vec![
                        "fstat".to_owned(),
                        "-Rs".to_owned(),
                        "-e".to_owned(),
                        decimal::to_digits(changes[i].number as u64),
                        whole_client_arg(self.client_name.as_str()),
                    ],
                };
                assert(command@.args =~= shelved_query(
                    self@.client_name,
                    changes@[i as int].number,
                ).args);
                out.push(command);
                assert(text::views(out@) =~= before.push(command@));
            }
            i = i + 1;
        }
        assert(all.take(i as int) =~= all);
        out
    }

    /// The pending changelists with their files, from what `p4 opened` and the
    /// queries for shelved files printed.
    pub fn group_changelists(
        &self,
        opened_output: &str,
        changes: &Vec<PendingChange>,
        shelved_outputs: &Vec<String>,
    ) -> (r: Vec<PerforceChangelist>)
        ensures
            text::views(r@) == changelists::changelist_groups(
                text::views(changes@),
                changelists::all_files(
                    changelists::opened_files(
                        self@.client_name,
                        ztag::records_of(opened_output@),
                    ),
                    all_shelved_files(self@.working_directory, text::views(shelved_outputs@)),
                ),
            ),
    {
        let ghost all = text::views(shelved_outputs@);
        let mut shelved: Vec<(u32, ChangelistFile)> = Vec::new();
        let mut i: usize = 0;
        assert(text::views(shelved@) =~= all_shelved_files(self@.working_directory, all.take(0)));
        while i < shelved_outputs.len()
            invariant
                i <= shelved_outputs.len(),
                all == text::views(shelved_outputs@),
                text::views(shelved@) == all_shelved_files(
                    self@.working_directory,
                    all.take(i as int),
                ),
            decreases shelved_outputs.len() - i,
        {
            assert(all.take(i + 1).drop_last() =~= all.take(i as int));
            assert(all.take(i + 1).last() == shelved_outputs@[i as int]@);
            let ghost before = shelved@;
            let mut files = parse_shelved_files(
                self.working_directory.as_str(),
                shelved_outputs[i].as_str(),
            );
            let ghost more = files@;
            shelved.append(&mut files);
            assert(text::views(shelved@) =~= text::views(before) + text::views(more));
            i = i + 1;
        }
        assert(all.take(i as int) =~= all);
        build_changelists(self.client_name.as_str(), opened_output, changes.as_slice(), shelved)
    }

    /// The command that moves a file into a changelist: an opened file is
    /// reopened there; a shelved one of changelist `shelved_source` is
    /// unshelved into it, and the shelf stays.
    pub fn move_to_changelist(
        &self,
        file: &RepoPath,
        target: ChangelistId,
        shelved_source: Option<u32>,
    ) -> (r: ScriptStep)
        ensures
            r@ == required_step(
                match shelved_source {
                    Some(source) => commands::unshelve_args(
                        self@.client_name,
                        source,
                        target,
                        file@,
                    ),
                    None => commands::reopen_args(self@.client_name, target, file@),
                },
                "p4 move-to-changelist"@,
            ),
    {
        let args = match shelved_source {
            Some(source) => p4_unshelve_args(self.client_name.as_str(), source, target, file),
            None => p4_reopen_args(self.client_name.as_str(), target, file),
        };
        make_required(args, "p4 move-to-changelist")
    }

    /// The command that reverts a file.
    pub fn revert(&self, file: &RepoPath) -> (r: ScriptStep)
        ensures
            r@ == required_step(commands::revert_args(self@.client_name, file@), "p4 revert"@),
    {
        make_required(p4_revert_args(self.client_name.as_str(), file), "p4 revert")
    }

    /// The commands that shelve a file and then, if asked to, revert it. The
    /// shelf is there before the file is reverted.
    pub fn shelve(&self, changelist: u32, file: &RepoPath, also_revert: bool) -> (r: Vec<
        ScriptStep,
    >)
        ensures
            text::views(r@) == shelve_script(self@.client_name, changelist, file@, also_revert),
    {
        let first = make_required(
            p4_shelve_args(self.client_name.as_str(), changelist, file),
            "p4 shelve",
        );
        let mut steps = vec![first];
        assert(text::views(steps@) =~= seq![first@]);
        if also_revert {
            let second = make_required(
                p4_revert_args(self.client_name.as_str(), file),
                "p4 revert (after shelve)",
            );
            steps.push(second);
            assert(text::views(steps@) =~= seq![first@, second@]);
        }
        steps
    }

    /// The query for opened files that are behind the head revision. It looks
    /// at opened files alone.
    pub fn out_of_date_command(&self) -> (r: P4Command)
        ensures
            r@ == out_of_date_query(self@.client_name),
    {
        let r = P4Command {
            tagged: true,
            args: vec![
                "fstat".to_owned(),
                "-Ro".to_owned(),
                whole_client_arg(self.client_name.as_str()),
            ],
        };
        assert(r@.args =~= out_of_date_query(self@.client_name).args);
        r
    }

    /// The opened files that are behind the head revision, whether the query
    /// names them by local paths, as `fstat` does, or in client syntax; none
    /// where the query failed, as it does without opened files.
    pub fn out_of_date_paths(&self, fstat_output: &str, success: bool) -> (r: PathSet)
        ensures
            r@ == (if success {
                opened::stale_paths(
                    self@.client_name,
                    Some(self@.working_directory),
                    ztag::records_of(fstat_output@),
                )
            } else {
                Set::empty()
            }),
    {
        if success {
            parse_out_of_date_files(
                self.client_name.as_str(),
                self.working_directory.as_str(),
                fstat_output,
            )
        } else {
            PathSet::new()
        }
    }
}

/// Whose history is asked for.
#[derive(Debug)]
pub enum LogSource {
    All,
    Branch(String),
    Sha(Oid),
    Path(RepoPath),
}

/// What a request for the history of anything but a file is answered.
pub const ONLY_FILE_HISTORY: &'static str =
    "Perforce only supports per-file history (View File History)";

/// The commits by change, with those of the first `n` revisions put in, one
/// after the other.
pub open spec fn with_history(
    cache: Map<u32, CommitDataView>,
    revs: Seq<FilelogRevView>,
    n: int,
) -> Map<u32, CommitDataView>
    decreases n,
{
    if n <= 0 {
        cache
    } else {
        with_history(cache, revs, n - 1).insert(
            revs[n - 1].change,
            commit::history_commits(revs)[n - 1],
        )
    }
}

/// What is known of a commit.
#[derive(Debug)]
pub enum ShowPlan {
    /// The text is no commit id.
    Invalid,
    /// The details are known.
    Known(CommitDetails),
    /// The command describes the change, and
    /// [`PerforceRepository::show_described`] makes details of its output.
    Describe { change: u32, command: P4Command },
}

/// What a [`ShowPlan`] says.
pub enum ShowPlanView {
    Invalid,
    Known(CommitDetailsView),
    Describe { change: u32, command: P4CommandView },
}

impl View for ShowPlan {
    type V = ShowPlanView;

    open spec fn view(&self) -> ShowPlanView {
        match self {
            ShowPlan::Invalid => ShowPlanView::Invalid,
            ShowPlan::Known(details) => ShowPlanView::Known(details@),
            ShowPlan::Describe { change, command } => ShowPlanView::Describe {
                change: *change,
                command: command@,
            },
        }
    }
}

/// The change that a commit id names.
pub open spec fn commit_change(commit: Seq<char>) -> Option<u32> {
    match oid::hex_bytes(commit) {
        Some(bytes) => Some(oid::leading_number(bytes) as u32),
        None => None,
    }
}

/// What is known of a commit: details from the histories that were asked for,
/// or the command that describes the change.
pub open spec fn show_plan(cache: Map<u32, CommitDataView>, commit: Seq<char>) -> ShowPlanView {
    match commit_change(commit) {
        None => ShowPlanView::Invalid,
        Some(change) => match cache.get(change) {
            Some(data) => ShowPlanView::Known(commit::known_details(commit, data)),
            None => ShowPlanView::Describe { change, command: describe_query(seq![change]) },
        },
    }
}

/// What the output of `p4 describe` says of a change; nothing, if it does not
/// speak of it.
pub open spec fn described_meta(output: Seq<char>, change: u32) -> ChangeMetaView {
    match describe::describe_meta(ztag::records_of(output)).get(change) {
        Some(meta) => meta,
        None => describe::unknown_change(),
    }
}

/// The change that a commit id names.
pub fn parse_commit(commit: &str) -> (r: Option<u32>)
    ensures
        r == commit_change(commit@),
{
    match Oid::parse(commit) {
        Some(id) => Some(oid_to_change(&id)),
        None => None,
    }
}

/// What the output of `p4 describe` says of a change.
fn find_described(describe_output: &str, change: u32) -> (r: ChangeMeta)
    ensures
        r@ == described_meta(describe_output@, change),
{
    let map = parse_describe_meta(describe_output);
    assert(describe::meta_view(map@).contains_key(change) == map@.contains_key(change));
    match map.get(&change) {
        Some(meta) => meta.clone(),
        None => ChangeMeta::default(),
    }
}

/// The command that finds depot files in the workspace.
pub open spec fn where_query(files: Seq<DescribedFileView>) -> P4CommandView {
    tagged(seq!["where"@] + files.map_values(|file: DescribedFileView| file.0))
}

/// The command that finds the files of a change in the workspace.
pub fn where_command(files: &Vec<DescribedFile>) -> (r: P4Command)
    ensures
        r@ == where_query(text::views(files@)),
{
    let mut args = vec!["where".to_owned()];
    let ghost start = seq!["where"@];
    let ghost goal = text::views(files@).map_values(|file: DescribedFileView| file.0);
    assert(text::views(args@) =~= start + goal.take(0));
    let mut i: usize = 0;
    while i < files.len()
        invariant
            i <= files.len(),
            goal == text::views(files@).map_values(|file: DescribedFileView| file.0),
            text::views(args@) == start + goal.take(i as int),
        decreases files.len() - i,
    {
        let ghost before = text::views(args@);
        let arg = files[i].0.clone();
        args.push(arg);
        assert(text::views(args@) =~= before.push(arg@));
        assert(start + goal.take(i + 1) =~= (start + goal.take(i as int)).push(goal[i as int]));
        i = i + 1;
    }
    assert(goal.take(i as int) =~= goal);
    P4Command { tagged: true, args }
}

impl PerforceRepository {
    /// The command that lists the revisions of a file. Only a file has a
    /// history here.
    pub fn initial_graph_data(&self, source: &LogSource) -> (r: Result<P4Command, &'static str>)
        ensures
            match source {
                LogSource::Path(path) => r matches Ok(command) && command@ == filelog_query(
                    self@.client_name,
                    path@,
                    self@.max_history_count,
                ),
                _ => r matches Err(error) && error@ == ONLY_FILE_HISTORY@,
            },
    {
        match source {
            LogSource::Path(path) => {
                let command = P4Command {
                    tagged: false,
                    args: vec![
                        "filelog".to_owned(),
                        "-l".to_owned(),
                        "-t".to_owned(),
                        "-m".to_owned(),
                        decimal::to_digits(self.max_history_count as u64),
                        client_syntax_path(self.client_name.as_str(), path),
                    ],
                };
                assert(command@.args =~= filelog_query(
                    self@.client_name,
                    path@,
                    self@.max_history_count,
                ).args);
                Ok(command)
            },
            _ => Err(ONLY_FILE_HISTORY),
        }
    }

    /// The graph that the output of `p4 filelog` gives: one commit for each
    /// revision, whose parent is the next older one. The commits are kept for
    /// later requests.
    pub fn record_history(&mut self, filelog_output: &str) -> (r: Vec<InitialGraphCommitData>)
        ensures
            text::views(r@) == commit::history_commits(
                history::filelog_revs(filelog_output@),
            ).map_values(|data: CommitDataView| commit::graph_commit(data)),
            final(self)@ == (RepositoryView {
                history_cache: with_history(
                    old(self)@.history_cache,
                    history::filelog_revs(filelog_output@),
                    history::filelog_revs(filelog_output@).len() as int,
                ),
                ..old(self)@
            }),
    {
        let revs = parse_filelog(filelog_output);
        let commits = filelog_commits(&revs);
        let ghost all = text::views(revs@);
        let ghost list = commits@;
        let ghost goal = commit::history_commits(all).map_values(
            |data: CommitDataView| commit::graph_commit(data),
        );
        let ghost start = commit_views(self.history_cache@);
        let mut out: Vec<InitialGraphCommitData> = Vec::new();
        let n: usize = revs.len();
        let mut i: usize = 0;
        assert(text::views(out@) =~= goal.take(0));
        assert(text::views(list).len() == list.len() && all.len() == revs@.len());
        for data in it: commits
            invariant
                it.seq() == list,
                i == it.index(),
                all == text::views(revs@),
                all.len() == n,
                n == revs@.len(),
                list.len() == n,
                text::views(list) == commit::history_commits(all),
                goal == commit::history_commits(all).map_values(
                    |data: CommitDataView| commit::graph_commit(data),
                ),
                text::views(out@) == goal.take(i as int),
                commit_views(self.history_cache@) == with_history(start, all, i as int),
                self.client_name == old(self).client_name,
                self.working_directory == old(self).working_directory,
                self.max_history_count == old(self).max_history_count,
                self.blame_cache == old(self).blame_cache,
                self.is_trusted == old(self).is_trusted,
        {
            let ghost k = i as int;
            let ghost before = text::views(out@);
            let ghost cached = commit_views(self.history_cache@);
            assert(text::views(list)[k] == data@);
            assert(all[k] == revs@[k]@);
            let entry = InitialGraphCommitData {
                sha: data.sha,
                parents: clone_ids(&data.parents),
                ref_names: Vec::new(),
            };
            assert(entry@ =~= commit::graph_commit(data@));
            out.push(entry);
            assert(text::views(out@) =~= before.push(entry@));
            assert(goal.take(k + 1) =~= goal.take(k).push(goal[k]));
            self.history_cache.insert(revs[i].change, data);
            assert(commit_views(self.history_cache@) =~= cached.insert(all[k].change, data@));
            i = i + 1;
        }
        assert(goal.take(goal.len() as int) =~= goal);
        out
    }

    /// What is known of a commit.
    pub fn show(&self, commit: &str) -> (r: ShowPlan)
        ensures
            r@ == show_plan(self@.history_cache, commit@),
    {
        match parse_commit(commit) {
            None => ShowPlan::Invalid,
            Some(change) => {
                assert(self@.history_cache.contains_key(change)
                    == self.history_cache@.contains_key(change));
                match self.history_cache.get(&change) {
                    Some(data) => ShowPlan::Known(details_of_data(commit, data.clone())),
                    None => ShowPlan::Describe { change, command: describe_change(change) },
                }
            },
        }
    }

    /// The details of a commit that `p4 describe` gives.
    pub fn show_described(commit: &str, change: u32, describe_output: &str) -> (r: CommitDetails)
        ensures
            r@ == commit::described_details(commit@, described_meta(describe_output@, change)),
    {
        details_of_meta(commit, find_described(describe_output, change))
    }

    /// The commit with the id, if a history that was asked for holds its change;
    /// otherwise the command that describes the change.
    pub fn commit_data(&self, id: &Oid) -> (r: Result<CommitData, P4Command>)
        ensures
            match self@.history_cache.get(oid::leading_number(id@) as u32) {
                Some(data) => r matches Ok(found) && found@ == data,
                None => r matches Err(command) && command@ == describe_query(
                    seq![oid::leading_number(id@) as u32],
                ),
            },
    {
        let change: u32 = oid_to_change(id);
        assert(self@.history_cache.contains_key(change) == self.history_cache@.contains_key(
            change,
        ));
        match self.history_cache.get(&change) {
            Some(data) => Ok(data.clone()),
            None => Err(describe_change(change)),
        }
    }

    /// The commit that `p4 describe` gives.
    pub fn commit_data_described(id: Oid, describe_output: &str) -> (r: CommitData)
        ensures
            r@ == commit::described_commit(
                id@,
                described_meta(describe_output@, oid::leading_number(id@) as u32),
            ),
    {
        let change: u32 = oid_to_change(&id);
        data_of_meta(id, find_described(describe_output, change))
    }

    /// The files of a change, by what `p4 describe` printed. Without files
    /// there is nothing to fetch.
    pub fn commit_files(describe_output: &str) -> (r: Vec<DescribedFile>)
        ensures
            text::views(r@) == describe::described_files(ztag::records_of(describe_output@)),
    {
        parse_describe_files(describe_output)
    }

    /// How the two sides of each file of a change are fetched, by where `p4
    /// where` finds the files. A file that is not in the workspace is left out.
    pub fn load_commit(&self, files: &Vec<DescribedFile>, where_output: &str) -> (r: Vec<
        CommitFilePlan,
    >)
        ensures
            text::views(r@) == seqs::filter_mapped(
                text::views(files@),
                commit::planner(
                    self@.client_name,
                    describe::where_map(ztag::records_of(where_output@)),
                ),
            ),
    {
        let locations = parse_where(where_output);
        let ghost all = text::views(files@);
        let ghost f = commit::planner(self@.client_name, locations@);
        let mut out: Vec<CommitFilePlan> = Vec::new();
        let mut i: usize = 0;
        assert(text::views(out@) =~= seqs::filter_mapped(all.take(0), f));
        while i < files.len()
            invariant
                i <= files.len(),
                all == text::views(files@),
                f == commit::planner(self@.client_name, locations@),
                text::views(out@) == seqs::filter_mapped(all.take(i as int), f),
            decreases files.len() - i,
        {
            proof {
                seqs::lemma_filter_mapped_step(all, f, i as int);
            }
            assert(all[i as int] == files@[i as int]@);
            let ghost before = text::views(out@);
            if let Some(plan) = plan_file(self.client_name.as_str(), &locations, &files[i]) {
                out.push(plan);
                assert(text::views(out@) =~= before.push(plan@));
            }
            i = i + 1;
        }
        assert(all.take(i as int) =~= all);
        out
    }
}

/// The changes that lines are attributed to, each once, in the order of the
/// lines. A change 0 is no change.
pub open spec fn unique_changes(lines: Seq<AnnotatedLineView>) -> Seq<u32>
    decreases lines.len(),
{
    if lines.len() == 0 {
        Seq::empty()
    } else {
        let earlier = unique_changes(lines.drop_last());
        let change = lines.last().change;
        if change != 0 && !earlier.contains(change) {
            earlier.push(change)
        } else {
            earlier
        }
    }
}

/// At most the first `max` items.
pub open spec fn at_most(s: Seq<u32>, max: nat) -> Seq<u32> {
    if s.len() <= max {
        s
    } else {
        s.take(max as int)
    }
}

/// The items in runs of fifty, the last run with what is left.
pub open spec fn chunks(s: Seq<u32>) -> Seq<Seq<u32>>
    decreases s.len(),
{
    if s.len() == 0 {
        Seq::empty()
    } else if s.len() <= 50 {
        seq![s]
    } else {
        seq![s.take(50)] + chunks(s.skip(50))
    }
}

/// The commands that describe the changes that lines are attributed to.
pub open spec fn description_queries(lines: Seq<AnnotatedLineView>, max: nat) -> Seq<
    P4CommandView,
> {
    chunks(at_most(unique_changes(lines), max)).map_values(
        |changes: Seq<u32>| describe_query(changes),
    )
}

/// What several outputs of `p4 describe` say of changes; where two speak of a
/// change, the later. An output that lacks says nothing.
pub open spec fn all_described(outputs: Seq<Option<Seq<char>>>) -> Map<u32, ChangeMetaView>
    decreases outputs.len(),
{
    if outputs.len() == 0 {
        Map::empty()
    } else {
        let earlier = all_described(outputs.drop_last());
        match outputs.last() {
            Some(output) => earlier.union_prefer_right(
                describe::describe_meta(ztag::records_of(output)),
            ),
            None => earlier,
        }
    }
}

/// The views of optional texts.
pub open spec fn option_views(s: Seq<Option<String>>) -> Seq<Option<Seq<char>>> {
    Seq::new(s.len(), |i: int| text::option_view(s[i]))
}

/// The blame of a buffer from what the depot says.
pub open spec fn blame_from(entry: BlameCacheView, path: Seq<char>, content: Seq<char>) -> blame::BlameView {
    blame::blame_of(
        blame::remapped(entry.lines, entry.depot_text, content),
        entry.descriptions,
        path,
    )
}

/// The blame of a buffer, where the file on disk is as it was when the depot was
/// asked about it.
pub open spec fn kept_blame(
    cache: Map<Seq<char>, BlameCacheView>,
    path: Seq<char>,
    mtime: Option<FileTime>,
    content: Seq<char>,
) -> Option<blame::BlameView> {
    match cache.get(path) {
        Some(entry) => if entry.mtime == mtime {
            Some(blame_from(entry, path, content))
        } else {
            None
        },
        None => None,
    }
}

/// How many rows the blame of a buffer has.
pub open spec fn blame_rows(entry: BlameCacheView, content: Seq<char>) -> nat {
    blame::remapped(entry.lines, entry.depot_text, content).len()
}

/// The changes that lines are attributed to.
fn collect_changes(lines: &Vec<AnnotatedLine>) -> (r: Vec<u32>)
    ensures
        r@ == unique_changes(text::views(lines@)),
{
    let ghost all = text::views(lines@);
    let mut out: Vec<u32> = Vec::new();
    let mut seen: HashMap<u32, bool> = HashMap::new();
    let mut i: usize = 0;
    assert(out@ =~= unique_changes(all.take(0)));
    while i < lines.len()
        invariant
            i <= lines.len(),
            all == text::views(lines@),
            out@ == unique_changes(all.take(i as int)),
            forall|c: u32| #[trigger] seen@.contains_key(c) <==> out@.contains(c),
        decreases lines.len() - i,
    {
        assert(all.take(i + 1).drop_last() =~= all.take(i as int));
        assert(all.take(i + 1).last() == lines@[i as int]@);
        let change: u32 = lines[i].change;
        if change != 0 && !seen.contains_key(&change) {
            let ghost before = out@;
            let ghost known = seen@;
            seen.insert(change, true);
            out.push(change);
            assert forall|c: u32| #[trigger] seen@.contains_key(c) <==> out@.contains(c) by {
                if c == change {
                    assert(out@[before.len() as int] == c);
                } else {
                    assert(known.contains_key(c) <==> before.contains(c));
                    if before.contains(c) {
                        let q = choose|q: int| 0 <= q < before.len() && before[q] == c;
                        assert(out@[q] == c);
                    }
                    if out@.contains(c) {
                        let q = choose|q: int| 0 <= q < out@.len() && out@[q] == c;
                        assert(before[q] == c);
                    }
                }
            }
        }
        i = i + 1;
    }
    assert(all.take(i as int) =~= all);
    out
}

/// Puts what an output of `p4 describe` says into the map.
fn absorb_described(map: &mut HashMap<u32, ChangeMeta>, describe_output: &str)
    ensures
        describe::meta_view(final(map)@) == describe::meta_view(old(map)@).union_prefer_right(
            describe::describe_meta(ztag::records_of(describe_output@)),
        ),
{
    let records = parse_ztag(describe_output);
    let ghost all = text::views(records@);
    let ghost start = describe::meta_view(map@);
    let mut seen: HashMap<u32, bool> = HashMap::new();
    let mut i: usize = 0;
    assert(describe::meta_view(map@) =~= start.union_prefer_right(
        describe::describe_meta(all.take(0)),
    ));
    while i < records.len()
        invariant
            i <= records.len(),
            all == text::views(records@),
            describe::meta_view(map@) == start.union_prefer_right(
                describe::describe_meta(all.take(i as int)),
            ),
            forall|c: u32| #[trigger]
                seen@.contains_key(c) <==> describe::describe_meta(
                    all.take(i as int),
                ).contains_key(c),
        decreases records.len() - i,
    {
        let ghost upto = all.take(i + 1);
        assert(upto.drop_last() =~= all.take(i as int));
        assert(upto.last() == records@[i as int]@);
        let ghost earlier = describe::describe_meta(all.take(i as int));
        let ghost before = describe::meta_view(map@);
        let record = &records[i];
        if let Some(value) = record.get("change") {
            let chars = text::to_chars(value.as_str());
            if let Some(change) = decimal::parse_u32(chars.as_slice()) {
                if !seen.contains_key(&change) {
                    seen.insert(change, true);
                    let meta = parse_change_meta(record);
                    map.insert(change, meta);
                    assert(describe::meta_view(map@) =~= before.insert(change, meta@));
                    assert(before.insert(change, meta@) =~= start.union_prefer_right(
                        earlier.insert(change, meta@),
                    ));
                }
            }
        }
        i = i + 1;
    }
    assert(all.take(i as int) =~= all);
}

/// The blame of a buffer from what the depot says.
fn make_blame(
    lines: &Vec<AnnotatedLine>,
    depot_text: &str,
    descriptions: &HashMap<u32, ChangeMeta>,
    path: &RepoPath,
    content: &str,
) -> (r: Blame)
    requires
        blame::remapped(text::views(lines@), depot_text@, content@).len() <= u32::MAX,
    ensures
        r@ == blame::blame_of(
            blame::remapped(text::views(lines@), depot_text@, content@),
            describe::meta_view(descriptions@),
            path@,
        ),
{
    let mapped = remap_annotation_to_content(lines.as_slice(), depot_text, content);
    assert(blame::row_views(mapped@).len() == mapped@.len());
    build_p4_blame_mapped(mapped.as_slice(), descriptions, path.as_unix_str().to_owned())
}

impl PerforceRepository {
    /// The command that attributes the lines of a file's synced revision.
    pub fn annotate_command(&self, path: &RepoPath) -> (r: P4Command)
        ensures
            r@ == annotate_query(self@.client_name, path@),
    {
        let r = P4Command {
            tagged: true,
            args: vec![
                "-F".to_owned(),
                ANNOTATE_FORMAT.to_owned(),
                "annotate".to_owned(),
                "-q".to_owned(),
                "-u".to_owned(),
                "-c".to_owned(),
                "-i".to_owned(),
                "-dw".to_owned(),
                self.have_target(path),
            ],
        };
        assert(r@.args =~= annotate_query(self@.client_name, path@).args);
        r
    }

    /// The blame of a buffer, where the file on disk has not changed since the
    /// depot was asked about it.
    pub fn cached_blame(&self, path: &RepoPath, mtime: Option<FileTime>, content: &str) -> (r:
        Option<Blame>)
        requires
            self@.blame_cache.contains_key(path@) ==> blame_rows(
                self@.blame_cache[path@],
                content@,
            ) <= u32::MAX,
        ensures
            text::option_view(r) == kept_blame(self@.blame_cache, path@, mtime, content@),
    {
        assert(self@.blame_cache.contains_key(path@) == self.blame_cache@.contains_key(path@));
        match self.blame_cache.get(path.as_unix_str()) {
            Some(entry) => {
                if entry.mtime == mtime {
                    Some(
                        make_blame(
                            &entry.lines,
                            entry.depot_text.as_str(),
                            &entry.descriptions,
                            path,
                            content,
                        ),
                    )
                } else {
                    None
                }
            },
            None => None,
        }
    }

    /// The commands that describe the changes that the output of `p4 annotate`
    /// names, at most as many as history is asked for.
    pub fn description_commands(&self, annotate_output: &str) -> (r: Vec<P4Command>)
        ensures
            text::views(r@) == description_queries(
                blame::annotated_lines(annotate_output@),
                self@.max_history_count,
            ),
    {
        let lines = parse_formatted_annotate(annotate_output);
        let mut unique = collect_changes(&lines);
        let ghost whole = unique@;
        if unique.len() > self.max_history_count {
            unique.truncate(self.max_history_count);
        }
        let ghost wanted = at_most(whole, self.max_history_count as nat);
        assert(unique@ =~= wanted);
        let ghost f = |changes: Seq<u32>| describe_query(changes);
        let ghost goal = chunks(wanted).map_values(f);
        let mut out: Vec<P4Command> = Vec::new();
        let n: usize = unique.len();
        let mut start: usize = 0;
        assert(unique@.skip(0) =~= wanted);
        assert(text::views(out@) + goal =~= goal);
        while start < n
            invariant
                start <= n,
                n == unique@.len(),
                f == (|changes: Seq<u32>| describe_query(changes)),
                text::views(out@) + chunks(unique@.skip(start as int)).map_values(f) == goal,
            decreases n - start,
        {
            let ghost rest = unique@.skip(start as int);
            let ghost before = text::views(out@);
            let end: usize = if n - start <= DESCRIBE_CHUNK {
                n
            } else {
                start + DESCRIBE_CHUNK
            };
            let chunk = vstd::slice::slice_subrange(unique.as_slice(), start, end);
            let command = describe_command(chunk);
            out.push(command);
            assert(text::views(out@) =~= before.push(command@));
            proof {
                let left = unique@.skip(end as int);
                if end < n {
                    assert(rest.take(50) =~= chunk@);
                    assert(rest.skip(50) =~= left);
                } else {
                    assert(rest =~= chunk@);
                    assert(left.len() == 0);
                }
                assert(chunks(rest) =~= seq![chunk@] + chunks(left));
                assert(text::views(out@) + chunks(left).map_values(f) =~= before + chunks(
                    rest,
                ).map_values(f));
            }
            start = end;
        }
        assert(chunks(unique@.skip(start as int)).len() == 0);
        assert(text::views(out@) + chunks(unique@.skip(start as int)).map_values(f)
            =~= text::views(out@));
        out
    }

    /// The blame of a buffer from the output of `p4 annotate`, the text of the
    /// synced revision, and the outputs of the commands that describe changes,
    /// with none for one that failed. What the depot says is kept for as long
    /// as the file on disk stays as it is.
    pub fn blame(
        &mut self,
        path: &RepoPath,
        mtime: Option<FileTime>,
        annotate_output: &str,
        depot_text: &str,
        describe_outputs: &Vec<Option<String>>,
        content: &str,
    ) -> (r: Blame)
        requires
            blame::remapped(
                blame::annotated_lines(annotate_output@),
                depot_text@,
                content@,
            ).len() <= u32::MAX,
        ensures
            ({
                let entry = BlameCacheView {
                    mtime,
                    lines: blame::annotated_lines(annotate_output@),
                    depot_text: depot_text@,
                    descriptions: all_described(option_views(describe_outputs@)),
                };
                &&& r@ == blame_from(entry, path@, content@)
                &&& final(self)@ == (RepositoryView {
                    blame_cache: old(self)@.blame_cache.insert(path@, entry),
                    ..old(self)@
                })
            }),
    {
        let lines = parse_formatted_annotate(annotate_output);
        let mut descriptions: HashMap<u32, ChangeMeta> = HashMap::new();
        let ghost all = option_views(describe_outputs@);
        let mut i: usize = 0;
        assert(describe::meta_view(descriptions@) =~= all_described(all.take(0)));
        while i < describe_outputs.len()
            invariant
                i <= describe_outputs.len(),
                all == option_views(describe_outputs@),
                describe::meta_view(descriptions@) == all_described(all.take(i as int)),
            decreases describe_outputs.len() - i,
        {
            assert(all.take(i + 1).drop_last() =~= all.take(i as int));
            assert(all.take(i + 1).last() == text::option_view(describe_outputs@[i as int]));
            if let Some(output) = &describe_outputs[i] {
                absorb_described(&mut descriptions, output.as_str());
            }
            i = i + 1;
        }
        assert(all.take(i as int) =~= all);
        let r = make_blame(&lines, depot_text, &descriptions, path, content);
        let ghost before = blame_views(self.blame_cache@);
        let entry = BlameCacheEntry {
            mtime,
            lines,
            depot_text: depot_text.to_owned(),
            descriptions,
        };
        self.blame_cache.insert(path.as_unix_str().to_owned(), entry);
        assert(blame_views(self.blame_cache@) =~= before.insert(path@, entry@));
        r
    }
}

/// Every path that is to be deleted is handed to the commands of its kind.
pub proof fn every_path_leaves_the_depot(
    client: Seq<char>,
    actions: Map<Seq<char>, Seq<char>>,
    paths: Seq<Seq<char>>,
    i: int,
)
    requires
        0 <= i < paths.len(),
    ensures
        targets_of_kind(client, actions, delete_kind(actions, paths[i]), paths).contains(
            client::client_syntax(client, paths[i]),
        ),
{
    let kind = delete_kind(actions, paths[i]);
    let f = target_of_kind(client, actions, kind);
    assert(f(paths[i]) == Some(client::client_syntax(client, paths[i])));
    seqs::filter_mapped_holds(paths, f, client::client_syntax(client, paths[i]));
}

/// No path is handed to the commands of another kind than its own.
pub proof fn no_path_is_deleted_twice(
    client: Seq<char>,
    actions: Map<Seq<char>, Seq<char>>,
    paths: Seq<Seq<char>>,
    path: Seq<char>,
    kind: DeleteKind,
)
    requires
        targets_of_kind(client, actions, kind, paths).contains(
            client::client_syntax(client, path),
        ),
    ensures
        delete_kind(actions, path) == kind,
{
    let target = client::client_syntax(client, path);
    let f = target_of_kind(client, actions, kind);
    seqs::filter_mapped_holds(paths, f, target);
    let i = choose|i: int| 0 <= i < paths.len() && f(#[trigger] paths[i]) == Some(target);
    let prefix = client::client_prefix(client).len() as int;
    assert(client::client_syntax(client, paths[i]).skip(prefix) =~= paths[i]);
    assert(target.skip(prefix) =~= path);
}

/// A command that fails while files are taken out of the depot ends the script
/// with its error: it is never reported as done.
pub proof fn failed_deletion_is_reported(
    client: Seq<char>,
    actions: Map<Seq<char>, Seq<char>>,
    paths: Seq<Seq<char>>,
    i: int,
    outcome: P4OutcomeView,
)
    requires
        0 <= i < delete_script(client, actions, paths).len(),
        !(outcome matches P4OutcomeView::Exited { success, .. } && success),
    ensures
        script::step_after(delete_script(client, actions, paths), i, outcome) is Failed,
{
    let adds = targets_of_kind(client, actions, DeleteKind::RevertAdd, paths);
    let edits = targets_of_kind(client, actions, DeleteKind::RevertThenDelete, paths);
    let plains = targets_of_kind(client, actions, DeleteKind::Delete, paths);
    let first = steps_for(adds, seq![seq!["revert"@]]);
    let second = steps_for(edits, seq![seq!["revert"@, "-k"@], seq!["delete"@]]);
    let third = steps_for(plains, seq![seq!["delete"@]]);
    let all = delete_script(client, actions, paths);
    assert(all == first + second + third);
    if i < first.len() {
        assert(all[i] == first[i]);
    } else if i < first.len() + second.len() {
        assert(all[i] == second[i - first.len()]);
    } else {
        assert(all[i] == third[i - first.len() - second.len()]);
    }
    assert(all[i].required is Some);
}

/// A path that is not open for add is handed to a `p4 delete` that has to
/// succeed.
pub proof fn deletion_needs_its_command_to_succeed(
    client: Seq<char>,
    actions: Map<Seq<char>, Seq<char>>,
    paths: Seq<Seq<char>>,
    i: int,
)
    requires
        0 <= i < paths.len(),
        delete_kind(actions, paths[i]) != DeleteKind::RevertAdd,
    ensures
        delete_script(client, actions, paths).contains(
            target_step(
                seq!["delete"@],
                targets_of_kind(client, actions, delete_kind(actions, paths[i]), paths),
            ),
        ),
{
    every_path_leaves_the_depot(client, actions, paths, i);
    let adds = targets_of_kind(client, actions, DeleteKind::RevertAdd, paths);
    let edits = targets_of_kind(client, actions, DeleteKind::RevertThenDelete, paths);
    let plains = targets_of_kind(client, actions, DeleteKind::Delete, paths);
    let first = steps_for(adds, seq![seq!["revert"@]]);
    let second = steps_for(edits, seq![seq!["revert"@, "-k"@], seq!["delete"@]]);
    let third = steps_for(plains, seq![seq!["delete"@]]);
    let all = delete_script(client, actions, paths);
    assert(all == first + second + third);
    if delete_kind(actions, paths[i]) == DeleteKind::RevertThenDelete {
        assert(edits.len() > 0);
        assert(all[(first.len() + 1) as int] == second[1]);
        assert(second[1] == target_step(seq!["delete"@], edits));
    } else {
        assert(plains.len() > 0);
        assert(all[(first.len() + second.len()) as int] == third[0]);
        assert(third[0] == target_step(seq!["delete"@], plains));
    }
}

/// A file that is shelved and reverted is reverted only where shelving it has
/// succeeded, so that the shelf holds the work.
pub proof fn revert_waits_for_the_shelf(
    client: Seq<char>,
    changelist: u32,
    file: Seq<char>,
    outcome: P4OutcomeView,
)
    ensures
        script::step_after(shelve_script(client, changelist, file, true), 0, outcome) is Run
            <==> (outcome matches P4OutcomeView::Exited { success, .. } && success),
{
}

/// Blame that was asked for once is there again for as long as the file on disk
/// stays as it is, for the buffer as it is by then, and is gone once the file has
/// changed. Other files keep theirs.
pub proof fn blame_is_kept_while_the_file_stays(
    cache: Map<Seq<char>, BlameCacheView>,
    path: Seq<char>,
    entry: BlameCacheView,
    mtime: Option<FileTime>,
    other: Seq<char>,
    content: Seq<char>,
)
    ensures
        kept_blame(cache.insert(path, entry), path, entry.mtime, content) == Some(
            blame_from(entry, path, content),
        ),
        mtime != entry.mtime ==> kept_blame(cache.insert(path, entry), path, mtime, content) is None,
        other != path ==> kept_blame(cache.insert(path, entry), other, mtime, content)
            == kept_blame(cache, other, mtime, content),
{
}

/// The commit of every revision of a recorded history is known afterwards.
pub proof fn recorded_history_is_known(
    cache: Map<u32, CommitDataView>,
    revs: Seq<FilelogRevView>,
    n: int,
    i: int,
)
    requires
        0 <= i < n <= revs.len(),
    ensures
        with_history(cache, revs, n).contains_key(revs[i].change),
        with_history(cache, revs, n)[revs[i].change].sha == oid::change_bytes(revs[i].change),
    decreases n,
{
    if i < n - 1 {
        recorded_history_is_known(cache, revs, n - 1, i);
    }
}

/// Recording a history forgets no commit that was known.
pub proof fn recorded_history_forgets_nothing(
    cache: Map<u32, CommitDataView>,
    revs: Seq<FilelogRevView>,
    n: int,
    change: u32,
)
    requires
        0 <= n <= revs.len(),
        cache.contains_key(change),
    ensures
        with_history(cache, revs, n).contains_key(change),
    decreases n,
{
    if n > 0 {
        recorded_history_forgets_nothing(cache, revs, n - 1, change);
    }
}

/// The chunks hold all items in order, none is empty, and none has more than
/// fifty.
pub proof fn chunks_hold_everything(s: Seq<u32>)
    ensures
        chunks(s).flatten() == s,
        forall|i: int|
            0 <= i < chunks(s).len() ==> 1 <= (#[trigger] chunks(s)[i]).len() <= 50,
    decreases s.len(),
{
    if s.len() > 50 {
        let rest = s.skip(50);
        chunks_hold_everything(rest);
        assert(chunks(s).drop_first() =~= chunks(rest));
        assert(chunks(s).first() == s.take(50));
        assert(s =~= s.take(50) + rest);
        assert forall|i: int| 0 <= i < chunks(s).len() implies 1 <= (#[trigger] chunks(s)[i]).len()
            <= 50 by {
            if i > 0 {
                assert(chunks(s)[i] == chunks(rest)[i - 1]);
            }
        }
    } else if s.len() > 0 {
        let one = chunks(s);
        assert(one.drop_first() =~= Seq::<Seq<u32>>::empty());
        assert(one.drop_first().flatten() =~= Seq::<u32>::empty());
        assert(one.flatten() =~= one.first() + one.drop_first().flatten());
        assert(one.flatten() =~= s);
    } else {
        assert(chunks(s).flatten() =~= s);
    }
}

/// The changes are those that lines are attributed to, but for 0, each once.
pub proof fn unique_changes_are_exact(lines: Seq<AnnotatedLineView>)
    ensures
        unique_changes(lines).no_duplicates(),
        forall|c: u32| #[trigger]
            unique_changes(lines).contains(c) <==> c != 0 && exists|i: int|
                0 <= i < lines.len() && (#[trigger] lines[i]).change == c,
    decreases lines.len(),
{
    if lines.len() > 0 {
        let rest = lines.drop_last();
        let earlier = unique_changes(rest);
        let all = unique_changes(lines);
        let last = lines.last().change;
        unique_changes_are_exact(rest);
        assert forall|c: u32| #[trigger] all.contains(c) implies c != 0 && exists|i: int|
            0 <= i < lines.len() && (#[trigger] lines[i]).change == c by {
            if earlier.contains(c) {
                let i = choose|i: int| 0 <= i < rest.len() && (#[trigger] rest[i]).change == c;
                assert(lines[i].change == c);
            } else {
                let q = choose|q: int| 0 <= q < all.len() && all[q] == c;
                if q < earlier.len() {
                    assert(earlier[q] == c);
                }
                assert(lines[lines.len() - 1].change == c);
            }
        }
        assert forall|c: u32|
            c != 0 && (exists|i: int| 0 <= i < lines.len() && (#[trigger] lines[i]).change == c)
            implies #[trigger] all.contains(c) by {
            let i = choose|i: int| 0 <= i < lines.len() && (#[trigger] lines[i]).change == c;
            if i < rest.len() {
                assert(rest[i].change == c);
                assert(earlier.contains(c));
                let q = choose|q: int| 0 <= q < earlier.len() && earlier[q] == c;
                assert(all[q] == c);
            } else if !earlier.contains(c) {
                assert(all[earlier.len() as int] == c);
            }
        }
    }
}

/// A status request for up to sixty-four paths asks about just these paths, all
/// of them and in order, unless none can be open; a request for more, or for
/// none, asks about every file.
pub proof fn status_asks_about_the_paths(
    client: Seq<char>,
    prefixes: Seq<Seq<char>>,
    candidates: Seq<OpenCandidate>,
)
    requires
        prefixes.len() == candidates.len(),
        forall|i: int| 0 <= i < prefixes.len() ==> path::is_relative(#[trigger] prefixes[i]),
    ensures
        status_query(client, prefixes, candidates) is None <==> 0 < prefixes.len() < 65 && (forall|
            i: int,
        |
            0 <= i < candidates.len() ==> #[trigger] candidates[i]
                == OpenCandidate::DefinitelyNotOpen),
        status_query(client, prefixes, candidates) matches Some(query) ==> {
            &&& query.tagged
            &&& query.args[0] == "opened"@
            &&& query.args.len() == (if prefixes.len() < 65 {
                prefixes.len() + 1
            } else {
                1
            })
            &&& prefixes.len() < 65 ==> forall|i: int|
                0 <= i < prefixes.len() ==> commands::names_path(
                    client,
                    query.args[i + 1],
                    #[trigger] prefixes[i],
                )
        },
{
    if let Some(query) = status_query(client, prefixes, candidates) {
        if 0 < prefixes.len() < 65 {
            assert forall|i: int| 0 <= i < prefixes.len() implies commands::names_path(
                client,
                query.args[i + 1],
                #[trigger] prefixes[i],
            ) by {
                client::client_syntax_reads_back(client, prefixes[i]);
                assert(query.args[i + 1] == client::client_syntax(client, prefixes[i]));
            }
        }
    }
}

/// What opens files for edit or add: one command that has to succeed, with the
/// paths that must be opened, or nothing without any. A deletion first asks which
/// of the files are open.
pub proof fn opening_takes_one_command(
    client: Seq<char>,
    action: P4OpenAction,
    paths: Seq<Seq<char>>,
    candidates: Seq<OpenCandidate>,
)
    ensures
        action != P4OpenAction::Delete ==> (open_plan(client, action, paths, candidates) matches
            OpenPlanView::Script(steps) && steps.len() == (if workspace::to_open(
            action,
            paths,
            candidates,
        ).len() > 0 {
            1nat
        } else {
            0
        }) && (steps.len() > 0 ==> steps[0].command.args == commands::open_args(
            action,
            client,
            workspace::to_open(action, paths, candidates),
        ) && !steps[0].command.tagged && steps[0].required is Some)),
        action == P4OpenAction::Delete && paths.len() > 0 ==> (open_plan(
            client,
            action,
            paths,
            candidates,
        ) matches OpenPlanView::AskOpened(query) && query.tagged && query.args == seq!["opened"@]
            + commands::client_paths(client, paths)),
        action == P4OpenAction::Delete && paths.len() == 0 ==> (open_plan(
            client,
            action,
            paths,
            candidates,
        ) matches OpenPlanView::Script(steps) && steps.len() == 0),
        action == P4OpenAction::Edit ==> (open_plan(client, action, paths, candidates) matches
            OpenPlanView::Script(steps) ==> (steps.len() > 0 ==> steps[0].required == Some(
            "p4 edit"@,
        ))),
        action == P4OpenAction::Add ==> (open_plan(client, action, paths, candidates) matches
            OpenPlanView::Script(steps) ==> (steps.len() > 0 ==> steps[0].required == Some(
            "p4 add"@,
        ))),
{
    reveal_strlit("p4 ");
    reveal_strlit("edit");
    reveal_strlit("add");
    reveal_strlit("p4 edit");
    reveal_strlit("p4 add");
    assert("p4 "@ + "edit"@ =~= "p4 edit"@);
    assert("p4 "@ + "add"@ =~= "p4 add"@);
}

/// A file that is open for something other than an add is given up, with its file
/// kept as it is, and deleted after that; one that is open for add is only given
/// up; one that is not open is only deleted.
pub proof fn files_leave_the_depot_by_what_they_are_open_for(
    client: Seq<char>,
    actions: Map<Seq<char>, Seq<char>>,
    p: Seq<char>,
)
    ensures
        ({
            let target = client::client_syntax(client, p);
            let steps = delete_script(client, actions, seq![p]);
            match actions.get(p) {
                None => steps.len() == 1 && steps[0].command.args == seq!["delete"@, target],
                Some(verb) => if verb == "add"@ || verb == "branch"@ || verb == "import"@ || verb
                    == "move/add"@ {
                    steps.len() == 1 && steps[0].command.args == seq!["revert"@, target]
                } else {
                    steps.len() == 2 && steps[0].command.args == seq!["revert"@, "-k"@, target]
                        && steps[1].command.args == seq!["delete"@, target]
                },
            }
        }),
{
    let target = client::client_syntax(client, p);
    let paths = seq![p];
    let add = target_of_kind(client, actions, DeleteKind::RevertAdd);
    let edit = target_of_kind(client, actions, DeleteKind::RevertThenDelete);
    let gone = target_of_kind(client, actions, DeleteKind::Delete);
    let none = Seq::<Seq<char>>::empty();
    assert(paths.drop_last() =~= Seq::<Seq<char>>::empty());
    assert(paths.last() == p);
    let kind = delete_kind(actions, p);
    assert(seqs::filter_mapped(paths.drop_last(), add) =~= none);
    assert(seqs::filter_mapped(paths.drop_last(), edit) =~= none);
    assert(seqs::filter_mapped(paths.drop_last(), gone) =~= none);
    assert(none.push(target) =~= seq![target]);
    let adds = targets_of_kind(client, actions, DeleteKind::RevertAdd, paths);
    let edits = targets_of_kind(client, actions, DeleteKind::RevertThenDelete, paths);
    let plains = targets_of_kind(client, actions, DeleteKind::Delete, paths);
    let a = steps_for(adds, seq![seq!["revert"@]]);
    let b = steps_for(edits, seq![seq!["revert"@, "-k"@], seq!["delete"@]]);
    let c = steps_for(plains, seq![seq!["delete"@]]);
    let steps = delete_script(client, actions, paths);
    assert(steps == a + b + c);
    match kind {
        DeleteKind::RevertAdd => {
            assert(adds == seq![target] && edits == none && plains == none);
            assert(steps[0] == a[0]);
            assert(a[0].command.args =~= seq!["revert"@, target]);
        },
        DeleteKind::RevertThenDelete => {
            assert(edits == seq![target] && adds == none && plains == none);
            assert(steps[0] == b[0] && steps[1] == b[1]);
            assert(b[0].command.args =~= seq!["revert"@, "-k"@, target]);
            assert(b[1].command.args =~= seq!["delete"@, target]);
        },
        DeleteKind::Delete => {
            assert(plains == seq![target] && edits == none && adds == none);
            assert(steps[0] == c[0]);
            assert(c[0].command.args =~= seq!["delete"@, target]);
        },
    }
}

/// Shelving a file shelves it into its changelist, and reverts it only if that is
/// asked for, after the shelf.
pub proof fn shelving_reverts_only_if_asked(
    client: Seq<char>,
    changelist: u32,
    file: Seq<char>,
    also_revert: bool,
)
    ensures
        ({
            let steps = shelve_script(client, changelist, file, also_revert);
            &&& steps.len() == (if also_revert {
                2nat
            } else {
                1
            })
            &&& steps[0].command.args == commands::shelve_args(client, changelist, file)
            &&& also_revert ==> steps[1].command.args == commands::revert_args(client, file)
            &&& forall|i: int| 0 <= i < steps.len() ==> (#[trigger] steps[i]).required is Some
        }),
{
}

/// A recorded revision's commit is the one of the history, where no change occurs
/// twice in it.
pub proof fn recorded_commits_are_those_of_the_history(
    cache: Map<u32, CommitDataView>,
    revs: Seq<FilelogRevView>,
    n: int,
    i: int,
)
    requires
        0 <= i < n <= revs.len(),
        forall|a: int, b: int|
            0 <= a < b < revs.len() ==> (#[trigger] revs[a]).change != (#[trigger] revs[b]).change,
    ensures
        with_history(cache, revs, n).get(revs[i].change) == Some(commit::history_commits(revs)[i]),
    decreases n,
{
    if i < n - 1 {
        recorded_commits_are_those_of_the_history(cache, revs, n - 1, i);
        assert(revs[i].change != revs[n - 1].change);
    }
}

/// A recorded revision is shown as what its history says of it: its whole
/// description, its user and its time. What was never recorded is asked for.
pub proof fn recorded_revisions_are_shown(
    cache: Map<u32, CommitDataView>,
    revs: Seq<FilelogRevView>,
    i: int,
)
    requires
        0 <= i < revs.len(),
        forall|a: int, b: int|
            0 <= a < b < revs.len() ==> (#[trigger] revs[a]).change != (#[trigger] revs[b]).change,
    ensures
        ({
            let commit = oid::hex_text(oid::change_bytes(revs[i].change));
            show_plan(with_history(cache, revs, revs.len() as int), commit) matches
                ShowPlanView::Known(details) && details.sha == commit && details.message
                == revs[i].desc && details.author_name == revs[i].user && (revs[i].time matches
                Some(t) ==> details.commit_timestamp == t)
        }),
{
    recorded_commits_are_those_of_the_history(cache, revs, revs.len() as int, i);
    oid::change_is_named_by_its_id(revs[i].change);
}

/// A change that no history holds is asked for by its number, and a text that is
/// no id names none.
pub proof fn unknown_changes_are_described(cache: Map<u32, CommitDataView>, change: u32)
    ensures
        !cache.contains_key(change) ==> (show_plan(
            cache,
            oid::hex_text(oid::change_bytes(change)),
        ) matches ShowPlanView::Describe { change: asked, command } && asked == change
            && command.tagged && command.args == seq![
            "describe"@,
            "-s"@,
            decimal::digits(change as nat),
        ]),
        show_plan(cache, Seq::empty()) == ShowPlanView::Invalid,
{
    oid::change_is_named_by_its_id(change);
    let d = decimal::digits(change as nat);
    assert(describe_query(seq![change]).args =~= seq!["describe"@, "-s"@, d]);
}

/// What is described of a change goes into its details: the summary as the
/// message, the user and the time. Of a change that is not described nothing is
/// known.
pub proof fn described_changes_are_shown(commit: Seq<char>, output: Seq<char>, change: u32)
    ensures
        ({
            let known = describe::describe_meta(ztag::records_of(output));
            let details = commit::described_details(commit, described_meta(output, change));
            &&& details.sha == commit
            &&& known.get(change) matches Some(meta) ==> {
                &&& meta.summary matches Some(s) ==> details.message == s
                &&& meta.user matches Some(u) ==> details.author_name == u
                &&& meta.time matches Some(t) ==> details.commit_timestamp == t
            }
            &&& known.get(change) is None ==> details.message.len() == 0
                && details.author_name.len() == 0 && details.commit_timestamp == 0
        }),
{
}

/// The commands that describe changes name, all together, the changes of the
/// lines, each once and in the order of the lines, up to the limit; none names
/// more than fifty.
pub proof fn every_change_is_described_once(lines: Seq<AnnotatedLineView>, max: nat)
    ensures
        ({
            let asked = at_most(unique_changes(lines), max);
            let queries = description_queries(lines, max);
            &&& queries.len() == chunks(asked).len()
            &&& chunks(asked).flatten() == asked
            &&& forall|i: int|
                0 <= i < queries.len() ==> (#[trigger] queries[i]).tagged && 3
                    <= queries[i].args.len() <= 52 && queries[i].args[0] == "describe"@
                    && queries[i].args[1] == "-s"@ && queries[i].args.len() == chunks(asked)[i].len()
                    + 2
            &&& forall|i: int, k: int|
                0 <= i < queries.len() && 0 <= k < chunks(asked)[i].len()
                    ==> decimal::unsigned_value(
                    #[trigger] queries[i].args[k + 2],
                    u32::MAX as nat,
                ) == Some(chunks(asked)[i][k] as nat)
            &&& asked.len() <= max
            &&& unique_changes(lines).len() <= max ==> asked == unique_changes(lines)
        }),
{
    let asked = at_most(unique_changes(lines), max);
    let queries = description_queries(lines, max);
    chunks_hold_everything(asked);
    assert forall|i: int| 0 <= i < queries.len() implies (#[trigger] queries[i]).tagged && 3
        <= queries[i].args.len() <= 52 && queries[i].args[0] == "describe"@ && queries[i].args[1]
        == "-s"@ && queries[i].args.len() == chunks(asked)[i].len() + 2 by {
        assert(1 <= chunks(asked)[i].len() <= 50);
        assert(queries[i] == describe_query(chunks(asked)[i]));
    }
    assert forall|i: int, k: int|
        0 <= i < queries.len() && 0 <= k < chunks(asked)[i].len() implies decimal::unsigned_value(
        #[trigger] queries[i].args[k + 2],
        u32::MAX as nat,
    ) == Some(chunks(asked)[i][k] as nat) by {
        assert(queries[i] == describe_query(chunks(asked)[i]));
        let c = chunks(asked)[i][k];
        assert(queries[i].args[k + 2] == decimal::digits(c as nat));
        decimal::unsigned_reads_back(c as nat, u32::MAX as nat);
    }
}

/// What the last output says of a change counts, and an output that lacks says
/// nothing.
pub proof fn later_outputs_count(outputs: Seq<Option<Seq<char>>>, output: Seq<char>, change: u32)
    ensures
        ({
            let said = describe::describe_meta(ztag::records_of(output));
            all_described(outputs.push(Some(output))).get(change) == (match said.get(change) {
                Some(meta) => Some(meta),
                None => all_described(outputs).get(change),
            })
        }),
        all_described(outputs.push(None)) == all_described(outputs),
        all_described(Seq::empty()) == Map::<u32, ChangeMetaView>::empty(),
{
    assert(outputs.push(Some(output)).drop_last() =~= outputs);
    assert(outputs.push(None).drop_last() =~= outputs);
}

/// What prints or attributes a file names its synced revision: the file is read
/// back from the target without its `#have`.
pub proof fn synced_revisions_are_named(client: Seq<char>, p: Seq<char>)
    requires
        path::is_relative(p),
    ensures
        ({
            let printed = print_have(client, p);
            let target = printed.args[2];
            let n = target.len() - 5;
            &&& !printed.tagged && printed.args.len() == 3 && printed.args[0] == "print"@
                && printed.args[1] == "-q"@
            &&& n >= 0 && target.skip(n) == "#have"@ && commands::names_path(
                client,
                target.take(n),
                p,
            )
            &&& annotate_query(client, p).args.last() == target
            &&& annotate_query(client, p).args.contains("annotate"@)
            &&& filelog_query(client, p, 50).args.last() == target.take(n)
        }),
{
    client::client_syntax_reads_back(client, p);
    reveal_strlit("#have");
    let target = have_revision(client, p);
    let n = target.len() - 5;
    assert(target.skip(n) =~= "#have"@);
    assert(target.take(n) =~= client::client_syntax(client, p));
    assert(annotate_query(client, p).args[2] == "annotate"@);
}

/// The shelved files of just those changelists are asked for that have any, by
/// their numbers and in order.
pub proof fn shelves_are_asked_for(client: Seq<char>, changes: Seq<PendingChangeView>)
    ensures
        forall|i: int|
            0 <= i < changes.len() ==> (shelved_query_of(client)(#[trigger] changes[i]) is Some
                <==> changes[i].has_shelved),
        forall|i: int|
            0 <= i < changes.len() && (#[trigger] changes[i]).has_shelved ==> (
            shelved_query_of(client)(changes[i]) matches Some(query) && query.tagged
                && query.args.len() == 5 && query.args[0] == "fstat"@ && query.args[1] == "-Rs"@
                && query.args[2] == "-e"@ && decimal::unsigned_value(
                query.args[3],
                u32::MAX as nat,
            ) == Some(changes[i].number as nat)),
{
    assert forall|i: int|
        0 <= i < changes.len() && (#[trigger] changes[i]).has_shelved implies (shelved_query_of(
        client,
    )(changes[i]) matches Some(query) && query.tagged && query.args.len() == 5 && query.args[0]
        == "fstat"@ && query.args[1] == "-Rs"@ && query.args[2] == "-e"@ && decimal::unsigned_value(
        query.args[3],
        u32::MAX as nat,
    ) == Some(changes[i].number as nat)) by {
        decimal::unsigned_reads_back(changes[i].number as nat, u32::MAX as nat);
    }
}

/// The shelved files of several outputs are those of each, in order.
pub proof fn shelved_outputs_come_in_order(
    root: Seq<char>,
    outputs: Seq<Seq<char>>,
    output: Seq<char>,
)
    ensures
        all_shelved_files(root, outputs.push(output)) == all_shelved_files(root, outputs)
            + changelists::shelved_files(root, ztag::records_of(output)),
        all_shelved_files(root, Seq::empty()).len() == 0,
{
    assert(outputs.push(output).drop_last() =~= outputs);
}

} // verus!
