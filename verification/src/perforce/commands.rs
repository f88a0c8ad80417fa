//! The argument vectors of the `p4` commands that change files.

use crate::decimal;
use crate::path;
use crate::path::RepoPath;
use crate::perforce::changelists;
use crate::perforce::changelists::ChangelistId;
use crate::perforce::client;
use crate::perforce::client::client_syntax_path;
use crate::text;
use vstd::prelude::*;
use vstd::string::StringExecFns;

verus! {

/// What a save, a creation or a deletion opens a file for.
#[derive(Debug, Clone, Copy, PartialEq, Eq, Structural)]
pub enum P4OpenAction {
    /// Make a synced, read-only file writable and open it for edit.
    Edit,
    /// Open a file that the depot does not have yet.
    Add,
    /// Open a file for removal.
    Delete,
}

/// The `p4` subcommand of an action.
pub open spec fn action_verb(action: P4OpenAction) -> Seq<char> {
    match action {
        P4OpenAction::Edit => "edit"@,
        P4OpenAction::Add => "add"@,
        P4OpenAction::Delete => "delete"@,
    }
}

impl P4OpenAction {
    /// The `p4` subcommand of the action.
    pub fn verb(self) -> (r: &'static str)
        ensures
            r@ == action_verb(self),
    {
        match self {
            P4OpenAction::Edit => "edit",
            P4OpenAction::Add => "add",
            P4OpenAction::Delete => "delete",
        }
    }
}

/// The paths in client syntax.
pub open spec fn client_paths(client: Seq<char>, paths: Seq<Seq<char>>) -> Seq<Seq<char>> {
    paths.map_values(|p: Seq<char>| client::client_syntax(client, p))
}

/// The arguments that open files.
pub open spec fn open_args(action: P4OpenAction, client: Seq<char>, paths: Seq<Seq<char>>) -> Seq<
    Seq<char>,
> {
    seq![action_verb(action)] + client_paths(client, paths)
}

/// The arguments that record a rename without touching the file on disk.
pub open spec fn move_args(client: Seq<char>, src: Seq<char>, dst: Seq<char>) -> Seq<Seq<char>> {
    seq![
        "move"@,
        "-k"@,
        client::client_syntax(client, src),
        client::client_syntax(client, dst),
    ]
}

/// The arguments that move an opened file into a changelist.
pub open spec fn reopen_args(client: Seq<char>, target: ChangelistId, file: Seq<char>) -> Seq<
    Seq<char>,
> {
    seq![
        "reopen"@,
        "-c"@,
        changelists::changelist_text(target),
        client::client_syntax(client, file),
    ]
}

/// The arguments that restore a shelved file into a changelist.
pub open spec fn unshelve_args(
    client: Seq<char>,
    source: u32,
    target: ChangelistId,
    file: Seq<char>,
) -> Seq<Seq<char>> {
    seq![
        "unshelve"@,
        "-s"@,
        decimal::digits(source as nat),
        "-c"@,
        changelists::changelist_text(target),
        "-Af"@,
        client::client_syntax(client, file),
    ]
}

/// The arguments that revert a file.
pub open spec fn revert_args(client: Seq<char>, file: Seq<char>) -> Seq<Seq<char>> {
    seq!["revert"@, client::client_syntax(client, file)]
}

/// The arguments that shelve a file.
pub open spec fn shelve_args(client: Seq<char>, changelist: u32, file: Seq<char>) -> Seq<
    Seq<char>,
> {
    seq![
        "shelve"@,
        "-c"@,
        decimal::digits(changelist as nat),
        client::client_syntax(client, file),
    ]
}

/// Appends the paths in client syntax.
pub fn push_client_paths(args: &mut Vec<String>, client_name: &str, paths: &[RepoPath])
    ensures
        text::views(final(args)@) == text::views(old(args)@) + client_paths(
            client_name@,
            text::views(paths@),
        ),
{
    let ghost start = text::views(args@);
    let ghost goal = client_paths(client_name@, text::views(paths@));
    let mut i: usize = 0;
    assert(start + goal.take(0) =~= start);
    while i < paths.len()
        invariant
            i <= paths@.len(),
            goal == client_paths(client_name@, text::views(paths@)),
            text::views(args@) == start + goal.take(i as int),
        decreases paths@.len() - i,
    {
        let ghost before = text::views(args@);
        let arg = client_syntax_path(client_name, &paths[i]);
        args.push(arg);
        assert(text::views(args@) =~= before.push(arg@));
        assert(start + goal.take(i + 1) =~= (start + goal.take(i as int)).push(goal[i as int]));
        i = i + 1;
    }
    assert(goal.take(i as int) =~= goal);
}

/// The arguments of `p4 edit`, `add` or `delete` for files, which go into the
/// default changelist.
pub fn p4_open_args(action: P4OpenAction, client_name: &str, paths: &[RepoPath]) -> (r: Vec<String>)
    ensures
        text::views(r@) == open_args(action, client_name@, text::views(paths@)),
{
    let mut args: Vec<String> = Vec::new();
    args.push(action.verb().to_owned());
    assert(text::views(args@) =~= seq![action_verb(action)]);
    push_client_paths(&mut args, client_name, paths);
    args
}

/// The arguments of `p4 move -k`, which records a rename and leaves the file
/// on disk to the editor.
pub fn p4_move_args(client_name: &str, src: &RepoPath, dst: &RepoPath) -> (r: Vec<String>)
    ensures
        text::views(r@) == move_args(client_name@, src@, dst@),
{
    let args = vec![
        "move".to_owned(),
        "-k".to_owned(),
        client_syntax_path(client_name, src),
        client_syntax_path(client_name, dst),
    ];
    assert(text::views(args@) =~= move_args(client_name@, src@, dst@));
    args
}

/// The arguments of `p4 reopen -c`, which moves an opened file into another
/// changelist.
pub fn p4_reopen_args(client_name: &str, target: ChangelistId, file: &RepoPath) -> (r: Vec<String>)
    ensures
        text::views(r@) == reopen_args(client_name@, target, file@),
{
    let args = vec![
        "reopen".to_owned(),
        "-c".to_owned(),
        target.as_p4_arg(),
        client_syntax_path(client_name, file),
    ];
    assert(text::views(args@) =~= reopen_args(client_name@, target, file@));
    args
}

/// The arguments of `p4 unshelve`, which restores a shelved file into a
/// changelist as an opened file and leaves the shelf as it is. `-Af` keeps the
/// command to files.
pub fn p4_unshelve_args(
    client_name: &str,
    source: u32,
    target: ChangelistId,
    file: &RepoPath,
) -> (r: Vec<String>)
    ensures
        text::views(r@) == unshelve_args(client_name@, source, target, file@),
{
    let args = vec![
        "unshelve".to_owned(),
        "-s".to_owned(),
        decimal::to_digits(source as u64),
        "-c".to_owned(),
        target.as_p4_arg(),
        "-Af".to_owned(),
        client_syntax_path(client_name, file),
    ];
    assert(text::views(args@) =~= unshelve_args(client_name@, source, target, file@));
    args
}

/// The arguments of `p4 revert`, which takes one file out of whatever
/// changelist it is open in. A file opened for add stays on disk.
pub fn p4_revert_args(client_name: &str, file: &RepoPath) -> (r: Vec<String>)
    ensures
        text::views(r@) == revert_args(client_name@, file@),
{
    let args = vec!["revert".to_owned(), client_syntax_path(client_name, file)];
    assert(text::views(args@) =~= revert_args(client_name@, file@));
    args
}

/// The arguments of `p4 shelve -c`, which shelves one file into its changelist.
/// The default changelist has no shelves, so the changelist has a number.
pub fn p4_shelve_args(client_name: &str, changelist: u32, file: &RepoPath) -> (r: Vec<String>)
    ensures
        text::views(r@) == shelve_args(client_name@, changelist, file@),
{
    let args = vec![
        "shelve".to_owned(),
        "-c".to_owned(),
        decimal::to_digits(changelist as u64),
        client_syntax_path(client_name, file),
    ];
    assert(text::views(args@) =~= shelve_args(client_name@, changelist, file@));
    args
}

/// The URL of a changelist in Helix Swarm.
pub open spec fn swarm_url(host: Seq<char>, chnum: u32) -> Seq<char> {
    text::without_trailing(host, '/') + "/changes/"@ + decimal::digits(chnum as nat)
}

/// The URL of a changelist in Helix Swarm: `<host>/changes/<number>`, with no
/// slash doubled where the host ends in one.
pub fn swarm_changelist_url(host: &str, chnum: u32) -> (r: String)
    ensures
        r@ == swarm_url(host@, chnum),
{
    let chars = text::to_chars(host);
    let mut out = text::from_chars(text::trim_end_char(chars.as_slice(), '/'));
    out.append("/changes/");
    decimal::push_digits(&mut out, chnum as u64);
    out
}

/// A slash at the host's end makes no difference.
pub proof fn slash_after_host_is_ignored(host: Seq<char>, chnum: u32)
    ensures
        swarm_url(host.push('/'), chnum) == swarm_url(host, chnum),
{
    assert(host.push('/').drop_last() =~= host);
}

/// Whether an argument names a path of the client: the path is read back from it.
pub open spec fn names_path(client: Seq<char>, argument: Seq<char>, p: Seq<char>) -> bool {
    client::repo_path_of_client_path(client, argument) == Some(p)
}

/// Opening files names the action's subcommand and then every path, in order, so
/// that the paths are read back from the arguments.
pub proof fn open_args_name_every_path(
    action: P4OpenAction,
    client: Seq<char>,
    paths: Seq<Seq<char>>,
)
    requires
        forall|i: int| 0 <= i < paths.len() ==> path::is_relative(#[trigger] paths[i]),
    ensures
        open_args(action, client, paths).len() == paths.len() + 1,
        action == P4OpenAction::Edit ==> open_args(action, client, paths)[0] == "edit"@,
        action == P4OpenAction::Add ==> open_args(action, client, paths)[0] == "add"@,
        action == P4OpenAction::Delete ==> open_args(action, client, paths)[0] == "delete"@,
        forall|i: int|
            0 <= i < paths.len() ==> names_path(
                client,
                open_args(action, client, paths)[i + 1],
                #[trigger] paths[i],
            ),
{
    assert forall|i: int| 0 <= i < paths.len() implies names_path(
        client,
        open_args(action, client, paths)[i + 1],
        #[trigger] paths[i],
    ) by {
        client::client_syntax_reads_back(client, paths[i]);
        assert(open_args(action, client, paths)[i + 1] == client::client_syntax(client, paths[i]));
    }
}

/// The arguments that act on a file name it, and the changelist where there is
/// one: both are read back from the arguments.
pub proof fn arguments_name_file_and_changelist(
    client: Seq<char>,
    source: u32,
    target: ChangelistId,
    file: Seq<char>,
    other: Seq<char>,
)
    requires
        path::is_relative(file),
        path::is_relative(other),
    ensures
        ({
            let args = reopen_args(client, target, file);
            &&& args.len() == 4 && args[0] == "reopen"@ && args[1] == "-c"@
            &&& changelists::change_field(args[2]) == Some(target)
            &&& names_path(client, args[3], file)
        }),
        ({
            let args = unshelve_args(client, source, target, file);
            &&& args.len() == 7 && args[0] == "unshelve"@ && args[1] == "-s"@ && args[3] == "-c"@
                && args[5] == "-Af"@
            &&& changelists::change_field(args[2]) == Some(ChangelistId::Numbered(source))
            &&& changelists::change_field(args[4]) == Some(target)
            &&& names_path(client, args[6], file)
        }),
        ({
            let args = shelve_args(client, source, file);
            &&& args.len() == 4 && args[0] == "shelve"@ && args[1] == "-c"@
            &&& changelists::change_field(args[2]) == Some(ChangelistId::Numbered(source))
            &&& names_path(client, args[3], file)
        }),
        ({
            let args = revert_args(client, file);
            &&& args.len() == 2 && args[0] == "revert"@
            &&& names_path(client, args[1], file)
        }),
        ({
            let args = move_args(client, file, other);
            &&& args.len() == 4 && args[0] == "move"@ && args[1] == "-k"@
            &&& names_path(client, args[2], file)
            &&& names_path(client, args[3], other)
        }),
{
    client::client_syntax_reads_back(client, file);
    client::client_syntax_reads_back(client, other);
    changelists::changelist_text_reads_back(target);
    changelists::changelist_text_reads_back(ChangelistId::Numbered(source));
}

/// The address of a changelist is the host, without slashes at its end, and the
/// changelist's page behind it; the number is read back from it.
pub proof fn swarm_url_names_the_changelist(host: Seq<char>, slashes: nat, chnum: u32)
    requires
        host.len() > 0 ==> host.last() != '/',
    ensures
        ({
            let url = swarm_url(host + text::repeated('/', slashes), chnum);
            &&& (host + "/changes/"@).is_prefix_of(url)
            &&& decimal::unsigned_value(
                url.skip((host + "/changes/"@).len() as int),
                u32::MAX as nat,
            ) == Some(chnum as nat)
        }),
{
    text::trailing_characters_are_dropped(host, '/', slashes);
    decimal::unsigned_reads_back(chnum as nat, u32::MAX as nat);
    let url = swarm_url(host + text::repeated('/', slashes), chnum);
    let start = host + "/changes/"@;
    assert(url.subrange(0, start.len() as int) =~= start);
    assert(url.skip(start.len() as int) =~= decimal::digits(chnum as nat));
}

} // verus!
