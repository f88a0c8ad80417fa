//! Which Perforce workspace a folder belongs to, and which files it must ask
//! the server about.

use crate::path::RepoPath;
use crate::perforce::client;
use crate::perforce::commands::P4OpenAction;
use crate::perforce::describe::trim_text;
use crate::perforce::ztag;
use crate::perforce::ztag::parse_ztag;
use crate::text;
use vstd::prelude::*;
use vstd::string::StringExecFns;

verus! {

/// Whether a text has ASCII characters alone.
pub open spec fn is_ascii_text(s: Seq<char>) -> bool {
    forall|i: int| 0 <= i < s.len() ==> (#[trigger] s[i]) < '\u{80}'
}

/// An ASCII text in small letters.
pub open spec fn ascii_lowered(s: Seq<char>) -> Seq<char> {
    Seq::new(s.len(), |i: int| text::ascii_lower(s[i]))
}

/// What `str::to_lowercase` makes of a text.
pub uninterp spec fn lowercase(s: Seq<char>) -> Seq<char>;

/// Calls `str::to_lowercase`. Claimed of it: its result depends on the text
/// alone, and of a text of ASCII characters it changes the capital letters into
/// small ones and nothing else. What it makes of other characters is Unicode's
/// mapping and is left unsaid.
#[verifier::external_body]
pub(crate) fn to_lowercase(s: &str) -> (r: String)
    ensures
        r@ == lowercase(s@),
        is_ascii_text(s@) ==> r@ == ascii_lowered(s@),
{
    s.to_lowercase()
}

/// A path for comparison: forward slashes, none at its end, in lower case.
pub open spec fn comparable_path(p: Seq<char>) -> Seq<char> {
    lowercase(client::normalized_root(p))
}

/// Whether a folder is the root or lies below it, both for comparison. An empty
/// root holds nothing.
pub open spec fn root_contains(root: Seq<char>, dir: Seq<char>) -> bool {
    root.len() > 0 && (dir == root || (root + "/"@).is_prefix_of(dir))
}

/// Dropping characters from the end leaves an ASCII text one.
proof fn lemma_without_trailing_is_ascii(s: Seq<char>, c: char)
    requires
        is_ascii_text(s),
    ensures
        is_ascii_text(text::without_trailing(s, c)),
    decreases s.len(),
{
    if s.len() > 0 && s.last() == c {
        lemma_without_trailing_is_ascii(s.drop_last(), c);
    }
}

/// A path for comparison.
fn to_comparable(p: &str) -> (r: String)
    ensures
        r@ == comparable_path(p@),
        is_ascii_text(p@) ==> r@ == ascii_lowered(client::normalized_root(p@)),
{
    proof {
        if is_ascii_text(p@) {
            lemma_without_trailing_is_ascii(text::replaced(p@, '\\', '/'), '/');
        }
    }
    let chars = text::to_chars(p);
    let slashed = text::replace_char(chars.as_slice(), '\\', '/');
    let trimmed = text::from_chars(text::trim_end_char(slashed.as_slice(), '/'));
    to_lowercase(trimmed.as_str())
}

/// Whether a folder is the root or lies below it, both for comparison.
pub fn comparable_root_contains(root: &str, dir: &str) -> (r: bool)
    ensures
        r == root_contains(root@, dir@),
{
    let root_chars = text::to_chars(root);
    if root_chars.len() == 0 {
        return false;
    }
    let mut below = root.to_owned();
    below.append("/");
    let dir_chars = text::to_chars(dir);
    match text::strip_prefix(dir_chars.as_slice(), below.as_str()) {
        Some(rest) => true,
        None => text::is_text(dir_chars.as_slice(), root),
    }
}

/// Whether the opened folder `dir` lies within `client_root`, the root that
/// `p4 info` reports. If it does not, the client is that of another workspace
/// and must not be used for the folder. Separators, case and separators at the
/// end make no difference; a root contains only whole components.
pub fn workspace_root_matches(client_root: &str, dir: &str) -> (r: bool)
    ensures
        r == root_contains(comparable_path(client_root@), comparable_path(dir@)),
        is_ascii_text(client_root@) && is_ascii_text(dir@) ==> r == root_contains(
            ascii_lowered(client::normalized_root(client_root@)),
            ascii_lowered(client::normalized_root(dir@)),
        ),
{
    let root = to_comparable(client_root);
    let dir = to_comparable(dir);
    comparable_root_contains(root.as_str(), dir.as_str())
}

/// A Perforce workspace.
#[derive(Debug)]
pub struct PerforceWorkspace {
    /// The client's root on disk.
    pub client_root: String,
    /// The client's name.
    pub client_name: String,
}

/// What a [`PerforceWorkspace`] says.
#[verifier::ext_equal]
pub struct PerforceWorkspaceView {
    pub client_root: Seq<char>,
    pub client_name: Seq<char>,
}

impl View for PerforceWorkspace {
    type V = PerforceWorkspaceView;

    open spec fn view(&self) -> PerforceWorkspaceView {
        PerforceWorkspaceView {
            client_root: self.client_root@,
            client_name: self.client_name@,
        }
    }
}

/// Whether `p4 info` gives a value that says something.
pub open spec fn is_known(value: Seq<char>) -> bool {
    value.len() > 0 && value != "*unknown*"@
}

/// The workspace that the first record of `p4 info` names, with the root and
/// name without whitespace around them.
pub open spec fn named_workspace(records: Seq<ztag::Fields>) -> Option<PerforceWorkspaceView> {
    if records.len() == 0 {
        None
    } else {
        match (records[0].get("clientName"@), records[0].get("clientRoot"@)) {
            (Some(name), Some(root)) => {
                let client_name = text::trimmed(name);
                let client_root = text::trimmed(root);
                if is_known(client_name) && is_known(client_root) {
                    Some(PerforceWorkspaceView { client_root, client_name })
                } else {
                    None
                }
            },
            _ => None,
        }
    }
}

/// The workspace of the folder `dir`: the one that `p4 info` names, if its root
/// contains the folder.
pub open spec fn detected_workspace(records: Seq<ztag::Fields>, dir: Seq<char>) -> Option<
    PerforceWorkspaceView,
> {
    match named_workspace(records) {
        Some(workspace) => if root_contains(
            comparable_path(workspace.client_root),
            comparable_path(dir),
        ) {
            Some(workspace)
        } else {
            None
        },
        None => None,
    }
}

/// Whether `p4 info` gives a value that says something.
fn says_something(value: &str) -> (r: bool)
    ensures
        r == is_known(value@),
{
    let chars = text::to_chars(value);
    chars.len() > 0 && !text::is_text(chars.as_slice(), "*unknown*")
}

/// The workspace that `p4 info` names.
pub fn parse_workspace(info_output: &str) -> (r: Option<PerforceWorkspace>)
    ensures
        text::option_view(r) == named_workspace(ztag::records_of(info_output@)),
{
    let records = parse_ztag(info_output);
    assert(text::views(records@).len() == records@.len());
    if records.len() == 0 {
        return None;
    }
    assert(text::views(records@)[0] == records@[0]@);
    let info = &records[0];
    if let (Some(name), Some(root)) = (info.get("clientName"), info.get("clientRoot")) {
        let client_name = trim_text(name.as_str());
        let client_root = trim_text(root.as_str());
        if says_something(client_name.as_str()) && says_something(client_root.as_str()) {
            return Some(PerforceWorkspace { client_root, client_name });
        }
    }
    None
}

/// What can be told from disk of whether a file is open. Perforce keeps files
/// that are not open read-only and makes opened ones writable.
#[derive(Debug, Clone, Copy, PartialEq, Eq, Structural)]
pub enum OpenCandidate {
    /// A regular file that is read-only: it is not open.
    DefinitelyNotOpen,
    /// Anything else might be open, and the server must be asked.
    MaybeOpen,
}

/// What is known of a path on disk, without following a link.
#[derive(Debug, Clone, Copy, PartialEq, Eq, Structural)]
pub struct FileFacts {
    pub is_file: bool,
    pub readonly: bool,
}

/// What can be told of a path; `None` stands for one that is missing or could
/// not be looked at.
pub open spec fn candidate(facts: Option<FileFacts>) -> OpenCandidate {
    match facts {
        Some(f) => if f.is_file && f.readonly {
            OpenCandidate::DefinitelyNotOpen
        } else {
            OpenCandidate::MaybeOpen
        },
        None => OpenCandidate::MaybeOpen,
    }
}

/// Classifies a path from what is known of it on disk. Only a read-only regular
/// file is provably not open.
pub fn classify_open_candidate(facts: Option<FileFacts>) -> (r: OpenCandidate)
    ensures
        r == candidate(facts),
{
    match facts {
        Some(f) => {
            if f.is_file && f.readonly {
                OpenCandidate::DefinitelyNotOpen
            } else {
                OpenCandidate::MaybeOpen
            }
        },
        None => OpenCandidate::MaybeOpen,
    }
}

/// Whether no candidate can be open. Nothing can be told of no candidates.
pub open spec fn none_can_be_open(candidates: Seq<OpenCandidate>) -> bool {
    candidates.len() > 0 && forall|i: int|
        0 <= i < candidates.len() ==> #[trigger] candidates[i] == OpenCandidate::DefinitelyNotOpen
}

/// Whether the server need not be asked which of the candidates are open.
pub fn can_skip_opened_query(candidates: &[OpenCandidate]) -> (r: bool)
    ensures
        r == none_can_be_open(candidates@),
{
    let mut i: usize = 0;
    while i < candidates.len()
        invariant
            i <= candidates@.len(),
            forall|k: int|
                0 <= k < i ==> #[trigger] candidates@[k] == OpenCandidate::DefinitelyNotOpen,
        decreases candidates@.len() - i,
    {
        if candidates[i] != OpenCandidate::DefinitelyNotOpen {
            assert(candidates@[i as int] != OpenCandidate::DefinitelyNotOpen);
            return false;
        }
        i = i + 1;
    }
    candidates.len() > 0
}

/// The paths whose candidate is not open.
pub open spec fn not_yet_open(paths: Seq<Seq<char>>, candidates: Seq<OpenCandidate>) -> Seq<
    Seq<char>,
>
    decreases paths.len(),
{
    if paths.len() == 0 {
        Seq::empty()
    } else {
        let rest = not_yet_open(paths.drop_last(), candidates);
        if candidates[paths.len() - 1] == OpenCandidate::DefinitelyNotOpen {
            rest.push(paths.last())
        } else {
            rest
        }
    }
}

/// The paths that must be opened for an action. A file that is writable is open
/// for edit already, or untracked.
pub open spec fn to_open(
    action: P4OpenAction,
    paths: Seq<Seq<char>>,
    candidates: Seq<OpenCandidate>,
) -> Seq<Seq<char>> {
    if action == P4OpenAction::Edit {
        not_yet_open(paths, candidates)
    } else {
        paths
    }
}

/// The paths that must be opened for an action, given what is known of each on
/// disk. For edit that is the read-only ones, so that a file is opened once and
/// every later edit asks nothing; add and delete open every path.
pub fn paths_to_open(
    action: P4OpenAction,
    paths: Vec<RepoPath>,
    candidates: &[OpenCandidate],
) -> (r: Vec<RepoPath>)
    requires
        action == P4OpenAction::Edit ==> candidates@.len() == paths@.len(),
    ensures
        text::views(r@) == to_open(action, text::views(paths@), candidates@),
{
    if action != P4OpenAction::Edit {
        return paths;
    }
    let ghost all = text::views(paths@);
    let ghost list = paths@;
    let mut kept: Vec<RepoPath> = Vec::new();
    let mut i: usize = 0;
    assert(text::views(kept@) =~= not_yet_open(all.take(0), candidates@));
    for path in it: paths
        invariant
            it.seq() == list,
            all == text::views(list),
            i == it.index(),
            candidates@.len() == list.len(),
            text::views(kept@) == not_yet_open(all.take(it.index() as int), candidates@),
    {
        let ghost before = text::views(kept@);
        assert(all.take(i + 1).drop_last() =~= all.take(i as int));
        assert(all[i as int] == path@);
        if candidates[i] == OpenCandidate::DefinitelyNotOpen {
            kept.push(path);
            assert(text::views(kept@) =~= before.push(path@));
        }
        i = i + 1;
    }
    assert(all.take(all.len() as int) =~= all);
    kept
}

/// A root contains itself, unless it is empty.
pub proof fn root_contains_itself(root: Seq<char>)
    requires
        root.len() > 0,
    ensures
        root_contains(root, root),
{
}

/// What a root contains that is not the root itself goes on with a separator:
/// `/ws` does not contain `/ws_other`.
pub proof fn root_contains_whole_components(root: Seq<char>, dir: Seq<char>)
    requires
        root_contains(root, dir),
        dir != root,
    ensures
        dir.len() > root.len(),
        dir.take(root.len() as int) == root,
        dir[root.len() as int] == '/',
{
    reveal_strlit("/");
    let below = root + "/"@;
    assert(dir.subrange(0, below.len() as int) =~= below);
    assert(below[root.len() as int] == '/');
    assert(dir[root.len() as int] == dir.subrange(0, below.len() as int)[root.len() as int]);
    assert(dir.take(root.len() as int) =~= root) by {
        assert forall|i: int| 0 <= i < root.len() implies dir[i] == root[i] by {
            assert(dir.subrange(0, below.len() as int)[i] == below[i]);
        }
    }
}

/// A folder within a contained folder is contained.
pub proof fn root_contains_nested(root: Seq<char>, dir: Seq<char>, inner: Seq<char>)
    requires
        root_contains(root, dir),
        root_contains(dir, inner),
    ensures
        root_contains(root, inner),
{
    reveal_strlit("/");
    if dir != root && inner != dir {
        let a = root + "/"@;
        let b = dir + "/"@;
        assert forall|i: int| 0 <= i < a.len() implies a[i] == inner[i] by {
            assert(dir.subrange(0, a.len() as int)[i] == dir[i]);
            assert(inner.subrange(0, b.len() as int)[i] == inner[i]);
        }
        assert(inner.subrange(0, a.len() as int) =~= a);
    }
}

/// Neither kind of separator, nor any at the end, makes a difference to a path
/// for comparison.
pub proof fn separators_do_not_matter(p: Seq<char>)
    ensures
        comparable_path(text::replaced(p, '\\', '/')) == comparable_path(p),
        comparable_path(p.push('/')) == comparable_path(p),
        comparable_path(p.push('\\')) == comparable_path(p),
{
    let slashed = text::replaced(p, '\\', '/');
    assert(text::replaced(slashed, '\\', '/') =~= slashed);
    assert(text::replaced(p.push('/'), '\\', '/') =~= slashed.push('/'));
    assert(text::replaced(p.push('\\'), '\\', '/') =~= slashed.push('/'));
    assert(slashed.push('/').drop_last() =~= slashed);
}

/// The paths that are opened for edit are those not yet open, so that nothing
/// is opened once every file is.
pub proof fn opened_files_are_not_opened_again(
    paths: Seq<Seq<char>>,
    candidates: Seq<OpenCandidate>,
)
    requires
        candidates.len() == paths.len(),
        forall|i: int|
            0 <= i < candidates.len() ==> #[trigger] candidates[i] == OpenCandidate::MaybeOpen,
    ensures
        to_open(P4OpenAction::Edit, paths, candidates).len() == 0,
{
    lemma_none_not_yet_open(paths, candidates);
}

proof fn lemma_none_not_yet_open(paths: Seq<Seq<char>>, candidates: Seq<OpenCandidate>)
    requires
        candidates.len() >= paths.len(),
        forall|i: int|
            0 <= i < candidates.len() ==> #[trigger] candidates[i] == OpenCandidate::MaybeOpen,
    ensures
        not_yet_open(paths, candidates).len() == 0,
    decreases paths.len(),
{
    if paths.len() > 0 {
        lemma_none_not_yet_open(paths.drop_last(), candidates);
    }
}

/// Dropping the same character from the end drops equally many from texts that
/// differ in ASCII case alone, where the character is no letter.
proof fn lemma_without_trailing_ignores_case(a: Seq<char>, b: Seq<char>, c: char)
    requires
        text::same_ignoring_ascii_case(a, b),
        forall|i: int| 0 <= i < a.len() ==> ((#[trigger] a[i]) == c <==> b[i] == c),
    ensures
        text::same_ignoring_ascii_case(
            text::without_trailing(a, c),
            text::without_trailing(b, c),
        ),
    decreases a.len(),
{
    if a.len() > 0 {
        assert(a[a.len() - 1] == c <==> b[a.len() - 1] == c);
        if a.last() == c {
            let x = a.drop_last();
            let y = b.drop_last();
            assert forall|i: int| 0 <= i < x.len() implies text::ascii_lower(#[trigger] x[i])
                == text::ascii_lower(y[i]) by {
                assert(a[i] == x[i]);
            }
            assert forall|i: int| 0 <= i < x.len() implies ((#[trigger] x[i]) == c <==> y[i] == c) by {
                assert(a[i] == x[i]);
            }
            lemma_without_trailing_ignores_case(x, y, c);
        }
    }
}

/// A character that two texts show in either case is a slash in both or in
/// neither.
proof fn lemma_ascii_lower_keeps_slashes(x: char, y: char)
    requires
        text::ascii_lower(x) == text::ascii_lower(y),
    ensures
        x == '/' <==> y == '/',
        x == '\\' <==> y == '\\',
{
}

/// ASCII case makes no difference to where an ASCII path lies.
pub proof fn ascii_case_does_not_matter(a: Seq<char>, b: Seq<char>)
    requires
        text::same_ignoring_ascii_case(a, b),
    ensures
        ascii_lowered(client::normalized_root(a)) == ascii_lowered(client::normalized_root(b)),
{
    let x = text::replaced(a, '\\', '/');
    let y = text::replaced(b, '\\', '/');
    assert forall|i: int| 0 <= i < x.len() implies text::ascii_lower(#[trigger] x[i])
        == text::ascii_lower(y[i]) by {
        lemma_ascii_lower_keeps_slashes(a[i], b[i]);
        assert(text::ascii_lower(a[i]) == text::ascii_lower(b[i]));
    }
    assert forall|i: int| 0 <= i < x.len() implies ((#[trigger] x[i]) == '/' <==> y[i] == '/') by {
        lemma_ascii_lower_keeps_slashes(x[i], y[i]);
    }
    lemma_without_trailing_ignores_case(x, y, '/');
    let p = client::normalized_root(a);
    let q = client::normalized_root(b);
    assert forall|i: int| 0 <= i < p.len() implies ascii_lowered(p)[i] == ascii_lowered(q)[i] by {
        assert(text::ascii_lower(p[i]) == text::ascii_lower(q[i]));
    }
    assert(ascii_lowered(p) =~= ascii_lowered(q));
}

/// Whether a value of `p4 info` says something.
pub open spec fn is_plain_value(value: Seq<char>) -> bool {
    value.len() > 0 && value != "*unknown*"@ && text::has_firm_ends(value)
}

/// The workspace is read back from the first record of `p4 info`, whatever space
/// stands around its values; a value that lacks, is empty or is unknown makes it
/// none.
pub proof fn named_workspace_reads_back(
    records: Seq<ztag::Fields>,
    name: Seq<char>,
    root: Seq<char>,
    space: Seq<char>,
)
    requires
        records.len() > 0,
        is_plain_value(name),
        is_plain_value(root),
        text::all_whitespace(space),
        records[0].get("clientName"@) == Some(space + name + space),
        records[0].get("clientRoot"@) == Some(space + root + space),
    ensures
        named_workspace(records) matches Some(workspace) && workspace.client_name == name
            && workspace.client_root == root,
{
    text::whitespace_around_is_trimmed(space, name, space);
    text::whitespace_around_is_trimmed(space, root, space);
}

/// Without a name or a root that says something there is no workspace.
pub proof fn unknown_values_name_no_workspace(records: Seq<ztag::Fields>)
    requires
        records.len() == 0 || (records[0].get("clientName"@) matches Some(name) ==> text::trimmed(
            name,
        ).len() == 0 || text::trimmed(name) == "*unknown*"@) || (records[0].get(
            "clientRoot"@,
        ) matches Some(root) ==> text::trimmed(root).len() == 0 || text::trimmed(root)
            == "*unknown*"@),
    ensures
        named_workspace(records) is None,
{
}

/// Which files must be opened is decided one by one, in order: for edit a file
/// that is certainly not open, for anything else every file.
pub proof fn files_are_chosen_one_by_one(
    action: P4OpenAction,
    paths: Seq<Seq<char>>,
    candidates: Seq<OpenCandidate>,
    p: Seq<char>,
    c: OpenCandidate,
)
    requires
        paths.len() == candidates.len(),
    ensures
        to_open(action, paths.push(p), candidates.push(c)) == (if action != P4OpenAction::Edit || c
            == OpenCandidate::DefinitelyNotOpen {
            to_open(action, paths, candidates).push(p)
        } else {
            to_open(action, paths, candidates)
        }),
        to_open(action, Seq::empty(), Seq::empty()).len() == 0,
{
    assert(paths.push(p).drop_last() =~= paths);
    lemma_same_candidates(paths, candidates, candidates.push(c));
}

/// Only the candidates of the paths count.
proof fn lemma_same_candidates(
    paths: Seq<Seq<char>>,
    a: Seq<OpenCandidate>,
    b: Seq<OpenCandidate>,
)
    requires
        paths.len() <= a.len(),
        paths.len() <= b.len(),
        forall|i: int| 0 <= i < paths.len() ==> #[trigger] a[i] == b[i],
    ensures
        not_yet_open(paths, a) == not_yet_open(paths, b),
    decreases paths.len(),
{
    if paths.len() > 0 {
        lemma_same_candidates(paths.drop_last(), a, b);
        assert(a[paths.len() - 1] == b[paths.len() - 1]);
    }
}

/// Only a regular file that is read-only is certainly not open: a writable one, a
/// folder, and a path that is missing may all be open. The server need not be
/// asked just where every file is certainly not open.
pub proof fn only_read_only_files_are_certainly_not_open(
    facts: Option<FileFacts>,
    candidates: Seq<OpenCandidate>,
    i: int,
)
    ensures
        candidate(facts) == OpenCandidate::DefinitelyNotOpen <==> facts == Some(
            FileFacts { is_file: true, readonly: true },
        ),
        0 <= i < candidates.len() && candidates[i] == OpenCandidate::MaybeOpen
            ==> !none_can_be_open(candidates),
        !none_can_be_open(Seq::empty()),
{
}

} // verus!
