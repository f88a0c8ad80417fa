//! The two ways Perforce names a workspace file: in client syntax
//! (`//client/a/b.txt`) and as a local path below the client root.

use crate::path;
use crate::path::RepoPath;
use crate::text;
use vstd::prelude::*;
use vstd::slice::slice_subrange;
use vstd::string::StringExecFns;

verus! {

/// What every client-syntax path of a client starts with.
pub open spec fn client_prefix(client: Seq<char>) -> Seq<char> {
    "//"@ + client + "/"@
}

/// A repository path in client syntax.
pub open spec fn client_syntax(client: Seq<char>, path: Seq<char>) -> Seq<char> {
    client_prefix(client) + path
}

/// The repository path that a client-syntax path of `client` names.
pub open spec fn repo_path_of_client_path(client: Seq<char>, file: Seq<char>) -> Option<Seq<char>> {
    match text::after_prefix(file, client_prefix(client)) {
        Some(rest) => path::relative_path(rest),
        None => None,
    }
}

/// A local path with forward slashes and none at its end.
pub open spec fn normalized_root(root: Seq<char>) -> Seq<char> {
    text::without_trailing(text::replaced(root, '\\', '/'), '/')
}

/// Whether a local path lies at or below `root`, both with forward slashes: it
/// starts with the root, without regard to ASCII case, and the match ends where
/// a component of the path ends.
pub open spec fn lies_below(root: Seq<char>, file: Seq<char>) -> bool {
    &&& root.len() <= file.len()
    &&& text::same_ignoring_ascii_case(file.take(root.len() as int), root)
    &&& root.len() == file.len() || file[root.len() as int] == '/'
}

/// The repository path of a local file below `root`: the root is matched by
/// whole components, with either kind of slash and without regard to ASCII case.
pub open spec fn repo_path_of_local_path(root: Seq<char>, file: Seq<char>) -> Option<Seq<char>> {
    let root = normalized_root(root);
    let file = text::replaced(file, '\\', '/');
    if lies_below(root, file) {
        let rest = text::without_leading(file.skip(root.len() as int), '/');
        if rest.len() > 0 {
            path::relative_path(rest)
        } else {
            None
        }
    } else {
        None
    }
}

/// The repository path of a file that is named in client syntax or, if it is not
/// one of the client's, by a local path below `root`.
pub open spec fn repo_path_of_file(
    client: Seq<char>,
    root: Seq<char>,
    file: Seq<char>,
) -> Option<Seq<char>> {
    match repo_path_of_client_path(client, file) {
        Some(path) => Some(path),
        None => repo_path_of_local_path(root, file),
    }
}

/// A repository path in client syntax, e.g. `//client/a/b.txt`.
pub fn client_syntax_path(client_name: &str, path: &RepoPath) -> (r: String)
    ensures
        r@ == client_syntax(client_name@, path@),
{
    let mut out = prefix_of_client(client_name);
    out.append(path.as_unix_str());
    out
}

/// What every client-syntax path of a client starts with.
pub fn prefix_of_client(client_name: &str) -> (r: String)
    ensures
        r@ == client_prefix(client_name@),
{
    let mut out = String::new();
    out.append("//");
    out.append(client_name);
    out.append("/");
    assert(out@ =~= client_prefix(client_name@));
    out
}

/// The repository path of a `clientFile` in client syntax, as `p4 opened`
/// reports it; none for a file of another client.
pub fn client_path_to_repo_path(client_name: &str, client_file: &str) -> (r: Option<RepoPath>)
    ensures
        text::option_view(r) == repo_path_of_client_path(client_name@, client_file@),
        r matches Some(path) ==> path.wf(),
{
    let prefix = prefix_of_client(client_name);
    let file = text::to_chars(client_file);
    match text::strip_prefix(file.as_slice(), prefix.as_str()) {
        Some(rest) => RepoPath::from_slice(rest),
        None => None,
    }
}

/// The repository path of a `clientFile` that is a local path, as `p4 fstat`
/// reports it; none for a file outside `working_directory`, one in a directory
/// whose name only starts the same among them, and for the directory itself.
pub fn local_path_to_repo_path(working_directory: &str, client_file: &str) -> (r: Option<RepoPath>)
    ensures
        text::option_view(r) == repo_path_of_local_path(working_directory@, client_file@),
        r matches Some(path) ==> path.wf(),
{
    let directory = text::to_chars(working_directory);
    let directory = text::replace_char(directory.as_slice(), '\\', '/');
    let root = text::trim_end_char(directory.as_slice(), '/');
    let file = text::to_chars(client_file);
    let file = text::replace_char(file.as_slice(), '\\', '/');
    let file = file.as_slice();
    if file.len() < root.len() || !text::eq_ignore_ascii_case(
        slice_subrange(file, 0, root.len()),
        root,
    ) {
        return None;
    }
    if root.len() < file.len() && file[root.len()] != '/' {
        return None;
    }
    let rest = text::trim_start_char(slice_subrange(file, root.len(), file.len()), '/');
    if rest.len() == 0 {
        return None;
    }
    RepoPath::from_slice(rest)
}

/// The repository path of a `clientFile` in client syntax or, if it is not one of
/// the client's, of one that is a local path.
pub fn file_to_repo_path(client_name: &str, working_directory: &str, client_file: &str) -> (r:
    Option<RepoPath>)
    ensures
        text::option_view(r) == repo_path_of_file(client_name@, working_directory@, client_file@),
        r matches Some(path) ==> path.wf(),
{
    match client_path_to_repo_path(client_name, client_file) {
        Some(path) => Some(path),
        None => local_path_to_repo_path(working_directory, client_file),
    }
}

/// A file of a sibling directory, whose name only starts with that of the root,
/// is no file of the root.
pub proof fn sibling_directories_are_outside(root: Seq<char>, suffix: Seq<char>)
    requires
        suffix.len() > 0,
        suffix[0] != '/',
        suffix[0] != '\\',
    ensures
        repo_path_of_local_path(root, normalized_root(root) + suffix) is None,
{
    let top = normalized_root(root);
    let file = text::replaced(top + suffix, '\\', '/');
    assert(file[top.len() as int] == (top + suffix)[top.len() as int]);
    assert((top + suffix)[top.len() as int] == suffix[0]);
}

/// A text that ends in `c` has an empty last piece.
proof fn lemma_last_piece(s: Seq<char>, c: char)
    requires
        s.len() > 0,
        s.last() == c,
    ensures
        text::pieces(s, c).last().len() == 0,
    decreases s.len(),
{
    let i = text::char_index(s, c);
    text::lemma_char_index(s, c);
    if i == s.len() {
        assert(s[s.len() - 1] != c);
    }
    let rest = s.skip(i + 1);
    if rest.len() > 0 {
        lemma_last_piece(rest, c);
    } else {
        text::lemma_char_index(rest, c);
    }
}

/// A relative path in its written form stands for itself.
pub proof fn relative_path_keeps_written_form(p: Seq<char>)
    requires
        path::is_relative(p),
    ensures
        path::relative_path(p) == Some(p),
{
    if p.len() > 0 {
        let parts = text::pieces(p, '/');
        text::lemma_char_index(p, '/');
        if p.len() >= 2 && p[0] == '.' && p[1] == '/' {
            text::lemma_char_index_is(p, '/', 1);
            reveal_strlit(".");
            assert(parts[0] =~= "."@);
            assert(path::is_component(parts[0]));
        }
        if p.last() == '/' {
            lemma_last_piece(p, '/');
            assert(path::is_component(parts[parts.len() - 1]));
        }
    }
}

/// A path read back from its client syntax is the path that was written.
pub proof fn client_syntax_reads_back(client: Seq<char>, p: Seq<char>)
    requires
        path::is_relative(p),
    ensures
        repo_path_of_client_path(client, client_syntax(client, p)) == Some(p),
{
    let prefix = client_prefix(client);
    let file = client_syntax(client, p);
    assert(prefix.is_prefix_of(file));
    assert(file.skip(prefix.len() as int) =~= p);
    relative_path_keeps_written_form(p);
}

/// Taking off the slashes at the end brings in no backslash.
proof fn lemma_normalized_root(s: Seq<char>)
    requires
        !s.contains('\\'),
    ensures
        !text::without_trailing(s, '/').contains('\\'),
    decreases s.len(),
{
    if s.len() > 0 && s.last() == '/' {
        assert forall|i: int| 0 <= i < s.drop_last().len() implies s.drop_last()[i] != '\\' by {
            assert(s[i] != '\\');
        }
        lemma_normalized_root(s.drop_last());
    }
}

/// A path below the root is read back from the local path of its file.
pub proof fn local_path_reads_back(root: Seq<char>, p: Seq<char>)
    requires
        path::is_relative(p),
        p.len() > 0,
        !p.contains('\\'),
    ensures
        repo_path_of_local_path(root, normalized_root(root) + "/"@ + p) == Some(p),
{
    reveal_strlit("/");
    let slashed = text::replaced(root, '\\', '/');
    let top = normalized_root(root);
    let file = top + "/"@ + p;
    assert(!slashed.contains('\\'));
    lemma_normalized_root(slashed);
    assert forall|i: int| 0 <= i < file.len() implies file[i] != '\\' by {
        if i < top.len() {
            assert(file[i] == top[i]);
        } else if i > top.len() {
            assert(file[i] == p[i - top.len() - 1]);
        }
    }
    assert(text::replaced(file, '\\', '/') =~= file);
    assert(file.take(top.len() as int) =~= top);
    let rest = file.skip(top.len() as int);
    assert(rest[0] == '/');
    assert(rest.skip(1) =~= p);
    text::lemma_char_index(p, '/');
    if p[0] == '/' {
        let parts = text::pieces(p, '/');
        text::lemma_char_index_is(p, '/', 0);
        assert(parts[0].len() == 0);
        assert(path::is_component(parts[0]));
    }
    assert(text::without_leading(p, '/') == p);
    relative_path_keeps_written_form(p);
}

/// Both ways to name a file give its path, where the local path does not read
/// like client syntax.
pub proof fn either_name_gives_the_path(client: Seq<char>, root: Seq<char>, p: Seq<char>)
    requires
        path::is_relative(p),
    ensures
        repo_path_of_file(client, root, client_syntax(client, p)) == Some(p),
        p.len() > 0 && !p.contains('\\') && !client_prefix(client).is_prefix_of(
            normalized_root(root) + "/"@ + p,
        ) ==> repo_path_of_file(client, root, normalized_root(root) + "/"@ + p) == Some(p),
{
    client_syntax_reads_back(client, p);
    if p.len() > 0 && !p.contains('\\') {
        local_path_reads_back(root, p);
    }
}

/// A file of one client is no file of another, whatever its path, where
/// client names hold no slash.
pub proof fn clients_do_not_share_paths(client: Seq<char>, other: Seq<char>, p: Seq<char>)
    requires
        client != other,
        !client.contains('/'),
        !other.contains('/'),
    ensures
        repo_path_of_client_path(other, client_syntax(client, p)) is None,
{
    reveal_strlit("//");
    reveal_strlit("/");
    let a = client_prefix(client);
    let b = client_prefix(other);
    let file = client_syntax(client, p);
    let m: int = client.len() as int;
    let n: int = other.len() as int;
    if b.is_prefix_of(file) {
        assert forall|i: int| 0 <= i < b.len() implies #[trigger] b[i] == file[i] by {
            assert(file.subrange(0, b.len() as int)[i] == file[i]);
        }
        assert forall|i: int| 0 <= i < client.len() implies file[i + 2] == #[trigger] client[i] by {}
        assert forall|i: int| 0 <= i < other.len() implies b[i + 2] == #[trigger] other[i] by {}
        assert(file[m + 2] == '/');
        assert(b[n + 2] == '/');
        if m < n {
            assert(b[m + 2] == other[m]);
            assert(other.contains(other[m]));
        } else if n < m {
            assert(file[n + 2] == client[n]);
            assert(client.contains(client[n]));
        } else {
            assert forall|i: int| 0 <= i < client.len() implies client[i] == other[i] by {
                assert(b[i + 2] == file[i + 2]);
            }
            assert(client =~= other);
        }
    }
}

/// The case of the root's ASCII letters and the kind of its slashes make no
/// difference to a local path.
pub proof fn root_is_matched_in_any_case(
    root: Seq<char>,
    written: Seq<char>,
    p: Seq<char>,
    slash: char,
)
    requires
        path::is_relative(p),
        p.len() > 0,
        !p.contains('\\'),
        slash == '/' || slash == '\\',
        text::same_ignoring_ascii_case(text::replaced(written, '\\', '/'), normalized_root(root)),
    ensures
        repo_path_of_local_path(root, written + seq![slash] + p) == Some(p),
{
    let top = normalized_root(root);
    let n = top.len() as int;
    let file = text::replaced(written + seq![slash] + p, '\\', '/');
    assert(file.take(n) =~= text::replaced(written, '\\', '/'));
    assert(file[n] == '/');
    let rest = file.skip(n);
    assert(rest.skip(1) =~= p) by {
        assert forall|i: int| 0 <= i < p.len() implies rest.skip(1)[i] == p[i] by {
            assert(p.contains(p[i]));
            assert((written + seq![slash] + p)[n + 1 + i] == p[i]);
        }
    }
    lemma_starts_with_no_slash(p);
    assert(rest[0] == '/');
    assert(text::without_leading(p, '/') == p);
    assert(text::without_leading(rest, '/') == p);
    relative_path_keeps_written_form(p);
}

/// A path in its written form starts with no slash.
proof fn lemma_starts_with_no_slash(p: Seq<char>)
    requires
        path::is_relative(p),
        p.len() > 0,
    ensures
        p[0] != '/',
{
    if p[0] == '/' {
        let parts = text::pieces(p, '/');
        text::lemma_char_index_is(p, '/', 0);
        assert(parts[0].len() == 0);
        assert(path::is_component(parts[0]));
    }
}

/// A file outside the root has no path: one that is shorter than the root, or
/// differs from it by more than case.
pub proof fn other_roots_are_outside(root: Seq<char>, file: Seq<char>, i: int)
    requires
        0 <= i < normalized_root(root).len(),
        i < file.len() ==> text::ascii_lower(text::replaced(file, '\\', '/')[i])
            != text::ascii_lower(normalized_root(root)[i]),
    ensures
        repo_path_of_local_path(root, file) is None,
{
    let top = normalized_root(root);
    let slashed = text::replaced(file, '\\', '/');
    if lies_below(top, slashed) {
        assert(slashed.take(top.len() as int)[i] == slashed[i]);
        assert(text::ascii_lower(slashed.take(top.len() as int)[i]) == text::ascii_lower(top[i]));
    }
}

} // verus!
