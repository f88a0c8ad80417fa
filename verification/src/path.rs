//! Paths of files relative to a repository's root.

use crate::order;
use crate::text;
use vstd::prelude::*;
use vstd::slice::slice_subrange;

verus! {

/// `s` without the `./`s it starts with.
pub open spec fn without_dot_slashes(s: Seq<char>) -> Seq<char>
    decreases s.len(),
{
    if s.len() >= 2 && s[0] == '.' && s[1] == '/' {
        without_dot_slashes(s.skip(2))
    } else {
        s
    }
}

/// Whether `s` can be one component of a relative path.
pub open spec fn is_component(s: Seq<char>) -> bool {
    s.len() > 0 && s != "."@ && s != ".."@
}

/// Whether `s` is a relative path in its one written form: empty, or
/// components with single slashes between them.
pub open spec fn is_relative(s: Seq<char>) -> bool {
    s.len() == 0 || forall|i: int|
        0 <= i < text::pieces(s, '/').len() ==> is_component(#[trigger] text::pieces(s, '/')[i])
}

/// The relative path that `s` stands for: leading `./`s and trailing slashes
/// are dropped; an absolute path, an empty component, `.` and `..` make it
/// none.
pub open spec fn relative_path(s: Seq<char>) -> Option<Seq<char>> {
    let rest = without_dot_slashes(s);
    let path = text::without_trailing(rest, '/');
    if is_relative(path) && (path.len() > 0 || rest.len() == 0) {
        Some(path)
    } else {
        None
    }
}

/// A character's rank where paths are put in order: the slash comes before
/// every other character, so that paths are ordered component by component.
pub open spec fn path_rank(c: char) -> int {
    if c == '/' {
        0
    } else {
        c as u32 + 1
    }
}

/// Whether path `a` stands before path `b` or is the same.
pub open spec fn path_le(a: Seq<char>, b: Seq<char>) -> bool
    decreases a.len(),
{
    if a.len() == 0 {
        true
    } else if b.len() == 0 {
        false
    } else if a[0] == b[0] {
        path_le(a.skip(1), b.skip(1))
    } else {
        path_rank(a[0]) < path_rank(b[0])
    }
}

/// Different characters rank differently, and but for the slash as they compare.
proof fn lemma_path_rank(x: char, y: char)
    ensures
        x != y ==> path_rank(x) != path_rank(y),
        path_rank(x) < path_rank(y) <==> y != '/' && (x == '/' || x < y),
{
}

/// Any two paths compare, and only a path and itself compare both ways.
pub proof fn path_le_is_total(a: Seq<char>, b: Seq<char>)
    ensures
        path_le(a, b) || path_le(b, a),
        path_le(a, b) && path_le(b, a) ==> a == b,
    decreases a.len(),
{
    if a.len() > 0 && b.len() > 0 {
        lemma_path_rank(a[0], b[0]);
    }
    if a.len() > 0 && b.len() > 0 && a[0] == b[0] {
        path_le_is_total(a.skip(1), b.skip(1));
        if path_le(a, b) && path_le(b, a) {
            assert(a =~= seq![a[0]] + a.skip(1));
            assert(b =~= seq![b[0]] + b.skip(1));
        }
    } else if a.len() == 0 && b.len() == 0 {
        assert(a =~= b);
    }
}

/// The order of paths is transitive.
pub proof fn path_le_is_transitive(a: Seq<char>, b: Seq<char>, c: Seq<char>)
    requires
        path_le(a, b),
        path_le(b, c),
    ensures
        path_le(a, c),
    decreases a.len(),
{
    if a.len() > 0 && b.len() > 0 && c.len() > 0 && a[0] == b[0] && b[0] == c[0] {
        path_le_is_transitive(a.skip(1), b.skip(1), c.skip(1));
    }
}

/// The order of paths.
pub open spec fn path_order() -> spec_fn(Seq<char>, Seq<char>) -> bool {
    |a: Seq<char>, b: Seq<char>| path_le(a, b)
}

/// The order of paths is a total order.
pub proof fn path_order_is_total()
    ensures
        order::total_order(path_order()),
{
    let le = path_order();
    assert forall|a: Seq<char>, b: Seq<char>| #[trigger] le(a, b) || le(b, a) by {
        path_le_is_total(a, b);
    }
    assert forall|a: Seq<char>, b: Seq<char>, c: Seq<char>| #[trigger]
        le(a, b) && #[trigger] le(b, c) implies le(a, c) by {
        path_le_is_transitive(a, b, c);
    }
}

/// The path of a file relative to the repository's root, with forward slashes.
#[derive(Debug, PartialEq, Eq, Hash)]
pub struct RepoPath {
    unix: String,
}

impl View for RepoPath {
    type V = Seq<char>;

    closed spec fn view(&self) -> Seq<char> {
        self.unix@
    }
}

impl Clone for RepoPath {
    fn clone(&self) -> (r: RepoPath)
        ensures
            r@ == self@,
    {
        RepoPath { unix: self.unix.clone() }
    }
}

impl RepoPath {
    /// Whether the path is in its written form.
    pub open spec fn wf(self) -> bool {
        is_relative(self@)
    }

    /// The path that `s` stands for, if it is a relative one.
    pub fn new(s: &str) -> (r: Option<RepoPath>)
        ensures
            text::option_view(r) == relative_path(s@),
            r matches Some(path) ==> path.wf(),
    {
        let chars = text::to_chars(s);
        RepoPath::from_slice(chars.as_slice())
    }

    /// The path that the characters stand for, if it is a relative one.
    pub fn from_slice(s: &[char]) -> (r: Option<RepoPath>)
        ensures
            text::option_view(r) == relative_path(s@),
            r matches Some(path) ==> path.wf(),
    {
        let mut start: usize = 0;
        assert(s@.skip(0) =~= s@);
        while s.len() - start >= 2 && s[start] == '.' && s[start + 1] == '/'
            invariant
                start <= s.len(),
                without_dot_slashes(s@) == without_dot_slashes(s@.skip(start as int)),
            decreases s.len() - start,
        {
            assert(s@.skip(start as int).skip(2) =~= s@.skip(start + 2));
            start = start + 2;
        }
        let rest = slice_subrange(s, start, s.len());
        let path = text::trim_end_char(rest, '/');
        if path.len() == 0 && rest.len() > 0 {
            return None;
        }
        if path.len() > 0 {
            let parts = text::split_char(path, '/');
            let mut i: usize = 0;
            while i < parts.len()
                invariant
                    i <= parts.len(),
                    path@.len() > 0,
                    path@ == text::without_trailing(without_dot_slashes(s@), '/'),
                    text::views(parts@) == text::pieces(path@, '/'),
                    forall|j: int|
                        0 <= j < i ==> is_component(#[trigger] text::pieces(path@, '/')[j]),
                decreases parts.len() - i,
            {
                assert(text::views(parts@)[i as int] == parts@[i as int]@);
                if parts[i].len() == 0 || text::is_text(parts[i], ".") || text::is_text(
                    parts[i],
                    "..",
                ) {
                    assert(!is_component(text::pieces(path@, '/')[i as int]));
                    return None;
                }
                i = i + 1;
            }
        }
        Some(RepoPath { unix: text::from_chars(path) })
    }

    /// The path as text.
    pub fn as_unix_str(&self) -> (r: &str)
        ensures
            r@ == self@,
    {
        self.unix.as_str()
    }

    /// Whether the path stands before `other` or is the same.
    pub fn le(&self, other: &RepoPath) -> (r: bool)
        ensures
            r == path_le(self@, other@),
    {
        let a = text::to_chars(self.unix.as_str());
        let b = text::to_chars(other.unix.as_str());
        let mut i: usize = 0;
        assert(a@.skip(0) =~= a@);
        assert(b@.skip(0) =~= b@);
        while i < a.len() && i < b.len() && a[i] == b[i]
            invariant
                i <= a.len(),
                i <= b.len(),
                path_le(a@, b@) == path_le(a@.skip(i as int), b@.skip(i as int)),
            decreases a.len() - i,
        {
            assert(a@.skip(i as int).skip(1) =~= a@.skip(i + 1));
            assert(b@.skip(i as int).skip(1) =~= b@.skip(i + 1));
            i = i + 1;
        }
        if i >= a.len() {
            true
        } else if i >= b.len() {
            false
        } else {
            let x = a[i];
            let y = b[i];
            proof {
                lemma_path_rank(x, y);
            }
            y != '/' && (x == '/' || x < y)
        }
    }

    /// Whether the two paths are the same.
    pub fn same(&self, other: &RepoPath) -> (r: bool)
        ensures
            r == (self@ == other@),
    {
        self.unix == other.unix
    }
}

/// Components written with slashes between them are a path as it stands, with
/// or without a `./` before it and slashes after it.
pub proof fn written_components_are_a_path(components: Seq<Seq<char>>, slashes: nat)
    requires
        components.len() > 0,
        forall|i: int|
            0 <= i < components.len() ==> is_component(#[trigger] components[i])
                && !components[i].contains('/'),
    ensures
        ({
            let p = text::joined(components, seq!['/']);
            &&& relative_path(p + text::repeated('/', slashes)) == Some(p)
            &&& relative_path(seq!['.', '/'] + p + text::repeated('/', slashes)) == Some(p)
        }),
{
    let p = text::joined(components, seq!['/']);
    text::written_parts_are_the_pieces(components, '/');
    assert(text::pieces(p, '/') == components);
    lemma_path_ends(components);
    text::trailing_characters_are_dropped(p, '/', slashes);
    let longer = p + text::repeated('/', slashes);
    lemma_dot_component(components, slashes);
    let dotted = seq!['.', '/'] + p + text::repeated('/', slashes);
    assert(dotted.skip(2) =~= longer);
}

/// A path of components neither starts nor ends in a slash.
proof fn lemma_path_ends(components: Seq<Seq<char>>)
    requires
        components.len() > 0,
        forall|i: int|
            0 <= i < components.len() ==> is_component(#[trigger] components[i])
                && !components[i].contains('/'),
    ensures
        text::joined(components, seq!['/']).len() > 0,
        text::joined(components, seq!['/']).last() != '/',
{
    let last = components.last();
    assert(is_component(components[components.len() - 1]));
    assert(last.contains(last[last.len() - 1]));
    let p = text::joined(components, seq!['/']);
    assert(p.last() == last.last());
}

/// A path of components does not start with `./`.
proof fn lemma_dot_component(components: Seq<Seq<char>>, slashes: nat)
    requires
        components.len() > 0,
        forall|i: int|
            0 <= i < components.len() ==> is_component(#[trigger] components[i])
                && !components[i].contains('/'),
    ensures
        ({
            let s = text::joined(components, seq!['/']) + text::repeated('/', slashes);
            !(s.len() >= 2 && s[0] == '.' && s[1] == '/')
        }),
{
    let first = components[0];
    let p = text::joined(components, seq!['/']);
    let s = p + text::repeated('/', slashes);
    assert(is_component(first));
    if s.len() >= 2 && s[0] == '.' && s[1] == '/' {
        if components.len() > 1 {
            let rest = components.skip(1);
            assert(components =~= seq![first] + rest);
            text::joined_starts_with_the_first(first, rest, seq!['/']);
            assert(s[0] == first[0]);
            if first.len() > 1 {
                assert(s[1] == first[1]);
                assert(first.contains(first[1]));
            }
        } else {
            assert(p == first);
            if first.len() > 1 {
                assert(s[1] == first[1]);
                assert(first.contains(first[1]));
            }
        }
        reveal_strlit(".");
        assert(first =~= "."@);
    }
}

/// Parts of which one is empty, `.` or `..` are no path, unless only slashes
/// follow the first or it is a `.` at the start: an absolute path, a doubled
/// slash and a step upwards are all refused.
pub proof fn odd_components_are_refused(parts: Seq<Seq<char>>, i: int)
    requires
        0 <= i < parts.len(),
        !is_component(parts[i]),
        parts[0].len() == 0 || parts[0] != "."@,
        parts.last().len() > 0,
        forall|k: int| 0 <= k < parts.len() ==> !(#[trigger] parts[k]).contains('/'),
    ensures
        relative_path(text::joined(parts, seq!['/'])) is None,
{
    let p = text::joined(parts, seq!['/']);
    text::written_parts_are_the_pieces(parts, '/');
    let first = parts[0];
    let last = parts.last();
    assert(last.contains(last[last.len() - 1]));
    assert(p.last() == last.last());
    assert(text::without_trailing(p, '/') == p);
    assert(!(p.len() >= 2 && p[0] == '.' && p[1] == '/')) by {
        if p.len() >= 2 && p[0] == '.' && p[1] == '/' {
            if parts.len() > 1 {
                let rest = parts.skip(1);
                assert(parts =~= seq![first] + rest);
                text::joined_starts_with_the_first(first, rest, seq!['/']);
                assert(first.len() > 0);
                assert(p[0] == first[0]);
                if first.len() > 1 {
                    assert(p[1] == first[1]);
                    assert(first.contains(first[1]));
                }
                reveal_strlit(".");
                assert(first =~= "."@);
            } else {
                assert(p == first);
                assert(first.contains(first[1]));
            }
        }
    }
    assert(text::pieces(p, '/')[i] == parts[i]);
}

/// Of two paths the one stands first that goes on where the other has ended, or
/// that has the slash or else the smaller character where they first differ.
pub proof fn paths_are_ordered_by_components(a: Seq<char>, b: Seq<char>, i: int)
    requires
        0 <= i <= a.len(),
        i <= b.len(),
        a.take(i) == b.take(i),
        i < a.len() && i < b.len() ==> a[i] != b[i],
    ensures
        i == a.len() ==> path_le(a, b),
        i == b.len() && i < a.len() ==> !path_le(a, b),
        i < a.len() && i < b.len() ==> (path_le(a, b) <==> a[i] == '/' || (b[i] != '/' && a[i]
            < b[i])),
    decreases i,
{
    if i > 0 {
        assert(a[0] == a.take(i)[0] && b[0] == b.take(i)[0]);
        let x = a.skip(1);
        let y = b.skip(1);
        assert(x.take(i - 1) =~= y.take(i - 1)) by {
            assert forall|k: int| 0 <= k < i - 1 implies x[k] == y[k] by {
                assert(a.take(i)[k + 1] == a[k + 1] && b.take(i)[k + 1] == b[k + 1]);
            }
        }
        paths_are_ordered_by_components(x, y, i - 1);
    } else if i < a.len() && i < b.len() {
        lemma_path_rank(a[0], b[0]);
    }
}

} // verus!
