//! Text as sequences of characters: trimming, splitting, joining and
//! comparing, each stated over `Seq<char>`.

use vstd::prelude::*;
use vstd::slice::slice_subrange;
use vstd::string::StringExecFns;

verus! {

/// `String::push` appends one character.
pub assume_specification[ String::push ](s: &mut String, c: char)
    ensures
        final(s)@ == old(s)@.push(c),
;

/// The views of a sequence's items, in order.
pub open spec fn views<T: View>(s: Seq<T>) -> Seq<T::V> {
    Seq::new(s.len(), |i: int| s[i]@)
}

/// The view of what an option holds.
pub open spec fn option_view<T: View>(o: Option<T>) -> Option<T::V> {
    match o {
        Some(v) => Some(v@),
        None => None,
    }
}

/// The characters with Unicode's `White_Space` property.
pub open spec fn is_whitespace(c: char) -> bool {
    ||| '\u{9}' <= c <= '\u{d}'
    ||| c == ' '
    ||| c == '\u{85}'
    ||| c == '\u{a0}'
    ||| c == '\u{1680}'
    ||| '\u{2000}' <= c <= '\u{200a}'
    ||| c == '\u{2028}'
    ||| c == '\u{2029}'
    ||| c == '\u{202f}'
    ||| c == '\u{205f}'
    ||| c == '\u{3000}'
}

/// `s` without the whitespace it starts with.
pub open spec fn trimmed_start(s: Seq<char>) -> Seq<char>
    decreases s.len(),
{
    if s.len() > 0 && is_whitespace(s[0]) {
        trimmed_start(s.skip(1))
    } else {
        s
    }
}

/// `s` without the whitespace it ends with.
pub open spec fn trimmed_end(s: Seq<char>) -> Seq<char>
    decreases s.len(),
{
    if s.len() > 0 && is_whitespace(s.last()) {
        trimmed_end(s.drop_last())
    } else {
        s
    }
}

/// `s` without the whitespace around it.
pub open spec fn trimmed(s: Seq<char>) -> Seq<char> {
    trimmed_end(trimmed_start(s))
}

/// `s` without the `c`s it starts with.
pub open spec fn without_leading(s: Seq<char>, c: char) -> Seq<char>
    decreases s.len(),
{
    if s.len() > 0 && s[0] == c {
        without_leading(s.skip(1), c)
    } else {
        s
    }
}

/// `s` without the `c`s it ends with.
pub open spec fn without_trailing(s: Seq<char>, c: char) -> Seq<char>
    decreases s.len(),
{
    if s.len() > 0 && s.last() == c {
        without_trailing(s.drop_last(), c)
    } else {
        s
    }
}

/// Where `c` first stands in `s`; the length of `s` if it does not.
pub open spec fn char_index(s: Seq<char>, c: char) -> int
    decreases s.len(),
{
    if s.len() == 0 || s[0] == c {
        0
    } else {
        1 + char_index(s.skip(1), c)
    }
}

/// The pieces of `s` between the `c`s: one more than there are `c`s.
pub open spec fn pieces(s: Seq<char>, c: char) -> Seq<Seq<char>>
    decreases s.len(),
{
    let i = char_index(s, c);
    if 0 <= i < s.len() {
        seq![s.take(i)] + pieces(s.skip(i + 1), c)
    } else {
        seq![s]
    }
}

/// `line` without one final carriage return.
pub open spec fn without_carriage_return(line: Seq<char>) -> Seq<char> {
    if line.len() > 0 && line.last() == '\r' {
        line.drop_last()
    } else {
        line
    }
}

/// The lines of `s`: each ends at a newline, which is dropped along with a
/// carriage return before it. Text after the last newline is a line too, and
/// keeps a carriage return at its end.
pub open spec fn lines_of(s: Seq<char>) -> Seq<Seq<char>>
    decreases s.len(),
{
    let i = char_index(s, '\n');
    if s.len() == 0 {
        Seq::empty()
    } else if 0 <= i < s.len() {
        seq![without_carriage_return(s.take(i))] + lines_of(s.skip(i + 1))
    } else {
        seq![s]
    }
}

/// The rest of `s` after `prefix`, if it starts with it.
pub open spec fn after_prefix(s: Seq<char>, prefix: Seq<char>) -> Option<Seq<char>> {
    if prefix.is_prefix_of(s) {
        Some(s.skip(prefix.len() as int))
    } else {
        None
    }
}

/// What stands before and after the first `pattern` in `s`.
pub open spec fn split_at_pattern(s: Seq<char>, pattern: Seq<char>) -> Option<(Seq<char>, Seq<char>)>
    decreases s.len(),
{
    if pattern.is_prefix_of(s) {
        Some((Seq::empty(), s.skip(pattern.len() as int)))
    } else if s.len() == 0 {
        None
    } else {
        match split_at_pattern(s.skip(1), pattern) {
            Some((before, after)) => Some((seq![s[0]] + before, after)),
            None => None,
        }
    }
}

/// What stands before and after the last `c` in `s`.
pub open spec fn split_at_last(s: Seq<char>, c: char) -> Option<(Seq<char>, Seq<char>)>
    decreases s.len(),
{
    if s.len() == 0 {
        None
    } else if s.last() == c {
        Some((s.drop_last(), Seq::empty()))
    } else {
        match split_at_last(s.drop_last(), c) {
            Some((before, after)) => Some((before, after.push(s.last()))),
            None => None,
        }
    }
}

/// The parts with `separator` between them.
pub open spec fn joined(parts: Seq<Seq<char>>, separator: Seq<char>) -> Seq<char>
    decreases parts.len(),
{
    if parts.len() == 0 {
        Seq::empty()
    } else if parts.len() == 1 {
        parts[0]
    } else {
        joined(parts.drop_last(), separator) + separator + parts.last()
    }
}

/// `s` with every `from` replaced by `to`.
pub open spec fn replaced(s: Seq<char>, from: char, to: char) -> Seq<char> {
    Seq::new(s.len(), |i: int| if s[i] == from { to } else { s[i] })
}

/// `s` with every carriage return before a newline left out.
pub open spec fn with_unix_lines(s: Seq<char>) -> Seq<char>
    decreases s.len(),
{
    if s.len() == 0 {
        s
    } else if s.len() > 1 && s[0] == '\r' && s[1] == '\n' {
        seq!['\n'] + with_unix_lines(s.skip(2))
    } else {
        seq![s[0]] + with_unix_lines(s.skip(1))
    }
}

/// The lower-case letter of an ASCII capital; any other character as it is.
pub open spec fn ascii_lower(c: char) -> char {
    if 'A' <= c <= 'Z' {
        ((c as u32 - 'A' as u32) + 'a' as u32) as char
    } else {
        c
    }
}

/// Whether two texts differ at most in the case of ASCII letters.
pub open spec fn same_ignoring_ascii_case(a: Seq<char>, b: Seq<char>) -> bool {
    a.len() == b.len() && forall|i: int|
        0 <= i < a.len() ==> ascii_lower(#[trigger] a[i]) == ascii_lower(b[i])
}

/// The characters of `s`.
pub fn to_chars(s: &str) -> (r: Vec<char>)
    ensures
        r@ == s@,
{
    let mut out: Vec<char> = Vec::new();
    for c in it: s.chars()
        invariant
            out@ == s@.take(it.index() as int),
            it.seq() == s@,
    {
        out.push(c);
        assert(s@.take(it.index() as int + 1) =~= s@.take(it.index() as int).push(c));
    }
    assert(s@.take(s@.len() as int) =~= s@);
    out
}

/// The text that the characters make up.
pub fn from_chars(s: &[char]) -> (r: String)
    ensures
        r@ == s@,
{
    let mut out = String::new();
    let mut i: usize = 0;
    while i < s.len()
        invariant
            i <= s.len(),
            out@ == s@.take(i as int),
        decreases s.len() - i,
    {
        out.push(s[i]);
        i = i + 1;
        assert(s@.take(i as int) =~= s@.take(i - 1).push(s@[i - 1]));
    }
    assert(s@.take(s@.len() as int) =~= s@);
    out
}

/// Whether the characters make up `text`.
pub fn is_text(s: &[char], text: &str) -> (r: bool)
    ensures
        r == (s@ == text@),
{
    match strip_prefix(s, text) {
        Some(rest) => {
            if rest.len() == 0 {
                assert(s@ =~= text@);
                true
            } else {
                false
            }
        },
        None => {
            assert(s@ == text@ ==> text@.is_prefix_of(s@));
            false
        },
    }
}

/// Whether two texts are the same.
pub fn same_text(a: &str, b: &str) -> (r: bool)
    ensures
        r == (a@ == b@),
{
    let chars = to_chars(a);
    is_text(chars.as_slice(), b)
}

/// The rest of `s` after `prefix`, if it starts with it.
pub fn strip_prefix<'a>(s: &'a [char], prefix: &str) -> (r: Option<&'a [char]>)
    ensures
        option_view(r) == after_prefix(s@, prefix@),
{
    let mut n: usize = 0;
    for c in it: prefix.chars()
        invariant
            it.seq() == prefix@,
            n == it.index(),
            n <= s.len(),
            s@.take(n as int) == prefix@.take(n as int),
    {
        if n >= s.len() || s[n] != c {
            assert(!prefix@.is_prefix_of(s@)) by {
                if prefix@.is_prefix_of(s@) {
                    assert(prefix@[n as int] == s@[n as int]);
                }
            }
            return None;
        }
        n = n + 1;
        assert(s@.take(n as int) =~= s@.take(n - 1).push(s@[n - 1]));
        assert(prefix@.take(n as int) =~= prefix@.take(n - 1).push(prefix@[n - 1]));
    }
    assert(prefix@.take(prefix@.len() as int) =~= prefix@);
    assert(prefix@.is_prefix_of(s@));
    Some(slice_subrange(s, n, s.len()))
}

/// Whether `c` is a whitespace character.
pub fn char_is_whitespace(c: char) -> (r: bool)
    ensures
        r == is_whitespace(c),
{
    ('\u{9}' <= c && c <= '\u{d}') || c == ' ' || c == '\u{85}' || c == '\u{a0}'
        || c == '\u{1680}' || ('\u{2000}' <= c && c <= '\u{200a}') || c == '\u{2028}'
        || c == '\u{2029}' || c == '\u{202f}' || c == '\u{205f}' || c == '\u{3000}'
}

/// `s` without the whitespace it starts with.
pub fn trim_start<'a>(s: &'a [char]) -> (r: &'a [char])
    ensures
        r@ == trimmed_start(s@),
{
    let mut i: usize = 0;
    assert(s@.skip(0) =~= s@);
    while i < s.len() && char_is_whitespace(s[i])
        invariant
            i <= s.len(),
            trimmed_start(s@) == trimmed_start(s@.skip(i as int)),
        decreases s.len() - i,
    {
        assert(s@.skip(i as int).skip(1) =~= s@.skip(i + 1));
        i = i + 1;
    }
    slice_subrange(s, i, s.len())
}

/// `s` without the whitespace it ends with.
pub fn trim_end<'a>(s: &'a [char]) -> (r: &'a [char])
    ensures
        r@ == trimmed_end(s@),
{
    let mut n: usize = s.len();
    assert(s@.take(n as int) =~= s@);
    while n > 0 && char_is_whitespace(s[n - 1])
        invariant
            n <= s.len(),
            trimmed_end(s@) == trimmed_end(s@.take(n as int)),
        decreases n,
    {
        assert(s@.take(n as int).drop_last() =~= s@.take(n - 1));
        n = n - 1;
    }
    slice_subrange(s, 0, n)
}

/// `s` without the whitespace around it.
pub fn trim<'a>(s: &'a [char]) -> (r: &'a [char])
    ensures
        r@ == trimmed(s@),
{
    trim_end(trim_start(s))
}

/// `s` without the `c`s it starts with.
pub fn trim_start_char<'a>(s: &'a [char], c: char) -> (r: &'a [char])
    ensures
        r@ == without_leading(s@, c),
{
    let mut i: usize = 0;
    assert(s@.skip(0) =~= s@);
    while i < s.len() && s[i] == c
        invariant
            i <= s.len(),
            without_leading(s@, c) == without_leading(s@.skip(i as int), c),
        decreases s.len() - i,
    {
        assert(s@.skip(i as int).skip(1) =~= s@.skip(i + 1));
        i = i + 1;
    }
    slice_subrange(s, i, s.len())
}

/// `s` without the `c`s it ends with.
pub fn trim_end_char<'a>(s: &'a [char], c: char) -> (r: &'a [char])
    ensures
        r@ == without_trailing(s@, c),
{
    let mut n: usize = s.len();
    assert(s@.take(n as int) =~= s@);
    while n > 0 && s[n - 1] == c
        invariant
            n <= s.len(),
            without_trailing(s@, c) == without_trailing(s@.take(n as int), c),
        decreases n,
    {
        assert(s@.take(n as int).drop_last() =~= s@.take(n - 1));
        n = n - 1;
    }
    slice_subrange(s, 0, n)
}

/// `char_index` lies within the text, stands on a `c` unless it is the
/// text's length, and no `c` stands before it.
pub proof fn lemma_char_index(s: Seq<char>, c: char)
    ensures
        0 <= char_index(s, c) <= s.len(),
        char_index(s, c) < s.len() ==> s[char_index(s, c)] == c,
        forall|j: int| 0 <= j < char_index(s, c) ==> #[trigger] s[j] != c,
    decreases s.len(),
{
    if s.len() > 0 && s[0] != c {
        lemma_char_index(s.skip(1), c);
        assert forall|j: int| 0 <= j < char_index(s, c) implies #[trigger] s[j] != c by {
            if j > 0 {
                assert(s.skip(1)[j - 1] != c);
            }
        }
    }
}

/// A place that holds `c` with none before it is where `c` first stands.
pub proof fn lemma_char_index_is(s: Seq<char>, c: char, i: int)
    requires
        0 <= i <= s.len(),
        i < s.len() ==> s[i] == c,
        forall|j: int| 0 <= j < i ==> #[trigger] s[j] != c,
    ensures
        char_index(s, c) == i,
{
    lemma_char_index(s, c);
    let k = char_index(s, c);
    if k < i {
        assert(s[k] != c);
    } else if i < k {
        assert(s[i] != c);
    }
}

/// Where `c` first stands in `s`; the length of `s` if it does not.
pub fn find_char(s: &[char], c: char) -> (r: usize)
    ensures
        r == char_index(s@, c),
        r <= s@.len(),
{
    let mut i: usize = 0;
    while i < s.len() && s[i] != c
        invariant
            i <= s.len(),
            forall|j: int| 0 <= j < i ==> #[trigger] s@[j] != c,
        decreases s.len() - i,
    {
        i = i + 1;
    }
    proof {
        lemma_char_index_is(s@, c, i as int);
    }
    i
}

/// The pieces of `s` between the `c`s.
pub fn split_char<'a>(s: &'a [char], c: char) -> (r: Vec<&'a [char]>)
    ensures
        views(r@) == pieces(s@, c),
{
    let mut out: Vec<&'a [char]> = Vec::new();
    let mut start: usize = 0;
    assert(s@.skip(0) =~= s@);
    assert(views(out@) + pieces(s@, c) =~= pieces(s@, c));
    loop
        invariant
            start <= s.len(),
            views(out@) + pieces(s@.skip(start as int), c) == pieces(s@, c),
        decreases s.len() - start,
    {
        let rest = slice_subrange(s, start, s.len());
        let i: usize = find_char(rest, c);
        if i < rest.len() {
            let ghost before = out@;
            out.push(slice_subrange(rest, 0, i));
            assert(views(out@) =~= views(before).push(rest@.take(i as int)));
            assert(rest@.skip(i + 1) =~= s@.skip(start + i + 1));
            assert(views(out@) + pieces(s@.skip(start + i + 1), c) =~= views(before) + pieces(
                s@.skip(start as int),
                c,
            ));
            start = start + i + 1;
        } else {
            let ghost before = out@;
            out.push(rest);
            assert(views(out@) =~= views(before) + seq![rest@]);
            return out;
        }
    }
}

/// The lines of `s`.
pub fn split_lines<'a>(s: &'a [char]) -> (r: Vec<&'a [char]>)
    ensures
        views(r@) == lines_of(s@),
{
    let mut out: Vec<&'a [char]> = Vec::new();
    let mut start: usize = 0;
    assert(s@.skip(0) =~= s@);
    assert(views(out@) + lines_of(s@) =~= lines_of(s@));
    while start < s.len()
        invariant
            start <= s.len(),
            views(out@) + lines_of(s@.skip(start as int)) == lines_of(s@),
        decreases s.len() - start,
    {
        let rest = slice_subrange(s, start, s.len());
        let i: usize = find_char(rest, '\n');
        let ghost before = out@;
        if i < rest.len() {
            let end: usize = if i > 0 && rest[i - 1] == '\r' {
                i - 1
            } else {
                i
            };
            let line = slice_subrange(rest, 0, end);
            assert(line@ =~= without_carriage_return(rest@.take(i as int)));
            out.push(line);
            assert(views(out@) =~= views(before).push(line@));
            assert(rest@.skip(i + 1) =~= s@.skip(start + i + 1));
            assert(views(out@) + lines_of(s@.skip(start + i + 1)) =~= views(before) + lines_of(
                s@.skip(start as int),
            ));
            start = start + i + 1;
        } else {
            out.push(rest);
            assert(views(out@) =~= views(before) + seq![rest@]);
            assert(lines_of(s@.skip(s@.len() as int)) =~= Seq::<Seq<char>>::empty());
            start = s.len();
            assert(views(out@) + lines_of(s@.skip(start as int)) =~= views(out@));
        }
    }
    assert(views(out@) + lines_of(s@.skip(start as int)) =~= views(out@));
    out
}

/// What stands before and after the first `pattern` in `s`.
pub fn split_once<'a>(s: &'a [char], pattern: &str) -> (r: Option<(&'a [char], &'a [char])>)
    ensures
        match r {
            Some((before, after)) => split_at_pattern(s@, pattern@) == Some((before@, after@)),
            None => split_at_pattern(s@, pattern@) is None,
        },
{
    let mut i: usize = 0;
    assert(s@.skip(0) =~= s@);
    loop
        invariant
            i <= s.len(),
            match split_at_pattern(s@.skip(i as int), pattern@) {
                Some((before, after)) => split_at_pattern(s@, pattern@) == Some(
                    (s@.take(i as int) + before, after),
                ),
                None => split_at_pattern(s@, pattern@) is None,
            },
        decreases s.len() - i,
    {
        let rest = slice_subrange(s, i, s.len());
        match strip_prefix(rest, pattern) {
            Some(after) => {
                assert(s@.take(i as int) + Seq::<char>::empty() =~= s@.take(i as int));
                return Some((slice_subrange(s, 0, i), after));
            },
            None => {},
        }
        if i >= s.len() {
            return None;
        }
        assert(rest@.skip(1) =~= s@.skip(i + 1));
        proof {
            if let Some((before, after)) = split_at_pattern(s@.skip(i + 1), pattern@) {
                assert(s@.take(i as int) + (seq![rest@[0]] + before) =~= s@.take(i + 1) + before);
            }
        }
        i = i + 1;
    }
}

/// What stands before and after the last `c` in `s`.
pub fn rsplit_once<'a>(s: &'a [char], c: char) -> (r: Option<(&'a [char], &'a [char])>)
    ensures
        match r {
            Some((before, after)) => split_at_last(s@, c) == Some((before@, after@)),
            None => split_at_last(s@, c) is None,
        },
{
    let mut n: usize = s.len();
    assert(s@.take(n as int) =~= s@);
    assert(s@.skip(n as int) =~= Seq::<char>::empty());
    while n > 0
        invariant
            n <= s.len(),
            match split_at_last(s@.take(n as int), c) {
                Some((before, after)) => split_at_last(s@, c) == Some(
                    (before, after + s@.skip(n as int)),
                ),
                None => split_at_last(s@, c) is None,
            },
        decreases n,
    {
        if s[n - 1] == c {
            assert(s@.take(n as int).drop_last() =~= s@.take(n - 1));
            assert(Seq::<char>::empty() + s@.skip(n as int) =~= s@.skip(n as int));
            return Some((slice_subrange(s, 0, n - 1), slice_subrange(s, n, s.len())));
        }
        assert(s@.take(n as int).drop_last() =~= s@.take(n - 1));
        proof {
            if let Some((before, after)) = split_at_last(s@.take(n - 1), c) {
                assert(after.push(s@[n - 1]) + s@.skip(n as int) =~= after + s@.skip(n - 1));
            }
        }
        n = n - 1;
    }
    None
}

/// Appends the characters to `out`.
pub fn push_chars(out: &mut String, s: &[char])
    ensures
        final(out)@ == old(out)@ + s@,
{
    let mut i: usize = 0;
    assert(out@ + s@.take(0) =~= out@);
    while i < s.len()
        invariant
            i <= s.len(),
            out@ == old(out)@ + s@.take(i as int),
        decreases s.len() - i,
    {
        out.push(s[i]);
        i = i + 1;
        assert(old(out)@ + s@.take(i as int) =~= (old(out)@ + s@.take(i - 1)).push(s@[i - 1]));
    }
    assert(s@.take(s@.len() as int) =~= s@);
}

/// The parts with `separator` between them.
pub fn join(parts: &Vec<String>, separator: &str) -> (r: String)
    ensures
        r@ == joined(views(parts@), separator@),
{
    let mut out = String::new();
    let mut i: usize = 0;
    assert(views(parts@).take(0) =~= Seq::<Seq<char>>::empty());
    while i < parts.len()
        invariant
            i <= parts.len(),
            out@ == joined(views(parts@).take(i as int), separator@),
        decreases parts.len() - i,
    {
        assert(views(parts@).take(i + 1).drop_last() =~= views(parts@).take(i as int));
        if i > 0 {
            out.append(separator);
        } else {
            assert(out@ + parts@[0]@ =~= parts@[0]@);
        }
        out.append(parts[i].as_str());
        i = i + 1;
    }
    assert(views(parts@).take(i as int) =~= views(parts@));
    out
}

/// The characters with every `from` replaced by `to`.
pub fn replace_char(s: &[char], from: char, to: char) -> (r: Vec<char>)
    ensures
        r@ == replaced(s@, from, to),
{
    let mut out: Vec<char> = Vec::new();
    let mut i: usize = 0;
    while i < s.len()
        invariant
            i <= s.len(),
            out@ == replaced(s@, from, to).take(i as int),
        decreases s.len() - i,
    {
        let c = s[i];
        if c == from {
            out.push(to);
        } else {
            out.push(c);
        }
        i = i + 1;
        assert(out@ =~= replaced(s@, from, to).take(i as int));
    }
    assert(out@ =~= replaced(s@, from, to));
    out
}

/// The characters with every carriage return before a newline left out.
pub fn to_unix_lines(s: &[char]) -> (r: Vec<char>)
    ensures
        r@ == with_unix_lines(s@),
{
    let mut out: Vec<char> = Vec::new();
    let mut i: usize = 0;
    assert(s@.skip(0) =~= s@);
    assert(out@ + with_unix_lines(s@) =~= with_unix_lines(s@));
    while i < s.len()
        invariant
            i <= s.len(),
            out@ + with_unix_lines(s@.skip(i as int)) == with_unix_lines(s@),
        decreases s.len() - i,
    {
        let ghost rest = s@.skip(i as int);
        let ghost before = out@;
        let c = s[i];
        assert(rest[0] == c);
        if c == '\r' && i + 1 < s.len() && s[i + 1] == '\n' {
            assert(rest[1] == '\n');
            out.push('\n');
            i = i + 2;
            assert(rest.skip(2) =~= s@.skip(i as int));
            assert(out@ + with_unix_lines(s@.skip(i as int)) =~= before + (seq!['\n']
                + with_unix_lines(s@.skip(i as int))));
        } else {
            out.push(c);
            i = i + 1;
            assert(rest.skip(1) =~= s@.skip(i as int));
            assert(out@ + with_unix_lines(s@.skip(i as int)) =~= before + (seq![c]
                + with_unix_lines(s@.skip(i as int))));
        }
    }
    assert(out@ + with_unix_lines(s@.skip(i as int)) =~= out@);
    out
}

/// Text without a carriage return right before a newline stays as it is.
pub proof fn unix_lines_stay(s: Seq<char>)
    requires
        forall|i: int| 0 <= i < s.len() - 1 && #[trigger] s[i] == '\r' ==> s[i + 1] != '\n',
    ensures
        with_unix_lines(s) == s,
    decreases s.len(),
{
    if s.len() > 0 {
        let rest = s.skip(1);
        assert forall|i: int| 0 <= i < rest.len() - 1 && #[trigger] rest[i] == '\r' implies rest[i
            + 1] != '\n' by {
            assert(s[i + 1] == '\r');
            assert(rest[i + 1] == s[i + 2]);
        }
        unix_lines_stay(rest);
        assert(seq![s[0]] + rest =~= s);
    }
}

/// A carriage return and a newline become a newline, and the text on either side
/// is treated on its own.
pub proof fn line_ends_become_newlines(a: Seq<char>, b: Seq<char>)
    ensures
        with_unix_lines(a + seq!['\r', '\n'] + b) == with_unix_lines(a) + seq!['\n']
            + with_unix_lines(b),
    decreases a.len(),
{
    let end = seq!['\r', '\n'];
    let whole = a + end + b;
    if a.len() == 0 {
        assert(whole.skip(2) =~= b);
        assert(with_unix_lines(whole) =~= with_unix_lines(a) + seq!['\n'] + with_unix_lines(b));
    } else if a.len() > 1 && a[0] == '\r' && a[1] == '\n' {
        line_ends_become_newlines(a.skip(2), b);
        assert(whole.skip(2) =~= a.skip(2) + end + b);
        assert(with_unix_lines(whole) =~= with_unix_lines(a) + seq!['\n'] + with_unix_lines(b));
    } else {
        line_ends_become_newlines(a.skip(1), b);
        assert(whole.skip(1) =~= a.skip(1) + end + b);
        assert(whole[0] == a[0]);
        assert(whole[1] == (if a.len() > 1 {
            a[1]
        } else {
            '\r'
        }));
        assert(with_unix_lines(whole) =~= with_unix_lines(a) + seq!['\n'] + with_unix_lines(b));
    }
}

/// Text in which every carriage return stands before a newline has none left.
pub proof fn no_carriage_return_is_left(s: Seq<char>)
    requires
        forall|i: int|
            0 <= i < s.len() && #[trigger] s[i] == '\r' ==> i + 1 < s.len() && s[i + 1] == '\n',
    ensures
        !with_unix_lines(s).contains('\r'),
    decreases s.len(),
{
    if s.len() > 0 {
        let n: int = if s[0] == '\r' { 2 } else { 1 };
        assert(s[0] == '\r' ==> s[1] == '\n');
        let rest = s.skip(n);
        assert forall|i: int| 0 <= i < rest.len() && #[trigger] rest[i] == '\r' implies i + 1
            < rest.len() && rest[i + 1] == '\n' by {
            assert(s[i + n] == '\r');
            assert(rest[i + 1] == s[i + n + 1]);
        }
        no_carriage_return_is_left(rest);
        let first: char = if s[0] == '\r' { '\n' } else { s[0] };
        let whole = with_unix_lines(s);
        assert(whole == seq![first] + with_unix_lines(rest));
        if whole.contains('\r') {
            let k = choose|k: int| 0 <= k < whole.len() && whole[k] == '\r';
            assert(with_unix_lines(rest)[k - 1] == '\r');
        }
    }
}

/// The lower-case letter of an ASCII capital; any other character as it is.
pub fn to_ascii_lower(c: char) -> (r: char)
    ensures
        r == ascii_lower(c),
{
    if 'A' <= c && c <= 'Z' {
        ((c as u8) - 65u8 + 97u8) as char
    } else {
        c
    }
}

/// Whether two texts differ at most in the case of ASCII letters.
pub fn eq_ignore_ascii_case(a: &[char], b: &[char]) -> (r: bool)
    ensures
        r == same_ignoring_ascii_case(a@, b@),
{
    if a.len() != b.len() {
        return false;
    }
    let mut i: usize = 0;
    while i < a.len()
        invariant
            i <= a.len(),
            a.len() == b.len(),
            forall|j: int| 0 <= j < i ==> ascii_lower(#[trigger] a@[j]) == ascii_lower(b@[j]),
        decreases a.len() - i,
    {
        if to_ascii_lower(a[i]) != to_ascii_lower(b[i]) {
            assert(ascii_lower(a@[i as int]) != ascii_lower(b@[i as int]));
            return false;
        }
        i = i + 1;
    }
    true
}

proof fn lemma_trimmed_start(s: Seq<char>)
    ensures
        trimmed_start(s).len() > 0 ==> !is_whitespace(trimmed_start(s)[0]),
    decreases s.len(),
{
    if s.len() > 0 && is_whitespace(s[0]) {
        lemma_trimmed_start(s.skip(1));
    }
}

proof fn lemma_trimmed_end(s: Seq<char>)
    ensures
        trimmed_end(s).is_prefix_of(s),
        trimmed_end(s).len() > 0 ==> !is_whitespace(trimmed_end(s).last()),
    decreases s.len(),
{
    if s.len() > 0 && is_whitespace(s.last()) {
        lemma_trimmed_end(s.drop_last());
    }
}

/// What whitespace was trimmed from has none left to trim.
pub proof fn trimming_twice_changes_nothing(s: Seq<char>)
    ensures
        trimmed(trimmed(s)) == trimmed(s),
{
    lemma_trimmed_start(s);
    lemma_trimmed_end(trimmed_start(s));
}

/// Whether every character is whitespace.
pub open spec fn all_whitespace(s: Seq<char>) -> bool {
    forall|i: int| 0 <= i < s.len() ==> is_whitespace(#[trigger] s[i])
}

/// Whether neither end of the text is whitespace.
pub open spec fn has_firm_ends(s: Seq<char>) -> bool {
    s.len() > 0 ==> !is_whitespace(s[0]) && !is_whitespace(s.last())
}

/// Whitespace before a text is taken off, and nothing else.
pub proof fn leading_whitespace_is_trimmed(a: Seq<char>, s: Seq<char>)
    requires
        all_whitespace(a),
        s.len() > 0 ==> !is_whitespace(s[0]),
    ensures
        trimmed_start(a + s) == s,
    decreases a.len(),
{
    if a.len() == 0 {
        assert(a + s =~= s);
    } else {
        assert(is_whitespace(a[0]));
        assert((a + s).skip(1) =~= a.skip(1) + s);
        assert forall|i: int| 0 <= i < a.skip(1).len() implies is_whitespace(
            #[trigger] a.skip(1)[i],
        ) by {
            assert(is_whitespace(a[i + 1]));
        }
        leading_whitespace_is_trimmed(a.skip(1), s);
    }
}

/// Whitespace after a text is taken off, and nothing else.
pub proof fn trailing_whitespace_is_trimmed(s: Seq<char>, b: Seq<char>)
    requires
        all_whitespace(b),
        s.len() > 0 ==> !is_whitespace(s.last()),
    ensures
        trimmed_end(s + b) == s,
    decreases b.len(),
{
    if b.len() == 0 {
        assert(s + b =~= s);
    } else {
        assert(is_whitespace(b[b.len() - 1]));
        assert((s + b).drop_last() =~= s + b.drop_last());
        assert forall|i: int| 0 <= i < b.drop_last().len() implies is_whitespace(
            #[trigger] b.drop_last()[i],
        ) by {
            assert(is_whitespace(b[i]));
        }
        trailing_whitespace_is_trimmed(s, b.drop_last());
    }
}

/// Whitespace around a text is taken off, and nothing within it.
pub proof fn whitespace_around_is_trimmed(a: Seq<char>, s: Seq<char>, b: Seq<char>)
    requires
        all_whitespace(a),
        all_whitespace(b),
        has_firm_ends(s),
    ensures
        trimmed(a + s + b) == s,
{
    if s.len() > 0 {
        assert(a + s + b =~= a + (s + b));
        leading_whitespace_is_trimmed(a, s + b);
        trailing_whitespace_is_trimmed(s, b);
    } else {
        let all = a + s + b;
        assert forall|i: int| 0 <= i < all.len() implies is_whitespace(#[trigger] all[i]) by {
            if i < a.len() {
                assert(is_whitespace(a[i]));
            } else {
                assert(is_whitespace(b[i - a.len()]));
            }
        }
        assert(all + s =~= all);
        leading_whitespace_is_trimmed(all, s);
        assert(trimmed_end(s) == s);
    }
}

/// A text whose ends are not whitespace has nothing to trim.
pub proof fn firm_text_is_not_trimmed(s: Seq<char>)
    requires
        has_firm_ends(s),
    ensures
        trimmed(s) == s,
{
    let none = Seq::<char>::empty();
    whitespace_around_is_trimmed(none, s, none);
    assert(none + s + none =~= s);
}

/// `c`, as often as `n` says.
pub open spec fn repeated(c: char, n: nat) -> Seq<char> {
    Seq::new(n, |i: int| c)
}

/// The `c`s at the end of a text are taken off, and nothing else.
pub proof fn trailing_characters_are_dropped(s: Seq<char>, c: char, n: nat)
    requires
        s.len() > 0 ==> s.last() != c,
    ensures
        without_trailing(s + repeated(c, n), c) == s,
    decreases n,
{
    let whole = s + repeated(c, n);
    if n == 0 {
        assert(whole =~= s);
    } else {
        assert(whole.last() == c);
        assert(whole.drop_last() =~= s + repeated(c, (n - 1) as nat));
        trailing_characters_are_dropped(s, c, (n - 1) as nat);
    }
}

/// The `c`s at the start of a text are taken off, and nothing else.
pub proof fn leading_characters_are_dropped(s: Seq<char>, c: char, n: nat)
    requires
        s.len() > 0 ==> s[0] != c,
    ensures
        without_leading(repeated(c, n) + s, c) == s,
    decreases n,
{
    let whole = repeated(c, n) + s;
    if n == 0 {
        assert(whole =~= s);
    } else {
        assert(whole[0] == c);
        assert(whole.skip(1) =~= repeated(c, (n - 1) as nat) + s);
        leading_characters_are_dropped(s, c, (n - 1) as nat);
    }
}

/// What is taken off the end of a text is `c`s alone, and what is left ends in
/// something else.
pub proof fn only_trailing_characters_are_dropped(s: Seq<char>, c: char)
    ensures
        without_trailing(s, c).len() <= s.len(),
        s == without_trailing(s, c) + repeated(c, (s.len() - without_trailing(s, c).len()) as nat),
        without_trailing(s, c).len() > 0 ==> without_trailing(s, c).last() != c,
    decreases s.len(),
{
    let left = without_trailing(s, c);
    if s.len() > 0 && s.last() == c {
        let rest = s.drop_last();
        only_trailing_characters_are_dropped(rest, c);
        let n = (rest.len() - left.len()) as nat;
        assert(rest == left + repeated(c, n));
        assert(s =~= rest.push(c));
        assert(s =~= left + repeated(c, n + 1));
    } else {
        assert(s =~= left + repeated(c, 0));
    }
}

/// Joining starts with the first part.
pub proof fn joined_starts_with_the_first(
    first: Seq<char>,
    rest: Seq<Seq<char>>,
    separator: Seq<char>,
)
    requires
        rest.len() > 0,
    ensures
        joined(seq![first] + rest, separator) == first + separator + joined(rest, separator),
    decreases rest.len(),
{
    let all = seq![first] + rest;
    if rest.len() == 1 {
        assert(all.drop_last() =~= seq![first]);
        assert(joined(seq![first], separator) == first);
        assert(all.last() == rest[0]);
    } else {
        joined_starts_with_the_first(first, rest.drop_last(), separator);
        assert(all.drop_last() =~= seq![first] + rest.drop_last());
        assert(all.last() == rest.last());
        assert(joined(all, separator) =~= first + separator + joined(rest, separator));
    }
}

/// The pieces of a text, with the separator put back between them, are the text,
/// and no piece holds the separator.
pub proof fn pieces_make_up_the_text(s: Seq<char>, c: char)
    ensures
        pieces(s, c).len() > 0,
        joined(pieces(s, c), seq![c]) == s,
        forall|i: int| 0 <= i < pieces(s, c).len() ==> !(#[trigger] pieces(s, c)[i]).contains(c),
    decreases s.len(),
{
    let i = char_index(s, c);
    lemma_char_index(s, c);
    let all = pieces(s, c);
    if i < s.len() {
        let rest = pieces(s.skip(i + 1), c);
        pieces_make_up_the_text(s.skip(i + 1), c);
        joined_starts_with_the_first(s.take(i), rest, seq![c]);
        assert(s =~= s.take(i) + seq![c] + s.skip(i + 1));
        assert forall|k: int| 0 <= k < all.len() implies !(#[trigger] all[k]).contains(c) by {
            if k > 0 {
                assert(all[k] == rest[k - 1]);
            }
        }
    } else {
        assert(joined(seq![s], seq![c]) == s);
    }
}

/// Parts that were written with a separator between them are the pieces of the
/// text, where no part holds the separator.
pub proof fn written_parts_are_the_pieces(parts: Seq<Seq<char>>, c: char)
    requires
        parts.len() > 0,
        forall|i: int| 0 <= i < parts.len() ==> !(#[trigger] parts[i]).contains(c),
    ensures
        pieces(joined(parts, seq![c]), c) == parts,
    decreases parts.len(),
{
    let s = joined(parts, seq![c]);
    let first = parts[0];
    if parts.len() == 1 {
        assert(parts =~= seq![first]);
        lemma_char_index_is(s, c, s.len() as int);
    } else {
        let rest = parts.skip(1);
        assert(parts =~= seq![first] + rest);
        joined_starts_with_the_first(first, rest, seq![c]);
        assert forall|i: int| 0 <= i < rest.len() implies !(#[trigger] rest[i]).contains(c) by {
            assert(rest[i] == parts[i + 1]);
        }
        written_parts_are_the_pieces(rest, c);
        let tail = joined(rest, seq![c]);
        assert(s == first + seq![c] + tail);
        assert forall|j: int| 0 <= j < first.len() implies #[trigger] s[j] != c by {
            assert(s[j] == first[j]);
            assert(first.contains(first[j]));
        }
        lemma_char_index_is(s, c, first.len() as int);
        assert(s.take(first.len() as int) =~= first);
        assert(s.skip(first.len() as int + 1) =~= tail);
        assert(pieces(s, c) =~= parts);
    }
}

/// The text of lines that all end in the same way.
pub open spec fn written_lines(lines: Seq<Seq<char>>, end: Seq<char>) -> Seq<char>
    decreases lines.len(),
{
    if lines.len() == 0 {
        Seq::empty()
    } else {
        lines[0] + end + written_lines(lines.skip(1), end)
    }
}

/// Whether a text is one line: it holds no newline, and ends in no carriage
/// return.
pub open spec fn is_one_line(line: Seq<char>) -> bool {
    !line.contains('\n') && (line.len() > 0 ==> line.last() != '\r')
}

/// Lines that were written are read back, whether they end in a newline or in a
/// carriage return and a newline.
pub proof fn written_lines_read_back(lines: Seq<Seq<char>>)
    requires
        forall|i: int| 0 <= i < lines.len() ==> is_one_line(#[trigger] lines[i]),
    ensures
        lines_of(written_lines(lines, seq!['\n'])) == lines,
        lines_of(written_lines(lines, seq!['\r', '\n'])) == lines,
    decreases lines.len(),
{
    if lines.len() > 0 {
        let first = lines[0];
        let rest = lines.skip(1);
        assert forall|i: int| 0 <= i < rest.len() implies is_one_line(#[trigger] rest[i]) by {
            assert(rest[i] == lines[i + 1]);
        }
        written_lines_read_back(rest);
        assert(lines =~= seq![first] + rest);
        let a = written_lines(lines, seq!['\n']);
        let b = written_lines(lines, seq!['\r', '\n']);
        let n: int = first.len() as int;
        assert forall|j: int| 0 <= j < n implies #[trigger] a[j] != '\n' && b[j] != '\n' by {
            assert(a[j] == first[j] && b[j] == first[j]);
            assert(first.contains(first[j]));
        }
        assert(a[n] == '\n' && b[n] == '\r' && b[n + 1] == '\n');
        lemma_char_index_is(a, '\n', n);
        assert forall|j: int| 0 <= j < n + 1 implies #[trigger] b[j] != '\n' by {
            if j < n {
                assert(a[j] != '\n');
            }
        }
        lemma_char_index_is(b, '\n', n + 1);
        assert(a.take(n) =~= first);
        assert(b.take(n + 1) =~= first.push('\r'));
        assert(first.push('\r').drop_last() =~= first);
        assert(a.skip(n + 1) =~= written_lines(rest, seq!['\n']));
        assert(b.skip(n + 2) =~= written_lines(rest, seq!['\r', '\n']));
        assert(lines_of(a) =~= lines);
        assert(lines_of(b) =~= lines);
    }
}

/// Whether `pattern` stands in `s` at place `i`.
pub open spec fn stands_at(s: Seq<char>, pattern: Seq<char>, i: int) -> bool {
    0 <= i && i + pattern.len() <= s.len() && s.subrange(i, i + pattern.len()) == pattern
}

/// A text is split at the first place where the pattern stands: the two parts
/// with the pattern between them are the text, and the pattern stands nowhere
/// before. It is not split only where the pattern does not stand in it.
pub proof fn text_is_split_at_the_first(s: Seq<char>, pattern: Seq<char>)
    ensures
        match split_at_pattern(s, pattern) {
            Some((before, after)) => s == before + pattern + after && forall|i: int|
                0 <= i < before.len() ==> !#[trigger] stands_at(s, pattern, i),
            None => forall|i: int| !#[trigger] stands_at(s, pattern, i),
        },
    decreases s.len(),
{
    if pattern.is_prefix_of(s) {
        assert(s =~= Seq::<char>::empty() + pattern + s.skip(pattern.len() as int));
    } else if s.len() == 0 {
        assert forall|i: int| !#[trigger] stands_at(s, pattern, i) by {
            if stands_at(s, pattern, i) {
                assert(s.subrange(i, i + pattern.len()) =~= s.subrange(0, pattern.len() as int));
            }
        }
    } else {
        let rest = s.skip(1);
        text_is_split_at_the_first(rest, pattern);
        assert forall|i: int| 1 <= i implies #[trigger] stands_at(s, pattern, i) == stands_at(
            rest,
            pattern,
            i - 1,
        ) by {
            if i + pattern.len() <= s.len() {
                assert(s.subrange(i, i + pattern.len()) =~= rest.subrange(
                    i - 1,
                    i - 1 + pattern.len(),
                ));
            }
        }
        assert(!stands_at(s, pattern, 0));
        match split_at_pattern(rest, pattern) {
            Some((before, after)) => {
                assert(s =~= seq![s[0]] + rest);
                assert(s =~= seq![s[0]] + before + pattern + after);
                assert forall|i: int| 0 <= i < before.len() + 1 implies !#[trigger] stands_at(
                    s,
                    pattern,
                    i,
                ) by {
                    if i > 0 {
                        assert(!stands_at(rest, pattern, i - 1));
                    }
                }
            },
            None => {
                assert forall|i: int| !#[trigger] stands_at(s, pattern, i) by {
                    if i > 0 {
                        assert(!stands_at(rest, pattern, i - 1));
                    }
                }
            },
        }
    }
}

/// Parts with the pattern between them are split there, where the pattern stands
/// nowhere before.
pub proof fn written_parts_are_split(before: Seq<char>, pattern: Seq<char>, after: Seq<char>)
    requires
        forall|i: int|
            0 <= i < before.len() ==> !#[trigger] stands_at(before + pattern + after, pattern, i),
    ensures
        split_at_pattern(before + pattern + after, pattern) == Some((before, after)),
{
    let s = before + pattern + after;
    text_is_split_at_the_first(s, pattern);
    let n = before.len() as int;
    assert(s.subrange(n, n + pattern.len()) =~= pattern);
    assert(stands_at(s, pattern, n));
    let (a, b) = split_at_pattern(s, pattern)->0;
    let m = a.len() as int;
    assert(s.subrange(m, m + pattern.len()) =~= pattern);
    assert(stands_at(s, pattern, m));
    assert(m == n);
    assert(a =~= s.take(m));
    assert(before =~= s.take(n));
    assert(b =~= s.skip(m + pattern.len()));
    assert(after =~= s.skip(n + pattern.len()));
}

/// A part without the character is split off at it.
pub proof fn part_without_the_character_is_split_off(
    before: Seq<char>,
    c: char,
    after: Seq<char>,
)
    requires
        !before.contains(c),
    ensures
        split_at_pattern(before + seq![c] + after, seq![c]) == Some((before, after)),
{
    let s = before + seq![c] + after;
    assert forall|i: int| 0 <= i < before.len() implies !#[trigger] stands_at(s, seq![c], i) by {
        if stands_at(s, seq![c], i) {
            assert(s.subrange(i, i + 1)[0] == s[i]);
            assert(s[i] == before[i]);
            assert(before.contains(before[i]));
        }
    }
    written_parts_are_split(before, seq![c], after);
}

/// A text is split at the last place where the character stands.
pub proof fn text_is_split_at_the_last(s: Seq<char>, c: char)
    ensures
        match split_at_last(s, c) {
            Some((before, after)) => s == before + seq![c] + after && !after.contains(c),
            None => !s.contains(c),
        },
    decreases s.len(),
{
    if s.len() > 0 {
        if s.last() == c {
            assert(s =~= s.drop_last() + seq![c] + Seq::<char>::empty());
        } else {
            let rest = s.drop_last();
            text_is_split_at_the_last(rest, c);
            match split_at_last(rest, c) {
                Some((before, after)) => {
                    assert(s =~= rest.push(s.last()));
                    assert(s =~= before + seq![c] + after.push(s.last()));
                    if after.push(s.last()).contains(c) {
                        let k = choose|k: int|
                            0 <= k < after.push(s.last()).len() && after.push(s.last())[k] == c;
                        assert(after[k] == c);
                    }
                },
                None => {
                    if s.contains(c) {
                        let k = choose|k: int| 0 <= k < s.len() && s[k] == c;
                        assert(rest[k] == c);
                    }
                },
            }
        }
    }
}

/// Two letters are the same but for case exactly where they are the same, or are
/// the capital and the small form of one letter of the alphabet, which stand
/// thirty-two apart.
pub proof fn letters_differ_in_case(a: char, b: char)
    ensures
        ascii_lower(a) == ascii_lower(b) <==> a == b || ('A' <= a <= 'Z' && b as u32 == a as u32
            + 32) || ('A' <= b <= 'Z' && a as u32 == b as u32 + 32),
{
}

/// A part that lacks the pattern's first character is split off at the pattern.
pub proof fn part_without_the_start_is_split_off(
    before: Seq<char>,
    pattern: Seq<char>,
    after: Seq<char>,
)
    requires
        pattern.len() > 0,
        !before.contains(pattern[0]),
    ensures
        split_at_pattern(before + pattern + after, pattern) == Some((before, after)),
{
    let s = before + pattern + after;
    assert forall|i: int| 0 <= i < before.len() implies !#[trigger] stands_at(s, pattern, i) by {
        if stands_at(s, pattern, i) {
            assert(s.subrange(i, i + pattern.len())[0] == s[i]);
            assert(s[i] == before[i]);
            assert(before.contains(before[i]));
        }
    }
    written_parts_are_split(before, pattern, after);
}

/// Three parts with a separator between them.
pub proof fn joined_three(a: Seq<char>, b: Seq<char>, c: Seq<char>, separator: Seq<char>)
    ensures
        joined(seq![a, b, c], separator) == a + separator + b + separator + c,
{
    joined_starts_with_the_first(a, seq![b, c], separator);
    joined_starts_with_the_first(b, seq![c], separator);
    assert(seq![a] + seq![b, c] =~= seq![a, b, c]);
    assert(seq![b] + seq![c] =~= seq![b, c]);
    assert(joined(seq![c], separator) == c);
    assert(a + separator + (b + separator + c) =~= a + separator + b + separator + c);
}

} // verus!
