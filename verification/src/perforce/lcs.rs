//! Which lines of one text are lines of another: a longest common subsequence.

use crate::text;
use vstd::prelude::*;

verus! {

/// The length of the longest common subsequence of `a` from `i` on and `b`
/// from `j` on.
pub open spec fn common_length(a: Seq<Seq<char>>, b: Seq<Seq<char>>, i: int, j: int) -> nat
    decreases a.len() - i + b.len() - j,
{
    if !(0 <= i < a.len() && 0 <= j < b.len()) {
        0
    } else if a[i] == b[j] {
        1 + common_length(a, b, i + 1, j + 1)
    } else if common_length(a, b, i + 1, j) >= common_length(a, b, i, j + 1) {
        common_length(a, b, i + 1, j)
    } else {
        common_length(a, b, i, j + 1)
    }
}

/// For each line of `b` from `j` on, the line of `a` from `i` on that it
/// matches. Equal lines match; else a line of `a` is passed over where that
/// loses nothing, and otherwise the line of `b` matches none.
pub open spec fn matches_from(a: Seq<Seq<char>>, b: Seq<Seq<char>>, i: int, j: int) -> Seq<
    Option<usize>,
>
    decreases a.len() - i + b.len() - j,
{
    if !(0 <= i < a.len() && 0 <= j < b.len()) {
        if 0 <= j <= b.len() {
            Seq::new((b.len() - j) as nat, |k: int| None)
        } else {
            Seq::empty()
        }
    } else if a[i] == b[j] {
        seq![Some(i as usize)] + matches_from(a, b, i + 1, j + 1)
    } else if common_length(a, b, i + 1, j) >= common_length(a, b, i, j + 1) {
        matches_from(a, b, i + 1, j)
    } else {
        seq![None] + matches_from(a, b, i, j + 1)
    }
}

/// For each line of `b`, the line of `a` that it matches.
pub open spec fn line_matches(a: Seq<Seq<char>>, b: Seq<Seq<char>>) -> Seq<Option<usize>> {
    matches_from(a, b, 0, 0)
}

/// A common subsequence is no longer than what is left of either text.
proof fn lemma_common_length_bound(a: Seq<Seq<char>>, b: Seq<Seq<char>>, i: int, j: int)
    requires
        0 <= i <= a.len(),
        0 <= j <= b.len(),
    ensures
        common_length(a, b, i, j) <= a.len() - i,
        common_length(a, b, i, j) <= b.len() - j,
    decreases a.len() - i + b.len() - j,
{
    if i < a.len() && j < b.len() {
        if a[i] == b[j] {
            lemma_common_length_bound(a, b, i + 1, j + 1);
        } else {
            lemma_common_length_bound(a, b, i + 1, j);
            lemma_common_length_bound(a, b, i, j + 1);
        }
    }
}

/// Whether two lines are the same.
pub fn same_line(a: &[char], b: &[char]) -> (r: bool)
    ensures
        r == (a@ == b@),
{
    if a.len() != b.len() {
        return false;
    }
    let mut i: usize = 0;
    while i < a.len()
        invariant
            i <= a.len(),
            a.len() == b.len(),
            forall|k: int| 0 <= k < i ==> #[trigger] a@[k] == b@[k],
        decreases a.len() - i,
    {
        if a[i] != b[i] {
            assert(a@[i as int] != b@[i as int]);
            return false;
        }
        i = i + 1;
    }
    assert(a@ =~= b@);
    true
}

/// A row's length at `j`; past the last line of `b` nothing is left, and the
/// length is zero.
fn length_at(row: &Vec<usize>, j: usize) -> (r: usize)
    ensures
        r == (if j < row@.len() {
            row@[j as int]
        } else {
            0
        }),
{
    if j < row.len() {
        row[j]
    } else {
        0
    }
}

/// Whether a row holds the lengths for line `i` of `a` and every line of `b`.
spec fn is_length_row(row: Seq<usize>, a: Seq<Seq<char>>, b: Seq<Seq<char>>, i: int) -> bool {
    row.len() == b.len() && forall|j: int|
        0 <= j < b.len() ==> #[trigger] row[j] == common_length(a, b, i, j)
}

/// The lengths for one line of `a` and every line of `b`, from those for the
/// next line of `a`.
fn length_row(
    a: &Vec<&[char]>,
    b: &Vec<&[char]>,
    i: usize,
    below: &Vec<usize>,
) -> (r: Vec<usize>)
    requires
        i < a@.len(),
        is_length_row(below@, text::views(a@), text::views(b@), i + 1),
    ensures
        is_length_row(r@, text::views(a@), text::views(b@), i as int),
{
    let ghost x = text::views(a@);
    let ghost y = text::views(b@);
    let m: usize = b.len();
    let mut row: Vec<usize> = below.clone();
    let mut j: usize = m;
    while j > 0
        invariant
            j <= m,
            m == b@.len(),
            i < a@.len(),
            x == text::views(a@),
            y == text::views(b@),
            row@.len() == m,
            is_length_row(below@, x, y, i + 1),
            forall|k: int| j <= k < m ==> #[trigger] row@[k] == common_length(x, y, i as int, k),
        decreases j,
    {
        j = j - 1;
        proof {
            lemma_common_length_bound(x, y, i + 1, j + 1);
            assert(x[i as int] == a@[i as int]@ && y[j as int] == b@[j as int]@);
            assert(common_length(x, y, i + 1, m as int) == 0);
            assert(common_length(x, y, i as int, m as int) == 0);
        }
        let length: usize = if same_line(a[i], b[j]) {
            length_at(below, j + 1) + 1
        } else {
            let without_a: usize = below[j];
            let without_b: usize = length_at(&row, j + 1);
            if without_a >= without_b {
                without_a
            } else {
                without_b
            }
        };
        row.set(j, length);
    }
    row
}

/// Matches each line of `b` to a line of `a` along a longest common
/// subsequence; a line of `b` that is none of `a` matches none. Takes time and
/// space in proportion to the product of the two lengths.
pub fn lcs_line_match(a: &Vec<&[char]>, b: &Vec<&[char]>) -> (r: Vec<Option<usize>>)
    ensures
        r@ == line_matches(text::views(a@), text::views(b@)),
{
    let ghost x = text::views(a@);
    let ghost y = text::views(b@);
    let n: usize = a.len();
    let m: usize = b.len();
    // The row past the last line of `a`.
    let mut below: Vec<usize> = Vec::new();
    let mut j: usize = 0;
    while j < m
        invariant
            j <= m,
            n == x.len(),
            below@.len() == j,
            forall|k: int| 0 <= k < j ==> #[trigger] below@[k] == common_length(x, y, n as int, k),
        decreases m - j,
    {
        below.push(0);
        j = j + 1;
    }
    // The rows of the table from the last line of `a` up.
    let mut rows: Vec<Vec<usize>> = Vec::new();
    let mut i: usize = n;
    while i > 0
        invariant
            i <= n,
            n == a@.len(),
            x == text::views(a@),
            y == text::views(b@),
            is_length_row(below@, x, y, n as int),
            rows@.len() == n - i,
            forall|q: int| 0 <= q < n - i ==> is_length_row(#[trigger] rows@[q]@, x, y, n - 1 - q),
        decreases i,
    {
        let row = if i == n {
            length_row(a, b, i - 1, &below)
        } else {
            assert(is_length_row(rows@[n - i - 1]@, x, y, i as int));
            length_row(a, b, i - 1, &rows[n - i - 1])
        };
        rows.push(row);
        i = i - 1;
    }
    let mut out: Vec<Option<usize>> = Vec::new();
    let mut i: usize = 0;
    let mut j: usize = 0;
    assert(out@ + line_matches(x, y) =~= line_matches(x, y));
    while i < n && j < m
        invariant
            i <= n,
            j <= m,
            n == a@.len(),
            m == b@.len(),
            x == text::views(a@),
            y == text::views(b@),
            rows@.len() == n,
            is_length_row(below@, x, y, n as int),
            forall|q: int| 0 <= q < n ==> is_length_row(#[trigger] rows@[q]@, x, y, n - 1 - q),
            out@ + matches_from(x, y, i as int, j as int) == line_matches(x, y),
        decreases n - i + m - j,
    {
        let ghost before = out@;
        assert(x[i as int] == a@[i as int]@ && y[j as int] == b@[j as int]@);
        if same_line(a[i], b[j]) {
            out.push(Some(i));
            assert(out@ + matches_from(x, y, i + 1, j + 1) =~= before + matches_from(
                x,
                y,
                i as int,
                j as int,
            ));
            i = i + 1;
            j = j + 1;
        } else {
            assert(is_length_row(rows@[n - 1 - i]@, x, y, i as int));
            let without_a: usize = if i + 1 < n {
                assert(is_length_row(rows@[n - 2 - i]@, x, y, i + 1));
                rows[n - 2 - i][j]
            } else {
                0
            };
            let without_b: usize = length_at(&rows[n - 1 - i], j + 1);
            if without_a >= without_b {
                i = i + 1;
            } else {
                out.push(None);
                assert(out@ + matches_from(x, y, i as int, j + 1) =~= before + matches_from(
                    x,
                    y,
                    i as int,
                    j as int,
                ));
                j = j + 1;
            }
        }
    }
    while j < m
        invariant
            j <= m,
            m == y.len(),
            out@ + Seq::new((m - j) as nat, |k: int| None::<usize>) == line_matches(x, y),
        decreases m - j,
    {
        let ghost before = out@;
        out.push(None);
        assert(out@ + Seq::new((m - (j + 1)) as nat, |k: int| None::<usize>) =~= before + Seq::new(
            (m - j) as nat,
            |k: int| None::<usize>,
        ));
        j = j + 1;
    }
    assert(out@ + Seq::new((m - j) as nat, |k: int| None::<usize>) =~= out@);
    out
}

/// What holds of the matches from `i` and `j` on.
proof fn lemma_matches_from(a: Seq<Seq<char>>, b: Seq<Seq<char>>, i: int, j: int)
    requires
        0 <= i <= a.len(),
        0 <= j <= b.len(),
        a.len() <= usize::MAX,
    ensures
        ({
            let r = matches_from(a, b, i, j);
            &&& r.len() == b.len() - j
            &&& forall|k: int|
                0 <= k < r.len() ==> ((#[trigger] r[k]) matches Some(d) ==> i <= d < a.len() && a[d as int]
                    == b[j + k])
            &&& forall|k: int, l: int|
                0 <= k < l < r.len() ==> ((#[trigger] r[k]) matches Some(d) ==> (
                (#[trigger] r[l]) matches Some(e) ==> d < e))
            &&& matched(r) == common_length(a, b, i, j)
        }),
    decreases a.len() - i + b.len() - j,
{
    let r = matches_from(a, b, i, j);
    if i < a.len() && j < b.len() {
        if a[i] == b[j] {
            lemma_matches_from(a, b, i + 1, j + 1);
            let rest = matches_from(a, b, i + 1, j + 1);
            assert(r.skip(1) =~= rest);
            assert forall|k: int| 0 <= k < r.len() implies ((#[trigger] r[k]) matches Some(d) ==> i
                <= d < a.len() && a[d as int] == b[j + k]) by {
                if k > 0 {
                    assert(r[k] == rest[k - 1]);
                }
            }
            assert forall|k: int, l: int| 0 <= k < l < r.len() implies (
            (#[trigger] r[k]) matches Some(d) ==> ((#[trigger] r[l]) matches Some(e) ==> d < e)) by {
                assert(r[l] == rest[l - 1]);
                if k > 0 {
                    assert(r[k] == rest[k - 1]);
                }
            }
        } else if common_length(a, b, i + 1, j) >= common_length(a, b, i, j + 1) {
            lemma_matches_from(a, b, i + 1, j);
        } else {
            lemma_matches_from(a, b, i, j + 1);
            let rest = matches_from(a, b, i, j + 1);
            assert(r.skip(1) =~= rest);
            assert forall|k: int| 0 <= k < r.len() implies ((#[trigger] r[k]) matches Some(d) ==> i
                <= d < a.len() && a[d as int] == b[j + k]) by {
                if k > 0 {
                    assert(r[k] == rest[k - 1]);
                }
            }
            assert forall|k: int, l: int| 0 <= k < l < r.len() implies (
            (#[trigger] r[k]) matches Some(d) ==> ((#[trigger] r[l]) matches Some(e) ==> d < e)) by {
                assert(r[l] == rest[l - 1]);
                if k > 0 {
                    assert(r[k] == rest[k - 1]);
                }
            }
        }
    } else {
        lemma_none_matched(r);
    }
}

/// How many of the lines match one.
pub open spec fn matched(r: Seq<Option<usize>>) -> nat
    decreases r.len(),
{
    if r.len() == 0 {
        0
    } else if r[0] is Some {
        1 + matched(r.skip(1))
    } else {
        matched(r.skip(1))
    }
}

/// Where no line matches, none is counted.
proof fn lemma_none_matched(r: Seq<Option<usize>>)
    requires
        forall|k: int| 0 <= k < r.len() ==> #[trigger] r[k] is None,
    ensures
        matched(r) == 0,
    decreases r.len(),
{
    if r.len() > 0 {
        assert forall|k: int| 0 <= k < r.skip(1).len() implies #[trigger] r.skip(1)[k] is None by {
            assert(r[k + 1] is None);
        }
        lemma_none_matched(r.skip(1));
    }
}

/// Each line of `b` has an answer; a line matches an equal line, and later
/// lines of `b` match later lines of `a`.
pub proof fn matches_are_a_common_subsequence(a: Seq<Seq<char>>, b: Seq<Seq<char>>)
    requires
        a.len() <= usize::MAX,
    ensures
        line_matches(a, b).len() == b.len(),
        forall|k: int|
            0 <= k < b.len() ==> ((#[trigger] line_matches(a, b)[k]) matches Some(d) ==> d < a.len()
                && a[d as int] == b[k]),
        forall|k: int, l: int|
            0 <= k < l < b.len() ==> ((#[trigger] line_matches(a, b)[k]) matches Some(d) ==> (
            (#[trigger] line_matches(a, b)[l]) matches Some(e) ==> d < e)),
{
    lemma_matches_from(a, b, 0, 0);
}

/// Whether the lines of `a` at `p` and those of `b` at `q`, from `i` and `j`
/// on, are a common subsequence.
pub open spec fn is_common_subsequence(
    a: Seq<Seq<char>>,
    b: Seq<Seq<char>>,
    p: Seq<int>,
    q: Seq<int>,
    i: int,
    j: int,
) -> bool {
    &&& p.len() == q.len()
    &&& forall|t: int|
        0 <= t < p.len() ==> i <= #[trigger] p[t] < a.len() && j <= q[t] < b.len() && a[p[t]]
            == b[q[t]]
    &&& forall|s: int, t: int|
        0 <= s < t < p.len() ==> #[trigger] p[s] < #[trigger] p[t] && q[s] < q[t]
}

/// No common subsequence is longer than the longest.
proof fn lemma_common_length_is_longest(
    a: Seq<Seq<char>>,
    b: Seq<Seq<char>>,
    p: Seq<int>,
    q: Seq<int>,
    i: int,
    j: int,
)
    requires
        0 <= i <= a.len(),
        0 <= j <= b.len(),
        is_common_subsequence(a, b, p, q, i, j),
    ensures
        p.len() <= common_length(a, b, i, j),
    decreases a.len() - i + b.len() - j,
{
    if p.len() > 0 {
        assert(i <= p[0] < a.len() && j <= q[0] < b.len());
        if a[i] == b[j] {
            let tail = p.skip(1);
            let q_tail = q.skip(1);
            assert forall|t: int| 0 <= t < tail.len() implies i + 1 <= #[trigger] tail[t] < a.len()
                && j + 1 <= q_tail[t] < b.len() && a[tail[t]] == b[q_tail[t]] by {
                assert(tail[t] == p[t + 1]);
                assert(p[0] < p[t + 1]);
            }
            assert forall|s: int, t: int| 0 <= s < t < tail.len() implies #[trigger] tail[s]
                < #[trigger] tail[t] && q_tail[s] < q_tail[t] by {
                assert(p[s + 1] < p[t + 1]);
            }
            lemma_common_length_is_longest(a, b, tail, q_tail, i + 1, j + 1);
        } else if p[0] > i {
            assert forall|t: int| 0 <= t < p.len() implies i + 1 <= #[trigger] p[t] < a.len() && j
                <= q[t] < b.len() && a[p[t]] == b[q[t]] by {
                if t > 0 {
                    assert(p[0] < p[t]);
                }
            }
            lemma_common_length_is_longest(a, b, p, q, i + 1, j);
        } else {
            assert(q[0] > j);
            assert forall|t: int| 0 <= t < p.len() implies i <= #[trigger] p[t] < a.len() && j + 1
                <= q[t] < b.len() && a[p[t]] == b[q[t]] by {
                if t > 0 {
                    assert(p[0] < p[t]);
                }
            }
            lemma_common_length_is_longest(a, b, p, q, i, j + 1);
        }
    }
}

/// As many lines match as any common subsequence of the two texts has.
pub proof fn as_many_lines_match_as_can(
    a: Seq<Seq<char>>,
    b: Seq<Seq<char>>,
    p: Seq<int>,
    q: Seq<int>,
)
    requires
        a.len() <= usize::MAX,
        is_common_subsequence(a, b, p, q, 0, 0),
    ensures
        p.len() <= matched(line_matches(a, b)),
{
    lemma_matches_from(a, b, 0, 0);
    lemma_common_length_is_longest(a, b, p, q, 0, 0);
}

/// The lines of a text from `i` on match themselves.
proof fn lemma_same_text_matches(a: Seq<Seq<char>>, i: int)
    requires
        0 <= i <= a.len(),
    ensures
        matches_from(a, a, i, i) == Seq::new((a.len() - i) as nat, |k: int| Some((i + k) as usize)),
    decreases a.len() - i,
{
    if i < a.len() {
        lemma_same_text_matches(a, i + 1);
        assert(matches_from(a, a, i, i) =~= Seq::new(
            (a.len() - i) as nat,
            |k: int| Some((i + k) as usize),
        ));
    } else {
        assert(matches_from(a, a, i, i) =~= Seq::new(
            (a.len() - i) as nat,
            |k: int| Some((i + k) as usize),
        ));
    }
}

/// In an unchanged text every line matches itself.
pub proof fn unchanged_text_matches_itself(a: Seq<Seq<char>>)
    ensures
        line_matches(a, a) == Seq::new(a.len(), |k: int| Some(k as usize)),
{
    lemma_same_text_matches(a, 0);
    assert(line_matches(a, a) =~= Seq::new(a.len(), |k: int| Some(k as usize)));
}

/// The lines that two texts start with in common match themselves, line by line.
pub proof fn common_start_matches_itself(a: Seq<Seq<char>>, b: Seq<Seq<char>>, n: int)
    requires
        0 <= n <= a.len() <= usize::MAX,
        n <= b.len(),
        forall|k: int| 0 <= k < n ==> #[trigger] a[k] == b[k],
    ensures
        forall|k: int| 0 <= k < n ==> #[trigger] line_matches(a, b)[k] == Some(k as usize),
{
    lemma_common_start(a, b, 0, n);
}

/// The common start from line `i` on matches itself.
proof fn lemma_common_start(a: Seq<Seq<char>>, b: Seq<Seq<char>>, i: int, n: int)
    requires
        0 <= i <= n <= a.len() <= usize::MAX,
        n <= b.len(),
        forall|k: int| 0 <= k < n ==> #[trigger] a[k] == b[k],
    ensures
        forall|m: int|
            0 <= m < n - i ==> #[trigger] matches_from(a, b, i, i)[m] == Some((i + m) as usize),
    decreases n - i,
{
    if i < n {
        lemma_common_start(a, b, i + 1, n);
        lemma_matches_from(a, b, i + 1, i + 1);
        let rest = matches_from(a, b, i + 1, i + 1);
        assert(a[i] == b[i]);
        assert forall|m: int| 0 <= m < n - i implies #[trigger] matches_from(a, b, i, i)[m] == Some(
            (i + m) as usize,
        ) by {
            if m > 0 {
                assert(matches_from(a, b, i, i)[m] == rest[m - 1]);
            }
        }
    }
}

/// One line less of either text makes a longest common subsequence shorter by at
/// most one, and none longer.
proof fn lemma_one_line_less(a: Seq<Seq<char>>, b: Seq<Seq<char>>, i: int, j: int)
    requires
        0 <= i <= a.len(),
        0 <= j <= b.len(),
    ensures
        common_length(a, b, i + 1, j) <= common_length(a, b, i, j),
        common_length(a, b, i, j + 1) <= common_length(a, b, i, j),
        common_length(a, b, i, j) <= 1 + common_length(a, b, i + 1, j),
        common_length(a, b, i, j) <= 1 + common_length(a, b, i, j + 1),
    decreases a.len() - i + b.len() - j,
{
    if i < a.len() && j < b.len() {
        lemma_one_line_less(a, b, i + 1, j);
        lemma_one_line_less(a, b, i, j + 1);
        lemma_one_line_less(a, b, i + 1, j + 1);
    }
}

/// Later lines of `b` have no longer common subsequences.
proof fn lemma_later_lines(a: Seq<Seq<char>>, b: Seq<Seq<char>>, i: int, j: int, m: int)
    requires
        0 <= i <= a.len(),
        0 <= j,
        0 <= m,
        j + m <= b.len(),
    ensures
        common_length(a, b, i, j + m) <= common_length(a, b, i, j),
    decreases m,
{
    if m > 0 {
        lemma_later_lines(a, b, i, j, m - 1);
        lemma_one_line_less(a, b, i, j + m - 1);
    }
}

/// Lines that match none can be left out of a longest common subsequence.
proof fn lemma_unmatched_lines(a: Seq<Seq<char>>, b: Seq<Seq<char>>, i: int, j: int, m: int)
    requires
        0 <= i <= a.len() <= usize::MAX,
        0 <= j,
        0 <= m,
        j + m <= b.len(),
        forall|k: int| 0 <= k < m ==> #[trigger] matches_from(a, b, i, j)[k] is None,
    ensures
        common_length(a, b, i, j) <= common_length(a, b, i, j + m),
    decreases a.len() - i + b.len() - j,
{
    if i < a.len() && m > 0 {
        let r = matches_from(a, b, i, j);
        if a[i] == b[j] {
            assert(r[0] is Some);
        } else if common_length(a, b, i + 1, j) >= common_length(a, b, i, j + 1) {
            lemma_unmatched_lines(a, b, i + 1, j, m);
            lemma_one_line_less(a, b, i, j + m);
        } else {
            let rest = matches_from(a, b, i, j + 1);
            lemma_matches_from(a, b, i, j + 1);
            assert forall|k: int| 0 <= k < m - 1 implies #[trigger] rest[k] is None by {
                assert(r[k + 1] == rest[k]);
            }
            lemma_unmatched_lines(a, b, i, j + 1, m - 1);
        }
    }
}

/// Where a longest common subsequence of the lines from `i` and `j` on starts
/// with a line of `b`, that line or an earlier one matches.
proof fn lemma_first_match(
    a: Seq<Seq<char>>,
    b: Seq<Seq<char>>,
    p: Seq<int>,
    q: Seq<int>,
    i: int,
    j: int,
)
    requires
        0 <= i <= a.len() <= usize::MAX,
        0 <= j <= b.len(),
        is_common_subsequence(a, b, p, q, i, j),
        p.len() > 0,
        p.len() == common_length(a, b, i, j),
    ensures
        exists|m: int| 0 <= m <= q[0] - j && #[trigger] matches_from(a, b, i, j)[m] is Some,
    decreases a.len() - i + b.len() - j,
{
    assert(i <= p[0] < a.len() && j <= q[0] < b.len());
    let r = matches_from(a, b, i, j);
    lemma_one_line_less(a, b, i, j);
    if a[i] == b[j] {
        assert(r[0] is Some);
    } else if common_length(a, b, i + 1, j) >= common_length(a, b, i, j + 1) {
        if p[0] > i {
            assert forall|t: int| 0 <= t < p.len() implies i + 1 <= #[trigger] p[t] < a.len() && j
                <= q[t] < b.len() && a[p[t]] == b[q[t]] by {
                if t > 0 {
                    assert(p[0] < p[t]);
                }
            }
            lemma_first_match(a, b, p, q, i + 1, j);
        } else {
            assert(a[p[0]] == b[q[0]]);
            assert(common_length(a, b, i, q[0]) == 1 + common_length(a, b, i + 1, q[0] + 1));
            lemma_later_lines(a, b, i, j, q[0] - j);
            if forall|m: int| 0 <= m <= q[0] - j ==> #[trigger] r[m] is None {
                lemma_unmatched_lines(a, b, i + 1, j, q[0] + 1 - j);
            }
        }
    } else {
        if q[0] == j {
            assert(a[p[0]] == b[q[0]]);
            assert(p[0] > i);
            assert forall|t: int| 0 <= t < p.len() implies i + 1 <= #[trigger] p[t] < a.len() && j
                <= q[t] < b.len() && a[p[t]] == b[q[t]] by {
                if t > 0 {
                    assert(p[0] < p[t]);
                }
            }
            lemma_common_length_is_longest(a, b, p, q, i + 1, j);
        } else {
            assert forall|t: int| 0 <= t < p.len() implies i <= #[trigger] p[t] < a.len() && j + 1
                <= q[t] < b.len() && a[p[t]] == b[q[t]] by {
                if t > 0 {
                    assert(p[0] < p[t]);
                }
            }
            lemma_first_match(a, b, p, q, i, j + 1);
            let rest = matches_from(a, b, i, j + 1);
            lemma_matches_from(a, b, i, j + 1);
            let m = choose|m: int| 0 <= m <= q[0] - (j + 1) && #[trigger] rest[m] is Some;
            assert(r[m + 1] == rest[m]);
        }
    }
}

/// Among the longest common subsequences the matches start as early in `b` as
/// any: where one starts with a line of `b`, that line or an earlier one matches.
pub proof fn matches_start_as_early_as_can(
    a: Seq<Seq<char>>,
    b: Seq<Seq<char>>,
    p: Seq<int>,
    q: Seq<int>,
)
    requires
        a.len() <= usize::MAX,
        is_common_subsequence(a, b, p, q, 0, 0),
        p.len() > 0,
        p.len() == matched(line_matches(a, b)),
    ensures
        exists|k: int| 0 <= k <= q[0] && #[trigger] line_matches(a, b)[k] is Some,
{
    lemma_matches_from(a, b, 0, 0);
    lemma_first_match(a, b, p, q, 0, 0);
    let m = choose|m: int| 0 <= m <= q[0] && #[trigger] matches_from(a, b, 0, 0)[m] is Some;
    assert(line_matches(a, b)[m] is Some);
}

} // verus!
