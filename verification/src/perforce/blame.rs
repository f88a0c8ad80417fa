//! Who last changed each line of a file: `p4 annotate` projected onto the
//! editor's buffer.

use crate::decimal;
use crate::oid;
use crate::oid::{change_to_oid, Oid};
use crate::perforce::describe;
use crate::perforce::describe::{clone_text, ChangeMeta, ChangeMetaView};
use crate::perforce::history;
use crate::perforce::history::parse_datetime_chars;
use crate::perforce::lcs;
use crate::perforce::lcs::lcs_line_match;
use crate::seqs;
use crate::text;
use std::collections::HashMap;
use std::ops::Range;
use vstd::prelude::*;
use vstd::slice::slice_subrange;
use vstd::string::StringExecFns;

verus! {

broadcast use vstd::std_specs::hash::group_hash_axioms;

/// The format in which `p4 annotate` is asked for each line: the change that
/// introduced it, its user and its time.
pub const ANNOTATE_FORMAT: &'static str = "%lower%|%user%|%time%";

/// The depot's attribution of one line.
#[derive(Debug)]
pub struct AnnotatedLine {
    /// The change that introduced the line.
    pub change: u32,
    pub user: Option<String>,
    /// Seconds since the start of 1970.
    pub time: Option<i64>,
}

/// What an [`AnnotatedLine`] says.
#[verifier::ext_equal]
pub struct AnnotatedLineView {
    pub change: u32,
    pub user: Option<Seq<char>>,
    pub time: Option<i64>,
}

impl View for AnnotatedLine {
    type V = AnnotatedLineView;

    open spec fn view(&self) -> AnnotatedLineView {
        AnnotatedLineView {
            change: self.change,
            user: text::option_view(self.user),
            time: self.time,
        }
    }
}

impl Clone for AnnotatedLine {
    fn clone(&self) -> (r: AnnotatedLine)
        ensures
            r@ == self@,
    {
        AnnotatedLine { change: self.change, user: clone_text(&self.user), time: self.time }
    }
}

/// The attribution that a line `<change>|<user>|<time>` holds. Without a change
/// number it holds none; an empty user is none.
pub open spec fn annotated_line(line: Seq<char>) -> Option<AnnotatedLineView> {
    let i = text::char_index(line, '|');
    match history::trimmed_number(line.take(i)) {
        None => None,
        Some(change) => if i < line.len() {
            let rest = line.skip(i + 1);
            let k = text::char_index(rest, '|');
            Some(
                AnnotatedLineView {
                    change,
                    user: if k > 0 {
                        Some(rest.take(k))
                    } else {
                        None
                    },
                    time: if k < rest.len() {
                        history::datetime_i64(rest.skip(k + 1))
                    } else {
                        None
                    },
                },
            )
        } else {
            Some(AnnotatedLineView { change, user: None, time: None })
        },
    }
}

/// Gives the attribution that a line holds.
pub open spec fn annotation_of() -> spec_fn(Seq<char>) -> Option<AnnotatedLineView> {
    |line: Seq<char>| annotated_line(line)
}

/// The attributions of annotate output, in order.
pub open spec fn annotated_lines(output: Seq<char>) -> Seq<AnnotatedLineView> {
    seqs::filter_mapped(text::lines_of(output), annotation_of())
}

/// The attribution that a line `<change>|<user>|<time>` holds.
fn parse_annotated_line(line: &[char]) -> (r: Option<AnnotatedLine>)
    ensures
        text::option_view(r) == annotated_line(line@),
{
    let i: usize = text::find_char(line, '|');
    match decimal::parse_u32(text::trim(slice_subrange(line, 0, i))) {
        None => None,
        Some(change) => {
            if i < line.len() {
                let rest = slice_subrange(line, i + 1, line.len());
                let k: usize = text::find_char(rest, '|');
                let user = if k > 0 {
                    Some(text::from_chars(slice_subrange(rest, 0, k)))
                } else {
                    None
                };
                let time = if k < rest.len() {
                    parse_datetime_chars(slice_subrange(rest, k + 1, rest.len()))
                } else {
                    None
                };
                Some(AnnotatedLine { change, user, time })
            } else {
                Some(AnnotatedLine { change, user: None, time: None })
            }
        },
    }
}

/// Parses what `p4 annotate` prints in [`ANNOTATE_FORMAT`] into one attribution
/// for each line of the file. The record of the file's header has no change
/// and is dropped.
pub fn parse_formatted_annotate(output: &str) -> (r: Vec<AnnotatedLine>)
    ensures
        text::views(r@) == annotated_lines(output@),
{
    let chars = text::to_chars(output);
    let lines = text::split_lines(chars.as_slice());
    let ghost all = text::views(lines@);
    let mut out: Vec<AnnotatedLine> = Vec::new();
    let mut i: usize = 0;
    assert(text::views(out@) =~= seqs::filter_mapped(all.take(0), annotation_of()));
    while i < lines.len()
        invariant
            i <= lines.len(),
            all == text::views(lines@),
            text::views(out@) == seqs::filter_mapped(all.take(i as int), annotation_of()),
        decreases lines.len() - i,
    {
        proof {
            seqs::lemma_filter_mapped_step(all, annotation_of(), i as int);
        }
        assert(all[i as int] == lines@[i as int]@);
        let ghost before = text::views(out@);
        if let Some(line) = parse_annotated_line(lines[i]) {
            out.push(line);
            assert(text::views(out@) =~= before.push(line@));
        }
        i = i + 1;
    }
    assert(all.take(i as int) =~= all);
    out
}

/// The lines of a text for comparison: a single newline at the end makes no
/// line of its own, carriage returns at a line's end do not count, and the
/// empty text has no lines.
pub open spec fn comparable_lines(s: Seq<char>) -> Seq<Seq<char>> {
    if s.len() == 0 {
        Seq::empty()
    } else {
        let whole = if s.last() == '\n' {
            s.drop_last()
        } else {
            s
        };
        text::pieces(whole, '\n').map_values(|line: Seq<char>| text::without_trailing(line, '\r'))
    }
}

/// Splits a text into lines for comparison.
pub fn split_lines<'a>(s: &'a [char]) -> (r: Vec<&'a [char]>)
    ensures
        text::views(r@) == comparable_lines(s@),
{
    let mut out: Vec<&'a [char]> = Vec::new();
    if s.len() == 0 {
        assert(text::views(out@) =~= comparable_lines(s@));
        return out;
    }
    let n: usize = s.len();
    let whole = if s[n - 1] == '\n' {
        slice_subrange(s, 0, n - 1)
    } else {
        s
    };
    let parts = text::split_char(whole, '\n');
    let ghost all = text::pieces(whole@, '\n');
    let ghost lines = all.map_values(|line: Seq<char>| text::without_trailing(line, '\r'));
    assert(lines == comparable_lines(s@));
    let mut i: usize = 0;
    assert(text::views(out@) =~= lines.take(0));
    while i < parts.len()
        invariant
            i <= parts.len(),
            all == text::views(parts@),
            lines == all.map_values(|line: Seq<char>| text::without_trailing(line, '\r')),
            text::views(out@) == lines.take(i as int),
        decreases parts.len() - i,
    {
        let ghost before = text::views(out@);
        assert(all[i as int] == parts@[i as int]@);
        let line = text::trim_end_char(parts[i], '\r');
        out.push(line);
        assert(text::views(out@) =~= before.push(line@));
        assert(lines.take(i + 1) =~= lines.take(i as int).push(lines[i as int]));
        i = i + 1;
    }
    assert(lines.take(i as int) =~= lines);
    out
}

/// The views of optional attributions.
pub open spec fn row_views(rows: Seq<Option<AnnotatedLine>>) -> Seq<Option<AnnotatedLineView>> {
    Seq::new(rows.len(), |i: int| text::option_view(rows[i]))
}

/// Every attribution as it is.
pub open spec fn attributed(depot: Seq<AnnotatedLineView>) -> Seq<Option<AnnotatedLineView>> {
    depot.map_values(|line: AnnotatedLineView| Some(line))
}

/// For each line of the buffer, the attribution of the depot line that it
/// matches; none for a line that was added or edited. Where the depot's text
/// has not as many lines as there are attributions, the two cannot be aligned,
/// and the attributions stand as they are.
pub open spec fn remapped(
    depot: Seq<AnnotatedLineView>,
    depot_text: Seq<char>,
    content: Seq<char>,
) -> Seq<Option<AnnotatedLineView>> {
    let depot_lines = comparable_lines(depot_text);
    if depot_lines.len() != depot.len() {
        attributed(depot)
    } else {
        lcs::line_matches(depot_lines, comparable_lines(content)).map_values(
            |d: Option<usize>|
                match d {
                    Some(d) => Some(depot[d as int]),
                    None => None,
                },
        )
    }
}

/// Projects the depot's attributions, which stand for the lines of
/// `depot_text`, onto the lines of the buffer's `content`.
pub fn remap_annotation_to_content(
    depot: &[AnnotatedLine],
    depot_text: &str,
    content: &str,
) -> (r: Vec<Option<AnnotatedLine>>)
    ensures
        row_views(r@) == remapped(text::views(depot@), depot_text@, content@),
{
    let depot_chars = text::to_chars(depot_text);
    let depot_lines = split_lines(depot_chars.as_slice());
    let ghost given = text::views(depot@);
    let ghost goal = remapped(given, depot_text@, content@);
    let mut out: Vec<Option<AnnotatedLine>> = Vec::new();
    assert(text::views(depot_lines@).len() == depot_lines@.len());
    if depot_lines.len() != depot.len() {
        let mut i: usize = 0;
        assert(row_views(out@) =~= attributed(given).take(0));
        while i < depot.len()
            invariant
                i <= depot@.len(),
                given == text::views(depot@),
                row_views(out@) == attributed(given).take(i as int),
            decreases depot@.len() - i,
        {
            let ghost before = row_views(out@);
            let line = depot[i].clone();
            out.push(Some(line));
            assert(row_views(out@) =~= before.push(Some(line@)));
            assert(attributed(given).take(i + 1) =~= attributed(given).take(i as int).push(
                attributed(given)[i as int],
            ));
            i = i + 1;
        }
        assert(attributed(given).take(i as int) =~= attributed(given));
        return out;
    }
    let content_chars = text::to_chars(content);
    let content_lines = split_lines(content_chars.as_slice());
    let matches = lcs_line_match(&depot_lines, &content_lines);
    proof {
        lcs::matches_are_a_common_subsequence(
            text::views(depot_lines@),
            text::views(content_lines@),
        );
    }
    let mut i: usize = 0;
    assert(row_views(out@) =~= goal.take(0));
    assert(matches@ == lcs::line_matches(
        comparable_lines(depot_text@),
        comparable_lines(content@),
    ));
    while i < matches.len()
        invariant
            i <= matches@.len(),
            given == text::views(depot@),
            goal.len() == matches@.len(),
            forall|k: int|
                0 <= k < matches@.len() ==> ((#[trigger] matches@[k]) matches Some(d) ==> d
                    < depot@.len()),
            forall|k: int|
                0 <= k < matches@.len() ==> #[trigger] goal[k] == (match matches@[k] {
                    Some(d) => Some(given[d as int]),
                    None => None,
                }),
            row_views(out@) == goal.take(i as int),
        decreases matches@.len() - i,
    {
        let ghost before = row_views(out@);
        assert(goal.take(i + 1) =~= goal.take(i as int).push(goal[i as int]));
        match matches[i] {
            Some(d) => {
                assert(matches@[i as int] == Some(d));
                let line = depot[d].clone();
                assert(given[d as int] == depot@[d as int]@);
                out.push(Some(line));
                assert(row_views(out@) =~= before.push(Some(line@)));
            },
            None => {
                out.push(None);
                assert(row_views(out@) =~= before.push(None));
            },
        }
        i = i + 1;
    }
    assert(goal.take(i as int) =~= goal);
    out
}

/// Who last changed a run of lines.
#[derive(Debug)]
pub struct BlameEntry {
    pub sha: Oid,
    /// The rows of the run.
    pub range: Range<u32>,
    pub original_line_number: u32,
    pub author: Option<String>,
    pub author_mail: Option<String>,
    pub author_time: Option<i64>,
    pub author_tz: Option<String>,
    pub committer_name: Option<String>,
    pub committer_email: Option<String>,
    pub committer_time: Option<i64>,
    pub committer_tz: Option<String>,
    pub summary: Option<String>,
    pub previous: Option<String>,
    pub filename: String,
    /// What stands for the revision in place of the id.
    pub revision_label: Option<String>,
}

/// What a [`BlameEntry`] says.
#[verifier::ext_equal]
pub struct BlameEntryView {
    pub sha: Seq<u8>,
    pub start: u32,
    pub end: u32,
    pub original_line_number: u32,
    pub author: Option<Seq<char>>,
    pub author_mail: Option<Seq<char>>,
    pub author_time: Option<i64>,
    pub author_tz: Option<Seq<char>>,
    pub committer_name: Option<Seq<char>>,
    pub committer_email: Option<Seq<char>>,
    pub committer_time: Option<i64>,
    pub committer_tz: Option<Seq<char>>,
    pub summary: Option<Seq<char>>,
    pub previous: Option<Seq<char>>,
    pub filename: Seq<char>,
    pub revision_label: Option<Seq<char>>,
}

impl View for BlameEntry {
    type V = BlameEntryView;

    open spec fn view(&self) -> BlameEntryView {
        BlameEntryView {
            sha: self.sha@,
            start: self.range.start,
            end: self.range.end,
            original_line_number: self.original_line_number,
            author: text::option_view(self.author),
            author_mail: text::option_view(self.author_mail),
            author_time: self.author_time,
            author_tz: text::option_view(self.author_tz),
            committer_name: text::option_view(self.committer_name),
            committer_email: text::option_view(self.committer_email),
            committer_time: self.committer_time,
            committer_tz: text::option_view(self.committer_tz),
            summary: text::option_view(self.summary),
            previous: text::option_view(self.previous),
            filename: self.filename@,
            revision_label: text::option_view(self.revision_label),
        }
    }
}

/// Who last changed the lines of a file, and what the changes are about.
#[derive(Debug)]
pub struct Blame {
    pub entries: Vec<BlameEntry>,
    /// The summary of each change that has one, by the change's id.
    pub messages: Vec<(Oid, String)>,
}

/// What a [`Blame`] says.
#[verifier::ext_equal]
pub struct BlameView {
    pub entries: Seq<BlameEntryView>,
    pub messages: Seq<(Seq<u8>, Seq<char>)>,
}

impl View for Blame {
    type V = BlameView;

    open spec fn view(&self) -> BlameView {
        BlameView { entries: text::views(self.entries@), messages: text::views(self.messages@) }
    }
}

/// The message that stands for an id; the first, if there were several.
pub open spec fn message_for(messages: Seq<(Seq<u8>, Seq<char>)>, id: Seq<u8>) -> Option<Seq<char>>
    decreases messages.len(),
{
    if messages.len() == 0 {
        None
    } else if messages[0].0 == id {
        Some(messages[0].1)
    } else {
        message_for(messages.skip(1), id)
    }
}

impl Blame {
    /// The summary of the change with the id.
    pub fn message(&self, id: &Oid) -> (r: Option<&String>)
        ensures
            text::option_view(r) == message_for(self@.messages, id@),
    {
        find_message(&self.messages, id)
    }
}

/// The message that stands for an id.
fn find_message<'a>(messages: &'a Vec<(Oid, String)>, id: &Oid) -> (r: Option<&'a String>)
    ensures
        text::option_view(r) == message_for(text::views(messages@), id@),
{
    let ghost all = text::views(messages@);
    let mut i: usize = 0;
    assert(all.skip(0) =~= all);
    while i < messages.len()
        invariant
            i <= messages.len(),
            all == text::views(messages@),
            message_for(all, id@) == message_for(all.skip(i as int), id@),
        decreases messages.len() - i,
    {
        assert(all.skip(i as int)[0] == messages@[i as int]@);
        if messages[i].0.same(id) {
            return Some(&messages[i].1);
        }
        assert(all.skip(i as int).skip(1) =~= all.skip(i + 1));
        i = i + 1;
    }
    None
}

/// Where the run of rows that are attributed to `change` ends, from `i` on.
pub open spec fn run_end(rows: Seq<Option<AnnotatedLineView>>, change: u32, i: int) -> int
    decreases rows.len() - i,
{
    if 0 <= i < rows.len() && (rows[i] matches Some(line) && line.change == change) {
        run_end(rows, change, i + 1)
    } else {
        i
    }
}

/// A run ends no earlier than it starts, and within the rows.
pub proof fn lemma_run_end(rows: Seq<Option<AnnotatedLineView>>, change: u32, i: int)
    requires
        0 <= i <= rows.len(),
    ensures
        i <= run_end(rows, change, i) <= rows.len(),
        forall|k: int|
            i <= k < run_end(rows, change, i) ==> ((#[trigger] rows[k]) matches Some(line)
                && line.change == change),
        run_end(rows, change, i) < rows.len() ==> !(rows[run_end(rows, change, i)] matches Some(line)
            && line.change == change),
    decreases rows.len() - i,
{
    if i < rows.len() && (rows[i] matches Some(line) && line.change == change) {
        lemma_run_end(rows, change, i + 1);
    }
}

/// The time zone given with a time; none without one.
pub open spec fn zone_of(time: Option<i64>) -> Option<Seq<char>> {
    match time {
        Some(t) => Some("+0000"@),
        None => None,
    }
}

/// The summary that is known of a change.
pub open spec fn known_summary(descriptions: Map<u32, ChangeMetaView>, change: u32) -> Option<
    Seq<char>,
> {
    match descriptions.get(change) {
        Some(meta) => meta.summary,
        None => None,
    }
}

/// The entry of the run of rows from `start` to before `end`, which `line`
/// heads.
pub open spec fn blame_entry(
    line: AnnotatedLineView,
    start: int,
    end: int,
    descriptions: Map<u32, ChangeMetaView>,
    filename: Seq<char>,
) -> BlameEntryView {
    BlameEntryView {
        sha: oid::change_bytes(line.change),
        start: start as u32,
        end: end as u32,
        original_line_number: (start + 1) as u32,
        author: line.user,
        author_mail: None,
        author_time: line.time,
        author_tz: zone_of(line.time),
        committer_name: line.user,
        committer_email: None,
        committer_time: line.time,
        committer_tz: zone_of(line.time),
        summary: known_summary(descriptions, line.change),
        previous: None,
        filename,
        revision_label: Some("@"@ + decimal::digits(line.change as nat)),
    }
}

/// The entries for the rows from `i` on: one for each longest run of rows that
/// are attributed to the same change, and none for rows without attribution.
pub open spec fn blame_entries(
    rows: Seq<Option<AnnotatedLineView>>,
    descriptions: Map<u32, ChangeMetaView>,
    filename: Seq<char>,
    i: int,
) -> Seq<BlameEntryView>
    decreases rows.len() - i,
{
    if !(0 <= i < rows.len()) {
        Seq::empty()
    } else {
        match rows[i] {
            None => blame_entries(rows, descriptions, filename, i + 1),
            Some(line) => {
                let end = run_end(rows, line.change, i + 1);
                proof {
                    lemma_run_end(rows, line.change, i + 1);
                }
                seq![blame_entry(line, i, end, descriptions, filename)] + blame_entries(
                    rows,
                    descriptions,
                    filename,
                    end,
                )
            },
        }
    }
}

/// The summaries of the entries that have one, each id once.
pub open spec fn entry_messages(entries: Seq<BlameEntryView>) -> Seq<(Seq<u8>, Seq<char>)>
    decreases entries.len(),
{
    if entries.len() == 0 {
        Seq::empty()
    } else {
        let earlier = entry_messages(entries.drop_last());
        match entries.last().summary {
            Some(summary) => if message_for(earlier, entries.last().sha) is Some {
                earlier
            } else {
                earlier.push((entries.last().sha, summary))
            },
            None => earlier,
        }
    }
}

/// The blame that attributed rows and what is known of their changes give.
pub open spec fn blame_of(
    rows: Seq<Option<AnnotatedLineView>>,
    descriptions: Map<u32, ChangeMetaView>,
    filename: Seq<char>,
) -> BlameView {
    let entries = blame_entries(rows, descriptions, filename, 0);
    BlameView { entries, messages: entry_messages(entries) }
}

/// The time zone given with a time.
fn zone_text(time: Option<i64>) -> (r: Option<String>)
    ensures
        text::option_view(r) == zone_of(time),
{
    match time {
        Some(t) => Some("+0000".to_owned()),
        None => None,
    }
}

/// The entry of a run of rows.
fn make_entry(
    line: &AnnotatedLine,
    start: usize,
    end: usize,
    descriptions: &HashMap<u32, ChangeMeta>,
    filename: &String,
) -> (r: BlameEntry)
    requires
        start < end <= u32::MAX,
    ensures
        r@ == blame_entry(
            line@,
            start as int,
            end as int,
            describe::meta_view(descriptions@),
            filename@,
        ),
{
    let summary = match descriptions.get(&line.change) {
        Some(meta) => clone_text(&meta.summary),
        None => None,
    };
    let mut label = String::new();
    label.append("@");
    decimal::push_digits(&mut label, line.change as u64);
    assert(label@ =~= "@"@ + decimal::digits(line.change as nat));
    assert(text::option_view(summary) == known_summary(
        describe::meta_view(descriptions@),
        line.change,
    ));
    let r = BlameEntry {
        sha: change_to_oid(line.change),
        range: (start as u32)..(end as u32),
        original_line_number: start as u32 + 1,
        author: clone_text(&line.user),
        author_mail: None,
        author_time: line.time,
        author_tz: zone_text(line.time),
        committer_name: clone_text(&line.user),
        committer_email: None,
        committer_time: line.time,
        committer_tz: zone_text(line.time),
        summary,
        previous: None,
        filename: filename.clone(),
        revision_label: Some(label),
    };
    assert(r@ =~= blame_entry(
        line@,
        start as int,
        end as int,
        describe::meta_view(descriptions@),
        filename@,
    ));
    r
}

/// Collects attributed rows into a blame. Consecutive rows of one change make
/// one entry; a row without attribution, which was added or edited locally,
/// has none. The summaries come from `descriptions`; a change that is not
/// described keeps its author, time and number.
pub fn build_p4_blame_mapped(
    lines: &[Option<AnnotatedLine>],
    descriptions: &HashMap<u32, ChangeMeta>,
    filename: String,
) -> (r: Blame)
    requires
        lines@.len() <= u32::MAX,
    ensures
        r@ == blame_of(row_views(lines@), describe::meta_view(descriptions@), filename@),
{
    let ghost rows = row_views(lines@);
    let ghost known = describe::meta_view(descriptions@);
    let ghost all = blame_entries(rows, known, filename@, 0);
    let mut entries: Vec<BlameEntry> = Vec::new();
    let mut messages: Vec<(Oid, String)> = Vec::new();
    let n: usize = lines.len();
    let mut i: usize = 0;
    assert(text::views(entries@) + all =~= all);
    assert(text::views(messages@) =~= entry_messages(text::views(entries@)));
    while i < n
        invariant
            i <= n,
            n == lines@.len(),
            n <= u32::MAX,
            rows == row_views(lines@),
            known == describe::meta_view(descriptions@),
            text::views(entries@) + blame_entries(rows, known, filename@, i as int) == all,
            text::views(messages@) == entry_messages(text::views(entries@)),
        decreases n - i,
    {
        assert(rows[i as int] == text::option_view(lines@[i as int]));
        match &lines[i] {
            None => {
                i = i + 1;
            },
            Some(line) => {
                let change: u32 = line.change;
                let start: usize = i;
                i = i + 1;
                while i < n && is_attributed_to(&lines[i], change)
                    invariant
                        start < i <= n,
                        n == lines@.len(),
                        rows == row_views(lines@),
                        run_end(rows, change, start + 1) == run_end(rows, change, i as int),
                    decreases n - i,
                {
                    assert(rows[i as int] == text::option_view(lines@[i as int]));
                    i = i + 1;
                }
                assert(i < n ==> rows[i as int] == text::option_view(lines@[i as int]));
                let entry = make_entry(line, start, i, descriptions, &filename);
                let ghost before = text::views(entries@);
                if let Some(summary) = &entry.summary {
                    let ghost earlier = text::views(messages@);
                    if find_message(&messages, &entry.sha).is_none() {
                        let copy = summary.clone();
                        messages.push((entry.sha, copy));
                        assert(text::views(messages@) =~= earlier.push((entry.sha@, copy@)));
                    }
                }
                assert(before.push(entry@).drop_last() =~= before);
                entries.push(entry);
                assert(text::views(entries@) =~= before.push(entry@));
                assert(text::views(entries@) + blame_entries(rows, known, filename@, i as int)
                    =~= before + blame_entries(rows, known, filename@, start as int));
            },
        }
    }
    assert(text::views(entries@) + blame_entries(rows, known, filename@, i as int)
        =~= text::views(entries@));
    Blame { entries, messages }
}

/// Whether a row is attributed to the change.
fn is_attributed_to(row: &Option<AnnotatedLine>, change: u32) -> (r: bool)
    ensures
        r == (*row matches Some(line) && line.change == change),
{
    match row {
        Some(line) => line.change == change,
        None => false,
    }
}

/// Collects attributions into a blame, one row for each.
pub fn build_p4_blame(
    lines: &[AnnotatedLine],
    descriptions: &HashMap<u32, ChangeMeta>,
    filename: String,
) -> (r: Blame)
    requires
        lines@.len() <= u32::MAX,
    ensures
        r@ == blame_of(
            attributed(text::views(lines@)),
            describe::meta_view(descriptions@),
            filename@,
        ),
{
    let ghost goal = attributed(text::views(lines@));
    let mut rows: Vec<Option<AnnotatedLine>> = Vec::new();
    let mut i: usize = 0;
    assert(row_views(rows@) =~= goal.take(0));
    while i < lines.len()
        invariant
            i <= lines@.len(),
            goal == attributed(text::views(lines@)),
            row_views(rows@) == goal.take(i as int),
        decreases lines@.len() - i,
    {
        let ghost before = row_views(rows@);
        let line = lines[i].clone();
        rows.push(Some(line));
        assert(row_views(rows@) =~= before.push(Some(line@)));
        assert(goal.take(i + 1) =~= goal.take(i as int).push(goal[i as int]));
        i = i + 1;
    }
    assert(goal.take(i as int) =~= goal);
    build_p4_blame_mapped(rows.as_slice(), descriptions, filename)
}

/// What holds of the entries for the rows from `i` on.
proof fn lemma_blame_entries(
    rows: Seq<Option<AnnotatedLineView>>,
    descriptions: Map<u32, ChangeMetaView>,
    filename: Seq<char>,
    i: int,
)
    requires
        0 <= i <= rows.len(),
        rows.len() <= u32::MAX,
    ensures
        ({
            let entries = blame_entries(rows, descriptions, filename, i);
            &&& forall|k: int|
                0 <= k < entries.len() ==> i <= (#[trigger] entries[k]).start < entries[k].end
                    <= rows.len()
            &&& forall|k: int, l: int|
                0 <= k < l < entries.len() ==> (#[trigger] entries[k]).end
                    <= (#[trigger] entries[l]).start
            &&& forall|k: int, row: int|
                0 <= k < entries.len() && entries[k].start <= row < entries[k].end ==> (
                (#[trigger] rows[row]) matches Some(line) && (#[trigger] entries[k]).sha
                    == oid::change_bytes(line.change) && entries[k].summary == known_summary(
                    descriptions,
                    line.change,
                ))
            &&& forall|row: int|
                i <= row < rows.len() && (#[trigger] rows[row]) is Some ==> exists|k: int|
                    0 <= k < entries.len() && (#[trigger] entries[k]).start <= row < entries[k].end
            &&& forall|k: int|
                0 <= k < entries.len() && (#[trigger] entries[k]).end < rows.len() ==> !(
                rows[entries[k].end as int] matches Some(line) && oid::change_bytes(line.change)
                    == entries[k].sha)
        }),
    decreases rows.len() - i,
{
    let entries = blame_entries(rows, descriptions, filename, i);
    if i < rows.len() {
        match rows[i] {
            None => {
                lemma_blame_entries(rows, descriptions, filename, i + 1);
            },
            Some(line) => {
                let end = run_end(rows, line.change, i + 1);
                lemma_run_end(rows, line.change, i + 1);
                lemma_blame_entries(rows, descriptions, filename, end);
                let rest = blame_entries(rows, descriptions, filename, end);
                assert(entries.len() == rest.len() + 1);
                assert(forall|k: int| 1 <= k < entries.len() ==> #[trigger] entries[k] == rest[k - 1]);
                assert forall|k: int, l: int| 0 <= k < l < entries.len() implies (
                #[trigger] entries[k]).end <= (#[trigger] entries[l]).start by {
                    assert(entries[l] == rest[l - 1]);
                    if k > 0 {
                        assert(entries[k] == rest[k - 1]);
                    }
                }
                assert forall|k: int, row: int|
                    0 <= k < entries.len() && entries[k].start <= row < entries[k].end implies ((
                #[trigger] rows[row]) matches Some(line) && (#[trigger] entries[k]).sha
                    == oid::change_bytes(line.change) && entries[k].summary == known_summary(
                    descriptions,
                    line.change,
                )) by {
                    if k > 0 {
                        assert(entries[k] == rest[k - 1]);
                    }
                }
                assert forall|row: int|
                    i <= row < rows.len() && (#[trigger] rows[row]) is Some implies exists|k: int|
                    0 <= k < entries.len() && (#[trigger] entries[k]).start <= row
                        < entries[k].end by {
                    if row < end {
                        assert(entries[0].start <= row < entries[0].end);
                    } else {
                        let k = choose|k: int|
                            0 <= k < rest.len() && (#[trigger] rest[k]).start <= row < rest[k].end;
                        assert(entries[k + 1] == rest[k]);
                    }
                }
                assert forall|k: int|
                    0 <= k < entries.len() && (#[trigger] entries[k]).end < rows.len() implies !(
                rows[entries[k].end as int] matches Some(next) && oid::change_bytes(next.change)
                    == entries[k].sha) by {
                    if k > 0 {
                        assert(entries[k] == rest[k - 1]);
                    } else if let Some(next) = rows[end] {
                        if oid::change_bytes(next.change) == entries[0].sha {
                            oid::changes_have_their_own_ids(next.change, line.change);
                        }
                    }
                }
            },
        }
    }
}

/// A row is covered by an entry exactly where it is attributed, and then by
/// one of its own change: rows that were added or edited locally show no blame.
pub proof fn blame_covers_attributed_rows(
    rows: Seq<Option<AnnotatedLineView>>,
    descriptions: Map<u32, ChangeMetaView>,
    filename: Seq<char>,
    row: int,
)
    requires
        0 <= row < rows.len() <= u32::MAX,
    ensures
        rows[row] is Some <==> exists|k: int|
            0 <= k < blame_of(rows, descriptions, filename).entries.len() && (#[trigger] blame_of(
                rows,
                descriptions,
                filename,
            ).entries[k]).start <= row < blame_of(rows, descriptions, filename).entries[k].end,
        forall|k: int|
            0 <= k < blame_of(rows, descriptions, filename).entries.len() && blame_of(
                rows,
                descriptions,
                filename,
            ).entries[k].start <= row < blame_of(rows, descriptions, filename).entries[k].end
                ==> (rows[row] matches Some(line) && (#[trigger] blame_of(
                rows,
                descriptions,
                filename,
            ).entries[k]).sha == oid::change_bytes(line.change)),
{
    lemma_blame_entries(rows, descriptions, filename, 0);
    let entries = blame_entries(rows, descriptions, filename, 0);
    if exists|k: int|
        0 <= k < entries.len() && (#[trigger] entries[k]).start <= row < entries[k].end {
        let k = choose|k: int|
            0 <= k < entries.len() && (#[trigger] entries[k]).start <= row < entries[k].end;
        assert(rows[row] is Some);
    }
    assert forall|k: int|
        0 <= k < entries.len() && entries[k].start <= row < entries[k].end implies (
    rows[row] matches Some(line) && (#[trigger] entries[k]).sha == oid::change_bytes(
        line.change,
    )) by {}
}

/// The entries run down the file: none is empty, none overlaps another, and
/// each reaches as far as its change does.
pub proof fn blame_entries_are_longest_runs(
    rows: Seq<Option<AnnotatedLineView>>,
    descriptions: Map<u32, ChangeMetaView>,
    filename: Seq<char>,
)
    requires
        rows.len() <= u32::MAX,
    ensures
        ({
            let entries = blame_of(rows, descriptions, filename).entries;
            &&& forall|k: int|
                0 <= k < entries.len() ==> (#[trigger] entries[k]).start < entries[k].end
                    <= rows.len()
            &&& forall|k: int, l: int|
                0 <= k < l < entries.len() ==> (#[trigger] entries[k]).end
                    <= (#[trigger] entries[l]).start
            &&& forall|k: int|
                0 <= k < entries.len() && (#[trigger] entries[k]).end < rows.len() ==> !(
                rows[entries[k].end as int] matches Some(line) && oid::change_bytes(line.change)
                    == entries[k].sha)
        }),
{
    lemma_blame_entries(rows, descriptions, filename, 0);
}

/// A message that is appended is found where none was found before.
proof fn lemma_message_for_push(
    messages: Seq<(Seq<u8>, Seq<char>)>,
    item: (Seq<u8>, Seq<char>),
    id: Seq<u8>,
)
    ensures
        message_for(messages.push(item), id) == (match message_for(messages, id) {
            Some(m) => Some(m),
            None => if item.0 == id {
                Some(item.1)
            } else {
                None
            },
        }),
    decreases messages.len(),
{
    if messages.len() > 0 {
        assert(messages.push(item).skip(1) =~= messages.skip(1).push(item));
        lemma_message_for_push(messages.skip(1), item, id);
    } else {
        assert(messages.push(item).skip(1) =~= messages);
    }
}

/// Every entry's summary is the message for its id, where entries with one id
/// have one summary.
proof fn lemma_entry_messages(entries: Seq<BlameEntryView>)
    requires
        forall|k: int, l: int|
            0 <= k < entries.len() && 0 <= l < entries.len() && (#[trigger] entries[k]).sha
                == (#[trigger] entries[l]).sha ==> entries[k].summary == entries[l].summary,
    ensures
        forall|k: int|
            0 <= k < entries.len() ==> message_for(
                entry_messages(entries),
                (#[trigger] entries[k]).sha,
            ) == entries[k].summary,
        forall|id: Seq<u8>| #[trigger]
            message_for(entry_messages(entries), id) is Some ==> exists|k: int|
                0 <= k < entries.len() && (#[trigger] entries[k]).sha == id,
    decreases entries.len(),
{
    if entries.len() > 0 {
        let rest = entries.drop_last();
        let last = entries.last();
        let earlier = entry_messages(rest);
        assert forall|k: int, l: int|
            0 <= k < rest.len() && 0 <= l < rest.len() && (#[trigger] rest[k]).sha
                == (#[trigger] rest[l]).sha implies rest[k].summary == rest[l].summary by {
            assert(entries[k] == rest[k] && entries[l] == rest[l]);
        }
        lemma_entry_messages(rest);
        let all = entry_messages(entries);
        if let Some(summary) = last.summary {
            assert forall|id: Seq<u8>| true implies #[trigger] message_for(
                earlier.push((last.sha, summary)),
                id,
            ) == (match message_for(earlier, id) {
                Some(m) => Some(m),
                None => if last.sha == id {
                    Some(summary)
                } else {
                    None
                },
            }) by {
                lemma_message_for_push(earlier, (last.sha, summary), id);
            }
        }
        assert forall|k: int| 0 <= k < entries.len() implies message_for(
            all,
            (#[trigger] entries[k]).sha,
        ) == entries[k].summary by {
            if k < rest.len() {
                assert(rest[k] == entries[k]);
                assert(message_for(earlier, rest[k].sha) == rest[k].summary);
                if entries[k].sha == last.sha {
                    assert(entries[entries.len() - 1].sha == entries[k].sha);
                }
            } else {
                if message_for(earlier, last.sha) is Some {
                    let q = choose|q: int| 0 <= q < rest.len() && (#[trigger] rest[q]).sha == last.sha;
                    assert(entries[q] == rest[q]);
                    assert(entries[entries.len() - 1].sha == entries[q].sha);
                }
            }
        }
        assert forall|id: Seq<u8>| #[trigger] message_for(all, id) is Some implies exists|k: int|
            0 <= k < entries.len() && (#[trigger] entries[k]).sha == id by {
            if message_for(earlier, id) is Some {
                let q = choose|q: int| 0 <= q < rest.len() && (#[trigger] rest[q]).sha == id;
                assert(entries[q].sha == id);
            } else {
                assert(entries[entries.len() - 1].sha == id);
            }
        }
    }
}

/// The message for an entry's id is the summary that is known of its change.
pub proof fn blame_messages_are_summaries(
    rows: Seq<Option<AnnotatedLineView>>,
    descriptions: Map<u32, ChangeMetaView>,
    filename: Seq<char>,
    row: int,
)
    requires
        0 <= row < rows.len() <= u32::MAX,
        rows[row] is Some,
    ensures
        message_for(
            blame_of(rows, descriptions, filename).messages,
            oid::change_bytes((rows[row]->0).change),
        ) == known_summary(descriptions, (rows[row]->0).change),
{
    lemma_blame_entries(rows, descriptions, filename, 0);
    let entries = blame_entries(rows, descriptions, filename, 0);
    assert forall|k: int, l: int|
        0 <= k < entries.len() && 0 <= l < entries.len() && (#[trigger] entries[k]).sha
            == (#[trigger] entries[l]).sha implies entries[k].summary == entries[l].summary by {
        let a = rows[entries[k].start as int];
        let b = rows[entries[l].start as int];
        assert(a is Some && b is Some);
        oid::changes_have_their_own_ids((a->0).change, (b->0).change);
    }
    lemma_entry_messages(entries);
    let k = choose|k: int|
        0 <= k < entries.len() && (#[trigger] entries[k]).start <= row < entries[k].end;
    assert(entries[k].sha == oid::change_bytes((rows[row]->0).change));
}

/// An unedited buffer keeps the attribution of every line.
pub proof fn clean_buffer_keeps_attribution(depot: Seq<AnnotatedLineView>, content: Seq<char>)
    requires
        depot.len() <= usize::MAX,
    ensures
        remapped(depot, content, content) == attributed(depot),
{
    if comparable_lines(content).len() == depot.len() {
        lcs::unchanged_text_matches_itself(comparable_lines(content));
        assert(remapped(depot, content, content) =~= attributed(depot));
    }
}

/// Each line of the buffer has an answer, and each that is attributed is
/// attributed as an equal line of the depot's text is.
pub proof fn remapped_lines_are_equal(
    depot: Seq<AnnotatedLineView>,
    depot_text: Seq<char>,
    content: Seq<char>,
)
    requires
        comparable_lines(depot_text).len() == depot.len() <= usize::MAX,
    ensures
        remapped(depot, depot_text, content).len() == comparable_lines(content).len(),
        forall|k: int|
            0 <= k < comparable_lines(content).len() ==> ((#[trigger] remapped(
                depot,
                depot_text,
                content,
            )[k]) matches Some(line) ==> exists|d: int|
                0 <= d < depot.len() && depot[d] == line && (#[trigger] comparable_lines(
                    depot_text,
                )[d]) == comparable_lines(content)[k]),
{
    let a = comparable_lines(depot_text);
    let b = comparable_lines(content);
    lcs::matches_are_a_common_subsequence(a, b);
    let m = lcs::line_matches(a, b);
    let r = remapped(depot, depot_text, content);
    assert forall|k: int| 0 <= k < b.len() implies ((#[trigger] r[k]) matches Some(line) ==> exists|
        d: int,
    |
        0 <= d < depot.len() && depot[d] == line && (#[trigger] a[d]) == b[k]) by {
        if let Some(d) = m[k] {
            assert(a[d as int] == b[k]);
        }
    }
}

/// A text without one newline at its end.
pub open spec fn without_last_newline(s: Seq<char>) -> Seq<char> {
    if s.len() > 0 && s.last() == '\n' {
        s.drop_last()
    } else {
        s
    }
}

/// The lines of a text as they stand: what is between its newlines, of which one
/// at the end makes no line. The empty text has none.
pub open spec fn raw_lines(s: Seq<char>) -> Seq<Seq<char>> {
    if s.len() == 0 {
        Seq::empty()
    } else {
        text::pieces(without_last_newline(s), '\n')
    }
}

/// Whether two lines have the same characters but for carriage returns at their
/// ends.
pub open spec fn same_but_for_returns(a: Seq<char>, b: Seq<char>) -> bool {
    exists|n: int|
        0 <= n <= a.len() && n <= b.len() && #[trigger] a.take(n) == b.take(n) && (forall|i: int|
            n <= i < a.len() ==> #[trigger] a[i] == '\r') && (forall|i: int|
            n <= i < b.len() ==> #[trigger] b[i] == '\r')
}

/// A line for comparison is the line as it stands but for carriage returns at its
/// end, and there is one for each line.
pub proof fn comparable_lines_keep_the_characters(s: Seq<char>)
    ensures
        comparable_lines(s).len() == raw_lines(s).len(),
        forall|k: int|
            0 <= k < raw_lines(s).len() ==> #[trigger] raw_lines(s)[k] == comparable_lines(s)[k]
                + text::repeated(
                '\r',
                (raw_lines(s)[k].len() - comparable_lines(s)[k].len()) as nat,
            ) && comparable_lines(s)[k].len() <= raw_lines(s)[k].len(),
{
    let raw = raw_lines(s);
    let lines = comparable_lines(s);
    assert forall|k: int| 0 <= k < raw.len() implies #[trigger] raw[k] == lines[k]
        + text::repeated('\r', (raw[k].len() - lines[k].len()) as nat) && lines[k].len()
        <= raw[k].len() by {
        text::only_trailing_characters_are_dropped(raw[k], '\r');
        assert(lines[k] == text::without_trailing(raw[k], '\r'));
    }
}

/// The lines of a text without carriage returns, with newlines put back between
/// them, are the text without one newline at its end.
pub proof fn comparable_lines_make_up_the_text(s: Seq<char>)
    requires
        !s.contains('\r'),
    ensures
        text::joined(comparable_lines(s), seq!['\n']) == without_last_newline(s),
        s.len() > 0 ==> comparable_lines(s).len() > 0,
        forall|k: int|
            0 <= k < comparable_lines(s).len() ==> !(#[trigger] comparable_lines(s)[k]).contains(
                '\n',
            ),
{
    if s.len() > 0 {
        let whole = without_last_newline(s);
        let raw = raw_lines(s);
        let lines = comparable_lines(s);
        text::pieces_make_up_the_text(whole, '\n');
        comparable_lines_keep_the_characters(s);
        assert forall|k: int| 0 <= k < raw.len() implies lines[k] == #[trigger] raw[k] by {
            if lines[k].len() < raw[k].len() {
                assert(raw[k][raw[k].len() - 1] == '\r');
                lemma_piece_characters(whole, '\n', k, raw[k].len() - 1);
                let i = choose|i: int| 0 <= i < whole.len() && whole[i] == '\r';
                assert(s[i] == '\r');
            }
            assert(lines[k] =~= raw[k]);
        }
        assert(lines =~= raw);
    }
}

/// The characters of a text's pieces are characters of the text.
proof fn lemma_piece_characters(s: Seq<char>, c: char, k: int, i: int)
    requires
        0 <= k < text::pieces(s, c).len(),
        0 <= i < text::pieces(s, c)[k].len(),
    ensures
        s.contains(text::pieces(s, c)[k][i]),
    decreases s.len(),
{
    let at = text::char_index(s, c);
    text::lemma_char_index(s, c);
    if at < s.len() {
        let rest = s.skip(at + 1);
        if k > 0 {
            lemma_piece_characters(rest, c, k - 1, i);
            let x = text::pieces(s, c)[k][i];
            assert(text::pieces(s, c)[k] == text::pieces(rest, c)[k - 1]);
            let j = choose|j: int| 0 <= j < rest.len() && rest[j] == x;
            assert(s[j + at + 1] == x);
        } else {
            assert(text::pieces(s, c)[0][i] == s[i]);
        }
    }
}

/// A line of the buffer that is attributed has exactly the characters of the
/// depot line that it is attributed as, but for carriage returns at the end of
/// the line: a line whose spacing was changed is an edited line. Every line of the
/// buffer has an answer.
pub proof fn attributed_lines_have_the_same_characters(
    depot: Seq<AnnotatedLineView>,
    depot_text: Seq<char>,
    content: Seq<char>,
)
    requires
        raw_lines(depot_text).len() == depot.len() <= usize::MAX,
    ensures
        remapped(depot, depot_text, content).len() == raw_lines(content).len(),
        forall|k: int|
            0 <= k < raw_lines(content).len() ==> ((#[trigger] remapped(
                depot,
                depot_text,
                content,
            )[k]) matches Some(line) ==> exists|d: int|
                0 <= d < depot.len() && depot[d] == line && same_but_for_returns(
                    #[trigger] raw_lines(depot_text)[d],
                    raw_lines(content)[k],
                )),
{
    comparable_lines_keep_the_characters(depot_text);
    comparable_lines_keep_the_characters(content);
    remapped_lines_are_equal(depot, depot_text, content);
    let r = remapped(depot, depot_text, content);
    let a = comparable_lines(depot_text);
    let b = comparable_lines(content);
    let x = raw_lines(depot_text);
    let y = raw_lines(content);
    assert forall|k: int| 0 <= k < y.len() implies ((#[trigger] r[k]) matches Some(line) ==> exists|
        d: int,
    |
        0 <= d < depot.len() && depot[d] == line && same_but_for_returns(#[trigger] x[d], y[k])) by {
        if let Some(line) = r[k] {
            let d = choose|d: int|
                0 <= d < depot.len() && depot[d] == line && (#[trigger] a[d]) == b[k];
            let n = a[d].len() as int;
            assert(x[d] == a[d] + text::repeated('\r', (x[d].len() - a[d].len()) as nat));
            assert(y[k] == b[k] + text::repeated('\r', (y[k].len() - b[k].len()) as nat));
            assert(x[d].take(n) =~= a[d]);
            assert(y[k].take(n) =~= b[k]);
            assert(same_but_for_returns(x[d], y[k]));
        }
    }
}

/// The lines that a buffer starts with as the depot's text does keep their own
/// attributions, whatever comes after them.
pub proof fn unedited_start_keeps_attribution(
    depot: Seq<AnnotatedLineView>,
    depot_text: Seq<char>,
    content: Seq<char>,
    n: int,
)
    requires
        raw_lines(depot_text).len() == depot.len() <= usize::MAX,
        0 <= n <= depot.len(),
        n <= raw_lines(content).len(),
        forall|k: int| 0 <= k < n ==> #[trigger] raw_lines(depot_text)[k] == raw_lines(content)[k],
    ensures
        forall|k: int|
            0 <= k < n ==> #[trigger] remapped(depot, depot_text, content)[k] == Some(depot[k]),
{
    let a = comparable_lines(depot_text);
    let b = comparable_lines(content);
    let r = remapped(depot, depot_text, content);
    comparable_lines_keep_the_characters(depot_text);
    comparable_lines_keep_the_characters(content);
    assert forall|k: int| 0 <= k < n implies #[trigger] a[k] == b[k] by {
        assert(raw_lines(depot_text)[k] == raw_lines(content)[k]);
        assert(a[k] == text::without_trailing(raw_lines(depot_text)[k], '\r'));
        assert(b[k] == text::without_trailing(raw_lines(content)[k], '\r'));
    }
    lcs::matches_are_a_common_subsequence(a, b);
    lcs::common_start_matches_itself(a, b, n);
    assert forall|k: int| 0 <= k < n implies #[trigger] r[k] == Some(depot[k]) by {
        assert(lcs::line_matches(a, b)[k] == Some(k as usize));
    }
}

/// As many lines of the buffer are attributed as the two texts have in common: a
/// line stays without attribution only where attributing it would cost another.
pub proof fn as_many_lines_are_attributed_as_can(
    depot: Seq<AnnotatedLineView>,
    depot_text: Seq<char>,
    content: Seq<char>,
    p: Seq<int>,
    q: Seq<int>,
)
    requires
        raw_lines(depot_text).len() == depot.len() <= usize::MAX,
        lcs::is_common_subsequence(raw_lines(depot_text), raw_lines(content), p, q, 0, 0),
    ensures
        p.len() <= attributed_count(remapped(depot, depot_text, content)),
{
    let a = comparable_lines(depot_text);
    let b = comparable_lines(content);
    let m = lcs::line_matches(a, b);
    comparable_lines_keep_the_characters(depot_text);
    comparable_lines_keep_the_characters(content);
    assert forall|t: int| 0 <= t < p.len() implies 0 <= #[trigger] p[t] < a.len() && 0 <= q[t]
        < b.len() && a[p[t]] == b[q[t]] by {
        assert(raw_lines(depot_text)[p[t]] == raw_lines(content)[q[t]]);
        assert(a[p[t]] == text::without_trailing(raw_lines(depot_text)[p[t]], '\r'));
        assert(b[q[t]] == text::without_trailing(raw_lines(content)[q[t]], '\r'));
    }
    lcs::matches_are_a_common_subsequence(a, b);
    lcs::as_many_lines_match_as_can(a, b, p, q);
    let r = remapped(depot, depot_text, content);
    assert forall|k: int| 0 <= k < m.len() implies (#[trigger] r[k] is Some) == (m[k] is Some) by {}
    lemma_same_count(m, r);
}

/// How many rows are attributed.
pub open spec fn attributed_count(rows: Seq<Option<AnnotatedLineView>>) -> nat
    decreases rows.len(),
{
    if rows.len() == 0 {
        0
    } else if rows[0] is Some {
        1 + attributed_count(rows.skip(1))
    } else {
        attributed_count(rows.skip(1))
    }
}

/// Rows that are attributed where lines match are as many.
proof fn lemma_same_count(m: Seq<Option<usize>>, rows: Seq<Option<AnnotatedLineView>>)
    requires
        m.len() == rows.len(),
        forall|k: int| 0 <= k < m.len() ==> (#[trigger] rows[k] is Some) == (m[k] is Some),
    ensures
        lcs::matched(m) == attributed_count(rows),
    decreases m.len(),
{
    if m.len() > 0 {
        assert forall|k: int| 0 <= k < m.skip(1).len() implies (#[trigger] rows.skip(1)[k] is Some)
            == (m.skip(1)[k] is Some) by {
            assert(rows[k + 1] is Some == m[k + 1] is Some);
        }
        lemma_same_count(m.skip(1), rows.skip(1));
        assert((rows[0] is Some) == (m[0] is Some));
    }
}

/// Where the depot's text has another number of lines than there are
/// attributions, each attribution stands for its own row.
pub proof fn unaligned_attributions_stand(
    depot: Seq<AnnotatedLineView>,
    depot_text: Seq<char>,
    content: Seq<char>,
)
    requires
        raw_lines(depot_text).len() != depot.len(),
    ensures
        remapped(depot, depot_text, content).len() == depot.len(),
        forall|k: int|
            0 <= k < depot.len() ==> #[trigger] remapped(depot, depot_text, content)[k] == Some(
                depot[k],
            ),
{
    comparable_lines_keep_the_characters(depot_text);
}

/// The line that `p4 annotate` prints for an attribution.
pub open spec fn written_annotation(change: u32, user: Seq<char>, time: Seq<char>) -> Seq<char> {
    decimal::digits(change as nat) + seq!['|'] + user + seq!['|'] + time
}

/// The change, the user and the time are read back from the line that
/// `p4 annotate` prints. An empty user is none.
pub proof fn written_annotation_reads_back(change: u32, user: Seq<char>, time: Seq<char>)
    requires
        !user.contains('|'),
    ensures
        annotated_line(written_annotation(change, user, time)) == Some(
            (AnnotatedLineView {
                change,
                user: if user.len() > 0 {
                    Some(user)
                } else {
                    None
                },
                time: history::datetime_i64(time),
            }),
        ),
{
    let d = decimal::digits(change as nat);
    let line = written_annotation(change, user, time);
    decimal::digits_read_back(change as nat);
    decimal::unsigned_reads_back(change as nat, u32::MAX as nat);
    let n = d.len() as int;
    assert forall|j: int| 0 <= j < n implies #[trigger] line[j] != '|' by {
        assert(line[j] == d[j]);
        assert(decimal::is_digit(d[j]));
    }
    text::lemma_char_index_is(line, '|', n);
    assert(line.take(n) =~= d);
    assert(decimal::is_digit(d[0]) && decimal::is_digit(d[n - 1]));
    text::firm_text_is_not_trimmed(d);
    let rest = line.skip(n + 1);
    assert(rest =~= user + seq!['|'] + time);
    let k = user.len() as int;
    assert forall|j: int| 0 <= j < k implies #[trigger] rest[j] != '|' by {
        assert(rest[j] == user[j]);
        assert(user.contains(user[j]));
    }
    text::lemma_char_index_is(rest, '|', k);
    assert(rest.take(k) =~= user);
    assert(rest.skip(k + 1) =~= time);
}

/// A line that starts with no number, such as that of the file's header, holds no
/// attribution.
pub proof fn lines_without_a_number_are_dropped(line: Seq<char>)
    requires
        line.len() == 0 || !(decimal::is_digit(line[0]) || line[0] == '+' || text::is_whitespace(
            line[0],
        )),
    ensures
        annotated_line(line) is None,
{
    let i = text::char_index(line, '|');
    text::lemma_char_index(line, '|');
    let head = line.take(i);
    if head.len() > 0 {
        let t = text::trimmed(head);
        assert(text::trimmed_start(head) == head);
        lemma_trimmed_end_keeps_the_first(head);
        assert(t[0] == line[0]);
        assert(!decimal::is_digit(t[0]));
    } else {
        assert(text::trimmed(head).len() == 0);
    }
}

/// Trimming the end of a text that starts with something else leaves its start.
proof fn lemma_trimmed_end_keeps_the_first(s: Seq<char>)
    requires
        s.len() > 0,
        !text::is_whitespace(s[0]),
    ensures
        text::trimmed_end(s).len() > 0,
        text::trimmed_end(s)[0] == s[0],
    decreases s.len(),
{
    if text::is_whitespace(s.last()) {
        lemma_trimmed_end_keeps_the_first(s.drop_last());
    }
}

/// Each line of annotate output gives its attribution, in order; lines without
/// one are left out.
pub proof fn annotations_come_in_order(lines: Seq<Seq<char>>)
    requires
        forall|i: int|
            0 <= i < lines.len() ==> text::is_one_line(#[trigger] lines[i]) && annotated_line(
                lines[i],
            ) is Some,
    ensures
        annotated_lines(text::written_lines(lines, seq!['\n'])).len() == lines.len(),
        forall|i: int|
            0 <= i < lines.len() ==> annotated_line(#[trigger] lines[i]) == Some(
                annotated_lines(text::written_lines(lines, seq!['\n']))[i],
            ),
{
    let f = annotation_of();
    text::written_lines_read_back(lines);
    assert forall|i: int| 0 <= i < lines.len() implies f(#[trigger] lines[i]) is Some by {
        assert(annotated_line(lines[i]) is Some);
    }
    seqs::filter_mapped_keeps_all(lines, f);
    assert forall|i: int| 0 <= i < lines.len() implies annotated_line(#[trigger] lines[i]) == Some(
        annotated_lines(text::written_lines(lines, seq!['\n']))[i],
    ) by {
        assert(f(lines[i]) == Some(seqs::filter_mapped(lines, f)[i]));
    }
}

/// Every entry says what the first row of its run says: the user and the time, as
/// author and as committer, in UTC; the row as its line; and the change by its
/// number behind an at sign. It names the file.
pub proof fn entries_say_what_their_rows_say(
    rows: Seq<Option<AnnotatedLineView>>,
    descriptions: Map<u32, ChangeMetaView>,
    filename: Seq<char>,
    k: int,
)
    requires
        rows.len() <= u32::MAX,
        0 <= k < blame_of(rows, descriptions, filename).entries.len(),
    ensures
        ({
            let e = blame_of(rows, descriptions, filename).entries[k];
            &&& e.start < rows.len()
            &&& rows[e.start as int] matches Some(line) && {
                &&& e.author == line.user
                &&& e.committer_name == line.user
                &&& e.author_time == line.time
                &&& e.committer_time == line.time
                &&& line.time is Some ==> e.author_tz == Some("+0000"@) && e.committer_tz == Some(
                    "+0000"@,
                )
                &&& line.time is None ==> e.author_tz is None && e.committer_tz is None
                &&& e.original_line_number as int == e.start + 1
                &&& e.filename == filename
                &&& e.revision_label matches Some(label) && label.len() > 1 && label[0] == '@'
                    && decimal::unsigned_value(label.skip(1), u32::MAX as nat) == Some(
                    line.change as nat,
                )
                &&& e.author_mail is None && e.committer_email is None && e.previous is None
                &&& descriptions.contains_key(line.change) ==> e.summary
                    == descriptions[line.change].summary
                &&& !descriptions.contains_key(line.change) ==> e.summary is None
            }
        }),
{
    lemma_entry_rows(rows, descriptions, filename, 0, k);
    let e = blame_of(rows, descriptions, filename).entries[k];
    let line = rows[e.start as int]->0;
    reveal_strlit("@");
    let d = decimal::digits(line.change as nat);
    decimal::digits_read_back(line.change as nat);
    decimal::unsigned_reads_back(line.change as nat, u32::MAX as nat);
    assert(("@"@ + d).skip(1) =~= d);
}

/// Every entry is that of the row that it starts with.
proof fn lemma_entry_rows(
    rows: Seq<Option<AnnotatedLineView>>,
    descriptions: Map<u32, ChangeMetaView>,
    filename: Seq<char>,
    i: int,
    k: int,
)
    requires
        0 <= i <= rows.len() <= u32::MAX,
        0 <= k < blame_entries(rows, descriptions, filename, i).len(),
    ensures
        ({
            let e = blame_entries(rows, descriptions, filename, i)[k];
            &&& e.start < rows.len()
            &&& rows[e.start as int] matches Some(line) && e == blame_entry(
                line,
                e.start as int,
                e.end as int,
                descriptions,
                filename,
            )
        }),
    decreases rows.len() - i,
{
    if i < rows.len() {
        match rows[i] {
            None => {
                lemma_entry_rows(rows, descriptions, filename, i + 1, k);
            },
            Some(line) => {
                let end = run_end(rows, line.change, i + 1);
                lemma_run_end(rows, line.change, i + 1);
                if k > 0 {
                    lemma_entry_rows(rows, descriptions, filename, end, k - 1);
                    assert(blame_entries(rows, descriptions, filename, i)[k] == blame_entries(
                        rows,
                        descriptions,
                        filename,
                        end,
                    )[k - 1]);
                }
            },
        }
    }
}

} // verus!
