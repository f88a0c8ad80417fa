//! The pending changelists that `p4 changes` reports.

use crate::decimal;
use crate::perforce::ztag;
use crate::perforce::ztag::split_field;
use crate::text;
use vstd::prelude::*;

verus! {

/// A pending changelist as `p4 changes` reports it.
#[derive(Debug)]
pub struct PendingChange {
    pub number: u32,
    pub description: String,
    /// The changelist has shelved files to fetch.
    pub has_shelved: bool,
}

/// What a [`PendingChange`] says.
#[verifier::ext_equal]
pub struct PendingChangeView {
    pub number: u32,
    pub description: Seq<char>,
    pub has_shelved: bool,
}

impl View for PendingChange {
    type V = PendingChangeView;

    open spec fn view(&self) -> PendingChangeView {
        PendingChangeView {
            number: self.number,
            description: self.description@,
            has_shelved: self.has_shelved,
        }
    }
}

/// What has been read of the changelist whose lines are being read.
#[verifier::ext_equal]
pub struct PendingRecord {
    pub change: Option<u32>,
    pub description: Seq<char>,
    pub has_shelved: bool,
    /// Whether a line that is no field goes on with the description.
    pub in_description: bool,
}

/// A `change` line's number.
pub open spec fn number_field(value: Seq<char>) -> Option<u32> {
    match decimal::unsigned_value(value, u32::MAX as nat) {
        Some(n) => Some(n as u32),
        None => None,
    }
}

/// Nothing has been read but, maybe, the `change` line.
pub open spec fn fresh_record(change: Option<u32>) -> PendingRecord {
    PendingRecord {
        change,
        description: Seq::empty(),
        has_shelved: false,
        in_description: false,
    }
}

/// Whether a line is a `change` field, which starts a changelist.
pub open spec fn starts_change(line: Seq<char>) -> bool {
    ztag::tagged_field(line) matches Some(field) && field.0 == "change"@
}

/// What has been read after one more line.
pub open spec fn record_after(record: PendingRecord, line: Seq<char>) -> PendingRecord {
    match ztag::tagged_field(line) {
        Some((key, value)) => if key == "change"@ {
            fresh_record(number_field(value))
        } else if key == "shelved"@ {
            PendingRecord { has_shelved: true, in_description: false, ..record }
        } else if key == "desc"@ {
            PendingRecord {
                description: record.description + value,
                in_description: true,
                ..record
            }
        } else {
            PendingRecord { in_description: false, ..record }
        },
        None => if record.in_description {
            PendingRecord { description: record.description.push('\n') + line, ..record }
        } else {
            record
        },
    }
}

/// The changelist that has been read, if its number could be.
pub open spec fn finished_record(record: PendingRecord) -> Seq<PendingChangeView> {
    match record.change {
        Some(number) => seq![
            PendingChangeView {
                number,
                description: text::trimmed(record.description),
                has_shelved: record.has_shelved,
            },
        ],
        None => Seq::empty(),
    }
}

/// The changelists that the lines hold, after what has been read. Each
/// `change` line starts one; its description runs over every line that is no
/// field, empty lines included, until the next field.
pub open spec fn changes_after(record: PendingRecord, lines: Seq<Seq<char>>) -> Seq<
    PendingChangeView,
>
    decreases lines.len(),
{
    if lines.len() == 0 {
        finished_record(record)
    } else {
        let line = text::without_trailing(lines[0], '\r');
        let rest = changes_after(record_after(record, line), lines.skip(1));
        if starts_change(line) {
            finished_record(record) + rest
        } else {
            rest
        }
    }
}

/// The changelists of `p4 -ztag changes` output.
pub open spec fn pending_changes(output: Seq<char>) -> Seq<PendingChangeView> {
    changes_after(fresh_record(None), text::lines_of(output))
}

/// Adds the changelist that has been read, if its number could be.
fn push_finished(
    out: &mut Vec<PendingChange>,
    change: Option<u32>,
    description: &String,
    has_shelved: bool,
    Ghost(record): Ghost<PendingRecord>,
)
    requires
        record.change == change,
        record.description == description@,
        record.has_shelved == has_shelved,
    ensures
        text::views(final(out)@) == text::views(old(out)@) + finished_record(record),
{
    if let Some(number) = change {
        let chars = text::to_chars(description.as_str());
        let trimmed = text::from_chars(text::trim(chars.as_slice()));
        out.push(PendingChange { number, description: trimmed, has_shelved });
    }
    assert(text::views(out@) =~= text::views(old(out)@) + finished_record(record));
}

/// Parses `p4 -ztag changes -s pending -l`. A description has many lines,
/// empty ones among them, so an empty line ends no record here.
pub fn parse_pending_changes(output: &str) -> (r: Vec<PendingChange>)
    ensures
        text::views(r@) == pending_changes(output@),
{
    let chars = text::to_chars(output);
    let lines = text::split_lines(chars.as_slice());
    let ghost all = text::views(lines@);
    let mut out: Vec<PendingChange> = Vec::new();
    let mut change: Option<u32> = None;
    let mut description = String::new();
    let mut has_shelved = false;
    let mut in_description = false;
    let ghost mut record = fresh_record(None);
    let mut i: usize = 0;
    assert(all.skip(0) =~= all);
    assert(text::views(out@) + pending_changes(output@) =~= pending_changes(output@));
    while i < lines.len()
        invariant
            i <= lines.len(),
            all == text::views(lines@),
            record == (PendingRecord {
                change,
                description: description@,
                has_shelved,
                in_description,
            }),
            text::views(out@) + changes_after(record, all.skip(i as int)) == pending_changes(
                output@,
            ),
        decreases lines.len() - i,
    {
        let line = text::trim_end_char(lines[i], '\r');
        let ghost before = text::views(out@);
        let ghost next = record_after(record, line@);
        assert(all.skip(i as int)[0] == lines@[i as int]@);
        assert(all.skip(i as int).skip(1) =~= all.skip(i + 1));
        match split_field(line) {
            Some((key, value)) => {
                if text::is_text(key, "change") {
                    push_finished(&mut out, change, &description, has_shelved, Ghost(record));
                    change = decimal::parse_u32(value);
                    description = String::new();
                    has_shelved = false;
                    in_description = false;
                    assert(text::views(out@) + changes_after(next, all.skip(i + 1)) =~= before
                        + changes_after(record, all.skip(i as int)));
                } else if text::is_text(key, "shelved") {
                    has_shelved = true;
                    in_description = false;
                } else if text::is_text(key, "desc") {
                    text::push_chars(&mut description, value);
                    in_description = true;
                } else {
                    in_description = false;
                }
            },
            None => {
                if in_description {
                    description.push('\n');
                    text::push_chars(&mut description, line);
                }
            },
        }
        proof {
            record = next;
        }
        assert(record =~= (PendingRecord {
            change,
            description: description@,
            has_shelved,
            in_description,
        }));
        i = i + 1;
    }
    assert(all.skip(i as int).len() == 0);
    push_finished(&mut out, change, &description, has_shelved, Ghost(record));
    out
}

/// Lines that are no fields all go into the description.
proof fn lemma_description_lines(record: PendingRecord, lines: Seq<Seq<char>>)
    requires
        record.in_description,
        forall|i: int|
            0 <= i < lines.len() ==> ztag::tagged_field(#[trigger] lines[i]) is None
                && text::without_trailing(lines[i], '\r') == lines[i],
    ensures
        changes_after(record, lines) == finished_record(
            PendingRecord {
                description: text::joined(seq![record.description] + lines, seq!['\n']),
                ..record
            },
        ),
    decreases lines.len(),
{
    let parts = seq![record.description] + lines;
    if lines.len() == 0 {
        assert(parts =~= seq![record.description]);
    } else {
        let next = record_after(record, lines[0]);
        let rest = lines.skip(1);
        assert forall|i: int| 0 <= i < rest.len() implies ztag::tagged_field(
            #[trigger] rest[i],
        ) is None && text::without_trailing(rest[i], '\r') == rest[i] by {
            assert(rest[i] == lines[i + 1]);
        }
        lemma_description_lines(next, rest);
        lemma_joined_merges_first(record.description, lines, seq!['\n']);
        assert(record.description.push('\n') + lines[0] =~= record.description + seq!['\n']
            + lines[0]);
    }
}

/// Joining the first two parts beforehand changes nothing.
proof fn lemma_joined_merges_first(first: Seq<char>, lines: Seq<Seq<char>>, separator: Seq<char>)
    requires
        lines.len() > 0,
    ensures
        text::joined(seq![first] + lines, separator) == text::joined(
            seq![first + separator + lines[0]] + lines.skip(1),
            separator,
        ),
    decreases lines.len(),
{
    let a = seq![first] + lines;
    let b = seq![first + separator + lines[0]] + lines.skip(1);
    if lines.len() == 1 {
        assert(a.drop_last() =~= seq![first]);
        assert(text::joined(seq![first], separator) == first);
        assert(b =~= seq![first + separator + lines[0]]);
    } else {
        lemma_joined_merges_first(first, lines.drop_last(), separator);
        assert(a.drop_last() =~= seq![first] + lines.drop_last());
        assert(b.drop_last() =~= seq![first + separator + lines[0]] + lines.drop_last().skip(1));
        assert(a.last() == lines.last());
        assert(b.last() == lines.last());
    }
}

/// A changelist's description comes back whole: every line of it, empty ones
/// included, up to whitespace around the whole.
pub proof fn description_keeps_every_line(number: u32, description: Seq<Seq<char>>)
    requires
        description.len() > 0,
        text::without_trailing("... desc "@ + description[0], '\r') == "... desc "@ + description[0],
        forall|i: int|
            1 <= i < description.len() ==> ztag::tagged_field(#[trigger] description[i]) is None
                && text::without_trailing(description[i], '\r') == description[i],
    ensures
        changes_after(
            fresh_record(Some(number)),
            seq!["... desc "@ + description[0]] + description.skip(1),
        ) == seq![
            PendingChangeView {
                number,
                description: text::trimmed(text::joined(description, seq!['\n'])),
                has_shelved: false,
            },
        ],
{
    let lines = seq!["... desc "@ + description[0]] + description.skip(1);
    reveal_strlit("... desc ");
    reveal_strlit("... ");
    reveal_strlit("desc");
    reveal_strlit(" ");
    reveal_strlit("change");
    reveal_strlit("shelved");
    assert("... desc "@ =~= "... "@ + "desc"@ + " "@);
    assert(!"desc"@.contains(' '));
    ztag::written_field_reads_back("desc"@, description[0]);
    assert("desc"@.len() != "change"@.len());
    assert("desc"@.len() != "shelved"@.len());
    let record = record_after(fresh_record(Some(number)), lines[0]);
    assert(record.description =~= description[0]);
    let rest = description.skip(1);
    assert(lines.skip(1) =~= rest);
    assert forall|i: int| 0 <= i < rest.len() implies ztag::tagged_field(#[trigger] rest[i]) is None
        && text::without_trailing(rest[i], '\r') == rest[i] by {
        assert(rest[i] == description[i + 1]);
    }
    lemma_description_lines(record, rest);
    assert(seq![description[0]] + rest =~= description);
}

/// The lines of a pending changelist as `p4 changes -l` reports it.
pub open spec fn change_lines(number: u32, has_shelved: bool, description: Seq<Seq<char>>) -> Seq<
    Seq<char>,
> {
    seq!["... change "@ + decimal::digits(number as nat)] + (if has_shelved {
        seq!["... shelved"@]
    } else {
        Seq::empty()
    }) + (seq!["... desc "@ + description[0]] + description.skip(1))
}

/// Whether the lines can be those of a description: the first stands behind its
/// key, no other reads like a field, and none ends in a carriage return.
pub open spec fn is_description(description: Seq<Seq<char>>) -> bool {
    &&& description.len() > 0
    &&& forall|i: int|
        0 <= i < description.len() ==> ((#[trigger] description[i]).len() > 0
            ==> description[i].last() != '\r')
    &&& forall|i: int|
        1 <= i < description.len() ==> ztag::tagged_field(#[trigger] description[i]) is None
}

/// Whether the lines are at an end, or go on with another changelist.
pub open spec fn is_at_a_change(lines: Seq<Seq<char>>) -> bool {
    lines.len() > 0 ==> starts_change(lines[0]) && lines[0].last() != '\r'
}

/// What has been read of one changelist is finished when the next starts.
proof fn lemma_next_change(record: PendingRecord, rest: Seq<Seq<char>>)
    requires
        is_at_a_change(rest),
    ensures
        changes_after(record, rest) == finished_record(record) + changes_after(
            fresh_record(None),
            rest,
        ),
{
    let none = Seq::<PendingChangeView>::empty();
    assert(finished_record(fresh_record(None)) == none);
    if rest.len() == 0 {
        assert(finished_record(record) + none =~= finished_record(record));
    } else {
        let line = rest[0];
        assert(text::without_trailing(line, '\r') == line);
        let later = changes_after(record_after(record, line), rest.skip(1));
        assert(record_after(record, line) == record_after(fresh_record(None), line));
        assert(changes_after(fresh_record(None), rest) =~= none + later);
    }
}

/// The lines of a description go into it, up to the next changelist.
proof fn lemma_description_before_a_change(
    record: PendingRecord,
    lines: Seq<Seq<char>>,
    rest: Seq<Seq<char>>,
)
    requires
        record.in_description,
        is_at_a_change(rest),
        forall|i: int|
            0 <= i < lines.len() ==> ztag::tagged_field(#[trigger] lines[i]) is None && (
            lines[i].len() > 0 ==> lines[i].last() != '\r'),
    ensures
        changes_after(record, lines + rest) == finished_record(
            (PendingRecord {
                description: text::joined(seq![record.description] + lines, seq!['\n']),
                ..record
            }),
        ) + changes_after(fresh_record(None), rest),
    decreases lines.len(),
{
    if lines.len() == 0 {
        assert(lines + rest =~= rest);
        assert(seq![record.description] + lines =~= seq![record.description]);
        assert(text::joined(seq![record.description], seq!['\n']) == record.description);
        lemma_next_change(record, rest);
    } else {
        let whole = lines + rest;
        let line = lines[0];
        assert(whole[0] == line);
        assert(text::without_trailing(line, '\r') == line);
        assert(ztag::tagged_field(line) is None);
        assert(whole.skip(1) =~= lines.skip(1) + rest);
        let next = PendingRecord { description: record.description.push('\n') + line, ..record };
        assert(record_after(record, line) == next);
        assert forall|i: int| 0 <= i < lines.skip(1).len() implies ztag::tagged_field(
            #[trigger] lines.skip(1)[i],
        ) is None && (lines.skip(1)[i].len() > 0 ==> lines.skip(1)[i].last() != '\r') by {
            assert(lines.skip(1)[i] == lines[i + 1]);
        }
        lemma_description_before_a_change(next, lines.skip(1), rest);
        lemma_joined_merges_first(record.description, lines, seq!['\n']);
        assert(record.description + seq!['\n'] + line =~= next.description);
    }
}

/// Changelists are read one by one: the lines of one give its number, its whole
/// description, line by line and empty lines included, without space around it,
/// and whether it has shelved files; the changelists of the rest come after it.
pub proof fn changes_are_read_one_by_one(
    number: u32,
    has_shelved: bool,
    description: Seq<Seq<char>>,
    rest: Seq<Seq<char>>,
)
    requires
        is_description(description),
        is_at_a_change(rest),
    ensures
        changes_after(fresh_record(None), change_lines(number, has_shelved, description) + rest)
            == seq![
            (PendingChangeView {
                number,
                description: text::trimmed(text::joined(description, seq!['\n'])),
                has_shelved,
            }),
        ] + changes_after(fresh_record(None), rest),
{
    let d = decimal::digits(number as nat);
    reveal_strlit("... change ");
    reveal_strlit("... desc ");
    reveal_strlit("... shelved");
    reveal_strlit("... ");
    reveal_strlit("change");
    reveal_strlit("desc");
    reveal_strlit("shelved");
    reveal_strlit(" ");
    let change_line = "... change "@ + d;
    let desc_line = "... desc "@ + description[0];
    decimal::digits_read_back(number as nat);
    decimal::unsigned_reads_back(number as nat, u32::MAX as nat);
    assert(change_line =~= ztag::written_field("change"@, d));
    assert(desc_line =~= ztag::written_field("desc"@, description[0]));
    assert(!"change"@.contains(' '));
    assert(!"desc"@.contains(' '));
    assert(!"shelved"@.contains(' '));
    ztag::written_field_reads_back("change"@, d);
    ztag::written_field_reads_back("desc"@, description[0]);
    ztag::bare_key_has_the_empty_value("shelved"@);
    assert("... shelved"@ =~= "... "@ + "shelved"@);
    assert("desc"@ != "change"@ && "desc"@ != "shelved"@ && "shelved"@ != "change"@) by {
        assert("desc"@.len() == 4 && "change"@.len() == 6 && "shelved"@.len() == 7);
    }
    let lines = change_lines(number, has_shelved, description) + rest;
    let tail = seq![desc_line] + description.skip(1) + rest;
    let none = Seq::<PendingChangeView>::empty();
    assert(lines[0] == change_line);
    assert(decimal::is_digit(d[d.len() - 1]));
    assert(change_line.last() == d[d.len() - 1]);
    assert(text::without_trailing(change_line, '\r') == change_line);
    let first = fresh_record(Some(number));
    assert(record_after(fresh_record(None), change_line) == first);
    assert(finished_record(fresh_record(None)) == none);
    let flagged = PendingRecord { has_shelved, ..first };
    if has_shelved {
        assert(lines.skip(1) =~= seq!["... shelved"@] + tail);
        assert((seq!["... shelved"@] + tail).skip(1) =~= tail);
        assert("... shelved"@.last() == 'd');
        assert(text::without_trailing("... shelved"@, '\r') == "... shelved"@);
        assert(record_after(first, "... shelved"@) =~= flagged);
        assert(!starts_change("... shelved"@));
        assert(changes_after(first, seq!["... shelved"@] + tail) == changes_after(flagged, tail));
    } else {
        assert(lines.skip(1) =~= tail);
        assert(flagged =~= first);
    }
    assert(changes_after(first, lines.skip(1)) == changes_after(flagged, tail));
    assert(starts_change(change_line));
    assert(changes_after(fresh_record(None), lines) == none + changes_after(first, lines.skip(1)));
    assert(!starts_change(desc_line));
    assert(tail[0] == desc_line);
    assert(tail.skip(1) =~= description.skip(1) + rest);
    assert(desc_line.last() != '\r') by {
        if description[0].len() > 0 {
            assert(desc_line.last() == description[0].last());
        } else {
            assert(desc_line =~= "... desc "@);
        }
    }
    assert(text::without_trailing(desc_line, '\r') == desc_line);
    let described = PendingRecord {
        description: description[0],
        in_description: true,
        ..flagged
    };
    assert(record_after(flagged, desc_line) =~= described) by {
        assert(Seq::<char>::empty() + description[0] =~= description[0]);
    }
    let more = description.skip(1);
    assert forall|i: int| 0 <= i < more.len() implies ztag::tagged_field(#[trigger] more[i]) is None
        && (more[i].len() > 0 ==> more[i].last() != '\r') by {
        assert(more[i] == description[i + 1]);
    }
    lemma_description_before_a_change(described, more, rest);
    assert(seq![description[0]] + more =~= description);
    assert(none + changes_after(flagged, tail) =~= changes_after(flagged, tail));
    assert(changes_after(fresh_record(None), lines) =~= changes_after(flagged, tail));
}

} // verus!
