//! The tagged output of `p4 -ztag`: records of `... key value` lines.

use crate::text;
use crate::text_map::TextMap;
use vstd::prelude::*;
use vstd::slice::slice_subrange;

verus! {

/// The fields of one record: key to value.
pub type Fields = Map<Seq<char>, Seq<char>>;

/// The part of a line up to its first space.
pub open spec fn first_word(line: Seq<char>) -> Seq<char> {
    line.take(text::char_index(line, ' '))
}

/// The part of a line after its first space; empty without a space.
pub open spec fn after_first_word(line: Seq<char>) -> Seq<char> {
    let i = text::char_index(line, ' ');
    if i < line.len() {
        line.skip(i + 1)
    } else {
        Seq::empty()
    }
}

/// The key and value of a `... key value` line. A key with nothing after it
/// has the empty value.
pub open spec fn tagged_field(line: Seq<char>) -> Option<(Seq<char>, Seq<char>)> {
    match text::after_prefix(line, "... "@) {
        Some(rest) => Some((first_word(rest), after_first_word(rest))),
        None => None,
    }
}

/// A record that has fields stands in the list; one without is left out.
pub open spec fn record_if_any(current: Fields) -> Seq<Fields> {
    if current.is_empty() {
        Seq::empty()
    } else {
        seq![current]
    }
}

/// The records that the lines hold, after the fields in `current`: an empty
/// line ends a record, a later value of a key replaces the earlier one, and a
/// line that is no field is passed over.
pub open spec fn records_after(current: Fields, lines: Seq<Seq<char>>) -> Seq<Fields>
    decreases lines.len(),
{
    if lines.len() == 0 {
        record_if_any(current)
    } else {
        let line = text::without_trailing(lines[0], '\r');
        if line.len() == 0 {
            record_if_any(current) + records_after(Map::empty(), lines.skip(1))
        } else {
            match tagged_field(line) {
                Some((key, value)) => if key.len() > 0 {
                    records_after(current.insert(key, value), lines.skip(1))
                } else {
                    records_after(current, lines.skip(1))
                },
                None => records_after(current, lines.skip(1)),
            }
        }
    }
}

/// The records of tagged output.
pub open spec fn records_of(output: Seq<char>) -> Seq<Fields> {
    records_after(Map::empty(), text::lines_of(output))
}

/// The part of a line up to its first space, and the part after it.
pub fn split_word<'a>(line: &'a [char]) -> (r: (&'a [char], &'a [char]))
    ensures
        r.0@ == first_word(line@),
        r.1@ == after_first_word(line@),
{
    let i: usize = text::find_char(line, ' ');
    if i < line.len() {
        (slice_subrange(line, 0, i), slice_subrange(line, i + 1, line.len()))
    } else {
        let rest = slice_subrange(line, i, i);
        assert(rest@ =~= Seq::<char>::empty());
        (slice_subrange(line, 0, i), rest)
    }
}

/// The key and value of a `... key value` line.
pub fn split_field<'a>(line: &'a [char]) -> (r: Option<(&'a [char], &'a [char])>)
    ensures
        match r {
            Some((key, value)) => tagged_field(line@) == Some((key@, value@)),
            None => tagged_field(line@) is None,
        },
{
    match text::strip_prefix(line, "... ") {
        Some(rest) => Some(split_word(rest)),
        None => None,
    }
}

/// Parses the tagged output of `p4 -ztag` or `p4 fstat` into its records.
pub fn parse_ztag(output: &str) -> (r: Vec<TextMap>)
    ensures
        text::views(r@) == records_of(output@),
{
    let chars = text::to_chars(output);
    let lines = text::split_lines(chars.as_slice());
    let ghost all = text::views(lines@);
    let mut records: Vec<TextMap> = Vec::new();
    let mut current = TextMap::new();
    let mut i: usize = 0;
    assert(all.skip(0) =~= all);
    assert(text::views(records@) + records_of(output@) =~= records_of(output@));
    while i < lines.len()
        invariant
            i <= lines.len(),
            all == text::views(lines@),
            text::views(records@) + records_after(current@, all.skip(i as int)) == records_of(
                output@,
            ),
        decreases lines.len() - i,
    {
        let line = text::trim_end_char(lines[i], '\r');
        assert(all.skip(i as int)[0] == lines@[i as int]@);
        assert(all.skip(i as int).skip(1) =~= all.skip(i + 1));
        if line.len() == 0 {
            let ghost before = records@;
            let ghost ended = current@;
            if !current.is_empty() {
                records.push(current);
                current = TextMap::new();
                assert(text::views(records@) =~= text::views(before) + seq![ended]);
            } else {
                assert(current@ =~= Map::<Seq<char>, Seq<char>>::empty());
            }
            assert(text::views(records@) =~= text::views(before) + record_if_any(ended));
            assert(text::views(records@) + records_after(current@, all.skip(i + 1))
                =~= text::views(before) + records_after(ended, all.skip(i as int)));
        } else if let Some((key, value)) = split_field(line) {
            if key.len() > 0 {
                current.insert(text::from_chars(key), text::from_chars(value));
            }
        }
        i = i + 1;
    }
    let ghost before = records@;
    let ghost ended = current@;
    assert(all.skip(i as int).len() == 0);
    if !current.is_empty() {
        records.push(current);
    }
    assert(text::views(records@) =~= text::views(before) + record_if_any(ended));
    records
}

/// The line that gives `key` the value `value`.
pub open spec fn written_field(key: Seq<char>, value: Seq<char>) -> Seq<char> {
    "... "@ + key + " "@ + value
}

/// A `... key value` line is the field that it was written for, where the key
/// is one word.
pub proof fn written_field_reads_back(key: Seq<char>, value: Seq<char>)
    requires
        !key.contains(' '),
    ensures
        tagged_field(written_field(key, value)) == Some((key, value)),
{
    reveal_strlit(" ");
    let line = written_field(key, value);
    let rest = key + " "@ + value;
    assert("... "@.is_prefix_of(line));
    assert(line.skip("... "@.len() as int) =~= rest);
    assert forall|j: int| 0 <= j < key.len() implies #[trigger] rest[j] != ' ' by {
        assert(key.contains(key[j]));
    }
    text::lemma_char_index_is(rest, ' ', key.len() as int);
    assert(rest.take(key.len() as int) =~= key);
    assert(rest.skip(key.len() as int + 1) =~= value);
}

/// The lines that give the keys their values, one after the other.
pub open spec fn written_fields(fields: Seq<(Seq<char>, Seq<char>)>) -> Seq<Seq<char>> {
    Seq::new(fields.len(), |i: int| written_field(fields[i].0, fields[i].1))
}

/// `current` with every key given its value, one after the other.
pub open spec fn with_fields(current: Fields, fields: Seq<(Seq<char>, Seq<char>)>) -> Fields
    decreases fields.len(),
{
    if fields.len() == 0 {
        current
    } else {
        with_fields(current.insert(fields[0].0, fields[0].1), fields.skip(1))
    }
}

/// A record reads back as the fields that it was written for, where every key
/// is one word and no value ends in a carriage return.
pub proof fn written_record_reads_back(current: Fields, fields: Seq<(Seq<char>, Seq<char>)>)
    requires
        forall|i: int|
            0 <= i < fields.len() ==> (#[trigger] fields[i]).0.len() > 0 && !fields[i].0.contains(' ')
                && text::without_trailing(written_field(fields[i].0, fields[i].1), '\r')
                == written_field(fields[i].0, fields[i].1),
    ensures
        records_after(current, written_fields(fields)) == record_if_any(
            with_fields(current, fields),
        ),
    decreases fields.len(),
{
    if fields.len() > 0 {
        let lines = written_fields(fields);
        let (key, value) = fields[0];
        assert(lines[0] == written_field(key, value));
        written_field_reads_back(key, value);
        assert(lines[0].len() > 0);
        let rest = fields.skip(1);
        assert forall|i: int| 0 <= i < rest.len() implies (#[trigger] rest[i]).0.len() > 0
            && !rest[i].0.contains(' ') && text::without_trailing(
            written_field(rest[i].0, rest[i].1),
            '\r',
        ) == written_field(rest[i].0, rest[i].1) by {
            assert(rest[i] == fields[i + 1]);
        }
        assert(lines.skip(1) =~= written_fields(rest));
        written_record_reads_back(current.insert(key, value), rest);
    }
}

/// An empty line separates records: what stands before it and what stands
/// after it are read on their own.
pub proof fn empty_line_separates_records(
    current: Fields,
    before: Seq<Seq<char>>,
    after: Seq<Seq<char>>,
)
    ensures
        records_after(current, before + seq![Seq::<char>::empty()] + after) == records_after(
            current,
            before,
        ) + records_after(Map::empty(), after),
    decreases before.len(),
{
    let lines = before + seq![Seq::<char>::empty()] + after;
    if before.len() == 0 {
        assert(lines.skip(1) =~= after);
    } else {
        assert(lines.skip(1) =~= before.skip(1) + seq![Seq::<char>::empty()] + after);
        let line = text::without_trailing(lines[0], '\r');
        if line.len() == 0 {
            empty_line_separates_records(Map::empty(), before.skip(1), after);
        } else {
            match tagged_field(line) {
                Some((key, value)) => if key.len() > 0 {
                    empty_line_separates_records(
                        current.insert(key, value),
                        before.skip(1),
                        after,
                    );
                } else {
                    empty_line_separates_records(current, before.skip(1), after);
                },
                None => empty_line_separates_records(current, before.skip(1), after),
            }
        }
        assert(records_after(current, lines) =~= records_after(current, before) + records_after(
            Map::empty(),
            after,
        ));
    }
}

/// Every record has finitely many fields, and at least one.
pub proof fn records_are_finite(current: Fields, lines: Seq<Seq<char>>)
    requires
        current.dom().finite(),
    ensures
        forall|i: int|
            0 <= i < records_after(current, lines).len() ==> (#[trigger] records_after(
                current,
                lines,
            )[i]).dom().finite() && !records_after(current, lines)[i].is_empty(),
    decreases lines.len(),
{
    if lines.len() > 0 {
        let line = text::without_trailing(lines[0], '\r');
        if line.len() == 0 {
            records_are_finite(Map::empty(), lines.skip(1));
            let r = records_after(current, lines);
            let head = record_if_any(current);
            let rest = records_after(Map::empty(), lines.skip(1));
            assert forall|i: int| 0 <= i < r.len() implies (#[trigger] r[i]).dom().finite()
                && !r[i].is_empty() by {
                if i >= head.len() {
                    assert(r[i] == rest[i - head.len()]);
                }
            }
        } else {
            let next = match tagged_field(line) {
                Some((key, value)) => if key.len() > 0 {
                    current.insert(key, value)
                } else {
                    current
                },
                None => current,
            };
            records_are_finite(next, lines.skip(1));
            assert(records_after(current, lines) == records_after(next, lines.skip(1)));
        }
    }
}

/// Lines that end where their writing ends, and are not broken: no newline, and
/// no carriage return at the end.
pub open spec fn are_plain_fields(fields: Seq<(Seq<char>, Seq<char>)>) -> bool {
    forall|i: int|
        0 <= i < fields.len() ==> (#[trigger] fields[i]).0.len() > 0 && !fields[i].0.contains(' ')
            && text::is_one_line(written_field(fields[i].0, fields[i].1))
}

/// The output of one record reads back as its fields, whichever way its lines
/// end.
pub proof fn written_output_reads_back(fields: Seq<(Seq<char>, Seq<char>)>)
    requires
        fields.len() > 0,
        are_plain_fields(fields),
    ensures
        records_of(text::written_lines(written_fields(fields), seq!['\n'])) == seq![
            with_fields(Map::empty(), fields),
        ],
        records_of(text::written_lines(written_fields(fields), seq!['\r', '\n'])) == seq![
            with_fields(Map::empty(), fields),
        ],
{
    let lines = written_fields(fields);
    assert forall|i: int| 0 <= i < lines.len() implies text::is_one_line(#[trigger] lines[i]) by {
        assert(text::is_one_line(written_field(fields[i].0, fields[i].1)));
    }
    text::written_lines_read_back(lines);
    assert forall|i: int| 0 <= i < fields.len() implies (#[trigger] fields[i]).0.len() > 0
        && !fields[i].0.contains(' ') && text::without_trailing(
        written_field(fields[i].0, fields[i].1),
        '\r',
    ) == written_field(fields[i].0, fields[i].1) by {
        assert(text::is_one_line(written_field(fields[i].0, fields[i].1)));
    }
    written_record_reads_back(Map::empty(), fields);
    last_value_counts(Map::empty(), fields, fields.len() - 1);
    assert(with_fields(Map::empty(), fields).contains_key(fields[fields.len() - 1].0));
}

/// The outputs of two records with an empty line between them are the two
/// records.
pub proof fn written_records_are_separate(
    first: Seq<(Seq<char>, Seq<char>)>,
    second: Seq<(Seq<char>, Seq<char>)>,
)
    requires
        first.len() > 0,
        second.len() > 0,
        are_plain_fields(first),
        are_plain_fields(second),
    ensures
        records_of(
            text::written_lines(
                written_fields(first) + seq![Seq::<char>::empty()] + written_fields(second),
                seq!['\n'],
            ),
        ) == seq![with_fields(Map::empty(), first), with_fields(Map::empty(), second)],
{
    let lines = written_fields(first) + seq![Seq::<char>::empty()] + written_fields(second);
    assert forall|i: int| 0 <= i < lines.len() implies text::is_one_line(#[trigger] lines[i]) by {
        if i < first.len() {
            assert(text::is_one_line(written_field(first[i].0, first[i].1)));
        } else if i > first.len() {
            let k = i - first.len() - 1;
            assert(lines[i] == written_fields(second)[k]);
            assert(text::is_one_line(written_field(second[k].0, second[k].1)));
        }
    }
    text::written_lines_read_back(lines);
    written_output_reads_back(first);
    written_output_reads_back(second);
    lemma_plain_lines(first);
    lemma_plain_lines(second);
    empty_line_separates_records(Map::empty(), written_fields(first), written_fields(second));
    assert(records_of(text::written_lines(lines, seq!['\n'])) =~= seq![
        with_fields(Map::empty(), first),
        with_fields(Map::empty(), second),
    ]);
}

/// Plain fields are read back from their lines.
proof fn lemma_plain_lines(fields: Seq<(Seq<char>, Seq<char>)>)
    requires
        are_plain_fields(fields),
    ensures
        text::lines_of(text::written_lines(written_fields(fields), seq!['\n'])) == written_fields(
            fields,
        ),
{
    let lines = written_fields(fields);
    assert forall|i: int| 0 <= i < lines.len() implies text::is_one_line(#[trigger] lines[i]) by {
        assert(text::is_one_line(written_field(fields[i].0, fields[i].1)));
    }
    text::written_lines_read_back(lines);
}

/// Every key has the value that was written for it last, and nothing else has a
/// value.
pub proof fn last_value_counts(current: Fields, fields: Seq<(Seq<char>, Seq<char>)>, i: int)
    requires
        0 <= i < fields.len(),
    ensures
        with_fields(current, fields).contains_key(fields[i].0),
        (forall|j: int| i < j < fields.len() ==> (#[trigger] fields[j]).0 != fields[i].0)
            ==> with_fields(current, fields)[fields[i].0] == fields[i].1,
    decreases fields.len(),
{
    let rest = fields.skip(1);
    let next = current.insert(fields[0].0, fields[0].1);
    if i > 0 {
        last_value_counts(next, rest, i - 1);
        assert(rest[i - 1] == fields[i]);
        if forall|j: int| i < j < fields.len() ==> (#[trigger] fields[j]).0 != fields[i].0 {
            assert forall|j: int| i - 1 < j < rest.len() implies (#[trigger] rest[j]).0
                != rest[i - 1].0 by {
                assert(rest[j] == fields[j + 1]);
            }
        }
    } else {
        lemma_untouched_key(next, rest, fields[0].0);
        if forall|j: int| 0 < j < fields.len() ==> (#[trigger] fields[j]).0 != fields[0].0 {
            assert forall|j: int| 0 <= j < rest.len() implies (#[trigger] rest[j]).0
                != fields[0].0 by {
                assert(rest[j] == fields[j + 1]);
            }
        }
    }
}

/// A key stays, and one that is not written keeps its value.
proof fn lemma_untouched_key(
    current: Fields,
    fields: Seq<(Seq<char>, Seq<char>)>,
    key: Seq<char>,
)
    ensures
        current.contains_key(key) ==> with_fields(current, fields).contains_key(key),
        (forall|j: int| 0 <= j < fields.len() ==> (#[trigger] fields[j]).0 != key) ==> (
        with_fields(current, fields).contains_key(key) == current.contains_key(key)
            && with_fields(current, fields)[key] == current[key]),
    decreases fields.len(),
{
    if fields.len() > 0 {
        let rest = fields.skip(1);
        lemma_untouched_key(current.insert(fields[0].0, fields[0].1), rest, key);
        if forall|j: int| 0 <= j < fields.len() ==> (#[trigger] fields[j]).0 != key {
            assert(fields[0].0 != key);
            assert forall|j: int| 0 <= j < rest.len() implies (#[trigger] rest[j]).0 != key by {
                assert(rest[j] == fields[j + 1]);
            }
        }
    }
}

/// A line that is no field, and is not empty, changes nothing.
pub proof fn other_lines_are_passed_over(current: Fields, line: Seq<char>, rest: Seq<Seq<char>>)
    requires
        text::without_trailing(line, '\r').len() > 0,
        !"... "@.is_prefix_of(text::without_trailing(line, '\r')),
    ensures
        records_after(current, seq![line] + rest) == records_after(current, rest),
{
    assert((seq![line] + rest).skip(1) =~= rest);
}

/// A key with nothing after it has the empty value.
pub proof fn bare_key_has_the_empty_value(key: Seq<char>)
    requires
        !key.contains(' '),
    ensures
        tagged_field("... "@ + key) == Some((key, Seq::<char>::empty())),
{
    let line = "... "@ + key;
    assert(line.subrange(0, "... "@.len() as int) =~= "... "@);
    assert(line.skip("... "@.len() as int) =~= key);
    assert forall|j: int| 0 <= j < key.len() implies #[trigger] key[j] != ' ' by {
        assert(key.contains(key[j]));
    }
    text::lemma_char_index_is(key, ' ', key.len() as int);
    assert(key.take(key.len() as int) =~= key);
}

} // verus!
