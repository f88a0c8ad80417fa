//! The history of a file: its revisions, as `p4 filelog` lists them.

use crate::calendar;
use crate::calendar::utc_timestamp;
use crate::decimal;
use crate::text;
use vstd::prelude::*;
use vstd::string::StringExecFns;

verus! {

/// The part with a number; `0` where there is none.
pub open spec fn clock_part(parts: Seq<Seq<char>>, i: int) -> Seq<char> {
    if i < parts.len() {
        parts[i]
    } else {
        "0"@
    }
}

/// The number of at most 255 that `s` writes.
pub open spec fn small_number(s: Seq<char>) -> Option<nat> {
    decimal::unsigned_value(s, u8::MAX as nat)
}

/// The seconds that a timestamp `YYYY/MM/DD HH:MM:SS` in UTC stands for. The
/// time may lack, and then is midnight; its last parts may lack, and then are
/// zero. Whatever follows a third part is passed over.
pub open spec fn datetime_value(s: Seq<char>) -> Option<int> {
    let whole = text::trimmed(s);
    let (date, clock) = match text::split_at_pattern(whole, " "@) {
        Some(parts) => parts,
        None => (whole, "00:00:00"@),
    };
    let d = text::pieces(date, '/');
    let c = text::pieces(clock, ':');
    if d.len() < 3 {
        None
    } else {
        match (
            decimal::signed_value(d[0], i32::MAX as nat),
            small_number(d[1]),
            small_number(d[2]),
            small_number(clock_part(c, 0)),
            small_number(clock_part(c, 1)),
            small_number(clock_part(c, 2)),
        ) {
            (Some(year), Some(month), Some(day), Some(hour), Some(minute), Some(second)) => {
                calendar::utc_seconds(
                    year,
                    month as int,
                    day as int,
                    hour as int,
                    minute as int,
                    second as int,
                )
            },
            _ => None,
        }
    }
}

/// Parses one part of a time; a part that lacks is zero.
fn parse_clock_part(parts: &Vec<&[char]>, i: usize) -> (r: Option<u8>)
    ensures
        match r {
            Some(n) => small_number(clock_part(text::views(parts@), i as int)) == Some(n as nat),
            None => small_number(clock_part(text::views(parts@), i as int)) is None,
        },
{
    if i < parts.len() {
        decimal::parse_u8(parts[i])
    } else {
        let zero = text::to_chars("0");
        decimal::parse_u8(zero.as_slice())
    }
}

/// Parses a timestamp into seconds, as [`datetime_value`] reads it.
pub fn parse_datetime_chars(s: &[char]) -> (r: Option<i64>)
    ensures
        match r {
            Some(t) => datetime_value(s@) == Some(t as int),
            None => datetime_value(s@) is None,
        },
{
    let whole = text::trim(s);
    let midnight = text::to_chars("00:00:00");
    let (date, clock) = match text::split_once(whole, " ") {
        Some(parts) => parts,
        None => (whole, midnight.as_slice()),
    };
    let d = text::split_char(date, '/');
    let c = text::split_char(clock, ':');
    assert(text::views(d@).len() == d@.len());
    if d.len() < 3 {
        return None;
    }
    assert(text::views(d@)[0] == d@[0]@ && text::views(d@)[1] == d@[1]@ && text::views(d@)[2]
        == d@[2]@);
    match (
        decimal::parse_i32(d[0]),
        decimal::parse_u8(d[1]),
        decimal::parse_u8(d[2]),
        parse_clock_part(&c, 0),
        parse_clock_part(&c, 1),
        parse_clock_part(&c, 2),
    ) {
        (Some(year), Some(month), Some(day), Some(hour), Some(minute), Some(second)) => {
            utc_timestamp(year, month, day, hour, minute, second)
        },
        _ => None,
    }
}

/// Parses a Perforce timestamp (`YYYY/MM/DD HH:MM:SS`, or the date alone) into
/// seconds since the start of 1970. It is taken as UTC.
pub fn parse_p4_datetime(s: &str) -> (r: Option<i64>)
    ensures
        match r {
            Some(t) => datetime_value(s@) == Some(t as int),
            None => datetime_value(s@) is None,
        },
{
    let chars = text::to_chars(s);
    parse_datetime_chars(chars.as_slice())
}

/// One revision of a file.
#[derive(Debug, PartialEq, Eq)]
pub struct FilelogRev {
    pub rev: u32,
    pub change: u32,
    pub action: String,
    pub user: String,
    /// Seconds since the start of 1970, where the timestamp could be read.
    pub time: Option<i64>,
    /// The changelist's whole description.
    pub desc: String,
}

/// What a [`FilelogRev`] says.
#[verifier::ext_equal]
pub struct FilelogRevView {
    pub rev: u32,
    pub change: u32,
    pub action: Seq<char>,
    pub user: Seq<char>,
    pub time: Option<i64>,
    pub desc: Seq<char>,
}

impl View for FilelogRev {
    type V = FilelogRevView;

    open spec fn view(&self) -> FilelogRevView {
        FilelogRevView {
            rev: self.rev,
            change: self.change,
            action: self.action@,
            user: self.user@,
            time: self.time,
            desc: self.desc@,
        }
    }
}

/// The `u32` that `s` writes, but for whitespace around it.
pub open spec fn trimmed_number(s: Seq<char>) -> Option<u32> {
    match decimal::unsigned_value(text::trimmed(s), u32::MAX as nat) {
        Some(n) => Some(n as u32),
        None => None,
    }
}

/// The seconds that a timestamp stands for, as an `i64`.
pub open spec fn datetime_i64(s: Seq<char>) -> Option<i64> {
    match datetime_value(s) {
        Some(t) => Some(t as i64),
        None => None,
    }
}

/// The revision that a header line describes, after its `... #`: `<rev> change
/// <change> <action> on <date> by <user>@<client> (<type>)`.
pub open spec fn filelog_header(s: Seq<char>) -> Option<FilelogRevView> {
    match text::split_at_pattern(s, " change "@) {
        None => None,
        Some((rev, rest)) => match text::split_at_pattern(rest, " "@) {
            None => None,
            Some((change, rest)) => match text::split_at_pattern(rest, " on "@) {
                None => None,
                Some((action, rest)) => match text::split_at_pattern(rest, " by "@) {
                    None => None,
                    Some((date, rest)) => match (trimmed_number(rev), trimmed_number(change)) {
                        (Some(rev), Some(change)) => Some(
                            FilelogRevView {
                                rev,
                                change,
                                action: text::trimmed(action),
                                user: text::trimmed(rest.take(text::char_index(rest, '@'))),
                                time: datetime_i64(text::trimmed(date)),
                                desc: Seq::empty(),
                            },
                        ),
                        _ => None,
                    },
                },
            },
        },
    }
}

/// The revisions with the last one given the description lines.
pub open spec fn with_description(revs: Seq<FilelogRevView>, lines: Seq<Seq<char>>) -> Seq<
    FilelogRevView,
> {
    if revs.len() == 0 {
        revs
    } else {
        revs.drop_last().push(
            FilelogRevView {
                desc: text::trimmed_end(text::joined(lines, "\n"@)),
                ..revs.last()
            },
        )
    }
}

/// The revisions that the lines describe, after the revisions and description
/// lines that have been read. A header line ends the description before it and
/// starts a revision; a line that starts with a tab is one of the description;
/// every other line is passed over.
pub open spec fn filelog_after(
    revs: Seq<FilelogRevView>,
    description: Seq<Seq<char>>,
    lines: Seq<Seq<char>>,
) -> Seq<FilelogRevView>
    decreases lines.len(),
{
    if lines.len() == 0 {
        with_description(revs, description)
    } else {
        match text::after_prefix(lines[0], "... #"@) {
            Some(header) => {
                let described = with_description(revs, description);
                match filelog_header(header) {
                    Some(rev) => filelog_after(described.push(rev), Seq::empty(), lines.skip(1)),
                    None => filelog_after(described, Seq::empty(), lines.skip(1)),
                }
            },
            None => match text::after_prefix(lines[0], "\t"@) {
                Some(line) => filelog_after(revs, description.push(line), lines.skip(1)),
                None => filelog_after(revs, description, lines.skip(1)),
            },
        }
    }
}

/// The revisions of `p4 filelog` output.
pub open spec fn filelog_revs(output: Seq<char>) -> Seq<FilelogRevView> {
    filelog_after(Seq::empty(), Seq::empty(), text::lines_of(output))
}

/// The `u32` that `s` writes, but for whitespace around it.
fn parse_trimmed_number(s: &[char]) -> (r: Option<u32>)
    ensures
        r == trimmed_number(s@),
{
    decimal::parse_u32(text::trim(s))
}

/// Parses a header line of `p4 filelog`, after its `... #`.
pub fn parse_filelog_header(s: &[char]) -> (r: Option<FilelogRev>)
    ensures
        text::option_view(r) == filelog_header(s@),
{
    if let Some((rev, rest)) = text::split_once(s, " change ") {
        if let Some((change, rest)) = text::split_once(rest, " ") {
            if let Some((action, rest)) = text::split_once(rest, " on ") {
                if let Some((date, rest)) = text::split_once(rest, " by ") {
                    if let (Some(rev), Some(change)) = (
                        parse_trimmed_number(rev),
                        parse_trimmed_number(change),
                    ) {
                        let at: usize = text::find_char(rest, '@');
                        let user = vstd::slice::slice_subrange(rest, 0, at);
                        return Some(
                            FilelogRev {
                                rev,
                                change,
                                action: text::from_chars(text::trim(action)),
                                user: text::from_chars(text::trim(user)),
                                time: parse_datetime_chars(text::trim(date)),
                                desc: String::new(),
                            },
                        );
                    }
                }
            }
        }
    }
    None
}

/// Gives the last revision its description.
fn describe_last(revs: &mut Vec<FilelogRev>, lines: &Vec<String>)
    ensures
        text::views(final(revs)@) == with_description(text::views(old(revs)@), text::views(lines@)),
{
    let n: usize = revs.len();
    if n > 0 {
        let joined = text::join(lines, "\n");
        let chars = text::to_chars(joined.as_str());
        let desc = text::from_chars(text::trim_end(chars.as_slice()));
        let ghost before = text::views(revs@);
        assert(before.last() == revs@[n - 1]@);
        revs[n - 1].desc = desc;
        assert(text::views(revs@) =~= before.drop_last().push(
            FilelogRevView { desc: desc@, ..before.last() },
        ));
    }
}

/// Parses the text that `p4 filelog -l -t` prints into one entry for each
/// revision, in the order of the output, the newest first. The description
/// follows its header on lines that start with a tab; integration records and
/// empty lines are passed over.
pub fn parse_filelog(output: &str) -> (r: Vec<FilelogRev>)
    ensures
        text::views(r@) == filelog_revs(output@),
{
    let chars = text::to_chars(output);
    let lines = text::split_lines(chars.as_slice());
    let ghost all = text::views(lines@);
    let mut revs: Vec<FilelogRev> = Vec::new();
    let mut description: Vec<String> = Vec::new();
    let mut i: usize = 0;
    assert(all.skip(0) =~= all);
    assert(text::views(revs@) =~= Seq::<FilelogRevView>::empty());
    assert(text::views(description@) =~= Seq::<Seq<char>>::empty());
    while i < lines.len()
        invariant
            i <= lines.len(),
            all == text::views(lines@),
            filelog_after(text::views(revs@), text::views(description@), all.skip(i as int))
                == filelog_revs(output@),
        decreases lines.len() - i,
    {
        assert(all.skip(i as int)[0] == lines@[i as int]@);
        assert(all.skip(i as int).skip(1) =~= all.skip(i + 1));
        let line = lines[i];
        if let Some(header) = text::strip_prefix(line, "... #") {
            describe_last(&mut revs, &description);
            description = Vec::new();
            assert(text::views(description@) =~= Seq::<Seq<char>>::empty());
            let ghost described = text::views(revs@);
            if let Some(rev) = parse_filelog_header(header) {
                revs.push(rev);
                assert(text::views(revs@) =~= described.push(rev@));
            }
        } else if let Some(rest) = text::strip_prefix(line, "\t") {
            let ghost before = text::views(description@);
            description.push(text::from_chars(rest));
            assert(text::views(description@) =~= before.push(rest@));
        }
        i = i + 1;
    }
    assert(all.skip(i as int).len() == 0);
    describe_last(&mut revs, &description);
    revs
}

/// A date as `p4` writes it.
pub open spec fn written_date(year: nat, month: nat, day: nat) -> Seq<char> {
    decimal::padded_digits(year, 4) + seq!['/'] + decimal::padded_digits(month, 2) + seq!['/']
        + decimal::padded_digits(day, 2)
}

/// A time as `p4` writes it.
pub open spec fn written_clock(hour: nat, minute: nat, second: nat) -> Seq<char> {
    decimal::padded_digits(hour, 2) + seq![':'] + decimal::padded_digits(minute, 2) + seq![':']
        + decimal::padded_digits(second, 2)
}

/// Digits in places hold no other character.
proof fn lemma_places(n: nat, width: nat, c: char)
    requires
        !decimal::is_digit(c),
    ensures
        !decimal::padded_digits(n, width).contains(c),
        decimal::padded_digits(n, width).len() > 0,
        decimal::is_digit(decimal::padded_digits(n, width)[0]),
        decimal::is_digit(decimal::padded_digits(n, width).last()),
{
    let s = decimal::padded_digits(n, width);
    decimal::padded_digits_read_back(n, width, n);
    assert(decimal::is_digit(s[0]));
    assert(decimal::is_digit(s[s.len() - 1]));
    if s.contains(c) {
        let k = choose|k: int| 0 <= k < s.len() && s[k] == c;
        assert(decimal::is_digit(s[k]));
    }
}

/// The parts of a date are read back from it.
proof fn lemma_written_date(year: nat, month: nat, day: nat)
    ensures
        text::pieces(written_date(year, month, day), '/') == seq![
            decimal::padded_digits(year, 4),
            decimal::padded_digits(month, 2),
            decimal::padded_digits(day, 2),
        ],
        !written_date(year, month, day).contains(' '),
        written_date(year, month, day).len() > 0,
        decimal::is_digit(written_date(year, month, day)[0]),
        decimal::is_digit(written_date(year, month, day).last()),
{
    let a = decimal::padded_digits(year, 4);
    let b = decimal::padded_digits(month, 2);
    let c = decimal::padded_digits(day, 2);
    let parts = seq![a, b, c];
    lemma_places(year, 4, '/');
    lemma_places(month, 2, '/');
    lemma_places(day, 2, '/');
    lemma_places(year, 4, ' ');
    lemma_places(month, 2, ' ');
    lemma_places(day, 2, ' ');
    text::joined_three(a, b, c, seq!['/']);
    assert forall|i: int| 0 <= i < parts.len() implies !(#[trigger] parts[i]).contains('/') by {
        assert(i == 0 || i == 1 || i == 2);
    }
    text::written_parts_are_the_pieces(parts, '/');
    let s = written_date(year, month, day);
    assert(s[0] == a[0]);
    assert(s.last() == c.last());
    if s.contains(' ') {
        let k = choose|k: int| 0 <= k < s.len() && s[k] == ' ';
        if k < a.len() {
            assert(a.contains(a[k]));
        } else if a.len() < k < a.len() + 1 + b.len() {
            assert(b.contains(b[k - a.len() - 1]));
        } else if k > a.len() + 1 + b.len() {
            assert(c.contains(c[k - a.len() - b.len() - 2]));
        }
    }
}

/// The parts of a time are read back from it.
proof fn lemma_written_clock(hour: nat, minute: nat, second: nat)
    ensures
        text::pieces(written_clock(hour, minute, second), ':') == seq![
            decimal::padded_digits(hour, 2),
            decimal::padded_digits(minute, 2),
            decimal::padded_digits(second, 2),
        ],
        written_clock(hour, minute, second).len() > 0,
        decimal::is_digit(written_clock(hour, minute, second)[0]),
        decimal::is_digit(written_clock(hour, minute, second).last()),
{
    let a = decimal::padded_digits(hour, 2);
    let b = decimal::padded_digits(minute, 2);
    let c = decimal::padded_digits(second, 2);
    let parts = seq![a, b, c];
    lemma_places(hour, 2, ':');
    lemma_places(minute, 2, ':');
    lemma_places(second, 2, ':');
    text::joined_three(a, b, c, seq![':']);
    assert forall|i: int| 0 <= i < parts.len() implies !(#[trigger] parts[i]).contains(':') by {
        assert(i == 0 || i == 1 || i == 2);
    }
    text::written_parts_are_the_pieces(parts, ':');
    let s = written_clock(hour, minute, second);
    assert(s[0] == a[0]);
    assert(s.last() == c.last());
}

/// A date and a time as `p4` writes them stand for their own seconds, where the
/// calendar has them and a day has the time; a date alone stands for its
/// midnight.
pub proof fn written_datetime_reads_back(
    year: nat,
    month: nat,
    day: nat,
    hour: nat,
    minute: nat,
    second: nat,
)
    requires
        year <= 9_999,
        month <= 99,
        day <= 99,
        hour <= 99,
        minute <= 99,
        second <= 99,
    ensures
        datetime_value(
            written_date(year, month, day) + seq![' '] + written_clock(hour, minute, second),
        ) == calendar::utc_seconds(
            year as int,
            month as int,
            day as int,
            hour as int,
            minute as int,
            second as int,
        ),
        datetime_value(written_date(year, month, day)) == calendar::utc_seconds(
            year as int,
            month as int,
            day as int,
            0,
            0,
            0,
        ),
{
    let date = written_date(year, month, day);
    let clock = written_clock(hour, minute, second);
    let whole = date + seq![' '] + clock;
    lemma_written_date(year, month, day);
    lemma_written_clock(hour, minute, second);
    lemma_written_clock(0, 0, 0);
    assert(whole[0] == date[0] && whole.last() == clock.last());
    text::firm_text_is_not_trimmed(whole);
    text::firm_text_is_not_trimmed(date);
    reveal_strlit(" ");
    assert(" "@ =~= seq![' ']);
    text::part_without_the_character_is_split_off(date, ' ', clock);
    text::text_is_split_at_the_first(date, " "@);
    assert(text::split_at_pattern(date, " "@) is None) by {
        if let Some((before, after)) = text::split_at_pattern(date, " "@) {
            assert(date[before.len() as int] == ' ');
            assert(date.contains(' '));
        }
    }
    decimal::padded_digits_read_back(year, 4, i32::MAX as nat);
    lemma_places(year, 4, '-');
    decimal::padded_digits_read_back(month, 2, u8::MAX as nat);
    decimal::padded_digits_read_back(day, 2, u8::MAX as nat);
    decimal::padded_digits_read_back(hour, 2, u8::MAX as nat);
    decimal::padded_digits_read_back(minute, 2, u8::MAX as nat);
    decimal::padded_digits_read_back(second, 2, u8::MAX as nat);
    decimal::padded_digits_read_back(0, 2, u8::MAX as nat);
    reveal_strlit("00:00:00");
    reveal_with_fuel(decimal::digits, 2);
    assert("00:00:00"@ =~= written_clock(0, 0, 0)) by {
        assert(decimal::padded_digits(0, 2) =~= seq!['0', '0']);
    }
}

/// The header line of a revision, after its `... #`, up to what follows the
/// user's client.
pub open spec fn written_header(
    rev: u32,
    change: u32,
    action: Seq<char>,
    date: Seq<char>,
    user: Seq<char>,
    rest: Seq<char>,
) -> Seq<char> {
    decimal::digits(rev as nat) + " change "@ + decimal::digits(change as nat) + " "@ + action
        + " on "@ + date + " by "@ + user + seq!['@'] + rest
}

/// A revision is read back from its header line: its number, its change, its
/// action, its user and its time. Its description is still to come.
pub proof fn written_header_reads_back(
    rev: u32,
    change: u32,
    action: Seq<char>,
    date: Seq<char>,
    user: Seq<char>,
    rest: Seq<char>,
)
    requires
        !action.contains(' '),
        text::has_firm_ends(action),
        text::has_firm_ends(date),
        forall|i: int|
            0 <= i < date.len() ==> !#[trigger] text::stands_at(
                date + " by "@ + (user + seq!['@'] + rest),
                " by "@,
                i,
            ),
        !user.contains('@'),
        text::has_firm_ends(user),
    ensures
        filelog_header(written_header(rev, change, action, date, user, rest)) == Some(
            (FilelogRevView {
                rev,
                change,
                action,
                user,
                time: datetime_i64(date),
                desc: Seq::empty(),
            }),
        ),
{
    let a = decimal::digits(rev as nat);
    let b = decimal::digits(change as nat);
    let who = user + seq!['@'] + rest;
    let from_date = date + " by "@ + who;
    let from_action = action + " on "@ + from_date;
    let from_change = b + " "@ + from_action;
    let s = written_header(rev, change, action, date, user, rest);
    assert(s =~= a + " change "@ + from_change);
    reveal_strlit(" change ");
    reveal_strlit(" ");
    reveal_strlit(" on ");
    reveal_strlit(" by ");
    lemma_number_text(rev);
    lemma_number_text(change);
    text::part_without_the_start_is_split_off(a, " change "@, from_change);
    text::part_without_the_start_is_split_off(b, " "@, from_action);
    text::part_without_the_start_is_split_off(action, " on "@, from_date);
    text::written_parts_are_split(date, " by "@, who);
    text::firm_text_is_not_trimmed(action);
    text::firm_text_is_not_trimmed(date);
    text::firm_text_is_not_trimmed(user);
    let n = user.len() as int;
    assert forall|j: int| 0 <= j < n implies #[trigger] who[j] != '@' by {
        assert(who[j] == user[j]);
        assert(user.contains(user[j]));
    }
    text::lemma_char_index_is(who, '@', n);
    assert(who.take(n) =~= user);
}

/// A number is read back from its digits, which hold no space.
proof fn lemma_number_text(n: u32)
    ensures
        trimmed_number(decimal::digits(n as nat)) == Some(n),
        !decimal::digits(n as nat).contains(' '),
{
    let d = decimal::digits(n as nat);
    decimal::digits_read_back(n as nat);
    decimal::unsigned_reads_back(n as nat, u32::MAX as nat);
    assert(decimal::is_digit(d[0]) && decimal::is_digit(d[d.len() - 1]));
    text::firm_text_is_not_trimmed(d);
    if d.contains(' ') {
        let k = choose|k: int| 0 <= k < d.len() && d[k] == ' ';
        assert(decimal::is_digit(d[k]));
    }
}

/// The lines of a revision: its header, and its description behind tabs.
pub open spec fn revision_lines(header: Seq<char>, description: Seq<Seq<char>>) -> Seq<Seq<char>> {
    seq!["... #"@ + header] + description.map_values(|line: Seq<char>| "\t"@ + line)
}

/// Whether the lines are at an end, or go on with the header of a revision.
pub open spec fn is_at_a_header(lines: Seq<Seq<char>>) -> bool {
    lines.len() > 0 ==> (text::after_prefix(lines[0], "... #"@) matches Some(header)
        && filelog_header(header) is Some)
}

/// What was read before stays before what is read later.
proof fn lemma_earlier_revisions_stay(
    earlier: Seq<FilelogRevView>,
    revs: Seq<FilelogRevView>,
    description: Seq<Seq<char>>,
    lines: Seq<Seq<char>>,
)
    requires
        revs.len() > 0,
    ensures
        filelog_after(earlier + revs, description, lines) == earlier + filelog_after(
            revs,
            description,
            lines,
        ),
    decreases lines.len(),
{
    assert((earlier + revs).drop_last() =~= earlier + revs.drop_last());
    assert((earlier + revs).last() == revs.last());
    assert(with_description(earlier + revs, description) =~= earlier + with_description(
        revs,
        description,
    ));
    if lines.len() > 0 {
        let described = with_description(revs, description);
        match text::after_prefix(lines[0], "... #"@) {
            Some(header) => match filelog_header(header) {
                Some(rev) => {
                    assert((earlier + described).push(rev) =~= earlier + described.push(rev));
                    lemma_earlier_revisions_stay(
                        earlier,
                        described.push(rev),
                        Seq::empty(),
                        lines.skip(1),
                    );
                },
                None => {
                    lemma_earlier_revisions_stay(earlier, described, Seq::empty(), lines.skip(1));
                },
            },
            None => match text::after_prefix(lines[0], "\t"@) {
                Some(line) => {
                    lemma_earlier_revisions_stay(
                        earlier,
                        revs,
                        description.push(line),
                        lines.skip(1),
                    );
                },
                None => {
                    lemma_earlier_revisions_stay(earlier, revs, description, lines.skip(1));
                },
            },
        }
    }
}

/// Lines behind tabs are all read into the description.
proof fn lemma_description_is_read(
    revs: Seq<FilelogRevView>,
    read: Seq<Seq<char>>,
    description: Seq<Seq<char>>,
    rest: Seq<Seq<char>>,
)
    ensures
        filelog_after(
            revs,
            read,
            description.map_values(|line: Seq<char>| "\t"@ + line) + rest,
        ) == filelog_after(revs, read + description, rest),
    decreases description.len(),
{
    let f = |line: Seq<char>| "\t"@ + line;
    let lines = description.map_values(f) + rest;
    if description.len() == 0 {
        assert(lines =~= rest);
        assert(read + description =~= read);
    } else {
        let line = "\t"@ + description[0];
        reveal_strlit("\t");
        reveal_strlit("... #");
        assert(lines[0] == line);
        assert(!"... #"@.is_prefix_of(line)) by {
            if "... #"@.is_prefix_of(line) {
                assert(line.subrange(0, "... #"@.len() as int)[0] == line[0]);
                assert("... #"@[0] == '.');
            }
        }
        assert(line.subrange(0, 1) =~= "\t"@);
        assert(line.skip(1) =~= description[0]);
        assert(lines.skip(1) =~= description.skip(1).map_values(f) + rest);
        lemma_description_is_read(revs, read.push(description[0]), description.skip(1), rest);
        assert(read.push(description[0]) + description.skip(1) =~= read + description);
    }
}

/// A history is read revision by revision: a header and the description behind
/// tabs that follows it give one revision, with the description's lines joined
/// and the space at its end taken off, and the revisions of the rest come after
/// it.
pub proof fn history_is_read_one_by_one(
    header: Seq<char>,
    rev: FilelogRevView,
    description: Seq<Seq<char>>,
    rest: Seq<Seq<char>>,
)
    requires
        filelog_header(header) == Some(rev),
        is_at_a_header(rest),
    ensures
        filelog_after(Seq::empty(), Seq::empty(), revision_lines(header, description) + rest)
            == seq![
            (FilelogRevView {
                desc: text::trimmed_end(text::joined(description, "\n"@)),
                ..rev
            }),
        ] + filelog_after(Seq::empty(), Seq::empty(), rest),
{
    let none = Seq::<FilelogRevView>::empty();
    let no_lines = Seq::<Seq<char>>::empty();
    let f = |line: Seq<char>| "\t"@ + line;
    let lines = revision_lines(header, description) + rest;
    let first = "... #"@ + header;
    assert(lines[0] == first);
    assert(first.subrange(0, "... #"@.len() as int) =~= "... #"@);
    assert(first.skip("... #"@.len() as int) =~= header);
    assert(with_description(none, no_lines) == none);
    assert(lines.skip(1) =~= description.map_values(f) + rest);
    assert(none.push(rev) =~= seq![rev]);
    lemma_description_is_read(seq![rev], no_lines, description, rest);
    assert(no_lines + description =~= description);
    let described = FilelogRevView {
        desc: text::trimmed_end(text::joined(description, "\n"@)),
        ..rev
    };
    assert(with_description(seq![rev], description) =~= seq![described]);
    if rest.len() == 0 {
        assert(filelog_after(none, no_lines, rest) =~= none);
        assert(seq![described] + none =~= seq![described]);
    } else {
        let next = filelog_header(text::after_prefix(rest[0], "... #"@)->0)->0;
        assert(seq![described].push(next) =~= seq![described] + seq![next]);
        assert(none.push(next) =~= seq![next]);
        lemma_earlier_revisions_stay(seq![described], seq![next], no_lines, rest.skip(1));
    }
}

/// A line that is neither a header nor behind a tab, such as an empty one or that
/// of an integration, changes nothing.
pub proof fn other_lines_are_passed_over(
    revs: Seq<FilelogRevView>,
    description: Seq<Seq<char>>,
    line: Seq<char>,
    rest: Seq<Seq<char>>,
)
    requires
        !"... #"@.is_prefix_of(line),
        !"\t"@.is_prefix_of(line),
    ensures
        filelog_after(revs, description, seq![line] + rest) == filelog_after(
            revs,
            description,
            rest,
        ),
{
    assert((seq![line] + rest).skip(1) =~= rest);
}

} // verus!
