//! The name of the file that marks a Perforce workspace.

use crate::text;
use vstd::prelude::*;
use vstd::slice::slice_subrange;

verus! {

/// The marker's name where none is configured.
pub const P4CONFIG: &'static str = ".p4config";

/// The usual names of the marker on the various platforms, which count until
/// the configured name is known.
pub const DEFAULT_P4CONFIG_MARKERS: [&'static str; 2] = [".p4config", "p4config.txt"];

/// The marker names that are known. The name is a setting of the machine and
/// differs from site to site; it is asked for once.
pub struct P4ConfigMarkers {
    resolved: Option<Vec<String>>,
}

impl View for P4ConfigMarkers {
    type V = Option<Seq<Seq<char>>>;

    closed spec fn view(&self) -> Option<Seq<Seq<char>>> {
        match self.resolved {
            Some(names) => Some(text::views(names@)),
            None => None,
        }
    }
}

/// Whether a file's name is a marker: one of the names that are known, or of
/// the usual ones until any is.
pub open spec fn is_marker_name(markers: Option<Seq<Seq<char>>>, name: Seq<char>) -> bool {
    match markers {
        Some(names) => names.contains(name),
        None => name == ".p4config"@ || name == "p4config.txt"@,
    }
}

/// The known names after more have been found: the first that were known stay,
/// and no names are no news.
pub open spec fn markers_after(markers: Option<Seq<Seq<char>>>, names: Seq<Seq<char>>) -> Option<
    Seq<Seq<char>>,
> {
    if markers is Some || names.len() == 0 {
        markers
    } else {
        Some(names)
    }
}

impl P4ConfigMarkers {
    /// No name is known yet.
    pub fn new() -> (r: P4ConfigMarkers)
        ensures
            r@ is None,
    {
        P4ConfigMarkers { resolved: None }
    }
}

/// Whether a file's name is a marker of a Perforce workspace.
pub fn is_p4_config_name(markers: &P4ConfigMarkers, name: &str) -> (r: bool)
    ensures
        r == is_marker_name(markers@, name@),
{
    match &markers.resolved {
        Some(names) => {
            let mut i: usize = 0;
            while i < names.len()
                invariant
                    i <= names.len(),
                    markers@ == Some(text::views(names@)),
                    forall|k: int| 0 <= k < i ==> #[trigger] text::views(names@)[k] != name@,
                decreases names.len() - i,
            {
                assert(text::views(names@)[i as int] == names@[i as int]@);
                if text::same_text(names[i].as_str(), name) {
                    assert(text::views(names@).contains(name@));
                    return true;
                }
                i = i + 1;
            }
            assert(!text::views(names@).contains(name@));
            false
        },
        None => text::same_text(name, DEFAULT_P4CONFIG_MARKERS[0]) || text::same_text(
            name,
            DEFAULT_P4CONFIG_MARKERS[1],
        ),
    }
}

/// Records the marker names that were found. The first writer wins.
pub fn set_p4_config_marker_names(markers: &mut P4ConfigMarkers, names: Vec<String>)
    ensures
        final(markers)@ == markers_after(old(markers)@, text::views(names@)),
{
    if names.len() == 0 {
        return;
    }
    if markers.resolved.is_none() {
        markers.resolved = Some(names);
    }
}

/// What the first line that starts with `P4CONFIG=` says after that.
pub open spec fn first_setting(lines: Seq<Seq<char>>) -> Option<Seq<char>>
    decreases lines.len(),
{
    if lines.len() == 0 {
        None
    } else {
        match text::after_prefix(lines[0], "P4CONFIG="@) {
            Some(rest) => Some(rest),
            None => first_setting(lines.skip(1)),
        }
    }
}

/// The value in the output of `p4 set P4CONFIG`, up to its first space. No
/// value means that it is not set.
pub open spec fn config_setting(output: Seq<char>) -> Option<Seq<char>> {
    match first_setting(text::lines_of(output)) {
        Some(rest) => {
            let name = rest.take(text::char_index(rest, ' '));
            if name.len() > 0 {
                Some(name)
            } else {
                None
            }
        },
        None => None,
    }
}

/// Parses the value out of the output of `p4 set P4CONFIG`.
pub fn parse_p4_config_setting(output: &str) -> (r: Option<String>)
    ensures
        text::option_view(r) == config_setting(output@),
{
    let chars = text::to_chars(output);
    let lines = text::split_lines(chars.as_slice());
    let ghost all = text::views(lines@);
    let mut i: usize = 0;
    assert(all.skip(0) =~= all);
    while i < lines.len()
        invariant
            i <= lines.len(),
            all == text::views(lines@),
            all == text::lines_of(output@),
            first_setting(all) == first_setting(all.skip(i as int)),
        decreases lines.len() - i,
    {
        assert(all.skip(i as int)[0] == lines@[i as int]@);
        if let Some(rest) = text::strip_prefix(lines[i], "P4CONFIG=") {
            let end: usize = text::find_char(rest, ' ');
            if end == 0 {
                return None;
            }
            return Some(text::from_chars(slice_subrange(rest, 0, end)));
        }
        assert(all.skip(i as int).skip(1) =~= all.skip(i + 1));
        i = i + 1;
    }
    None
}

/// The marker names that a run of `p4 set P4CONFIG` gives: the configured one,
/// or the default where none is set or the command failed.
pub open spec fn resolved_markers(output: Option<Seq<char>>) -> Seq<Seq<char>> {
    match output {
        Some(out) => match config_setting(out) {
            Some(name) => seq![name],
            None => seq![".p4config"@],
        },
        None => seq![".p4config"@],
    }
}

/// The arguments of the command that asks for the configured name.
pub fn p4_config_args() -> (r: Vec<String>)
    ensures
        text::views(r@) == seq!["set"@, "P4CONFIG"@],
{
    let args = vec!["set".to_owned(), "P4CONFIG".to_owned()];
    assert(text::views(args@) =~= seq!["set"@, "P4CONFIG"@]);
    args
}

/// The marker names that the output of `p4 set P4CONFIG` gives; `None` stands
/// for a command that failed.
pub fn resolve_p4_config_marker_names(output: Option<&str>) -> (r: Vec<String>)
    ensures
        text::views(r@) == resolved_markers(text::option_view(output)),
{
    let configured = match output {
        Some(out) => parse_p4_config_setting(out),
        None => None,
    };
    let name = match configured {
        Some(name) => name,
        None => P4CONFIG.to_owned(),
    };
    let names = vec![name];
    assert(text::views(names@) =~= resolved_markers(text::option_view(output)));
    names
}

/// Once names are known, later ones change nothing.
pub proof fn first_names_win(
    markers: Option<Seq<Seq<char>>>,
    first: Seq<Seq<char>>,
    second: Seq<Seq<char>>,
)
    requires
        first.len() > 0,
    ensures
        markers_after(markers_after(markers, first), second) == markers_after(markers, first),
{
}

/// The configured name is read from the line that `p4 set` prints for it, up to
/// the space before where it was set; lines before it that are about something
/// else make no difference.
pub proof fn configured_name_reads_back(
    before: Seq<Seq<char>>,
    name: Seq<char>,
    origin: Seq<char>,
    after: Seq<Seq<char>>,
)
    requires
        name.len() > 0,
        !name.contains(' '),
        forall|i: int|
            0 <= i < before.len() ==> !"P4CONFIG="@.is_prefix_of(#[trigger] before[i])
                && text::is_one_line(before[i]),
        text::is_one_line("P4CONFIG="@ + name + seq![' '] + origin),
        forall|i: int| 0 <= i < after.len() ==> text::is_one_line(#[trigger] after[i]),
    ensures
        config_setting(
            text::written_lines(
                before + seq!["P4CONFIG="@ + name + seq![' '] + origin] + after,
                seq!['\n'],
            ),
        ) == Some(name),
        resolved_markers(
            Some(
                text::written_lines(
                    before + seq!["P4CONFIG="@ + name + seq![' '] + origin] + after,
                    seq!['\n'],
                ),
            ),
        ) == seq![name],
{
    let line = "P4CONFIG="@ + name + seq![' '] + origin;
    let lines = before + seq![line] + after;
    assert forall|i: int| 0 <= i < lines.len() implies text::is_one_line(#[trigger] lines[i]) by {
        if i < before.len() {
            assert(lines[i] == before[i]);
        } else if i > before.len() {
            assert(lines[i] == after[i - before.len() - 1]);
        }
    }
    text::written_lines_read_back(lines);
    lemma_first_setting(before, line, after);
    let n = "P4CONFIG="@.len() as int;
    assert(line.subrange(0, n) =~= "P4CONFIG="@);
    let rest = line.skip(n);
    assert(rest =~= name + seq![' '] + origin);
    assert forall|j: int| 0 <= j < name.len() implies #[trigger] rest[j] != ' ' by {
        assert(rest[j] == name[j]);
        assert(name.contains(name[j]));
    }
    text::lemma_char_index_is(rest, ' ', name.len() as int);
    assert(rest.take(name.len() as int) =~= name);
}

/// Lines about something else are passed over.
proof fn lemma_first_setting(before: Seq<Seq<char>>, line: Seq<char>, after: Seq<Seq<char>>)
    requires
        forall|i: int|
            0 <= i < before.len() ==> !"P4CONFIG="@.is_prefix_of(#[trigger] before[i]),
        "P4CONFIG="@.is_prefix_of(line),
    ensures
        first_setting(before + seq![line] + after) == Some(line.skip("P4CONFIG="@.len() as int)),
    decreases before.len(),
{
    let lines = before + seq![line] + after;
    if before.len() > 0 {
        assert(lines[0] == before[0]);
        assert(lines.skip(1) =~= before.skip(1) + seq![line] + after);
        assert forall|i: int| 0 <= i < before.skip(1).len() implies !"P4CONFIG="@.is_prefix_of(
            #[trigger] before.skip(1)[i],
        ) by {
            assert(before.skip(1)[i] == before[i + 1]);
        }
        lemma_first_setting(before.skip(1), line, after);
    } else {
        assert(lines[0] == line);
    }
}

/// Without such a line, and where the command failed, the default name counts.
pub proof fn default_name_counts_otherwise(lines: Seq<Seq<char>>)
    requires
        forall|i: int|
            0 <= i < lines.len() ==> !"P4CONFIG="@.is_prefix_of(#[trigger] lines[i])
                && text::is_one_line(lines[i]),
    ensures
        config_setting(text::written_lines(lines, seq!['\n'])) is None,
        resolved_markers(Some(text::written_lines(lines, seq!['\n']))) == seq![".p4config"@],
        resolved_markers(None) == seq![".p4config"@],
{
    assert forall|i: int| 0 <= i < lines.len() implies text::is_one_line(#[trigger] lines[i]) by {}
    text::written_lines_read_back(lines);
    lemma_no_setting(lines);
}

/// Lines about something else hold no setting.
proof fn lemma_no_setting(lines: Seq<Seq<char>>)
    requires
        forall|i: int| 0 <= i < lines.len() ==> !"P4CONFIG="@.is_prefix_of(#[trigger] lines[i]),
    ensures
        first_setting(lines) is None,
    decreases lines.len(),
{
    if lines.len() > 0 {
        assert forall|i: int| 0 <= i < lines.skip(1).len() implies !"P4CONFIG="@.is_prefix_of(
            #[trigger] lines.skip(1)[i],
        ) by {
            assert(lines.skip(1)[i] == lines[i + 1]);
        }
        lemma_no_setting(lines.skip(1));
    }
}

/// A name is a marker just where it is one of the known names; until any are
/// known, the two usual ones are.
pub proof fn markers_are_the_known_names(names: Seq<Seq<char>>, name: Seq<char>)
    ensures
        is_marker_name(Some(names), name) <==> exists|i: int|
            0 <= i < names.len() && #[trigger] names[i] == name,
        is_marker_name(None, ".p4config"@),
        is_marker_name(None, "p4config.txt"@),
        names.len() > 0 ==> markers_after(None, names) == Some(names),
        markers_after(None, Seq::empty()) is None,
{
}

} // verus!
