//! The two line formats in which a baseline is kept as text, and the
//! reading and writing of a baseline in them.
//!
//! An export line declares one version as `export NAME_version="VERSION"`.
//! An assignment line records one as `NAME=VERSION`.  The caller reads and
//! writes the files; the text is parsed and produced here.

use vstd::prelude::*;
use vstd::string::StringExecFns;
use crate::baseline::{
    lemma_mapping_push, mapping_of, names_distinct, names_entry, Baseline, Entry,
};
use crate::text::{
    chars_of, find_first, first_occurrence, is_first_occurrence, is_space,
    lemma_first_occurrence, lemma_trim_tight, matches_at, occurs_at, occurs_in, slice_of,
    string_of, strip_all, strip_trailing, trim, trimmed, without_surrounding,
};

verus! {

/// The line formats.
#[derive(Clone, Copy, Debug, PartialEq, Eq, Structural)]
pub enum Format {
    /// `export NAME_version="VERSION"`
    Exports,
    /// `NAME=VERSION`
    Assignments,
}

/// The name and version that an export line declares.
///
/// The line starts with `export`, and `_version=` divides the rest in
/// exactly two parts.  The first part, trimmed, is the name.  The second,
/// trimmed and then without the double quotes around it, is the version.
/// Any other line declares nothing.
pub open spec fn export_entry(line: Seq<char>) -> Option<(Seq<char>, Seq<char>)> {
    let keyword = "export"@;
    let marker = "_version="@;
    if !occurs_at(line, 0, keyword) {
        None
    } else {
        let rest = line.subrange(keyword.len() as int, line.len() as int);
        match first_occurrence(rest, marker) {
            None => None,
            Some(at) => {
                let after = rest.subrange(at + marker.len(), rest.len() as int);
                if occurs_in(after, marker) {
                    None
                } else {
                    Some((trim(rest.subrange(0, at)), strip_all(trim(after), '"')))
                }
            },
        }
    }
}

/// The name and version that an assignment line records.
///
/// The first `=` divides the line.  What stands before it, trimmed, is the
/// name, and what stands behind it, trimmed, is the version.  A line
/// without `=`, or with nothing but white space before it, records nothing.
pub open spec fn assignment_entry(line: Seq<char>) -> Option<(Seq<char>, Seq<char>)> {
    match first_occurrence(line, seq!['=']) {
        None => None,
        Some(at) => {
            let name = trim(line.subrange(0, at));
            if name.len() == 0 {
                None
            } else {
                Some((name, trim(line.subrange(at + 1, line.len() as int))))
            }
        },
    }
}

/// The name and version that a line holds in the given format.
pub open spec fn entry_of(format: Format, line: Seq<char>) -> Option<(Seq<char>, Seq<char>)> {
    match format {
        Format::Exports => export_entry(line),
        Format::Assignments => assignment_entry(line),
    }
}

/// The index of the first line feed of `s` at or after `from`; the length
/// of `s` if there is none.
pub open spec fn line_end(s: Seq<char>, from: int) -> int
    decreases s.len() - from,
{
    if from < 0 || from >= s.len() {
        s.len() as int
    } else if s[from] == '\n' {
        from
    } else {
        line_end(s, from + 1)
    }
}

/// The lines of a text.  A line ends at a line feed or at the end of the
/// text; a carriage return before the line feed is not part of the line.
/// An empty text has no line, and a line feed at the end of the text starts
/// no further line.
pub open spec fn lines_of(s: Seq<char>) -> Seq<Seq<char>>
    decreases s.len(),
{
    if s.len() == 0 {
        Seq::empty()
    } else {
        let end = line_end(s, 0);
        if 0 <= end < s.len() {
            seq![strip_trailing(s.subrange(0, end), '\r')] + lines_of(
                s.subrange(end + 1, s.len() as int),
            )
        } else {
            seq![s]
        }
    }
}

/// The mapping after the entries of `lines` are taken into `start` one
/// after the other; a later entry for a name replaces an earlier one.
pub open spec fn loaded(
    start: Map<Seq<char>, Seq<char>>,
    format: Format,
    lines: Seq<Seq<char>>,
) -> Map<Seq<char>, Seq<char>>
    decreases lines.len(),
{
    if lines.len() == 0 {
        start
    } else {
        let next = match entry_of(format, lines[0]) {
            Some((name, version)) => start.insert(name, version),
            None => start,
        };
        loaded(next, format, lines.drop_first())
    }
}

/// The mapping that a text in the given format stands for.
pub open spec fn parsed(format: Format, text: Seq<char>) -> Map<Seq<char>, Seq<char>> {
    loaded(Map::empty(), format, lines_of(text))
}

/// The line that records `version` for `name`, with its line feed.
pub open spec fn assignment_line(name: Seq<char>, version: Seq<char>) -> Seq<char> {
    name + seq!['='] + version + seq!['\n']
}

/// The assignment lines of `entries`, one after the other.
pub open spec fn rendered(entries: Seq<Entry>) -> Seq<char>
    decreases entries.len(),
{
    if entries.len() == 0 {
        Seq::empty()
    } else {
        rendered(entries.drop_last()) + assignment_line(
            entries.last().name@,
            entries.last().version@,
        )
    }
}

/// The views of a name and a version, if there are any.
pub open spec fn pair_view(pair: Option<(String, String)>) -> Option<(Seq<char>, Seq<char>)> {
    match pair {
        Some((name, version)) => Some((name@, version@)),
        None => None,
    }
}

/// The name and version that a line of characters holds as an export.
fn export_of(line: &Vec<char>) -> (r: Option<(String, String)>)
    ensures
        pair_view(r) == export_entry(line@),
{
    let keyword = chars_of("export");
    let marker = chars_of("_version=");
    if !matches_at(line, 0, &keyword) {
        return None;
    }
    let rest = slice_of(line, keyword.len(), line.len());
    match find_first(&rest, &marker) {
        None => None,
        Some(at) => {
            let after = slice_of(&rest, at + marker.len(), rest.len());
            match find_first(&after, &marker) {
                Some(_) => None,
                None => {
                    let name = trimmed(&slice_of(&rest, 0, at));
                    let version = without_surrounding(&trimmed(&after), '"');
                    Some((string_of(&name), string_of(&version)))
                },
            }
        },
    }
}

/// The name and version that a line of characters holds as an assignment.
fn assignment_of(line: &Vec<char>) -> (r: Option<(String, String)>)
    ensures
        pair_view(r) == assignment_entry(line@),
{
    let mut sign: Vec<char> = Vec::new();
    sign.push('=');
    assert(sign@ == seq!['=']);
    match find_first(line, &sign) {
        None => None,
        Some(at) => {
            let name = trimmed(&slice_of(line, 0, at));
            if name.len() == 0 {
                None
            } else {
                let version = trimmed(&slice_of(line, at + 1, line.len()));
                Some((string_of(&name), string_of(&version)))
            }
        },
    }
}

/// The name and version that `line` declares as an export, if it does.
pub fn parse_export_line(line: &str) -> (r: Option<(String, String)>)
    ensures
        pair_view(r) == export_entry(line@),
{
    export_of(&chars_of(line))
}

/// The name and version that `line` records as an assignment, if it does.
pub fn parse_assignment_line(line: &str) -> (r: Option<(String, String)>)
    ensures
        pair_view(r) == assignment_entry(line@),
{
    assignment_of(&chars_of(line))
}

/// The baseline that the text stands for in the given format.  Lines that
/// hold no entry are passed over, and of two entries for one name the later
/// stays.
pub fn read(format: Format, text: &str) -> (baseline: Baseline)
    ensures
        baseline.wf(),
        baseline@ == parsed(format, text@),
{
    let v = chars_of(text);
    let n = v.len();
    let mut baseline = Baseline::new();
    let mut i: usize = 0;
    assert(v@.subrange(0, n as int) == v@);
    while i < n
        invariant
            i <= n == v.len(),
            v@ == text@,
            baseline.wf(),
            parsed(format, text@) == loaded(
                baseline@,
                format,
                lines_of(v@.subrange(i as int, n as int)),
            ),
        decreases n - i,
    {
        let ghost rest = v@.subrange(i as int, n as int);
        let mut end: usize = i;
        while end < n && v[end] != '\n'
            invariant
                i <= end <= n == v.len(),
                rest == v@.subrange(i as int, n as int),
                line_end(rest, 0) == line_end(rest, end - i),
            decreases n - end,
        {
            end += 1;
        }
        let found = end < n;
        let mut line = slice_of(&v, i, end);
        proof {
            assert(rest.subrange(0, end - i) == v@.subrange(i as int, end as int));
            if found {
                assert(rest.subrange(end - i + 1, rest.len() as int) == v@.subrange(
                    end + 1,
                    n as int,
                ));
            } else {
                assert(rest.subrange(0, rest.len() as int) == rest);
            }
        }
        if found && line.len() > 0 && line[line.len() - 1] == '\r' {
            line = slice_of(&line, 0, line.len() - 1);
        }
        let entry = match format {
            Format::Exports => export_of(&line),
            Format::Assignments => assignment_of(&line),
        };
        let ghost next = if found {
            lines_of(v@.subrange(end + 1, n as int))
        } else {
            Seq::<Seq<char>>::empty()
        };
        proof {
            assert(lines_of(rest) == seq![line@] + next);
            assert((seq![line@] + next).drop_first() == next);
            assert(pair_view(entry) == entry_of(format, line@));
        }
        match entry {
            Some((name, version)) => {
                baseline.insert(name.as_str(), version.as_str());
            },
            None => {},
        }
        if found {
            i = end + 1;
        } else {
            i = n;
            assert(v@.subrange(n as int, n as int).len() == 0);
        }
    }
    assert(v@.subrange(n as int, n as int).len() == 0);
    baseline
}

/// The line that records `version` for `name`, with its line feed.
pub fn render_line(name: &str, version: &str) -> (line: String)
    ensures
        line@ == assignment_line(name@, version@),
{
    let mut line = name.to_string();
    line.push('=');
    line.append(version);
    line.push('\n');
    line
}

/// The text that records `baseline`: one assignment line for each of its
/// entries, in their order.
pub fn render(baseline: &Baseline) -> (text: String)
    requires
        baseline.wf(),
    ensures
        text@ == rendered(baseline.listed()),
{
    let entries = baseline.entries();
    let mut text = String::new();
    let mut i: usize = 0;
    while i < entries.len()
        invariant
            i <= entries.len(),
            text@ == rendered(entries@.take(i as int)),
        decreases entries.len() - i,
    {
        let line = render_line(entries[i].name.as_str(), entries[i].version.as_str());
        proof {
            assert(entries@.take(i + 1).drop_last() == entries@.take(i as int));
        }
        text.append(line.as_str());
        i += 1;
    }
    assert(entries@.take(entries.len() as int) == entries@);
    text
}

/// Whether `s` holds no line feed.
pub open spec fn single_line(s: Seq<char>) -> bool {
    forall|i: int| 0 <= i < s.len() ==> s[i] != '\n'
}

/// Whether `s` neither starts nor ends with white space.
pub open spec fn tight(s: Seq<char>) -> bool {
    s.len() > 0 ==> !is_space(s[0]) && !is_space(s.last())
}

/// Whether an entry can be written as an assignment line and read back: its
/// name is not empty and holds no `=`, and neither name nor version holds a
/// line feed or has white space around it.
pub open spec fn writable(entry: Entry) -> bool {
    &&& entry.name@.len() > 0
    &&& tight(entry.name@)
    &&& tight(entry.version@)
    &&& single_line(entry.name@)
    &&& single_line(entry.version@)
    &&& forall|i: int| 0 <= i < entry.name@.len() ==> entry.name@[i] != '='
}

/// A text that starts with a line ends its first line where that line
/// ends.
proof fn lemma_line_end_of_first(line: Seq<char>, rest: Seq<char>, from: int)
    requires
        single_line(line),
        0 <= from <= line.len(),
    ensures
        line_end(line + seq!['\n'] + rest, from) == line.len(),
    decreases line.len() - from,
{
    let text = line + seq!['\n'] + rest;
    if from < line.len() {
        assert(text[from] == line[from]);
        lemma_line_end_of_first(line, rest, from + 1);
    } else {
        assert(text[from] == '\n');
    }
}

/// The lines of a text that starts with a line are that line and the lines
/// of the rest.
proof fn lemma_lines_of_first(line: Seq<char>, rest: Seq<char>)
    requires
        single_line(line),
    ensures
        lines_of(line + seq!['\n'] + rest) == seq![strip_trailing(line, '\r')] + lines_of(rest),
{
    let text = line + seq!['\n'] + rest;
    lemma_line_end_of_first(line, rest, 0);
    assert(text.subrange(0, line.len() as int) == line);
    assert(text.subrange(line.len() as int + 1, text.len() as int) == rest);
}

/// What is rendered for some entries is the line of the first and then
/// what is rendered for the others.
proof fn lemma_rendered_first(entries: Seq<Entry>)
    requires
        entries.len() > 0,
    ensures
        rendered(entries) == assignment_line(entries[0].name@, entries[0].version@) + rendered(
            entries.drop_first(),
        ),
    decreases entries.len(),
{
    let front = entries.drop_last();
    let last = assignment_line(entries.last().name@, entries.last().version@);
    let first = assignment_line(entries[0].name@, entries[0].version@);
    if entries.len() == 1 {
        assert(rendered(front) == Seq::<char>::empty());
        assert(rendered(entries.drop_first()) == Seq::<char>::empty());
        assert(Seq::<char>::empty() + first == first + Seq::<char>::empty());
    } else {
        lemma_rendered_first(front);
        assert(front.drop_first() == entries.drop_first().drop_last());
        assert(front[0] == entries[0]);
        assert(entries.drop_first().last() == entries.last());
        assert((first + rendered(front.drop_first())) + last == first + (rendered(
            front.drop_first(),
        ) + last));
    }
}

/// The assignment line of a writable entry is read back as that entry.
proof fn lemma_assignment_reads_back(entry: Entry)
    requires
        writable(entry),
    ensures
        single_line(entry.name@ + seq!['='] + entry.version@),
        strip_trailing(entry.name@ + seq!['='] + entry.version@, '\r') == entry.name@ + seq!['=']
            + entry.version@,
        assignment_entry(entry.name@ + seq!['='] + entry.version@) == Some(
            (entry.name@, entry.version@),
        ),
{
    let name = entry.name@;
    let version = entry.version@;
    let line = name + seq!['='] + version;
    let at = name.len() as int;
    assert forall|i: int| 0 <= i < line.len() implies line[i] != '\n' by {
        if i < at {
            assert(line[i] == name[i]);
        } else if i > at {
            assert(line[i] == version[i - at - 1]);
        }
    }
    assert(line.last() != '\r') by {
        if version.len() > 0 {
            assert(line.last() == version.last());
        } else {
            assert(line.last() == '=');
        }
    }
    assert(line.subrange(at, at + 1) == seq!['=']);
    assert forall|j: int| 0 <= j < at implies !occurs_at(line, j, seq!['=']) by {
        if occurs_at(line, j, seq!['=']) {
            assert(line.subrange(j, j + 1)[0] == '=');
            assert(line[j] == name[j]);
        }
    }
    assert(is_first_occurrence(line, seq!['='], at));
    lemma_first_occurrence(line, seq!['='], at);
    assert(line.subrange(0, at) == name);
    assert(line.subrange(at + 1, line.len() as int) == version);
    lemma_trim_tight(name);
    lemma_trim_tight(version);
}

/// Reading what is rendered for `todo` into the mapping of `done` gives
/// the mapping of both.
proof fn lemma_reading_rendered(done: Seq<Entry>, todo: Seq<Entry>)
    requires
        names_distinct(done + todo),
        forall|i: int| 0 <= i < todo.len() ==> writable(#[trigger] todo[i]),
    ensures
        loaded(mapping_of(done), Format::Assignments, lines_of(rendered(todo))) == mapping_of(
            done + todo,
        ),
    decreases todo.len(),
{
    let all = done + todo;
    if todo.len() == 0 {
        assert(all == done);
    } else {
        let entry = todo[0];
        let rest = todo.drop_first();
        let line = entry.name@ + seq!['='] + entry.version@;
        lemma_rendered_first(todo);
        lemma_assignment_reads_back(entry);
        assert(rendered(todo) == line + seq!['\n'] + rendered(rest));
        lemma_lines_of_first(line, rendered(rest));
        let lines = lines_of(rendered(todo));
        assert(lines[0] == line);
        assert(lines.drop_first() == lines_of(rendered(rest)));
        assert forall|i: int, j: int| 0 <= i < j < done.len() implies (#[trigger] done[i]).name@
            != (#[trigger] done[j]).name@ by {
            assert(all[i] == done[i] && all[j] == done[j]);
        }
        assert forall|i: int| !names_entry(done, entry.name@, i) by {
            if names_entry(done, entry.name@, i) {
                assert(all[i] == done[i]);
                assert(all[done.len() as int] == entry);
            }
        }
        lemma_mapping_push(done, entry);
        assert(done.push(entry) + rest == all);
        assert forall|i: int| 0 <= i < rest.len() implies writable(#[trigger] rest[i]) by {
            assert(rest[i] == todo[i + 1]);
        }
        lemma_reading_rendered(done.push(entry), rest);
    }
}

/// What is written is read back: the text rendered for entries with
/// distinct names that can be written stands for the mapping of those
/// entries.
pub proof fn law_rendered_reads_back(entries: Seq<Entry>)
    requires
        names_distinct(entries),
        forall|i: int| 0 <= i < entries.len() ==> writable(#[trigger] entries[i]),
    ensures
        parsed(Format::Assignments, rendered(entries)) == mapping_of(entries),
{
    let none = Seq::<Entry>::empty();
    assert(none + entries == entries);
    assert(mapping_of(none) =~= Map::<Seq<char>, Seq<char>>::empty());
    lemma_reading_rendered(none, entries);
}

} // verus!
