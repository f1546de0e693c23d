//! Unified diffs written out: the text of a diff, from which the reader
//! builds the same diff again.

use vstd::prelude::*;
use crate::decimal::{decimal, push_decimal};
use crate::diff::{
    new_file_marker, old_file_marker, parse_diff, GitDiff, GitDiffChange, GitDiffChangeView,
    GitDiffFile, GitDiffFileView, GitDiffView, Line, LineView, Location, ParseError, Status,
};
use crate::diff_laws::{lemma_written_diff_reads_back, plain_diff};
use crate::text::{joined, lemma_joined_concat, string_of};

verus! {

/// The character that gives a line its status.
pub open spec fn status_char(status: Status) -> char {
    match status {
        Status::Added => '+',
        Status::Removed => '-',
        Status::Unchanged => ' ',
    }
}

/// A line of a hunk as it stands in a diff.
pub open spec fn line_text(line: LineView) -> Seq<char> {
    seq![status_char(line.status)] + line.contents
}

/// A location as it stands in a hunk header: `line,column`.
pub open spec fn location_text(location: Location) -> Seq<char> {
    decimal(location.line_number as nat) + seq![','] + decimal(location.column_number as nat)
}

/// The header of a hunk: `@@ -line,column +line,column @@ context`.
pub open spec fn header_text(change: GitDiffChangeView) -> Seq<char> {
    seq!['@', '@', ' ', '-'] + location_text(change.old_location) + seq![' ', '+'] + location_text(
        change.new_location,
    ) + seq![' ', '@', '@', ' '] + change.context
}

/// The lines of a hunk as they stand in a diff.
pub open spec fn lines_text(lines: Seq<LineView>) -> Seq<Seq<char>> {
    lines.map_values(|l: LineView| line_text(l))
}

/// A hunk as it stands in a diff: its header, then its lines.
pub open spec fn change_lines(change: GitDiffChangeView) -> Seq<Seq<char>> {
    seq![header_text(change)] + lines_text(change.contents)
}

/// Hunks as they stand in a diff, one after the other.
pub open spec fn changes_lines(changes: Seq<GitDiffChangeView>) -> Seq<Seq<char>>
    decreases changes.len(),
{
    if changes.len() == 0 {
        seq![]
    } else {
        change_lines(changes[0]) + changes_lines(changes.drop_first())
    }
}

/// The two lines that open a file: `--- old path` and `+++ new path`.
pub open spec fn file_head(file: GitDiffFileView) -> Seq<Seq<char>> {
    seq![
        old_file_marker() + seq![' '] + file.old_path,
        new_file_marker() + seq![' '] + file.new_path,
    ]
}

/// A file as it stands in a diff: the two lines that open it, then its
/// hunks.
pub open spec fn file_lines(file: GitDiffFileView) -> Seq<Seq<char>> {
    file_head(file) + changes_lines(file.changes)
}

/// Files as they stand in a diff, one after the other.
pub open spec fn files_lines(files: Seq<GitDiffFileView>) -> Seq<Seq<char>>
    decreases files.len(),
{
    if files.len() == 0 {
        seq![]
    } else {
        file_lines(files[0]) + files_lines(files.drop_first())
    }
}

/// The text of a diff: its lines, each with a line feed after it.
pub open spec fn diff_text(diff: GitDiffView) -> Seq<char> {
    joined(files_lines(diff.files))
}

/// The hunks of two lists, one after the other, stand in a diff as the
/// first list and then the second.
pub proof fn lemma_changes_lines_concat(a: Seq<GitDiffChangeView>, b: Seq<GitDiffChangeView>)
    ensures
        changes_lines(a + b) == changes_lines(a) + changes_lines(b),
    decreases a.len(),
{
    if a.len() == 0 {
        assert(a + b == b);
    } else {
        lemma_changes_lines_concat(a.drop_first(), b);
        assert((a + b).drop_first() == a.drop_first() + b);
    }
}

/// The files of two lists, one after the other, stand in a diff as the
/// first list and then the second.
pub proof fn lemma_files_lines_concat(a: Seq<GitDiffFileView>, b: Seq<GitDiffFileView>)
    ensures
        files_lines(a + b) == files_lines(a) + files_lines(b),
    decreases a.len(),
{
    if a.len() == 0 {
        assert(a + b == b);
    } else {
        lemma_files_lines_concat(a.drop_first(), b);
        assert((a + b).drop_first() == a.drop_first() + b);
    }
}

/// A single hunk stands in a diff as its header and its lines.
pub proof fn lemma_changes_lines_one(change: GitDiffChangeView)
    ensures
        changes_lines(seq![change]) == change_lines(change),
{
    assert(seq![change].drop_first() == Seq::<GitDiffChangeView>::empty());
    assert(changes_lines(Seq::<GitDiffChangeView>::empty()) == Seq::<Seq<char>>::empty());
    assert(change_lines(change) + Seq::<Seq<char>>::empty() == change_lines(change));
}

/// A single file stands in a diff as the lines that open it and its hunks.
pub proof fn lemma_files_lines_one(file: GitDiffFileView)
    ensures
        files_lines(seq![file]) == file_lines(file),
{
    assert(seq![file].drop_first() == Seq::<GitDiffFileView>::empty());
    assert(files_lines(Seq::<GitDiffFileView>::empty()) == Seq::<Seq<char>>::empty());
    assert(file_lines(file) + Seq::<Seq<char>>::empty() == file_lines(file));
}

/// Appends the characters of `s` to `out`.
fn push_chars(out: &mut Vec<char>, s: &str)
    ensures
        final(out)@ == old(out)@ + s@,
{
    for c in it: s.chars()
        invariant
            it.seq() == s@,
            out@ == old(out)@ + s@.take(it.index()),
    {
        out.push(c);
    }
}

/// Appends `line,column` to `out`.
fn push_location(out: &mut Vec<char>, location: &Location)
    ensures
        final(out)@ == old(out)@ + location_text(*location),
{
    push_decimal(out, location.line_number);
    out.push(',');
    push_decimal(out, location.column_number);
    assert(out@ == old(out)@ + location_text(*location));
}

/// Appends a line of a hunk and a line feed to `out`.
fn push_line(out: &mut Vec<char>, line: &Line)
    ensures
        final(out)@ == old(out)@ + joined(seq![line_text(line@)]),
{
    match line.status {
        Status::Added => out.push('+'),
        Status::Removed => out.push('-'),
        Status::Unchanged => out.push(' '),
    }
    push_chars(out, line.contents.as_str());
    out.push('\n');
    proof {
        lemma_joined_one(line_text(line@));
        assert(out@ == old(out)@ + (line_text(line@) + seq!['\n']));
    }
}

/// The text of a single line is the line and a line feed.
pub proof fn lemma_joined_one(line: Seq<char>)
    ensures
        joined(seq![line]) == line + seq!['\n'],
{
    assert(seq![line].drop_first() == Seq::<Seq<char>>::empty());
    assert(joined(Seq::<Seq<char>>::empty()) == Seq::<char>::empty());
    assert(joined(seq![line]) == line + seq!['\n'] + Seq::<char>::empty());
}

/// Appends a hunk to `out`: its header and its lines, each with a line feed.
fn push_change(out: &mut Vec<char>, change: &GitDiffChange)
    ensures
        final(out)@ == old(out)@ + joined(change_lines(change@)),
{
    out.push('@');
    out.push('@');
    out.push(' ');
    out.push('-');
    push_location(out, &change.old_location);
    out.push(' ');
    out.push('+');
    push_location(out, &change.new_location);
    out.push(' ');
    out.push('@');
    out.push('@');
    out.push(' ');
    push_chars(out, change.context.as_str());
    out.push('\n');
    proof {
        lemma_joined_one(header_text(change@));
        assert(out@ == old(out)@ + (header_text(change@) + seq!['\n']));
        assert(lines_text(change@.contents.take(0)) == Seq::<Seq<char>>::empty());
        lemma_joined_concat(seq![header_text(change@)], Seq::<Seq<char>>::empty());
    }
    let mut i: usize = 0;
    while i < change.contents.len()
        invariant
            i <= change.contents.len(),
            out@ == old(out)@ + joined(
                seq![header_text(change@)] + lines_text(change@.contents.take(i as int)),
            ),
        decreases change.contents.len() - i,
    {
        let ghost done = seq![header_text(change@)] + lines_text(change@.contents.take(i as int));
        let ghost line = line_text(change.contents[i as int]@);
        push_line(out, &change.contents[i]);
        proof {
            lemma_joined_concat(done, seq![line]);
            assert(change@.contents[i as int] == change.contents[i as int]@);
            assert(lines_text(change@.contents.take(i + 1)) == lines_text(
                change@.contents.take(i as int),
            ).push(line));
            assert(done + seq![line] == seq![header_text(change@)] + lines_text(
                change@.contents.take(i + 1),
            ));
        }
        i += 1;
    }
    assert(change@.contents.take(i as int) == change@.contents);
}

/// Appends a file to `out`: the two lines that open it and its hunks.
fn push_file(out: &mut Vec<char>, file: &GitDiffFile)
    ensures
        final(out)@ == old(out)@ + joined(file_lines(file@)),
{
    out.push('-');
    out.push('-');
    out.push('-');
    out.push(' ');
    push_chars(out, file.old_path.as_str());
    out.push('\n');
    out.push('+');
    out.push('+');
    out.push('+');
    out.push(' ');
    push_chars(out, file.new_path.as_str());
    out.push('\n');
    proof {
        let first = old_file_marker() + seq![' '] + file@.old_path;
        let second = new_file_marker() + seq![' '] + file@.new_path;
        lemma_joined_one(first);
        lemma_joined_one(second);
        lemma_joined_concat(seq![first], seq![second]);
        assert(seq![first] + seq![second] == file_head(file@));
        assert(out@ == old(out)@ + ((first + seq!['\n']) + (second + seq!['\n'])));
        assert(changes_lines(file@.changes.take(0)) == Seq::<Seq<char>>::empty());
        assert(file_head(file@) + Seq::<Seq<char>>::empty() == file_head(file@));
    }
    let mut i: usize = 0;
    while i < file.changes.len()
        invariant
            i <= file.changes.len(),
            out@ == old(out)@ + joined(
                file_head(file@) + changes_lines(file@.changes.take(i as int)),
            ),
        decreases file.changes.len() - i,
    {
        let ghost done = file@.changes.take(i as int);
        let ghost change = file.changes[i as int]@;
        push_change(out, &file.changes[i]);
        proof {
            assert(file@.changes[i as int] == change);
            assert(file@.changes.take(i + 1) == done + seq![change]);
            lemma_changes_lines_concat(done, seq![change]);
            lemma_changes_lines_one(change);
            lemma_joined_concat(file_head(file@) + changes_lines(done), change_lines(change));
            assert(file_head(file@) + changes_lines(done) + change_lines(change) == file_head(
                file@,
            ) + changes_lines(file@.changes.take(i + 1)));
        }
        i += 1;
    }
    assert(file@.changes.take(i as int) == file@.changes);
}

impl Location {
    /// The location in words: `line:column`.
    pub fn to_string(&self) -> (s: String)
        ensures
            s@ == decimal(self.line_number as nat) + seq![':'] + decimal(
                self.column_number as nat,
            ),
    {
        let mut out: Vec<char> = Vec::new();
        push_decimal(&mut out, self.line_number);
        out.push(':');
        push_decimal(&mut out, self.column_number);
        assert(out@ == decimal(self.line_number as nat) + seq![':'] + decimal(
            self.column_number as nat,
        ));
        string_of(out.as_slice())
    }
}

impl GitDiff {
    /// The text of the diff: for each file the two lines that open it, then
    /// for each of its hunks the header and the lines. The text of a diff
    /// that was read reads as the same diff.
    pub fn to_text(&self) -> (text: String)
        ensures
            text@ == diff_text(self@),
            plain_diff(self@) ==> parse_diff(text@) == Ok::<_, ParseError>(self@),
    {
        proof {
            if plain_diff(self@) {
                lemma_written_diff_reads_back(self@);
            }
        }
        let mut out: Vec<char> = Vec::new();
        let mut i: usize = 0;
        assert(files_lines(self@.files.take(0)) == Seq::<Seq<char>>::empty());
        assert(out@ == joined(files_lines(self@.files.take(0))));
        while i < self.files.len()
            invariant
                i <= self.files.len(),
                out@ == joined(files_lines(self@.files.take(i as int))),
            decreases self.files.len() - i,
        {
            let ghost done = self@.files.take(i as int);
            let ghost file = self.files[i as int]@;
            push_file(&mut out, &self.files[i]);
            proof {
                assert(self@.files[i as int] == file);
                assert(self@.files.take(i + 1) == done + seq![file]);
                lemma_files_lines_concat(done, seq![file]);
                lemma_files_lines_one(file);
                lemma_joined_concat(files_lines(done), file_lines(file));
            }
            i += 1;
        }
        assert(self@.files.take(i as int) == self@.files);
        string_of(out.as_slice())
    }
}

} // verus!
