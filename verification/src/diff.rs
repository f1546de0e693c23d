//! Unified diffs: the document that a patch text describes, and the reader
//! that builds it.
//!
//! A text is read line by line. A line that begins with `---` and is followed
//! by a line that begins with `+++` opens a file; the lines up to the next
//! line that begins with `---` belong to it. Among them a line that begins
//! with `@@ ` is a hunk header, and a line that begins with `+`, `-` or a
//! space is a line of the hunk whose header came last.

use vstd::prelude::*;
use crate::decimal::{parse, parse_decimal};
use crate::diff_laws::{lemma_read_is_plain, plain_diff};
use crate::text::{
    chars_of, lines_of, lines_view, split_at_first, split_lines, split_once, starts_with, string_of,
    strip, trim, trim_matches, trimmed, CharClass,
};

verus! {

/// What a line of a hunk says of its text.
#[derive(Clone, Copy, Debug, PartialEq, Eq, Structural)]
pub enum Status {
    Added,
    Removed,
    Unchanged,
}

/// A place in a file: a line and a column.
#[derive(Clone, Copy, Debug, PartialEq, Eq, Structural)]
pub struct Location {
    pub line_number: usize,
    pub column_number: usize,
}

/// One line of a hunk, without the character that gave its status.
#[derive(Clone, Debug, PartialEq, Eq)]
pub struct Line {
    pub contents: String,
    pub status: Status,
}

/// A hunk: where it stands in the old and in the new file, the text that
/// followed its header, and its lines.
#[derive(Clone, Debug, PartialEq, Eq)]
pub struct GitDiffChange {
    pub context: String,
    pub old_location: Location,
    pub new_location: Location,
    pub contents: Vec<Line>,
}

/// The hunks of one file.
#[derive(Clone, Debug, PartialEq, Eq)]
pub struct GitDiffFile {
    pub old_path: String,
    pub new_path: String,
    pub changes: Vec<GitDiffChange>,
}

/// A unified diff.
#[derive(Clone, Debug, PartialEq, Eq)]
pub struct GitDiff {
    pub files: Vec<GitDiffFile>,
}

/// Why a text is no unified diff. `line` counts the lines of the text from 0.
#[derive(Clone, Copy, Debug, PartialEq, Eq, Structural)]
pub enum ParseError {
    /// The hunk header in this line gives a location that is no
    /// `line[,column]` pair of numbers.
    InvalidLocation { line: usize },
    /// This line belongs to a hunk, and its file has no hunk header yet.
    LineOutsideHunk { line: usize },
}

/// A line of a hunk, with its text as a sequence of characters.
pub struct LineView {
    pub contents: Seq<char>,
    pub status: Status,
}

/// A hunk, with its texts as sequences of characters.
pub struct GitDiffChangeView {
    pub context: Seq<char>,
    pub old_location: Location,
    pub new_location: Location,
    pub contents: Seq<LineView>,
}

/// The hunks of one file, with its paths as sequences of characters.
pub struct GitDiffFileView {
    pub old_path: Seq<char>,
    pub new_path: Seq<char>,
    pub changes: Seq<GitDiffChangeView>,
}

/// A unified diff, with its texts as sequences of characters.
pub struct GitDiffView {
    pub files: Seq<GitDiffFileView>,
}

impl View for Line {
    type V = LineView;

    open spec fn view(&self) -> LineView {
        LineView { contents: self.contents@, status: self.status }
    }
}

impl View for GitDiffChange {
    type V = GitDiffChangeView;

    open spec fn view(&self) -> GitDiffChangeView {
        GitDiffChangeView {
            context: self.context@,
            old_location: self.old_location,
            new_location: self.new_location,
            contents: self.contents@.map_values(|l: Line| l@),
        }
    }
}

/// The views of a list of hunks.
pub open spec fn changes_view(changes: Seq<GitDiffChange>) -> Seq<GitDiffChangeView> {
    changes.map_values(|c: GitDiffChange| c@)
}

impl View for GitDiffFile {
    type V = GitDiffFileView;

    open spec fn view(&self) -> GitDiffFileView {
        GitDiffFileView {
            old_path: self.old_path@,
            new_path: self.new_path@,
            changes: changes_view(self.changes@),
        }
    }
}

/// The views of a list of files.
pub open spec fn files_view(files: Seq<GitDiffFile>) -> Seq<GitDiffFileView> {
    files.map_values(|f: GitDiffFile| f@)
}

impl View for GitDiff {
    type V = GitDiffView;

    open spec fn view(&self) -> GitDiffView {
        GitDiffView { files: files_view(self.files@) }
    }
}

/// `---`, which begins the line that names the old file.
pub open spec fn old_file_marker() -> Seq<char> {
    seq!['-', '-', '-']
}

/// `+++`, which begins the line that names the new file.
pub open spec fn new_file_marker() -> Seq<char> {
    seq!['+', '+', '+']
}

/// `@@ `, which begins a hunk header.
pub open spec fn hunk_marker() -> Seq<char> {
    seq!['@', '@', ' ']
}

/// `@@`, which ends the locations of a hunk header.
pub open spec fn hunk_end() -> Seq<char> {
    seq!['@', '@']
}

/// The location that `s` denotes: a line number, or a line number, a comma
/// and a column number, with white space around the whole allowed. Without a
/// column the column is 0.
pub open spec fn location_of(s: Seq<char>) -> Option<Location> {
    let t = trimmed(s);
    match split_at_first(t, seq![',']) {
        Some((line, column)) => match (parse_decimal(line), parse_decimal(column)) {
            (Some(line_number), Some(column_number)) => Some(
                Location { line_number, column_number },
            ),
            _ => None,
        },
        None => match parse_decimal(t) {
            Some(line_number) => Some(Location { line_number, column_number: 0 }),
            None => None,
        },
    }
}

/// What a line that begins with `@@ ` holds.
pub enum Header<T> {
    /// The line has no second `@@`, or no space between the two locations:
    /// it is no hunk header.
    Absent,
    /// One of the locations does not denote a location.
    Malformed,
    /// A hunk with these locations and this context, and no lines yet.
    Hunk(T),
}

/// The hunk header in `rest`, the text that follows `@@ `. Up to the next
/// `@@` stand the two locations, parted by the first space; the old one is
/// read without the `-` at its ends, the new one without the `+` at its ends.
/// What follows the `@@` is the context, read without the white space at its
/// ends.
pub open spec fn hunk_header(rest: Seq<char>) -> Header<GitDiffChangeView> {
    match split_at_first(rest, hunk_end()) {
        None => Header::Absent,
        Some((locations, context)) => match split_at_first(locations, seq![' ']) {
            None => Header::Absent,
            Some((minus, plus)) => match (
                location_of(strip(minus, CharClass::Only('-'))),
                location_of(strip(plus, CharClass::Only('+'))),
            ) {
                (Some(old_location), Some(new_location)) => Header::Hunk(
                    GitDiffChangeView {
                        context: trimmed(context),
                        old_location,
                        new_location,
                        contents: seq![],
                    },
                ),
                _ => Header::Malformed,
            },
        },
    }
}

/// The status that the first character of a line gives it.
pub open spec fn status_of(line: Seq<char>) -> Option<Status> {
    if line.len() == 0 {
        None
    } else if line[0] == '+' {
        Some(Status::Added)
    } else if line[0] == '-' {
        Some(Status::Removed)
    } else if line[0] == ' ' {
        Some(Status::Unchanged)
    } else {
        None
    }
}

/// `changes` with `line` added to the lines of its last hunk.
pub open spec fn with_line(changes: Seq<GitDiffChangeView>, line: LineView) -> Seq<
    GitDiffChangeView,
>
    recommends
        changes.len() > 0,
{
    changes.update(
        changes.len() - 1,
        GitDiffChangeView { contents: changes.last().contents.push(line), ..changes.last() },
    )
}

/// The hunks of a file after one more of its lines, the line numbered
/// `index`, was read. A hunk header adds a hunk. A line with a status goes
/// to the last hunk. Any other line changes nothing.
pub open spec fn read_line(changes: Seq<GitDiffChangeView>, line: Seq<char>, index: nat) -> Result<
    Seq<GitDiffChangeView>,
    ParseError,
> {
    if hunk_marker().is_prefix_of(line) {
        match hunk_header(line.skip(3)) {
            Header::Absent => Ok(changes),
            Header::Malformed => Err(ParseError::InvalidLocation { line: index as usize }),
            Header::Hunk(hunk) => Ok(changes.push(hunk)),
        }
    } else {
        match status_of(line) {
            None => Ok(changes),
            Some(status) => if changes.len() == 0 {
                Err(ParseError::LineOutsideHunk { line: index as usize })
            } else {
                Ok(with_line(changes, LineView { contents: line.skip(1), status }))
            },
        }
    }
}

/// `files` with the hunks of its last file replaced by `changes`.
pub open spec fn with_changes(
    files: Seq<GitDiffFileView>,
    changes: Seq<GitDiffChangeView>,
) -> Seq<GitDiffFileView>
    recommends
        files.len() > 0,
{
    files.update(files.len() - 1, GitDiffFileView { changes, ..files.last() })
}

/// The files of a diff of which `files` were read already, `lines` are still
/// to be read, and the first of `lines` is numbered `index`. `in_file` says that
/// the last of `files` still takes lines. A line that begins with `---`
/// closes the file that was open. With a line that begins with `+++` after
/// it, the two open a new file; without one it opens none, and the reading
/// goes on with the line after it.
pub open spec fn read_lines(
    lines: Seq<Seq<char>>,
    index: nat,
    files: Seq<GitDiffFileView>,
    in_file: bool,
) -> Result<Seq<GitDiffFileView>, ParseError>
    decreases lines.len(),
{
    if lines.len() == 0 {
        Ok(files)
    } else if old_file_marker().is_prefix_of(lines[0]) {
        if lines.len() > 1 && new_file_marker().is_prefix_of(lines[1]) {
            let file = GitDiffFileView {
                old_path: trimmed(lines[0].skip(3)),
                new_path: trimmed(lines[1].skip(3)),
                changes: seq![],
            };
            read_lines(lines.skip(2), index + 2, files.push(file), true)
        } else {
            read_lines(lines.drop_first(), index + 1, files, false)
        }
    } else if in_file && files.len() > 0 {
        match read_line(files.last().changes, lines[0], index) {
            Ok(changes) => read_lines(
                lines.drop_first(),
                index + 1,
                with_changes(files, changes),
                true,
            ),
            Err(e) => Err(e),
        }
    } else {
        read_lines(lines.drop_first(), index + 1, files, false)
    }
}

/// The diff that a text describes.
pub open spec fn parse_diff(text: Seq<char>) -> Result<GitDiffView, ParseError> {
    match read_lines(lines_of(text), 0, seq![], false) {
        Ok(files) => Ok(GitDiffView { files }),
        Err(e) => Err(e),
    }
}

impl Location {
    /// Reads a location from its characters.
    pub fn from_chars(s: &[char]) -> (r: Option<Location>)
        ensures
            r == location_of(s@),
    {
        let t = trim(s);
        let comma: [char; 1] = [','];
        assert(comma@ == seq![',']);
        match split_once(t, comma.as_slice()) {
            Some((line, column)) => match (parse(line), parse(column)) {
                (Some(line_number), Some(column_number)) => Some(
                    Location { line_number, column_number },
                ),
                _ => None,
            },
            None => match parse(t) {
                Some(line_number) => Some(Location { line_number, column_number: 0 }),
                None => None,
            },
        }
    }

    /// Reads a location: `line` or `line,column`, with white space around it
    /// allowed. It fails on any other text.
    pub fn from_str(s: &str) -> (r: Result<Location, ()>)
        ensures
            match r {
                Ok(location) => location_of(s@) == Some(location),
                Err(_) => location_of(s@) is None,
            },
    {
        let chars = chars_of(s);
        match Location::from_chars(chars.as_slice()) {
            Some(location) => Ok(location),
            None => Err(()),
        }
    }
}

/// The view of what a line that begins with `@@ ` holds.
pub open spec fn header_view(header: Header<GitDiffChange>) -> Header<GitDiffChangeView> {
    match header {
        Header::Absent => Header::Absent,
        Header::Malformed => Header::Malformed,
        Header::Hunk(hunk) => Header::Hunk(hunk@),
    }
}

/// Reads the hunk header in `rest`, the text that follows `@@ `.
fn read_header(rest: &[char]) -> (r: Header<GitDiffChange>)
    ensures
        header_view(r) == hunk_header(rest@),
{
    let end: [char; 2] = ['@', '@'];
    let space: [char; 1] = [' '];
    assert(end@ == hunk_end());
    assert(space@ == seq![' ']);
    match split_once(rest, end.as_slice()) {
        None => Header::Absent,
        Some((locations, context)) => match split_once(locations, space.as_slice()) {
            None => Header::Absent,
            Some((minus, plus)) => {
                let old_location = Location::from_chars(trim_matches(minus, '-'));
                let new_location = Location::from_chars(trim_matches(plus, '+'));
                match (old_location, new_location) {
                    (Some(old_location), Some(new_location)) => {
                        let hunk = GitDiffChange {
                            context: string_of(trim(context)),
                            old_location,
                            new_location,
                            contents: Vec::new(),
                        };
                        assert(hunk@.contents == Seq::<LineView>::empty());
                        Header::Hunk(hunk)
                    },
                    _ => Header::Malformed,
                }
            },
        }
    }
}

/// The status that the first character of `line` gives it.
fn read_status(line: &[char]) -> (r: Option<Status>)
    ensures
        r == status_of(line@),
{
    if line.len() == 0 {
        None
    } else if line[0] == '+' {
        Some(Status::Added)
    } else if line[0] == '-' {
        Some(Status::Removed)
    } else if line[0] == ' ' {
        Some(Status::Unchanged)
    } else {
        None
    }
}

/// Reads one line of a file, the line numbered `index`, into its hunks.
fn read_into(changes: &mut Vec<GitDiffChange>, line: &[char], index: usize) -> (r: Result<
    (),
    ParseError,
>)
    ensures
        match r {
            Ok(_) => read_line(changes_view(old(changes)@), line@, index as nat) == Ok::<
                _,
                ParseError,
            >(changes_view(final(changes)@)),
            Err(e) => read_line(changes_view(old(changes)@), line@, index as nat) == Err::<
                Seq<GitDiffChangeView>,
                _,
            >(e),
        },
{
    let marker: [char; 3] = ['@', '@', ' '];
    assert(marker@ == hunk_marker());
    if starts_with(line, marker.as_slice()) {
        let rest = &line[3..line.len()];
        assert(rest@ == line@.skip(3));
        match read_header(rest) {
            Header::Absent => Ok(()),
            Header::Malformed => Err(ParseError::InvalidLocation { line: index }),
            Header::Hunk(hunk) => {
                changes.push(hunk);
                assert(changes_view(changes@) == changes_view(old(changes)@).push(hunk@));
                Ok(())
            },
        }
    } else {
        match read_status(line) {
            None => Ok(()),
            Some(status) => {
                let n = changes.len();
                if n == 0 {
                    Err(ParseError::LineOutsideHunk { line: index })
                } else {
                    let rest = &line[1..line.len()];
                    assert(rest@ == line@.skip(1));
                    let entry = Line { contents: string_of(rest), status };
                    let hunk: &mut GitDiffChange = &mut changes[n - 1];
                    hunk.contents.push(entry);
                    proof {
                        let before = changes_view(old(changes)@);
                        assert(changes@[n - 1]@.contents == before.last().contents.push(entry@));
                        assert(changes_view(changes@) == with_line(before, entry@));
                    }
                    Ok(())
                }
            },
        }
    }
}

impl GitDiff {
    /// Reads a unified diff. The text of a diff with no file, the empty text
    /// among them, gives a diff with no file. The reading fails on a hunk
    /// header with a location that is no `line[,column]` pair of numbers,
    /// and on a hunk line before the first hunk header of its file. A diff
    /// that was read is one whose text reads as the same diff.
    pub fn from_str(s: &str) -> (r: Result<GitDiff, ParseError>)
        ensures
            match r {
                Ok(diff) => parse_diff(s@) == Ok::<_, ParseError>(diff@),
                Err(e) => parse_diff(s@) == Err::<GitDiffView, _>(e),
            },
            r matches Ok(diff) ==> plain_diff(diff@),
    {
        proof {
            lemma_read_is_plain(s@);
        }
        let chars = chars_of(s);
        let lines = split_lines(chars.as_slice());
        let old_marker: [char; 3] = ['-', '-', '-'];
        let new_marker: [char; 3] = ['+', '+', '+'];
        let mut files: Vec<GitDiffFile> = Vec::new();
        let mut in_file = false;
        let mut i: usize = 0;
        let ghost all = lines_of(s@);
        assert(all.skip(0) == all);
        assert(files_view(files@) == Seq::<GitDiffFileView>::empty());
        while i < lines.len()
            invariant
                i <= lines.len(),
                all == lines_of(s@),
                all == lines_view(lines@),
                old_marker@ == old_file_marker(),
                new_marker@ == new_file_marker(),
                read_lines(all, 0, seq![], false) == read_lines(
                    all.skip(i as int),
                    i as nat,
                    files_view(files@),
                    in_file,
                ),
            decreases lines.len() - i,
        {
            let line = lines[i].as_slice();
            let ghost rest = all.skip(i as int);
            let ghost before = files_view(files@);
            assert(rest[0] == line@);
            if starts_with(line, old_marker.as_slice()) {
                assert(rest.drop_first() == all.skip(i + 1));
                if i + 1 < lines.len() && starts_with(lines[i + 1].as_slice(), new_marker.as_slice()) {
                    let next = lines[i + 1].as_slice();
                    assert(rest[1] == next@);
                    assert(rest.skip(2) == all.skip(i + 2));
                    let old_path = string_of(trim(&line[3..line.len()]));
                    let new_path = string_of(trim(&next[3..next.len()]));
                    let file = GitDiffFile { old_path, new_path, changes: Vec::new() };
                    assert(file@.changes == Seq::<GitDiffChangeView>::empty());
                    assert(line@.subrange(3, line@.len() as int) == line@.skip(3));
                    assert(next@.subrange(3, next@.len() as int) == next@.skip(3));
                    files.push(file);
                    assert(files_view(files@) == before.push(file@));
                    in_file = true;
                    i = i + 2;
                } else {
                    assert(i + 1 < lines.len() ==> rest[1] == lines[i + 1]@);
                    in_file = false;
                    i = i + 1;
                }
            } else {
                assert(rest.drop_first() == all.skip(i + 1));
                let n = files.len();
                if in_file && n > 0 {
                    assert(before.last().changes == changes_view(files@[n - 1].changes@));
                    let file: &mut GitDiffFile = &mut files[n - 1];
                    match read_into(&mut file.changes, line, i) {
                        Ok(_) => {
                            assert(files_view(files@) == with_changes(
                                before,
                                changes_view(files@[n - 1].changes@),
                            ));
                        },
                        Err(e) => {
                            return Err(e);
                        },
                    }
                } else {
                    in_file = false;
                }
                i = i + 1;
            }
        }
        assert(all.skip(i as int).len() == 0);
        Ok(GitDiff { files })
    }
}

} // verus!
