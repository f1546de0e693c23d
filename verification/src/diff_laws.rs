//! What holds of the reader and the writer of diffs together: the text of a
//! diff that was read reads as the same diff.

use vstd::prelude::*;
use crate::decimal::{decimal, is_digit, lemma_decimal, lemma_parse_decimal};
use crate::diff::{
    hunk_end, hunk_header, hunk_marker, location_of, new_file_marker, old_file_marker, parse_diff,
    read_line, read_lines, status_of, with_changes, with_line, GitDiffChangeView, GitDiffFileView,
    GitDiffView, Header, LineView, Location, ParseError, Status,
};
use crate::diff_text::{
    change_lines, changes_lines, diff_text, file_head, file_lines, files_lines, header_text,
    line_text, lines_text, location_text, status_char,
};
use crate::text::{
    first_match, is_stripped, lemma_first_match, lemma_lines_hold_no_newline,
    lemma_lines_of_joined, lemma_split_at_first, lemma_strip_around, lemma_strip_is_part,
    lines_of, no_newline, split_at_first, strip, trimmed, white, CharClass,
};

verus! {

/// A digit or a comma: what a location is written with.
pub open spec fn location_char(c: char) -> bool {
    is_digit(c) || c == ','
}

/// A location is written with digits and a comma, and begins and ends with
/// a digit.
pub proof fn lemma_location_text(location: Location)
    ensures
        location_text(location).len() >= 3,
        is_digit(location_text(location)[0]),
        is_digit(location_text(location).last()),
        forall|i: int|
            0 <= i < location_text(location).len() ==> location_char(
                #[trigger] location_text(location)[i],
            ),
{
    lemma_decimal(location.line_number as nat);
    lemma_decimal(location.column_number as nat);
    let line = decimal(location.line_number as nat);
    let column = decimal(location.column_number as nat);
    let text = location_text(location);
    assert(text[0] == line[0]);
    assert(text.last() == column.last());
    assert forall|i: int| 0 <= i < text.len() implies location_char(#[trigger] text[i]) by {
        if i < line.len() {
            assert(text[i] == line[i]);
        } else if i > line.len() {
            assert(text[i] == column[i - line.len() - 1]);
        }
    }
}

/// A location that was written, with or without spaces after it, reads as
/// the same location.
pub proof fn lemma_read_location(location: Location, spaces: Seq<char>)
    requires
        forall|i: int| 0 <= i < spaces.len() ==> white(#[trigger] spaces[i]),
    ensures
        location_of(location_text(location) + spaces) == Some(location),
{
    lemma_decimal(location.line_number as nat);
    lemma_decimal(location.column_number as nat);
    lemma_location_text(location);
    lemma_parse_decimal(location.line_number);
    lemma_parse_decimal(location.column_number);
    let line = decimal(location.line_number as nat);
    let column = decimal(location.column_number as nat);
    let text = location_text(location);
    lemma_strip_around(seq![], text, spaces, CharClass::Whitespace);
    assert(Seq::<char>::empty() + text + spaces == text + spaces);
    lemma_split_at_first(line, seq![','], column);
}

/// The locations of a header that was written read as they were.
proof fn lemma_read_locations(old_location: Location, new_location: Location)
    ensures
        ({
            let locations = seq!['-'] + location_text(old_location) + seq![' '] + (seq!['+']
                + location_text(new_location) + seq![' ']);
            match split_at_first(locations, seq![' ']) {
                Some((minus, plus)) => {
                    &&& location_of(strip(minus, CharClass::Only('-'))) == Some(old_location)
                    &&& location_of(strip(plus, CharClass::Only('+'))) == Some(new_location)
                },
                None => false,
            }
        }),
{
    let old_text = location_text(old_location);
    let new_text = location_text(new_location);
    lemma_location_text(old_location);
    lemma_location_text(new_location);
    let minus = seq!['-'] + old_text;
    let plus = seq!['+'] + new_text + seq![' '];
    assert forall|j: int| 0 <= j < minus.len() implies #[trigger] minus[j] != ' ' by {
        if j > 0 {
            assert(minus[j] == old_text[j - 1]);
        }
    }
    lemma_split_at_first(minus, seq![' '], plus);
    lemma_strip_around(seq!['-'], old_text, seq![], CharClass::Only('-'));
    assert(seq!['-'] + old_text + Seq::<char>::empty() == minus);
    assert(is_stripped(new_text + seq![' '], CharClass::Only('+'))) by {
        assert((new_text + seq![' '])[0] == new_text[0]);
        assert((new_text + seq![' ']).last() == ' ');
    }
    lemma_strip_around(seq!['+'], new_text + seq![' '], seq![], CharClass::Only('+'));
    assert(seq!['+'] + (new_text + seq![' ']) + Seq::<char>::empty() == plus);
    lemma_read_location(old_location, seq![]);
    assert(old_text + Seq::<char>::empty() == old_text);
    lemma_read_location(new_location, seq![' ']);
}

/// The locations of a header hold no `@`.
proof fn lemma_locations_hold_no_at(old_location: Location, new_location: Location)
    ensures
        ({
            let locations = seq!['-'] + location_text(old_location) + seq![' '] + (seq!['+']
                + location_text(new_location) + seq![' ']);
            forall|j: int| 0 <= j < locations.len() ==> #[trigger] locations[j] != '@'
        }),
{
    let old_text = location_text(old_location);
    let new_text = location_text(new_location);
    lemma_location_text(old_location);
    lemma_location_text(new_location);
    let minus = seq!['-'] + old_text;
    let locations = minus + seq![' '] + (seq!['+'] + new_text + seq![' ']);
    let a = locations.len() as int;
    assert forall|j: int| 0 <= j < a implies #[trigger] locations[j] != '@' by {
        if j == 0 {
        } else if j < minus.len() {
            assert(locations[j] == old_text[j - 1]);
        } else if j == minus.len() {
        } else if j == minus.len() + 1 {
        } else if j < a - 1 {
            assert(locations[j] == new_text[j - minus.len() - 2]);
        } else {
        }
    }
}

/// The header of a hunk that was written reads as that hunk without its
/// lines.
pub proof fn lemma_read_header(change: GitDiffChangeView)
    requires
        is_stripped(change.context, CharClass::Whitespace),
    ensures
        hunk_marker().is_prefix_of(header_text(change)),
        !old_file_marker().is_prefix_of(header_text(change)),
        hunk_header(header_text(change).skip(3)) == Header::Hunk(
            GitDiffChangeView { contents: seq![], ..change },
        ),
{
    let locations = seq!['-'] + location_text(change.old_location) + seq![' '] + (seq!['+']
        + location_text(change.new_location) + seq![' ']);
    let context = seq![' '] + change.context;
    let rest = locations + hunk_end() + context;
    let header = header_text(change);
    assert(header == hunk_marker() + rest);
    assert(header.take(3) == hunk_marker());
    assert(header.skip(3) == rest);
    assert(!old_file_marker().is_prefix_of(header)) by {
        if old_file_marker().is_prefix_of(header) {
            assert(header.take(3)[0] == old_file_marker()[0]);
        }
    }
    lemma_locations_hold_no_at(change.old_location, change.new_location);
    lemma_split_at_first(locations, hunk_end(), context);
    lemma_strip_around(seq![' '], change.context, seq![], CharClass::Whitespace);
    assert(seq![' '] + change.context + Seq::<char>::empty() == context);
    lemma_read_locations(change.old_location, change.new_location);
}

/// A text that the reader leaves as it is: without white space at its ends
/// and without a line feed.
pub open spec fn plain_text(s: Seq<char>) -> bool {
    is_stripped(s, CharClass::Whitespace) && no_newline(s)
}

/// A line of a hunk that reads as it was written: it holds no line feed,
/// and where it is a removed line it does not begin with `--`, which would
/// make it a line that opens a file.
pub open spec fn plain_line(line: LineView) -> bool {
    &&& no_newline(line.contents)
    &&& line.status == Status::Removed ==> !seq!['-', '-'].is_prefix_of(line.contents)
}

/// Lines that read as they were written.
pub open spec fn plain_lines(lines: Seq<LineView>) -> bool {
    forall|i: int| 0 <= i < lines.len() ==> plain_line(#[trigger] lines[i])
}

/// A hunk that reads as it was written.
pub open spec fn plain_change(change: GitDiffChangeView) -> bool {
    plain_text(change.context) && plain_lines(change.contents)
}

/// Hunks that read as they were written.
pub open spec fn plain_changes(changes: Seq<GitDiffChangeView>) -> bool {
    forall|i: int| 0 <= i < changes.len() ==> plain_change(#[trigger] changes[i])
}

/// A file that reads as it was written.
pub open spec fn plain_file(file: GitDiffFileView) -> bool {
    plain_text(file.old_path) && plain_text(file.new_path) && plain_changes(file.changes)
}

/// Files that read as they were written.
pub open spec fn plain_files(files: Seq<GitDiffFileView>) -> bool {
    forall|i: int| 0 <= i < files.len() ==> plain_file(#[trigger] files[i])
}

/// A diff that reads as it was written. Every diff that the reader builds
/// is one.
pub open spec fn plain_diff(diff: GitDiffView) -> bool {
    plain_files(diff.files)
}

/// `files` with `lines` added to the last hunk of its last file.
pub open spec fn with_lines(files: Seq<GitDiffFileView>, lines: Seq<LineView>) -> Seq<
    GitDiffFileView,
>
    recommends
        files.len() > 0,
        files.last().changes.len() > 0,
{
    let changes = files.last().changes;
    with_changes(
        files,
        changes.update(
            changes.len() - 1,
            GitDiffChangeView { contents: changes.last().contents + lines, ..changes.last() },
        ),
    )
}

/// `files` with `hunks` added to its last file.
pub open spec fn with_hunks(files: Seq<GitDiffFileView>, hunks: Seq<GitDiffChangeView>) -> Seq<
    GitDiffFileView,
>
    recommends
        files.len() > 0,
{
    with_changes(files, files.last().changes + hunks)
}

/// A line of a hunk that was written reads as that line.
proof fn lemma_read_line(changes: Seq<GitDiffChangeView>, line: LineView, index: nat)
    requires
        changes.len() > 0,
        plain_line(line),
    ensures
        !old_file_marker().is_prefix_of(line_text(line)),
        read_line(changes, line_text(line), index) == Ok::<_, ParseError>(with_line(changes, line)),
{
    let text = line_text(line);
    assert(text[0] == status_char(line.status));
    assert(text.skip(1) == line.contents);
    if hunk_marker().is_prefix_of(text) {
        assert(text.take(3)[0] == hunk_marker()[0]);
    }
    if old_file_marker().is_prefix_of(text) {
        assert(text.take(3)[0] == '-');
        assert(text.take(3)[1] == '-');
        assert(text.take(3)[2] == '-');
        assert(line.contents.take(2) == seq!['-', '-']);
    }
}

/// The lines of a hunk that were written read as those lines, and go to the
/// hunk that was read last.
proof fn lemma_read_hunk_lines(
    lines: Seq<LineView>,
    rest: Seq<Seq<char>>,
    index: nat,
    files: Seq<GitDiffFileView>,
)
    requires
        files.len() > 0,
        files.last().changes.len() > 0,
        plain_lines(lines),
    ensures
        read_lines(lines_text(lines) + rest, index, files, true) == read_lines(
            rest,
            index + lines.len(),
            with_lines(files, lines),
            true,
        ),
    decreases lines.len(),
{
    let changes = files.last().changes;
    if lines.len() == 0 {
        assert(lines_text(lines) + rest == rest);
        let change = changes.last();
        assert(change.contents + lines == change.contents);
        assert(GitDiffChangeView { contents: change.contents + lines, ..change } == change);
        assert(changes.update(changes.len() - 1, change) == changes);
        assert(GitDiffFileView { changes, ..files.last() } == files.last());
        assert(files.update(files.len() - 1, files.last()) == files);
    } else {
        let all = lines_text(lines) + rest;
        let next = with_changes(files, with_line(changes, lines[0]));
        lemma_read_line(changes, lines[0], index);
        assert(all[0] == line_text(lines[0]));
        assert(all.drop_first() == lines_text(lines.drop_first()) + rest);
        lemma_read_hunk_lines(lines.drop_first(), rest, index + 1, next);
        let change = changes.last();
        let n = files.len() - 1;
        let m = changes.len() - 1;
        let grown = GitDiffChangeView { contents: change.contents.push(lines[0]), ..change };
        let full = GitDiffChangeView { contents: change.contents + lines, ..change };
        assert(change.contents.push(lines[0]) + lines.drop_first() == change.contents + lines);
        assert(next == files.update(
            n,
            GitDiffFileView { changes: changes.update(m, grown), ..files.last() },
        ));
        assert(next.last().changes == changes.update(m, grown));
        assert(next.last().changes.last() == grown);
        assert(GitDiffChangeView { contents: grown.contents + lines.drop_first(), ..grown }
            == full);
        assert(changes.update(m, grown).update(m, full) == changes.update(m, full));
        assert(with_lines(next, lines.drop_first()) == next.update(
            n,
            GitDiffFileView { changes: changes.update(m, full), ..next.last() },
        ));
        assert(GitDiffFileView { changes: changes.update(m, full), ..next.last() }
            == GitDiffFileView { changes: changes.update(m, full), ..files.last() });
        assert(next.update(
            n,
            GitDiffFileView { changes: changes.update(m, full), ..files.last() },
        ) == with_lines(files, lines));
    }
}

/// Hunks that were written read as those hunks, and go to the file that was
/// opened last.
proof fn lemma_read_hunks(
    hunks: Seq<GitDiffChangeView>,
    rest: Seq<Seq<char>>,
    index: nat,
    files: Seq<GitDiffFileView>,
)
    requires
        files.len() > 0,
        plain_changes(hunks),
    ensures
        read_lines(changes_lines(hunks) + rest, index, files, true) == read_lines(
            rest,
            index + changes_lines(hunks).len(),
            with_hunks(files, hunks),
            true,
        ),
    decreases hunks.len(),
{
    let changes = files.last().changes;
    if hunks.len() == 0 {
        assert(changes_lines(hunks) + rest == rest);
        assert(changes + hunks == changes);
        assert(with_hunks(files, hunks) =~~= files);
    } else {
        let hunk = hunks[0];
        let all = changes_lines(hunks) + rest;
        let later = changes_lines(hunks.drop_first()) + rest;
        let empty = GitDiffChangeView { contents: seq![], ..hunk };
        let opened = with_changes(files, changes.push(empty));
        let closed = with_hunks(files, seq![hunk]);
        lemma_read_header(hunk);
        assert(all[0] == header_text(hunk));
        assert(all.drop_first() == lines_text(hunk.contents) + later);
        lemma_read_hunk_lines(hunk.contents, later, index + 1, opened);
        let n = files.len() - 1;
        assert(empty.contents + hunk.contents == hunk.contents);
        assert(opened.last().changes == changes.push(empty));
        assert(opened.last().changes.last() == empty);
        assert(GitDiffChangeView { contents: empty.contents + hunk.contents, ..empty } == hunk);
        assert(changes.push(empty).update(changes.len() as int, hunk) == changes + seq![hunk]);
        assert(GitDiffFileView { changes: changes + seq![hunk], ..opened.last() }
            == GitDiffFileView { changes: changes + seq![hunk], ..files.last() });
        assert(opened.update(
            n,
            GitDiffFileView { changes: changes + seq![hunk], ..files.last() },
        ) == closed);
        lemma_read_hunks(hunks.drop_first(), rest, index + 1 + hunk.contents.len(), closed);
        assert(changes + seq![hunk] + hunks.drop_first() == changes + hunks);
        assert(closed.len() == files.len());
        assert(with_hunks(closed, hunks.drop_first()) =~~= with_hunks(files, hunks));
    }
}

/// Files that were written read as those files, after the files that were
/// read before them.
proof fn lemma_read_files(
    files: Seq<GitDiffFileView>,
    index: nat,
    before: Seq<GitDiffFileView>,
    in_file: bool,
)
    requires
        plain_files(files),
    ensures
        read_lines(files_lines(files), index, before, in_file) == Ok::<_, ParseError>(
            before + files,
        ),
    decreases files.len(),
{
    if files.len() == 0 {
        assert(before + files == before);
    } else {
        let file = files[0];
        let all = files_lines(files);
        let later = files_lines(files.drop_first());
        let head = file_head(file);
        let empty = GitDiffFileView { changes: seq![], ..file };
        assert(all == head + (changes_lines(file.changes) + later));
        assert(all[0] == head[0]);
        assert(all[1] == head[1]);
        assert(all.skip(2) == changes_lines(file.changes) + later);
        assert(head[0].take(3) == old_file_marker());
        assert(head[1].take(3) == new_file_marker());
        assert(head[0].skip(3) == seq![' '] + file.old_path);
        assert(head[1].skip(3) == seq![' '] + file.new_path);
        lemma_strip_around(seq![' '], file.old_path, seq![], CharClass::Whitespace);
        lemma_strip_around(seq![' '], file.new_path, seq![], CharClass::Whitespace);
        assert(seq![' '] + file.old_path + Seq::<char>::empty() == seq![' '] + file.old_path);
        assert(seq![' '] + file.new_path + Seq::<char>::empty() == seq![' '] + file.new_path);
        lemma_read_hunks(file.changes, later, index + 2, before.push(empty));
        assert(empty.changes + file.changes == file.changes);
        assert(with_hunks(before.push(empty), file.changes) =~~= before.push(file));
        lemma_read_files(
            files.drop_first(),
            index + 2 + changes_lines(file.changes).len(),
            before.push(file),
            true,
        );
        assert(before.push(file) + files.drop_first() == before + files);
    }
}

/// None of the lines holds a line feed.
pub open spec fn no_newlines(lines: Seq<Seq<char>>) -> bool {
    forall|i: int| 0 <= i < lines.len() ==> no_newline(#[trigger] lines[i])
}

/// What is left of a text without a line feed, when characters are taken
/// from its ends, neither begins nor ends with white space and holds no
/// line feed.
proof fn lemma_trimmed_is_plain(s: Seq<char>)
    requires
        no_newline(s),
    ensures
        plain_text(trimmed(s)),
{
    let (a, b) = lemma_strip_is_part(s, CharClass::Whitespace);
    assert forall|i: int| 0 <= i < trimmed(s).len() implies #[trigger] trimmed(s)[i] != '\n' by {
        assert(trimmed(s)[i] == s[a + i]);
    }
}

/// The hunks of a file stay hunks that read as they were written when one
/// more line is read into them.
proof fn lemma_read_line_is_plain(changes: Seq<GitDiffChangeView>, line: Seq<char>, index: nat)
    requires
        plain_changes(changes),
        no_newline(line),
        !old_file_marker().is_prefix_of(line),
    ensures
        read_line(changes, line, index) matches Ok(after) ==> plain_changes(after),
{
    if hunk_marker().is_prefix_of(line) {
        let rest = line.skip(3);
        match split_at_first(rest, hunk_end()) {
            Some((locations, context)) => {
                lemma_first_match(rest, hunk_end(), 0);
                assert forall|i: int| 0 <= i < context.len() implies #[trigger] context[i]
                    != '\n' by {
                    assert(context[i] == line[3 + first_match(rest, hunk_end(), 0)->0 + 2 + i]);
                }
                lemma_trimmed_is_plain(context);
                match hunk_header(rest) {
                    Header::Hunk(hunk) => {
                        assert(plain_change(hunk));
                        assert forall|i: int| 0 <= i < changes.push(hunk).len() implies plain_change(
                            #[trigger] changes.push(hunk)[i],
                        ) by {
                            if i < changes.len() {
                                assert(changes.push(hunk)[i] == changes[i]);
                            }
                        }
                    },
                    _ => {},
                }
            },
            None => {},
        }
    } else {
        match status_of(line) {
            Some(status) => {
                if changes.len() > 0 {
                    let entry = LineView { contents: line.skip(1), status };
                    let last = changes.last();
                    let grown = GitDiffChangeView { contents: last.contents.push(entry), ..last };
                    assert forall|i: int| 0 <= i < entry.contents.len() implies
                        #[trigger] entry.contents[i] != '\n' by {
                        assert(entry.contents[i] == line[i + 1]);
                    }
                    if status == Status::Removed && seq!['-', '-'].is_prefix_of(entry.contents) {
                        assert(entry.contents.take(2)[0] == '-');
                        assert(entry.contents.take(2)[1] == '-');
                        assert(line.take(3) == old_file_marker());
                    }
                    assert(plain_line(entry));
                    assert forall|i: int| 0 <= i < grown.contents.len() implies plain_line(
                        #[trigger] grown.contents[i],
                    ) by {
                        if i < last.contents.len() {
                            assert(grown.contents[i] == last.contents[i]);
                        }
                    }
                    assert(plain_change(grown));
                    assert forall|i: int| 0 <= i < with_line(changes, entry).len() implies plain_change(
                        #[trigger] with_line(changes, entry)[i],
                    ) by {
                        if i < changes.len() - 1 {
                            assert(with_line(changes, entry)[i] == changes[i]);
                        }
                    }
                }
            },
            None => {},
        }
    }
}

/// Whatever is read from lines without a line feed, the files stay files
/// that read as they were written.
proof fn lemma_read_lines_is_plain(
    lines: Seq<Seq<char>>,
    index: nat,
    files: Seq<GitDiffFileView>,
    in_file: bool,
)
    requires
        no_newlines(lines),
        plain_files(files),
    ensures
        read_lines(lines, index, files, in_file) matches Ok(after) ==> plain_files(after),
    decreases lines.len(),
{
    if lines.len() == 0 {
    } else if old_file_marker().is_prefix_of(lines[0]) {
        if lines.len() > 1 && new_file_marker().is_prefix_of(lines[1]) {
            let later = lines.skip(2);
            assert forall|i: int| 0 <= i < later.len() implies no_newline(#[trigger] later[i]) by {
                assert(later[i] == lines[i + 2]);
            }
            let old_path = lines[0].skip(3);
            let new_path = lines[1].skip(3);
            assert forall|i: int| 0 <= i < old_path.len() implies #[trigger] old_path[i]
                != '\n' by {
                assert(old_path[i] == lines[0][i + 3]);
            }
            assert forall|i: int| 0 <= i < new_path.len() implies #[trigger] new_path[i]
                != '\n' by {
                assert(new_path[i] == lines[1][i + 3]);
            }
            lemma_trimmed_is_plain(old_path);
            lemma_trimmed_is_plain(new_path);
            let file = GitDiffFileView {
                old_path: trimmed(old_path),
                new_path: trimmed(new_path),
                changes: seq![],
            };
            assert(plain_file(file));
            assert forall|i: int| 0 <= i < files.push(file).len() implies plain_file(
                #[trigger] files.push(file)[i],
            ) by {
                if i < files.len() {
                    assert(files.push(file)[i] == files[i]);
                }
            }
            lemma_read_lines_is_plain(later, index + 2, files.push(file), true);
        } else {
            let later = lines.drop_first();
            assert forall|i: int| 0 <= i < later.len() implies no_newline(#[trigger] later[i]) by {
                assert(later[i] == lines[i + 1]);
            }
            lemma_read_lines_is_plain(later, index + 1, files, false);
        }
    } else {
        let later = lines.drop_first();
        assert forall|i: int| 0 <= i < later.len() implies no_newline(#[trigger] later[i]) by {
            assert(later[i] == lines[i + 1]);
        }
        if in_file && files.len() > 0 {
            lemma_read_line_is_plain(files.last().changes, lines[0], index);
            match read_line(files.last().changes, lines[0], index) {
                Ok(changes) => {
                    let next = with_changes(files, changes);
                    assert forall|i: int| 0 <= i < next.len() implies plain_file(
                        #[trigger] next[i],
                    ) by {
                        if i < files.len() - 1 {
                            assert(next[i] == files[i]);
                        }
                    }
                    lemma_read_lines_is_plain(later, index + 1, next, true);
                },
                Err(_) => {},
            }
        } else {
            lemma_read_lines_is_plain(later, index + 1, files, false);
        }
    }
}

/// Every diff that is read from a text reads as it is written.
pub proof fn lemma_read_is_plain(text: Seq<char>)
    ensures
        parse_diff(text) matches Ok(diff) ==> plain_diff(diff),
{
    lemma_lines_hold_no_newline(text);
    lemma_read_lines_is_plain(lines_of(text), 0, seq![], false);
}

/// The lines of one list and then those of another hold no line feed where
/// neither list holds one.
proof fn lemma_no_newlines_concat(a: Seq<Seq<char>>, b: Seq<Seq<char>>)
    requires
        no_newlines(a),
        no_newlines(b),
    ensures
        no_newlines(a + b),
{
    assert forall|i: int| 0 <= i < (a + b).len() implies no_newline(#[trigger] (a + b)[i]) by {
        if i < a.len() {
            assert((a + b)[i] == a[i]);
        } else {
            assert((a + b)[i] == b[i - a.len()]);
        }
    }
}

/// The header of a hunk holds no line feed where its context holds none.
proof fn lemma_header_holds_no_newline(change: GitDiffChangeView)
    requires
        no_newline(change.context),
    ensures
        no_newline(header_text(change)),
{
    let old_text = location_text(change.old_location);
    let new_text = location_text(change.new_location);
    lemma_location_text(change.old_location);
    lemma_location_text(change.new_location);
    let header = header_text(change);
    let a = 4 + old_text.len();
    let b = a + 2 + new_text.len();
    assert forall|i: int| 0 <= i < header.len() implies #[trigger] header[i] != '\n' by {
        if i < 4 {
        } else if i < a {
            assert(header[i] == old_text[i - 4]);
        } else if i < a + 2 {
        } else if i < b {
            assert(header[i] == new_text[i - a - 2]);
        } else if i < b + 4 {
        } else {
            assert(header[i] == change.context[i - b - 4]);
        }
    }
}

/// Hunks that read as they were written are written in lines without a
/// line feed.
proof fn lemma_changes_hold_no_newline(changes: Seq<GitDiffChangeView>)
    requires
        plain_changes(changes),
    ensures
        no_newlines(changes_lines(changes)),
    decreases changes.len(),
{
    if changes.len() > 0 {
        let change = changes[0];
        lemma_header_holds_no_newline(change);
        assert forall|i: int| 0 <= i < lines_text(change.contents).len() implies no_newline(
            #[trigger] lines_text(change.contents)[i],
        ) by {
            let line = change.contents[i];
            assert(plain_line(line));
            assert forall|k: int| 0 <= k < line_text(line).len() implies
                #[trigger] line_text(line)[k] != '\n' by {
                if k > 0 {
                    assert(line_text(line)[k] == line.contents[k - 1]);
                }
            }
        }
        lemma_no_newlines_concat(seq![header_text(change)], lines_text(change.contents));
        lemma_changes_hold_no_newline(changes.drop_first());
        lemma_no_newlines_concat(change_lines(change), changes_lines(changes.drop_first()));
    }
}

/// Files that read as they were written are written in lines without a
/// line feed.
proof fn lemma_files_hold_no_newline(files: Seq<GitDiffFileView>)
    requires
        plain_files(files),
    ensures
        no_newlines(files_lines(files)),
    decreases files.len(),
{
    if files.len() > 0 {
        let file = files[0];
        let head = file_head(file);
        assert forall|i: int| 0 <= i < head.len() implies no_newline(#[trigger] head[i]) by {
            assert forall|k: int| 0 <= k < head[i].len() implies #[trigger] head[i][k] != '\n' by {
                if k >= 4 {
                    if i == 0 {
                        assert(head[i][k] == file.old_path[k - 4]);
                    } else {
                        assert(head[i][k] == file.new_path[k - 4]);
                    }
                }
            }
        }
        lemma_changes_hold_no_newline(file.changes);
        lemma_no_newlines_concat(head, changes_lines(file.changes));
        lemma_files_hold_no_newline(files.drop_first());
        lemma_no_newlines_concat(file_lines(file), files_lines(files.drop_first()));
    }
}

/// The text of a diff reads as that diff, where the diff is one that reads
/// as it is written.
pub proof fn lemma_written_diff_reads_back(diff: GitDiffView)
    requires
        plain_diff(diff),
    ensures
        parse_diff(diff_text(diff)) == Ok::<_, ParseError>(diff),
{
    lemma_files_hold_no_newline(diff.files);
    lemma_lines_of_joined(files_lines(diff.files));
    lemma_read_files(diff.files, 0, seq![], false);
    assert(Seq::<GitDiffFileView>::empty() + diff.files == diff.files);
}

/// Reading, writing and reading again gives the diff that was read first:
/// whatever text a diff is read from, the text of that diff reads as the
/// same diff.
pub proof fn lemma_round_trip(text: Seq<char>)
    ensures
        parse_diff(text) matches Ok(diff) ==> parse_diff(diff_text(diff)) == Ok::<_, ParseError>(
            diff,
        ),
{
    lemma_read_is_plain(text);
    match parse_diff(text) {
        Ok(diff) => {
            lemma_written_diff_reads_back(diff);
        },
        Err(_) => {},
    }
}

} // verus!
