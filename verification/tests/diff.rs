use gitlucky::diff::{
    GitDiff, GitDiffChange, GitDiffFile, Line, Location, ParseError, Status,
};

fn line(status: Status, contents: &str) -> Line {
    Line { contents: contents.to_string(), status }
}

fn at(line_number: usize, column_number: usize) -> Location {
    Location { line_number, column_number }
}

#[test]
fn one_file_with_one_hunk() {
    let text = "--- a/x.txt\n+++ b/x.txt\n@@ -1,1 +1,2 @@ ctx\n+new line\n old line\n";
    let diff = GitDiff::from_str(text).unwrap();
    assert_eq!(diff.files.len(), 1);
    let file = &diff.files[0];
    assert_eq!(file.old_path, "a/x.txt");
    assert_eq!(file.new_path, "b/x.txt");
    assert_eq!(file.changes.len(), 1);
    let hunk = &file.changes[0];
    assert_eq!(hunk.old_location, at(1, 1));
    assert_eq!(hunk.new_location, at(1, 2));
    assert_eq!(hunk.old_location.to_string(), "1:1");
    assert_eq!(hunk.new_location.to_string(), "1:2");
    assert_eq!(hunk.context, "ctx");
    assert_eq!(
        hunk.contents,
        vec![line(Status::Added, "new line"), line(Status::Unchanged, "old line")]
    );
}

#[test]
fn empty_text_has_no_files() {
    assert_eq!(GitDiff::from_str(""), Ok(GitDiff { files: vec![] }));
}

#[test]
fn text_without_file_markers_has_no_files() {
    let text = "diff --git a/x b/x\nindex 1..2\n+stray\n-stray\n@@ -1 +1 @@\n";
    assert_eq!(GitDiff::from_str(text), Ok(GitDiff { files: vec![] }));
}

#[test]
fn hunk_line_before_any_header_is_an_error() {
    let text = "--- a\n+++ b\n+early\n";
    assert_eq!(GitDiff::from_str(text), Err(ParseError::LineOutsideHunk { line: 2 }));
    let text = "--- a\n+++ b\nnote\n-early\n";
    assert_eq!(GitDiff::from_str(text), Err(ParseError::LineOutsideHunk { line: 3 }));
    let text = "--- a\n+++ b\n early\n";
    assert_eq!(GitDiff::from_str(text), Err(ParseError::LineOutsideHunk { line: 2 }));
}

#[test]
fn each_file_needs_its_own_first_header() {
    let text = "--- a\n+++ b\n@@ -1 +1 @@\n+x\n--- c\n+++ d\n+y\n";
    assert_eq!(GitDiff::from_str(text), Err(ParseError::LineOutsideHunk { line: 6 }));
}

#[test]
fn header_with_a_bad_number_is_an_error() {
    let text = "--- a\n+++ b\n@@ -x,1 +1,2 @@\n";
    assert_eq!(GitDiff::from_str(text), Err(ParseError::InvalidLocation { line: 2 }));
    let text = "--- a\n+++ b\n@@ -1,1 +1,y @@\n";
    assert_eq!(GitDiff::from_str(text), Err(ParseError::InvalidLocation { line: 2 }));
    let text = "--- a\n+++ b\n@@ -1, +1 @@\n";
    assert_eq!(GitDiff::from_str(text), Err(ParseError::InvalidLocation { line: 2 }));
    let text = "--- a\n+++ b\n@@ -99999999999999999999999999 +1 @@\n";
    assert_eq!(GitDiff::from_str(text), Err(ParseError::InvalidLocation { line: 2 }));
}

#[test]
fn header_without_its_end_is_skipped() {
    let text = "--- a\n+++ b\n@@ -1 +1 @@ first\n+x\n@@ -5 +5\n+y\n@@ -7+7@@\n+z\n";
    let diff = GitDiff::from_str(text).unwrap();
    assert_eq!(diff.files[0].changes.len(), 1);
    assert_eq!(
        diff.files[0].changes[0].contents,
        vec![line(Status::Added, "x"), line(Status::Added, "y"), line(Status::Added, "z")]
    );
}

#[test]
fn location_without_a_column_has_column_zero() {
    let text = "--- a\n+++ b\n@@ -3 +4 @@\n";
    let diff = GitDiff::from_str(text).unwrap();
    let hunk = &diff.files[0].changes[0];
    assert_eq!(hunk.old_location, at(3, 0));
    assert_eq!(hunk.new_location, at(4, 0));
    assert_eq!(hunk.context, "");
    assert!(hunk.contents.is_empty());
}

#[test]
fn old_marker_without_new_marker_opens_no_file() {
    let text = "--- a\nnot a marker\n+++ b\n@@ -1 +1 @@\n+x\n";
    assert_eq!(GitDiff::from_str(text), Ok(GitDiff { files: vec![] }));
    assert_eq!(GitDiff::from_str("--- a"), Ok(GitDiff { files: vec![] }));
    assert_eq!(GitDiff::from_str("--- a\n"), Ok(GitDiff { files: vec![] }));
    let text = "--- a\n@@ -1 +1 @@\n+x\n";
    assert_eq!(GitDiff::from_str(text), Ok(GitDiff { files: vec![] }));
}

#[test]
fn the_line_after_a_lone_old_marker_is_read_too() {
    let text = "--- a\n--- b\n+++ c\n";
    let diff = GitDiff::from_str(text).unwrap();
    assert_eq!(diff.files.len(), 1);
    assert_eq!(diff.files[0].old_path, "b");
    assert_eq!(diff.files[0].new_path, "c");
    assert!(diff.files[0].changes.is_empty());
    let text = "--- a\n--- b\n--- c\n+++ d\n@@ -1 +2 @@\n+x\n--- e\n";
    let diff = GitDiff::from_str(text).unwrap();
    assert_eq!(diff.files.len(), 1);
    assert_eq!(diff.files[0].old_path, "c");
    assert_eq!(diff.files[0].new_path, "d");
    assert_eq!(diff.files[0].changes[0].contents, vec![line(Status::Added, "x")]);
}

#[test]
fn a_lone_old_marker_closes_the_open_file() {
    let text = "--- a\n+++ b\n@@ -1 +1 @@\n+x\n--- c\n+y\n@@ -2 +2 @@\n-z\n";
    let diff = GitDiff::from_str(text).unwrap();
    assert_eq!(diff.files.len(), 1);
    assert_eq!(diff.files[0].changes.len(), 1);
    assert_eq!(diff.files[0].changes[0].contents, vec![line(Status::Added, "x")]);
}

#[test]
fn a_line_of_three_dashes_ends_the_file() {
    let text = "--- a\n+++ b\n@@ -1 +1 @@\n-x\n--- gone\n+y\n";
    let diff = GitDiff::from_str(text).unwrap();
    assert_eq!(diff.files.len(), 1);
    assert_eq!(diff.files[0].changes[0].contents, vec![line(Status::Removed, "x")]);
}

#[test]
fn other_lines_in_a_file_are_skipped() {
    let text = "--- a\n+++ b\nindex 1..2\n@@ -1 +1 @@\n+x\n\\ No newline at end of file\n\n-y\n";
    let diff = GitDiff::from_str(text).unwrap();
    assert_eq!(
        diff.files[0].changes[0].contents,
        vec![line(Status::Added, "x"), line(Status::Removed, "y")]
    );
}

#[test]
fn content_keeps_its_white_space_and_carriage_return() {
    let text = "--- a\r\n+++ b\r\n@@ -1 +1 @@ fn  main \r\n+  two  spaces \t\r\n \n";
    let diff = GitDiff::from_str(text).unwrap();
    let file = &diff.files[0];
    assert_eq!(file.old_path, "a");
    assert_eq!(file.new_path, "b");
    assert_eq!(file.changes[0].context, "fn  main");
    assert_eq!(
        file.changes[0].contents,
        vec![line(Status::Added, "  two  spaces \t\r"), line(Status::Unchanged, "")]
    );
}

#[test]
fn last_line_needs_no_line_feed() {
    let text = "--- a\n+++ b\n@@ -1 +1 @@\n+tail";
    let diff = GitDiff::from_str(text).unwrap();
    assert_eq!(diff.files[0].changes[0].contents, vec![line(Status::Added, "tail")]);
}

#[test]
fn paths_are_trimmed() {
    let text = "---   a b \t\n+++\u{a0}c\u{3000}\n";
    let diff = GitDiff::from_str(text).unwrap();
    assert_eq!(diff.files[0].old_path, "a b");
    assert_eq!(diff.files[0].new_path, "c");
    let diff = GitDiff::from_str("---\n+++\n").unwrap();
    assert_eq!(diff.files[0].old_path, "");
    assert_eq!(diff.files[0].new_path, "");
}

#[test]
fn signs_are_stripped_from_both_ends_of_a_location() {
    let text = "--- a\n+++ b\n@@ --12,3-- ++4,56 @@@@ x @@\n";
    let diff = GitDiff::from_str(text).unwrap();
    let hunk = &diff.files[0].changes[0];
    assert_eq!(hunk.old_location, at(12, 3));
    assert_eq!(hunk.new_location, at(4, 56));
    assert_eq!(hunk.context, "@@ x @@");
    let text = "--- a\n+++ b\n@@ -1 +4,56++ @@\n";
    assert_eq!(GitDiff::from_str(text), Err(ParseError::InvalidLocation { line: 2 }));
}

#[test]
fn two_files_with_several_hunks() {
    let text = "--- a/one\n+++ b/one\n@@ -1,2 +1,3 @@ first\n a\n+b\n@@ -10,1 +11,0 @@\n-c\n--- a/two\n+++ b/two\n@@ -7 +7 @@ third\n+d\n";
    let expected = GitDiff {
        files: vec![
            GitDiffFile {
                old_path: "a/one".to_string(),
                new_path: "b/one".to_string(),
                changes: vec![
                    GitDiffChange {
                        context: "first".to_string(),
                        old_location: at(1, 2),
                        new_location: at(1, 3),
                        contents: vec![line(Status::Unchanged, "a"), line(Status::Added, "b")],
                    },
                    GitDiffChange {
                        context: "".to_string(),
                        old_location: at(10, 1),
                        new_location: at(11, 0),
                        contents: vec![line(Status::Removed, "c")],
                    },
                ],
            },
            GitDiffFile {
                old_path: "a/two".to_string(),
                new_path: "b/two".to_string(),
                changes: vec![GitDiffChange {
                    context: "third".to_string(),
                    old_location: at(7, 0),
                    new_location: at(7, 0),
                    contents: vec![line(Status::Added, "d")],
                }],
            },
        ],
    };
    assert_eq!(GitDiff::from_str(text), Ok(expected));
}

#[test]
fn text_of_a_diff() {
    let diff = GitDiff {
        files: vec![GitDiffFile {
            old_path: "a/x.txt".to_string(),
            new_path: "b/x.txt".to_string(),
            changes: vec![GitDiffChange {
                context: "ctx".to_string(),
                old_location: at(1, 1),
                new_location: at(10, 20),
                contents: vec![
                    line(Status::Added, "new line"),
                    line(Status::Unchanged, "old line"),
                    line(Status::Removed, "gone"),
                ],
            }],
        }],
    };
    assert_eq!(
        diff.to_text(),
        "--- a/x.txt\n+++ b/x.txt\n@@ -1,1 +10,20 @@ ctx\n+new line\n old line\n-gone\n"
    );
    assert_eq!(GitDiff { files: vec![] }.to_text(), "");
}

#[test]
fn written_text_reads_as_the_same_diff() {
    let texts = [
        "--- a/x.txt\n+++ b/x.txt\n@@ -1,1 +1,2 @@ ctx\n+new line\n old line\n",
        "intro\n--- a\n+++ b\nindex\n@@ -3 +4 @@   fn f()  \n+ x \n@@ broken\n-y\r\n--- c\n+++ d\n--- e\n",
        "",
        "---\n+++\n@@ -0 +0 @@",
    ];
    for text in texts {
        let diff = GitDiff::from_str(text).unwrap();
        let again = GitDiff::from_str(&diff.to_text()).unwrap();
        assert_eq!(again, diff);
        assert_eq!(again.to_text(), diff.to_text());
    }
}

#[test]
fn location_from_str() {
    assert_eq!(Location::from_str("1,2"), Ok(at(1, 2)));
    assert_eq!(Location::from_str("  17 \n"), Ok(at(17, 0)));
    assert_eq!(Location::from_str("+5,+6"), Ok(at(5, 6)));
    assert_eq!(Location::from_str("007"), Ok(at(7, 0)));
    assert_eq!(Location::from_str(""), Err(()));
    assert_eq!(Location::from_str(","), Err(()));
    assert_eq!(Location::from_str("1, 2"), Err(()));
    assert_eq!(Location::from_str("1,2,3"), Err(()));
    assert_eq!(Location::from_str("-1"), Err(()));
    assert_eq!(Location::from_str("+"), Err(()));
    assert_eq!(Location::from_str("1x"), Err(()));
    assert_eq!(Location::from_str("١"), Err(()));
    assert_eq!(
        Location::from_str(&format!("{},0", usize::MAX)),
        Ok(at(usize::MAX, 0))
    );
    assert_eq!(Location::from_str(&format!("{}0", usize::MAX)), Err(()));
}

#[test]
fn location_to_string() {
    assert_eq!(at(3, 4).to_string(), "3:4");
    assert_eq!(at(0, 0).to_string(), "0:0");
    assert_eq!(at(1200, 10).to_string(), "1200:10");
    assert_eq!(at(usize::MAX, 9).to_string(), format!("{}:9", usize::MAX));
}
