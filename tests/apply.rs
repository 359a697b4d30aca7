use patch_apply::error::{file_error_message, PatchError};
use patch_apply::lines::{ends_with, join_lines, split_lines, with_trailing};
use patch_apply::model::{FilePatch, Hunk, HunkLine, Range};
use patch_apply::options::{line_ending_for, PatchOptions};
use patch_apply::parse::parse_patch_set;
use patch_apply::screen::check_parser_safe;
use patch_apply::paths::{split_tokens, trim};
use patch_apply::reconstruct::reconstruct_lines;

fn hunk(start: u64, count: u64, lines: Vec<HunkLine>) -> Hunk {
    Hunk { old_range: Range { start, count }, lines }
}

fn file_patch(hunks: Vec<Hunk>) -> FilePatch {
    FilePatch {
        old_reference: "old a.txt".to_string(),
        new_reference: "a.txt".to_string(),
        hunks,
    }
}

fn ctx(s: &str) -> HunkLine {
    HunkLine::Context(s.to_string())
}

fn add(s: &str) -> HunkLine {
    HunkLine::Add(s.to_string())
}

fn strings(v: &[&str]) -> Vec<String> {
    v.iter().map(|s| s.to_string()).collect()
}

#[test]
fn context_hunk_covering_file_reproduces_it() {
    let fp = file_patch(vec![hunk(1, 4, vec![ctx("a"), ctx("b"), ctx("c"), ctx("")])]);
    assert_eq!(fp.new_content("a\nb\nc\n", "\n"), Some("a\nb\nc\n".to_string()));
}

#[test]
fn consecutive_context_hunks_reproduce_file() {
    let fp = file_patch(vec![
        hunk(1, 2, vec![ctx("a"), ctx("b")]),
        hunk(3, 2, vec![ctx("c"), ctx("d")]),
    ]);
    assert_eq!(fp.new_content("a\nb\nc\nd", "\n"), Some("a\nb\nc\nd".to_string()));
}

#[test]
fn context_hunk_in_the_middle_reproduces_file() {
    let fp = file_patch(vec![hunk(2, 1, vec![ctx("b")])]);
    assert_eq!(fp.new_content("a\nb\nc", "\n"), Some("a\nb\nc".to_string()));
}

#[test]
fn pure_addition_after_first_lines() {
    let fp = file_patch(vec![hunk(2, 0, vec![add("x")])]);
    assert_eq!(fp.new_content("a\nb\nc", "\n"), Some("a\nx\nb\nc".to_string()));
    let fp = file_patch(vec![hunk(1, 0, vec![add("x")])]);
    assert_eq!(fp.new_content("a\nb", "\n"), Some("x\na\nb".to_string()));
    let fp = file_patch(vec![hunk(3, 0, vec![add("x")])]);
    assert_eq!(fp.new_content("a\nb", "\n"), Some("a\nb\nx".to_string()));
}

#[test]
fn pure_addition_at_zero_goes_first() {
    let fp = file_patch(vec![hunk(0, 0, vec![add("x"), add("y")])]);
    assert_eq!(fp.new_content("a\nb", "\n"), Some("x\ny\na\nb".to_string()));
}

#[test]
fn pure_deletion_drops_that_many_lines() {
    let fp = file_patch(vec![hunk(2, 1, vec![HunkLine::Remove])]);
    assert_eq!(fp.new_content("a\nb\nc\nd", "\n"), Some("a\nc\nd".to_string()));
    let fp = file_patch(vec![hunk(2, 2, vec![HunkLine::Remove, HunkLine::Remove])]);
    assert_eq!(fp.new_content("a\nb\nc\nd", "\n"), Some("a\nd".to_string()));
    let fp = file_patch(vec![hunk(1, 1, vec![HunkLine::Remove])]);
    assert_eq!(fp.new_content("a\nb", "\n"), Some("b".to_string()));
}

#[test]
fn two_hunks_keep_the_gap_between_them() {
    let fp = file_patch(vec![
        hunk(2, 1, vec![HunkLine::Remove]),
        hunk(5, 0, vec![add("x")]),
    ]);
    assert_eq!(
        fp.new_content("1\n2\n3\n4\n5\n6\n7", "\n"),
        Some("1\n3\n4\nx\n5\n6\n7".to_string())
    );
    let fp = file_patch(vec![
        hunk(2, 1, vec![HunkLine::Remove]),
        hunk(4, 1, vec![HunkLine::Remove]),
    ]);
    assert_eq!(fp.new_content("a\nb\nc\nd", "\n"), Some("a\nc".to_string()));
}

#[test]
fn deleting_line_two_gives_known_result() {
    let fp = file_patch(vec![hunk(1, 3, vec![ctx("a"), HunkLine::Remove, ctx("c")])]);
    assert_eq!(fp.new_content("a\nb\nc", "\n"), Some("a\nc".to_string()));
    let fp = file_patch(vec![hunk(2, 1, vec![HunkLine::Remove])]);
    assert_eq!(fp.new_content("a\nb\nc", "\n"), Some("a\nc".to_string()));
}

#[test]
fn known_transformation_with_crlf() {
    let fp = file_patch(vec![hunk(1, 3, vec![ctx("one"), HunkLine::Remove, add("TWO"), ctx("three")])]);
    assert_eq!(
        fp.new_content("one\r\ntwo\r\nthree", "\r\n"),
        Some("one\r\nTWO\r\nthree".to_string())
    );
}

#[test]
fn scenario_context_remove_add_add() {
    // The context line keeps line 2 ("b") and the removal drops line 3 ("c").
    let fp = file_patch(vec![hunk(2, 1, vec![ctx("b"), HunkLine::Remove, add("x"), add("y")])]);
    assert_eq!(fp.new_content("a\nb\nc\n", "\n"), Some("a\nb\nx\ny\n".to_string()));
}

#[test]
fn context_past_end_is_rejected() {
    let fp = file_patch(vec![hunk(1, 3, vec![ctx("a"), ctx("b"), ctx("c")])]);
    assert_eq!(fp.new_content("a\nb", "\n"), None);
}

#[test]
fn gap_past_end_is_rejected() {
    let fp = file_patch(vec![hunk(5, 0, vec![add("x")])]);
    assert_eq!(fp.new_content("a\nb", "\n"), None);
}

#[test]
fn reconstruct_lines_copies_prefix_and_suffix() {
    let old = strings(&["a", "b", "c", "d"]);
    let hunks = vec![hunk(3, 0, vec![add("x")])];
    assert_eq!(reconstruct_lines(&old, &hunks), Some(strings(&["a", "b", "x", "c", "d"])));
}

#[test]
fn no_hunks_keep_the_file() {
    let old = strings(&["a", "b"]);
    assert_eq!(reconstruct_lines(&old, &vec![]), Some(strings(&["a", "b"])));
}

#[test]
fn split_and_join_lines() {
    let lines = split_lines("a\r\nb\r\n", "\r\n");
    assert_eq!(lines, strings(&["a", "b", ""]));
    assert_eq!(join_lines(&lines, "\r\n"), "a\r\nb\r\n");
    assert_eq!(split_lines("abc", "\n"), strings(&["abc"]));
    assert_eq!(join_lines(&vec![], "\n"), "");
}

#[test]
fn trailing_line_ending_is_added_once() {
    assert_eq!(with_trailing("abc", "\n"), "abc\n");
    assert_eq!(with_trailing("abc\n", "\n"), "abc\n");
    assert_eq!(with_trailing("", "\r\n"), "\r\n");
    assert!(ends_with("x\r\n", "\r\n"));
    assert!(!ends_with("x\n", "\r\n"));
}

#[test]
fn tokens_split_on_ascii_whitespace() {
    assert_eq!(split_tokens("  old\t a.txt \n"), strings(&["old", "a.txt"]));
    assert_eq!(split_tokens("   "), strings(&[]));
}

#[test]
fn trim_removes_unicode_whitespace_at_the_ends() {
    assert_eq!(trim("\u{3000} a b\t\n"), "a b");
    assert_eq!(trim("   "), "");
    let fp = FilePatch {
        old_reference: "\u{3000}label a.txt\u{3000}".to_string(),
        new_reference: "a.txt".to_string(),
        hunks: vec![],
    };
    assert_eq!(fp.source_path(), Some("a.txt".to_string()));
}

#[test]
fn source_and_destination_paths() {
    let fp = FilePatch {
        old_reference: "label src/a.txt".to_string(),
        new_reference: "dst/a.txt 2020-01-01".to_string(),
        hunks: vec![],
    };
    assert_eq!(fp.source_path(), Some("src/a.txt".to_string()));
    assert_eq!(fp.destination_path(), Some("dst/a.txt".to_string()));
    let bare = FilePatch { old_reference: "a.txt".to_string(), new_reference: "".to_string(), hunks: vec![] };
    assert_eq!(bare.source_path(), None);
    assert_eq!(bare.destination_path(), None);
}

#[test]
fn parse_then_apply() {
    let text = "--- old a.txt\n+++ a.txt\n@@ -2,1 +2,2 @@\n b\n-c\n+x\n+y";
    let patches = parse_patch_set(text, "\n").expect("parses");
    assert_eq!(patches.len(), 1);
    let fp = &patches[0];
    assert_eq!(fp.source_path(), Some("a.txt".to_string()));
    assert_eq!(fp.destination_path(), Some("a.txt".to_string()));
    assert_eq!(fp.hunks.len(), 1);
    assert_eq!(fp.hunks[0].old_range, Range { start: 2, count: 1 });
    assert_eq!(fp.hunks[0].lines.len(), 4);
    assert!(matches!(fp.hunks[0].lines[1], HunkLine::Remove));
    assert_eq!(fp.new_content("a\nb\nc\nd", "\n"), Some("a\nb\nx\ny\nd".to_string()));
}

#[test]
fn parse_two_files_in_order() {
    let text = "--- o a.txt\n+++ a.txt\n@@ -1 +1 @@\n-a\n+b\n--- o b.txt\n+++ b.txt\n@@ -1 +1 @@\n-c\n+d\n";
    let patches = parse_patch_set(text, "\n").expect("parses");
    assert_eq!(patches.len(), 2);
    assert_eq!(patches[0].destination_path(), Some("a.txt".to_string()));
    assert_eq!(patches[1].destination_path(), Some("b.txt".to_string()));
}

#[test]
fn malformed_range_is_a_parse_error() {
    let text = "--- o a.txt\n+++ a.txt\n@@ -x,1 +1,1 @@\n a\n";
    match parse_patch_set(text, "\n") {
        Err(PatchError::ParseError(m)) => assert!(!m.is_empty()),
        other => panic!("expected a parse error, got {:?}", other),
    }
}

#[test]
fn oversized_range_number_is_a_parse_error() {
    let text = "--- o a.txt\n+++ a.txt\n@@ -123456789012345678901,1 +1,1 @@\n a\n";
    match parse_patch_set(text, "\n") {
        Err(PatchError::ParseError(m)) => assert_eq!(m, "patch text that the parser cannot read to its end"),
        other => panic!("expected a parse error, got {:?}", other),
    }
}

#[test]
fn largest_range_number_parses() {
    let text = "--- o a.txt\n+++ a.txt\n@@ -18446744073709551615,0 +1 @@\n+a\n";
    let patches = parse_patch_set(text, "\n").expect("parses");
    assert_eq!(patches[0].hunks[0].old_range.count, 0);
}

#[test]
fn text_after_the_last_section_is_a_parse_error() {
    let cases = [
        "--- a\n+++ b\n@@ -1 +1 @@\n-a\n+b\nhello\n",
        "--- o a\n+++ a\n@@ -1,2 +1,2 @@\n-a\n\\ No newline at end of file\n+b\n",
    ];
    for text in cases {
        assert!(!check_parser_safe(text));
        assert!(matches!(parse_patch_set(text, "\n"), Err(PatchError::ParseError(_))));
    }
    let text = "--- o a\n+++ a\n@@ -1 +1 @@\n-a\n+b\n";
    assert!(matches!(parse_patch_set(text, ";"), Err(PatchError::ParseError(_))));
}

#[test]
fn screen_accepts_common_diffs() {
    assert!(check_parser_safe("diff --git a/x b/x\nindex 1..2 100644\n--- a/x\n+++ b/x\n@@ -1 +1 @@\n-a\n+b\n"));
    assert!(check_parser_safe("--- o a\r\n+++ a\r\n@@ -1 +1 @@\r\n-a\r\n\\ No newline at end of file\r\n"));
    assert!(check_parser_safe("--- o a\n+++ a\n@@ -1 +1 @@\n-a\n+b\n\n--- o b\n+++ b\n@@ -1 +1 @@\n-c\n+d\n"));
    assert!(check_parser_safe("hello\n"));
    assert!(check_parser_safe("--- o a\n+++ a\n@@ -x @@\n"));
}

#[test]
fn long_numbers_in_content_lines_parse() {
    let text = "--- o a.txt\n+++ a.txt\n@@ -1,1 +1,1 @@\n-a\n+123456789012345678901234\n";
    let patches = parse_patch_set(text, "\n").expect("parses");
    assert!(matches!(&patches[0].hunks[0].lines[1], HunkLine::Add(t) if t == "123456789012345678901234"));
}

#[test]
fn text_without_a_diff_is_a_parse_error() {
    assert!(matches!(parse_patch_set("hello", "\n"), Err(PatchError::ParseError(_))));
}

#[test]
fn error_messages() {
    assert_eq!(
        PatchError::ParseError("bad".to_string()).message(),
        "ParseError::ParseError: bad"
    );
    assert_eq!(PatchError::Unknown.message(), "PatchError::Unknown: Unknown error.");
    let io = PatchError::IOError(std::io::Error::new(std::io::ErrorKind::NotFound, "gone"));
    assert_eq!(io.message(), "PatchError::FileError: gone");
    assert_eq!(file_error_message("denied"), "PatchError::FileError: denied");
}

#[test]
fn default_options() {
    let o = PatchOptions::default();
    assert!(o.line_ending == "\n" || o.line_ending == "\r\n");
    assert_eq!(o.work_directory, std::path::PathBuf::from(""));
    assert_eq!(o.strip_num, None);
    assert_eq!(o.strip_count(), 0);
    let o = PatchOptions { line_ending: "\n".to_string(), work_directory: std::path::PathBuf::from("w"), strip_num: Some(2) };
    assert_eq!(o.strip_count(), 2);
    assert_eq!(line_ending_for(true), "\r\n");
    assert_eq!(line_ending_for(false), "\n");
}
