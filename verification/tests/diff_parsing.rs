use git_ai::diff::{
    get_diff_with_line_numbers, parse_diff_args, parse_diff_hunks, parse_hunk_header_for_line_nums,
    parse_hunk_line, DiffHunk, DiffSpec,
};
use git_ai::error::GitAiError;

const SAMPLE_DIFF: &str = "diff --git a/foo.py b/foo.py\n\
index 0000000..1111111 100644\n\
--- a/foo.py\n\
+++ b/foo.py\n\
@@ -5 +5,2 @@ def f\n\
-old\n\
+new1\n\
+new2\n\
diff --git a/dir/bar baz.rs b/dir/bar baz.rs\n\
--- a/dir/bar baz.rs\n\
+++ b/dir/bar baz.rs\n\
@@ -1,0 +2 @@\n\
+x\n\
@@ -7,2 +8,0 @@\n\
-y\n\
-z\n";

fn sample_hunks() -> Vec<DiffHunk> {
    vec![
        DiffHunk {
            file_path: "foo.py".to_string(),
            old_start: 5,
            old_count: 1,
            new_start: 5,
            new_count: 2,
            deleted_lines: vec![5],
            added_lines: vec![5, 6],
        },
        DiffHunk {
            file_path: "dir/bar baz.rs".to_string(),
            old_start: 1,
            old_count: 0,
            new_start: 2,
            new_count: 1,
            deleted_lines: vec![],
            added_lines: vec![2],
        },
        DiffHunk {
            file_path: "dir/bar baz.rs".to_string(),
            old_start: 7,
            old_count: 2,
            new_start: 8,
            new_count: 0,
            deleted_lines: vec![7, 8],
            added_lines: vec![],
        },
    ]
}

#[test]
fn hunk_lines_are_expanded() {
    let hunk = parse_hunk_line("@@ -10,3 +15,5 @@", "src/main.rs").unwrap().unwrap();
    assert_eq!(
        hunk,
        DiffHunk {
            file_path: "src/main.rs".to_string(),
            old_start: 10,
            old_count: 3,
            new_start: 15,
            new_count: 5,
            deleted_lines: vec![10, 11, 12],
            added_lines: vec![15, 16, 17, 18, 19],
        }
    );
}

#[test]
fn zero_count_side_is_empty() {
    let hunk = parse_hunk_line("@@ -10,0 +15,2 @@", "a.txt").unwrap().unwrap();
    assert_eq!(hunk.deleted_lines, Vec::<u32>::new());
    assert_eq!(hunk.added_lines, vec![15, 16]);
    let hunk = parse_hunk_line("@@ -3,2 +2,0 @@", "a.txt").unwrap().unwrap();
    assert_eq!(hunk.deleted_lines, vec![3, 4]);
    assert_eq!(hunk.added_lines, Vec::<u32>::new());
}

#[test]
fn count_left_out_is_one() {
    let hunk = parse_hunk_line("@@ -10 +15 @@ fn main() {", "a.txt").unwrap().unwrap();
    assert_eq!((hunk.old_start, hunk.old_count), (10, 1));
    assert_eq!((hunk.new_start, hunk.new_count), (15, 1));
    assert_eq!(hunk.deleted_lines, vec![10]);
    assert_eq!(hunk.added_lines, vec![15]);
}

#[test]
fn hunk_line_with_too_few_words_is_no_hunk() {
    assert_eq!(parse_hunk_line("@@ -1", "a.txt"), Ok(None));
    assert_eq!(parse_hunk_line("", "a.txt"), Ok(None));
}

#[test]
fn unreadable_hunk_numbers_count_as_zero() {
    let hunk = parse_hunk_line("@@ -a,b +c,d @@", "a.txt").unwrap().unwrap();
    assert_eq!((hunk.old_start, hunk.old_count, hunk.new_start, hunk.new_count), (0, 0, 0, 0));
    let hunk = parse_hunk_line("@@ 10,3 15,5 @@", "a.txt").unwrap().unwrap();
    assert_eq!((hunk.old_start, hunk.old_count, hunk.new_start, hunk.new_count), (0, 0, 0, 0));
    let hunk = parse_hunk_line("@@ -x +7,2 @@", "a.txt").unwrap().unwrap();
    assert_eq!((hunk.old_start, hunk.old_count), (0, 1));
    assert_eq!(hunk.deleted_lines, vec![0]);
    assert_eq!(hunk.added_lines, vec![7, 8]);
}

#[test]
fn hunk_beyond_the_last_line_number_is_an_error() {
    let err = parse_hunk_line("@@ -4294967295,2 +1 @@", "a.txt").unwrap_err();
    assert_eq!(
        err,
        GitAiError::Generic("Hunk header names line numbers beyond the 32-bit range".to_string())
    );
    assert!(parse_hunk_line("@@ -1 +4294967290,6 @@", "a.txt").is_err());
    let hunk = parse_hunk_line("@@ -4294967294,1 +4294967295,0 @@", "a.txt").unwrap().unwrap();
    assert_eq!(hunk.deleted_lines, vec![4294967294]);
    assert_eq!(hunk.added_lines, Vec::<u32>::new());
}

#[test]
fn header_starts_are_read() {
    assert_eq!(parse_hunk_header_for_line_nums("@@ -10,3 +15,5 @@ fn main()"), Some((10, 15)));
    assert_eq!(parse_hunk_header_for_line_nums("@@ -10 +15 @@"), Some((10, 15)));
    assert_eq!(parse_hunk_header_for_line_nums("@@ -0,0 +1,4 @@"), Some((0, 1)));
    assert_eq!(parse_hunk_header_for_line_nums("@@ -x +15 @@"), None);
    assert_eq!(parse_hunk_header_for_line_nums("@@ -1 15 @@"), None);
    assert_eq!(parse_hunk_header_for_line_nums("@@ 1 +15 @@"), None);
    assert_eq!(parse_hunk_header_for_line_nums("@@ -1"), None);
    assert_eq!(parse_hunk_header_for_line_nums("@@ -1,x +2,y @@"), Some((1, 2)));
}

#[test]
fn diff_arguments_name_one_commit_or_a_range() {
    assert_eq!(
        parse_diff_args(&["abc123".to_string()]),
        Ok(DiffSpec::SingleCommit("abc123".to_string()))
    );
    assert_eq!(
        parse_diff_args(&["main..feature/x".to_string(), "ignored".to_string()]),
        Ok(DiffSpec::TwoCommit("main".to_string(), "feature/x".to_string()))
    );
    assert_eq!(
        parse_diff_args(&["a...b".to_string()]),
        Ok(DiffSpec::TwoCommit("a".to_string(), ".b".to_string()))
    );
    assert_eq!(
        parse_diff_args(&["HEAD~1.5".to_string()]),
        Ok(DiffSpec::SingleCommit("HEAD~1.5".to_string()))
    );
}

#[test]
fn malformed_ranges_are_rejected() {
    for bad in ["a..", "..b", "..", "a..b..c", "a....b"] {
        assert_eq!(
            parse_diff_args(&[bad.to_string()]),
            Err(GitAiError::InvalidRange(
                "Invalid commit range format. Expected: <commit>..<commit>".to_string()
            )),
            "{}",
            bad
        );
    }
}

#[test]
fn hunks_of_a_diff_follow_their_files() {
    assert_eq!(parse_diff_hunks(SAMPLE_DIFF), Ok(sample_hunks()));
    assert_eq!(parse_diff_hunks(""), Ok(vec![]));
}

#[test]
fn hunk_before_any_file_has_no_path() {
    let hunks = parse_diff_hunks("@@ -1 +1 @@\n").unwrap();
    assert_eq!(hunks.len(), 1);
    assert_eq!(hunks[0].file_path, "");
}

#[test]
fn first_bad_hunk_ends_the_reading() {
    let text = "+++ b/a\n@@ -1 +1 @@\n@@ -4294967295,9 +1 @@\n@@ -2 +2 @@\n";
    assert!(parse_diff_hunks(text).is_err());
}

#[test]
fn diff_output_is_decoded_then_read() {
    assert_eq!(get_diff_with_line_numbers(SAMPLE_DIFF.as_bytes()), Ok(sample_hunks()));
    assert_eq!(
        get_diff_with_line_numbers(&[0x40, 0x40, 0xfe]),
        Err(GitAiError::Generic(
            "Failed to parse diff output: invalid utf-8 sequence of 1 bytes from index 2".to_string()
        ))
    );
}
