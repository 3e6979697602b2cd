use git_ai::annotate::{annotate_diff, format_attribution, render_line, AnnotatedLine, LineType};
use git_ai::authorship_log::{
    AttributionRef, AuthorshipLog, AuthorshipMetadata, Entry, FileAttestation, PromptCache,
    PromptRecord,
};
use git_ai::diff::{Attribution, DiffHunk, DiffLineKey, LineSide};
use git_ai::overlay::{
    get_line_attribution, needs_new_log, needs_old_log, overlay_diff_attributions, AttributionMap,
};

fn prompt(id: &str, tool: &str) -> PromptRecord {
    PromptRecord {
        id: id.to_string(),
        tool: tool.to_string(),
        model: "model-x".to_string(),
        timestamp: 7,
        commit_sha: "c1".to_string(),
    }
}

fn log_of(path: &str, entries: Vec<Entry>, prompts: Vec<PromptRecord>) -> AuthorshipLog {
    AuthorshipLog {
        attestations: vec![FileAttestation { file_path: path.to_string(), entries }],
        metadata: AuthorshipMetadata {
            schema_version: "authorship/3.0.0".to_string(),
            git_ai_version: None,
            base_commit_sha: "base".to_string(),
            prompts,
        },
    }
}

fn old_log() -> AuthorshipLog {
    log_of(
        "foo.py",
        vec![Entry {
            start_line: 5,
            end_line: 5,
            reference: AttributionRef::Human("alice".to_string()),
        }],
        vec![],
    )
}

fn new_log() -> AuthorshipLog {
    log_of(
        "foo.py",
        vec![
            Entry { start_line: 5, end_line: 5, reference: AttributionRef::Prompt("pa".to_string()) },
            Entry { start_line: 9, end_line: 9, reference: AttributionRef::Prompt("far".to_string()) },
        ],
        vec![prompt("pa", "cursor")],
    )
}

fn hunks() -> Vec<DiffHunk> {
    vec![
        DiffHunk {
            file_path: "foo.py".to_string(),
            old_start: 5,
            old_count: 1,
            new_start: 5,
            new_count: 2,
            deleted_lines: vec![5],
            added_lines: vec![5, 6],
        },
        DiffHunk {
            file_path: "foo.py".to_string(),
            old_start: 8,
            old_count: 0,
            new_start: 9,
            new_count: 1,
            deleted_lines: vec![],
            added_lines: vec![9],
        },
    ]
}

fn key(file: &str, line: u32, side: LineSide) -> DiffLineKey {
    DiffLineKey { file: file.to_string(), line, side }
}

#[test]
fn overlay_joins_hunks_and_logs() {
    let (old, new) = (old_log(), new_log());
    let map = overlay_diff_attributions(&hunks(), Some(&old), Some(&new), &PromptCache::new());
    assert_eq!(map.get(&key("foo.py", 5, LineSide::Old)), Some(Attribution::Human("alice".to_string())));
    assert_eq!(map.get(&key("foo.py", 5, LineSide::New)), Some(Attribution::Ai("cursor".to_string())));
    assert_eq!(map.get(&key("foo.py", 6, LineSide::New)), Some(Attribution::NoData));
    assert_eq!(map.get(&key("foo.py", 9, LineSide::New)), Some(Attribution::NoData));
    assert_eq!(map.get(&key("foo.py", 6, LineSide::Old)), None);
    assert_eq!(map.get(&key("foo.py", 7, LineSide::New)), None);
    assert_eq!(map.get(&key("bar.py", 5, LineSide::New)), None);
    assert!(!map.is_empty());
}

#[test]
fn overlay_uses_the_prompt_cache() {
    let (old, new) = (old_log(), new_log());
    let mut cache = PromptCache::new();
    cache.insert("far".to_string(), Some(prompt("far", "gemini")));
    let map = overlay_diff_attributions(&hunks(), Some(&old), Some(&new), &cache);
    assert_eq!(map.get(&key("foo.py", 9, LineSide::New)), Some(Attribution::Ai("gemini".to_string())));
}

#[test]
fn overlay_without_logs_has_no_data() {
    let map = overlay_diff_attributions(&hunks(), None, None, &PromptCache::new());
    assert_eq!(map.get(&key("foo.py", 5, LineSide::Old)), Some(Attribution::NoData));
    assert_eq!(map.get(&key("foo.py", 5, LineSide::New)), Some(Attribution::NoData));
    assert_eq!(map.get(&key("foo.py", 6, LineSide::New)), Some(Attribution::NoData));
    assert_eq!(map.get(&key("foo.py", 4, LineSide::New)), None);
    let empty = overlay_diff_attributions(&[], None, None, &PromptCache::new());
    assert!(empty.is_empty());
}

#[test]
fn logs_are_needed_only_for_their_side() {
    let all = hunks();
    assert!(needs_old_log(&all));
    assert!(needs_new_log(&all));
    assert!(!needs_old_log(&all[1..]));
    assert!(needs_new_log(&all[1..]));
    let pure_deletion = vec![DiffHunk {
        file_path: "x".to_string(),
        old_start: 1,
        old_count: 1,
        new_start: 0,
        new_count: 0,
        deleted_lines: vec![1],
        added_lines: vec![],
    }];
    assert!(needs_old_log(&pure_deletion));
    assert!(!needs_new_log(&pure_deletion));
    assert!(!needs_old_log(&[]));
    assert!(!needs_new_log(&[]));
}

#[test]
fn attribution_of_one_line() {
    let cache = PromptCache::new();
    assert_eq!(get_line_attribution(&new_log(), "foo.py", 5, &cache), Attribution::Ai("cursor".to_string()));
    assert_eq!(get_line_attribution(&old_log(), "foo.py", 5, &cache), Attribution::Human("alice".to_string()));
    assert_eq!(get_line_attribution(&old_log(), "foo.py", 6, &cache), Attribution::NoData);
    assert_eq!(get_line_attribution(&new_log(), "foo.py", 9, &cache), Attribution::NoData);
}

#[test]
fn map_keeps_the_last_value_of_a_key() {
    let mut map = AttributionMap::new();
    assert!(map.is_empty());
    map.insert(key("f", 1, LineSide::Old), Attribution::NoData);
    map.insert(key("f", 1, LineSide::New), Attribution::Human("h".to_string()));
    map.insert(key("f", 1, LineSide::Old), Attribution::Ai("t".to_string()));
    assert_eq!(map.get(&key("f", 1, LineSide::Old)), Some(Attribution::Ai("t".to_string())));
    assert_eq!(map.get(&key("f", 1, LineSide::New)), Some(Attribution::Human("h".to_string())));
    assert_eq!(map.get(&key("g", 1, LineSide::New)), None);
    assert_eq!(map.get(&key("f", 2, LineSide::New)), None);
}

const FULL_DIFF: &str = "diff --git a/foo.py b/foo.py\n\
index 0000000..1111111 100644\n\
--- a/foo.py\n\
+++ b/foo.py\n\
@@ -4,3 +4,4 @@ def f\n \
ctx4\n\
-old5\n\
+new5\n\
+new6\n \
ctx6\n\
\\ No newline at end of file\n\
Binary files a/x.png and b/x.png differ\n";

fn plain(text: &str, line_type: LineType) -> AnnotatedLine {
    AnnotatedLine { text: text.to_string(), line_type, attribution: None }
}

#[test]
fn diff_lines_are_classified_and_annotated() {
    let (old, new) = (old_log(), new_log());
    let map = overlay_diff_attributions(&hunks(), Some(&old), Some(&new), &PromptCache::new());
    let lines = annotate_diff(FULL_DIFF, &map);
    assert_eq!(
        lines,
        vec![
            plain("diff --git a/foo.py b/foo.py", LineType::DiffHeader),
            plain("index 0000000..1111111 100644", LineType::DiffHeader),
            plain("--- a/foo.py", LineType::DiffHeader),
            plain("+++ b/foo.py", LineType::DiffHeader),
            plain("@@ -4,3 +4,4 @@ def f", LineType::HunkHeader),
            plain(" ctx4", LineType::Context),
            AnnotatedLine {
                text: "-old5".to_string(),
                line_type: LineType::Deletion,
                attribution: Some(Attribution::Human("alice".to_string())),
            },
            AnnotatedLine {
                text: "+new5".to_string(),
                line_type: LineType::Addition,
                attribution: Some(Attribution::Ai("cursor".to_string())),
            },
            AnnotatedLine {
                text: "+new6".to_string(),
                line_type: LineType::Addition,
                attribution: Some(Attribution::NoData),
            },
            plain(" ctx6", LineType::Context),
            plain("\\ No newline at end of file", LineType::Context),
            plain("Binary files a/x.png and b/x.png differ", LineType::Binary),
        ]
    );
}

#[test]
fn line_numbers_restart_with_each_file() {
    let mut map = AttributionMap::new();
    map.insert(key("", 0, LineSide::New), Attribution::Human("nobody".to_string()));
    map.insert(key("b", 0, LineSide::New), Attribution::Human("zero".to_string()));
    map.insert(key("b", 1, LineSide::New), Attribution::Human("one".to_string()));
    map.insert(key("a", 3, LineSide::Old), Attribution::Human("three".to_string()));
    let text = "+++ b/a\n@@ -3 +9 @@\n-x\ndiff --git a/b b/b\n+first\n+++ b/b\n+second\n+third\n";
    let lines = annotate_diff(text, &map);
    let notes: Vec<Option<Attribution>> = lines.iter().map(|l| l.attribution.clone()).collect();
    assert_eq!(
        notes,
        vec![
            None,
            None,
            Some(Attribution::Human("three".to_string())),
            None,
            Some(Attribution::Human("nobody".to_string())),
            None,
            Some(Attribution::Human("one".to_string())),
            None,
        ]
    );
}

#[test]
fn lines_past_the_last_number_get_no_attribution() {
    let mut map = AttributionMap::new();
    map.insert(key("f", 4294967295, LineSide::Old), Attribution::Human("last".to_string()));
    map.insert(key("f", 0, LineSide::Old), Attribution::Human("wrapped".to_string()));
    let lines = annotate_diff("+++ b/f\n@@ -4294967295 +1 @@\n-a\n-b\n-c\n", &map);
    assert_eq!(lines[2].attribution, Some(Attribution::Human("last".to_string())));
    assert_eq!(lines[3].attribution, None);
    assert_eq!(lines[4].attribution, None);
}

fn noted(text: &str, line_type: LineType, who: &str) -> AnnotatedLine {
    AnnotatedLine {
        text: text.to_string(),
        line_type,
        attribution: Some(Attribution::Human(who.to_string())),
    }
}

#[test]
fn deleted_text_that_begins_with_dashes_is_a_deletion() {
    let mut map = AttributionMap::new();
    map.insert(key("f", 3, LineSide::Old), Attribution::Human("three".to_string()));
    map.insert(key("f", 4, LineSide::Old), Attribution::Human("four".to_string()));
    map.insert(key("f", 5, LineSide::Old), Attribution::Human("five".to_string()));
    assert_eq!(
        annotate_diff("+++ b/f\n@@ -3,2 +3,0 @@\n---x\n-y\n", &map),
        vec![
            plain("+++ b/f", LineType::DiffHeader),
            plain("@@ -3,2 +3,0 @@", LineType::HunkHeader),
            noted("---x", LineType::Deletion, "three"),
            noted("-y", LineType::Deletion, "four"),
        ]
    );
    assert_eq!(
        annotate_diff("+++ b/f\n@@ -3,3 +3,0 @@\n--- a/g\n--- \n-----\n-late\n---x\n--- a/g\n", &map),
        vec![
            plain("+++ b/f", LineType::DiffHeader),
            plain("@@ -3,3 +3,0 @@", LineType::HunkHeader),
            noted("--- a/g", LineType::Deletion, "three"),
            noted("--- ", LineType::Deletion, "four"),
            noted("-----", LineType::Deletion, "five"),
            plain("-late", LineType::Deletion),
            plain("---x", LineType::Context),
            plain("--- a/g", LineType::DiffHeader),
        ]
    );
}

#[test]
fn added_text_that_begins_with_pluses_is_an_addition() {
    let mut map = AttributionMap::new();
    map.insert(key("f", 1, LineSide::New), Attribution::Human("one".to_string()));
    map.insert(key("f", 2, LineSide::New), Attribution::Human("two".to_string()));
    map.insert(key("f", 3, LineSide::New), Attribution::Human("three".to_string()));
    map.insert(key("g", 4, LineSide::New), Attribution::Human("other file".to_string()));
    map.insert(key("g", 1, LineSide::New), Attribution::Human("other file".to_string()));
    assert_eq!(
        annotate_diff("+++ b/f\n@@ -0,0 +1,3 @@\n+++ b/g\n+++x\n+z\n+++y\n+++ b/g\n+w\n", &map),
        vec![
            plain("+++ b/f", LineType::DiffHeader),
            plain("@@ -0,0 +1,3 @@", LineType::HunkHeader),
            noted("+++ b/g", LineType::Addition, "one"),
            noted("+++x", LineType::Addition, "two"),
            noted("+z", LineType::Addition, "three"),
            plain("+++y", LineType::Context),
            plain("+++ b/g", LineType::DiffHeader),
            noted("+w", LineType::Addition, "other file"),
        ]
    );
}

#[test]
fn both_sides_of_a_hunk_are_counted_on_their_own() {
    let mut map = AttributionMap::new();
    for line in 10..=13u32 {
        map.insert(key("f", line, LineSide::Old), Attribution::Human(format!("old{}", line)));
    }
    for line in 20..=23u32 {
        map.insert(key("f", line, LineSide::New), Attribution::Human(format!("new{}", line)));
    }
    let text = "diff --git a/f b/f\n--- a/f\n+++ b/f\n@@ -10,3 +20,4 @@ fn f\n ctx\n---a\n+++b\n\\ No newline at end of file\n-c\n+d\n+e\n--- a/f\n";
    assert_eq!(
        annotate_diff(text, &map),
        vec![
            plain("diff --git a/f b/f", LineType::DiffHeader),
            plain("--- a/f", LineType::DiffHeader),
            plain("+++ b/f", LineType::DiffHeader),
            plain("@@ -10,3 +20,4 @@ fn f", LineType::HunkHeader),
            plain(" ctx", LineType::Context),
            noted("---a", LineType::Deletion, "old11"),
            noted("+++b", LineType::Addition, "new21"),
            plain("\\ No newline at end of file", LineType::Context),
            noted("-c", LineType::Deletion, "old12"),
            noted("+d", LineType::Addition, "new22"),
            noted("+e", LineType::Addition, "new23"),
            plain("--- a/f", LineType::DiffHeader),
        ]
    );
}

#[test]
fn a_body_that_ends_early_gives_way_to_the_next_header() {
    let mut map = AttributionMap::new();
    map.insert(key("f", 1, LineSide::Old), Attribution::Human("f1".to_string()));
    map.insert(key("g", 7, LineSide::Old), Attribution::Human("g7".to_string()));
    map.insert(key("g", 9, LineSide::Old), Attribution::Human("g9".to_string()));
    let text = "+++ b/f\n@@ -1,5 +1,5 @@\n-a\ndiff --git a/g b/g\n--- a/g\n+++ b/g\n@@ -7,9 +7,9 @@\n-b\n@@ -9 +9 @@\n---c\nindex 1..2\nBinary files differ\n";
    assert_eq!(
        annotate_diff(text, &map),
        vec![
            plain("+++ b/f", LineType::DiffHeader),
            plain("@@ -1,5 +1,5 @@", LineType::HunkHeader),
            noted("-a", LineType::Deletion, "f1"),
            plain("diff --git a/g b/g", LineType::DiffHeader),
            plain("--- a/g", LineType::DiffHeader),
            plain("+++ b/g", LineType::DiffHeader),
            plain("@@ -7,9 +7,9 @@", LineType::HunkHeader),
            noted("-b", LineType::Deletion, "g7"),
            plain("@@ -9 +9 @@", LineType::HunkHeader),
            noted("---c", LineType::Deletion, "g9"),
            plain("index 1..2", LineType::DiffHeader),
            plain("Binary files differ", LineType::Binary),
        ]
    );
}

#[test]
fn attributions_are_formatted() {
    assert_eq!(format_attribution(&Attribution::Ai("cursor".to_string())), "\u{1F916}cursor");
    assert_eq!(format_attribution(&Attribution::Human("alice".to_string())), "\u{1F464}alice");
    assert_eq!(format_attribution(&Attribution::NoData), "[no-data]");
}

#[test]
fn lines_are_rendered_without_colour() {
    let ai = Attribution::Ai("cursor".to_string());
    assert_eq!(render_line("+new5", LineType::Addition, false, Some(&ai)), "+new5  \u{1F916}cursor");
    assert_eq!(render_line("+new5", LineType::Addition, false, None), "+new5");
    assert_eq!(render_line(" ctx", LineType::Context, false, Some(&Attribution::NoData)), " ctx  [no-data]");
    assert_eq!(render_line("@@ -1 +1 @@", LineType::HunkHeader, false, None), "@@ -1 +1 @@");
}

#[test]
fn lines_are_rendered_with_colour() {
    let ai = Attribution::Ai("cursor".to_string());
    let human = Attribution::Human("alice".to_string());
    assert_eq!(
        render_line("+new5", LineType::Addition, true, Some(&ai)),
        "\x1b[32m+new5\x1b[0m  \x1b[2m\u{1F916}cursor\x1b[0m"
    );
    assert_eq!(
        render_line("-old5", LineType::Deletion, true, Some(&human)),
        "\x1b[31m-old5\x1b[0m  \x1b[2m\u{1F464}alice\x1b[0m"
    );
    assert_eq!(render_line("-x", LineType::Deletion, true, None), "\x1b[31m-x\x1b[0m");
    assert_eq!(render_line("+x", LineType::Addition, true, None), "\x1b[32m+x\x1b[0m");
    assert_eq!(render_line("diff --git", LineType::DiffHeader, true, Some(&ai)), "\x1b[1mdiff --git\x1b[0m");
    assert_eq!(render_line("@@ -1 +1 @@", LineType::HunkHeader, true, None), "\x1b[36m@@ -1 +1 @@\x1b[0m");
    assert_eq!(render_line(" ctx", LineType::Context, true, Some(&ai)), " ctx");
    assert_eq!(render_line("Binary files differ", LineType::Binary, true, None), "Binary files differ");
}
