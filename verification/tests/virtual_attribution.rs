use git_ai::authorship_log::{
    files_lookup, AttributionRef, AuthorshipLog, AuthorshipMetadata, Entry, FileAttestation,
    PromptRecord,
};
use git_ai::carry::{carried_entries, origin_of, AncestorLog};
use git_ai::diff::parse_diff_hunks;
use git_ai::range_authorship::create_authorship_log_for_range;
use git_ai::stats::{ai_line_count, stats_from_authorship_log};
use git_ai::text::contains_text;
use git_ai::virtual_attribution::{
    current_schema_version, current_tool_version,
    merge_attributions_favoring_first, VirtualAttributions,
};

fn prompt(id: &str, tool: &str, commit: &str) -> PromptRecord {
    PromptRecord {
        id: id.to_string(),
        tool: tool.to_string(),
        model: "model-x".to_string(),
        timestamp: 42,
        commit_sha: commit.to_string(),
    }
}

fn ai(start: u32, end: u32, id: &str) -> Entry {
    Entry { start_line: start, end_line: end, reference: AttributionRef::Prompt(id.to_string()) }
}

fn human(start: u32, end: u32, author: &str) -> Entry {
    Entry { start_line: start, end_line: end, reference: AttributionRef::Human(author.to_string()) }
}

fn file(path: &str, entries: Vec<Entry>) -> FileAttestation {
    FileAttestation { file_path: path.to_string(), entries }
}

fn va(commit: &str, files: Vec<FileAttestation>, prompts: Vec<PromptRecord>) -> VirtualAttributions {
    VirtualAttributions { base_commit: commit.to_string(), files, prompts }
}

fn strings(items: &[&str]) -> Vec<String> {
    items.iter().map(|s| s.to_string()).collect()
}

fn log(files: Vec<FileAttestation>, prompts: Vec<PromptRecord>) -> AuthorshipLog {
    AuthorshipLog {
        attestations: files,
        metadata: AuthorshipMetadata {
            schema_version: "authorship/3.0.0".to_string(),
            git_ai_version: Some("1.0.0".to_string()),
            base_commit_sha: "stored".to_string(),
            prompts,
        },
    }
}

#[test]
fn attribution_starts_from_the_stored_log() {
    let stored = log(
        vec![
            file("a.rs", vec![ai(1, 3, "pa"), human(4, 4, "alice")]),
            file("untouched.rs", vec![human(1, 1, "bob")]),
            file("a.rs", vec![human(9, 9, "shadowed")]),
        ],
        vec![prompt("pa", "cursor", "c1")],
    );
    let made = VirtualAttributions::new_for_base_commit(
        "c1",
        &strings(&["new.rs", "a.rs"]),
        Some(&stored),
        None,
    );
    assert_eq!(
        made,
        va(
            "c1",
            vec![file("new.rs", vec![]), file("a.rs", vec![ai(1, 3, "pa"), human(4, 4, "alice")])],
            vec![prompt("pa", "cursor", "c1")],
        )
    );
    let bare = VirtualAttributions::new_for_base_commit("c2", &strings(&["a.rs"]), None, None);
    assert_eq!(bare, va("c2", vec![file("a.rs", vec![])], vec![]));
}

fn mixed() -> VirtualAttributions {
    va(
        "end",
        vec![
            file("a.rs", vec![ai(1, 2, "pa"), ai(3, 3, "pb"), human(4, 5, "alice"), ai(6, 6, "lost")]),
            file("b.rs", vec![ai(1, 9, "pa")]),
        ],
        vec![prompt("pa", "cursor", "c1"), prompt("pb", "gemini", "c2"), prompt("pc", "other", "c3")],
    )
}

#[test]
fn filter_keeps_prompts_of_the_commits_only() {
    let mut filtered = mixed();
    filtered.filter_to_commits(&strings(&["c2", "c9"]));
    assert_eq!(
        filtered,
        va(
            "end",
            vec![file("a.rs", vec![ai(3, 3, "pb"), human(4, 5, "alice")]), file("b.rs", vec![])],
            vec![prompt("pb", "gemini", "c2")],
        )
    );
    let mut none = mixed();
    none.filter_to_commits(&[]);
    assert_eq!(
        none,
        va("end", vec![file("a.rs", vec![human(4, 5, "alice")]), file("b.rs", vec![])], vec![])
    );
}

#[test]
fn filter_twice_is_filter_once() {
    let commits = strings(&["c1", "c3"]);
    let mut once = mixed();
    once.filter_to_commits(&commits);
    let mut twice = once.clone();
    twice.filter_to_commits(&commits);
    assert_eq!(twice, once);
    assert_eq!(once.files[0].entries, vec![ai(1, 2, "pa"), human(4, 5, "alice")]);
}

#[test]
fn narrower_filter_brings_nothing_back() {
    let mut wide = mixed();
    wide.filter_to_commits(&strings(&["c1", "c2"]));
    let mut narrowed = wide.clone();
    narrowed.filter_to_commits(&strings(&["c2"]));
    let mut direct = mixed();
    direct.filter_to_commits(&strings(&["c2"]));
    assert_eq!(narrowed, direct);
    for (after, before) in narrowed.files.iter().zip(wide.files.iter()) {
        for entry in &after.entries {
            assert!(before.entries.contains(entry));
        }
    }
    let mut unrelated = wide.clone();
    unrelated.filter_to_commits(&strings(&["c3"]));
    assert_eq!(unrelated.files[0].entries, vec![human(4, 5, "alice")]);
    assert_eq!(unrelated.prompts, vec![]);
}

#[test]
fn shadowed_prompt_does_not_decide() {
    let mut shadow = va(
        "e",
        vec![file("a", vec![ai(1, 1, "p")])],
        vec![prompt("p", "one", "outside"), prompt("p", "two", "inside")],
    );
    shadow.filter_to_commits(&strings(&["inside"]));
    assert_eq!(shadow.files[0].entries, vec![]);
    assert_eq!(shadow.prompts, vec![prompt("p", "two", "inside")]);
}

#[test]
fn merge_prefers_the_first() {
    let preferred = va("new", vec![file("a.rs", vec![human(2, 2, "bob")])], vec![]);
    let fallback = va("old", vec![file("a.rs", vec![ai(1, 3, "pa")])], vec![prompt("pa", "cursor", "c1")]);
    let committed = vec![("a.rs".to_string(), "l1\nl2\nl3\nl4\n".to_string())];
    let merged = merge_attributions_favoring_first(preferred, fallback, &committed);
    assert_eq!(
        merged,
        va(
            "new",
            vec![file("a.rs", vec![ai(1, 1, "pa"), human(2, 2, "bob"), ai(3, 3, "pa")])],
            vec![prompt("pa", "cursor", "c1")],
        )
    );
}

#[test]
fn merge_precedence_on_every_line() {
    let preferred = va(
        "new",
        vec![file("a", vec![human(2, 3, "h"), ai(7, 8, "n")]), file("b", vec![ai(1, 1, "n")])],
        vec![],
    );
    let fallbacks = vec![
        va("old", vec![], vec![]),
        va("old", vec![file("a", vec![ai(1, 9, "o")])], vec![]),
        va("old", vec![file("a", vec![human(3, 4, "z"), ai(8, 9, "o")]), file("b", vec![human(1, 5, "y")])], vec![]),
    ];
    let committed = vec![
        ("a".to_string(), "1\n2\n3\n4\n5\n6\n7\n8".to_string()),
        ("b".to_string(), "x\ny\n".to_string()),
    ];
    for fallback in fallbacks {
        let merged = merge_attributions_favoring_first(preferred.clone(), fallback.clone(), &committed);
        for (index, (path, text)) in committed.iter().enumerate() {
            let count = text.lines().count() as u32;
            for line in 0..12u32 {
                let got = files_lookup(&merged.files[index..index + 1].to_vec(), path, line);
                let first = files_lookup(&preferred.files, path, line);
                let second = files_lookup(&fallback.files, path, line);
                let expected = if line >= 1 && line <= count { first.or(second) } else { None };
                assert_eq!(got, expected, "{} line {}", path, line);
            }
        }
    }
}

#[test]
fn merge_joins_neighbouring_lines_of_one_reference() {
    let preferred = va("new", vec![file("a", vec![ai(1, 2, "p")])], vec![prompt("p", "first", "c")]);
    let fallback = va(
        "old",
        vec![file("a", vec![ai(3, 5, "p"), human(6, 9, "h")])],
        vec![prompt("p", "second", "c"), prompt("q", "third", "d")],
    );
    let committed = vec![
        ("a".to_string(), "1\n2\n3\n4\n".to_string()),
        ("gone".to_string(), String::new()),
    ];
    let merged = merge_attributions_favoring_first(preferred, fallback, &committed);
    assert_eq!(merged.files, vec![file("a", vec![ai(1, 4, "p")]), file("gone", vec![])]);
    assert_eq!(merged.prompts, vec![prompt("p", "first", "c"), prompt("q", "third", "d")]);
    assert_eq!(merged.base_commit, "new");
}

#[test]
fn log_holds_the_files_with_entries() {
    let made = va(
        "end",
        vec![file("empty", vec![]), file("a", vec![human(1, 1, "h")]), file("also empty", vec![])],
        vec![prompt("p", "t", "c")],
    )
    .to_authorship_log();
    assert_eq!(
        made,
        AuthorshipLog {
            attestations: vec![file("a", vec![human(1, 1, "h")])],
            metadata: AuthorshipMetadata {
                schema_version: "authorship/3.0.0".to_string(),
                git_ai_version: Some("1.0.0".to_string()),
                base_commit_sha: "end".to_string(),
                prompts: vec![prompt("p", "t", "c")],
            },
        }
    );
    assert_eq!(current_schema_version(), "authorship/3.0.0");
    assert_eq!(current_tool_version(), "1.0.0");
}

#[test]
fn texts_are_found_in_lists() {
    assert!(contains_text(&strings(&["a", "b"]), "b"));
    assert!(!contains_text(&strings(&["a", "b"]), "ab"));
    assert!(!contains_text(&[], ""));
}

const FIRST_TEXT: &str = "def print_name(name: str) -> None:\n    \"\"\"Print the given name.\"\"\"\n    if name == 'foobar':\n        print('name not allowed!')\n    print(\"Hello World\")\nprint_name(\"Michael\")\n";

const SECOND_TEXT: &str = "def print_name(name: str) -> None:\n    \"\"\"Print the given name.\"\"\"\n    if name == 'foobar':\n        print('name not allowed!')\n    name = name.upper()\n    print(f\"Hello {name}\")\nprint_name(\"Michael\")\n";

#[test]
fn test_change_across_commits() {
    assert_eq!(FIRST_TEXT.lines().count(), 6);
    assert_eq!(SECOND_TEXT.lines().count(), 7);
    let first = log(vec![file("foo.py", vec![ai(1, 6, "first")])], vec![prompt("first", "cursor", "commit-a")]);
    let second = log(vec![file("foo.py", vec![ai(5, 6, "second")])], vec![prompt("second", "cursor", "commit-b")]);
    let changed = strings(&["foo.py"]);
    let start = VirtualAttributions::new_for_base_commit("commit-a", &changed, Some(&first), None);
    let end = VirtualAttributions::new_for_base_commit("commit-b", &changed, Some(&second), None);
    let hunks = parse_diff_hunks("+++ b/foo.py\n@@ -5 +5,2 @@\n").unwrap();
    assert_eq!(hunks[0].deleted_lines, vec![5]);
    assert_eq!(hunks[0].added_lines, vec![5, 6]);
    let authorship_log = create_authorship_log_for_range(
        "commit-b",
        &changed,
        start.clone(),
        end.clone(),
        &strings(&["commit-b"]),
        &hunks,
        &vec![("foo.py".to_string(), SECOND_TEXT.to_string())],
    );
    let file_attestation = authorship_log.attestations.first().unwrap();
    assert_eq!(file_attestation.entries.len(), 1);
    assert_eq!(file_attestation.entries[0], ai(5, 6, "second"));
    assert_eq!(authorship_log.metadata.prompts, vec![prompt("second", "cursor", "commit-b")]);

    let both = create_authorship_log_for_range(
        "commit-b",
        &changed,
        start,
        end,
        &strings(&["commit-a", "commit-b"]),
        &hunks,
        &vec![("foo.py".to_string(), SECOND_TEXT.to_string())],
    );
    assert_eq!(
        both.attestations,
        vec![file("foo.py", vec![ai(1, 4, "first"), ai(5, 6, "second"), ai(7, 7, "first")])]
    );
}

#[test]
fn edited_line_loses_the_credit_of_the_earlier_prompt() {
    let first = log(vec![file("foo.py", vec![ai(1, 6, "first")])], vec![prompt("first", "cursor", "commit-a")]);
    let second = log(
        vec![file("foo.py", vec![human(5, 5, "alice"), ai(6, 6, "second"), ai(7, 7, "first")])],
        vec![prompt("second", "cursor", "commit-b"), prompt("first", "cursor", "commit-a")],
    );
    let changed = strings(&["foo.py"]);
    let start = VirtualAttributions::new_for_base_commit("commit-a", &changed, Some(&first), None);
    let end = VirtualAttributions::new_for_base_commit("commit-b", &changed, Some(&second), None);
    let made = create_authorship_log_for_range(
        "commit-b",
        &changed,
        start,
        end,
        &strings(&["commit-a", "commit-b"]),
        &parse_diff_hunks("+++ b/foo.py\n@@ -5 +5,2 @@\n").unwrap(),
        &vec![("foo.py".to_string(), SECOND_TEXT.to_string())],
    );
    assert_eq!(
        made.attestations,
        vec![file(
            "foo.py",
            vec![ai(1, 4, "first"), human(5, 5, "alice"), ai(6, 6, "second"), ai(7, 7, "first")]
        )]
    );
    assert_eq!(ai_line_count(&made), 6);
    let stats = stats_from_authorship_log(Some(&made), 7, 0);
    assert_eq!((stats.ai_additions, stats.human_additions, stats.total_ai_additions), (6, 1, 6));
    assert_eq!(made.metadata.base_commit_sha, "commit-b");
}

fn ancestor() -> AncestorLog {
    AncestorLog {
        log: log(
            vec![file("a.rs", vec![ai(1, 3, "pa"), human(4, 6, "h")]), file("b.rs", vec![ai(1, 2, "pa")])],
            vec![prompt("pa", "cursor", "c0")],
        ),
        hunks: parse_diff_hunks("+++ b/a.rs\n@@ -2 +2,2 @@\n@@ -5 +5,0 @@\n+++ b/new.rs\n@@ -0,0 +1,2 @@\n")
            .unwrap(),
        contents: vec![
            ("a.rs".to_string(), "n1\nn2\nn3\nn4\nn5\nn6\n".to_string()),
            ("new.rs".to_string(), "x\ny\n".to_string()),
            ("b.rs".to_string(), "only one line".to_string()),
        ],
    }
}

#[test]
fn lines_are_traced_back_through_the_hunks() {
    let hunks = ancestor().hunks;
    let origins: Vec<Option<u32>> = (1..=7).map(|n| origin_of(&hunks, "a.rs", n)).collect();
    assert_eq!(origins, vec![Some(1), None, None, Some(3), Some(4), Some(6), Some(7)]);
    assert_eq!(origin_of(&hunks, "new.rs", 1), None);
    assert_eq!(origin_of(&hunks, "new.rs", 2), None);
    assert_eq!(origin_of(&hunks, "new.rs", 3), Some(1));
    assert_eq!(origin_of(&hunks, "b.rs", 5), Some(5));
    assert_eq!(origin_of(&[], "a.rs", 9), Some(9));
    let top = parse_diff_hunks("+++ b/f\n@@ -1,2 +0,0 @@\n@@ -7,0 +6,3 @@\n").unwrap();
    let origins: Vec<Option<u32>> = (1..=10).map(|n| origin_of(&top, "f", n)).collect();
    assert_eq!(
        origins,
        vec![Some(3), Some(4), Some(5), Some(6), Some(7), None, None, None, Some(8), Some(9)]
    );
    let far = parse_diff_hunks("+++ b/f\n@@ -4294967295,0 +1,1 @@\n").unwrap();
    assert_eq!(origin_of(&far, "f", 1), None);
    assert_eq!(origin_of(&far, "f", 2), None);
}

#[test]
fn log_of_an_ancestor_is_carried_forward() {
    let from = ancestor();
    let carried = |path: &str| carried_entries(&from.log.attestations, &from.hunks, &from.contents, path);
    assert_eq!(carried("a.rs"), vec![ai(1, 1, "pa"), ai(4, 4, "pa"), human(5, 6, "h")]);
    assert_eq!(carried("new.rs"), vec![]);
    assert_eq!(carried("b.rs"), vec![ai(1, 1, "pa")]);
    assert_eq!(carried("absent.rs"), vec![]);
}

#[test]
fn commit_without_log_gets_what_its_ancestor_carries() {
    let from = ancestor();
    let made = VirtualAttributions::new_for_base_commit(
        "rebased",
        &strings(&["a.rs", "new.rs"]),
        None,
        Some(&from),
    );
    assert_eq!(
        made,
        va(
            "rebased",
            vec![
                file("a.rs", vec![ai(1, 1, "pa"), ai(4, 4, "pa"), human(5, 6, "h")]),
                file("new.rs", vec![]),
            ],
            vec![prompt("pa", "cursor", "c0")],
        )
    );
    let own = log(vec![file("a.rs", vec![human(1, 1, "me")])], vec![]);
    let made = VirtualAttributions::new_for_base_commit(
        "noted",
        &strings(&["a.rs"]),
        Some(&own),
        Some(&from),
    );
    assert_eq!(made, va("noted", vec![file("a.rs", vec![human(1, 1, "me")])], vec![]));
}

#[test]
fn start_of_a_range_is_carried_to_its_end() {
    let first = log(
        vec![file("foo.py", vec![ai(1, 3, "first"), human(4, 6, "alice")])],
        vec![prompt("first", "cursor", "commit-a")],
    );
    let second = log(vec![file("foo.py", vec![human(1, 2, "bob")])], vec![]);
    let changed = strings(&["foo.py"]);
    let start = VirtualAttributions::new_for_base_commit("commit-a", &changed, Some(&first), None);
    let end = VirtualAttributions::new_for_base_commit("commit-b", &changed, Some(&second), None);
    let hunks = parse_diff_hunks("+++ b/foo.py\n@@ -0,0 +1,2 @@\n").unwrap();
    let text = "new\nnew\n1\n2\n3\n4\n5\n6\n".to_string();
    let made = create_authorship_log_for_range(
        "commit-b",
        &changed,
        start.clone(),
        end.clone(),
        &strings(&["commit-a", "commit-b"]),
        &hunks,
        &vec![("foo.py".to_string(), text.clone())],
    );
    assert_eq!(
        made.attestations,
        vec![file("foo.py", vec![human(1, 2, "bob"), ai(3, 5, "first"), human(6, 8, "alice")])]
    );
    let carried = start.carried_forward(&hunks, &vec![("foo.py".to_string(), text)]);
    assert_eq!(carried.files, vec![file("foo.py", vec![ai(3, 5, "first"), human(6, 8, "alice")])]);
    assert_eq!(carried.prompts, start.prompts);
    assert_eq!(carried.base_commit, "commit-a");
}

#[test]
fn range_counts_only_what_is_ai_in_the_final_text() {
    let first = log(vec![file("foo.py", vec![ai(1, 6, "first")])], vec![prompt("first", "cursor", "commit-a")]);
    let second = log(
        vec![file("foo.py", vec![human(5, 5, "alice"), ai(6, 6, "second")])],
        vec![prompt("second", "cursor", "commit-b")],
    );
    let changed = strings(&["foo.py"]);
    let hunks = parse_diff_hunks("+++ b/foo.py\n@@ -5 +5,2 @@\n").unwrap();
    let committed = vec![("foo.py".to_string(), SECOND_TEXT.to_string())];
    let rebuild = |commits: &[&str]| {
        create_authorship_log_for_range(
            "commit-b",
            &changed,
            VirtualAttributions::new_for_base_commit("commit-a", &changed, Some(&first), None),
            VirtualAttributions::new_for_base_commit("commit-b", &changed, Some(&second), None),
            &strings(commits),
            &hunks,
            &committed,
        )
    };
    let both = rebuild(&["commit-a", "commit-b"]);
    assert_eq!(
        both.attestations,
        vec![file(
            "foo.py",
            vec![ai(1, 4, "first"), human(5, 5, "alice"), ai(6, 6, "second"), ai(7, 7, "first")]
        )]
    );
    assert_eq!(ai_line_count(&both), 6);
    let stats = stats_from_authorship_log(Some(&both), 7, 0);
    assert_eq!((stats.ai_additions, stats.human_additions), (6, 1));
    let later = rebuild(&["commit-b"]);
    assert_eq!(later.attestations, vec![file("foo.py", vec![human(5, 5, "alice"), ai(6, 6, "second")])]);
    assert_eq!(ai_line_count(&later), 1);
    assert_eq!(later.metadata.prompts, vec![prompt("second", "cursor", "commit-b")]);
}

#[test]
fn log_of_a_range_names_only_prompts_of_the_range() {
    let first = log(
        vec![file("foo.py", vec![ai(1, 3, "first"), ai(4, 6, "stray")])],
        vec![prompt("first", "cursor", "commit-a"), prompt("old", "cursor", "commit-0")],
    );
    let second = log(
        vec![file("foo.py", vec![human(5, 5, "alice"), ai(6, 6, "second")])],
        vec![prompt("second", "cursor", "commit-b"), prompt("first", "cursor", "commit-a")],
    );
    let changed = strings(&["foo.py"]);
    let hunks = parse_diff_hunks("+++ b/foo.py\n@@ -5 +5,2 @@\n").unwrap();
    let committed = vec![("foo.py".to_string(), SECOND_TEXT.to_string())];
    for commits in [vec!["commit-a", "commit-b"], vec!["commit-b"], vec!["commit-a"], vec![]] {
        let commits = strings(&commits);
        let made = create_authorship_log_for_range(
            "commit-b",
            &changed,
            VirtualAttributions::new_for_base_commit("commit-a", &changed, Some(&first), None),
            VirtualAttributions::new_for_base_commit("commit-b", &changed, Some(&second), None),
            &commits,
            &hunks,
            &committed,
        );
        for record in &made.metadata.prompts {
            assert!(commits.contains(&record.commit_sha));
        }
        for attestation in &made.attestations {
            for entry in &attestation.entries {
                if let AttributionRef::Prompt(id) = &entry.reference {
                    assert!(made.metadata.prompts.iter().any(|p| &p.id == id));
                }
            }
        }
        assert!(ai_line_count(&made) <= 7);
        let mut again = va("commit-b", made.attestations.clone(), made.metadata.prompts.clone());
        let before = again.clone();
        again.filter_to_commits(&commits);
        assert_eq!(again, before);
    }
    let both = create_authorship_log_for_range(
        "commit-b",
        &changed,
        VirtualAttributions::new_for_base_commit("commit-a", &changed, Some(&first), None),
        VirtualAttributions::new_for_base_commit("commit-b", &changed, Some(&second), None),
        &strings(&["commit-a", "commit-b"]),
        &hunks,
        &committed,
    );
    assert_eq!(
        both.attestations,
        vec![file("foo.py", vec![ai(1, 3, "first"), human(5, 5, "alice"), ai(6, 6, "second")])]
    );
    assert_eq!(ai_line_count(&both), 4);
}
