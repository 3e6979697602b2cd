use git_ai::annotate::LineType;
use git_ai::authorship_log::{
    AttributionRef, AuthorshipLog, AuthorshipMetadata, Entry, FileAttestation, PromptCache,
    PromptRecord,
};
use git_ai::commands::{
    annotated_diff_args, diff_hunks_args, execute_diff, fetch_args, foreign_prompt_ids,
    numstat_args, parent_revision, resolve_commit, resolve_parent, rev_parse_args, with_arguments,
    DiffAction, DiffEvent, DiffJob, DiffPhase,
};
use git_ai::diff::{Attribution, DiffHunk, DiffSpec};
use git_ai::error::{not_text, GitAiError};
use git_ai::installers::{get_all_installers, HookInstaller};

const EMPTY_TREE: &str = "4b825dc642cb6eb9a060e54bf8d69288fbee4904";

fn strings(items: &[&str]) -> Vec<String> {
    items.iter().map(|s| s.to_string()).collect()
}

fn unexpected() -> DiffAction {
    DiffAction::Fail(GitAiError::Generic("Unexpected event for the current step".to_string()))
}

fn prompt(id: &str, tool: &str) -> PromptRecord {
    PromptRecord {
        id: id.to_string(),
        tool: tool.to_string(),
        model: "m".to_string(),
        timestamp: 3,
        commit_sha: "c".to_string(),
    }
}

fn log(path: &str, entries: Vec<Entry>, prompts: Vec<PromptRecord>) -> AuthorshipLog {
    AuthorshipLog {
        attestations: vec![FileAttestation { file_path: path.to_string(), entries }],
        metadata: AuthorshipMetadata {
            schema_version: "authorship/3.0.0".to_string(),
            git_ai_version: None,
            base_commit_sha: String::new(),
            prompts,
        },
    }
}

fn ai(start: u32, end: u32, id: &str) -> Entry {
    Entry { start_line: start, end_line: end, reference: AttributionRef::Prompt(id.to_string()) }
}

fn human(start: u32, end: u32, author: &str) -> Entry {
    Entry { start_line: start, end_line: end, reference: AttributionRef::Human(author.to_string()) }
}

#[test]
fn command_lines_are_built() {
    let global = strings(&["-C", "/repo"]);
    assert_eq!(rev_parse_args(&global, "HEAD~1"), strings(&["-C", "/repo", "rev-parse", "HEAD~1"]));
    assert_eq!(
        diff_hunks_args(&global, "a1", "b2"),
        strings(&["-C", "/repo", "diff", "-U0", "--no-color", "a1", "b2"])
    );
    assert_eq!(
        annotated_diff_args(&global, "a1", "b2"),
        strings(&["-C", "/repo", "diff", "--no-color", "a1", "b2"])
    );
    assert_eq!(numstat_args(&[], "a1", "b2"), strings(&["diff", "--numstat", "a1..b2"]));
    assert_eq!(
        fetch_args(&global, "origin", "refs/heads/main"),
        strings(&["-C", "/repo", "fetch", "origin", "refs/heads/main"])
    );
    assert_eq!(with_arguments(&global, vec![]), global);
    assert_eq!(parent_revision("abc"), "abc^");
}

#[test]
fn commit_is_what_rev_parse_wrote() {
    assert_eq!(resolve_commit("HEAD", b"abc123\n"), Ok("abc123".to_string()));
    assert_eq!(resolve_commit("HEAD", b"  \tabc 123 \r\n"), Ok("abc 123".to_string()));
    assert_eq!(
        resolve_commit("nope", b"\n"),
        Err(GitAiError::UnresolvedCommit("Could not resolve commit: nope".to_string()))
    );
    assert_eq!(
        resolve_commit("nope", b""),
        Err(GitAiError::UnresolvedCommit("Could not resolve commit: nope".to_string()))
    );
    assert_eq!(
        resolve_commit("HEAD", &[0x61, 0xff]),
        Err(GitAiError::Generic(
            "Failed to parse rev-parse output: invalid utf-8 sequence of 1 bytes from index 1".to_string()
        ))
    );
    let cut = vec![0x61, 0x62, 0xe2, 0x82];
    assert_eq!(
        resolve_commit("HEAD", &cut),
        Err(GitAiError::Generic(format!(
            "Failed to parse rev-parse output: {}",
            String::from_utf8(cut.clone()).unwrap_err()
        )))
    );
    assert_eq!(
        resolve_commit("HEAD", &cut),
        Err(GitAiError::Generic(
            "Failed to parse rev-parse output: incomplete utf-8 byte sequence from index 2".to_string()
        ))
    );
}

#[test]
fn error_for_what_is_no_text() {
    assert_eq!(
        not_text("diff output", "it broke"),
        GitAiError::Generic("Failed to parse diff output: it broke".to_string())
    );
    assert_eq!(not_text("", ""), GitAiError::Generic("Failed to parse : ".to_string()));
}

#[test]
fn commit_without_parent_is_shown_against_the_empty_tree() {
    let failed = Err(GitAiError::BackingStoreFailure("unknown revision".to_string()));
    assert_eq!(resolve_parent(&failed), Ok(EMPTY_TREE.to_string()));
    assert_eq!(resolve_parent(&Ok(vec![])), Ok(EMPTY_TREE.to_string()));
    assert_eq!(resolve_parent(&Ok(b" \n".to_vec())), Ok(EMPTY_TREE.to_string()));
    assert_eq!(resolve_parent(&Ok(b"feed42\n".to_vec())), Ok("feed42".to_string()));
    assert_eq!(
        resolve_parent(&Ok(vec![0xff])),
        Err(GitAiError::Generic(
            "Failed to parse parent SHA: invalid utf-8 sequence of 1 bytes from index 0".to_string()
        ))
    );
}

#[test]
fn foreign_prompts_are_listed_once() {
    let old = log("a", vec![ai(1, 1, "far"), ai(2, 2, "own"), human(3, 3, "h")], vec![prompt("own", "t")]);
    let new = log("a", vec![ai(1, 1, "own"), ai(2, 2, "far"), ai(3, 3, "away")], vec![]);
    let hunks = vec![
        DiffHunk {
            file_path: "a".to_string(),
            old_start: 1,
            old_count: 3,
            new_start: 1,
            new_count: 2,
            deleted_lines: vec![1, 2, 3],
            added_lines: vec![1, 2],
        },
        DiffHunk {
            file_path: "other".to_string(),
            old_start: 3,
            old_count: 1,
            new_start: 3,
            new_count: 1,
            deleted_lines: vec![3],
            added_lines: vec![3],
        },
    ];
    assert_eq!(foreign_prompt_ids(&hunks, Some(&old), Some(&new)), strings(&["far", "own"]));
    assert_eq!(foreign_prompt_ids(&hunks, Some(&old), None), strings(&["far"]));
    assert_eq!(foreign_prompt_ids(&hunks, None, Some(&new)), strings(&["own", "far"]));
    assert_eq!(foreign_prompt_ids(&hunks[1..], Some(&old), Some(&new)), Vec::<String>::new());
    assert_eq!(foreign_prompt_ids(&[], Some(&old), Some(&new)), Vec::<String>::new());
    assert_eq!(foreign_prompt_ids(&hunks, None, None), Vec::<String>::new());
}

const HUNKS: &[u8] = b"+++ b/foo.py\n@@ -5 +5,2 @@\n-old\n+new1\n+new2\n";
const FULL: &[u8] = b"diff --git a/foo.py b/foo.py\n+++ b/foo.py\n@@ -5 +5,2 @@\n-old\n+new1\n+new2\n";

#[test]
fn annotated_diff_of_a_range() {
    let mut job = DiffJob::new();
    let begin = DiffEvent::Begin(DiffSpec::TwoCommit("main".to_string(), "topic".to_string()));
    assert_eq!(execute_diff(&mut job, begin), DiffAction::RevParse("main".to_string()));
    assert_eq!(
        execute_diff(&mut job, DiffEvent::Output(Ok(b"aaa\n".to_vec()))),
        DiffAction::RevParse("topic".to_string())
    );
    assert_eq!(
        execute_diff(&mut job, DiffEvent::Output(Ok(b"bbb\n".to_vec()))),
        DiffAction::DiffHunks { from: "aaa".to_string(), to: "bbb".to_string() }
    );
    assert_eq!(
        execute_diff(&mut job, DiffEvent::Output(Ok(HUNKS.to_vec()))),
        DiffAction::LoadLog("aaa".to_string())
    );
    let old = log("foo.py", vec![human(5, 5, "alice")], vec![]);
    assert_eq!(execute_diff(&mut job, DiffEvent::Log(Some(old))), DiffAction::LoadLog("bbb".to_string()));
    let new = log("foo.py", vec![ai(5, 5, "own"), ai(6, 6, "far")], vec![prompt("own", "cursor")]);
    assert_eq!(
        execute_diff(&mut job, DiffEvent::Log(Some(new))),
        DiffAction::ResolvePrompts(strings(&["far"]))
    );
    let mut cache = PromptCache::new();
    cache.insert("far".to_string(), Some(prompt("far", "gemini")));
    assert_eq!(
        execute_diff(&mut job, DiffEvent::Prompts(cache)),
        DiffAction::FullDiff { from: "aaa".to_string(), to: "bbb".to_string() }
    );
    let shown = match execute_diff(&mut job, DiffEvent::Output(Ok(FULL.to_vec()))) {
        DiffAction::Show(lines) => lines,
        other => panic!("{:?}", other),
    };
    assert_eq!(job.phase, DiffPhase::Finished);
    let summary: Vec<(String, LineType, Option<Attribution>)> =
        shown.into_iter().map(|l| (l.text, l.line_type, l.attribution)).collect();
    assert_eq!(
        summary,
        vec![
            ("diff --git a/foo.py b/foo.py".to_string(), LineType::DiffHeader, None),
            ("+++ b/foo.py".to_string(), LineType::DiffHeader, None),
            ("@@ -5 +5,2 @@".to_string(), LineType::HunkHeader, None),
            ("-old".to_string(), LineType::Deletion, Some(Attribution::Human("alice".to_string()))),
            ("+new1".to_string(), LineType::Addition, Some(Attribution::Ai("cursor".to_string()))),
            ("+new2".to_string(), LineType::Addition, Some(Attribution::Ai("gemini".to_string()))),
        ]
    );
    assert_eq!(execute_diff(&mut job, DiffEvent::Log(None)), unexpected());
}

#[test]
fn annotated_diff_of_the_first_commit() {
    let mut job = DiffJob::new();
    let begin = DiffEvent::Begin(DiffSpec::SingleCommit("HEAD".to_string()));
    assert_eq!(execute_diff(&mut job, begin), DiffAction::RevParse("HEAD".to_string()));
    assert_eq!(
        execute_diff(&mut job, DiffEvent::Output(Ok(b"root1\n".to_vec()))),
        DiffAction::RevParse("root1^".to_string())
    );
    let no_parent = Err(GitAiError::BackingStoreFailure("bad revision".to_string()));
    assert_eq!(
        execute_diff(&mut job, DiffEvent::Output(no_parent)),
        DiffAction::DiffHunks { from: EMPTY_TREE.to_string(), to: "root1".to_string() }
    );
    let additions = b"+++ b/new.txt\n@@ -0,0 +1,2 @@\n+a\n+b\n".to_vec();
    assert_eq!(
        execute_diff(&mut job, DiffEvent::Output(Ok(additions))),
        DiffAction::LoadLog("root1".to_string())
    );
    assert_eq!(
        execute_diff(&mut job, DiffEvent::Log(None)),
        DiffAction::FullDiff { from: EMPTY_TREE.to_string(), to: "root1".to_string() }
    );
    match execute_diff(&mut job, DiffEvent::Output(Ok(b"+++ b/new.txt\n@@ -0,0 +1,2 @@\n+a\n+b\n".to_vec()))) {
        DiffAction::Show(lines) => {
            assert_eq!(lines.len(), 4);
            assert_eq!(lines[2].attribution, Some(Attribution::NoData));
            assert_eq!(lines[3].attribution, Some(Attribution::NoData));
        }
        other => panic!("{:?}", other),
    }
}

#[test]
fn annotated_diff_with_a_parent_and_without_hunks() {
    let mut job = DiffJob::new();
    execute_diff(&mut job, DiffEvent::Begin(DiffSpec::SingleCommit("HEAD".to_string())));
    execute_diff(&mut job, DiffEvent::Output(Ok(b"child\n".to_vec())));
    assert_eq!(
        execute_diff(&mut job, DiffEvent::Output(Ok(b"parent\n".to_vec()))),
        DiffAction::DiffHunks { from: "parent".to_string(), to: "child".to_string() }
    );
    assert_eq!(
        execute_diff(&mut job, DiffEvent::Output(Ok(vec![]))),
        DiffAction::FullDiff { from: "parent".to_string(), to: "child".to_string() }
    );
    assert_eq!(execute_diff(&mut job, DiffEvent::Output(Ok(vec![]))), DiffAction::Show(vec![]));
}

#[test]
fn annotated_diff_fails_on_the_first_error() {
    let broken = GitAiError::BackingStoreFailure("git exited with 128".to_string());
    let mut job = DiffJob::new();
    execute_diff(&mut job, DiffEvent::Begin(DiffSpec::TwoCommit("a".to_string(), "b".to_string())));
    assert_eq!(execute_diff(&mut job, DiffEvent::Output(Err(broken.clone()))), DiffAction::Fail(broken.clone()));
    assert_eq!(job.phase, DiffPhase::Finished);

    let mut job = DiffJob::new();
    execute_diff(&mut job, DiffEvent::Begin(DiffSpec::TwoCommit("a".to_string(), "b".to_string())));
    execute_diff(&mut job, DiffEvent::Output(Ok(b"aaa".to_vec())));
    assert_eq!(
        execute_diff(&mut job, DiffEvent::Output(Ok(b"\n".to_vec()))),
        DiffAction::Fail(GitAiError::UnresolvedCommit("Could not resolve commit: b".to_string()))
    );

    let mut job = DiffJob::new();
    execute_diff(&mut job, DiffEvent::Begin(DiffSpec::SingleCommit("c".to_string())));
    execute_diff(&mut job, DiffEvent::Output(Ok(b"ccc".to_vec())));
    execute_diff(&mut job, DiffEvent::Output(Ok(b"ppp".to_vec())));
    assert_eq!(execute_diff(&mut job, DiffEvent::Output(Err(broken.clone()))), DiffAction::Fail(broken.clone()));

    let mut job = DiffJob::new();
    execute_diff(&mut job, DiffEvent::Begin(DiffSpec::SingleCommit("c".to_string())));
    execute_diff(&mut job, DiffEvent::Output(Ok(b"ccc".to_vec())));
    execute_diff(&mut job, DiffEvent::Output(Ok(b"ppp".to_vec())));
    execute_diff(&mut job, DiffEvent::Output(Ok(vec![])));
    assert_eq!(
        execute_diff(&mut job, DiffEvent::Output(Ok(vec![0xff]))),
        DiffAction::Fail(GitAiError::Generic(
            "Failed to parse diff output: invalid utf-8 sequence of 1 bytes from index 0".to_string()
        ))
    );

    let mut job = DiffJob::new();
    assert_eq!(execute_diff(&mut job, DiffEvent::Log(None)), unexpected());
}

#[test]
fn installers_are_a_closed_set() {
    assert_eq!(
        get_all_installers(),
        vec![
            HookInstaller::ClaudeCode,
            HookInstaller::Cursor,
            HookInstaller::VSCode,
            HookInstaller::OpenCode,
            HookInstaller::Gemini,
        ]
    );
}
