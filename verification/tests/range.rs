use git_ai::authorship_log::{
    AttributionRef, AuthorshipLog, AuthorshipMetadata, CommitAuthorship, Entry, FileAttestation,
    PromptRecord,
};
use git_ai::error::GitAiError;
use git_ai::range_authorship::{
    authorship_data, calculate_range_stats_direct, create_authorship_log_for_range, fetch_failure,
    fetch_target, plan_range_stats, stats_for_commit_stats, CommitRange, RangeAuthorshipStats,
    RangeAuthorshipStatsData, RangeStatsData, RangeStatsPlan,
};
use git_ai::range_job::{
    get_committed_files_content, range_authorship, RangeAction, RangeEvent, RangeJob, RangePhase,
};
use git_ai::report::{not_participating_text, range_report, RangeReport};
use git_ai::stats::{
    ai_line_count, get_git_diff_stats_for_range, stats_from_authorship_log, CommitStats,
};
use git_ai::virtual_attribution::VirtualAttributions;

fn strings(items: &[&str]) -> Vec<String> {
    items.iter().map(|s| s.to_string()).collect()
}

fn ai(start: u32, end: u32, id: &str) -> Entry {
    Entry { start_line: start, end_line: end, reference: AttributionRef::Prompt(id.to_string()) }
}

fn human(start: u32, end: u32, author: &str) -> Entry {
    Entry { start_line: start, end_line: end, reference: AttributionRef::Human(author.to_string()) }
}

fn log(files: Vec<FileAttestation>) -> AuthorshipLog {
    AuthorshipLog {
        attestations: files,
        metadata: AuthorshipMetadata {
            schema_version: "authorship/3.0.0".to_string(),
            git_ai_version: None,
            base_commit_sha: "b".to_string(),
            prompts: vec![PromptRecord {
                id: "p".to_string(),
                tool: "cursor".to_string(),
                model: "m".to_string(),
                timestamp: 1,
                commit_sha: "c2".to_string(),
            }],
        },
    }
}

fn ai_log() -> AuthorshipLog {
    log(vec![
        FileAttestation { file_path: "a".to_string(), entries: vec![ai(1, 4, "p"), human(5, 9, "h")] },
        FileAttestation { file_path: "b".to_string(), entries: vec![ai(10, 11, "unknown")] },
    ])
}

fn with_log(sha: &str, author: &str) -> CommitAuthorship {
    CommitAuthorship::Log {
        sha: sha.to_string(),
        git_author: author.to_string(),
        authorship_log: log(vec![]),
    }
}

fn with_ai_log(sha: &str, author: &str) -> CommitAuthorship {
    CommitAuthorship::Log {
        sha: sha.to_string(),
        git_author: author.to_string(),
        authorship_log: ai_log(),
    }
}

fn without_log(sha: &str, author: &str) -> CommitAuthorship {
    CommitAuthorship::NoLog { sha: sha.to_string(), git_author: author.to_string() }
}

fn range(start: &str, end: &str) -> CommitRange {
    CommitRange {
        start_oid: start.to_string(),
        end_oid: end.to_string(),
        refname: "refs/heads/main".to_string(),
        commits: strings(&["c1", "c2"]),
    }
}

#[test]
fn numeric_summary_is_summed() {
    assert_eq!(get_git_diff_stats_for_range(b"3\t1\ta.rs\n-\t-\timg.png\n10\t0\tdir/b c.rs\n\n"), Ok((13, 1)));
    assert_eq!(get_git_diff_stats_for_range(b""), Ok((0, 0)));
    assert_eq!(get_git_diff_stats_for_range(b"5\t-\tx\n-\t7\ty\n"), Ok((5, 7)));
    assert_eq!(get_git_diff_stats_for_range(b"garbage\n  \n\t\t\n1 2 3\n4\t5"), Ok((4, 5)));
    assert_eq!(get_git_diff_stats_for_range(b"4294967295\t4294967295\ta\n0\t0\tb\n"), Ok((u32::MAX, u32::MAX)));
}

#[test]
fn numeric_summary_that_cannot_be_summed_is_an_error() {
    assert_eq!(
        get_git_diff_stats_for_range(b"4294967295\t0\ta\n1\t0\tb\n"),
        Err(GitAiError::Generic("Line counts of the diff exceed the 32-bit range".to_string()))
    );
    assert_eq!(
        get_git_diff_stats_for_range(b"0\t4294967290\ta\n0\t6\tb\n"),
        Err(GitAiError::Generic("Line counts of the diff exceed the 32-bit range".to_string()))
    );
    assert_eq!(
        get_git_diff_stats_for_range(&[0x31, 0x09, 0x31, 0x09, 0xff]),
        Err(GitAiError::Generic(
            "Failed to parse numstat output: invalid utf-8 sequence of 1 bytes from index 4".to_string()
        ))
    );
}

#[test]
fn counts_follow_the_log_and_the_diff() {
    assert_eq!(ai_line_count(&ai_log()), 6);
    assert_eq!(
        stats_from_authorship_log(Some(&ai_log()), 10, 2),
        CommitStats {
            human_additions: 4,
            ai_additions: 6,
            total_ai_additions: 6,
            git_diff_added_lines: 10,
            git_diff_deleted_lines: 2,
        }
    );
    assert_eq!(
        stats_from_authorship_log(Some(&ai_log()), 4, 0),
        CommitStats {
            human_additions: 0,
            ai_additions: 4,
            total_ai_additions: 6,
            git_diff_added_lines: 4,
            git_diff_deleted_lines: 0,
        }
    );
    assert_eq!(
        stats_from_authorship_log(None, 8, 3),
        CommitStats {
            human_additions: 8,
            ai_additions: 0,
            total_ai_additions: 0,
            git_diff_added_lines: 8,
            git_diff_deleted_lines: 3,
        }
    );
}

#[test]
fn recorded_lines_are_capped() {
    let huge = log(vec![FileAttestation {
        file_path: "a".to_string(),
        entries: vec![ai(1, u32::MAX, "p"), ai(1, u32::MAX, "p"), ai(9, 3, "p")],
    }]);
    assert_eq!(ai_line_count(&huge), u32::MAX);
    assert_eq!(stats_from_authorship_log(Some(&huge), 5, 0).ai_additions, 5);
    let backwards = log(vec![FileAttestation { file_path: "a".to_string(), entries: vec![ai(9, 3, "p")] }]);
    assert_eq!(ai_line_count(&backwards), 0);
}

#[test]
fn commits_are_sorted_by_having_a_log() {
    let commits = vec![
        with_log("s1", "alice"),
        without_log("s2", "bob"),
        with_log("s3", "alice"),
        without_log("s4", "bob"),
        without_log("s5", "carol"),
        with_log("s6", "bob"),
    ];
    assert_eq!(
        authorship_data(&commits),
        RangeAuthorshipStatsData {
            total_commits: 6,
            commits_with_authorship: 3,
            commits_with_ai_authorship: 0,
            authors_commiting_authorship: strings(&["alice", "bob"]),
            authors_not_commiting_authorship: strings(&["bob", "carol"]),
            commits_without_authorship: strings(&["s2", "s4", "s5"]),
            commits_without_authorship_with_authors: vec![
                ("s2".to_string(), "bob".to_string()),
                ("s4".to_string(), "bob".to_string()),
                ("s5".to_string(), "carol".to_string()),
            ],
        }
    );
    assert_eq!(authorship_data(&[]).total_commits, 0);
    assert_eq!(authorship_data(&[]).commits_with_ai_authorship, 0);
    let mixed = vec![
        with_ai_log("s1", "alice"),
        with_log("s2", "bob"),
        without_log("s3", "carol"),
        with_ai_log("s4", "bob"),
    ];
    let data = authorship_data(&mixed);
    assert_eq!(data.total_commits, 4);
    assert_eq!(data.commits_with_authorship, 3);
    assert_eq!(data.commits_with_ai_authorship, 2);
}

#[test]
fn fetch_targets_follow_the_reference_name() {
    let pair = |a: &str, b: &str| (a.to_string(), b.to_string());
    assert_eq!(fetch_target("refs/remotes/origin/feature/x", "up"), pair("origin", "refs/heads/feature/x"));
    assert_eq!(fetch_target("refs/remotes/origin", "up"), pair("up", "refs/remotes/origin"));
    assert_eq!(fetch_target("refs/remotes/", "up"), pair("up", "refs/remotes/"));
    assert_eq!(fetch_target("refs/remotes//x", "up"), pair("", "refs/heads/x"));
    assert_eq!(fetch_target("refs/heads/main", "up"), pair("up", "refs/heads/main"));
    assert_eq!(fetch_target("origin/main", "up"), pair("origin", "refs/heads/main"));
    assert_eq!(fetch_target("fork/feature/y", "up"), pair("fork", "refs/heads/feature/y"));
    assert_eq!(fetch_target("main", "up"), pair("up", "refs/heads/main"));
    assert_eq!(fetch_target("refs/tags/v1", "up"), pair("up", "refs/heads/refs/tags/v1"));
    assert_eq!(fetch_target("", "up"), pair("up", "refs/heads/"));
    assert_eq!(
        fetch_failure("refs/heads/main", "origin", "fatal: no"),
        GitAiError::Generic("Failed to fetch refs/heads/main from origin: fatal: no".to_string())
    );
}

#[test]
fn unchanged_range_has_an_empty_log() {
    let start = VirtualAttributions::new_for_base_commit("c1", &[], Some(&ai_log()), None);
    let end = VirtualAttributions::new_for_base_commit("c2", &[], Some(&ai_log()), None);
    let made = create_authorship_log_for_range(
        "c2",
        &[],
        start,
        end,
        &strings(&["c2"]),
        &[],
        &vec![("a".to_string(), "x\n".to_string())],
    );
    assert_eq!(made.attestations, vec![]);
    assert_eq!(made.metadata.base_commit_sha, "c2");
    assert_eq!(made.metadata.prompts, vec![]);
    assert_eq!(made.metadata.schema_version, "authorship/3.0.0");
}

#[test]
fn single_commit_range_has_the_counts_of_the_commit() {
    let numstat = b"7\t2\ta\n1\t1\tb\n".to_vec();
    for stored in [Some(ai_log()), None] {
        let direct = stats_for_commit_stats(stored.as_ref(), &numstat);
        let ranged = calculate_range_stats_direct(
            &range("c2", "c2"),
            RangeStatsData::SingleCommit { log: stored.clone(), numstat: numstat.clone() },
        );
        assert_eq!(ranged, direct);
    }
    assert_eq!(
        stats_for_commit_stats(Some(&ai_log()), &numstat),
        Ok(CommitStats {
            human_additions: 2,
            ai_additions: 6,
            total_ai_additions: 6,
            git_diff_added_lines: 8,
            git_diff_deleted_lines: 3,
        })
    );
    assert_eq!(plan_range_stats(&range("c2", "c2")), RangeStatsPlan::SingleCommit("c2".to_string()));
    assert_eq!(
        plan_range_stats(&range("c1", "c2")),
        RangeStatsPlan::Reconstruct { start: "c1".to_string(), end: "c2".to_string() }
    );
}

fn reconstruct_data(numstat: &[u8]) -> RangeStatsData {
    let changed = strings(&["a"]);
    RangeStatsData::Reconstruct {
        numstat: numstat.to_vec(),
        changed_files: changed.clone(),
        start_va: VirtualAttributions::new_for_base_commit("c1", &changed, None, None),
        end_va: VirtualAttributions::new_for_base_commit("c2", &changed, Some(&ai_log()), None),
        hunks: vec![],
        committed_files: vec![("a".to_string(), "1\n2\n3\n4\n5\n6\n".to_string())],
    }
}

#[test]
fn range_counts_come_from_the_rebuilt_log() {
    assert_eq!(
        calculate_range_stats_direct(&range("c1", "c2"), reconstruct_data(b"6\t1\ta\n")),
        Ok(CommitStats {
            human_additions: 2,
            ai_additions: 4,
            total_ai_additions: 4,
            git_diff_added_lines: 6,
            git_diff_deleted_lines: 1,
        })
    );
    assert_eq!(
        calculate_range_stats_direct(&range("c1", "c2"), reconstruct_data(b"2\t0\ta\n")),
        Ok(CommitStats {
            human_additions: 0,
            ai_additions: 2,
            total_ai_additions: 4,
            git_diff_added_lines: 2,
            git_diff_deleted_lines: 0,
        })
    );
    assert!(calculate_range_stats_direct(&range("c1", "c2"), reconstruct_data(&[0xff])).is_err());
}

#[test]
fn data_of_the_wrong_kind_is_an_error() {
    let wrong = GitAiError::Generic("The data read does not belong to this range".to_string());
    assert_eq!(
        calculate_range_stats_direct(&range("c2", "c2"), reconstruct_data(b"")),
        Err(wrong.clone())
    );
    assert_eq!(
        calculate_range_stats_direct(
            &range("c1", "c2"),
            RangeStatsData::SingleCommit { log: None, numstat: vec![] }
        ),
        Err(wrong)
    );
}

fn stats_with(ai: u32, total: u32, commits: &[CommitAuthorship]) -> RangeAuthorshipStats {
    RangeAuthorshipStats {
        authorship_stats: authorship_data(commits),
        range_stats: CommitStats {
            human_additions: 5,
            ai_additions: ai,
            total_ai_additions: total,
            git_diff_added_lines: 5 + ai,
            git_diff_deleted_lines: 0,
        },
    }
}

#[test]
fn range_without_ai_is_not_participating() {
    let commits = vec![with_log("s1", "alice"), without_log("s2", "bob")];
    assert_eq!(range_report(&stats_with(0, 0, &commits)), RangeReport::NotParticipating);
    assert_eq!(range_report(&stats_with(0, 0, &[])), RangeReport::NotParticipating);
    assert_eq!(not_participating_text(), "Committers are not using git-ai");
    let human_only = log(vec![FileAttestation { file_path: "a".to_string(), entries: vec![human(1, 9, "h")] }]);
    let stats = RangeAuthorshipStats {
        authorship_stats: authorship_data(&commits),
        range_stats: stats_from_authorship_log(Some(&human_only), 9, 1),
    };
    assert_eq!(range_report(&stats), RangeReport::NotParticipating);
}

#[test]
fn range_whose_commit_has_ai_lines_shows_the_counts() {
    let commits = vec![without_log("2222222bbbb", "bob"), with_ai_log("s1", "alice")];
    let stats = stats_with(0, 0, &commits);
    assert_eq!(stats.authorship_stats.commits_with_ai_authorship, 1);
    assert_eq!(
        range_report(&stats),
        RangeReport::Stats {
            range_stats: stats.range_stats,
            breakdown: strings(&["  1 commit without Authorship Logs", "    2222222 bob"]),
        }
    );
    let only = vec![with_ai_log("s1", "alice")];
    let stats = stats_with(0, 0, &only);
    assert_eq!(range_report(&stats), RangeReport::Stats { range_stats: stats.range_stats, breakdown: vec![] });
}

#[test]
fn report_of_counts_that_do_not_agree() {
    let mut stats = stats_with(0, 0, &[with_log("s1", "alice")]);
    stats.authorship_stats.total_commits = 0;
    assert_eq!(range_report(&stats), RangeReport::NotParticipating);
    let mut stats = stats_with(2, 2, &[with_log("s1", "alice"), with_log("s2", "bob")]);
    stats.authorship_stats.total_commits = 1;
    assert_eq!(
        range_report(&stats),
        RangeReport::Stats {
            range_stats: stats.range_stats,
            breakdown: strings(&["  0 commits without Authorship Logs"]),
        }
    );
}

#[test]
fn range_with_ai_shows_counts_and_commits_without_log() {
    let commits = vec![
        with_log("1111111aaaa", "alice"),
        without_log("2222222bbbbbbbb", "bob"),
        without_log("333", "carol d"),
    ];
    let stats = stats_with(3, 3, &commits);
    assert_eq!(
        range_report(&stats),
        RangeReport::Stats {
            range_stats: stats.range_stats,
            breakdown: strings(&[
                "  2 commits without Authorship Logs",
                "    2222222 bob",
                "    333 carol d",
            ]),
        }
    );
    let one = stats_with(0, 1, &commits[..2]);
    assert_eq!(
        range_report(&one),
        RangeReport::Stats {
            range_stats: one.range_stats,
            breakdown: strings(&["  1 commit without Authorship Logs", "    2222222 bob"]),
        }
    );
    let all = stats_with(1, 1, &commits[..1]);
    assert_eq!(range_report(&all), RangeReport::Stats { range_stats: all.range_stats, breakdown: vec![] });
}

#[test]
fn committed_text_is_what_could_be_read() {
    let files = vec![
        ("a.txt".to_string(), Some(b"hi\nthere\n".to_vec())),
        ("gone.txt".to_string(), None),
        ("bin".to_string(), Some(vec![0x66, 0xff, 0x6f])),
        ("empty".to_string(), Some(vec![])),
        ("utf".to_string(), Some("grüße".as_bytes().to_vec())),
    ];
    assert_eq!(
        get_committed_files_content(&files),
        vec![
            ("a.txt".to_string(), "hi\nthere\n".to_string()),
            ("bin".to_string(), "f\u{fffd}o".to_string()),
            ("empty".to_string(), String::new()),
            ("utf".to_string(), "grüße".to_string()),
        ]
    );
    assert_eq!(get_committed_files_content(&[]), vec![]);
}

#[test]
fn committed_text_holds_every_path_once() {
    let files = vec![
        ("a".to_string(), Some(b"first".to_vec())),
        ("b".to_string(), Some(b"other".to_vec())),
        ("c".to_string(), None),
        ("a".to_string(), Some(b"second".to_vec())),
        ("a".to_string(), None),
        ("c".to_string(), Some(b"late".to_vec())),
    ];
    assert_eq!(
        get_committed_files_content(&files),
        vec![
            ("a".to_string(), "second".to_string()),
            ("b".to_string(), "other".to_string()),
            ("c".to_string(), "late".to_string()),
        ]
    );
}

fn sample_stats() -> CommitStats {
    CommitStats {
        human_additions: 1,
        ai_additions: 2,
        total_ai_additions: 2,
        git_diff_added_lines: 3,
        git_diff_deleted_lines: 4,
    }
}

#[test]
fn range_job_without_fetch() {
    let mut job = RangeJob::new(range("c0", "c2"), false);
    assert_eq!(range_authorship(&mut job, RangeEvent::Begin), RangeAction::Validate);
    assert_eq!(
        range_authorship(&mut job, RangeEvent::Validated(Ok(()))),
        RangeAction::LoadAuthorship(strings(&["c1", "c2"]))
    );
    let commits = vec![with_log("c1", "alice"), without_log("c2", "bob")];
    assert_eq!(
        range_authorship(&mut job, RangeEvent::Authorship(Ok(commits.clone()))),
        RangeAction::ComputeStats
    );
    assert_eq!(
        range_authorship(&mut job, RangeEvent::Stats(Ok(sample_stats()))),
        RangeAction::Finish(RangeAuthorshipStats {
            authorship_stats: authorship_data(&commits),
            range_stats: sample_stats(),
        })
    );
    assert_eq!(job.phase, RangePhase::Finished);
}

#[test]
fn range_job_with_fetch() {
    let mut job = RangeJob::new(
        CommitRange { refname: "refs/remotes/fork/topic".to_string(), ..range("c0", "c2") },
        true,
    );
    assert_eq!(range_authorship(&mut job, RangeEvent::Begin), RangeAction::Validate);
    assert_eq!(range_authorship(&mut job, RangeEvent::Validated(Ok(()))), RangeAction::FindDefaultRemote);
    assert_eq!(
        range_authorship(&mut job, RangeEvent::DefaultRemote(Ok(Some("up".to_string())))),
        RangeAction::Fetch { remote: "fork".to_string(), refspec: "refs/heads/topic".to_string() }
    );
    assert_eq!(
        range_authorship(&mut job, RangeEvent::Fetched(Ok((true, b"noise".to_vec())))),
        RangeAction::LoadAuthorship(strings(&["c1", "c2"]))
    );
}

#[test]
fn range_job_falls_back_to_origin() {
    let mut job = RangeJob::new(CommitRange { refname: "topic".to_string(), ..range("c0", "c2") }, true);
    range_authorship(&mut job, RangeEvent::Begin);
    range_authorship(&mut job, RangeEvent::Validated(Ok(())));
    assert_eq!(
        range_authorship(&mut job, RangeEvent::DefaultRemote(Ok(None))),
        RangeAction::Fetch { remote: "origin".to_string(), refspec: "refs/heads/topic".to_string() }
    );
    assert_eq!(
        range_authorship(&mut job, RangeEvent::Fetched(Ok((false, vec![0x66, 0x61, 0xff, 0x6c])))),
        RangeAction::Fail(GitAiError::Generic(
            "Failed to fetch refs/heads/topic from origin: fa\u{fffd}l".to_string()
        ))
    );
    assert_eq!(job.phase, RangePhase::Finished);
}

#[test]
fn range_job_stops_at_the_first_error() {
    let invalid = GitAiError::InvalidRange("not an ancestor".to_string());
    let mut job = RangeJob::new(range("c0", "c2"), true);
    range_authorship(&mut job, RangeEvent::Begin);
    assert_eq!(
        range_authorship(&mut job, RangeEvent::Validated(Err(invalid.clone()))),
        RangeAction::Fail(invalid)
    );
    assert_eq!(
        range_authorship(&mut job, RangeEvent::Validated(Ok(()))),
        RangeAction::Fail(GitAiError::Generic("Unexpected event for the current step".to_string()))
    );
    let store = GitAiError::BackingStoreFailure("disk".to_string());
    let mut job = RangeJob::new(range("c0", "c2"), false);
    range_authorship(&mut job, RangeEvent::Begin);
    range_authorship(&mut job, RangeEvent::Validated(Ok(())));
    assert_eq!(
        range_authorship(&mut job, RangeEvent::Authorship(Err(store.clone()))),
        RangeAction::Fail(store.clone())
    );
    let mut job = RangeJob::new(range("c0", "c2"), false);
    assert_eq!(
        range_authorship(&mut job, RangeEvent::Stats(Ok(sample_stats()))),
        RangeAction::Fail(GitAiError::Generic("Unexpected event for the current step".to_string()))
    );
    let mut job = RangeJob::new(range("c0", "c2"), false);
    range_authorship(&mut job, RangeEvent::Begin);
    range_authorship(&mut job, RangeEvent::Validated(Ok(())));
    range_authorship(&mut job, RangeEvent::Authorship(Ok(vec![])));
    assert_eq!(range_authorship(&mut job, RangeEvent::Stats(Err(store.clone()))), RangeAction::Fail(store));
}
