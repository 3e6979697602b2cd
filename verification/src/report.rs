//! What is reported of a range: that its committers do not take part, or its
//! counts, with the commits that lack a log where some do.

use crate::authorship_log::{
    lookup_in_entries, lookup_in_files, AttributionRefView, AuthorshipLogView,
    CommitAuthorshipView, EntryView, FileAttestationView,
};
use crate::carry::{carried_references, lines_of_file, origin_line};
use crate::diff::DiffHunkView;
use crate::range_authorship::{
    authorship_data_spec, count_with_ai, create_authorship_log_for_range_spec,
    lemma_count_with_ai_zero, lemma_count_with_log_bound, shows_ai, RangeAuthorshipStats, RangeAuthorshipStatsDataView,
    RangeAuthorshipStatsView,
};
use crate::sequences::{
    lemma_deep_view_empty, lemma_deep_view_push, lemma_take_all, lemma_take_next,
};
use crate::serialization::{decimal, push_decimal, push_text};
use crate::stats::{entries_ai_lines, files_ai_lines, stats_from_authorship_log_spec, CommitStats};
use crate::text::{string_of, string_of_range, to_chars};
use crate::virtual_attribution::{
    attested_files, carried_forward_spec, filter_to_commits_spec,
    lemma_filter_to_commits_removes_only, line_count, merge_attributions_favoring_first_spec,
    merged_references, runs, VirtualAttributionsView,
};
use vstd::prelude::*;
use vstd::string::*;

verus! {

// ---------------------------------------------------------------------------
// The report
// ---------------------------------------------------------------------------
/// What is shown of a range.
#[derive(Debug, Clone, PartialEq, Eq)]
pub enum RangeReport {
    /// No line of the range is attributed to AI: the committers do not use
    /// the tool, and no table of zeros is shown.
    NotParticipating,
    /// The counts, followed by the lines of `breakdown`, which name the
    /// commits without a log where not every commit has one.
    Stats { range_stats: CommitStats, breakdown: Vec<String> },
}

/// The mathematical value of a [`RangeReport`].
pub enum RangeReportView {
    NotParticipating,
    Stats { range_stats: CommitStats, breakdown: Seq<Seq<char>> },
}

impl View for RangeReport {
    type V = RangeReportView;

    open spec fn view(&self) -> RangeReportView {
        match self {
            RangeReport::NotParticipating => RangeReportView::NotParticipating,
            RangeReport::Stats { range_stats, breakdown } => RangeReportView::Stats {
                range_stats: *range_stats,
                breakdown: breakdown.deep_view(),
            },
        }
    }
}

/// What is said in place of counts where no one takes part.
pub open spec fn not_participating_message() -> Seq<char> {
    "Committers are not using git-ai"@
}

/// What is said in place of counts where no one takes part.
pub fn not_participating_text() -> (s: String)
    ensures
        s@ == not_participating_message(),
{
    "Committers are not using git-ai".to_owned()
}

/// Whether the counts show any line of AI.
pub open spec fn has_ai_authorship(stats: CommitStats) -> bool {
    stats.ai_additions > 0 || stats.total_ai_additions > 0
}

/// The short form of a commit identifier: its first seven characters.
pub open spec fn short_id(sha: Seq<char>) -> Seq<char> {
    if sha.len() >= 7 {
        sha.take(7)
    } else {
        sha
    }
}

/// The line that says how many commits lack a log.
pub open spec fn breakdown_header(missing: nat) -> Seq<char> {
    "  "@ + decimal(missing) + " "@ + (if missing == 1 {
        "commit"@
    } else {
        "commits"@
    }) + " without Authorship Logs"@
}

/// The line of one commit without a log: its short identifier and its
/// author.
pub open spec fn breakdown_line(commit: (Seq<char>, Seq<char>)) -> Seq<char> {
    "    "@ + short_id(commit.0) + " "@ + commit.1
}

/// The number of commits that lack a log: the commits that do not carry one,
/// and none where more are said to carry one than there are.
pub open spec fn missing_logs(data: RangeAuthorshipStatsDataView) -> nat {
    if data.commits_with_authorship <= data.total_commits {
        (data.total_commits - data.commits_with_authorship) as nat
    } else {
        0
    }
}

/// The lines that name the commits without a log: none where every commit
/// has one.
pub open spec fn breakdown_spec(data: RangeAuthorshipStatsDataView) -> Seq<Seq<char>> {
    if data.commits_with_authorship == data.total_commits {
        Seq::empty()
    } else {
        seq![breakdown_header(missing_logs(data))]
            + data.commits_without_authorship_with_authors.map_values(
            |c: (Seq<char>, Seq<char>)| breakdown_line(c),
        )
    }
}

/// Whether no one takes part: the counts of the range show no line of AI,
/// and no commit's own log shows one either.
pub open spec fn not_participating(stats: RangeAuthorshipStatsView) -> bool {
    !has_ai_authorship(stats.range_stats) && stats.authorship_stats.commits_with_ai_authorship
        == 0
}

/// What is shown of a range: that no one takes part where neither the counts
/// of the range nor any commit's own log show a line of AI, the counts with
/// the breakdown otherwise.
pub open spec fn range_report_spec(stats: RangeAuthorshipStatsView) -> RangeReportView {
    if not_participating(stats) {
        RangeReportView::NotParticipating
    } else {
        RangeReportView::Stats {
            range_stats: stats.range_stats,
            breakdown: breakdown_spec(stats.authorship_stats),
        }
    }
}

fn header_line(missing: usize) -> (s: String)
    ensures
        s@ == breakdown_header(missing as nat),
{
    let mut out: Vec<char> = Vec::new();
    push_text(&mut out, "  ");
    push_decimal(&mut out, missing as u64);
    push_text(&mut out, " ");
    if missing == 1 {
        push_text(&mut out, "commit");
    } else {
        push_text(&mut out, "commits");
    }
    push_text(&mut out, " without Authorship Logs");
    assert(out@ =~= breakdown_header(missing as nat));
    string_of(&out)
}

fn commit_line(sha: &String, author: &String) -> (s: String)
    ensures
        s@ == breakdown_line((sha@, author@)),
{
    let chars = to_chars(sha.as_str());
    let short = if chars.len() >= 7 {
        assert(chars@.subrange(0, 7) =~= chars@.take(7));
        string_of_range(&chars, 0, 7)
    } else {
        sha.clone()
    };
    "    ".to_owned().concat(short.as_str()).concat(" ").concat(author.as_str())
}

/// Decides what is shown of a range.
pub fn range_report(stats: &RangeAuthorshipStats) -> (r: RangeReport)
    ensures
        r@ == range_report_spec(stats@),
{
    let has_ai = stats.range_stats.ai_additions > 0 || stats.range_stats.total_ai_additions > 0;
    if !has_ai && stats.authorship_stats.commits_with_ai_authorship == 0 {
        return RangeReport::NotParticipating;
    }
    let data = &stats.authorship_stats;
    let mut breakdown: Vec<String> = Vec::new();
    proof {
        lemma_deep_view_empty(breakdown);
    }
    if data.commits_with_authorship != data.total_commits {
        let missing = if data.commits_with_authorship <= data.total_commits {
            data.total_commits - data.commits_with_authorship
        } else {
            0
        };
        let ghost commits = data.commits_without_authorship_with_authors.deep_view();
        let ghost head = seq![breakdown_header(missing as nat)];
        let first = header_line(missing);
        let ghost before = breakdown;
        breakdown.push(first);
        proof {
            lemma_deep_view_push(before, breakdown, first);
            assert(breakdown.deep_view() =~= head + commits.take(0).map_values(
                |c: (Seq<char>, Seq<char>)| breakdown_line(c),
            ));
        }
        let mut i: usize = 0;
        while i < data.commits_without_authorship_with_authors.len()
            invariant
                0 <= i <= data.commits_without_authorship_with_authors.len(),
                commits == data.commits_without_authorship_with_authors.deep_view(),
                head == seq![breakdown_header(missing as nat)],
                breakdown.deep_view() == head + commits.take(i as int).map_values(
                    |c: (Seq<char>, Seq<char>)| breakdown_line(c),
                ),
            decreases data.commits_without_authorship_with_authors.len() - i,
        {
            let pair = &data.commits_without_authorship_with_authors[i];
            let line = commit_line(&pair.0, &pair.1);
            let ghost before = breakdown;
            breakdown.push(line);
            proof {
                lemma_deep_view_push(before, breakdown, line);
                lemma_take_next(commits, i as int);
                assert(breakdown.deep_view() =~= head + commits.take(i + 1).map_values(
                    |c: (Seq<char>, Seq<char>)| breakdown_line(c),
                ));
            }
            i += 1;
        }
        proof {
            lemma_take_all(commits);
        }
    }
    RangeReport::Stats { range_stats: stats.range_stats, breakdown }
}

// ---------------------------------------------------------------------------
// Laws
// ---------------------------------------------------------------------------
/// Whether no entry of the attestations is a prompt's.
pub open spec fn no_prompt_entries(files: Seq<FileAttestationView>) -> bool {
    forall|i: int, j: int|
        0 <= i < files.len() && 0 <= j < files[i].entries.len() ==> (
        #[trigger] files[i].entries[j]).reference is Human
}

/// Whether no entry is a prompt's.
pub open spec fn all_human(entries: Seq<EntryView>) -> bool {
    forall|j: int| 0 <= j < entries.len() ==> (#[trigger] entries[j]).reference is Human
}

proof fn lemma_all_human_no_ai_lines(entries: Seq<EntryView>)
    requires
        all_human(entries),
    ensures
        entries_ai_lines(entries) == 0,
    decreases entries.len(),
{
    if entries.len() > 0 {
        assert(entries[entries.len() - 1].reference is Human);
        assert forall|j: int| 0 <= j < entries.drop_last().len() implies (
        #[trigger] entries.drop_last()[j]).reference is Human by {
            assert(entries[j].reference is Human);
        }
        lemma_all_human_no_ai_lines(entries.drop_last());
    }
}

proof fn lemma_attested_no_ai_lines(files: Seq<FileAttestationView>)
    requires
        forall|i: int| 0 <= i < files.len() ==> all_human((#[trigger] files[i]).entries),
    ensures
        files_ai_lines(attested_files(files)) == 0,
    decreases files.len(),
{
    if files.len() > 0 {
        assert forall|i: int| 0 <= i < files.drop_last().len() implies all_human(
            (#[trigger] files.drop_last()[i]).entries,
        ) by {
            assert(files.drop_last()[i] == files[i]);
        }
        lemma_attested_no_ai_lines(files.drop_last());
        let rest = attested_files(files.drop_last());
        if files.last().entries.len() > 0 {
            assert(rest.push(files.last()).drop_last() =~= rest);
            assert(all_human(files[files.len() - 1].entries));
            lemma_all_human_no_ai_lines(files.last().entries);
        }
    }
}

proof fn lemma_lookup_in_entries_human(entries: Seq<EntryView>, line: u32)
    requires
        all_human(entries),
    ensures
        lookup_in_entries(entries, line) matches Some(r) ==> r is Human,
    decreases entries.len(),
{
    if entries.len() > 0 {
        assert(entries[entries.len() - 1].reference is Human);
        assert forall|j: int| 0 <= j < entries.drop_last().len() implies (
        #[trigger] entries.drop_last()[j]).reference is Human by {
            assert(entries[j].reference is Human);
        }
        lemma_lookup_in_entries_human(entries.drop_last(), line);
    }
}

proof fn lemma_lookup_in_files_human(files: Seq<FileAttestationView>, path: Seq<char>, line: u32)
    requires
        forall|i: int| 0 <= i < files.len() ==> all_human((#[trigger] files[i]).entries),
    ensures
        lookup_in_files(files, path, line) matches Some(r) ==> r is Human,
    decreases files.len(),
{
    if files.len() > 0 {
        assert forall|i: int| 0 <= i < files.drop_last().len() implies all_human(
            (#[trigger] files.drop_last()[i]).entries,
        ) by {
            assert(files.drop_last()[i] == files[i]);
        }
        lemma_lookup_in_files_human(files.drop_last(), path, line);
        assert(all_human(files[files.len() - 1].entries));
        lemma_lookup_in_entries_human(files.last().entries, line);
    }
}

proof fn lemma_runs_human(refs: Seq<Option<AttributionRefView>>)
    requires
        forall|k: int| 0 <= k < refs.len() ==> ((#[trigger] refs[k]) matches Some(r) ==> r is Human),
    ensures
        all_human(runs(refs)),
    decreases refs.len(),
{
    if refs.len() > 0 {
        assert forall|k: int| 0 <= k < refs.drop_last().len() implies ((
        #[trigger] refs.drop_last()[k]) matches Some(r) ==> r is Human) by {
            assert(refs.drop_last()[k] == refs[k]);
        }
        lemma_runs_human(refs.drop_last());
        let prev = runs(refs.drop_last());
        let now = runs(refs);
        assert(refs[refs.len() - 1] == refs.last());
        assert forall|j: int| 0 <= j < now.len() implies (#[trigger] now[j]).reference is Human by {
            if j < prev.len() && j < now.len() - 1 {
                assert(now[j] == prev[j]);
            }
        }
    }
}

proof fn lemma_filtered_files_human(
    va: VirtualAttributionsView,
    commits: Seq<Seq<char>>,
)
    requires
        no_prompt_entries(va.files),
    ensures
        forall|i: int|
            0 <= i < filter_to_commits_spec(va, commits).files.len() ==> all_human(
                (#[trigger] filter_to_commits_spec(va, commits).files[i]).entries,
            ),
{
    let filtered = filter_to_commits_spec(va, commits);
    assert forall|i: int| 0 <= i < filtered.files.len() implies all_human(
        (#[trigger] filtered.files[i]).entries,
    ) by {
        let entries = filtered.files[i].entries;
        assert forall|j: int| 0 <= j < entries.len() implies (#[trigger] entries[j]).reference
            is Human by {
            let e = entries[j];
            assert(entries.contains(e));
            lemma_filter_to_commits_removes_only(va, commits, i, e);
            let w = choose|w: int| 0 <= w < va.files[i].entries.len() && va.files[i].entries[w] == e;
            assert(va.files[i].entries[w].reference is Human);
        }
    }
}

/// Where the counts come from a log without any line of AI, and no commit
/// of the range has a log of its own that shows one, the report is that no
/// one takes part, whatever the diff counts.
pub proof fn lemma_log_without_ai_is_not_participating(
    log: Option<AuthorshipLogView>,
    added: u32,
    deleted: u32,
    commits: Seq<CommitAuthorshipView>,
)
    requires
        commits.len() <= usize::MAX,
        log matches Some(l) ==> files_ai_lines(l.attestations) == 0,
        forall|k: int| 0 <= k < commits.len() ==> !shows_ai(#[trigger] commits[k]),
    ensures
        range_report_spec(
            RangeAuthorshipStatsView {
                authorship_stats: authorship_data_spec(commits),
                range_stats: stats_from_authorship_log_spec(log, added, deleted),
            },
        ) is NotParticipating,
{
    lemma_count_with_ai_zero(commits);
}

/// Where a commit of the range has a log of its own that shows a line of AI,
/// the counts are shown, even if the range itself counts no line of AI.
pub proof fn lemma_commit_with_ai_shows_the_counts(
    commits: Seq<CommitAuthorshipView>,
    range_stats: CommitStats,
    k: int,
)
    requires
        commits.len() <= usize::MAX,
        0 <= k < commits.len(),
        shows_ai(commits[k]),
    ensures
        range_report_spec(
            RangeAuthorshipStatsView { authorship_stats: authorship_data_spec(commits), range_stats },
        ) is Stats,
{
    lemma_count_with_ai_zero(commits);
    lemma_count_with_log_bound(commits);
    assert(shows_ai(commits[k]));
    assert(count_with_ai(commits) > 0);
}

/// The report of a range is that no one takes part exactly if the counts of
/// the range show no line of AI and no commit of the range has a log of its
/// own that shows one.
pub proof fn lemma_not_participating_exactly(
    commits: Seq<CommitAuthorshipView>,
    range_stats: CommitStats,
)
    requires
        commits.len() <= usize::MAX,
    ensures
        range_report_spec(
            RangeAuthorshipStatsView { authorship_stats: authorship_data_spec(commits), range_stats },
        ) is NotParticipating <==> (!has_ai_authorship(range_stats) && forall|k: int|
            0 <= k < commits.len() ==> !shows_ai(#[trigger] commits[k])),
{
    lemma_count_with_ai_zero(commits);
    lemma_count_with_log_bound(commits);
}

/// Where neither end of a range has any entry of a prompt, the log of the
/// range has no line of AI and the report of the range is that no one takes
/// part.
pub proof fn lemma_range_without_ai_is_not_participating(
    end_sha: Seq<char>,
    changed_files: Seq<Seq<char>>,
    start_va: VirtualAttributionsView,
    end_va: VirtualAttributionsView,
    commit_shas: Seq<Seq<char>>,
    hunks: Seq<DiffHunkView>,
    committed_files: Seq<(Seq<char>, Seq<char>)>,
    added: u32,
    deleted: u32,
    commits: Seq<CommitAuthorshipView>,
)
    requires
        no_prompt_entries(start_va.files),
        no_prompt_entries(end_va.files),
        commits.len() <= usize::MAX,
        forall|k: int| 0 <= k < commits.len() ==> !shows_ai(#[trigger] commits[k]),
    ensures
        ({
            let log = create_authorship_log_for_range_spec(
                end_sha,
                changed_files,
                start_va,
                end_va,
                commit_shas,
                hunks,
                committed_files,
            );
            &&& files_ai_lines(log.attestations) == 0
            &&& range_report_spec(
                RangeAuthorshipStatsView {
                    authorship_stats: authorship_data_spec(commits),
                    range_stats: stats_from_authorship_log_spec(Some(log), added, deleted),
                },
            ) is NotParticipating
        }),
{
    lemma_count_with_ai_zero(commits);
    let log = create_authorship_log_for_range_spec(
        end_sha,
        changed_files,
        start_va,
        end_va,
        commit_shas,
        hunks,
        committed_files,
    );
    if changed_files.len() > 0 {
        let carried = carried_forward_spec(start_va, hunks, committed_files);
        assert(no_prompt_entries(carried.files)) by {
            assert forall|i: int| 0 <= i < start_va.files.len() implies all_human(
                (#[trigger] start_va.files[i]).entries,
            ) by {
                assert forall|j: int| 0 <= j < start_va.files[i].entries.len() implies (
                #[trigger] start_va.files[i].entries[j]).reference is Human by {}
            }
            assert forall|i: int| 0 <= i < carried.files.len() implies all_human(
                (#[trigger] carried.files[i]).entries,
            ) by {
                let path = start_va.files[i].file_path;
                let refs = carried_references(
                    start_va.files,
                    hunks,
                    path,
                    lines_of_file(committed_files, path),
                );
                assert forall|k: int| 0 <= k < refs.len() implies ((#[trigger] refs[k]) matches Some(
                    r,
                ) ==> r is Human) by {
                    match origin_line(hunks, path, (k + 1) as u32) {
                        Some(o) => {
                            lemma_lookup_in_files_human(start_va.files, path, o);
                        },
                        None => {},
                    }
                }
                lemma_runs_human(refs);
            }
            assert forall|i: int, j: int|
                0 <= i < carried.files.len() && 0 <= j < carried.files[i].entries.len() implies (
            #[trigger] carried.files[i].entries[j]).reference is Human by {
                assert(all_human(carried.files[i].entries));
            }
        }
        let preferred = filter_to_commits_spec(end_va, commit_shas);
        let fallback = filter_to_commits_spec(carried, commit_shas);
        lemma_filtered_files_human(end_va, commit_shas);
        lemma_filtered_files_human(carried, commit_shas);
        let merged = merge_attributions_favoring_first_spec(preferred, fallback, committed_files);
        assert forall|i: int| 0 <= i < merged.files.len() implies all_human(
            (#[trigger] merged.files[i]).entries,
        ) by {
            let path = committed_files[i].0;
            let refs = merged_references(
                preferred.files,
                fallback.files,
                path,
                line_count(committed_files[i].1),
            );
            assert forall|k: int| 0 <= k < refs.len() implies ((#[trigger] refs[k]) matches Some(r)
                ==> r is Human) by {
                lemma_lookup_in_files_human(preferred.files, path, (k + 1) as u32);
                lemma_lookup_in_files_human(fallback.files, path, (k + 1) as u32);
            }
            lemma_runs_human(refs);
        }
        lemma_attested_no_ai_lines(merged.files);
    }
}

} // verus!
