//! What holds of the log of every range: which lines it counts as AI's, and
//! which prompts its entries name.

use crate::authorship_log::{
    entry_covers, find_prompt, lookup_in_entries, lookup_in_files, AttributionRefView,
    AuthorshipLogView, EntryView, FileAttestationView, PromptRecordView,
};
use crate::diff::DiffHunkView;
use crate::range_authorship::{
    calculate_range_stats_direct_spec, create_authorship_log_for_range_spec, is_single_commit,
    CommitRangeView, RangeStatsDataView,
};
use crate::stats::{
    capped, entries_ai_lines, entry_ai_lines, files_ai_lines, get_git_diff_stats_for_range_spec,
};
use crate::virtual_attribution::{
    attested_files, carried_forward_spec, entry_in_commits, filter_entries, filter_prompts,
    filter_to_commits_spec, lemma_attested_files_subset, lemma_filter_entries_subset,
    lemma_find_prompt_filtered, lemma_merge_prompts_added, lemma_merge_prompts_prefix, lemma_runs,
    line_count, merge_attributions_favoring_first_spec, merge_prompts, merged_reference,
    merged_references, runs, VirtualAttributionsView,
};
use vstd::prelude::*;

verus! {

// ---------------------------------------------------------------------------
// The lines that count as AI's
// ---------------------------------------------------------------------------
/// The number of lines whose reference is a prompt.
pub open spec fn prompt_lines(refs: Seq<Option<AttributionRefView>>) -> nat
    decreases refs.len(),
{
    if refs.len() == 0 {
        0
    } else {
        let last: nat = match refs.last() {
            Some(AttributionRefView::Prompt(_)) => 1,
            _ => 0,
        };
        prompt_lines(refs.drop_last()) + last
    }
}

/// The number of lines of the committed text whose reference after the
/// merge is a prompt.
pub open spec fn merged_prompt_lines(
    preferred: Seq<FileAttestationView>,
    fallback: Seq<FileAttestationView>,
    committed: Seq<(Seq<char>, Seq<char>)>,
) -> nat
    decreases committed.len(),
{
    if committed.len() == 0 {
        0
    } else {
        merged_prompt_lines(preferred, fallback, committed.drop_last()) + prompt_lines(
            merged_references(
                preferred,
                fallback,
                committed.last().0,
                line_count(committed.last().1),
            ),
        )
    }
}

/// The number of lines of the committed text.
pub open spec fn committed_lines(committed: Seq<(Seq<char>, Seq<char>)>) -> nat
    decreases committed.len(),
{
    if committed.len() == 0 {
        0
    } else {
        committed_lines(committed.drop_last()) + line_count(committed.last().1)
    }
}

/// The entries made of runs of lines attribute to AI exactly the lines whose
/// reference is a prompt: every such line once, and no other line.
pub proof fn lemma_runs_count_prompt_lines(refs: Seq<Option<AttributionRefView>>)
    requires
        refs.len() <= u32::MAX,
    ensures
        entries_ai_lines(runs(refs)) == prompt_lines(refs),
        prompt_lines(refs) <= refs.len(),
    decreases refs.len(),
{
    if refs.len() > 0 {
        let before = refs.drop_last();
        lemma_runs_count_prompt_lines(before);
        lemma_runs(before);
        let prev = runs(before);
        let now = runs(refs);
        let n = refs.len() as u32;
        match refs.last() {
            None => {},
            Some(r) => {
                if prev.len() > 0 && prev.last().end_line + 1 == n && prev.last().reference == r {
                    let e = EntryView {
                        start_line: prev.last().start_line,
                        end_line: n,
                        reference: r,
                    };
                    assert(now == prev.drop_last().push(e));
                    assert(now.drop_last() =~= prev.drop_last());
                    assert(1 <= prev[prev.len() - 1].start_line <= prev[prev.len() - 1].end_line);
                    let one: nat = match r {
                        AttributionRefView::Prompt(_) => 1,
                        AttributionRefView::Human(_) => 0,
                    };
                    assert(entry_ai_lines(e) == entry_ai_lines(prev.last()) + one);
                } else {
                    let e = EntryView { start_line: n, end_line: n, reference: r };
                    assert(now == prev.push(e));
                    assert(now.drop_last() =~= prev);
                }
            },
        }
    }
}

proof fn lemma_attested_files_count(files: Seq<FileAttestationView>)
    ensures
        files_ai_lines(attested_files(files)) == files_ai_lines(files),
    decreases files.len(),
{
    if files.len() > 0 {
        lemma_attested_files_count(files.drop_last());
        let rest = attested_files(files.drop_last());
        if files.last().entries.len() > 0 {
            assert(rest.push(files.last()).drop_last() =~= rest);
        }
    }
}

proof fn lemma_merged_files_count(
    preferred: VirtualAttributionsView,
    fallback: VirtualAttributionsView,
    committed: Seq<(Seq<char>, Seq<char>)>,
)
    ensures
        files_ai_lines(merge_attributions_favoring_first_spec(preferred, fallback, committed).files)
            == merged_prompt_lines(preferred.files, fallback.files, committed),
        merged_prompt_lines(preferred.files, fallback.files, committed) <= committed_lines(
            committed,
        ),
    decreases committed.len(),
{
    if committed.len() > 0 {
        let before = committed.drop_last();
        lemma_merged_files_count(preferred, fallback, before);
        let files = merge_attributions_favoring_first_spec(preferred, fallback, committed).files;
        assert(files.drop_last() =~= merge_attributions_favoring_first_spec(
            preferred,
            fallback,
            before,
        ).files);
        lemma_runs_count_prompt_lines(
            merged_references(
                preferred.files,
                fallback.files,
                committed.last().0,
                line_count(committed.last().1),
            ),
        );
    }
}

/// The log of a range counts each line of the final text at most once. Its
/// AI lines are the lines of the committed text whose final reference, after
/// both ends were restricted to the commits of the range and merged, is a
/// prompt: a line whose final reference is a human's, or that has none, is
/// not among them, and there are no more of them than the committed text has
/// lines.
pub proof fn lemma_range_log_counts_final_lines(
    end_sha: Seq<char>,
    changed_files: Seq<Seq<char>>,
    start_va: VirtualAttributionsView,
    end_va: VirtualAttributionsView,
    commit_shas: Seq<Seq<char>>,
    hunks: Seq<DiffHunkView>,
    committed_files: Seq<(Seq<char>, Seq<char>)>,
)
    requires
        changed_files.len() > 0,
    ensures
        ({
            let log = create_authorship_log_for_range_spec(
                end_sha,
                changed_files,
                start_va,
                end_va,
                commit_shas,
                hunks,
                committed_files,
            );
            let newer = filter_to_commits_spec(end_va, commit_shas);
            let older = filter_to_commits_spec(
                carried_forward_spec(start_va, hunks, committed_files),
                commit_shas,
            );
            &&& files_ai_lines(log.attestations) == merged_prompt_lines(
                newer.files,
                older.files,
                committed_files,
            )
            &&& files_ai_lines(log.attestations) <= committed_lines(committed_files)
        }),
{
    let newer = filter_to_commits_spec(end_va, commit_shas);
    let older = filter_to_commits_spec(
        carried_forward_spec(start_va, hunks, committed_files),
        commit_shas,
    );
    lemma_merged_files_count(newer, older, committed_files);
    lemma_attested_files_count(
        merge_attributions_favoring_first_spec(newer, older, committed_files).files,
    );
}

/// The counts of a range of more than one commit count as AI's no more lines
/// than the committed text has, and no line twice.
pub proof fn lemma_range_stats_count_final_lines(range: CommitRangeView, data: RangeStatsDataView)
    requires
        !is_single_commit(range),
        data is Reconstruct,
        get_git_diff_stats_for_range_spec(data->Reconstruct_numstat) is Ok,
    ensures
        calculate_range_stats_direct_spec(range, data) matches Ok(stats) && ({
            let newer = filter_to_commits_spec(data->end_va, range.commits);
            let older = filter_to_commits_spec(
                carried_forward_spec(data->start_va, data->hunks, data->committed_files),
                range.commits,
            );
            let counted = if data->changed_files.len() == 0 {
                0
            } else {
                merged_prompt_lines(newer.files, older.files, data->committed_files)
            };
            &&& stats.total_ai_additions == capped(counted)
            &&& stats.ai_additions <= stats.total_ai_additions <= committed_lines(
                data->committed_files,
            )
        }),
{
    if data->changed_files.len() > 0 {
        lemma_range_log_counts_final_lines(
            range.end_oid,
            data->changed_files,
            data->start_va,
            data->end_va,
            range.commits,
            data->hunks,
            data->committed_files,
        );
    } else {
        assert(files_ai_lines(Seq::<FileAttestationView>::empty()) == 0);
    }
}

// ---------------------------------------------------------------------------
// The prompts that the entries name
// ---------------------------------------------------------------------------
/// Whether every entry of `files` stays under a restriction to `commits`:
/// whichever prompt it names, `prompts` knows it with one of `commits`.
pub open spec fn names_only(
    files: Seq<FileAttestationView>,
    prompts: Seq<PromptRecordView>,
    commits: Seq<Seq<char>>,
) -> bool {
    forall|i: int, j: int|
        0 <= i < files.len() && 0 <= j < files[i].entries.len() ==> entry_in_commits(
            #[trigger] files[i].entries[j],
            prompts,
            commits,
        )
}

/// Whether every prompt has one of `commits`.
pub open spec fn made_in(prompts: Seq<PromptRecordView>, commits: Seq<Seq<char>>) -> bool {
    forall|k: int| 0 <= k < prompts.len() ==> commits.contains((#[trigger] prompts[k]).commit_sha)
}

/// The log as an attribution.
pub open spec fn attribution_of(log: AuthorshipLogView) -> VirtualAttributionsView {
    VirtualAttributionsView {
        base_commit: log.metadata.base_commit_sha,
        files: log.attestations,
        prompts: log.metadata.prompts,
    }
}

/// Whether an entry of `files` has the reference `r`.
spec fn files_name(files: Seq<FileAttestationView>, r: AttributionRefView) -> bool {
    exists|k: int, j: int|
        0 <= k < files.len() && 0 <= j < files[k].entries.len() && (
        #[trigger] files[k].entries[j]).reference == r
}

proof fn lemma_lookup_names_an_entry(entries: Seq<EntryView>, line: u32)
    ensures
        lookup_in_entries(entries, line) matches Some(r) ==> exists|j: int|
            0 <= j < entries.len() && (#[trigger] entries[j]).reference == r,
    decreases entries.len(),
{
    if entries.len() > 0 {
        lemma_lookup_names_an_entry(entries.drop_last(), line);
        match lookup_in_entries(entries.drop_last(), line) {
            Some(r) => {
                let j = choose|j: int|
                    0 <= j < entries.drop_last().len() && (#[trigger] entries.drop_last()[j]).reference
                        == r;
                assert(entries[j].reference == r);
            },
            None => {
                if entry_covers(entries.last(), line) {
                    assert(entries[entries.len() - 1].reference == entries.last().reference);
                }
            },
        }
    }
}

proof fn lemma_lookup_names_a_file(files: Seq<FileAttestationView>, path: Seq<char>, line: u32)
    ensures
        lookup_in_files(files, path, line) matches Some(r) ==> files_name(files, r),
    decreases files.len(),
{
    if files.len() > 0 {
        let before = files.drop_last();
        lemma_lookup_names_a_file(before, path, line);
        match lookup_in_files(before, path, line) {
            Some(r) => {
                let (k, j) = choose|k: int, j: int|
                    0 <= k < before.len() && 0 <= j < before[k].entries.len() && (
                    #[trigger] before[k].entries[j]).reference == r;
                assert(files[k].entries[j].reference == r);
            },
            None => {
                if files.last().file_path == path {
                    lemma_lookup_names_an_entry(files.last().entries, line);
                    match lookup_in_entries(files.last().entries, line) {
                        Some(r) => {
                            let j = choose|j: int|
                                0 <= j < files.last().entries.len() && (
                                #[trigger] files.last().entries[j]).reference == r;
                            assert(files[files.len() - 1].entries[j].reference == r);
                        },
                        None => {},
                    }
                }
            },
        }
    }
}

proof fn lemma_runs_begin_at_their_reference(refs: Seq<Option<AttributionRefView>>)
    requires
        refs.len() <= u32::MAX,
    ensures
        forall|k: int|
            0 <= k < runs(refs).len() ==> 1 <= (#[trigger] runs(refs)[k]).start_line <= refs.len()
                && refs[runs(refs)[k].start_line - 1] == Some(runs(refs)[k].reference),
    decreases refs.len(),
{
    if refs.len() > 0 {
        let before = refs.drop_last();
        lemma_runs_begin_at_their_reference(before);
        let prev = runs(before);
        let now = runs(refs);
        let n = refs.len() as u32;
        assert forall|k: int| 0 <= k < now.len() implies 1 <= (#[trigger] now[k]).start_line
            <= refs.len() && refs[now[k].start_line - 1] == Some(now[k].reference) by {
            match refs.last() {
                None => {
                    assert(before[prev[k].start_line - 1] == refs[prev[k].start_line - 1]);
                },
                Some(r) => {
                    if prev.len() > 0 && prev.last().end_line + 1 == n && prev.last().reference
                        == r {
                        if k < now.len() - 1 {
                            assert(now[k] == prev[k]);
                        } else {
                            assert(now[k].start_line == prev[k].start_line);
                            assert(now[k].reference == prev[k].reference);
                        }
                        assert(before[prev[k].start_line - 1] == refs[prev[k].start_line - 1]);
                    } else {
                        if k < now.len() - 1 {
                            assert(now[k] == prev[k]);
                            assert(before[prev[k].start_line - 1] == refs[prev[k].start_line - 1]);
                        }
                    }
                },
            }
        }
    }
}

proof fn lemma_restricted_names_known_prompt(
    va: VirtualAttributionsView,
    commits: Seq<Seq<char>>,
    id: Seq<char>,
)
    requires
        files_name(filter_to_commits_spec(va, commits).files, AttributionRefView::Prompt(id)),
    ensures
        find_prompt(filter_prompts(va.prompts, commits), id) is Some,
{
    let files = filter_to_commits_spec(va, commits).files;
    let (k, j) = choose|k: int, j: int|
        0 <= k < files.len() && 0 <= j < files[k].entries.len() && (
        #[trigger] files[k].entries[j]).reference == AttributionRefView::Prompt(id);
    let e = files[k].entries[j];
    assert(files[k].entries == filter_entries(va.files[k].entries, va.prompts, commits));
    assert(files[k].entries.contains(e));
    lemma_filter_entries_subset(va.files[k].entries, va.prompts, commits, e);
    lemma_find_prompt_filtered(va.prompts, commits, id);
}

proof fn lemma_find_prompt_in_merge(
    first: Seq<PromptRecordView>,
    second: Seq<PromptRecordView>,
    id: Seq<char>,
)
    ensures
        find_prompt(first, id) is Some || find_prompt(second, id) is Some ==> find_prompt(
            merge_prompts(first, second),
            id,
        ) is Some,
    decreases second.len(),
{
    if second.len() > 0 {
        lemma_find_prompt_in_merge(first, second.drop_last(), id);
        let rest = merge_prompts(first, second.drop_last());
        if find_prompt(first, second.last().id) is None {
            assert(rest.push(second.last()).drop_last() =~= rest);
        }
    }
}

proof fn lemma_found_prompt_is_member(prompts: Seq<PromptRecordView>, id: Seq<char>)
    ensures
        find_prompt(prompts, id) matches Some(p) ==> prompts.contains(p),
    decreases prompts.len(),
{
    if prompts.len() > 0 {
        lemma_found_prompt_is_member(prompts.drop_last(), id);
        match find_prompt(prompts.drop_last(), id) {
            Some(p) => {
                let w = choose|w: int|
                    0 <= w < prompts.drop_last().len() && prompts.drop_last()[w] == p;
                assert(prompts[w] == p);
            },
            None => {
                assert(prompts[prompts.len() - 1] == prompts.last());
            },
        }
    }
}

proof fn lemma_restricted_prompts_made_in(prompts: Seq<PromptRecordView>, commits: Seq<Seq<char>>)
    ensures
        made_in(filter_prompts(prompts, commits), commits),
    decreases prompts.len(),
{
    if prompts.len() > 0 {
        lemma_restricted_prompts_made_in(prompts.drop_last(), commits);
    }
}

proof fn lemma_merged_prompts_made_in(
    first: Seq<PromptRecordView>,
    second: Seq<PromptRecordView>,
    commits: Seq<Seq<char>>,
)
    requires
        made_in(first, commits),
        made_in(second, commits),
    ensures
        made_in(merge_prompts(first, second), commits),
{
    let merged = merge_prompts(first, second);
    lemma_merge_prompts_prefix(first, second);
    assert forall|k: int| 0 <= k < merged.len() implies commits.contains(
        (#[trigger] merged[k]).commit_sha,
    ) by {
        if k >= first.len() {
            lemma_merge_prompts_added(first, second, k);
            let w = choose|w: int| 0 <= w < second.len() && second[w] == merged[k];
            assert(commits.contains(second[w].commit_sha));
        } else {
            assert(commits.contains(first[k].commit_sha));
        }
    }
}

proof fn lemma_restriction_keeps_entries(
    entries: Seq<EntryView>,
    prompts: Seq<PromptRecordView>,
    commits: Seq<Seq<char>>,
)
    requires
        forall|j: int|
            0 <= j < entries.len() ==> entry_in_commits(#[trigger] entries[j], prompts, commits),
    ensures
        filter_entries(entries, prompts, commits) == entries,
    decreases entries.len(),
{
    if entries.len() > 0 {
        let before = entries.drop_last();
        assert forall|j: int| 0 <= j < before.len() implies entry_in_commits(
            #[trigger] before[j],
            prompts,
            commits,
        ) by {
            assert(before[j] == entries[j]);
        }
        lemma_restriction_keeps_entries(before, prompts, commits);
        assert(entry_in_commits(entries[entries.len() - 1], prompts, commits));
        assert(before.push(entries.last()) =~= entries);
    } else {
        assert(entries =~= Seq::empty());
    }
}

proof fn lemma_restriction_keeps_prompts(prompts: Seq<PromptRecordView>, commits: Seq<Seq<char>>)
    requires
        made_in(prompts, commits),
    ensures
        filter_prompts(prompts, commits) == prompts,
    decreases prompts.len(),
{
    if prompts.len() > 0 {
        let before = prompts.drop_last();
        assert forall|k: int| 0 <= k < before.len() implies commits.contains(
            (#[trigger] before[k]).commit_sha,
        ) by {
            assert(before[k] == prompts[k]);
        }
        lemma_restriction_keeps_prompts(before, commits);
        assert(commits.contains(prompts[prompts.len() - 1].commit_sha));
        assert(before.push(prompts.last()) =~= prompts);
    } else {
        assert(prompts =~= Seq::empty());
    }
}

/// After two attributions were restricted to `commits` and merged, every
/// entry names only a prompt that the merged prompts know with one of
/// `commits`, and the merged prompts hold no prompt of another commit.
pub proof fn lemma_merge_of_restricted_names_only(
    preferred: VirtualAttributionsView,
    fallback: VirtualAttributionsView,
    commits: Seq<Seq<char>>,
    committed: Seq<(Seq<char>, Seq<char>)>,
)
    ensures
        ({
            let merged = merge_attributions_favoring_first_spec(
                filter_to_commits_spec(preferred, commits),
                filter_to_commits_spec(fallback, commits),
                committed,
            );
            names_only(merged.files, merged.prompts, commits) && made_in(merged.prompts, commits)
        }),
{
    let newer = filter_to_commits_spec(preferred, commits);
    let older = filter_to_commits_spec(fallback, commits);
    let merged = merge_attributions_favoring_first_spec(newer, older, committed);
    lemma_restricted_prompts_made_in(preferred.prompts, commits);
    lemma_restricted_prompts_made_in(fallback.prompts, commits);
    lemma_merged_prompts_made_in(newer.prompts, older.prompts, commits);
    assert forall|i: int, j: int|
        0 <= i < merged.files.len() && 0 <= j < merged.files[i].entries.len() implies entry_in_commits(
        #[trigger] merged.files[i].entries[j],
        merged.prompts,
        commits,
    ) by {
        let e = merged.files[i].entries[j];
        match e.reference {
            AttributionRefView::Human(_) => {},
            AttributionRefView::Prompt(id) => {
                let path = committed[i].0;
                let refs = merged_references(
                    newer.files,
                    older.files,
                    path,
                    line_count(committed[i].1),
                );
                assert(merged.files[i].entries == runs(refs));
                lemma_runs_begin_at_their_reference(refs);
                let line = e.start_line;
                assert(refs[line - 1] == merged_reference(newer.files, older.files, path, line));
                lemma_lookup_names_a_file(newer.files, path, line);
                lemma_lookup_names_a_file(older.files, path, line);
                if lookup_in_files(newer.files, path, line) is Some {
                    lemma_restricted_names_known_prompt(preferred, commits, id);
                } else {
                    lemma_restricted_names_known_prompt(fallback, commits, id);
                }
                lemma_find_prompt_in_merge(newer.prompts, older.prompts, id);
                lemma_found_prompt_is_member(merged.prompts, id);
                let p = find_prompt(merged.prompts, id)->0;
                let w = choose|w: int| 0 <= w < merged.prompts.len() && merged.prompts[w] == p;
                assert(commits.contains(merged.prompts[w].commit_sha));
            },
        }
    }
}

/// Every prompt that an entry of the log of a range names is among the
/// prompts of the log, with a commit of the range, and the log holds no
/// prompt of another commit. So restricting the log to the commits of the
/// range again removes nothing.
pub proof fn lemma_range_log_is_restricted(
    end_sha: Seq<char>,
    changed_files: Seq<Seq<char>>,
    start_va: VirtualAttributionsView,
    end_va: VirtualAttributionsView,
    commit_shas: Seq<Seq<char>>,
    hunks: Seq<DiffHunkView>,
    committed_files: Seq<(Seq<char>, Seq<char>)>,
)
    ensures
        ({
            let log = create_authorship_log_for_range_spec(
                end_sha,
                changed_files,
                start_va,
                end_va,
                commit_shas,
                hunks,
                committed_files,
            );
            &&& names_only(log.attestations, log.metadata.prompts, commit_shas)
            &&& made_in(log.metadata.prompts, commit_shas)
            &&& filter_to_commits_spec(attribution_of(log), commit_shas) == attribution_of(log)
        }),
{
    let log = create_authorship_log_for_range_spec(
        end_sha,
        changed_files,
        start_va,
        end_va,
        commit_shas,
        hunks,
        committed_files,
    );
    let prompts = log.metadata.prompts;
    if changed_files.len() > 0 {
        let carried = carried_forward_spec(start_va, hunks, committed_files);
        let merged = merge_attributions_favoring_first_spec(
            filter_to_commits_spec(end_va, commit_shas),
            filter_to_commits_spec(carried, commit_shas),
            committed_files,
        );
        lemma_merge_of_restricted_names_only(end_va, carried, commit_shas, committed_files);
        assert(prompts == merged.prompts);
        assert forall|i: int, j: int|
            0 <= i < log.attestations.len() && 0 <= j < log.attestations[i].entries.len() implies entry_in_commits(
            #[trigger] log.attestations[i].entries[j],
            prompts,
            commit_shas,
        ) by {
            let f = log.attestations[i];
            assert(attested_files(merged.files).contains(f));
            lemma_attested_files_subset(merged.files, f);
            let w = choose|w: int| 0 <= w < merged.files.len() && merged.files[w] == f;
            assert(entry_in_commits(merged.files[w].entries[j], prompts, commit_shas));
        }
    }
    let va = attribution_of(log);
    let again = filter_to_commits_spec(va, commit_shas);
    lemma_restriction_keeps_prompts(prompts, commit_shas);
    assert forall|i: int| 0 <= i < va.files.len() implies again.files[i] == va.files[i] by {
        assert forall|j: int| 0 <= j < va.files[i].entries.len() implies entry_in_commits(
            #[trigger] va.files[i].entries[j],
            prompts,
            commit_shas,
        ) by {
            assert(entry_in_commits(log.attestations[i].entries[j], prompts, commit_shas));
        }
        lemma_restriction_keeps_entries(va.files[i].entries, prompts, commit_shas);
    }
    assert(again.files =~= va.files);
}

} // verus!
