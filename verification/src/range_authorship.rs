//! Authorship over a range of commits: which commits carry a log, the log of
//! the range as if it were one commit, and the counts that follow from it.

use crate::authorship_log::{
    AuthorshipLog, AuthorshipLogView, AuthorshipMetadata, AuthorshipMetadataView, CommitAuthorship,
    CommitAuthorshipView, FileAttestation, PromptRecord,
};
use crate::diff::{DiffHunk, DiffHunkView};
use crate::error::{GitAiError, GitAiErrorView};
use crate::sequences::{
    lemma_deep_view_empty, lemma_deep_view_push, lemma_take_all, lemma_take_next, with_once,
};
use crate::stats::{
    ai_line_count, files_ai_lines, get_git_diff_stats_for_range,
    get_git_diff_stats_for_range_spec, stats_from_authorship_log, stats_from_authorship_log_spec,
    CommitStats,
};
use crate::text::{
    contains_text, find_char, has_prefix, index_of_from, starts_with, string_of_range, to_chars,
};
use crate::virtual_attribution::{
    carried_forward_spec, committed_paths, current_schema_version, current_tool_version,
    distinct_paths, filter_to_commits_spec, merge_attributions_favoring_first,
    merge_attributions_favoring_first_spec, schema_version, to_authorship_log_spec, tool_version,
    VirtualAttributions, VirtualAttributionsView,
};
use vstd::prelude::*;
use vstd::string::*;

verus! {

// ---------------------------------------------------------------------------
// Data
// ---------------------------------------------------------------------------
/// An ancestry interval: the commits from `start_oid` to `end_oid`. A range
/// whose two ends are the same commit is legal.
#[derive(Debug, Clone, PartialEq, Eq)]
pub struct CommitRange {
    pub start_oid: String,
    pub end_oid: String,
    pub refname: String,
    /// The commits of the interval, in the order of the history.
    pub commits: Vec<String>,
}

/// The mathematical value of a [`CommitRange`].
pub struct CommitRangeView {
    pub start_oid: Seq<char>,
    pub end_oid: Seq<char>,
    pub refname: Seq<char>,
    pub commits: Seq<Seq<char>>,
}

impl View for CommitRange {
    type V = CommitRangeView;

    open spec fn view(&self) -> CommitRangeView {
        CommitRangeView {
            start_oid: self.start_oid@,
            end_oid: self.end_oid@,
            refname: self.refname@,
            commits: self.commits.deep_view(),
        }
    }
}

/// Which commits of a range carry a log, and who wrote them.
#[derive(Debug, Clone, PartialEq, Eq)]
pub struct RangeAuthorshipStatsData {
    pub total_commits: usize,
    pub commits_with_authorship: usize,
    /// The number of commits whose own log attributes a line to AI.
    pub commits_with_ai_authorship: usize,
    /// The authors of the commits with a log, each once.
    pub authors_commiting_authorship: Vec<String>,
    /// The authors of the commits without a log, each once.
    pub authors_not_commiting_authorship: Vec<String>,
    /// The commits without a log.
    pub commits_without_authorship: Vec<String>,
    /// The commits without a log, each with its author.
    pub commits_without_authorship_with_authors: Vec<(String, String)>,
}

/// The mathematical value of a [`RangeAuthorshipStatsData`].
pub struct RangeAuthorshipStatsDataView {
    pub total_commits: usize,
    pub commits_with_authorship: usize,
    pub commits_with_ai_authorship: usize,
    pub authors_commiting_authorship: Seq<Seq<char>>,
    pub authors_not_commiting_authorship: Seq<Seq<char>>,
    pub commits_without_authorship: Seq<Seq<char>>,
    pub commits_without_authorship_with_authors: Seq<(Seq<char>, Seq<char>)>,
}

impl View for RangeAuthorshipStatsData {
    type V = RangeAuthorshipStatsDataView;

    open spec fn view(&self) -> RangeAuthorshipStatsDataView {
        RangeAuthorshipStatsDataView {
            total_commits: self.total_commits,
            commits_with_authorship: self.commits_with_authorship,
            commits_with_ai_authorship: self.commits_with_ai_authorship,
            authors_commiting_authorship: self.authors_commiting_authorship.deep_view(),
            authors_not_commiting_authorship: self.authors_not_commiting_authorship.deep_view(),
            commits_without_authorship: self.commits_without_authorship.deep_view(),
            commits_without_authorship_with_authors:
                self.commits_without_authorship_with_authors.deep_view(),
        }
    }
}

/// What is reported of a range.
#[derive(Debug, Clone, PartialEq, Eq)]
pub struct RangeAuthorshipStats {
    pub authorship_stats: RangeAuthorshipStatsData,
    pub range_stats: CommitStats,
}

/// The mathematical value of a [`RangeAuthorshipStats`].
pub struct RangeAuthorshipStatsView {
    pub authorship_stats: RangeAuthorshipStatsDataView,
    pub range_stats: CommitStats,
}

impl View for RangeAuthorshipStats {
    type V = RangeAuthorshipStatsView;

    open spec fn view(&self) -> RangeAuthorshipStatsView {
        RangeAuthorshipStatsView {
            authorship_stats: self.authorship_stats@,
            range_stats: self.range_stats,
        }
    }
}

// ---------------------------------------------------------------------------
// What to fetch
// ---------------------------------------------------------------------------
/// The remote and the refspec to fetch for `refname`.
///
/// `refs/remotes/<remote>/<branch>` is the branch of that remote;
/// `refs/heads/<branch>` is fetched as it stands from the default remote;
/// `<remote>/<branch>`, where the name does not begin with `refs/`, is the
/// branch of that remote; any other name is a branch of the default remote.
pub open spec fn fetch_target_spec(refname: Seq<char>, default_remote: Seq<char>) -> (
    Seq<char>,
    Seq<char>,
) {
    if starts_with(refname, "refs/remotes/"@) {
        let start = "refs/remotes/"@.len() as int;
        let slash = index_of_from(refname, '/', start);
        if slash < refname.len() {
            (
                refname.subrange(start, slash),
                "refs/heads/"@ + refname.subrange(slash + 1, refname.len() as int),
            )
        } else {
            (default_remote, refname)
        }
    } else if starts_with(refname, "refs/heads/"@) {
        (default_remote, refname)
    } else if index_of_from(refname, '/', 0) < refname.len() && !starts_with(refname, "refs/"@) {
        let slash = index_of_from(refname, '/', 0);
        (
            refname.subrange(0, slash),
            "refs/heads/"@ + refname.subrange(slash + 1, refname.len() as int),
        )
    } else {
        (default_remote, "refs/heads/"@ + refname)
    }
}

/// The remote and the refspec to fetch for `refname`.
pub fn fetch_target(refname: &str, default_remote: &str) -> (r: (String, String))
    ensures
        (r.0@, r.1@) == fetch_target_spec(refname@, default_remote@),
{
    let chars = to_chars(refname);
    proof {
        lemma_take_all(chars@);
        reveal_strlit("refs/remotes/");
    }
    if has_prefix(&chars, "refs/remotes/") {
        let slash = find_char(&chars, '/', 13, chars.len());
        if slash < chars.len() {
            let remote = string_of_range(&chars, 13, slash);
            let branch = string_of_range(&chars, slash + 1, chars.len());
            (remote, "refs/heads/".to_owned().concat(branch.as_str()))
        } else {
            (default_remote.to_owned(), refname.to_owned())
        }
    } else if has_prefix(&chars, "refs/heads/") {
        (default_remote.to_owned(), refname.to_owned())
    } else {
        let slash = find_char(&chars, '/', 0, chars.len());
        if slash < chars.len() && !has_prefix(&chars, "refs/") {
            let remote = string_of_range(&chars, 0, slash);
            let branch = string_of_range(&chars, slash + 1, chars.len());
            (remote, "refs/heads/".to_owned().concat(branch.as_str()))
        } else {
            (default_remote.to_owned(), "refs/heads/".to_owned().concat(refname))
        }
    }
}

/// The message for a fetch that failed.
pub open spec fn fetch_failure_message(refspec: Seq<char>, remote: Seq<char>, stderr: Seq<char>)
    -> Seq<char> {
    "Failed to fetch "@ + refspec + " from "@ + remote + ": "@ + stderr
}

/// The error for a fetch that failed.
pub fn fetch_failure(refspec: &str, remote: &str, stderr: &str) -> (e: GitAiError)
    ensures
        e@ == GitAiErrorView::Generic(fetch_failure_message(refspec@, remote@, stderr@)),
{
    GitAiError::Generic(
        "Failed to fetch ".to_owned().concat(refspec).concat(" from ").concat(remote).concat(
            ": ",
        ).concat(stderr),
    )
}

// ---------------------------------------------------------------------------
// Which commits carry a log
// ---------------------------------------------------------------------------
/// The number of commits with a log.
pub open spec fn count_with_log(cas: Seq<CommitAuthorshipView>) -> nat
    decreases cas.len(),
{
    if cas.len() == 0 {
        0
    } else {
        count_with_log(cas.drop_last()) + if cas.last() is Log {
            1nat
        } else {
            0nat
        }
    }
}

/// Whether the commit has a log of its own that attributes a line to AI.
pub open spec fn shows_ai(ca: CommitAuthorshipView) -> bool {
    match ca {
        CommitAuthorshipView::Log { authorship_log, .. } => files_ai_lines(
            authorship_log.attestations,
        ) > 0,
        CommitAuthorshipView::NoLog { .. } => false,
    }
}

/// The number of commits whose own log attributes a line to AI.
pub open spec fn count_with_ai(cas: Seq<CommitAuthorshipView>) -> nat
    decreases cas.len(),
{
    if cas.len() == 0 {
        0
    } else {
        count_with_ai(cas.drop_last()) + if shows_ai(cas.last()) {
            1nat
        } else {
            0nat
        }
    }
}

/// The authors of the commits with a log, each once, in the order in which
/// they first occur.
pub open spec fn authors_with_log(cas: Seq<CommitAuthorshipView>) -> Seq<Seq<char>>
    decreases cas.len(),
{
    if cas.len() == 0 {
        Seq::empty()
    } else {
        let rest = authors_with_log(cas.drop_last());
        match cas.last() {
            CommitAuthorshipView::Log { git_author, .. } => with_once(rest, git_author),
            CommitAuthorshipView::NoLog { .. } => rest,
        }
    }
}

/// The authors of the commits without a log, each once, in the order in
/// which they first occur.
pub open spec fn authors_without_log(cas: Seq<CommitAuthorshipView>) -> Seq<Seq<char>>
    decreases cas.len(),
{
    if cas.len() == 0 {
        Seq::empty()
    } else {
        let rest = authors_without_log(cas.drop_last());
        match cas.last() {
            CommitAuthorshipView::Log { .. } => rest,
            CommitAuthorshipView::NoLog { git_author, .. } => with_once(rest, git_author),
        }
    }
}

/// The commits without a log, each with its author, in their order.
pub open spec fn commits_without_log(cas: Seq<CommitAuthorshipView>) -> Seq<
    (Seq<char>, Seq<char>),
>
    decreases cas.len(),
{
    if cas.len() == 0 {
        Seq::empty()
    } else {
        let rest = commits_without_log(cas.drop_last());
        match cas.last() {
            CommitAuthorshipView::Log { .. } => rest,
            CommitAuthorshipView::NoLog { sha, git_author } => rest.push((sha, git_author)),
        }
    }
}

/// What the list of the commits' stored authorship amounts to.
pub open spec fn authorship_data_spec(cas: Seq<CommitAuthorshipView>)
    -> RangeAuthorshipStatsDataView {
    RangeAuthorshipStatsDataView {
        total_commits: cas.len() as usize,
        commits_with_authorship: count_with_log(cas) as usize,
        commits_with_ai_authorship: count_with_ai(cas) as usize,
        authors_commiting_authorship: authors_with_log(cas),
        authors_not_commiting_authorship: authors_without_log(cas),
        commits_without_authorship: commits_without_log(cas).map_values(
            |p: (Seq<char>, Seq<char>)| p.0,
        ),
        commits_without_authorship_with_authors: commits_without_log(cas),
    }
}

impl RangeAuthorshipStatsDataView {
    /// No more commits carry a log than there are commits, no more show AI
    /// than carry a log, and the commits without a log are listed once with
    /// and once without their authors.
    pub open spec fn well_formed(self) -> bool {
        &&& self.commits_with_authorship <= self.total_commits
        &&& self.commits_with_ai_authorship <= self.commits_with_authorship
        &&& self.commits_without_authorship == self.commits_without_authorship_with_authors.map_values(
            |p: (Seq<char>, Seq<char>)| p.0,
        )
        &&& self.authors_commiting_authorship.no_duplicates()
        &&& self.authors_not_commiting_authorship.no_duplicates()
    }
}

/// No more commits show AI than carry a log, and no more carry a log than
/// there are commits.
pub proof fn lemma_count_with_log_bound(cas: Seq<CommitAuthorshipView>)
    ensures
        count_with_ai(cas) <= count_with_log(cas) <= cas.len(),
    decreases cas.len(),
{
    if cas.len() > 0 {
        lemma_count_with_log_bound(cas.drop_last());
    }
}

/// No commit is counted as showing AI exactly if no commit of the list has a
/// log of its own that attributes a line to AI.
pub proof fn lemma_count_with_ai_zero(cas: Seq<CommitAuthorshipView>)
    ensures
        count_with_ai(cas) == 0 <==> forall|k: int| 0 <= k < cas.len() ==> !shows_ai(#[trigger] cas[k]),
    decreases cas.len(),
{
    if cas.len() > 0 {
        let head = cas.drop_last();
        lemma_count_with_ai_zero(head);
        if count_with_ai(cas) == 0 {
            assert forall|k: int| 0 <= k < cas.len() implies !shows_ai(#[trigger] cas[k]) by {
                if k < head.len() {
                    assert(head[k] == cas[k]);
                }
            }
        }
        if forall|k: int| 0 <= k < cas.len() ==> !shows_ai(#[trigger] cas[k]) {
            assert forall|k: int| 0 <= k < head.len() implies !shows_ai(#[trigger] head[k]) by {
                assert(head[k] == cas[k]);
            }
            assert(!shows_ai(cas[cas.len() - 1]));
        }
    }
}

proof fn lemma_authors_with_log_distinct(cas: Seq<CommitAuthorshipView>)
    ensures
        authors_with_log(cas).no_duplicates(),
    decreases cas.len(),
{
    if cas.len() > 0 {
        lemma_authors_with_log_distinct(cas.drop_last());
    }
}

proof fn lemma_authors_without_log_distinct(cas: Seq<CommitAuthorshipView>)
    ensures
        authors_without_log(cas).no_duplicates(),
    decreases cas.len(),
{
    if cas.len() > 0 {
        lemma_authors_without_log_distinct(cas.drop_last());
    }
}

/// What [`authorship_data_spec`] gives is well formed.
pub proof fn lemma_authorship_data_well_formed(cas: Seq<CommitAuthorshipView>)
    requires
        cas.len() <= usize::MAX,
    ensures
        authorship_data_spec(cas).well_formed(),
{
    lemma_count_with_log_bound(cas);
    lemma_authors_with_log_distinct(cas);
    lemma_authors_without_log_distinct(cas);
}

fn push_once(items: &mut Vec<String>, x: &String)
    ensures
        final(items).deep_view() == with_once(old(items).deep_view(), x@),
{
    if !contains_text(items.as_slice(), x.as_str()) {
        let ghost before = *items;
        let item = x.clone();
        items.push(item);
        proof {
            lemma_deep_view_push(before, *items, item);
        }
    }
}

/// Sorts the commits of a range into those with and those without a log.
pub fn authorship_data(commit_authorship: &[CommitAuthorship]) -> (r: RangeAuthorshipStatsData)
    ensures
        r@ == authorship_data_spec(commit_authorship.deep_view()),
        r@.well_formed(),
{
    let ghost cv = commit_authorship.deep_view();
    let mut with_log: usize = 0;
    let mut with_ai: usize = 0;
    let mut authors_with: Vec<String> = Vec::new();
    let mut authors_without: Vec<String> = Vec::new();
    let mut shas_without: Vec<String> = Vec::new();
    let mut pairs_without: Vec<(String, String)> = Vec::new();
    let mut i: usize = 0;
    proof {
        lemma_deep_view_empty(authors_with);
        lemma_deep_view_empty(authors_without);
        lemma_deep_view_empty(shas_without);
        lemma_deep_view_empty(pairs_without);
        assert(cv.take(0) =~= Seq::<CommitAuthorshipView>::empty());
        assert(shas_without.deep_view() =~= commits_without_log(cv.take(0)).map_values(
            |p: (Seq<char>, Seq<char>)| p.0,
        ));
    }
    while i < commit_authorship.len()
        invariant
            0 <= i <= commit_authorship.len(),
            cv == commit_authorship.deep_view(),
            with_log == count_with_log(cv.take(i as int)),
            with_ai == count_with_ai(cv.take(i as int)),
            with_ai <= with_log <= i,
            authors_with.deep_view() == authors_with_log(cv.take(i as int)),
            authors_without.deep_view() == authors_without_log(cv.take(i as int)),
            pairs_without.deep_view() == commits_without_log(cv.take(i as int)),
            shas_without.deep_view() == commits_without_log(cv.take(i as int)).map_values(
                |p: (Seq<char>, Seq<char>)| p.0,
            ),
        decreases commit_authorship.len() - i,
    {
        proof {
            lemma_take_next(cv, i as int);
        }
        match &commit_authorship[i] {
            CommitAuthorship::Log { git_author, authorship_log, .. } => {
                with_log += 1;
                if ai_line_count(authorship_log) > 0 {
                    with_ai += 1;
                }
                push_once(&mut authors_with, git_author);
            },
            CommitAuthorship::NoLog { sha, git_author } => {
                push_once(&mut authors_without, git_author);
                let ghost shas_before = shas_without;
                let ghost pairs_before = pairs_without;
                let s = sha.clone();
                let pair = (sha.clone(), git_author.clone());
                shas_without.push(s);
                pairs_without.push(pair);
                proof {
                    lemma_deep_view_push(shas_before, shas_without, s);
                    lemma_deep_view_push(pairs_before, pairs_without, pair);
                    assert(shas_without.deep_view() =~= commits_without_log(
                        cv.take(i + 1),
                    ).map_values(|p: (Seq<char>, Seq<char>)| p.0));
                }
            },
        }
        i += 1;
    }
    proof {
        lemma_take_all(cv);
        lemma_authorship_data_well_formed(cv);
    }
    RangeAuthorshipStatsData {
        total_commits: commit_authorship.len(),
        commits_with_authorship: with_log,
        commits_with_ai_authorship: with_ai,
        authors_commiting_authorship: authors_with,
        authors_not_commiting_authorship: authors_without,
        commits_without_authorship: shas_without,
        commits_without_authorship_with_authors: pairs_without,
    }
}

// ---------------------------------------------------------------------------
// The log of a range
// ---------------------------------------------------------------------------
/// The log without attestation and without prompt that is based on `sha`.
pub open spec fn empty_log(sha: Seq<char>) -> AuthorshipLogView {
    AuthorshipLogView {
        attestations: Seq::empty(),
        metadata: AuthorshipMetadataView {
            schema_version: schema_version(),
            git_ai_version: Some(tool_version()),
            base_commit_sha: sha,
            prompts: Seq::empty(),
        },
    }
}

/// The log of a range as if it were one commit. Where no file changed it is
/// empty. Otherwise the attribution as of the start is carried forward across
/// the diff of the range, both attributions are restricted to the commits of
/// the range, and they are merged over the committed text, the newer end
/// preferred. Either way the log is based on the end of the range.
pub open spec fn create_authorship_log_for_range_spec(
    end_sha: Seq<char>,
    changed_files: Seq<Seq<char>>,
    start_va: VirtualAttributionsView,
    end_va: VirtualAttributionsView,
    commit_shas: Seq<Seq<char>>,
    hunks: Seq<DiffHunkView>,
    committed_files: Seq<(Seq<char>, Seq<char>)>,
) -> AuthorshipLogView {
    if changed_files.len() == 0 {
        empty_log(end_sha)
    } else {
        let merged = merge_attributions_favoring_first_spec(
            filter_to_commits_spec(end_va, commit_shas),
            filter_to_commits_spec(
                carried_forward_spec(start_va, hunks, committed_files),
                commit_shas,
            ),
            committed_files,
        );
        let log = to_authorship_log_spec(merged);
        AuthorshipLogView {
            attestations: log.attestations,
            metadata: AuthorshipMetadataView { base_commit_sha: end_sha, ..log.metadata },
        }
    }
}

/// Builds the log of a range from the attributions as of its two ends, the
/// hunks of the zero-context diff from its start to its end, and the
/// committed text of the changed files.
pub fn create_authorship_log_for_range(
    end_sha: &str,
    changed_files: &[String],
    start_va: VirtualAttributions,
    end_va: VirtualAttributions,
    commit_shas: &[String],
    hunks: &[DiffHunk],
    committed_files: &Vec<(String, String)>,
) -> (log: AuthorshipLog)
    ensures
        log@ == create_authorship_log_for_range_spec(
            end_sha@,
            changed_files.deep_view(),
            start_va@,
            end_va@,
            commit_shas.deep_view(),
            hunks.deep_view(),
            committed_files.deep_view(),
        ),
        log@.metadata.base_commit_sha == end_sha@,
        changed_files@.len() == 0 ==> log@.attestations.len() == 0,
        start_va@.well_formed() && end_va@.well_formed() && distinct_paths(
            committed_paths(committed_files.deep_view()),
        ) ==> log@.well_formed(),
{
    if changed_files.len() == 0 {
        let attestations: Vec<FileAttestation> = Vec::new();
        let prompts: Vec<PromptRecord> = Vec::new();
        proof {
            lemma_deep_view_empty(attestations);
            lemma_deep_view_empty(prompts);
        }
        return AuthorshipLog {
            attestations,
            metadata: AuthorshipMetadata {
                schema_version: current_schema_version(),
                git_ai_version: Some(current_tool_version()),
                base_commit_sha: end_sha.to_owned(),
                prompts,
            },
        };
    }
    let mut start_va = start_va.carried_forward(hunks, committed_files);
    let mut end_va = end_va;
    start_va.filter_to_commits(commit_shas);
    end_va.filter_to_commits(commit_shas);
    let merged = merge_attributions_favoring_first(end_va, start_va, committed_files.as_slice());
    let mut log = merged.to_authorship_log();
    log.metadata.base_commit_sha = end_sha.to_owned();
    log
}

// ---------------------------------------------------------------------------
// The counts of a range
// ---------------------------------------------------------------------------
/// The counts of one commit: what its stored log, if it has one, and the
/// numeric summary of its diff give.
pub open spec fn stats_for_commit_stats_spec(log: Option<AuthorshipLogView>, numstat: Seq<u8>)
    -> Result<CommitStats, GitAiErrorView> {
    match get_git_diff_stats_for_range_spec(numstat) {
        Ok((added, deleted)) => Ok(stats_from_authorship_log_spec(log, added, deleted)),
        Err(e) => Err(e),
    }
}

/// The counts of one commit.
pub fn stats_for_commit_stats(log: Option<&AuthorshipLog>, numstat: &[u8]) -> (r: Result<
    CommitStats,
    GitAiError,
>)
    ensures
        match stats_for_commit_stats_spec(log.deep_view(), numstat@) {
            Ok(s) => r == Ok::<CommitStats, GitAiError>(s),
            Err(e) => r matches Err(x) && x@ == e,
        },
{
    match get_git_diff_stats_for_range(numstat) {
        Ok((added, deleted)) => Ok(stats_from_authorship_log(log, added, deleted)),
        Err(e) => Err(e),
    }
}

/// What has to be read before the counts of a range can be had.
#[derive(Debug, Clone, PartialEq, Eq)]
pub enum RangeStatsPlan {
    /// The two ends are one commit: its stored log and the summary of its
    /// diff against its parent.
    SingleCommit(String),
    /// The summary and the hunks of the diff between the two ends, the files
    /// that changed, the attributions as of both ends and the committed text.
    Reconstruct { start: String, end: String },
}

/// What was read for the counts of a range.
pub enum RangeStatsData {
    SingleCommit { log: Option<AuthorshipLog>, numstat: Vec<u8> },
    Reconstruct {
        numstat: Vec<u8>,
        changed_files: Vec<String>,
        start_va: VirtualAttributions,
        end_va: VirtualAttributions,
        hunks: Vec<DiffHunk>,
        committed_files: Vec<(String, String)>,
    },
}

/// The mathematical value of a [`RangeStatsData`].
pub enum RangeStatsDataView {
    SingleCommit { log: Option<AuthorshipLogView>, numstat: Seq<u8> },
    Reconstruct {
        numstat: Seq<u8>,
        changed_files: Seq<Seq<char>>,
        start_va: VirtualAttributionsView,
        end_va: VirtualAttributionsView,
        hunks: Seq<DiffHunkView>,
        committed_files: Seq<(Seq<char>, Seq<char>)>,
    },
}

impl View for RangeStatsData {
    type V = RangeStatsDataView;

    open spec fn view(&self) -> RangeStatsDataView {
        match self {
            RangeStatsData::SingleCommit { log, numstat } => RangeStatsDataView::SingleCommit {
                log: log.deep_view(),
                numstat: numstat@,
            },
            RangeStatsData::Reconstruct {
                numstat,
                changed_files,
                start_va,
                end_va,
                hunks,
                committed_files,
            } => RangeStatsDataView::Reconstruct {
                numstat: numstat@,
                changed_files: changed_files.deep_view(),
                start_va: start_va@,
                end_va: end_va@,
                hunks: hunks.deep_view(),
                committed_files: committed_files.deep_view(),
            },
        }
    }
}

/// Whether the two ends of a range are one commit.
pub open spec fn is_single_commit(range: CommitRangeView) -> bool {
    range.start_oid == range.end_oid
}

/// Says what has to be read for the counts of `range`.
pub fn plan_range_stats(range: &CommitRange) -> (plan: RangeStatsPlan)
    ensures
        is_single_commit(range@) ==> (plan matches RangeStatsPlan::SingleCommit(sha) && sha@
            == range@.end_oid),
        !is_single_commit(range@) ==> (plan matches RangeStatsPlan::Reconstruct { start, end }
            && start@ == range@.start_oid && end@ == range@.end_oid),
{
    if range.start_oid == range.end_oid {
        RangeStatsPlan::SingleCommit(range.end_oid.clone())
    } else {
        RangeStatsPlan::Reconstruct {
            start: range.start_oid.clone(),
            end: range.end_oid.clone(),
        }
    }
}

/// The message for data that was read for another kind of range.
pub open spec fn wrong_data_message() -> Seq<char> {
    "The data read does not belong to this range"@
}

/// The counts of a range. A range of one commit has the counts of that
/// commit. Any other range has the totals of the diff between its ends and,
/// of the added lines, as many AI's as the log of the range attributes to AI.
/// Data of the wrong kind is an error.
pub open spec fn calculate_range_stats_direct_spec(range: CommitRangeView, data: RangeStatsDataView)
    -> Result<CommitStats, GitAiErrorView> {
    match data {
        RangeStatsDataView::SingleCommit { log, numstat } => if is_single_commit(range) {
            stats_for_commit_stats_spec(log, numstat)
        } else {
            Err(GitAiErrorView::Generic(wrong_data_message()))
        },
        RangeStatsDataView::Reconstruct {
            numstat,
            changed_files,
            start_va,
            end_va,
            hunks,
            committed_files,
        } => if is_single_commit(range) {
            Err(GitAiErrorView::Generic(wrong_data_message()))
        } else {
            match get_git_diff_stats_for_range_spec(numstat) {
                Err(e) => Err(e),
                Ok((added, deleted)) => Ok(
                    stats_from_authorship_log_spec(
                        Some(
                            create_authorship_log_for_range_spec(
                                range.end_oid,
                                changed_files,
                                start_va,
                                end_va,
                                range.commits,
                                hunks,
                                committed_files,
                            ),
                        ),
                        added,
                        deleted,
                    ),
                ),
            }
        },
    }
}

/// Computes the counts of a range from what was read for it.
pub fn calculate_range_stats_direct(range: &CommitRange, data: RangeStatsData) -> (r: Result<
    CommitStats,
    GitAiError,
>)
    ensures
        match calculate_range_stats_direct_spec(range@, data@) {
            Ok(s) => r == Ok::<CommitStats, GitAiError>(s),
            Err(e) => r matches Err(x) && x@ == e,
        },
{
    let single = range.start_oid == range.end_oid;
    match data {
        RangeStatsData::SingleCommit { log, numstat } => {
            if single {
                stats_for_commit_stats(log.as_ref(), numstat.as_slice())
            } else {
                Err(GitAiError::Generic("The data read does not belong to this range".to_owned()))
            }
        },
        RangeStatsData::Reconstruct {
            numstat,
            changed_files,
            start_va,
            end_va,
            hunks,
            committed_files,
        } => {
            if single {
                Err(GitAiError::Generic("The data read does not belong to this range".to_owned()))
            } else {
                match get_git_diff_stats_for_range(numstat.as_slice()) {
                    Err(e) => Err(e),
                    Ok((added, deleted)) => {
                        let log = create_authorship_log_for_range(
                            range.end_oid.as_str(),
                            changed_files.as_slice(),
                            start_va,
                            end_va,
                            range.commits.as_slice(),
                            hunks.as_slice(),
                            &committed_files,
                        );
                        Ok(stats_from_authorship_log(Some(&log), added, deleted))
                    },
                }
            }
        },
    }
}

/// The counts of a range whose two ends are one commit are the counts of
/// that commit.
pub proof fn lemma_single_commit_range_stats(
    range: CommitRangeView,
    log: Option<AuthorshipLogView>,
    numstat: Seq<u8>,
)
    requires
        range.start_oid == range.end_oid,
    ensures
        calculate_range_stats_direct_spec(
            range,
            RangeStatsDataView::SingleCommit { log, numstat },
        ) == stats_for_commit_stats_spec(log, numstat),
{
}

/// Where no file changed between the ends of a range, the log of the range
/// has no attestation and is based on the end.
pub proof fn lemma_unchanged_range_log(
    end_sha: Seq<char>,
    start_va: VirtualAttributionsView,
    end_va: VirtualAttributionsView,
    commit_shas: Seq<Seq<char>>,
    hunks: Seq<DiffHunkView>,
    committed_files: Seq<(Seq<char>, Seq<char>)>,
)
    ensures
        ({
            let log = create_authorship_log_for_range_spec(
                end_sha,
                Seq::empty(),
                start_va,
                end_va,
                commit_shas,
                hunks,
                committed_files,
            );
            log.attestations.len() == 0 && log.metadata.base_commit_sha == end_sha
        }),
{
}

} // verus!
