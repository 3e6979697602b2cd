//! The authorship of a range as a conversation with the version-control
//! system: the range is checked, its branch is fetched if that is asked for,
//! the logs of its commits are read and its counts are computed. The caller
//! does the reading; what to do next and what to make of it is decided here.

use crate::authorship_log::{CommitAuthorship, CommitAuthorshipView};
use crate::error::{GitAiError, GitAiErrorView};
use crate::range_authorship::{
    authorship_data, authorship_data_spec, fetch_failure, fetch_failure_message, fetch_target,
    fetch_target_spec, CommitRange, CommitRangeView, RangeAuthorshipStats,
    RangeAuthorshipStatsView,
};
use crate::sequences::{
    lemma_deep_view_empty, lemma_deep_view_push, lemma_take_all, lemma_take_next,
};
use crate::stats::CommitStats;
use crate::virtual_attribution::{committed_paths, distinct_paths};
use vstd::prelude::*;
use vstd::string::*;
use vstd::utf8::*;

verus! {

// ---------------------------------------------------------------------------
// Bytes that may be no text
// ---------------------------------------------------------------------------
/// The text that `String::from_utf8_lossy` makes of bytes: the text itself
/// where the bytes are UTF-8, and else a text in which the replacement
/// character stands for what is not.
pub uninterp spec fn utf8_lossy(bytes: Seq<u8>) -> Seq<char>;

/// Calls `String::from_utf8_lossy` and owns the result. The contract names
/// the result and says, as the documentation does, that well-formed UTF-8 is
/// taken over as it is.
#[verifier::external_body]
fn lossy_text(bytes: &[u8]) -> (s: String)
    ensures
        s@ == utf8_lossy(bytes@),
        valid_utf8(bytes@) ==> s@ == decode_utf8(bytes@),
{
    String::from_utf8_lossy(bytes).into_owned()
}

// ---------------------------------------------------------------------------
// The committed text
// ---------------------------------------------------------------------------
/// The plain values of paths and of what was read for them.
pub open spec fn read_files(files: Seq<(String, Option<Vec<u8>>)>) -> Seq<
    (Seq<char>, Option<Seq<u8>>),
> {
    files.map_values(
        |f: (String, Option<Vec<u8>>)|
            (
                f.0@,
                match f.1 {
                    Some(b) => Some(b@),
                    None => None,
                },
            ),
    )
}

/// The first place at or after `i` at which `held` holds the path `path`.
pub open spec fn path_index_from(held: Seq<(Seq<char>, Seq<char>)>, path: Seq<char>, i: int)
    -> Option<int>
    decreases held.len() - i,
{
    if i < 0 || i >= held.len() {
        None
    } else if held[i].0 == path {
        Some(i)
    } else {
        path_index_from(held, path, i + 1)
    }
}

/// `held` with the text `text` for `path`: in the place of the text that was
/// held for the path, or behind all others where none was.
pub open spec fn with_text(held: Seq<(Seq<char>, Seq<char>)>, path: Seq<char>, text: Seq<char>)
    -> Seq<(Seq<char>, Seq<char>)> {
    match path_index_from(held, path, 0) {
        Some(k) => held.update(k, (path, text)),
        None => held.push((path, text)),
    }
}

/// The committed text of the files that could be read: a file that is absent
/// from the commit, or whose content is missing, is left out. Every path is
/// held once, with the text that was read for it last, where it first came.
pub open spec fn get_committed_files_content_spec(files: Seq<(Seq<char>, Option<Seq<u8>>)>) -> Seq<
    (Seq<char>, Seq<char>),
>
    decreases files.len(),
{
    if files.len() == 0 {
        Seq::empty()
    } else {
        let rest = get_committed_files_content_spec(files.drop_last());
        match files.last().1 {
            Some(bytes) => with_text(rest, files.last().0, utf8_lossy(bytes)),
            None => rest,
        }
    }
}

proof fn lemma_path_index_from(held: Seq<(Seq<char>, Seq<char>)>, path: Seq<char>, i: int)
    requires
        0 <= i,
    ensures
        match path_index_from(held, path, i) {
            Some(k) => i <= k < held.len() && held[k].0 == path,
            None => forall|j: int| i <= j < held.len() ==> (#[trigger] held[j]).0 != path,
        },
    decreases held.len() - i,
{
    if i < held.len() && held[i].0 != path {
        lemma_path_index_from(held, path, i + 1);
    }
}

/// No path is held twice in the committed text.
pub proof fn lemma_committed_paths_are_distinct(files: Seq<(Seq<char>, Option<Seq<u8>>)>)
    ensures
        distinct_paths(committed_paths(get_committed_files_content_spec(files))),
    decreases files.len(),
{
    if files.len() > 0 {
        lemma_committed_paths_are_distinct(files.drop_last());
        let rest = get_committed_files_content_spec(files.drop_last());
        match files.last().1 {
            Some(bytes) => {
                let path = files.last().0;
                let text = utf8_lossy(bytes);
                lemma_path_index_from(rest, path, 0);
                let now = with_text(rest, path, text);
                let before = committed_paths(rest);
                let after = committed_paths(now);
                assert forall|a: int, b: int| 0 <= a < b < after.len() implies #[trigger] after[a]
                    != #[trigger] after[b] by {
                    match path_index_from(rest, path, 0) {
                        Some(k) => {
                            assert(after[a] == before[a]);
                            assert(after[b] == before[b]);
                        },
                        None => {
                            assert(after[a] == before[a]);
                            if b < rest.len() {
                                assert(after[b] == before[b]);
                            } else {
                                assert(rest[a].0 != path);
                            }
                        },
                    }
                }
            },
            None => {},
        }
    }
}

fn find_path(held: &Vec<(String, String)>, path: &String) -> (r: Option<usize>)
    ensures
        match r {
            Some(k) => path_index_from(held.deep_view(), path@, 0) == Some(k as int) && k
                < held.len(),
            None => path_index_from(held.deep_view(), path@, 0) is None,
        },
{
    let ghost hv = held.deep_view();
    let mut i: usize = 0;
    while i < held.len()
        invariant
            0 <= i <= held.len(),
            hv == held.deep_view(),
            path_index_from(hv, path@, 0) == path_index_from(hv, path@, i as int),
        decreases held.len() - i,
    {
        assert(hv[i as int] == held@[i as int].deep_view());
        if held[i].0 == *path {
            return Some(i);
        }
        i += 1;
    }
    None
}

/// Makes the committed text of the changed files from what was read for each
/// path: the bytes of the file as of the commit, or nothing where the commit
/// has no such file. No path is held twice in what is made.
pub fn get_committed_files_content(files: &[(String, Option<Vec<u8>>)]) -> (r: Vec<
    (String, String),
>)
    ensures
        r.deep_view() == get_committed_files_content_spec(read_files(files@)),
        distinct_paths(committed_paths(r.deep_view())),
{
    let ghost fv = read_files(files@);
    let mut r: Vec<(String, String)> = Vec::new();
    let mut i: usize = 0;
    proof {
        lemma_deep_view_empty(r);
        assert(fv.take(0) =~= Seq::<(Seq<char>, Option<Seq<u8>>)>::empty());
    }
    while i < files.len()
        invariant
            0 <= i <= files.len(),
            fv == read_files(files@),
            r.deep_view() == get_committed_files_content_spec(fv.take(i as int)),
        decreases files.len() - i,
    {
        proof {
            lemma_take_next(fv, i as int);
        }
        match &files[i].1 {
            Some(bytes) => {
                let item = (files[i].0.clone(), lossy_text(bytes.as_slice()));
                let ghost before = r;
                match find_path(&r, &files[i].0) {
                    Some(k) => {
                        r.set(k, item);
                        assert(r.deep_view() =~= before.deep_view().update(
                            k as int,
                            item.deep_view(),
                        ));
                    },
                    None => {
                        r.push(item);
                        proof {
                            lemma_deep_view_push(before, r, item);
                        }
                    },
                }
            },
            None => {},
        }
        i += 1;
    }
    proof {
        lemma_take_all(fv);
        lemma_committed_paths_are_distinct(fv);
    }
    r
}

// ---------------------------------------------------------------------------
// The work on a range
// ---------------------------------------------------------------------------
/// How far the work on a range has come.
#[derive(Debug, Clone, Copy, PartialEq, Eq, Structural)]
pub enum RangePhase {
    Start,
    Validating,
    FindingRemote,
    Fetching,
    LoadingAuthorship,
    ComputingStats,
    Finished,
}

/// The work on a range.
pub struct RangeJob {
    pub phase: RangePhase,
    pub commit_range: CommitRange,
    /// Whether the branch of the range is fetched first.
    pub pre_fetch_contents: bool,
    /// The remote that is fetched from.
    pub remote: String,
    /// The refspec that is fetched.
    pub refspec: String,
    /// What is stored for the commits of the range, once it was read.
    pub commit_authorship: Vec<CommitAuthorship>,
}

/// The mathematical value of a [`RangeJob`].
pub struct RangeJobView {
    pub phase: RangePhase,
    pub commit_range: CommitRangeView,
    pub pre_fetch_contents: bool,
    pub remote: Seq<char>,
    pub refspec: Seq<char>,
    pub commit_authorship: Seq<CommitAuthorshipView>,
}

impl View for RangeJob {
    type V = RangeJobView;

    open spec fn view(&self) -> RangeJobView {
        RangeJobView {
            phase: self.phase,
            commit_range: self.commit_range@,
            pre_fetch_contents: self.pre_fetch_contents,
            remote: self.remote@,
            refspec: self.refspec@,
            commit_authorship: self.commit_authorship.deep_view(),
        }
    }
}

/// What happened since the last step.
pub enum RangeEvent {
    /// The authorship of the range was asked for.
    Begin,
    /// The range was checked: it is an ancestry interval, or why it is none.
    Validated(Result<(), GitAiError>),
    /// The default remote of the repository, if it has one.
    DefaultRemote(Result<Option<String>, GitAiError>),
    /// The fetch ran: whether it succeeded, and what it wrote as errors.
    Fetched(Result<(bool, Vec<u8>), GitAiError>),
    /// What is stored for the commits of the range.
    Authorship(Result<Vec<CommitAuthorship>, GitAiError>),
    /// The counts of the range.
    Stats(Result<CommitStats, GitAiError>),
}

/// The mathematical value of a [`RangeEvent`].
pub enum RangeEventView {
    Begin,
    Validated(Result<(), GitAiErrorView>),
    DefaultRemote(Result<Option<Seq<char>>, GitAiErrorView>),
    Fetched(Result<(bool, Seq<u8>), GitAiErrorView>),
    Authorship(Result<Seq<CommitAuthorshipView>, GitAiErrorView>),
    Stats(Result<CommitStats, GitAiErrorView>),
}

impl View for RangeEvent {
    type V = RangeEventView;

    open spec fn view(&self) -> RangeEventView {
        match self {
            RangeEvent::Begin => RangeEventView::Begin,
            RangeEvent::Validated(r) => RangeEventView::Validated(
                match r {
                    Ok(_) => Ok(()),
                    Err(e) => Err(e@),
                },
            ),
            RangeEvent::DefaultRemote(r) => RangeEventView::DefaultRemote(
                match r {
                    Ok(Some(name)) => Ok(Some(name@)),
                    Ok(None) => Ok(None),
                    Err(e) => Err(e@),
                },
            ),
            RangeEvent::Fetched(r) => RangeEventView::Fetched(
                match r {
                    Ok((success, stderr)) => Ok((*success, stderr@)),
                    Err(e) => Err(e@),
                },
            ),
            RangeEvent::Authorship(r) => RangeEventView::Authorship(
                match r {
                    Ok(list) => Ok(list.deep_view()),
                    Err(e) => Err(e@),
                },
            ),
            RangeEvent::Stats(r) => RangeEventView::Stats(
                match r {
                    Ok(stats) => Ok(*stats),
                    Err(e) => Err(e@),
                },
            ),
        }
    }
}

/// What the caller does next.
#[derive(Debug, Clone, PartialEq, Eq)]
pub enum RangeAction {
    /// Check that the range is an ancestry interval.
    Validate,
    /// Find the default remote of the repository.
    FindDefaultRemote,
    /// Fetch the refspec from the remote.
    Fetch { remote: String, refspec: String },
    /// Read what is stored for these commits.
    LoadAuthorship(Vec<String>),
    /// Compute the counts of the range.
    ComputeStats,
    /// The result: the work is done.
    Finish(RangeAuthorshipStats),
    /// Report the error: the work is over.
    Fail(GitAiError),
}

/// The mathematical value of a [`RangeAction`].
pub enum RangeActionView {
    Validate,
    FindDefaultRemote,
    Fetch { remote: Seq<char>, refspec: Seq<char> },
    LoadAuthorship(Seq<Seq<char>>),
    ComputeStats,
    Finish(RangeAuthorshipStatsView),
    Fail(GitAiErrorView),
}

impl View for RangeAction {
    type V = RangeActionView;

    open spec fn view(&self) -> RangeActionView {
        match self {
            RangeAction::Validate => RangeActionView::Validate,
            RangeAction::FindDefaultRemote => RangeActionView::FindDefaultRemote,
            RangeAction::Fetch { remote, refspec } => RangeActionView::Fetch {
                remote: remote@,
                refspec: refspec@,
            },
            RangeAction::LoadAuthorship(commits) => RangeActionView::LoadAuthorship(
                commits.deep_view(),
            ),
            RangeAction::ComputeStats => RangeActionView::ComputeStats,
            RangeAction::Finish(stats) => RangeActionView::Finish(stats@),
            RangeAction::Fail(e) => RangeActionView::Fail(e@),
        }
    }
}

/// The end of the work with an error.
pub open spec fn range_failed(job: RangeJobView, e: GitAiErrorView) -> (
    RangeJobView,
    RangeActionView,
) {
    (RangeJobView { phase: RangePhase::Finished, ..job }, RangeActionView::Fail(e))
}

/// The step that asks for what is stored for the commits of the range.
pub open spec fn ask_authorship(job: RangeJobView) -> (RangeJobView, RangeActionView) {
    (
        RangeJobView { phase: RangePhase::LoadingAuthorship, ..job },
        RangeActionView::LoadAuthorship(job.commit_range.commits),
    )
}

/// The name of the remote that is used where the repository has no default.
pub open spec fn fallback_remote() -> Seq<char> {
    "origin"@
}

/// The step that asks for the fetch, once the default remote is known.
pub open spec fn ask_fetch(job: RangeJobView, default_remote: Option<Seq<char>>) -> (
    RangeJobView,
    RangeActionView,
) {
    let (remote, refspec) = fetch_target_spec(
        job.commit_range.refname,
        match default_remote {
            Some(name) => name,
            None => fallback_remote(),
        },
    );
    (
        RangeJobView { phase: RangePhase::Fetching, remote, refspec, ..job },
        RangeActionView::Fetch { remote, refspec },
    )
}

/// The message for an event that does not answer what was asked for.
pub open spec fn unexpected_range_event_message() -> Seq<char> {
    "Unexpected event for the current step"@
}

/// The next state and the next action of the work on a range.
///
/// The range is checked first, and a range that is no ancestry interval is an
/// error. If the branch is to be fetched, the default remote is found, the
/// remote and the refspec are derived from the name of the reference, and a
/// fetch that fails is an error that names them and what the fetch wrote.
/// Then what is stored for the commits is read, then the counts are computed,
/// and the result says which commits carry a log and holds the counts. An
/// error of the caller, and an event that does not answer what was asked for,
/// end the work with an error.
pub open spec fn range_authorship_spec(job: RangeJobView, event: RangeEventView) -> (
    RangeJobView,
    RangeActionView,
) {
    match (job.phase, event) {
        (RangePhase::Start, RangeEventView::Begin) => (
            RangeJobView { phase: RangePhase::Validating, ..job },
            RangeActionView::Validate,
        ),
        (RangePhase::Validating, RangeEventView::Validated(Err(e))) => range_failed(job, e),
        (RangePhase::Validating, RangeEventView::Validated(Ok(_))) => if job.pre_fetch_contents {
            (
                RangeJobView { phase: RangePhase::FindingRemote, ..job },
                RangeActionView::FindDefaultRemote,
            )
        } else {
            ask_authorship(job)
        },
        (RangePhase::FindingRemote, RangeEventView::DefaultRemote(Err(e))) => range_failed(job, e),
        (RangePhase::FindingRemote, RangeEventView::DefaultRemote(Ok(name))) => ask_fetch(
            job,
            name,
        ),
        (RangePhase::Fetching, RangeEventView::Fetched(Err(e))) => range_failed(job, e),
        (RangePhase::Fetching, RangeEventView::Fetched(Ok((success, stderr)))) => if success {
            ask_authorship(job)
        } else {
            range_failed(
                job,
                GitAiErrorView::Generic(
                    fetch_failure_message(job.refspec, job.remote, utf8_lossy(stderr)),
                ),
            )
        },
        (RangePhase::LoadingAuthorship, RangeEventView::Authorship(Err(e))) => range_failed(
            job,
            e,
        ),
        (RangePhase::LoadingAuthorship, RangeEventView::Authorship(Ok(list))) => (
            RangeJobView { phase: RangePhase::ComputingStats, commit_authorship: list, ..job },
            RangeActionView::ComputeStats,
        ),
        (RangePhase::ComputingStats, RangeEventView::Stats(Err(e))) => range_failed(job, e),
        (RangePhase::ComputingStats, RangeEventView::Stats(Ok(stats))) => (
            RangeJobView { phase: RangePhase::Finished, ..job },
            RangeActionView::Finish(
                RangeAuthorshipStatsView {
                    authorship_stats: authorship_data_spec(job.commit_authorship),
                    range_stats: stats,
                },
            ),
        ),
        _ => range_failed(job, GitAiErrorView::Generic(unexpected_range_event_message())),
    }
}

fn copy_texts(items: &Vec<String>) -> (r: Vec<String>)
    ensures
        r.deep_view() == items.deep_view(),
{
    let ghost iv = items.deep_view();
    let mut r: Vec<String> = Vec::new();
    let mut i: usize = 0;
    proof {
        lemma_deep_view_empty(r);
        assert(iv.take(0) =~= Seq::<Seq<char>>::empty());
    }
    while i < items.len()
        invariant
            0 <= i <= items.len(),
            iv == items.deep_view(),
            r.deep_view() == iv.take(i as int),
        decreases items.len() - i,
    {
        let item = items[i].clone();
        let ghost before = r;
        r.push(item);
        proof {
            lemma_deep_view_push(before, r, item);
            lemma_take_next(iv, i as int);
        }
        i += 1;
    }
    proof {
        lemma_take_all(iv);
    }
    r
}

impl RangeJob {
    /// The work on `commit_range` before anything was asked for.
    pub fn new(commit_range: CommitRange, pre_fetch_contents: bool) -> (job: RangeJob)
        ensures
            job@ == (RangeJobView {
                phase: RangePhase::Start,
                commit_range: commit_range@,
                pre_fetch_contents,
                remote: Seq::empty(),
                refspec: Seq::empty(),
                commit_authorship: Seq::empty(),
            }),
    {
        let commit_authorship: Vec<CommitAuthorship> = Vec::new();
        proof {
            lemma_deep_view_empty(commit_authorship);
        }
        RangeJob {
            phase: RangePhase::Start,
            commit_range,
            pre_fetch_contents,
            remote: String::new(),
            refspec: String::new(),
            commit_authorship,
        }
    }

    fn fail(&mut self, e: GitAiError) -> (action: RangeAction)
        ensures
            (final(self)@, action@) == range_failed(old(self)@, e@),
    {
        self.phase = RangePhase::Finished;
        RangeAction::Fail(e)
    }

    fn authorship(&mut self) -> (action: RangeAction)
        ensures
            (final(self)@, action@) == ask_authorship(old(self)@),
    {
        self.phase = RangePhase::LoadingAuthorship;
        RangeAction::LoadAuthorship(copy_texts(&self.commit_range.commits))
    }

    fn fetch(&mut self, default_remote: Option<String>) -> (action: RangeAction)
        ensures
            (final(self)@, action@) == ask_fetch(
                old(self)@,
                match default_remote {
                    Some(name) => Some(name@),
                    None => None,
                },
            ),
    {
        let name = match default_remote {
            Some(name) => name,
            None => "origin".to_owned(),
        };
        let (remote, refspec) = fetch_target(self.commit_range.refname.as_str(), name.as_str());
        self.phase = RangePhase::Fetching;
        self.remote = remote.clone();
        self.refspec = refspec.clone();
        RangeAction::Fetch { remote, refspec }
    }
}

/// Takes the work on the authorship of a range one step further: from what
/// happened to what the caller does next.
pub fn range_authorship(job: &mut RangeJob, event: RangeEvent) -> (action: RangeAction)
    ensures
        (final(job)@, action@) == range_authorship_spec(old(job)@, event@),
{
    match job.phase {
        RangePhase::Start => match event {
            RangeEvent::Begin => {
                job.phase = RangePhase::Validating;
                RangeAction::Validate
            },
            _ => job.fail(GitAiError::Generic("Unexpected event for the current step".to_owned())),
        },
        RangePhase::Validating => match event {
            RangeEvent::Validated(Err(e)) => job.fail(e),
            RangeEvent::Validated(Ok(_)) => {
                if job.pre_fetch_contents {
                    job.phase = RangePhase::FindingRemote;
                    RangeAction::FindDefaultRemote
                } else {
                    job.authorship()
                }
            },
            _ => job.fail(GitAiError::Generic("Unexpected event for the current step".to_owned())),
        },
        RangePhase::FindingRemote => match event {
            RangeEvent::DefaultRemote(Err(e)) => job.fail(e),
            RangeEvent::DefaultRemote(Ok(name)) => job.fetch(name),
            _ => job.fail(GitAiError::Generic("Unexpected event for the current step".to_owned())),
        },
        RangePhase::Fetching => match event {
            RangeEvent::Fetched(Err(e)) => job.fail(e),
            RangeEvent::Fetched(Ok((success, stderr))) => {
                if success {
                    job.authorship()
                } else {
                    let said = lossy_text(stderr.as_slice());
                    let e = fetch_failure(job.refspec.as_str(), job.remote.as_str(), said.as_str());
                    job.fail(e)
                }
            },
            _ => job.fail(GitAiError::Generic("Unexpected event for the current step".to_owned())),
        },
        RangePhase::LoadingAuthorship => match event {
            RangeEvent::Authorship(Err(e)) => job.fail(e),
            RangeEvent::Authorship(Ok(list)) => {
                job.commit_authorship = list;
                job.phase = RangePhase::ComputingStats;
                RangeAction::ComputeStats
            },
            _ => job.fail(GitAiError::Generic("Unexpected event for the current step".to_owned())),
        },
        RangePhase::ComputingStats => match event {
            RangeEvent::Stats(Err(e)) => job.fail(e),
            RangeEvent::Stats(Ok(stats)) => {
                let data = authorship_data(job.commit_authorship.as_slice());
                job.phase = RangePhase::Finished;
                RangeAction::Finish(
                    RangeAuthorshipStats { authorship_stats: data, range_stats: stats },
                )
            },
            _ => job.fail(GitAiError::Generic("Unexpected event for the current step".to_owned())),
        },
        RangePhase::Finished => job.fail(
            GitAiError::Generic("Unexpected event for the current step".to_owned()),
        ),
    }
}

// ---------------------------------------------------------------------------
// Laws of the steps
// ---------------------------------------------------------------------------
/// How far a phase is from the start of the work.
pub open spec fn range_phase_rank(phase: RangePhase) -> nat {
    match phase {
        RangePhase::Start => 0,
        RangePhase::Validating => 1,
        RangePhase::FindingRemote => 2,
        RangePhase::Fetching => 3,
        RangePhase::LoadingAuthorship => 4,
        RangePhase::ComputingStats => 5,
        RangePhase::Finished => 6,
    }
}

/// Every step takes the work further, so nothing is asked for twice.
pub proof fn lemma_range_authorship_advances(job: RangeJobView, event: RangeEventView)
    requires
        job.phase != RangePhase::Finished,
    ensures
        range_phase_rank(range_authorship_spec(job, event).0.phase) > range_phase_rank(job.phase),
{
}

/// Nothing is fetched unless it was asked for, and nothing is read of a
/// range that was found to be no ancestry interval.
pub proof fn lemma_range_is_checked_first(job: RangeJobView, event: RangeEventView)
    ensures
        ({
            let (next, action) = range_authorship_spec(job, event);
            &&& action is FindDefaultRemote ==> job.pre_fetch_contents
            &&& job.phase == RangePhase::Validating ==> (event matches RangeEventView::Validated(
                Err(e),
            ) ==> action == RangeActionView::Fail(e) && next.phase == RangePhase::Finished)
        }),
{
}

} // verus!
