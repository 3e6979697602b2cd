//! The annotated diff as a conversation with the version-control system:
//! what to run, what to make of its output, and what to show in the end. The
//! caller runs the commands and reads the logs; every decision is made here.

use crate::annotate::{annotate_diff, annotate_diff_spec, AnnotatedLine, AnnotatedLineView};
use crate::authorship_log::{
    files_lookup, find_prompt, lookup_in_files, prompts_lookup, AttributionRef,
    AttributionRefView, AuthorshipLog, AuthorshipLogView, PromptCache, PromptRecordView,
};
use crate::diff::{
    get_diff_with_line_numbers, get_diff_with_line_numbers_spec, DiffHunk, DiffHunkView, DiffSpec,
    DiffSpecView,
};
use crate::error::{not_text, not_text_message, GitAiError, GitAiErrorView};
use crate::overlay::{
    any_added_lines, any_deleted_lines, needs_new_log, needs_old_log, overlay_diff_attributions,
    overlay_map,
};
use crate::sequences::{
    lemma_deep_view_empty, lemma_deep_view_push, lemma_take_all, lemma_take_next, with_once,
};
use crate::text::{
    contains_text, decode_text, string_of, to_chars, trim, trimmed, utf8_error_text, utf8_failure,
};
use vstd::prelude::*;
use vstd::string::*;
use vstd::utf8::*;

verus! {

// ---------------------------------------------------------------------------
// Command lines
// ---------------------------------------------------------------------------
/// The arguments `global_args` followed by `extra`.
pub fn with_arguments(global_args: &[String], extra: Vec<String>) -> (args: Vec<String>)
    ensures
        args.deep_view() == global_args.deep_view() + extra.deep_view(),
{
    let ghost gv = global_args.deep_view();
    let ghost xv = extra.deep_view();
    let mut args: Vec<String> = Vec::new();
    let mut i: usize = 0;
    proof {
        lemma_deep_view_empty(args);
        assert(gv.take(0) =~= Seq::<Seq<char>>::empty());
    }
    while i < global_args.len()
        invariant
            0 <= i <= global_args.len(),
            gv == global_args.deep_view(),
            args.deep_view() == gv.take(i as int),
        decreases global_args.len() - i,
    {
        let item = global_args[i].clone();
        let ghost before = args;
        args.push(item);
        proof {
            lemma_deep_view_push(before, args, item);
            lemma_take_next(gv, i as int);
        }
        i += 1;
    }
    proof {
        lemma_take_all(gv);
        assert(xv.take(0) =~= Seq::<Seq<char>>::empty());
        assert(gv + xv.take(0) =~= gv);
    }
    let mut j: usize = 0;
    while j < extra.len()
        invariant
            0 <= j <= extra.len(),
            xv == extra.deep_view(),
            args.deep_view() == gv + xv.take(j as int),
        decreases extra.len() - j,
    {
        let item = extra[j].clone();
        let ghost before = args;
        args.push(item);
        proof {
            lemma_deep_view_push(before, args, item);
            lemma_take_next(xv, j as int);
            assert(gv + xv.take(j + 1) =~= (gv + xv.take(j as int)).push(xv[j as int]));
        }
        j += 1;
    }
    proof {
        lemma_take_all(xv);
    }
    args
}

fn push_word(v: &mut Vec<String>, s: &str)
    ensures
        final(v).deep_view() == old(v).deep_view().push(s@),
{
    let ghost before = *v;
    let item = s.to_owned();
    v.push(item);
    proof {
        lemma_deep_view_push(before, *v, item);
    }
}

fn words2(a: &str, b: &str) -> (v: Vec<String>)
    ensures
        v.deep_view() == seq![a@, b@],
{
    let mut v: Vec<String> = Vec::new();
    v.push(a.to_owned());
    v.push(b.to_owned());
    assert(v.deep_view() =~= seq![a@, b@]);
    v
}

fn words3(a: &str, b: &str, c: &str) -> (v: Vec<String>)
    ensures
        v.deep_view() == seq![a@, b@, c@],
{
    let mut v: Vec<String> = Vec::new();
    v.push(a.to_owned());
    v.push(b.to_owned());
    v.push(c.to_owned());
    assert(v.deep_view() =~= seq![a@, b@, c@]);
    v
}

/// The command that resolves `rev` to a commit.
pub fn rev_parse_args(global_args: &[String], rev: &str) -> (args: Vec<String>)
    ensures
        args.deep_view() == global_args.deep_view() + seq!["rev-parse"@, rev@],
{
    with_arguments(global_args, words2("rev-parse", rev))
}

/// The command of the zero-context diff between two commits.
pub fn diff_hunks_args(global_args: &[String], from: &str, to: &str) -> (args: Vec<String>)
    ensures
        args.deep_view() == global_args.deep_view() + seq![
            "diff"@,
            "-U0"@,
            "--no-color"@,
            from@,
            to@,
        ],
{
    let mut extra = words3("diff", "-U0", "--no-color");
    push_word(&mut extra, from);
    push_word(&mut extra, to);
    assert(extra.deep_view() =~= seq!["diff"@, "-U0"@, "--no-color"@, from@, to@]);
    with_arguments(global_args, extra)
}

/// The command of the full-context diff between two commits.
pub fn annotated_diff_args(global_args: &[String], from: &str, to: &str) -> (args: Vec<String>)
    ensures
        args.deep_view() == global_args.deep_view() + seq!["diff"@, "--no-color"@, from@, to@],
{
    let mut extra = words3("diff", "--no-color", from);
    push_word(&mut extra, to);
    assert(extra.deep_view() =~= seq!["diff"@, "--no-color"@, from@, to@]);
    with_arguments(global_args, extra)
}

/// The command of the numeric diff summary between two commits.
pub fn numstat_args(global_args: &[String], start: &str, end: &str) -> (args: Vec<String>)
    ensures
        args.deep_view() == global_args.deep_view() + seq![
            "diff"@,
            "--numstat"@,
            start@ + ".."@ + end@,
        ],
{
    let range = start.to_owned().concat("..").concat(end);
    with_arguments(global_args, words3("diff", "--numstat", range.as_str()))
}

/// The command that fetches `refspec` from `remote`.
pub fn fetch_args(global_args: &[String], remote: &str, refspec: &str) -> (args: Vec<String>)
    ensures
        args.deep_view() == global_args.deep_view() + seq!["fetch"@, remote@, refspec@],
{
    with_arguments(global_args, words3("fetch", remote, refspec))
}

// ---------------------------------------------------------------------------
// Revisions
// ---------------------------------------------------------------------------
/// The identifier of the tree without any file: a commit without parent is
/// shown against it.
pub open spec fn empty_tree() -> Seq<char> {
    "4b825dc642cb6eb9a060e54bf8d69288fbee4904"@
}

/// The commit that the output of `rev-parse` names for `rev`: the output
/// without the whitespace around it. Output that is no text is an error, and
/// so is output that names nothing.
pub open spec fn resolve_commit_spec(rev: Seq<char>, output: Seq<u8>) -> Result<
    Seq<char>,
    GitAiErrorView,
> {
    if !valid_utf8(output) {
        Err(
            GitAiErrorView::Generic(not_text_message("rev-parse output"@, utf8_error_text(output))),
        )
    } else if trim(decode_utf8(output)).len() == 0 {
        Err(GitAiErrorView::UnresolvedCommit("Could not resolve commit: "@ + rev))
    } else {
        Ok(trim(decode_utf8(output)))
    }
}

/// Reads the commit that `rev-parse` found for `rev`.
pub fn resolve_commit(rev: &str, output: &[u8]) -> (r: Result<String, GitAiError>)
    ensures
        match resolve_commit_spec(rev@, output@) {
            Ok(sha) => r matches Ok(x) && x@ == sha,
            Err(e) => r matches Err(x) && x@ == e,
        },
{
    match decode_text(output) {
        None => {
            let shown = utf8_failure(output);
            Err(not_text("rev-parse output", shown.as_str()))
        },
        Some(text) => {
            let sha = trimmed(&to_chars(text.as_str()));
            if sha.len() == 0 {
                Err(
                    GitAiError::UnresolvedCommit(
                        "Could not resolve commit: ".to_owned().concat(rev),
                    ),
                )
            } else {
                Ok(string_of(&sha))
            }
        },
    }
}

/// The revision that names the parent of `commit`.
pub fn parent_revision(commit: &str) -> (rev: String)
    ensures
        rev@ == commit@ + "^"@,
{
    commit.to_owned().concat("^")
}

/// What a command wrote, or the error with which it failed, as plain values.
pub open spec fn output_view(output: Result<Vec<u8>, GitAiError>) -> Result<
    Seq<u8>,
    GitAiErrorView,
> {
    match output {
        Ok(bytes) => Ok(bytes@),
        Err(e) => Err(e@),
    }
}

/// The commit against which a commit is shown, given what `rev-parse` said
/// of its parent: the parent, and the empty tree where the command failed or
/// named nothing, as it does for a commit without parent. Only output that is
/// no text is an error.
pub open spec fn resolve_parent_spec(output: Result<Seq<u8>, GitAiErrorView>) -> Result<
    Seq<char>,
    GitAiErrorView,
> {
    match output {
        Err(_) => Ok(empty_tree()),
        Ok(bytes) => if !valid_utf8(bytes) {
            Err(GitAiErrorView::Generic(not_text_message("parent SHA"@, utf8_error_text(bytes))))
        } else if trim(decode_utf8(bytes)).len() == 0 {
            Ok(empty_tree())
        } else {
            Ok(trim(decode_utf8(bytes)))
        },
    }
}

/// Reads the parent that `rev-parse` found, or settles for the empty tree.
pub fn resolve_parent(output: &Result<Vec<u8>, GitAiError>) -> (r: Result<String, GitAiError>)
    ensures
        match resolve_parent_spec(output_view(*output)) {
            Ok(sha) => r matches Ok(x) && x@ == sha,
            Err(e) => r matches Err(x) && x@ == e,
        },
        output is Err ==> (r matches Ok(x) && x@ == empty_tree()),
{
    match output {
        Err(_) => Ok("4b825dc642cb6eb9a060e54bf8d69288fbee4904".to_owned()),
        Ok(bytes) => match decode_text(bytes.as_slice()) {
            None => {
                let shown = utf8_failure(bytes.as_slice());
                Err(not_text("parent SHA", shown.as_str()))
            },
            Some(text) => {
                let sha = trimmed(&to_chars(text.as_str()));
                if sha.len() == 0 {
                    Ok("4b825dc642cb6eb9a060e54bf8d69288fbee4904".to_owned())
                } else {
                    Ok(string_of(&sha))
                }
            },
        },
    }
}

// ---------------------------------------------------------------------------
// Prompts of other commits
// ---------------------------------------------------------------------------
/// The prompt of another commit that a line refers to: the identifier that
/// the log gives to the line, where the log does not hold that prompt itself.
pub open spec fn foreign_id_of_line(log: Option<AuthorshipLogView>, file: Seq<char>, line: u32)
    -> Option<Seq<char>> {
    match log {
        Some(l) => match lookup_in_files(l.attestations, file, line) {
            Some(AttributionRefView::Prompt(id)) => if find_prompt(l.metadata.prompts, id)
                is None {
                Some(id)
            } else {
                None
            },
            _ => None,
        },
        None => None,
    }
}

/// `acc` with the prompts of other commits that the lines refer to, each
/// once, in the order of the lines.
pub open spec fn foreign_ids_of_lines(
    acc: Seq<Seq<char>>,
    log: Option<AuthorshipLogView>,
    file: Seq<char>,
    lines: Seq<u32>,
) -> Seq<Seq<char>>
    decreases lines.len(),
{
    if lines.len() == 0 {
        acc
    } else {
        let rest = foreign_ids_of_lines(acc, log, file, lines.drop_last());
        match foreign_id_of_line(log, file, lines.last()) {
            Some(id) => with_once(rest, id),
            None => rest,
        }
    }
}

/// `acc` with the prompts of other commits that the lines of the hunks refer
/// to: the deleted lines in the old commit's log, the added lines in the new
/// commit's log.
pub open spec fn foreign_ids_of_hunks(
    acc: Seq<Seq<char>>,
    hunks: Seq<DiffHunkView>,
    old_log: Option<AuthorshipLogView>,
    new_log: Option<AuthorshipLogView>,
) -> Seq<Seq<char>>
    decreases hunks.len(),
{
    if hunks.len() == 0 {
        acc
    } else {
        let h = hunks.last();
        foreign_ids_of_lines(
            foreign_ids_of_lines(
                foreign_ids_of_hunks(acc, hunks.drop_last(), old_log, new_log),
                old_log,
                h.file_path,
                h.deleted_lines,
            ),
            new_log,
            h.file_path,
            h.added_lines,
        )
    }
}

/// The prompts of other commits that the overlay of the hunks looks up: only
/// their records have to be sought before the overlay is made.
pub open spec fn foreign_prompt_ids_spec(
    hunks: Seq<DiffHunkView>,
    old_log: Option<AuthorshipLogView>,
    new_log: Option<AuthorshipLogView>,
) -> Seq<Seq<char>> {
    foreign_ids_of_hunks(Seq::empty(), hunks, old_log, new_log)
}

fn foreign_id(log: Option<&AuthorshipLog>, file: &str, line: u32) -> (r: Option<String>)
    ensures
        r.deep_view() == foreign_id_of_line(log.deep_view(), file@, line),
{
    match log {
        Some(l) => match files_lookup(&l.attestations, file, line) {
            Some(AttributionRef::Prompt(id)) => {
                if prompts_lookup(&l.metadata.prompts, id.as_str()).is_none() {
                    Some(id)
                } else {
                    None
                }
            },
            _ => None,
        },
        None => None,
    }
}

fn add_foreign_ids_of_lines(
    acc: &mut Vec<String>,
    log: Option<&AuthorshipLog>,
    file: &str,
    lines: &Vec<u32>,
)
    ensures
        final(acc).deep_view() == foreign_ids_of_lines(
            old(acc).deep_view(),
            log.deep_view(),
            file@,
            lines@,
        ),
{
    let mut i: usize = 0;
    assert(lines@.take(0) =~= Seq::<u32>::empty());
    while i < lines.len()
        invariant
            0 <= i <= lines.len(),
            acc.deep_view() == foreign_ids_of_lines(
                old(acc).deep_view(),
                log.deep_view(),
                file@,
                lines@.take(i as int),
            ),
        decreases lines.len() - i,
    {
        proof {
            lemma_take_next(lines@, i as int);
        }
        match foreign_id(log, file, lines[i]) {
            Some(id) => {
                if !contains_text(acc.as_slice(), id.as_str()) {
                    let ghost before = *acc;
                    acc.push(id);
                    proof {
                        lemma_deep_view_push(before, *acc, id);
                    }
                }
            },
            None => {},
        }
        i += 1;
    }
    proof {
        lemma_take_all(lines@);
    }
}

/// Lists the prompts of other commits that the overlay of the hunks looks
/// up: the logs refer to them without holding them, so their records have to
/// be sought in the logs of other commits.
pub fn foreign_prompt_ids(
    hunks: &[DiffHunk],
    old_log: Option<&AuthorshipLog>,
    new_log: Option<&AuthorshipLog>,
) -> (ids: Vec<String>)
    ensures
        ids.deep_view() == foreign_prompt_ids_spec(
            hunks.deep_view(),
            old_log.deep_view(),
            new_log.deep_view(),
        ),
{
    let ghost hv = hunks.deep_view();
    let mut ids: Vec<String> = Vec::new();
    let mut i: usize = 0;
    proof {
        lemma_deep_view_empty(ids);
        assert(hv.take(0) =~= Seq::<DiffHunkView>::empty());
    }
    while i < hunks.len()
        invariant
            0 <= i <= hunks.len(),
            hv == hunks.deep_view(),
            ids.deep_view() == foreign_ids_of_hunks(
                Seq::empty(),
                hv.take(i as int),
                old_log.deep_view(),
                new_log.deep_view(),
            ),
        decreases hunks.len() - i,
    {
        proof {
            lemma_take_next(hv, i as int);
        }
        let h = &hunks[i];
        assert(hv[i as int] == h@);
        add_foreign_ids_of_lines(&mut ids, old_log, h.file_path.as_str(), &h.deleted_lines);
        add_foreign_ids_of_lines(&mut ids, new_log, h.file_path.as_str(), &h.added_lines);
        i += 1;
    }
    proof {
        lemma_take_all(hv);
    }
    ids
}

// ---------------------------------------------------------------------------
// The annotated diff, step by step
// ---------------------------------------------------------------------------
/// How far the work on an annotated diff has come.
#[derive(Debug, Clone, Copy, PartialEq, Eq, Structural)]
pub enum DiffPhase {
    /// Nothing was asked for yet.
    Start,
    /// The start of a range is being resolved.
    ResolvingStart,
    /// The end of a range is being resolved.
    ResolvingEnd,
    /// The one commit is being resolved.
    ResolvingCommit,
    /// The parent of the one commit is being resolved.
    ResolvingParent,
    /// The zero-context diff is being made.
    ReadingHunks,
    /// The log of the old commit is being read.
    LoadingOldLog,
    /// The log of the new commit is being read.
    LoadingNewLog,
    /// The prompts of other commits are being sought.
    ResolvingPrompts,
    /// The full-context diff is being made.
    ReadingDiff,
    /// All is shown, or the work failed.
    Finished,
}

/// The work on an annotated diff.
pub struct DiffJob {
    pub phase: DiffPhase,
    /// The revision that is being resolved.
    pub pending: String,
    /// The end of a range, until it is resolved.
    pub second: String,
    pub from_commit: String,
    pub to_commit: String,
    pub hunks: Vec<DiffHunk>,
    pub old_log: Option<AuthorshipLog>,
    pub new_log: Option<AuthorshipLog>,
    pub cache: PromptCache,
}

/// The mathematical value of a [`DiffJob`].
pub struct DiffJobView {
    pub phase: DiffPhase,
    pub pending: Seq<char>,
    pub second: Seq<char>,
    pub from_commit: Seq<char>,
    pub to_commit: Seq<char>,
    pub hunks: Seq<DiffHunkView>,
    pub old_log: Option<AuthorshipLogView>,
    pub new_log: Option<AuthorshipLogView>,
    pub cache: Map<Seq<char>, Option<PromptRecordView>>,
}

impl View for DiffJob {
    type V = DiffJobView;

    open spec fn view(&self) -> DiffJobView {
        DiffJobView {
            phase: self.phase,
            pending: self.pending@,
            second: self.second@,
            from_commit: self.from_commit@,
            to_commit: self.to_commit@,
            hunks: self.hunks.deep_view(),
            old_log: self.old_log.deep_view(),
            new_log: self.new_log.deep_view(),
            cache: self.cache@,
        }
    }
}

/// What happened since the last step.
pub enum DiffEvent {
    /// The diff was asked for.
    Begin(DiffSpec),
    /// The command that was asked for wrote this, or failed.
    Output(Result<Vec<u8>, GitAiError>),
    /// The log that was asked for, or nothing where the commit has none that
    /// can be read.
    Log(Option<AuthorshipLog>),
    /// What was found of the prompts that were asked for.
    Prompts(PromptCache),
}

/// The mathematical value of a [`DiffEvent`].
pub enum DiffEventView {
    Begin(DiffSpecView),
    Output(Result<Seq<u8>, GitAiErrorView>),
    Log(Option<AuthorshipLogView>),
    Prompts(Map<Seq<char>, Option<PromptRecordView>>),
}

impl View for DiffEvent {
    type V = DiffEventView;

    open spec fn view(&self) -> DiffEventView {
        match self {
            DiffEvent::Begin(s) => DiffEventView::Begin(s@),
            DiffEvent::Output(o) => DiffEventView::Output(output_view(*o)),
            DiffEvent::Log(l) => DiffEventView::Log(l.deep_view()),
            DiffEvent::Prompts(c) => DiffEventView::Prompts(c@),
        }
    }
}

/// What the caller does next.
#[derive(Debug, Clone, PartialEq, Eq)]
pub enum DiffAction {
    /// Resolve the revision with `rev-parse` and hand its output back.
    RevParse(String),
    /// Make the zero-context diff and hand its output back.
    DiffHunks { from: String, to: String },
    /// Read the log that is stored for the commit and hand it back.
    LoadLog(String),
    /// Seek the records of these prompts in the logs of other commits and
    /// hand back what was found.
    ResolvePrompts(Vec<String>),
    /// Make the full-context diff and hand its output back.
    FullDiff { from: String, to: String },
    /// Show these lines: the work is done.
    Show(Vec<AnnotatedLine>),
    /// Report the error: the work is over.
    Fail(GitAiError),
}

/// The mathematical value of a [`DiffAction`].
pub enum DiffActionView {
    RevParse(Seq<char>),
    DiffHunks { from: Seq<char>, to: Seq<char> },
    LoadLog(Seq<char>),
    ResolvePrompts(Seq<Seq<char>>),
    FullDiff { from: Seq<char>, to: Seq<char> },
    Show(Seq<AnnotatedLineView>),
    Fail(GitAiErrorView),
}

impl View for DiffAction {
    type V = DiffActionView;

    open spec fn view(&self) -> DiffActionView {
        match self {
            DiffAction::RevParse(r) => DiffActionView::RevParse(r@),
            DiffAction::DiffHunks { from, to } => DiffActionView::DiffHunks { from: from@, to: to@ },
            DiffAction::LoadLog(c) => DiffActionView::LoadLog(c@),
            DiffAction::ResolvePrompts(ids) => DiffActionView::ResolvePrompts(ids.deep_view()),
            DiffAction::FullDiff { from, to } => DiffActionView::FullDiff { from: from@, to: to@ },
            DiffAction::Show(lines) => DiffActionView::Show(lines.deep_view()),
            DiffAction::Fail(e) => DiffActionView::Fail(e@),
        }
    }
}

/// The end of the work with an error.
pub open spec fn diff_failed(job: DiffJobView, e: GitAiErrorView) -> (DiffJobView, DiffActionView) {
    (DiffJobView { phase: DiffPhase::Finished, ..job }, DiffActionView::Fail(e))
}

/// The step that asks for a revision to be resolved.
pub open spec fn ask_rev_parse(job: DiffJobView, phase: DiffPhase, rev: Seq<char>) -> (
    DiffJobView,
    DiffActionView,
) {
    (DiffJobView { phase, pending: rev, ..job }, DiffActionView::RevParse(rev))
}

/// The step that asks for the zero-context diff.
pub open spec fn ask_hunks(job: DiffJobView) -> (DiffJobView, DiffActionView) {
    (
        DiffJobView { phase: DiffPhase::ReadingHunks, ..job },
        DiffActionView::DiffHunks { from: job.from_commit, to: job.to_commit },
    )
}

/// The step that asks for the full-context diff.
pub open spec fn ask_full_diff(job: DiffJobView) -> (DiffJobView, DiffActionView) {
    (
        DiffJobView { phase: DiffPhase::ReadingDiff, ..job },
        DiffActionView::FullDiff { from: job.from_commit, to: job.to_commit },
    )
}

/// The step once both logs are settled: the prompts of other commits are
/// sought where the lines of the hunks refer to any, else the full-context
/// diff is made.
pub open spec fn after_logs(job: DiffJobView) -> (DiffJobView, DiffActionView) {
    let ids = foreign_prompt_ids_spec(job.hunks, job.old_log, job.new_log);
    if ids.len() > 0 {
        (
            DiffJobView { phase: DiffPhase::ResolvingPrompts, ..job },
            DiffActionView::ResolvePrompts(ids),
        )
    } else {
        ask_full_diff(job)
    }
}

/// The step once the old log is settled: the new commit's log is read only
/// if some hunk adds a line.
pub open spec fn after_old_log(job: DiffJobView) -> (DiffJobView, DiffActionView) {
    if any_added_lines(job.hunks) {
        (
            DiffJobView { phase: DiffPhase::LoadingNewLog, ..job },
            DiffActionView::LoadLog(job.to_commit),
        )
    } else {
        after_logs(job)
    }
}

/// The step once the hunks are known: the old commit's log is read only if
/// some hunk deletes a line.
pub open spec fn after_hunks(job: DiffJobView) -> (DiffJobView, DiffActionView) {
    if any_deleted_lines(job.hunks) {
        (
            DiffJobView { phase: DiffPhase::LoadingOldLog, ..job },
            DiffActionView::LoadLog(job.from_commit),
        )
    } else {
        after_old_log(job)
    }
}

/// The message for an event that does not answer what was asked for.
pub open spec fn unexpected_event_message() -> Seq<char> {
    "Unexpected event for the current step"@
}

/// The message for a full-context diff that is no text.
pub open spec fn full_diff_not_text_message(output: Seq<u8>) -> Seq<char> {
    not_text_message("diff output"@, utf8_error_text(output))
}

/// The step on the output of `rev-parse`.
pub open spec fn on_revision(job: DiffJobView, output: Result<Seq<u8>, GitAiErrorView>) -> (
    DiffJobView,
    DiffActionView,
) {
    match output {
        Err(e) => diff_failed(job, e),
        Ok(bytes) => match resolve_commit_spec(job.pending, bytes) {
            Err(e) => diff_failed(job, e),
            Ok(sha) => match job.phase {
                DiffPhase::ResolvingStart => ask_rev_parse(
                    DiffJobView { from_commit: sha, ..job },
                    DiffPhase::ResolvingEnd,
                    job.second,
                ),
                DiffPhase::ResolvingEnd => ask_hunks(DiffJobView { to_commit: sha, ..job }),
                _ => ask_rev_parse(
                    DiffJobView { to_commit: sha, ..job },
                    DiffPhase::ResolvingParent,
                    sha + "^"@,
                ),
            },
        },
    }
}

/// The step on the output of the full-context diff: the lines to show.
pub open spec fn on_full_diff(job: DiffJobView, output: Result<Seq<u8>, GitAiErrorView>) -> (
    DiffJobView,
    DiffActionView,
) {
    match output {
        Err(e) => diff_failed(job, e),
        Ok(bytes) => if !valid_utf8(bytes) {
            diff_failed(job, GitAiErrorView::Generic(full_diff_not_text_message(bytes)))
        } else {
            (
                DiffJobView { phase: DiffPhase::Finished, ..job },
                DiffActionView::Show(
                    annotate_diff_spec(
                        decode_utf8(bytes),
                        overlay_map(job.hunks, job.old_log, job.new_log, job.cache),
                    ),
                ),
            )
        },
    }
}

/// The next state and the next action of the work on an annotated diff.
///
/// A range has its two ends resolved; one commit is resolved and shown
/// against its parent, or against the empty tree where it has none. Then the
/// hunks are read, then the log of the old commit if a line is deleted and the
/// log of the new commit if a line is added, then the prompts of other commits
/// that these logs refer to, then the full diff, whose annotated lines are
/// shown. A command that fails, output that cannot be read, and an event that
/// does not answer what was asked for end the work with an error.
pub open spec fn execute_diff_spec(job: DiffJobView, event: DiffEventView) -> (
    DiffJobView,
    DiffActionView,
) {
    match (job.phase, event) {
        (DiffPhase::Start, DiffEventView::Begin(DiffSpecView::TwoCommit(start, end))) => ask_rev_parse(
            DiffJobView { second: end, ..job },
            DiffPhase::ResolvingStart,
            start,
        ),
        (DiffPhase::Start, DiffEventView::Begin(DiffSpecView::SingleCommit(commit))) => ask_rev_parse(
            job,
            DiffPhase::ResolvingCommit,
            commit,
        ),
        (DiffPhase::ResolvingStart, DiffEventView::Output(output)) => on_revision(job, output),
        (DiffPhase::ResolvingEnd, DiffEventView::Output(output)) => on_revision(job, output),
        (DiffPhase::ResolvingCommit, DiffEventView::Output(output)) => on_revision(job, output),
        (DiffPhase::ResolvingParent, DiffEventView::Output(output)) => match resolve_parent_spec(
            output,
        ) {
            Ok(sha) => ask_hunks(DiffJobView { from_commit: sha, ..job }),
            Err(e) => diff_failed(job, e),
        },
        (DiffPhase::ReadingHunks, DiffEventView::Output(Ok(bytes))) => match get_diff_with_line_numbers_spec(
            bytes,
        ) {
            Ok(hunks) => after_hunks(DiffJobView { hunks, ..job }),
            Err(e) => diff_failed(job, e),
        },
        (DiffPhase::ReadingHunks, DiffEventView::Output(Err(e))) => diff_failed(job, e),
        (DiffPhase::LoadingOldLog, DiffEventView::Log(log)) => after_old_log(
            DiffJobView { old_log: log, ..job },
        ),
        (DiffPhase::LoadingNewLog, DiffEventView::Log(log)) => after_logs(
            DiffJobView { new_log: log, ..job },
        ),
        (DiffPhase::ResolvingPrompts, DiffEventView::Prompts(cache)) => ask_full_diff(
            DiffJobView { cache, ..job },
        ),
        (DiffPhase::ReadingDiff, DiffEventView::Output(output)) => on_full_diff(job, output),
        _ => diff_failed(job, GitAiErrorView::Generic(unexpected_event_message())),
    }
}

impl DiffJob {
    /// The work before anything was asked for.
    pub fn new() -> (job: DiffJob)
        ensures
            job@ == (DiffJobView {
                phase: DiffPhase::Start,
                pending: Seq::empty(),
                second: Seq::empty(),
                from_commit: Seq::empty(),
                to_commit: Seq::empty(),
                hunks: Seq::empty(),
                old_log: None,
                new_log: None,
                cache: Map::empty(),
            }),
    {
        let hunks: Vec<DiffHunk> = Vec::new();
        proof {
            lemma_deep_view_empty(hunks);
        }
        DiffJob {
            phase: DiffPhase::Start,
            pending: String::new(),
            second: String::new(),
            from_commit: String::new(),
            to_commit: String::new(),
            hunks,
            old_log: None,
            new_log: None,
            cache: PromptCache::new(),
        }
    }

    fn fail(&mut self, e: GitAiError) -> (action: DiffAction)
        ensures
            (final(self)@, action@) == diff_failed(old(self)@, e@),
    {
        self.phase = DiffPhase::Finished;
        DiffAction::Fail(e)
    }

    fn rev_parse(&mut self, phase: DiffPhase, rev: String) -> (action: DiffAction)
        ensures
            (final(self)@, action@) == ask_rev_parse(old(self)@, phase, rev@),
    {
        self.phase = phase;
        self.pending = rev.clone();
        DiffAction::RevParse(rev)
    }

    fn hunks(&mut self) -> (action: DiffAction)
        ensures
            (final(self)@, action@) == ask_hunks(old(self)@),
    {
        self.phase = DiffPhase::ReadingHunks;
        DiffAction::DiffHunks { from: self.from_commit.clone(), to: self.to_commit.clone() }
    }

    fn full_diff(&mut self) -> (action: DiffAction)
        ensures
            (final(self)@, action@) == ask_full_diff(old(self)@),
    {
        self.phase = DiffPhase::ReadingDiff;
        DiffAction::FullDiff { from: self.from_commit.clone(), to: self.to_commit.clone() }
    }

    fn logs_settled(&mut self) -> (action: DiffAction)
        ensures
            (final(self)@, action@) == after_logs(old(self)@),
    {
        let ids = foreign_prompt_ids(
            self.hunks.as_slice(),
            self.old_log.as_ref(),
            self.new_log.as_ref(),
        );
        if ids.len() > 0 {
            self.phase = DiffPhase::ResolvingPrompts;
            DiffAction::ResolvePrompts(ids)
        } else {
            self.full_diff()
        }
    }

    fn old_log_settled(&mut self) -> (action: DiffAction)
        ensures
            (final(self)@, action@) == after_old_log(old(self)@),
    {
        if needs_new_log(self.hunks.as_slice()) {
            self.phase = DiffPhase::LoadingNewLog;
            DiffAction::LoadLog(self.to_commit.clone())
        } else {
            self.logs_settled()
        }
    }

    fn hunks_known(&mut self) -> (action: DiffAction)
        ensures
            (final(self)@, action@) == after_hunks(old(self)@),
    {
        if needs_old_log(self.hunks.as_slice()) {
            self.phase = DiffPhase::LoadingOldLog;
            DiffAction::LoadLog(self.from_commit.clone())
        } else {
            self.old_log_settled()
        }
    }

    fn revision(&mut self, output: Result<Vec<u8>, GitAiError>) -> (action: DiffAction)
        ensures
            (final(self)@, action@) == on_revision(old(self)@, output_view(output)),
    {
        match output {
            Err(e) => self.fail(e),
            Ok(bytes) => match resolve_commit(self.pending.as_str(), bytes.as_slice()) {
                Err(e) => self.fail(e),
                Ok(sha) => match self.phase {
                    DiffPhase::ResolvingStart => {
                        self.from_commit = sha;
                        let second = self.second.clone();
                        self.rev_parse(DiffPhase::ResolvingEnd, second)
                    },
                    DiffPhase::ResolvingEnd => {
                        self.to_commit = sha;
                        self.hunks()
                    },
                    _ => {
                        let parent = parent_revision(sha.as_str());
                        self.to_commit = sha;
                        self.rev_parse(DiffPhase::ResolvingParent, parent)
                    },
                },
            },
        }
    }

    fn show(&mut self, output: Result<Vec<u8>, GitAiError>) -> (action: DiffAction)
        ensures
            (final(self)@, action@) == on_full_diff(old(self)@, output_view(output)),
    {
        match output {
            Err(e) => self.fail(e),
            Ok(bytes) => match decode_text(bytes.as_slice()) {
                None => {
                    let shown = utf8_failure(bytes.as_slice());
                    self.fail(not_text("diff output", shown.as_str()))
                },
                Some(text) => {
                    let attributions = overlay_diff_attributions(
                        self.hunks.as_slice(),
                        self.old_log.as_ref(),
                        self.new_log.as_ref(),
                        &self.cache,
                    );
                    let lines = annotate_diff(text.as_str(), &attributions);
                    self.phase = DiffPhase::Finished;
                    DiffAction::Show(lines)
                },
            },
        }
    }
}

/// Takes the work on an annotated diff one step further: from what happened
/// to what the caller does next.
pub fn execute_diff(job: &mut DiffJob, event: DiffEvent) -> (action: DiffAction)
    ensures
        (final(job)@, action@) == execute_diff_spec(old(job)@, event@),
{
    match job.phase {
        DiffPhase::Start => match event {
            DiffEvent::Begin(DiffSpec::TwoCommit(start, end)) => {
                job.second = end;
                job.rev_parse(DiffPhase::ResolvingStart, start)
            },
            DiffEvent::Begin(DiffSpec::SingleCommit(commit)) => job.rev_parse(
                DiffPhase::ResolvingCommit,
                commit,
            ),
            _ => job.fail(GitAiError::Generic("Unexpected event for the current step".to_owned())),
        },
        DiffPhase::ResolvingStart | DiffPhase::ResolvingEnd | DiffPhase::ResolvingCommit => match event {
            DiffEvent::Output(output) => job.revision(output),
            _ => job.fail(GitAiError::Generic("Unexpected event for the current step".to_owned())),
        },
        DiffPhase::ResolvingParent => match event {
            DiffEvent::Output(output) => match resolve_parent(&output) {
                Ok(sha) => {
                    job.from_commit = sha;
                    job.hunks()
                },
                Err(e) => job.fail(e),
            },
            _ => job.fail(GitAiError::Generic("Unexpected event for the current step".to_owned())),
        },
        DiffPhase::ReadingHunks => match event {
            DiffEvent::Output(Ok(bytes)) => match get_diff_with_line_numbers(bytes.as_slice()) {
                Ok(hunks) => {
                    job.hunks = hunks;
                    job.hunks_known()
                },
                Err(e) => job.fail(e),
            },
            DiffEvent::Output(Err(e)) => job.fail(e),
            _ => job.fail(GitAiError::Generic("Unexpected event for the current step".to_owned())),
        },
        DiffPhase::LoadingOldLog => match event {
            DiffEvent::Log(log) => {
                job.old_log = log;
                job.old_log_settled()
            },
            _ => job.fail(GitAiError::Generic("Unexpected event for the current step".to_owned())),
        },
        DiffPhase::LoadingNewLog => match event {
            DiffEvent::Log(log) => {
                job.new_log = log;
                job.logs_settled()
            },
            _ => job.fail(GitAiError::Generic("Unexpected event for the current step".to_owned())),
        },
        DiffPhase::ResolvingPrompts => match event {
            DiffEvent::Prompts(cache) => {
                job.cache = cache;
                job.full_diff()
            },
            _ => job.fail(GitAiError::Generic("Unexpected event for the current step".to_owned())),
        },
        DiffPhase::ReadingDiff => match event {
            DiffEvent::Output(output) => job.show(output),
            _ => job.fail(GitAiError::Generic("Unexpected event for the current step".to_owned())),
        },
        DiffPhase::Finished => job.fail(
            GitAiError::Generic("Unexpected event for the current step".to_owned()),
        ),
    }
}

// ---------------------------------------------------------------------------
// Laws of the steps
// ---------------------------------------------------------------------------
/// How far a phase is from the start of the work.
pub open spec fn diff_phase_rank(phase: DiffPhase) -> nat {
    match phase {
        DiffPhase::Start => 0,
        DiffPhase::ResolvingStart => 1,
        DiffPhase::ResolvingCommit => 1,
        DiffPhase::ResolvingEnd => 2,
        DiffPhase::ResolvingParent => 2,
        DiffPhase::ReadingHunks => 3,
        DiffPhase::LoadingOldLog => 4,
        DiffPhase::LoadingNewLog => 5,
        DiffPhase::ResolvingPrompts => 6,
        DiffPhase::ReadingDiff => 7,
        DiffPhase::Finished => 8,
    }
}

/// Every step takes the work further. So no phase is entered twice: every
/// command is run at most once, and each of the two logs is read at most
/// once.
pub proof fn lemma_execute_diff_advances(job: DiffJobView, event: DiffEventView)
    requires
        job.phase != DiffPhase::Finished,
    ensures
        diff_phase_rank(execute_diff_spec(job, event).0.phase) > diff_phase_rank(job.phase),
{
}

/// A log is asked for only where the hunks need it: that of the old commit
/// only if a hunk deletes a line, that of the new commit only if a hunk adds
/// one.
pub proof fn lemma_logs_are_read_lazily(job: DiffJobView, event: DiffEventView)
    ensures
        ({
            let (next, action) = execute_diff_spec(job, event);
            action matches DiffActionView::LoadLog(commit) ==> ({
                ||| next.phase == DiffPhase::LoadingOldLog && commit == next.from_commit
                    && any_deleted_lines(next.hunks)
                ||| next.phase == DiffPhase::LoadingNewLog && commit == next.to_commit
                    && any_added_lines(next.hunks)
            })
        }),
{
}

} // verus!
