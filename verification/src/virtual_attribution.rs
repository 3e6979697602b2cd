//! Virtual attributions: what the log of a commit would be, built in memory
//! from stored logs, restricted to the commits under analysis, merged by
//! position over the final text of the files, and turned into a log again.

use crate::authorship_log::{
    duplicate_entries, duplicate_prompts, entries_well_formed, files_lookup, files_well_formed,
    find_prompt, lookup_in_entries, lookup_in_files, prompts_lookup, prompts_well_formed,
    AttributionRef, AttributionRefView, AuthorshipLog, AuthorshipLogView, AuthorshipMetadata,
    AuthorshipMetadataView, Entry, EntryView, FileAttestation, FileAttestationView, PromptRecord,
    PromptRecordView,
};
use crate::carry::{
    carried_entries, carried_entries_spec, carried_files, carry_files,
    lemma_carried_files_well_formed, lemma_carried_lookup, AncestorLog, AncestorLogView,
};
use crate::diff::{DiffHunk, DiffHunkView};
use crate::sequences::{
    lemma_deep_view_empty, lemma_deep_view_push, lemma_take_all, lemma_take_next,
};
use crate::text::{contains_text, lines, split_lines, str_equal, to_chars, views};
use vstd::prelude::*;
use vstd::string::*;

verus! {

// ---------------------------------------------------------------------------
// Data
// ---------------------------------------------------------------------------
/// The attribution of a set of files as of one commit.
#[derive(Debug, Clone, PartialEq, Eq)]
pub struct VirtualAttributions {
    pub base_commit: String,
    pub files: Vec<FileAttestation>,
    pub prompts: Vec<PromptRecord>,
}

/// The mathematical value of a [`VirtualAttributions`].
pub struct VirtualAttributionsView {
    pub base_commit: Seq<char>,
    pub files: Seq<FileAttestationView>,
    pub prompts: Seq<PromptRecordView>,
}

impl View for VirtualAttributions {
    type V = VirtualAttributionsView;

    open spec fn view(&self) -> VirtualAttributionsView {
        VirtualAttributionsView {
            base_commit: self.base_commit@,
            files: self.files.deep_view(),
            prompts: self.prompts.deep_view(),
        }
    }
}

/// The schema version that this library writes and accepts.
pub open spec fn schema_version() -> Seq<char> {
    "authorship/3.0.0"@
}

/// The version of the tool that this library records in the logs it makes.
pub open spec fn tool_version() -> Seq<char> {
    "1.0.0"@
}

/// The schema version that this library writes and accepts.
pub fn current_schema_version() -> (s: String)
    ensures
        s@ == schema_version(),
{
    "authorship/3.0.0".to_owned()
}

/// The version of the tool that this library records in the logs it makes.
pub fn current_tool_version() -> (s: String)
    ensures
        s@ == tool_version(),
{
    "1.0.0".to_owned()
}

// ---------------------------------------------------------------------------
// From a stored log
// ---------------------------------------------------------------------------
/// The first attestation of `path`.
pub open spec fn find_file(files: Seq<FileAttestationView>, path: Seq<char>) -> Option<
    FileAttestationView,
>
    decreases files.len(),
{
    if files.len() == 0 {
        None
    } else {
        match find_file(files.drop_last(), path) {
            Some(f) => Some(f),
            None => if files.last().file_path == path {
                Some(files.last())
            } else {
                None
            },
        }
    }
}

/// The entries that a stored log holds for `path`: those of its first
/// attestation of the path, none without log or attestation.
pub open spec fn stored_entries(stored: Option<AuthorshipLogView>, path: Seq<char>) -> Seq<
    EntryView,
> {
    match stored {
        Some(log) => match find_file(log.attestations, path) {
            Some(f) => f.entries,
            None => Seq::empty(),
        },
        None => Seq::empty(),
    }
}

/// The entries of `path` as of a commit: those that the log of the commit
/// itself holds for it, where the commit has a log; else what the log of an
/// ancestor gives once it is carried forward to the commit, where such a log
/// is at hand; else none.
pub open spec fn base_entries(
    stored: Option<AuthorshipLogView>,
    ancestor: Option<AncestorLogView>,
    path: Seq<char>,
) -> Seq<EntryView> {
    match stored {
        Some(_) => stored_entries(stored, path),
        None => match ancestor {
            Some(a) => carried_entries_spec(a.log.attestations, a.hunks, a.contents, path),
            None => Seq::empty(),
        },
    }
}

/// The prompts as of a commit: those of its own log, else those of the
/// ancestor's log.
pub open spec fn base_prompts(
    stored: Option<AuthorshipLogView>,
    ancestor: Option<AncestorLogView>,
) -> Seq<PromptRecordView> {
    match stored {
        Some(log) => log.metadata.prompts,
        None => match ancestor {
            Some(a) => a.log.metadata.prompts,
            None => Seq::empty(),
        },
    }
}

/// The attribution of the changed files as of `commit`: one attestation for
/// each changed file, in their order, with the entries that the commit's own
/// log holds or, for a commit without log, that an ancestor's log carries
/// forward; and the prompts of that log.
pub open spec fn new_for_base_commit_spec(
    commit: Seq<char>,
    changed_files: Seq<Seq<char>>,
    stored: Option<AuthorshipLogView>,
    ancestor: Option<AncestorLogView>,
) -> VirtualAttributionsView {
    VirtualAttributionsView {
        base_commit: commit,
        files: Seq::new(
            changed_files.len(),
            |i: int|
                FileAttestationView {
                    file_path: changed_files[i],
                    entries: base_entries(stored, ancestor, changed_files[i]),
                },
        ),
        prompts: base_prompts(stored, ancestor),
    }
}

proof fn lemma_find_file_prefix(files: Seq<FileAttestationView>, k: int, path: Seq<char>)
    requires
        0 <= k <= files.len(),
        find_file(files.take(k), path) is Some,
    ensures
        find_file(files, path) == find_file(files.take(k), path),
    decreases files.len() - k,
{
    if k < files.len() {
        lemma_take_next(files, k);
        lemma_find_file_prefix(files, k + 1, path);
    } else {
        lemma_take_all(files);
    }
}

fn entries_stored_for(stored: Option<&AuthorshipLog>, path: &str) -> (r: Vec<Entry>)
    ensures
        r.deep_view() == stored_entries(stored.deep_view(), path@),
{
    match stored {
        None => {
            let r: Vec<Entry> = Vec::new();
            proof {
                lemma_deep_view_empty(r);
            }
            r
        },
        Some(log) => {
            let ghost fv = log.attestations.deep_view();
            let mut i: usize = 0;
            while i < log.attestations.len()
                invariant
                    0 <= i <= log.attestations.len(),
                    fv == log.attestations.deep_view(),
                    stored == Some(log),
                    find_file(fv.take(i as int), path@) is None,
                decreases log.attestations.len() - i,
            {
                proof {
                    lemma_take_next(fv, i as int);
                }
                if str_equal(log.attestations[i].file_path.as_str(), path) {
                    proof {
                        lemma_find_file_prefix(fv, i + 1, path@);
                    }
                    return duplicate_entries(&log.attestations[i].entries);
                }
                i += 1;
            }
            proof {
                lemma_take_all(fv);
            }
            let r: Vec<Entry> = Vec::new();
            proof {
                lemma_deep_view_empty(r);
            }
            r
        },
    }
}

impl VirtualAttributions {
    /// The attribution of `changed_files` as of `commit`: from the log that
    /// is stored for the commit, if one is; else from the log of an ancestor,
    /// carried forward through the diff, if one is at hand. It is well formed
    /// where no file is named twice and the log that is used is well formed.
    pub fn new_for_base_commit(
        commit: &str,
        changed_files: &[String],
        stored: Option<&AuthorshipLog>,
        ancestor: Option<&AncestorLog>,
    ) -> (va: VirtualAttributions)
        ensures
            va@ == new_for_base_commit_spec(
                commit@,
                changed_files.deep_view(),
                stored.deep_view(),
                ancestor.deep_view(),
            ),
            distinct_paths(changed_files.deep_view()) && prompts_well_formed(
                base_prompts(stored.deep_view(), ancestor.deep_view()),
            ) && (stored.deep_view() matches Some(log) ==> log.well_formed()) ==> va@.well_formed(),
    {
        let ghost cv = changed_files.deep_view();
        let ghost goal = new_for_base_commit_spec(
            commit@,
            cv,
            stored.deep_view(),
            ancestor.deep_view(),
        );
        let mut files: Vec<FileAttestation> = Vec::new();
        let mut i: usize = 0;
        proof {
            lemma_deep_view_empty(files);
            assert(goal.files.take(0) =~= Seq::<FileAttestationView>::empty());
        }
        while i < changed_files.len()
            invariant
                0 <= i <= changed_files.len(),
                cv == changed_files.deep_view(),
                goal == new_for_base_commit_spec(
                    commit@,
                    cv,
                    stored.deep_view(),
                    ancestor.deep_view(),
                ),
                files.deep_view() == goal.files.take(i as int),
            decreases changed_files.len() - i,
        {
            let path = changed_files[i].as_str();
            let entries = match stored {
                Some(_) => entries_stored_for(stored, path),
                None => match ancestor {
                    Some(a) => carried_entries(
                        &a.log.attestations,
                        a.hunks.as_slice(),
                        &a.contents,
                        path,
                    ),
                    None => {
                        let none: Vec<Entry> = Vec::new();
                        proof {
                            lemma_deep_view_empty(none);
                        }
                        none
                    },
                },
            };
            let item = FileAttestation { file_path: changed_files[i].clone(), entries };
            let ghost before = files;
            files.push(item);
            proof {
                lemma_deep_view_push(before, files, item);
                lemma_take_next(goal.files, i as int);
            }
            i += 1;
        }
        proof {
            lemma_take_all(goal.files);
        }
        let prompts = match stored {
            Some(log) => duplicate_prompts(&log.metadata.prompts),
            None => match ancestor {
                Some(a) => duplicate_prompts(&a.log.metadata.prompts),
                None => {
                    let p: Vec<PromptRecord> = Vec::new();
                    proof {
                        lemma_deep_view_empty(p);
                    }
                    p
                },
            },
        };
        proof {
            if distinct_paths(cv) && prompts_well_formed(
                base_prompts(stored.deep_view(), ancestor.deep_view()),
            ) && (stored.deep_view() matches Some(log) ==> log.well_formed()) {
                lemma_new_for_base_commit_well_formed(
                    commit@,
                    cv,
                    stored.deep_view(),
                    ancestor.deep_view(),
                );
            }
        }
        VirtualAttributions { base_commit: commit.to_owned(), files, prompts }
    }
}

// ---------------------------------------------------------------------------
// Across a diff
// ---------------------------------------------------------------------------
/// The attribution behind a diff: every file has what its lines carry along
/// from before the diff, and the prompts are the same.
pub open spec fn carried_forward_spec(
    va: VirtualAttributionsView,
    hunks: Seq<DiffHunkView>,
    contents: Seq<(Seq<char>, Seq<char>)>,
) -> VirtualAttributionsView {
    VirtualAttributionsView {
        base_commit: va.base_commit,
        files: carried_files(va.files, hunks, contents),
        prompts: va.prompts,
    }
}

impl VirtualAttributions {
    /// Carries the attribution forward across a diff, whose hunks are given
    /// in the order of the diff, to the text that the files have behind it. A
    /// well-formed attribution stays well formed.
    pub fn carried_forward(&self, hunks: &[DiffHunk], contents: &Vec<(String, String)>) -> (r:
        VirtualAttributions)
        ensures
            r@ == carried_forward_spec(self@, hunks.deep_view(), contents.deep_view()),
            self@.well_formed() ==> r@.well_formed(),
    {
        proof {
            if self@.well_formed() {
                lemma_carried_files_well_formed(
                    self@.files,
                    hunks.deep_view(),
                    contents.deep_view(),
                );
            }
        }
        VirtualAttributions {
            base_commit: self.base_commit.clone(),
            files: carry_files(&self.files, hunks, contents),
            prompts: duplicate_prompts(&self.prompts),
        }
    }
}

// ---------------------------------------------------------------------------
// Restriction to a set of commits
// ---------------------------------------------------------------------------
/// Whether an entry stays when attribution is restricted to `commits`: a
/// human's entry always, a prompt's entry when the prompt is known and its
/// commit is one of `commits`.
pub open spec fn entry_in_commits(
    e: EntryView,
    prompts: Seq<PromptRecordView>,
    commits: Seq<Seq<char>>,
) -> bool {
    match e.reference {
        AttributionRefView::Human(_) => true,
        AttributionRefView::Prompt(id) => match find_prompt(prompts, id) {
            Some(p) => commits.contains(p.commit_sha),
            None => false,
        },
    }
}

/// The entries that stay, in their order.
pub open spec fn filter_entries(
    entries: Seq<EntryView>,
    prompts: Seq<PromptRecordView>,
    commits: Seq<Seq<char>>,
) -> Seq<EntryView>
    decreases entries.len(),
{
    if entries.len() == 0 {
        Seq::empty()
    } else {
        let rest = filter_entries(entries.drop_last(), prompts, commits);
        if entry_in_commits(entries.last(), prompts, commits) {
            rest.push(entries.last())
        } else {
            rest
        }
    }
}

/// Every attestation with the entries that stay.
pub open spec fn filter_files(
    files: Seq<FileAttestationView>,
    prompts: Seq<PromptRecordView>,
    commits: Seq<Seq<char>>,
) -> Seq<FileAttestationView> {
    Seq::new(
        files.len(),
        |i: int|
            FileAttestationView {
                file_path: files[i].file_path,
                entries: filter_entries(files[i].entries, prompts, commits),
            },
    )
}

/// The prompts whose commit is one of `commits`, in their order.
pub open spec fn filter_prompts(prompts: Seq<PromptRecordView>, commits: Seq<Seq<char>>) -> Seq<
    PromptRecordView,
>
    decreases prompts.len(),
{
    if prompts.len() == 0 {
        Seq::empty()
    } else {
        let rest = filter_prompts(prompts.drop_last(), commits);
        if commits.contains(prompts.last().commit_sha) {
            rest.push(prompts.last())
        } else {
            rest
        }
    }
}

/// The attribution restricted to `commits`: what a prompt of another commit
/// wrote becomes a line without data.
pub open spec fn filter_to_commits_spec(va: VirtualAttributionsView, commits: Seq<Seq<char>>)
    -> VirtualAttributionsView {
    VirtualAttributionsView {
        base_commit: va.base_commit,
        files: filter_files(va.files, va.prompts, commits),
        prompts: filter_prompts(va.prompts, commits),
    }
}

fn keeps_entry(e: &Entry, prompts: &Vec<PromptRecord>, commits: &[String]) -> (r: bool)
    ensures
        r == entry_in_commits(e@, prompts.deep_view(), commits.deep_view()),
{
    match &e.reference {
        AttributionRef::Human(_) => true,
        AttributionRef::Prompt(id) => match prompts_lookup(prompts, id.as_str()) {
            Some(p) => contains_text(commits, p.commit_sha.as_str()),
            None => false,
        },
    }
}

fn entries_in_commits(entries: &Vec<Entry>, prompts: &Vec<PromptRecord>, commits: &[String]) -> (r:
    Vec<Entry>)
    ensures
        r.deep_view() == filter_entries(
            entries.deep_view(),
            prompts.deep_view(),
            commits.deep_view(),
        ),
{
    let ghost ev = entries.deep_view();
    let mut r: Vec<Entry> = Vec::new();
    let mut i: usize = 0;
    proof {
        lemma_deep_view_empty(r);
        assert(ev.take(0) =~= Seq::<EntryView>::empty());
    }
    while i < entries.len()
        invariant
            0 <= i <= entries.len(),
            ev == entries.deep_view(),
            r.deep_view() == filter_entries(
                ev.take(i as int),
                prompts.deep_view(),
                commits.deep_view(),
            ),
        decreases entries.len() - i,
    {
        proof {
            lemma_take_next(ev, i as int);
        }
        if keeps_entry(&entries[i], prompts, commits) {
            let item = entries[i].duplicate();
            let ghost before = r;
            r.push(item);
            proof {
                lemma_deep_view_push(before, r, item);
            }
        }
        i += 1;
    }
    proof {
        lemma_take_all(ev);
    }
    r
}

fn prompts_in_commits(prompts: &Vec<PromptRecord>, commits: &[String]) -> (r: Vec<PromptRecord>)
    ensures
        r.deep_view() == filter_prompts(prompts.deep_view(), commits.deep_view()),
{
    let ghost pv = prompts.deep_view();
    let mut r: Vec<PromptRecord> = Vec::new();
    let mut i: usize = 0;
    proof {
        lemma_deep_view_empty(r);
        assert(pv.take(0) =~= Seq::<PromptRecordView>::empty());
    }
    while i < prompts.len()
        invariant
            0 <= i <= prompts.len(),
            pv == prompts.deep_view(),
            r.deep_view() == filter_prompts(pv.take(i as int), commits.deep_view()),
        decreases prompts.len() - i,
    {
        proof {
            lemma_take_next(pv, i as int);
        }
        if contains_text(commits, prompts[i].commit_sha.as_str()) {
            let item = prompts[i].duplicate();
            let ghost before = r;
            r.push(item);
            proof {
                lemma_deep_view_push(before, r, item);
            }
        }
        i += 1;
    }
    proof {
        lemma_take_all(pv);
    }
    r
}

impl VirtualAttributions {
    /// Restricts the attribution to the prompts of `commits`. A well-formed
    /// attribution stays well formed.
    pub fn filter_to_commits(&mut self, commits: &[String])
        ensures
            final(self)@ == filter_to_commits_spec(old(self)@, commits.deep_view()),
            old(self)@.well_formed() ==> final(self)@.well_formed(),
    {
        let ghost goal = filter_to_commits_spec(self@, commits.deep_view());
        let mut files: Vec<FileAttestation> = Vec::new();
        let mut i: usize = 0;
        proof {
            lemma_deep_view_empty(files);
            assert(goal.files.take(0) =~= Seq::<FileAttestationView>::empty());
        }
        while i < self.files.len()
            invariant
                0 <= i <= self.files.len(),
                *self == *old(self),
                goal == filter_to_commits_spec(self@, commits.deep_view()),
                files.deep_view() == goal.files.take(i as int),
            decreases self.files.len() - i,
        {
            let item = FileAttestation {
                file_path: self.files[i].file_path.clone(),
                entries: entries_in_commits(&self.files[i].entries, &self.prompts, commits),
            };
            let ghost before = files;
            files.push(item);
            proof {
                lemma_deep_view_push(before, files, item);
                lemma_take_next(goal.files, i as int);
            }
            i += 1;
        }
        proof {
            lemma_take_all(goal.files);
        }
        let prompts = prompts_in_commits(&self.prompts, commits);
        self.files = files;
        self.prompts = prompts;
        proof {
            if old(self)@.well_formed() {
                lemma_filter_to_commits_well_formed(old(self)@, commits.deep_view());
            }
        }
    }
}

// ---------------------------------------------------------------------------
// Laws of the restriction
// ---------------------------------------------------------------------------
pub(crate) proof fn lemma_find_prompt_filtered(
    prompts: Seq<PromptRecordView>,
    commits: Seq<Seq<char>>,
    id: Seq<char>,
)
    ensures
        find_prompt(prompts, id) is None ==> find_prompt(filter_prompts(prompts, commits), id)
            is None,
        find_prompt(prompts, id) matches Some(p) && commits.contains(p.commit_sha) ==> find_prompt(
            filter_prompts(prompts, commits),
            id,
        ) == find_prompt(prompts, id),
    decreases prompts.len(),
{
    if prompts.len() > 0 {
        lemma_find_prompt_filtered(prompts.drop_last(), commits, id);
        let rest = filter_prompts(prompts.drop_last(), commits);
        if commits.contains(prompts.last().commit_sha) {
            assert(rest.push(prompts.last()).drop_last() =~= rest);
        }
    }
}

proof fn lemma_filter_prompts_narrowing(
    prompts: Seq<PromptRecordView>,
    wide: Seq<Seq<char>>,
    narrow: Seq<Seq<char>>,
)
    requires
        forall|c: Seq<char>| narrow.contains(c) ==> wide.contains(c),
    ensures
        filter_prompts(filter_prompts(prompts, wide), narrow) == filter_prompts(prompts, narrow),
    decreases prompts.len(),
{
    if prompts.len() > 0 {
        lemma_filter_prompts_narrowing(prompts.drop_last(), wide, narrow);
        let rest = filter_prompts(prompts.drop_last(), wide);
        if wide.contains(prompts.last().commit_sha) {
            assert(rest.push(prompts.last()).drop_last() =~= rest);
        }
    }
}

proof fn lemma_filter_entries_narrowing(
    entries: Seq<EntryView>,
    prompts: Seq<PromptRecordView>,
    wide: Seq<Seq<char>>,
    narrow: Seq<Seq<char>>,
)
    requires
        forall|c: Seq<char>| narrow.contains(c) ==> wide.contains(c),
    ensures
        filter_entries(
            filter_entries(entries, prompts, wide),
            filter_prompts(prompts, wide),
            narrow,
        ) == filter_entries(entries, prompts, narrow),
    decreases entries.len(),
{
    if entries.len() > 0 {
        lemma_filter_entries_narrowing(entries.drop_last(), prompts, wide, narrow);
        let e = entries.last();
        let rest = filter_entries(entries.drop_last(), prompts, wide);
        match e.reference {
            AttributionRefView::Human(_) => {},
            AttributionRefView::Prompt(id) => {
                lemma_find_prompt_filtered(prompts, wide, id);
            },
        }
        if entry_in_commits(e, prompts, wide) {
            assert(rest.push(e).drop_last() =~= rest);
        }
    }
}

/// Restricting to commits and then to a part of them is restricting to the
/// part: the second restriction brings back nothing that the first removed.
pub proof fn lemma_filter_to_commits_narrowing(
    va: VirtualAttributionsView,
    wide: Seq<Seq<char>>,
    narrow: Seq<Seq<char>>,
)
    requires
        forall|c: Seq<char>| narrow.contains(c) ==> wide.contains(c),
    ensures
        filter_to_commits_spec(filter_to_commits_spec(va, wide), narrow) == filter_to_commits_spec(
            va,
            narrow,
        ),
{
    let once = filter_to_commits_spec(va, wide);
    let twice = filter_to_commits_spec(once, narrow);
    let direct = filter_to_commits_spec(va, narrow);
    lemma_filter_prompts_narrowing(va.prompts, wide, narrow);
    assert forall|i: int| 0 <= i < va.files.len() implies twice.files[i] == direct.files[i] by {
        lemma_filter_entries_narrowing(va.files[i].entries, va.prompts, wide, narrow);
    }
    assert(twice.files =~= direct.files);
}

/// Restricting to the same commits twice is restricting to them once.
pub proof fn lemma_filter_to_commits_idempotent(va: VirtualAttributionsView, commits: Seq<Seq<char>>)
    ensures
        filter_to_commits_spec(filter_to_commits_spec(va, commits), commits)
            == filter_to_commits_spec(va, commits),
{
    lemma_filter_to_commits_narrowing(va, commits, commits);
}

pub(crate) proof fn lemma_filter_entries_subset(
    entries: Seq<EntryView>,
    prompts: Seq<PromptRecordView>,
    commits: Seq<Seq<char>>,
    e: EntryView,
)
    requires
        filter_entries(entries, prompts, commits).contains(e),
    ensures
        entries.contains(e),
        entry_in_commits(e, prompts, commits),
    decreases entries.len(),
{
    if entries.len() > 0 {
        let rest = filter_entries(entries.drop_last(), prompts, commits);
        let kept = filter_entries(entries, prompts, commits);
        let w = choose|w: int| 0 <= w < kept.len() && kept[w] == e;
        if entry_in_commits(entries.last(), prompts, commits) && w == rest.len() {
            assert(entries[entries.len() - 1] == e);
        } else {
            assert(rest[w] == e);
            lemma_filter_entries_subset(entries.drop_last(), prompts, commits, e);
            let v = choose|v: int| 0 <= v < entries.drop_last().len() && entries.drop_last()[v] == e;
            assert(entries[v] == e);
        }
    }
}

/// A restriction removes entries and adds none: every entry that is left
/// after a restriction, and after any further one, was there before, and its
/// prompt, if it has one, belongs to the commits.
pub proof fn lemma_filter_to_commits_removes_only(
    va: VirtualAttributionsView,
    commits: Seq<Seq<char>>,
    i: int,
    e: EntryView,
)
    requires
        0 <= i < va.files.len(),
        filter_to_commits_spec(va, commits).files[i].entries.contains(e),
    ensures
        va.files[i].entries.contains(e),
        entry_in_commits(e, va.prompts, commits),
{
    lemma_filter_entries_subset(va.files[i].entries, va.prompts, commits, e);
}

// ---------------------------------------------------------------------------
// Runs of lines
// ---------------------------------------------------------------------------
/// The entries for a file whose line `i + 1` has the reference `refs[i]`:
/// each maximal run of lines with one reference is one entry, and a line
/// without reference is in none.
pub open spec fn runs(refs: Seq<Option<AttributionRefView>>) -> Seq<EntryView>
    decreases refs.len(),
{
    if refs.len() == 0 {
        Seq::empty()
    } else {
        let prev = runs(refs.drop_last());
        let n = refs.len() as u32;
        match refs.last() {
            None => prev,
            Some(r) => if prev.len() > 0 && prev.last().end_line + 1 == n && prev.last().reference
                == r {
                prev.drop_last().push(
                    EntryView { start_line: prev.last().start_line, end_line: n, reference: r },
                )
            } else {
                prev.push(EntryView { start_line: n, end_line: n, reference: r })
            },
        }
    }
}

/// The entries of [`runs`] are well formed, end within the lines that have a
/// reference, and give every line its reference.
pub proof fn lemma_runs(refs: Seq<Option<AttributionRefView>>)
    requires
        refs.len() <= u32::MAX,
    ensures
        entries_well_formed(runs(refs)),
        forall|i: int| 0 <= i < runs(refs).len() ==> (#[trigger] runs(refs)[i]).end_line <= refs.len(),
        forall|line: u32|
            #![trigger lookup_in_entries(runs(refs), line)]
            lookup_in_entries(runs(refs), line) == if 1 <= line <= refs.len() {
                refs[line - 1]
            } else {
                None
            },
    decreases refs.len(),
{
    if refs.len() > 0 {
        let before = refs.drop_last();
        lemma_runs(before);
        let prev = runs(before);
        let now = runs(refs);
        let n = refs.len() as u32;
        match refs.last() {
            None => {
                assert forall|line: u32|
                    #![trigger lookup_in_entries(now, line)]
                    lookup_in_entries(now, line) == if 1 <= line <= refs.len() {
                        refs[line - 1]
                    } else {
                        None
                    } by {
                    let _ = lookup_in_entries(prev, line);
                }
            },
            Some(r) => {
                if prev.len() > 0 && prev.last().end_line + 1 == n && prev.last().reference == r {
                    let head = prev.drop_last();
                    let e = EntryView {
                        start_line: prev.last().start_line,
                        end_line: n,
                        reference: r,
                    };
                    assert(now == head.push(e));
                    assert(now.drop_last() =~= head);
                    assert forall|i: int, j: int| 0 <= i < j < now.len() implies (
                    #[trigger] now[i]).end_line < (#[trigger] now[j]).start_line by {
                        assert(now[i] == prev[i]);
                        if j < now.len() - 1 {
                            assert(now[j] == prev[j]);
                        } else {
                            assert(prev[j].start_line == now[j].start_line);
                        }
                    }
                    assert forall|i: int| 0 <= i < now.len() implies 1 <= (
                    #[trigger] now[i]).start_line <= now[i].end_line by {
                        if i < now.len() - 1 {
                            assert(now[i] == prev[i]);
                        } else {
                            assert(prev[i].start_line == now[i].start_line);
                        }
                    }
                    assert forall|i: int| 0 <= i < now.len() implies (#[trigger] now[i]).end_line
                        <= refs.len() by {
                        if i < now.len() - 1 {
                            assert(now[i] == prev[i]);
                        }
                    }
                    assert forall|line: u32|
                        #![trigger lookup_in_entries(now, line)]
                        lookup_in_entries(now, line) == if 1 <= line <= refs.len() {
                            refs[line - 1]
                        } else {
                            None
                        } by {
                        let _ = lookup_in_entries(prev, line);
                        assert(prev.last().reference == r);
                    }
                } else {
                    let e = EntryView { start_line: n, end_line: n, reference: r };
                    assert(now == prev.push(e));
                    assert(now.drop_last() =~= prev);
                    assert forall|i: int, j: int| 0 <= i < j < now.len() implies (
                    #[trigger] now[i]).end_line < (#[trigger] now[j]).start_line by {
                        assert(now[i] == prev[i]);
                        if j < now.len() - 1 {
                            assert(now[j] == prev[j]);
                        }
                    }
                    assert forall|i: int| 0 <= i < now.len() implies 1 <= (
                    #[trigger] now[i]).start_line <= now[i].end_line by {
                        if i < now.len() - 1 {
                            assert(now[i] == prev[i]);
                        }
                    }
                    assert forall|i: int| 0 <= i < now.len() implies (#[trigger] now[i]).end_line
                        <= refs.len() by {
                        if i < now.len() - 1 {
                            assert(now[i] == prev[i]);
                        }
                    }
                    assert forall|line: u32|
                        #![trigger lookup_in_entries(now, line)]
                        lookup_in_entries(now, line) == if 1 <= line <= refs.len() {
                            refs[line - 1]
                        } else {
                            None
                        } by {
                        let _ = lookup_in_entries(prev, line);
                    }
                }
            },
        }
    }
}

/// Makes the entries of the runs of lines with one reference.
pub(crate) fn entries_of_runs(refs: &Vec<Option<AttributionRef>>) -> (r: Vec<Entry>)
    requires
        refs.len() <= u32::MAX,
    ensures
        r.deep_view() == runs(refs.deep_view()),
{
    let ghost rv = refs.deep_view();
    let mut r: Vec<Entry> = Vec::new();
    let mut i: usize = 0;
    proof {
        lemma_deep_view_empty(r);
        assert(rv.take(0) =~= Seq::<Option<AttributionRefView>>::empty());
    }
    while i < refs.len()
        invariant
            0 <= i <= refs.len() <= u32::MAX,
            rv == refs.deep_view(),
            r.deep_view() == runs(rv.take(i as int)),
        decreases refs.len() - i,
    {
        proof {
            lemma_take_next(rv, i as int);
        }
        let n: u32 = (i + 1) as u32;
        match &refs[i] {
            None => {},
            Some(reference) => {
                let len = r.len();
                let extends = len > 0 && r[len - 1].end_line == n - 1 && r[len
                    - 1].reference.same_as(reference);
                if extends {
                    let ghost before = r;
                    let last = r.pop().unwrap();
                    let ghost head = r;
                    let item = Entry {
                        start_line: last.start_line,
                        end_line: n,
                        reference: reference.duplicate(),
                    };
                    r.push(item);
                    proof {
                        lemma_deep_view_push(head, r, item);
                        assert(head.deep_view() =~= before.deep_view().drop_last());
                        assert(before.deep_view().last() == last@);
                    }
                } else {
                    let item = Entry {
                        start_line: n,
                        end_line: n,
                        reference: reference.duplicate(),
                    };
                    let ghost before = r;
                    r.push(item);
                    proof {
                        lemma_deep_view_push(before, r, item);
                    }
                }
            },
        }
        i += 1;
    }
    proof {
        lemma_take_all(rv);
    }
    r
}

// ---------------------------------------------------------------------------
// Merging
// ---------------------------------------------------------------------------
/// The number of lines of a text that a 32-bit line number can name.
pub open spec fn line_count(content: Seq<char>) -> nat {
    if lines(content).len() <= u32::MAX {
        lines(content).len()
    } else {
        u32::MAX as nat
    }
}

/// The reference of a line after merging: that of `preferred` where it has
/// one, else that of `fallback`.
pub open spec fn merged_reference(
    preferred: Seq<FileAttestationView>,
    fallback: Seq<FileAttestationView>,
    path: Seq<char>,
    line: u32,
) -> Option<AttributionRefView> {
    match lookup_in_files(preferred, path, line) {
        Some(r) => Some(r),
        None => lookup_in_files(fallback, path, line),
    }
}

/// The merged references of the lines `1..=count` of `path`.
pub open spec fn merged_references(
    preferred: Seq<FileAttestationView>,
    fallback: Seq<FileAttestationView>,
    path: Seq<char>,
    count: nat,
) -> Seq<Option<AttributionRefView>> {
    Seq::new(count, |i: int| merged_reference(preferred, fallback, path, (i + 1) as u32))
}

/// The prompts of `first`, then those of `second` whose identifier `first`
/// does not know.
pub open spec fn merge_prompts(first: Seq<PromptRecordView>, second: Seq<PromptRecordView>) -> Seq<
    PromptRecordView,
>
    decreases second.len(),
{
    if second.len() == 0 {
        first
    } else {
        let rest = merge_prompts(first, second.drop_last());
        if find_prompt(first, second.last().id) is None {
            rest.push(second.last())
        } else {
            rest
        }
    }
}

/// The merged attribution of one committed file.
pub open spec fn merge_file(
    preferred: Seq<FileAttestationView>,
    fallback: Seq<FileAttestationView>,
    path: Seq<char>,
    content: Seq<char>,
) -> FileAttestationView {
    FileAttestationView {
        file_path: path,
        entries: runs(merged_references(preferred, fallback, path, line_count(content))),
    }
}

/// The attribution of the committed files, line by line: for every line of
/// the committed text the reference of `preferred` where it has one for the
/// line, else that of `fallback`, else none; and for no other line any.
pub open spec fn merge_attributions_favoring_first_spec(
    preferred: VirtualAttributionsView,
    fallback: VirtualAttributionsView,
    committed: Seq<(Seq<char>, Seq<char>)>,
) -> VirtualAttributionsView {
    VirtualAttributionsView {
        base_commit: preferred.base_commit,
        files: Seq::new(
            committed.len(),
            |i: int| merge_file(preferred.files, fallback.files, committed[i].0, committed[i].1),
        ),
        prompts: merge_prompts(preferred.prompts, fallback.prompts),
    }
}

/// Counts the lines of a text that a 32-bit line number can name.
pub(crate) fn count_lines(content: &str) -> (n: u32)
    ensures
        n == line_count(content@),
{
    let chars = to_chars(content);
    let ls = split_lines(&chars);
    assert(views(ls@).len() == ls@.len());
    if ls.len() <= 0xffff_ffff {
        ls.len() as u32
    } else {
        0xffff_ffff
    }
}

fn merged_references_of(
    preferred: &Vec<FileAttestation>,
    fallback: &Vec<FileAttestation>,
    path: &str,
    count: u32,
) -> (r: Vec<Option<AttributionRef>>)
    ensures
        r.deep_view() == merged_references(
            preferred.deep_view(),
            fallback.deep_view(),
            path@,
            count as nat,
        ),
{
    let ghost goal = merged_references(
        preferred.deep_view(),
        fallback.deep_view(),
        path@,
        count as nat,
    );
    let mut r: Vec<Option<AttributionRef>> = Vec::new();
    let mut i: u32 = 0;
    proof {
        lemma_deep_view_empty(r);
        assert(goal.take(0) =~= Seq::<Option<AttributionRefView>>::empty());
    }
    while i < count
        invariant
            0 <= i <= count,
            goal == merged_references(
                preferred.deep_view(),
                fallback.deep_view(),
                path@,
                count as nat,
            ),
            r.deep_view() == goal.take(i as int),
        decreases count - i,
    {
        let line: u32 = i + 1;
        let item = match files_lookup(preferred, path, line) {
            Some(reference) => Some(reference),
            None => files_lookup(fallback, path, line),
        };
        let ghost before = r;
        r.push(item);
        proof {
            lemma_deep_view_push(before, r, item);
            lemma_take_next(goal, i as int);
        }
        i += 1;
    }
    proof {
        lemma_take_all(goal);
    }
    r
}

fn merged_prompts_of(first: &Vec<PromptRecord>, second: &Vec<PromptRecord>) -> (r: Vec<
    PromptRecord,
>)
    ensures
        r.deep_view() == merge_prompts(first.deep_view(), second.deep_view()),
{
    let ghost sv = second.deep_view();
    let mut r = duplicate_prompts(first);
    let mut i: usize = 0;
    proof {
        assert(sv.take(0) =~= Seq::<PromptRecordView>::empty());
    }
    while i < second.len()
        invariant
            0 <= i <= second.len(),
            sv == second.deep_view(),
            r.deep_view() == merge_prompts(first.deep_view(), sv.take(i as int)),
        decreases second.len() - i,
    {
        proof {
            lemma_take_next(sv, i as int);
        }
        if prompts_lookup(first, second[i].id.as_str()).is_none() {
            let item = second[i].duplicate();
            let ghost before = r;
            r.push(item);
            proof {
                lemma_deep_view_push(before, r, item);
            }
        }
        i += 1;
    }
    proof {
        lemma_take_all(sv);
    }
    r
}

/// Merges two attributions over the committed text of the files, which are
/// given as pairs of path and content: `preferred` decides every line for
/// which it has an entry, `fallback` the others. The entries of every merged
/// file are well formed, and so is the whole where no path is committed twice
/// and the prompts of both attributions are well formed.
pub fn merge_attributions_favoring_first(
    preferred: VirtualAttributions,
    fallback: VirtualAttributions,
    committed_file_contents: &[(String, String)],
) -> (merged: VirtualAttributions)
    ensures
        merged@ == merge_attributions_favoring_first_spec(
            preferred@,
            fallback@,
            committed_file_contents.deep_view(),
        ),
        forall|k: int|
            0 <= k < merged@.files.len() ==> entries_well_formed(
                (#[trigger] merged@.files[k]).entries,
            ),
        prompts_well_formed(preferred@.prompts) && prompts_well_formed(fallback@.prompts)
            && distinct_paths(committed_paths(committed_file_contents.deep_view()))
            ==> merged@.well_formed(),
{
    let ghost cv = committed_file_contents.deep_view();
    let ghost goal = merge_attributions_favoring_first_spec(preferred@, fallback@, cv);
    let mut files: Vec<FileAttestation> = Vec::new();
    let mut i: usize = 0;
    proof {
        lemma_deep_view_empty(files);
        assert(goal.files.take(0) =~= Seq::<FileAttestationView>::empty());
    }
    while i < committed_file_contents.len()
        invariant
            0 <= i <= committed_file_contents.len(),
            cv == committed_file_contents.deep_view(),
            goal == merge_attributions_favoring_first_spec(preferred@, fallback@, cv),
            files.deep_view() == goal.files.take(i as int),
        decreases committed_file_contents.len() - i,
    {
        let path = &committed_file_contents[i].0;
        let content = &committed_file_contents[i].1;
        let count = count_lines(content.as_str());
        let refs = merged_references_of(&preferred.files, &fallback.files, path.as_str(), count);
        assert(refs.deep_view().len() == refs.len());
        let item = FileAttestation { file_path: path.clone(), entries: entries_of_runs(&refs) };
        let ghost before = files;
        files.push(item);
        proof {
            lemma_deep_view_push(before, files, item);
            lemma_take_next(goal.files, i as int);
        }
        i += 1;
    }
    proof {
        lemma_take_all(goal.files);
    }
    let prompts = merged_prompts_of(&preferred.prompts, &fallback.prompts);
    proof {
        assert forall|k: int| 0 <= k < goal.files.len() implies entries_well_formed(
            (#[trigger] goal.files[k]).entries,
        ) by {
            lemma_merge_precedence(preferred@, fallback@, cv, k, 0);
        }
        if prompts_well_formed(preferred@.prompts) && prompts_well_formed(fallback@.prompts)
            && distinct_paths(committed_paths(cv)) {
            lemma_merge_well_formed(preferred@, fallback@, cv);
        }
    }
    VirtualAttributions { base_commit: preferred.base_commit, files, prompts }
}

/// After a merge every line of the committed text has the reference of
/// `preferred` where `preferred` has one for it, whatever `fallback` holds;
/// else that of `fallback`; and a line beyond the text has none. The entries
/// of each merged file are well formed.
pub proof fn lemma_merge_precedence(
    preferred: VirtualAttributionsView,
    fallback: VirtualAttributionsView,
    committed: Seq<(Seq<char>, Seq<char>)>,
    i: int,
    line: u32,
)
    requires
        0 <= i < committed.len(),
    ensures
        ({
            let merged = merge_attributions_favoring_first_spec(preferred, fallback, committed);
            let path = committed[i].0;
            let in_text = 1 <= line <= line_count(committed[i].1);
            let found = lookup_in_entries(merged.files[i].entries, line);
            &&& merged.files[i].file_path == path
            &&& entries_well_formed(merged.files[i].entries)
            &&& in_text && lookup_in_files(preferred.files, path, line) is Some ==> found
                == lookup_in_files(preferred.files, path, line)
            &&& in_text && lookup_in_files(preferred.files, path, line) is None ==> found
                == lookup_in_files(fallback.files, path, line)
            &&& !in_text ==> found is None
        }),
{
    let path = committed[i].0;
    let refs = merged_references(
        preferred.files,
        fallback.files,
        path,
        line_count(committed[i].1),
    );
    lemma_runs(refs);
}

// ---------------------------------------------------------------------------
// Back to a log
// ---------------------------------------------------------------------------
/// The attestations that hold at least one entry, in their order.
pub open spec fn attested_files(files: Seq<FileAttestationView>) -> Seq<FileAttestationView>
    decreases files.len(),
{
    if files.len() == 0 {
        Seq::empty()
    } else {
        let rest = attested_files(files.drop_last());
        if files.last().entries.len() > 0 {
            rest.push(files.last())
        } else {
            rest
        }
    }
}

/// The log that holds the attribution: the files that have entries, the
/// prompts, and the base commit.
pub open spec fn to_authorship_log_spec(va: VirtualAttributionsView) -> AuthorshipLogView {
    AuthorshipLogView {
        attestations: attested_files(va.files),
        metadata: AuthorshipMetadataView {
            schema_version: schema_version(),
            git_ai_version: Some(tool_version()),
            base_commit_sha: va.base_commit,
            prompts: va.prompts,
        },
    }
}

impl VirtualAttributions {
    /// The attribution as a log of the base commit. The log of a well-formed
    /// attribution is well formed.
    pub fn to_authorship_log(&self) -> (log: AuthorshipLog)
        ensures
            log@ == to_authorship_log_spec(self@),
            self@.well_formed() ==> log@.well_formed(),
    {
        let ghost fv = self.files.deep_view();
        let mut attestations: Vec<FileAttestation> = Vec::new();
        let mut i: usize = 0;
        proof {
            lemma_deep_view_empty(attestations);
            assert(fv.take(0) =~= Seq::<FileAttestationView>::empty());
        }
        while i < self.files.len()
            invariant
                0 <= i <= self.files.len(),
                fv == self.files.deep_view(),
                attestations.deep_view() == attested_files(fv.take(i as int)),
            decreases self.files.len() - i,
        {
            proof {
                lemma_take_next(fv, i as int);
            }
            if self.files[i].entries.len() > 0 {
                let item = self.files[i].duplicate();
                let ghost before = attestations;
                attestations.push(item);
                proof {
                    lemma_deep_view_push(before, attestations, item);
                }
            }
            i += 1;
        }
        proof {
            lemma_take_all(fv);
            if self@.well_formed() {
                lemma_to_authorship_log_well_formed(self@);
            }
        }
        AuthorshipLog {
            attestations,
            metadata: AuthorshipMetadata {
                schema_version: current_schema_version(),
                git_ai_version: Some(current_tool_version()),
                base_commit_sha: self.base_commit.clone(),
                prompts: duplicate_prompts(&self.prompts),
            },
        }
    }
}

// ---------------------------------------------------------------------------
// Well-formedness
// ---------------------------------------------------------------------------
impl VirtualAttributionsView {
    /// The invariant of an attribution: no path occurs twice, the entries of
    /// each file ascend without sharing a line, and no identifier names two
    /// prompts.
    pub open spec fn well_formed(self) -> bool {
        files_well_formed(self.files) && prompts_well_formed(self.prompts)
    }
}

/// Whether no path occurs twice.
pub open spec fn distinct_paths(paths: Seq<Seq<char>>) -> bool {
    forall|i: int, j: int| 0 <= i < j < paths.len() ==> #[trigger] paths[i] != #[trigger] paths[j]
}

/// The paths of the committed files.
pub open spec fn committed_paths(committed: Seq<(Seq<char>, Seq<char>)>) -> Seq<Seq<char>> {
    Seq::new(committed.len(), |i: int| committed[i].0)
}

proof fn lemma_filter_entries_well_formed(
    entries: Seq<EntryView>,
    prompts: Seq<PromptRecordView>,
    commits: Seq<Seq<char>>,
)
    requires
        entries_well_formed(entries),
    ensures
        entries_well_formed(filter_entries(entries, prompts, commits)),
    decreases entries.len(),
{
    if entries.len() > 0 {
        let head = entries.drop_last();
        let e = entries.last();
        assert(entries_well_formed(head)) by {
            assert forall|a: int| 0 <= a < head.len() implies 1 <= (#[trigger] head[a]).start_line
                <= head[a].end_line by {
                assert(head[a] == entries[a]);
            }
            assert forall|a: int, b: int| 0 <= a < b < head.len() implies (
            #[trigger] head[a]).end_line < (#[trigger] head[b]).start_line by {
                assert(head[a] == entries[a]);
                assert(head[b] == entries[b]);
            }
        }
        lemma_filter_entries_well_formed(head, prompts, commits);
        let rest = filter_entries(head, prompts, commits);
        if entry_in_commits(e, prompts, commits) {
            let now = rest.push(e);
            assert(entries[entries.len() - 1] == e);
            assert forall|a: int| 0 <= a < now.len() implies 1 <= (#[trigger] now[a]).start_line
                <= now[a].end_line by {
                if a < rest.len() {
                    assert(now[a] == rest[a]);
                }
            }
            assert forall|a: int, b: int| 0 <= a < b < now.len() implies (
            #[trigger] now[a]).end_line < (#[trigger] now[b]).start_line by {
                assert(now[a] == rest[a]);
                if b < rest.len() {
                    assert(now[b] == rest[b]);
                } else {
                    assert(rest.contains(rest[a]));
                    lemma_filter_entries_subset(head, prompts, commits, rest[a]);
                    let w = choose|w: int| 0 <= w < head.len() && head[w] == rest[a];
                    assert(entries[w] == rest[a]);
                    assert(entries[w].end_line < entries[entries.len() - 1].start_line);
                }
            }
        }
    }
}

proof fn lemma_filter_prompts_subset(
    prompts: Seq<PromptRecordView>,
    commits: Seq<Seq<char>>,
    p: PromptRecordView,
)
    requires
        filter_prompts(prompts, commits).contains(p),
    ensures
        prompts.contains(p),
    decreases prompts.len(),
{
    if prompts.len() > 0 {
        let rest = filter_prompts(prompts.drop_last(), commits);
        let kept = filter_prompts(prompts, commits);
        let w = choose|w: int| 0 <= w < kept.len() && kept[w] == p;
        if commits.contains(prompts.last().commit_sha) && w == rest.len() {
            assert(prompts[prompts.len() - 1] == p);
        } else {
            assert(rest[w] == p);
            lemma_filter_prompts_subset(prompts.drop_last(), commits, p);
            let v = choose|v: int| 0 <= v < prompts.drop_last().len() && prompts.drop_last()[v] == p;
            assert(prompts[v] == p);
        }
    }
}

proof fn lemma_filter_prompts_well_formed(prompts: Seq<PromptRecordView>, commits: Seq<Seq<char>>)
    requires
        prompts_well_formed(prompts),
    ensures
        prompts_well_formed(filter_prompts(prompts, commits)),
    decreases prompts.len(),
{
    if prompts.len() > 0 {
        let head = prompts.drop_last();
        assert(prompts_well_formed(head)) by {
            assert forall|a: int, b: int| 0 <= a < b < head.len() implies (#[trigger] head[a]).id != (
            #[trigger] head[b]).id by {
                assert(head[a] == prompts[a]);
                assert(head[b] == prompts[b]);
            }
        }
        lemma_filter_prompts_well_formed(head, commits);
        let rest = filter_prompts(head, commits);
        if commits.contains(prompts.last().commit_sha) {
            let now = rest.push(prompts.last());
            assert forall|a: int, b: int| 0 <= a < b < now.len() implies (#[trigger] now[a]).id != (
            #[trigger] now[b]).id by {
                assert(now[a] == rest[a]);
                if b < rest.len() {
                    assert(now[b] == rest[b]);
                } else {
                    assert(rest.contains(rest[a]));
                    lemma_filter_prompts_subset(head, commits, rest[a]);
                    let w = choose|w: int| 0 <= w < head.len() && head[w] == rest[a];
                    assert(prompts[w] == rest[a]);
                    assert(prompts[w].id != prompts[prompts.len() - 1].id);
                }
            }
        }
    }
}

/// A restriction of a well-formed attribution is well formed.
pub proof fn lemma_filter_to_commits_well_formed(
    va: VirtualAttributionsView,
    commits: Seq<Seq<char>>,
)
    requires
        va.well_formed(),
    ensures
        filter_to_commits_spec(va, commits).well_formed(),
{
    let out = filter_to_commits_spec(va, commits);
    lemma_filter_prompts_well_formed(va.prompts, commits);
    assert forall|i: int| 0 <= i < out.files.len() implies entries_well_formed(
        (#[trigger] out.files[i]).entries,
    ) by {
        assert(entries_well_formed(va.files[i].entries));
        lemma_filter_entries_well_formed(va.files[i].entries, va.prompts, commits);
    }
    assert forall|i: int, j: int| 0 <= i < j < out.files.len() implies (
    #[trigger] out.files[i]).file_path != (#[trigger] out.files[j]).file_path by {
        assert(va.files[i].file_path != va.files[j].file_path);
    }
}

proof fn lemma_find_prompt_none(prompts: Seq<PromptRecordView>, id: Seq<char>, k: int)
    requires
        find_prompt(prompts, id) is None,
        0 <= k < prompts.len(),
    ensures
        prompts[k].id != id,
    decreases prompts.len(),
{
    if k < prompts.len() - 1 {
        assert(prompts.drop_last()[k] == prompts[k]);
        lemma_find_prompt_none(prompts.drop_last(), id, k);
    }
}

pub(crate) proof fn lemma_merge_prompts_prefix(first: Seq<PromptRecordView>, second: Seq<PromptRecordView>)
    ensures
        first.len() <= merge_prompts(first, second).len(),
        forall|k: int|
            0 <= k < first.len() ==> #[trigger] merge_prompts(first, second)[k] == first[k],
    decreases second.len(),
{
    if second.len() > 0 {
        lemma_merge_prompts_prefix(first, second.drop_last());
    }
}

pub(crate) proof fn lemma_merge_prompts_added(
    first: Seq<PromptRecordView>,
    second: Seq<PromptRecordView>,
    k: int,
)
    requires
        first.len() <= k < merge_prompts(first, second).len(),
    ensures
        second.contains(merge_prompts(first, second)[k]),
        find_prompt(first, merge_prompts(first, second)[k].id) is None,
    decreases second.len(),
{
    if second.len() > 0 {
        let rest = merge_prompts(first, second.drop_last());
        if k < rest.len() {
            lemma_merge_prompts_added(first, second.drop_last(), k);
            let w = choose|w: int|
                0 <= w < second.drop_last().len() && second.drop_last()[w] == rest[k];
            assert(second[w] == rest[k]);
        } else {
            assert(second[second.len() - 1] == second.last());
        }
    }
}

proof fn lemma_merge_prompts_well_formed(
    first: Seq<PromptRecordView>,
    second: Seq<PromptRecordView>,
)
    requires
        prompts_well_formed(first),
        prompts_well_formed(second),
    ensures
        prompts_well_formed(merge_prompts(first, second)),
    decreases second.len(),
{
    if second.len() > 0 {
        let head = second.drop_last();
        assert(prompts_well_formed(head)) by {
            assert forall|a: int, b: int| 0 <= a < b < head.len() implies (#[trigger] head[a]).id != (
            #[trigger] head[b]).id by {
                assert(head[a] == second[a]);
                assert(head[b] == second[b]);
            }
        }
        lemma_merge_prompts_well_formed(first, head);
        let rest = merge_prompts(first, head);
        let p = second.last();
        if find_prompt(first, p.id) is None {
            let now = rest.push(p);
            assert forall|a: int, b: int| 0 <= a < b < now.len() implies (#[trigger] now[a]).id != (
            #[trigger] now[b]).id by {
                assert(now[a] == rest[a]);
                if b < rest.len() {
                    assert(now[b] == rest[b]);
                } else {
                    lemma_merge_prompts_prefix(first, head);
                    if a < first.len() {
                        lemma_find_prompt_none(first, p.id, a);
                    } else {
                        lemma_merge_prompts_added(first, head, a);
                        let w = choose|w: int| 0 <= w < head.len() && head[w] == rest[a];
                        assert(second[w] == rest[a]);
                        assert(second[w].id != second[second.len() - 1].id);
                    }
                }
            }
        }
    }
}

proof fn lemma_lookup_other_path(files: Seq<FileAttestationView>, path: Seq<char>, line: u32)
    requires
        forall|k: int| 0 <= k < files.len() ==> (#[trigger] files[k]).file_path != path,
    ensures
        lookup_in_files(files, path, line) is None,
    decreases files.len(),
{
    if files.len() > 0 {
        assert forall|k: int| 0 <= k < files.drop_last().len() implies (
        #[trigger] files.drop_last()[k]).file_path != path by {
            assert(files.drop_last()[k] == files[k]);
        }
        lemma_lookup_other_path(files.drop_last(), path, line);
        assert(files[files.len() - 1].file_path != path);
    }
}

/// Among attestations with distinct paths a line is looked up in the one
/// attestation of its file.
pub proof fn lemma_lookup_in_files_by_index(
    files: Seq<FileAttestationView>,
    i: int,
    line: u32,
)
    requires
        0 <= i < files.len(),
        forall|a: int, b: int|
            0 <= a < b < files.len() ==> (#[trigger] files[a]).file_path != (
            #[trigger] files[b]).file_path,
    ensures
        lookup_in_files(files, files[i].file_path, line) == lookup_in_entries(
            files[i].entries,
            line,
        ),
    decreases files.len(),
{
    let path = files[i].file_path;
    let head = files.drop_last();
    if i == files.len() - 1 {
        assert forall|k: int| 0 <= k < head.len() implies (#[trigger] head[k]).file_path != path by {
            assert(head[k] == files[k]);
            assert(files[k].file_path != files[i].file_path);
        }
        lemma_lookup_other_path(head, path, line);
    } else {
        assert forall|a: int, b: int| 0 <= a < b < head.len() implies (
        #[trigger] head[a]).file_path != (#[trigger] head[b]).file_path by {
            assert(head[a] == files[a]);
            assert(head[b] == files[b]);
        }
        assert(head[i] == files[i]);
        lemma_lookup_in_files_by_index(head, i, line);
        assert(files[i].file_path != files[files.len() - 1].file_path);
    }
}

/// After a merge over committed files with distinct paths, looking a line of
/// a committed file up gives the reference of `preferred` where `preferred`
/// has one for the line, whatever `fallback` holds; else that of `fallback`;
/// and nothing for a line beyond the committed text.
pub proof fn lemma_merge_precedence_by_path(
    preferred: VirtualAttributionsView,
    fallback: VirtualAttributionsView,
    committed: Seq<(Seq<char>, Seq<char>)>,
    i: int,
    line: u32,
)
    requires
        0 <= i < committed.len(),
        distinct_paths(committed_paths(committed)),
    ensures
        ({
            let merged = merge_attributions_favoring_first_spec(preferred, fallback, committed);
            let path = committed[i].0;
            let found = lookup_in_files(merged.files, path, line);
            if 1 <= line <= line_count(committed[i].1) {
                found == merged_reference(preferred.files, fallback.files, path, line)
            } else {
                found is None
            }
        }),
{
    let merged = merge_attributions_favoring_first_spec(preferred, fallback, committed);
    lemma_merge_precedence(preferred, fallback, committed, i, line);
    assert forall|a: int, b: int| 0 <= a < b < merged.files.len() implies (
    #[trigger] merged.files[a]).file_path != (#[trigger] merged.files[b]).file_path by {
        assert(committed_paths(committed)[a] != committed_paths(committed)[b]);
    }
    lemma_lookup_in_files_by_index(merged.files, i, line);
}

/// A merge over committed files with distinct paths, of attributions whose
/// prompts are well formed, is well formed.
pub proof fn lemma_merge_well_formed(
    preferred: VirtualAttributionsView,
    fallback: VirtualAttributionsView,
    committed: Seq<(Seq<char>, Seq<char>)>,
)
    requires
        prompts_well_formed(preferred.prompts),
        prompts_well_formed(fallback.prompts),
        distinct_paths(committed_paths(committed)),
    ensures
        merge_attributions_favoring_first_spec(preferred, fallback, committed).well_formed(),
{
    let merged = merge_attributions_favoring_first_spec(preferred, fallback, committed);
    lemma_merge_prompts_well_formed(preferred.prompts, fallback.prompts);
    assert forall|i: int| 0 <= i < merged.files.len() implies entries_well_formed(
        (#[trigger] merged.files[i]).entries,
    ) by {
        lemma_merge_precedence(preferred, fallback, committed, i, 0);
    }
    assert forall|i: int, j: int| 0 <= i < j < merged.files.len() implies (
    #[trigger] merged.files[i]).file_path != (#[trigger] merged.files[j]).file_path by {
        assert(committed_paths(committed)[i] != committed_paths(committed)[j]);
    }
}

pub(crate) proof fn lemma_attested_files_subset(files: Seq<FileAttestationView>, f: FileAttestationView)
    requires
        attested_files(files).contains(f),
    ensures
        files.contains(f),
    decreases files.len(),
{
    if files.len() > 0 {
        let rest = attested_files(files.drop_last());
        let kept = attested_files(files);
        let w = choose|w: int| 0 <= w < kept.len() && kept[w] == f;
        if files.last().entries.len() > 0 && w == rest.len() {
            assert(files[files.len() - 1] == f);
        } else {
            assert(rest[w] == f);
            lemma_attested_files_subset(files.drop_last(), f);
            let v = choose|v: int| 0 <= v < files.drop_last().len() && files.drop_last()[v] == f;
            assert(files[v] == f);
        }
    }
}

proof fn lemma_attested_files_well_formed(files: Seq<FileAttestationView>)
    requires
        files_well_formed(files),
    ensures
        files_well_formed(attested_files(files)),
    decreases files.len(),
{
    if files.len() > 0 {
        let head = files.drop_last();
        assert(files_well_formed(head)) by {
            assert forall|a: int| 0 <= a < head.len() implies entries_well_formed(
                (#[trigger] head[a]).entries,
            ) by {
                assert(head[a] == files[a]);
            }
            assert forall|a: int, b: int| 0 <= a < b < head.len() implies (
            #[trigger] head[a]).file_path != (#[trigger] head[b]).file_path by {
                assert(head[a] == files[a]);
                assert(head[b] == files[b]);
            }
        }
        lemma_attested_files_well_formed(head);
        let rest = attested_files(head);
        if files.last().entries.len() > 0 {
            let now = rest.push(files.last());
            assert(files[files.len() - 1] == files.last());
            assert forall|a: int| 0 <= a < now.len() implies entries_well_formed(
                (#[trigger] now[a]).entries,
            ) by {
                if a < rest.len() {
                    assert(now[a] == rest[a]);
                }
            }
            assert forall|a: int, b: int| 0 <= a < b < now.len() implies (
            #[trigger] now[a]).file_path != (#[trigger] now[b]).file_path by {
                assert(now[a] == rest[a]);
                if b < rest.len() {
                    assert(now[b] == rest[b]);
                } else {
                    assert(rest.contains(rest[a]));
                    lemma_attested_files_subset(head, rest[a]);
                    let w = choose|w: int| 0 <= w < head.len() && head[w] == rest[a];
                    assert(files[w] == rest[a]);
                    assert(files[w].file_path != files[files.len() - 1].file_path);
                }
            }
        }
    }
}

/// The log of a well-formed attribution is well formed.
pub proof fn lemma_to_authorship_log_well_formed(va: VirtualAttributionsView)
    requires
        va.well_formed(),
    ensures
        to_authorship_log_spec(va).well_formed(),
{
    lemma_attested_files_well_formed(va.files);
}

proof fn lemma_find_file_member(files: Seq<FileAttestationView>, path: Seq<char>)
    ensures
        find_file(files, path) matches Some(f) ==> files.contains(f),
    decreases files.len(),
{
    if files.len() > 0 {
        lemma_find_file_member(files.drop_last(), path);
        match find_file(files.drop_last(), path) {
            Some(f) => {
                let w = choose|w: int| 0 <= w < files.drop_last().len() && files.drop_last()[w] == f;
                assert(files[w] == f);
            },
            None => {
                assert(files[files.len() - 1] == files.last());
            },
        }
    }
}

/// The attribution that is made for changed files with distinct paths, of
/// a well-formed stored log or of an ancestor's log with well-formed prompts,
/// is well formed.
pub proof fn lemma_new_for_base_commit_well_formed(
    commit: Seq<char>,
    changed_files: Seq<Seq<char>>,
    stored: Option<AuthorshipLogView>,
    ancestor: Option<AncestorLogView>,
)
    requires
        distinct_paths(changed_files),
        prompts_well_formed(base_prompts(stored, ancestor)),
        stored matches Some(log) ==> log.well_formed(),
    ensures
        new_for_base_commit_spec(commit, changed_files, stored, ancestor).well_formed(),
{
    let va = new_for_base_commit_spec(commit, changed_files, stored, ancestor);
    assert forall|i: int| 0 <= i < va.files.len() implies entries_well_formed(
        (#[trigger] va.files[i]).entries,
    ) by {
        match stored {
            Some(log) => {
                lemma_find_file_member(log.attestations, changed_files[i]);
                match find_file(log.attestations, changed_files[i]) {
                    Some(f) => {
                        let w = choose|w: int|
                            0 <= w < log.attestations.len() && log.attestations[w] == f;
                        assert(entries_well_formed(log.attestations[w].entries));
                    },
                    None => {},
                }
            },
            None => match ancestor {
                Some(a) => {
                    lemma_carried_lookup(
                        a.log.attestations,
                        a.hunks,
                        a.contents,
                        changed_files[i],
                        0,
                    );
                },
                None => {},
            },
        }
    }
    assert forall|i: int, j: int| 0 <= i < j < va.files.len() implies (
    #[trigger] va.files[i]).file_path != (#[trigger] va.files[j]).file_path by {
        assert(changed_files[i] != changed_files[j]);
    }
}

} // verus!
