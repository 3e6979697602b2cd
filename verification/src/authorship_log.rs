//! The authorship log of a commit: which line ranges of which files a human
//! or an AI prompt wrote, and the prompts that the ranges refer to.

use crate::sequences::{
    lemma_deep_view_empty, lemma_deep_view_push, lemma_take_all, lemma_take_next,
};
use vstd::prelude::*;
use vstd::string::*;

verus! {

// ---------------------------------------------------------------------------
// Data
// ---------------------------------------------------------------------------
/// One AI interaction.
#[derive(Debug, Clone, PartialEq, Eq)]
pub struct PromptRecord {
    /// The identifier by which entries refer to the prompt.
    pub id: String,
    /// The tool or agent that answered.
    pub tool: String,
    /// The model behind the tool.
    pub model: String,
    /// Seconds since the epoch.
    pub timestamp: u64,
    /// The commit in which the prompt's lines were first recorded.
    pub commit_sha: String,
}

/// The mathematical value of a [`PromptRecord`].
pub struct PromptRecordView {
    pub id: Seq<char>,
    pub tool: Seq<char>,
    pub model: Seq<char>,
    pub timestamp: u64,
    pub commit_sha: Seq<char>,
}

impl View for PromptRecord {
    type V = PromptRecordView;

    open spec fn view(&self) -> PromptRecordView {
        PromptRecordView {
            id: self.id@,
            tool: self.tool@,
            model: self.model@,
            timestamp: self.timestamp,
            commit_sha: self.commit_sha@,
        }
    }
}

impl DeepView for PromptRecord {
    type V = PromptRecordView;

    open spec fn deep_view(&self) -> PromptRecordView {
        self@
    }
}

impl PromptRecord {
    /// A copy of the record.
    pub fn duplicate(&self) -> (r: PromptRecord)
        ensures
            r@ == self@,
    {
        PromptRecord {
            id: self.id.clone(),
            tool: self.tool.clone(),
            model: self.model.clone(),
            timestamp: self.timestamp,
            commit_sha: self.commit_sha.clone(),
        }
    }
}

/// To whom an entry attributes its lines.
#[derive(Debug, Clone, PartialEq, Eq)]
pub enum AttributionRef {
    /// An AI prompt, by its identifier.
    Prompt(String),
    /// A human, by the author identity of the version-control system.
    Human(String),
}

/// The mathematical value of an [`AttributionRef`].
pub enum AttributionRefView {
    Prompt(Seq<char>),
    Human(Seq<char>),
}

impl View for AttributionRef {
    type V = AttributionRefView;

    open spec fn view(&self) -> AttributionRefView {
        match self {
            AttributionRef::Prompt(id) => AttributionRefView::Prompt(id@),
            AttributionRef::Human(a) => AttributionRefView::Human(a@),
        }
    }
}

impl DeepView for AttributionRef {
    type V = AttributionRefView;

    open spec fn deep_view(&self) -> AttributionRefView {
        self@
    }
}

impl AttributionRef {
    /// A copy of the reference.
    pub fn duplicate(&self) -> (r: AttributionRef)
        ensures
            r@ == self@,
    {
        match self {
            AttributionRef::Prompt(id) => AttributionRef::Prompt(id.clone()),
            AttributionRef::Human(a) => AttributionRef::Human(a.clone()),
        }
    }

    /// Whether two references name the same prompt or the same human.
    pub fn same_as(&self, other: &AttributionRef) -> (r: bool)
        ensures
            r == (self@ == other@),
    {
        match (self, other) {
            (AttributionRef::Prompt(a), AttributionRef::Prompt(b)) => *a == *b,
            (AttributionRef::Human(a), AttributionRef::Human(b)) => *a == *b,
            _ => false,
        }
    }
}

/// The lines `start_line..=end_line` of a file, numbered from 1, and to whom
/// they are attributed.
#[derive(Debug, Clone, PartialEq, Eq)]
pub struct Entry {
    pub start_line: u32,
    pub end_line: u32,
    pub reference: AttributionRef,
}

/// The mathematical value of an [`Entry`].
pub struct EntryView {
    pub start_line: u32,
    pub end_line: u32,
    pub reference: AttributionRefView,
}

impl View for Entry {
    type V = EntryView;

    open spec fn view(&self) -> EntryView {
        EntryView {
            start_line: self.start_line,
            end_line: self.end_line,
            reference: self.reference@,
        }
    }
}

impl DeepView for Entry {
    type V = EntryView;

    open spec fn deep_view(&self) -> EntryView {
        self@
    }
}

impl Entry {
    /// A copy of the entry.
    pub fn duplicate(&self) -> (r: Entry)
        ensures
            r@ == self@,
    {
        Entry {
            start_line: self.start_line,
            end_line: self.end_line,
            reference: self.reference.duplicate(),
        }
    }
}

/// What is known of one file: lines outside every entry carry no data.
#[derive(Debug, Clone, PartialEq, Eq)]
pub struct FileAttestation {
    pub file_path: String,
    pub entries: Vec<Entry>,
}

/// The mathematical value of a [`FileAttestation`].
pub struct FileAttestationView {
    pub file_path: Seq<char>,
    pub entries: Seq<EntryView>,
}

impl View for FileAttestation {
    type V = FileAttestationView;

    open spec fn view(&self) -> FileAttestationView {
        FileAttestationView { file_path: self.file_path@, entries: self.entries.deep_view() }
    }
}

impl DeepView for FileAttestation {
    type V = FileAttestationView;

    open spec fn deep_view(&self) -> FileAttestationView {
        self@
    }
}

/// A copy of a list of entries.
pub fn duplicate_entries(entries: &Vec<Entry>) -> (r: Vec<Entry>)
    ensures
        r.deep_view() == entries.deep_view(),
{
    let mut r: Vec<Entry> = Vec::new();
    let mut i: usize = 0;
    proof {
        lemma_deep_view_empty(r);
        assert(entries.deep_view().take(0) =~= Seq::empty());
    }
    while i < entries.len()
        invariant
            0 <= i <= entries.len(),
            r.deep_view() == entries.deep_view().take(i as int),
        decreases entries.len() - i,
    {
        let ghost before = r;
        let item = entries[i].duplicate();
        r.push(item);
        proof {
            lemma_deep_view_push(before, r, item);
            lemma_take_next(entries.deep_view(), i as int);
        }
        i += 1;
    }
    proof {
        lemma_take_all(entries.deep_view());
    }
    r
}

impl FileAttestation {
    /// A copy of the attestation.
    pub fn duplicate(&self) -> (r: FileAttestation)
        ensures
            r@ == self@,
    {
        FileAttestation {
            file_path: self.file_path.clone(),
            entries: duplicate_entries(&self.entries),
        }
    }
}

/// A copy of a list of prompts.
pub fn duplicate_prompts(prompts: &Vec<PromptRecord>) -> (r: Vec<PromptRecord>)
    ensures
        r.deep_view() == prompts.deep_view(),
{
    let mut r: Vec<PromptRecord> = Vec::new();
    let mut i: usize = 0;
    proof {
        lemma_deep_view_empty(r);
        assert(prompts.deep_view().take(0) =~= Seq::empty());
    }
    while i < prompts.len()
        invariant
            0 <= i <= prompts.len(),
            r.deep_view() == prompts.deep_view().take(i as int),
        decreases prompts.len() - i,
    {
        let ghost before = r;
        let item = prompts[i].duplicate();
        r.push(item);
        proof {
            lemma_deep_view_push(before, r, item);
            lemma_take_next(prompts.deep_view(), i as int);
        }
        i += 1;
    }
    proof {
        lemma_take_all(prompts.deep_view());
    }
    r
}

/// A copy of a list of attestations.
pub fn duplicate_attestations(files: &Vec<FileAttestation>) -> (r: Vec<FileAttestation>)
    ensures
        r.deep_view() == files.deep_view(),
{
    let mut r: Vec<FileAttestation> = Vec::new();
    let mut i: usize = 0;
    proof {
        lemma_deep_view_empty(r);
        assert(files.deep_view().take(0) =~= Seq::empty());
    }
    while i < files.len()
        invariant
            0 <= i <= files.len(),
            r.deep_view() == files.deep_view().take(i as int),
        decreases files.len() - i,
    {
        let ghost before = r;
        let item = files[i].duplicate();
        r.push(item);
        proof {
            lemma_deep_view_push(before, r, item);
            lemma_take_next(files.deep_view(), i as int);
        }
        i += 1;
    }
    proof {
        lemma_take_all(files.deep_view());
    }
    r
}

/// The trailer of a log.
#[derive(Debug, Clone, PartialEq, Eq)]
pub struct AuthorshipMetadata {
    pub schema_version: String,
    pub git_ai_version: Option<String>,
    pub base_commit_sha: String,
    /// The prompts by identifier: no identifier occurs twice.
    pub prompts: Vec<PromptRecord>,
}

/// The mathematical value of an [`AuthorshipMetadata`].
pub struct AuthorshipMetadataView {
    pub schema_version: Seq<char>,
    pub git_ai_version: Option<Seq<char>>,
    pub base_commit_sha: Seq<char>,
    pub prompts: Seq<PromptRecordView>,
}

impl View for AuthorshipMetadata {
    type V = AuthorshipMetadataView;

    open spec fn view(&self) -> AuthorshipMetadataView {
        AuthorshipMetadataView {
            schema_version: self.schema_version@,
            git_ai_version: match self.git_ai_version {
                Some(v) => Some(v@),
                None => None,
            },
            base_commit_sha: self.base_commit_sha@,
            prompts: self.prompts.deep_view(),
        }
    }
}

impl DeepView for AuthorshipMetadata {
    type V = AuthorshipMetadataView;

    open spec fn deep_view(&self) -> AuthorshipMetadataView {
        self@
    }
}

/// The record of one commit.
#[derive(Debug, Clone, PartialEq, Eq)]
pub struct AuthorshipLog {
    pub attestations: Vec<FileAttestation>,
    pub metadata: AuthorshipMetadata,
}

/// The mathematical value of an [`AuthorshipLog`].
pub struct AuthorshipLogView {
    pub attestations: Seq<FileAttestationView>,
    pub metadata: AuthorshipMetadataView,
}

impl View for AuthorshipLog {
    type V = AuthorshipLogView;

    open spec fn view(&self) -> AuthorshipLogView {
        AuthorshipLogView {
            attestations: self.attestations.deep_view(),
            metadata: self.metadata@,
        }
    }
}

impl DeepView for AuthorshipLog {
    type V = AuthorshipLogView;

    open spec fn deep_view(&self) -> AuthorshipLogView {
        self@
    }
}

/// What is stored for a commit: its log, or nothing but its author.
#[derive(Debug, Clone, PartialEq, Eq)]
pub enum CommitAuthorship {
    Log { sha: String, git_author: String, authorship_log: AuthorshipLog },
    NoLog { sha: String, git_author: String },
}

/// The mathematical value of a [`CommitAuthorship`].
pub enum CommitAuthorshipView {
    Log { sha: Seq<char>, git_author: Seq<char>, authorship_log: AuthorshipLogView },
    NoLog { sha: Seq<char>, git_author: Seq<char> },
}

impl View for CommitAuthorship {
    type V = CommitAuthorshipView;

    open spec fn view(&self) -> CommitAuthorshipView {
        match self {
            CommitAuthorship::Log { sha, git_author, authorship_log } => CommitAuthorshipView::Log {
                sha: sha@,
                git_author: git_author@,
                authorship_log: authorship_log@,
            },
            CommitAuthorship::NoLog { sha, git_author } => CommitAuthorshipView::NoLog {
                sha: sha@,
                git_author: git_author@,
            },
        }
    }
}

impl DeepView for CommitAuthorship {
    type V = CommitAuthorshipView;

    open spec fn deep_view(&self) -> CommitAuthorshipView {
        self@
    }
}

// ---------------------------------------------------------------------------
// Well-formedness
// ---------------------------------------------------------------------------
/// Whether `line` lies in the range of `e`.
pub open spec fn entry_covers(e: EntryView, line: u32) -> bool {
    e.start_line <= line <= e.end_line
}

/// The entries are ranges of lines numbered from 1, in ascending order, no
/// two of which share a line.
pub open spec fn entries_well_formed(entries: Seq<EntryView>) -> bool {
    &&& forall|i: int|
        0 <= i < entries.len() ==> 1 <= (#[trigger] entries[i]).start_line
            <= entries[i].end_line
    &&& forall|i: int, j: int|
        0 <= i < j < entries.len() ==> (#[trigger] entries[i]).end_line
            < (#[trigger] entries[j]).start_line
}

/// No identifier names two prompts.
pub open spec fn prompts_well_formed(prompts: Seq<PromptRecordView>) -> bool {
    forall|i: int, j: int|
        0 <= i < j < prompts.len() ==> (#[trigger] prompts[i]).id != (#[trigger] prompts[j]).id
}

/// No path names two attestations, and the entries of each are well formed.
pub open spec fn files_well_formed(files: Seq<FileAttestationView>) -> bool {
    &&& forall|i: int|
        0 <= i < files.len() ==> entries_well_formed((#[trigger] files[i]).entries)
    &&& forall|i: int, j: int|
        0 <= i < j < files.len() ==> (#[trigger] files[i]).file_path
            != (#[trigger] files[j]).file_path
}

impl AuthorshipLogView {
    /// The invariant of a log.
    pub open spec fn well_formed(self) -> bool {
        files_well_formed(self.attestations) && prompts_well_formed(self.metadata.prompts)
    }
}

// ---------------------------------------------------------------------------
// Looking a line up
// ---------------------------------------------------------------------------
/// The reference of the first entry whose range holds `line`.
pub open spec fn lookup_in_entries(entries: Seq<EntryView>, line: u32) -> Option<
    AttributionRefView,
>
    decreases entries.len(),
{
    if entries.len() == 0 {
        None
    } else {
        match lookup_in_entries(entries.drop_last(), line) {
            Some(r) => Some(r),
            None => if entry_covers(entries.last(), line) {
                Some(entries.last().reference)
            } else {
                None
            },
        }
    }
}

/// The reference that the first attestation of `path` with an entry for
/// `line` gives to it.
pub open spec fn lookup_in_files(files: Seq<FileAttestationView>, path: Seq<char>, line: u32)
    -> Option<AttributionRefView>
    decreases files.len(),
{
    if files.len() == 0 {
        None
    } else {
        match lookup_in_files(files.drop_last(), path, line) {
            Some(r) => Some(r),
            None => if files.last().file_path == path {
                lookup_in_entries(files.last().entries, line)
            } else {
                None
            },
        }
    }
}

/// The first prompt with the identifier `id`.
pub open spec fn find_prompt(prompts: Seq<PromptRecordView>, id: Seq<char>) -> Option<
    PromptRecordView,
>
    decreases prompts.len(),
{
    if prompts.len() == 0 {
        None
    } else {
        match find_prompt(prompts.drop_last(), id) {
            Some(p) => Some(p),
            None => if prompts.last().id == id {
                Some(prompts.last())
            } else {
                None
            },
        }
    }
}

/// What a prefix of the entries gives to a line, all entries give to it.
pub proof fn lemma_lookup_in_entries_prefix(entries: Seq<EntryView>, k: int, line: u32)
    requires
        0 <= k <= entries.len(),
        lookup_in_entries(entries.take(k), line) is Some,
    ensures
        lookup_in_entries(entries, line) == lookup_in_entries(entries.take(k), line),
    decreases entries.len() - k,
{
    if k < entries.len() {
        lemma_take_next(entries, k);
        lemma_lookup_in_entries_prefix(entries, k + 1, line);
    } else {
        lemma_take_all(entries);
    }
}

/// What a prefix of the attestations gives to a line, all attestations give
/// to it.
pub proof fn lemma_lookup_in_files_prefix(
    files: Seq<FileAttestationView>,
    k: int,
    path: Seq<char>,
    line: u32,
)
    requires
        0 <= k <= files.len(),
        lookup_in_files(files.take(k), path, line) is Some,
    ensures
        lookup_in_files(files, path, line) == lookup_in_files(files.take(k), path, line),
    decreases files.len() - k,
{
    if k < files.len() {
        lemma_take_next(files, k);
        lemma_lookup_in_files_prefix(files, k + 1, path, line);
    } else {
        lemma_take_all(files);
    }
}

/// The prompt that is found among a prefix of the prompts is found among all
/// of them.
pub proof fn lemma_find_prompt_prefix(prompts: Seq<PromptRecordView>, k: int, id: Seq<char>)
    requires
        0 <= k <= prompts.len(),
        find_prompt(prompts.take(k), id) is Some,
    ensures
        find_prompt(prompts, id) == find_prompt(prompts.take(k), id),
    decreases prompts.len() - k,
{
    if k < prompts.len() {
        lemma_take_next(prompts, k);
        lemma_find_prompt_prefix(prompts, k + 1, id);
    } else {
        lemma_take_all(prompts);
    }
}

/// The reference of the first entry whose range holds `line`.
pub fn entries_lookup(entries: &Vec<Entry>, line: u32) -> (r: Option<AttributionRef>)
    ensures
        r.deep_view() == lookup_in_entries(entries.deep_view(), line),
{
    let ghost ev = entries.deep_view();
    let mut i: usize = 0;
    while i < entries.len()
        invariant
            0 <= i <= entries.len(),
            ev == entries.deep_view(),
            lookup_in_entries(ev.take(i as int), line) is None,
        decreases entries.len() - i,
    {
        proof {
            lemma_take_next(ev, i as int);
        }
        if entries[i].start_line <= line && line <= entries[i].end_line {
            proof {
                lemma_lookup_in_entries_prefix(ev, i + 1, line);
            }
            return Some(entries[i].reference.duplicate());
        }
        i += 1;
    }
    proof {
        lemma_take_all(ev);
    }
    None
}

/// The reference that the attestations give to `line` of `path`.
pub fn files_lookup(files: &Vec<FileAttestation>, path: &str, line: u32) -> (r: Option<
    AttributionRef,
>)
    ensures
        r.deep_view() == lookup_in_files(files.deep_view(), path@, line),
{
    let ghost fv = files.deep_view();
    let mut i: usize = 0;
    while i < files.len()
        invariant
            0 <= i <= files.len(),
            fv == files.deep_view(),
            lookup_in_files(fv.take(i as int), path@, line) is None,
        decreases files.len() - i,
    {
        proof {
            lemma_take_next(fv, i as int);
        }
        if crate::text::str_equal(files[i].file_path.as_str(), path) {
            let found = entries_lookup(&files[i].entries, line);
            if found.is_some() {
                proof {
                    lemma_lookup_in_files_prefix(fv, i + 1, path@, line);
                }
                return found;
            }
        }
        i += 1;
    }
    proof {
        lemma_take_all(fv);
    }
    None
}

/// The first prompt with the identifier `id`.
pub fn prompts_lookup(prompts: &Vec<PromptRecord>, id: &str) -> (r: Option<PromptRecord>)
    ensures
        r.deep_view() == find_prompt(prompts.deep_view(), id@),
{
    let ghost pv = prompts.deep_view();
    let mut i: usize = 0;
    while i < prompts.len()
        invariant
            0 <= i <= prompts.len(),
            pv == prompts.deep_view(),
            find_prompt(pv.take(i as int), id@) is None,
        decreases prompts.len() - i,
    {
        proof {
            lemma_take_next(pv, i as int);
        }
        if crate::text::str_equal(prompts[i].id.as_str(), id) {
            proof {
                lemma_find_prompt_prefix(pv, i + 1, id@);
            }
            return Some(prompts[i].duplicate());
        }
        i += 1;
    }
    proof {
        lemma_take_all(pv);
    }
    None
}

// ---------------------------------------------------------------------------
// Prompts of other commits
// ---------------------------------------------------------------------------
/// What has been learnt, during one query, of prompts that other commits
/// recorded: for an identifier either its record or that there is none.
pub struct PromptCache {
    entries: Vec<(String, Option<PromptRecord>)>,
}

/// What a list of cache entries says: a later entry overrides an earlier one.
pub open spec fn cache_map(entries: Seq<(Seq<char>, Option<PromptRecordView>)>) -> Map<
    Seq<char>,
    Option<PromptRecordView>,
>
    decreases entries.len(),
{
    if entries.len() == 0 {
        Map::empty()
    } else {
        cache_map(entries.drop_last()).insert(entries.last().0, entries.last().1)
    }
}

impl View for PromptCache {
    type V = Map<Seq<char>, Option<PromptRecordView>>;

    closed spec fn view(&self) -> Map<Seq<char>, Option<PromptRecordView>> {
        cache_map(self.entries.deep_view())
    }
}

impl PromptCache {
    /// A cache that knows nothing.
    pub fn new() -> (c: PromptCache)
        ensures
            c@ == Map::<Seq<char>, Option<PromptRecordView>>::empty(),
    {
        let c = PromptCache { entries: Vec::new() };
        proof {
            lemma_deep_view_empty(c.entries);
        }
        c
    }

    /// Records what was found for `id`.
    pub fn insert(&mut self, id: String, record: Option<PromptRecord>)
        ensures
            final(self)@ == old(self)@.insert(id@, record.deep_view()),
    {
        let ghost before = self.entries;
        let ghost item = (id, record);
        self.entries.push((id, record));
        proof {
            lemma_deep_view_push(before, self.entries, item);
            assert(self.entries.deep_view().drop_last() =~= before.deep_view());
        }
    }

    /// What the cache knows of `id`: nothing, or what was found for it.
    pub fn get(&self, id: &str) -> (r: Option<Option<PromptRecord>>)
        ensures
            match r {
                Some(found) => self@.contains_key(id@) && self@[id@] == found.deep_view(),
                None => !self@.contains_key(id@),
            },
    {
        let ghost ev = self.entries.deep_view();
        let mut i: usize = self.entries.len();
        proof {
            lemma_take_all(ev);
        }
        while i > 0
            invariant
                0 <= i <= self.entries.len(),
                ev == self.entries.deep_view(),
                cache_map(ev).contains_key(id@) <==> cache_map(ev.take(i as int)).contains_key(
                    id@,
                ),
                cache_map(ev).contains_key(id@) ==> cache_map(ev)[id@] == cache_map(
                    ev.take(i as int),
                )[id@],
            decreases i,
        {
            i -= 1;
            proof {
                lemma_take_next(ev, i as int);
            }
            if crate::text::str_equal(self.entries[i].0.as_str(), id) {
                return Some(
                    match &self.entries[i].1 {
                        Some(p) => Some(p.duplicate()),
                        None => None,
                    },
                );
            }
        }
        assert(ev.take(0) =~= Seq::<(Seq<char>, Option<PromptRecordView>)>::empty());
        None
    }
}

// ---------------------------------------------------------------------------
// The attribution of a line
// ---------------------------------------------------------------------------
/// The record of the prompt `id`: the one of the log itself, else the one
/// that the cache holds for it.
pub open spec fn resolve_prompt(
    prompts: Seq<PromptRecordView>,
    cache: Map<Seq<char>, Option<PromptRecordView>>,
    id: Seq<char>,
) -> Option<PromptRecordView> {
    match find_prompt(prompts, id) {
        Some(p) => Some(p),
        None => if cache.contains_key(id) {
            cache[id]
        } else {
            None
        },
    }
}

/// Author, prompt identifier and prompt record of a line. A line of a human
/// has the author alone; a line of a prompt has the prompt's tool as author;
/// a line without entry, or of a prompt that cannot be resolved, has nothing.
pub open spec fn line_attribution(
    log: AuthorshipLogView,
    file: Seq<char>,
    line: u32,
    cache: Map<Seq<char>, Option<PromptRecordView>>,
) -> Option<(Seq<char>, Option<Seq<char>>, Option<PromptRecordView>)> {
    match lookup_in_files(log.attestations, file, line) {
        None => None,
        Some(AttributionRefView::Human(author)) => Some((author, None, None)),
        Some(AttributionRefView::Prompt(id)) => match resolve_prompt(
            log.metadata.prompts,
            cache,
            id,
        ) {
            Some(p) => Some((p.tool, Some(id), Some(p))),
            None => None,
        },
    }
}

impl AuthorshipLog {
    /// Who wrote `line` of `file`, with the prompt where an AI did.
    pub fn get_line_attribution(&self, file: &str, line: u32, cache: &PromptCache) -> (r: Option<
        (String, Option<String>, Option<PromptRecord>),
    >)
        ensures
            r.deep_view() == line_attribution(self@, file@, line, cache@),
    {
        match files_lookup(&self.attestations, file, line) {
            None => None,
            Some(AttributionRef::Human(author)) => Some((author, None, None)),
            Some(AttributionRef::Prompt(id)) => {
                let own = prompts_lookup(&self.metadata.prompts, id.as_str());
                let resolved = match own {
                    Some(p) => Some(p),
                    None => match cache.get(id.as_str()) {
                        Some(found) => found,
                        None => None,
                    },
                };
                match resolved {
                    Some(p) => Some((p.tool.clone(), Some(id), Some(p))),
                    None => None,
                }
            },
        }
    }

    /// A copy of the log.
    pub fn duplicate(&self) -> (r: AuthorshipLog)
        ensures
            r@ == self@,
    {
        AuthorshipLog {
            attestations: duplicate_attestations(&self.attestations),
            metadata: AuthorshipMetadata {
                schema_version: self.metadata.schema_version.clone(),
                git_ai_version: match &self.metadata.git_ai_version {
                    Some(v) => Some(v.clone()),
                    None => None,
                },
                base_commit_sha: self.metadata.base_commit_sha.clone(),
                prompts: duplicate_prompts(&self.metadata.prompts),
            },
        }
    }
}

} // verus!
