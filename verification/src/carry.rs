//! Attribution carried across a diff: where a commit has no log of its own,
//! the log of an ancestor is carried forward through the hunks of the diff
//! from the ancestor to the commit. A line that the diff leaves alone keeps
//! what the ancestor's log tells of it, under its new number; a line that the
//! diff adds has no data.

use crate::authorship_log::{
    entries_well_formed, files_lookup, files_well_formed, lookup_in_entries, lookup_in_files,
    AttributionRef, AttributionRefView, AuthorshipLog, AuthorshipLogView, Entry, EntryView,
    FileAttestation, FileAttestationView,
};
use crate::diff::{DiffHunk, DiffHunkView};
use crate::sequences::{
    lemma_deep_view_empty, lemma_deep_view_push, lemma_take_all, lemma_take_next,
};
use crate::text::str_equal;
use crate::virtual_attribution::{count_lines, entries_of_runs, lemma_runs, line_count, runs};
use vstd::prelude::*;
use vstd::string::*;

verus! {

// ---------------------------------------------------------------------------
// Data
// ---------------------------------------------------------------------------
/// What stands in for the log of a commit that has none: the log of one of
/// its ancestors, the hunks of the zero-context diff from that ancestor to
/// the commit, in the order of the diff, and the text of the changed files as
/// of the commit.
#[derive(Debug, Clone, PartialEq, Eq)]
pub struct AncestorLog {
    pub log: AuthorshipLog,
    pub hunks: Vec<DiffHunk>,
    pub contents: Vec<(String, String)>,
}

/// The mathematical value of an [`AncestorLog`].
pub struct AncestorLogView {
    pub log: AuthorshipLogView,
    pub hunks: Seq<DiffHunkView>,
    pub contents: Seq<(Seq<char>, Seq<char>)>,
}

impl View for AncestorLog {
    type V = AncestorLogView;

    open spec fn view(&self) -> AncestorLogView {
        AncestorLogView {
            log: self.log@,
            hunks: self.hunks.deep_view(),
            contents: self.contents.deep_view(),
        }
    }
}

impl DeepView for AncestorLog {
    type V = AncestorLogView;

    open spec fn deep_view(&self) -> AncestorLogView {
        self@
    }
}

// ---------------------------------------------------------------------------
// Where a line comes from
// ---------------------------------------------------------------------------
/// The first old line after the hunk: after the lines that it deletes, or,
/// where it deletes none, after the line behind which it adds.
pub open spec fn first_old_after(h: DiffHunkView) -> int {
    if h.old_count > 0 {
        h.old_start + h.old_count
    } else {
        h.old_start + 1
    }
}

/// The first new line after the hunk: after the lines that it adds, or,
/// where it adds none, after the line behind which it deletes.
pub open spec fn first_new_after(h: DiffHunkView) -> int {
    if h.new_count > 0 {
        h.new_start + h.new_count
    } else {
        h.new_start + 1
    }
}

/// Whether the hunk adds the new line `n`.
pub open spec fn adds_line(h: DiffHunkView, n: int) -> bool {
    h.new_start <= n < h.new_start + h.new_count
}

/// The number that the new line `n` of `path` had before the diff: none for
/// a line that a hunk adds; for a line behind the last hunk before it, as
/// far behind the old end of that hunk as it is behind the new end; and its
/// own number where no hunk of the file stands before it.
pub open spec fn origin_line(hunks: Seq<DiffHunkView>, path: Seq<char>, n: u32) -> Option<u32>
    decreases hunks.len(),
{
    if hunks.len() == 0 {
        Some(n)
    } else {
        let h = hunks.last();
        if h.file_path != path {
            origin_line(hunks.drop_last(), path, n)
        } else if adds_line(h, n as int) {
            None
        } else if n >= first_new_after(h) {
            let o = first_old_after(h) + (n - first_new_after(h));
            if o <= u32::MAX {
                Some(o as u32)
            } else {
                None
            }
        } else {
            origin_line(hunks.drop_last(), path, n)
        }
    }
}

/// Finds the number that a new line had before the diff.
pub fn origin_of(hunks: &[DiffHunk], path: &str, n: u32) -> (r: Option<u32>)
    ensures
        r == origin_line(hunks.deep_view(), path@, n),
{
    let ghost hv = hunks.deep_view();
    let mut i: usize = hunks.len();
    proof {
        lemma_take_all(hv);
    }
    while i > 0
        invariant
            0 <= i <= hunks.len(),
            hv == hunks.deep_view(),
            origin_line(hv, path@, n) == origin_line(hv.take(i as int), path@, n),
        decreases i,
    {
        i -= 1;
        proof {
            lemma_take_next(hv, i as int);
        }
        let h = &hunks[i];
        assert(hv[i as int] == h@);
        if str_equal(h.file_path.as_str(), path) {
            let line: u64 = n as u64;
            let new_start: u64 = h.new_start as u64;
            let new_count: u64 = h.new_count as u64;
            if new_start <= line && line < new_start + new_count {
                return None;
            }
            let new_after: u64 = if h.new_count > 0 {
                new_start + new_count
            } else {
                new_start + 1
            };
            if line >= new_after {
                let old_after: u64 = if h.old_count > 0 {
                    h.old_start as u64 + h.old_count as u64
                } else {
                    h.old_start as u64 + 1
                };
                let o: u64 = old_after + (line - new_after);
                if o <= 0xffff_ffff {
                    return Some(o as u32);
                } else {
                    return None;
                }
            }
        }
    }
    assert(hv.take(0) =~= Seq::<DiffHunkView>::empty());
    Some(n)
}

// ---------------------------------------------------------------------------
// What a line carries along
// ---------------------------------------------------------------------------
/// The text of the first of the files with the path `path`.
pub open spec fn find_content(contents: Seq<(Seq<char>, Seq<char>)>, path: Seq<char>) -> Option<
    Seq<char>,
>
    decreases contents.len(),
{
    if contents.len() == 0 {
        None
    } else {
        match find_content(contents.drop_last(), path) {
            Some(text) => Some(text),
            None => if contents.last().0 == path {
                Some(contents.last().1)
            } else {
                None
            },
        }
    }
}

/// The number of lines of `path` among the files, 0 where it is not among
/// them.
pub open spec fn lines_of_file(contents: Seq<(Seq<char>, Seq<char>)>, path: Seq<char>) -> nat {
    match find_content(contents, path) {
        Some(text) => line_count(text),
        None => 0,
    }
}

/// What the new line `n` of `path` carries along: what the ancestor's
/// attestations tell of the line that it was.
pub open spec fn carried_reference(
    files: Seq<FileAttestationView>,
    hunks: Seq<DiffHunkView>,
    path: Seq<char>,
    n: u32,
) -> Option<AttributionRefView> {
    match origin_line(hunks, path, n) {
        Some(o) => lookup_in_files(files, path, o),
        None => None,
    }
}

/// What the lines `1..=count` of `path` carry along.
pub open spec fn carried_references(
    files: Seq<FileAttestationView>,
    hunks: Seq<DiffHunkView>,
    path: Seq<char>,
    count: nat,
) -> Seq<Option<AttributionRefView>> {
    Seq::new(count, |i: int| carried_reference(files, hunks, path, (i + 1) as u32))
}

/// The entries of `path` behind the diff: what its lines, as many as its
/// text among `contents` has, carry along from the attestations before the
/// diff.
pub open spec fn carried_entries_spec(
    files: Seq<FileAttestationView>,
    hunks: Seq<DiffHunkView>,
    contents: Seq<(Seq<char>, Seq<char>)>,
    path: Seq<char>,
) -> Seq<EntryView> {
    runs(carried_references(files, hunks, path, lines_of_file(contents, path)))
}

/// The attestations behind the diff: for each attestation one of the same
/// path, with what the lines of the file carry along.
pub open spec fn carried_files(
    files: Seq<FileAttestationView>,
    hunks: Seq<DiffHunkView>,
    contents: Seq<(Seq<char>, Seq<char>)>,
) -> Seq<FileAttestationView> {
    Seq::new(
        files.len(),
        |i: int|
            FileAttestationView {
                file_path: files[i].file_path,
                entries: carried_entries_spec(files, hunks, contents, files[i].file_path),
            },
    )
}

proof fn lemma_find_content_prefix(contents: Seq<(Seq<char>, Seq<char>)>, k: int, path: Seq<char>)
    requires
        0 <= k <= contents.len(),
        find_content(contents.take(k), path) is Some,
    ensures
        find_content(contents, path) == find_content(contents.take(k), path),
    decreases contents.len() - k,
{
    if k < contents.len() {
        lemma_take_next(contents, k);
        lemma_find_content_prefix(contents, k + 1, path);
    } else {
        lemma_take_all(contents);
    }
}

fn count_lines_of_file(contents: &Vec<(String, String)>, path: &str) -> (n: u32)
    ensures
        n == lines_of_file(contents.deep_view(), path@),
{
    let ghost cv = contents.deep_view();
    let mut i: usize = 0;
    assert(cv.take(0) =~= Seq::<(Seq<char>, Seq<char>)>::empty());
    while i < contents.len()
        invariant
            0 <= i <= contents.len(),
            cv == contents.deep_view(),
            find_content(cv.take(i as int), path@) is None,
        decreases contents.len() - i,
    {
        proof {
            lemma_take_next(cv, i as int);
        }
        if str_equal(contents[i].0.as_str(), path) {
            proof {
                lemma_find_content_prefix(cv, i + 1, path@);
            }
            return count_lines(contents[i].1.as_str());
        }
        i += 1;
    }
    proof {
        lemma_take_all(cv);
    }
    0
}

/// Carries what the attestations tell forward to the lines of `path` behind
/// the diff.
pub fn carried_entries(
    files: &Vec<FileAttestation>,
    hunks: &[DiffHunk],
    contents: &Vec<(String, String)>,
    path: &str,
) -> (r: Vec<Entry>)
    ensures
        r.deep_view() == carried_entries_spec(
            files.deep_view(),
            hunks.deep_view(),
            contents.deep_view(),
            path@,
        ),
        entries_well_formed(r.deep_view()),
{
    let count = count_lines_of_file(contents, path);
    let ghost goal = carried_references(
        files.deep_view(),
        hunks.deep_view(),
        path@,
        count as nat,
    );
    let mut refs: Vec<Option<AttributionRef>> = Vec::new();
    let mut i: u32 = 0;
    proof {
        lemma_deep_view_empty(refs);
        assert(goal.take(0) =~= Seq::<Option<AttributionRefView>>::empty());
    }
    while i < count
        invariant
            0 <= i <= count,
            goal == carried_references(files.deep_view(), hunks.deep_view(), path@, count as nat),
            refs.deep_view() == goal.take(i as int),
        decreases count - i,
    {
        let line: u32 = i + 1;
        let item = match origin_of(hunks, path, line) {
            Some(o) => files_lookup(files, path, o),
            None => None,
        };
        let ghost before = refs;
        refs.push(item);
        proof {
            lemma_deep_view_push(before, refs, item);
            lemma_take_next(goal, i as int);
        }
        i += 1;
    }
    proof {
        lemma_take_all(goal);
        lemma_runs(goal);
    }
    assert(refs.deep_view().len() == refs.len());
    entries_of_runs(&refs)
}

/// Carries the attestations forward across the diff.
pub fn carry_files(
    files: &Vec<FileAttestation>,
    hunks: &[DiffHunk],
    contents: &Vec<(String, String)>,
) -> (r: Vec<FileAttestation>)
    ensures
        r.deep_view() == carried_files(files.deep_view(), hunks.deep_view(), contents.deep_view()),
{
    let ghost goal = carried_files(files.deep_view(), hunks.deep_view(), contents.deep_view());
    let mut r: Vec<FileAttestation> = Vec::new();
    let mut i: usize = 0;
    proof {
        lemma_deep_view_empty(r);
        assert(goal.take(0) =~= Seq::<FileAttestationView>::empty());
    }
    while i < files.len()
        invariant
            0 <= i <= files.len(),
            goal == carried_files(files.deep_view(), hunks.deep_view(), contents.deep_view()),
            r.deep_view() == goal.take(i as int),
        decreases files.len() - i,
    {
        let item = FileAttestation {
            file_path: files[i].file_path.clone(),
            entries: carried_entries(files, hunks, contents, files[i].file_path.as_str()),
        };
        let ghost before = r;
        r.push(item);
        proof {
            lemma_deep_view_push(before, r, item);
            lemma_take_next(goal, i as int);
        }
        i += 1;
    }
    proof {
        lemma_take_all(goal);
    }
    r
}

// ---------------------------------------------------------------------------
// Laws
// ---------------------------------------------------------------------------
/// Where no hunk is of the file, every line is where it was.
pub proof fn lemma_origin_without_hunks(hunks: Seq<DiffHunkView>, path: Seq<char>, n: u32)
    requires
        forall|k: int| 0 <= k < hunks.len() ==> (#[trigger] hunks[k]).file_path != path,
    ensures
        origin_line(hunks, path, n) == Some(n),
    decreases hunks.len(),
{
    if hunks.len() > 0 {
        assert(hunks[hunks.len() - 1].file_path != path);
        assert forall|k: int| 0 <= k < hunks.drop_last().len() implies (
        #[trigger] hunks.drop_last()[k]).file_path != path by {
            assert(hunks.drop_last()[k] == hunks[k]);
        }
        lemma_origin_without_hunks(hunks.drop_last(), path, n);
    }
}

/// Whether the hunks of `path` stand in the order of the new file: each ends
/// before the next begins.
pub open spec fn hunks_ascend(hunks: Seq<DiffHunkView>, path: Seq<char>) -> bool {
    forall|i: int, j: int|
        0 <= i < j < hunks.len() && (#[trigger] hunks[i]).file_path == path && (
        #[trigger] hunks[j]).file_path == path ==> hunks[i].new_start + hunks[i].new_count
            <= hunks[j].new_start
}

/// Among hunks in the order of the new file, a line that one of the hunks of
/// its file adds comes from nowhere: it carries nothing along.
pub proof fn lemma_added_line_has_no_origin(
    hunks: Seq<DiffHunkView>,
    path: Seq<char>,
    n: u32,
    k: int,
)
    requires
        hunks_ascend(hunks, path),
        0 <= k < hunks.len(),
        hunks[k].file_path == path,
        adds_line(hunks[k], n as int),
    ensures
        origin_line(hunks, path, n) is None,
    decreases hunks.len(),
{
    let h = hunks.last();
    assert(hunks[hunks.len() - 1] == h);
    if k < hunks.len() - 1 {
        let head = hunks.drop_last();
        assert(head[k] == hunks[k]);
        assert(hunks_ascend(head, path)) by {
            assert forall|i: int, j: int|
                0 <= i < j < head.len() && (#[trigger] head[i]).file_path == path && (
                #[trigger] head[j]).file_path == path implies head[i].new_start
                + head[i].new_count <= head[j].new_start by {
                assert(head[i] == hunks[i]);
                assert(head[j] == hunks[j]);
            }
        }
        lemma_added_line_has_no_origin(head, path, n, k);
        if h.file_path == path {
            assert(hunks[k].new_start + hunks[k].new_count <= hunks[hunks.len() - 1].new_start);
        }
    }
}

/// What is carried forward is well formed, gives to every line of the file
/// behind the diff what the line carries along, and nothing to any other
/// line.
pub proof fn lemma_carried_lookup(
    files: Seq<FileAttestationView>,
    hunks: Seq<DiffHunkView>,
    contents: Seq<(Seq<char>, Seq<char>)>,
    path: Seq<char>,
    n: u32,
)
    ensures
        entries_well_formed(carried_entries_spec(files, hunks, contents, path)),
        lookup_in_entries(carried_entries_spec(files, hunks, contents, path), n) == if 1 <= n
            <= lines_of_file(contents, path) {
            carried_reference(files, hunks, path, n)
        } else {
            None
        },
{
    lemma_runs(carried_references(files, hunks, path, lines_of_file(contents, path)));
}

/// Attestations with distinct paths are well formed once they are carried
/// forward.
pub proof fn lemma_carried_files_well_formed(
    files: Seq<FileAttestationView>,
    hunks: Seq<DiffHunkView>,
    contents: Seq<(Seq<char>, Seq<char>)>,
)
    requires
        forall|i: int, j: int|
            0 <= i < j < files.len() ==> (#[trigger] files[i]).file_path != (
            #[trigger] files[j]).file_path,
    ensures
        files_well_formed(carried_files(files, hunks, contents)),
{
    let out = carried_files(files, hunks, contents);
    assert forall|i: int| 0 <= i < out.len() implies entries_well_formed(
        (#[trigger] out[i]).entries,
    ) by {
        lemma_carried_lookup(files, hunks, contents, files[i].file_path, 0);
    }
    assert forall|i: int, j: int| 0 <= i < j < out.len() implies (#[trigger] out[i]).file_path != (
    #[trigger] out[j]).file_path by {
        assert(files[i].file_path != files[j].file_path);
    }
}

} // verus!
