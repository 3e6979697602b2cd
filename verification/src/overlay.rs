//! The overlay: the attribution of every line that the hunks of a diff delete
//! or add, looked up in the log of the old commit for deleted lines and in the
//! log of the new commit for added lines.

use crate::authorship_log::{
    line_attribution, AuthorshipLog, AuthorshipLogView, PromptCache, PromptRecordView,
};
use crate::diff::{
    Attribution, AttributionView, DiffHunk, DiffHunkView, DiffLineKey, DiffLineKeyView, LineSide,
};
use crate::sequences::{
    lemma_deep_view_empty, lemma_deep_view_push, lemma_take_all, lemma_take_next,
};
use vstd::prelude::*;
use vstd::string::*;

verus! {

// ---------------------------------------------------------------------------
// The map from lines to attributions
// ---------------------------------------------------------------------------
/// The attributions of the lines of a diff, by file, line number and side.
pub struct AttributionMap {
    entries: Vec<(DiffLineKey, Attribution)>,
}

/// What a list of insertions holds: a later one overrides an earlier one.
pub open spec fn attribution_map_of(entries: Seq<(DiffLineKeyView, AttributionView)>) -> Map<
    DiffLineKeyView,
    AttributionView,
>
    decreases entries.len(),
{
    if entries.len() == 0 {
        Map::empty()
    } else {
        attribution_map_of(entries.drop_last()).insert(entries.last().0, entries.last().1)
    }
}

impl View for AttributionMap {
    type V = Map<DiffLineKeyView, AttributionView>;

    closed spec fn view(&self) -> Map<DiffLineKeyView, AttributionView> {
        attribution_map_of(self.entries.deep_view())
    }
}

impl DiffLineKey {
    /// Whether two keys name the same line.
    pub fn same_as(&self, other: &DiffLineKey) -> (r: bool)
        ensures
            r == (self@ == other@),
    {
        self.line == other.line && self.side == other.side && self.file == other.file
    }
}

impl AttributionMap {
    /// The map without any line.
    pub fn new() -> (m: AttributionMap)
        ensures
            m@ == Map::<DiffLineKeyView, AttributionView>::empty(),
    {
        let m = AttributionMap { entries: Vec::new() };
        proof {
            lemma_deep_view_empty(m.entries);
        }
        m
    }

    /// Sets the attribution of a line.
    pub fn insert(&mut self, key: DiffLineKey, value: Attribution)
        ensures
            final(self)@ == old(self)@.insert(key@, value@),
    {
        let ghost before = self.entries;
        let ghost item = (key, value);
        self.entries.push((key, value));
        proof {
            lemma_deep_view_push(before, self.entries, item);
            assert(self.entries.deep_view().drop_last() =~= before.deep_view());
        }
    }

    /// The attribution of a line, where the map holds one.
    pub fn get(&self, key: &DiffLineKey) -> (r: Option<Attribution>)
        ensures
            match r {
                Some(a) => self@.contains_key(key@) && self@[key@] == a@,
                None => !self@.contains_key(key@),
            },
    {
        let ghost ev = self.entries.deep_view();
        let mut i: usize = self.entries.len();
        proof {
            lemma_take_all(ev);
        }
        while i > 0
            invariant
                0 <= i <= self.entries.len(),
                ev == self.entries.deep_view(),
                attribution_map_of(ev).contains_key(key@) <==> attribution_map_of(
                    ev.take(i as int),
                ).contains_key(key@),
                attribution_map_of(ev).contains_key(key@) ==> attribution_map_of(ev)[key@]
                    == attribution_map_of(ev.take(i as int))[key@],
            decreases i,
        {
            i -= 1;
            proof {
                lemma_take_next(ev, i as int);
            }
            if self.entries[i].0.same_as(key) {
                return Some(self.entries[i].1.duplicate());
            }
        }
        assert(ev.take(0) =~= Seq::<(DiffLineKeyView, AttributionView)>::empty());
        None
    }

    /// Whether the map holds no line.
    pub fn is_empty(&self) -> (r: bool)
        ensures
            r == (self@ == Map::<DiffLineKeyView, AttributionView>::empty()),
    {
        let ghost ev = self.entries.deep_view();
        if self.entries.len() == 0 {
            assert(ev =~= Seq::<(DiffLineKeyView, AttributionView)>::empty());
            true
        } else {
            assert(attribution_map_of(ev).contains_key(ev.last().0));
            false
        }
    }
}

// ---------------------------------------------------------------------------
// The attribution of one line
// ---------------------------------------------------------------------------
/// What a log tells of a line: the tool of the prompt that wrote it, else the
/// human who did, else that there is no data. Without a log there is no data.
pub open spec fn overlay_attribution(
    log: Option<AuthorshipLogView>,
    file: Seq<char>,
    line: u32,
    cache: Map<Seq<char>, Option<PromptRecordView>>,
) -> AttributionView {
    match log {
        None => AttributionView::NoData,
        Some(l) => match line_attribution(l, file, line, cache) {
            Some((_, _, Some(p))) => AttributionView::Ai(p.tool),
            Some((author, _, None)) => AttributionView::Human(author),
            None => AttributionView::NoData,
        },
    }
}

/// The attribution of `line` of `file` according to `log`.
pub fn get_line_attribution(log: &AuthorshipLog, file: &str, line: u32, cache: &PromptCache) -> (r:
    Attribution)
    ensures
        r@ == overlay_attribution(Some(log@), file@, line, cache@),
{
    match log.get_line_attribution(file, line, cache) {
        Some((author, _, prompt)) => match prompt {
            Some(p) => Attribution::Ai(p.tool),
            None => Attribution::Human(author),
        },
        None => Attribution::NoData,
    }
}

fn attribution_in(log: Option<&AuthorshipLog>, file: &str, line: u32, cache: &PromptCache) -> (r:
    Attribution)
    ensures
        r@ == overlay_attribution(log.deep_view(), file@, line, cache@),
{
    match log {
        Some(l) => get_line_attribution(l, file, line, cache),
        None => Attribution::NoData,
    }
}

// ---------------------------------------------------------------------------
// Which logs a diff needs
// ---------------------------------------------------------------------------
/// Whether some hunk deletes a line: only then is the old commit's log read.
pub open spec fn any_deleted_lines(hunks: Seq<DiffHunkView>) -> bool {
    exists|i: int| 0 <= i < hunks.len() && (#[trigger] hunks[i]).deleted_lines.len() > 0
}

/// Whether some hunk adds a line: only then is the new commit's log read.
pub open spec fn any_added_lines(hunks: Seq<DiffHunkView>) -> bool {
    exists|i: int| 0 <= i < hunks.len() && (#[trigger] hunks[i]).added_lines.len() > 0
}

/// Whether the overlay of `hunks` looks anything up in the old commit's log.
pub fn needs_old_log(hunks: &[DiffHunk]) -> (r: bool)
    ensures
        r == any_deleted_lines(hunks.deep_view()),
{
    let mut i: usize = 0;
    while i < hunks.len()
        invariant
            0 <= i <= hunks.len(),
            forall|k: int| 0 <= k < i ==> (#[trigger] hunks.deep_view()[k]).deleted_lines.len() == 0,
        decreases hunks.len() - i,
    {
        if hunks[i].deleted_lines.len() > 0 {
            assert(hunks.deep_view()[i as int].deleted_lines.len() > 0);
            return true;
        }
        i += 1;
    }
    false
}

/// Whether the overlay of `hunks` looks anything up in the new commit's log.
pub fn needs_new_log(hunks: &[DiffHunk]) -> (r: bool)
    ensures
        r == any_added_lines(hunks.deep_view()),
{
    let mut i: usize = 0;
    while i < hunks.len()
        invariant
            0 <= i <= hunks.len(),
            forall|k: int| 0 <= k < i ==> (#[trigger] hunks.deep_view()[k]).added_lines.len() == 0,
        decreases hunks.len() - i,
    {
        if hunks[i].added_lines.len() > 0 {
            assert(hunks.deep_view()[i as int].added_lines.len() > 0);
            return true;
        }
        i += 1;
    }
    false
}

// ---------------------------------------------------------------------------
// The overlay
// ---------------------------------------------------------------------------
/// Whether the hunk deletes (side `Old`) or adds (side `New`) the line `k`.
pub open spec fn hunk_covers(h: DiffHunkView, k: DiffLineKeyView) -> bool {
    h.file_path == k.file && match k.side {
        LineSide::Old => h.deleted_lines.contains(k.line),
        LineSide::New => h.added_lines.contains(k.line),
    }
}

/// Whether one of the hunks deletes or adds the line `k`.
pub open spec fn hunks_cover(hunks: Seq<DiffHunkView>, k: DiffLineKeyView) -> bool {
    exists|i: int| 0 <= i < hunks.len() && hunk_covers(#[trigger] hunks[i], k)
}

/// The log in which the line `k` is looked up.
pub open spec fn log_of_side(
    old_log: Option<AuthorshipLogView>,
    new_log: Option<AuthorshipLogView>,
    side: LineSide,
) -> Option<AuthorshipLogView> {
    match side {
        LineSide::Old => old_log,
        LineSide::New => new_log,
    }
}

proof fn lemma_hunks_cover_next(hunks: Seq<DiffHunkView>, i: int, k: DiffLineKeyView)
    requires
        0 <= i < hunks.len(),
    ensures
        hunks_cover(hunks.take(i + 1), k) <==> hunks_cover(hunks.take(i), k) || hunk_covers(
            hunks[i],
            k,
        ),
{
    let a = hunks.take(i);
    let b = hunks.take(i + 1);
    if hunks_cover(b, k) {
        let w = choose|w: int| 0 <= w < b.len() && hunk_covers(#[trigger] b[w], k);
        if w < i {
            assert(hunk_covers(a[w], k));
        }
    }
    if hunks_cover(a, k) {
        let w = choose|w: int| 0 <= w < a.len() && hunk_covers(#[trigger] a[w], k);
        assert(hunk_covers(b[w], k));
    }
    if hunk_covers(hunks[i], k) {
        assert(hunk_covers(b[i], k));
    }
}

proof fn lemma_contains_next(s: Seq<u32>, j: int, x: u32)
    requires
        0 <= j < s.len(),
    ensures
        s.take(j + 1).contains(x) <==> s.take(j).contains(x) || s[j] == x,
{
    let a = s.take(j);
    let b = s.take(j + 1);
    if b.contains(x) {
        let w = choose|w: int| 0 <= w < b.len() && b[w] == x;
        if w < j {
            assert(a[w] == x);
        }
    }
    if a.contains(x) {
        let w = choose|w: int| 0 <= w < a.len() && a[w] == x;
        assert(b[w] == x);
    }
    if s[j] == x {
        assert(b[j] == x);
    }
}

/// Whether `lines` of `file`, numbered on `side`, hold the line `k`.
pub open spec fn lines_cover(file: Seq<char>, lines: Seq<u32>, side: LineSide, k: DiffLineKeyView)
    -> bool {
    k.file == file && k.side == side && lines.contains(k.line)
}

fn overlay_lines(
    map: &mut AttributionMap,
    file: &String,
    lines: &Vec<u32>,
    side: LineSide,
    log: Option<&AuthorshipLog>,
    cache: &PromptCache,
)
    ensures
        forall|k: DiffLineKeyView|
            final(map)@.contains_key(k) <==> old(map)@.contains_key(k) || lines_cover(
                file@,
                lines@,
                side,
                k,
            ),
        forall|k: DiffLineKeyView|
            #![trigger final(map)@[k]]
            lines_cover(file@, lines@, side, k) ==> final(map)@[k] == overlay_attribution(
                log.deep_view(),
                k.file,
                k.line,
                cache@,
            ),
        forall|k: DiffLineKeyView|
            #![trigger final(map)@[k]]
            old(map)@.contains_key(k) && !lines_cover(file@, lines@, side, k) ==> final(map)@[k]
                == old(map)@[k],
{
    let mut j: usize = 0;
    assert(lines@.take(0) =~= Seq::<u32>::empty());
    while j < lines.len()
        invariant
            0 <= j <= lines.len(),
            forall|k: DiffLineKeyView|
                map@.contains_key(k) <==> old(map)@.contains_key(k) || lines_cover(
                    file@,
                    lines@.take(j as int),
                    side,
                    k,
                ),
            forall|k: DiffLineKeyView|
                #![trigger map@[k]]
                lines_cover(file@, lines@.take(j as int), side, k) ==> map@[k]
                    == overlay_attribution(log.deep_view(), k.file, k.line, cache@),
            forall|k: DiffLineKeyView|
                #![trigger map@[k]]
                old(map)@.contains_key(k) && !lines_cover(file@, lines@.take(j as int), side, k)
                    ==> map@[k] == old(map)@[k],
        decreases lines.len() - j,
    {
        let line = lines[j];
        let value = attribution_in(log, file.as_str(), line, cache);
        let key = DiffLineKey { file: file.clone(), line, side };
        let ghost before = map@;
        map.insert(key, value);
        proof {
            assert forall|k: DiffLineKeyView|
                lines_cover(file@, lines@.take(j + 1), side, k) <==> lines_cover(
                    file@,
                    lines@.take(j as int),
                    side,
                    k,
                ) || k == key@ by {
                lemma_contains_next(lines@, j as int, k.line);
            }
        }
        j += 1;
    }
    proof {
        lemma_take_all(lines@);
    }
}

/// The overlay as a map: its keys are the lines that the hunks delete or
/// add; a deleted line has what the old commit's log tells of it, an added
/// line what the new commit's log tells, and a line whose log is absent has
/// no data.
pub open spec fn overlay_map(
    hunks: Seq<DiffHunkView>,
    old_log: Option<AuthorshipLogView>,
    new_log: Option<AuthorshipLogView>,
    cache: Map<Seq<char>, Option<PromptRecordView>>,
) -> Map<DiffLineKeyView, AttributionView> {
    Map::new(
        |k: DiffLineKeyView| hunks_cover(hunks, k),
        |k: DiffLineKeyView|
            overlay_attribution(log_of_side(old_log, new_log, k.side), k.file, k.line, cache),
    )
}

/// The attribution of every line that the hunks delete or add. The map holds
/// exactly those lines; a deleted line has what the old commit's log tells of
/// it, an added line what the new commit's log tells, and a line whose log is
/// absent has no data.
pub fn overlay_diff_attributions(
    hunks: &[DiffHunk],
    old_log: Option<&AuthorshipLog>,
    new_log: Option<&AuthorshipLog>,
    foreign_prompts_cache: &PromptCache,
) -> (r: AttributionMap)
    ensures
        r@ == overlay_map(
            hunks.deep_view(),
            old_log.deep_view(),
            new_log.deep_view(),
            foreign_prompts_cache@,
        ),
        forall|k: DiffLineKeyView| r@.contains_key(k) <==> hunks_cover(hunks.deep_view(), k),
        forall|k: DiffLineKeyView|
            #![trigger r@[k]]
            r@.contains_key(k) ==> r@[k] == overlay_attribution(
                log_of_side(old_log.deep_view(), new_log.deep_view(), k.side),
                k.file,
                k.line,
                foreign_prompts_cache@,
            ),
{
    let mut map = AttributionMap::new();
    let ghost hv = hunks.deep_view();
    let mut i: usize = 0;
    assert(hv.take(0) =~= Seq::<DiffHunkView>::empty());
    while i < hunks.len()
        invariant
            0 <= i <= hunks.len(),
            hv == hunks.deep_view(),
            forall|k: DiffLineKeyView| map@.contains_key(k) <==> hunks_cover(hv.take(i as int), k),
            forall|k: DiffLineKeyView|
                #![trigger map@[k]]
                map@.contains_key(k) ==> map@[k] == overlay_attribution(
                    log_of_side(old_log.deep_view(), new_log.deep_view(), k.side),
                    k.file,
                    k.line,
                    foreign_prompts_cache@,
                ),
        decreases hunks.len() - i,
    {
        let hunk = &hunks[i];
        let ghost m0 = map@;
        overlay_lines(
            &mut map,
            &hunk.file_path,
            &hunk.deleted_lines,
            LineSide::Old,
            old_log,
            foreign_prompts_cache,
        );
        let ghost m1 = map@;
        overlay_lines(
            &mut map,
            &hunk.file_path,
            &hunk.added_lines,
            LineSide::New,
            new_log,
            foreign_prompts_cache,
        );
        proof {
            let h = hv[i as int];
            assert(h == hunk@);
            assert forall|k: DiffLineKeyView|
                map@.contains_key(k) <==> hunks_cover(hv.take(i + 1), k) by {
                lemma_hunks_cover_next(hv, i as int, k);
                assert(hunk_covers(h, k) <==> lines_cover(
                    h.file_path,
                    h.deleted_lines,
                    LineSide::Old,
                    k,
                ) || lines_cover(h.file_path, h.added_lines, LineSide::New, k));
            }
            assert forall|k: DiffLineKeyView| #![trigger map@[k]] map@.contains_key(k) implies map@[k]
                == overlay_attribution(
                log_of_side(old_log.deep_view(), new_log.deep_view(), k.side),
                k.file,
                k.line,
                foreign_prompts_cache@,
            ) by {
                if lines_cover(h.file_path, h.added_lines, LineSide::New, k) {
                } else if lines_cover(h.file_path, h.deleted_lines, LineSide::Old, k) {
                    assert(m1[k] == map@[k]);
                } else {
                    assert(m1.contains_key(k));
                    assert(m0.contains_key(k));
                    assert(m1[k] == m0[k]);
                    assert(map@[k] == m1[k]);
                }
            }
        }
        i += 1;
    }
    proof {
        lemma_take_all(hv);
        assert(map@ =~= overlay_map(
            hv,
            old_log.deep_view(),
            new_log.deep_view(),
            foreign_prompts_cache@,
        ));
    }
    map
}

} // verus!
