//! The annotated rendering of a full-context diff: every line of the diff is
//! classified, the old and the new line number run along independently, and a
//! deleted or added line gets the attribution that the overlay holds for it.

use crate::diff::{
    hunk_header_counts, hunk_header_counts_spec, hunk_header_starts,
    parse_hunk_header_for_line_nums_spec, Attribution, AttributionView, DiffLineKey,
    DiffLineKeyView, LineSide,
};
use crate::overlay::AttributionMap;
use crate::sequences::{lemma_deep_view_empty, lemma_deep_view_push};
use crate::text::{
    has_prefix, lines, split_lines, starts_with, string_of, string_of_range, to_chars, views,
};
use vstd::prelude::*;
use vstd::string::*;

verus! {

// ---------------------------------------------------------------------------
// Data
// ---------------------------------------------------------------------------
/// What a line of a diff is.
#[derive(Debug, Clone, Copy, PartialEq, Eq, Structural)]
pub enum LineType {
    DiffHeader,
    HunkHeader,
    Addition,
    Deletion,
    Context,
    Binary,
}

/// A line of a diff with its class and, for a deleted or added line that the
/// overlay knows, its attribution.
#[derive(Debug, Clone, PartialEq, Eq)]
pub struct AnnotatedLine {
    pub text: String,
    pub line_type: LineType,
    pub attribution: Option<Attribution>,
}

/// The mathematical value of an [`AnnotatedLine`].
pub struct AnnotatedLineView {
    pub text: Seq<char>,
    pub line_type: LineType,
    pub attribution: Option<AttributionView>,
}

impl View for AnnotatedLine {
    type V = AnnotatedLineView;

    open spec fn view(&self) -> AnnotatedLineView {
        AnnotatedLineView {
            text: self.text@,
            line_type: self.line_type,
            attribution: self.attribution.deep_view(),
        }
    }
}

impl DeepView for AnnotatedLine {
    type V = AnnotatedLineView;

    open spec fn deep_view(&self) -> AnnotatedLineView {
        self@
    }
}

/// Where the reading of a diff stands: the file of the current hunks, the
/// numbers of the next old and the next new line, and how many old and new
/// lines the body of the current hunk still owes. A number is lost once it
/// would pass the last 32-bit line number; lines after that get no
/// attribution.
pub struct Cursor {
    pub file: Seq<char>,
    pub old_line: Option<u32>,
    pub new_line: Option<u32>,
    pub old_owed: u32,
    pub new_owed: u32,
}

// ---------------------------------------------------------------------------
// One line
// ---------------------------------------------------------------------------
/// The line number after `n`.
pub open spec fn next_line(n: Option<u32>) -> Option<u32> {
    match n {
        Some(v) => if v < u32::MAX {
            Some((v + 1) as u32)
        } else {
            None
        },
        None => None,
    }
}

/// What the overlay holds for the line `n` of `file` on `side`.
pub open spec fn attribution_at(
    map: Map<DiffLineKeyView, AttributionView>,
    file: Seq<char>,
    n: Option<u32>,
    side: LineSide,
) -> Option<AttributionView> {
    match n {
        Some(line) => {
            let key = DiffLineKeyView { file, line, side };
            if map.contains_key(key) {
                Some(map[key])
            } else {
                None
            }
        },
        None => None,
    }
}

/// A line without attribution.
pub open spec fn plain_line(text: Seq<char>, line_type: LineType) -> AnnotatedLineView {
    AnnotatedLineView { text, line_type, attribution: None }
}

/// The number of lines owed after one of them has come.
pub open spec fn owed_after(n: u32) -> u32 {
    if n > 0 {
        (n - 1) as u32
    } else {
        0
    }
}

/// Whether the reading stands in the body of a hunk: the header announced
/// lines that have not all come.
pub open spec fn in_hunk_body(cursor: Cursor) -> bool {
    cursor.old_owed > 0 || cursor.new_owed > 0
}

/// The reading before any line, and after a line that starts a file.
pub open spec fn cursor_at_start() -> Cursor {
    Cursor { file: Seq::empty(), old_line: Some(0), new_line: Some(0), old_owed: 0, new_owed: 0 }
}

/// A deleted line: looked up by the old number, which then advances.
pub open spec fn deletion_step(
    cursor: Cursor,
    line: Seq<char>,
    map: Map<DiffLineKeyView, AttributionView>,
) -> (Cursor, AnnotatedLineView) {
    (
        Cursor {
            old_line: next_line(cursor.old_line),
            old_owed: owed_after(cursor.old_owed),
            ..cursor
        },
        AnnotatedLineView {
            text: line,
            line_type: LineType::Deletion,
            attribution: attribution_at(map, cursor.file, cursor.old_line, LineSide::Old),
        },
    )
}

/// An added line: looked up by the new number, which then advances.
pub open spec fn addition_step(
    cursor: Cursor,
    line: Seq<char>,
    map: Map<DiffLineKeyView, AttributionView>,
) -> (Cursor, AnnotatedLineView) {
    (
        Cursor {
            new_line: next_line(cursor.new_line),
            new_owed: owed_after(cursor.new_owed),
            ..cursor
        },
        AnnotatedLineView {
            text: line,
            line_type: LineType::Addition,
            attribution: attribution_at(map, cursor.file, cursor.new_line, LineSide::New),
        },
    )
}

/// A line that both sides share: it advances both numbers.
pub open spec fn context_step(cursor: Cursor, line: Seq<char>) -> (Cursor, AnnotatedLineView) {
    (
        Cursor {
            old_line: next_line(cursor.old_line),
            new_line: next_line(cursor.new_line),
            old_owed: owed_after(cursor.old_owed),
            new_owed: owed_after(cursor.new_owed),
            ..cursor
        },
        plain_line(line, LineType::Context),
    )
}

/// A hunk header: it sets both numbers where they can be read, and the body
/// that follows owes as many old and new lines as the header announces.
pub open spec fn hunk_header_step(cursor: Cursor, line: Seq<char>) -> (Cursor, AnnotatedLineView) {
    let (old_owed, new_owed) = hunk_header_counts_spec(line);
    (
        match parse_hunk_header_for_line_nums_spec(line) {
            Some((old_start, new_start)) => Cursor {
                old_line: Some(old_start),
                new_line: Some(new_start),
                old_owed,
                new_owed,
                ..cursor
            },
            None => Cursor { old_owed, new_owed, ..cursor },
        },
        plain_line(line, LineType::HunkHeader),
    )
}

/// The cursor after `line`, and the line as it is annotated.
///
/// In the body of a hunk the first character alone decides: `-` is a
/// deletion, `+` an addition and a space context, whatever the text of the
/// line goes on with. Any other line, and every line outside a body, is read
/// as follows. `diff --git` starts a file: header, the file forgotten, both
/// numbers 0, nothing owed. `index `, `--- ` and `+++ b/` are headers, the
/// last naming the file. `@@ ` is a hunk header. A line that begins with `-`
/// but not `---` is a deletion, one that begins with `+` but not `+++` an
/// addition, one that begins with a space context. `Binary files` marks a
/// binary file. Every other line is context that advances nothing.
pub open spec fn annotate_step(
    cursor: Cursor,
    line: Seq<char>,
    map: Map<DiffLineKeyView, AttributionView>,
) -> (Cursor, AnnotatedLineView) {
    if in_hunk_body(cursor) && starts_with(line, "-"@) {
        deletion_step(cursor, line, map)
    } else if in_hunk_body(cursor) && starts_with(line, "+"@) {
        addition_step(cursor, line, map)
    } else if in_hunk_body(cursor) && starts_with(line, " "@) {
        context_step(cursor, line)
    } else if starts_with(line, "diff --git"@) {
        (cursor_at_start(), plain_line(line, LineType::DiffHeader))
    } else if starts_with(line, "index "@) {
        (cursor, plain_line(line, LineType::DiffHeader))
    } else if starts_with(line, "--- "@) {
        (cursor, plain_line(line, LineType::DiffHeader))
    } else if starts_with(line, "+++ b/"@) {
        (
            Cursor { file: line.skip("+++ b/"@.len() as int), ..cursor },
            plain_line(line, LineType::DiffHeader),
        )
    } else if starts_with(line, "@@ "@) {
        hunk_header_step(cursor, line)
    } else if starts_with(line, "-"@) && !starts_with(line, "---"@) {
        deletion_step(cursor, line, map)
    } else if starts_with(line, "+"@) && !starts_with(line, "+++"@) {
        addition_step(cursor, line, map)
    } else if starts_with(line, " "@) {
        context_step(cursor, line)
    } else if starts_with(line, "Binary files"@) {
        (cursor, plain_line(line, LineType::Binary))
    } else {
        (cursor, plain_line(line, LineType::Context))
    }
}

/// The annotated lines `ls[i..]`, read from `cursor` on.
pub open spec fn annotate_from(
    ls: Seq<Seq<char>>,
    i: int,
    cursor: Cursor,
    map: Map<DiffLineKeyView, AttributionView>,
) -> Seq<AnnotatedLineView>
    decreases ls.len() - i,
{
    if i < 0 || i >= ls.len() {
        Seq::empty()
    } else {
        let (next, line) = annotate_step(cursor, ls[i], map);
        seq![line] + annotate_from(ls, i + 1, next, map)
    }
}

/// The annotated lines of a full-context diff.
pub open spec fn annotate_diff_spec(text: Seq<char>, map: Map<DiffLineKeyView, AttributionView>)
    -> Seq<AnnotatedLineView> {
    annotate_from(lines(text), 0, cursor_at_start(), map)
}

fn advance(n: Option<u32>) -> (r: Option<u32>)
    ensures
        r == next_line(n),
{
    match n {
        Some(v) => if v < u32::MAX {
            Some(v + 1)
        } else {
            None
        },
        None => None,
    }
}

fn one_less(n: u32) -> (r: u32)
    ensures
        r == owed_after(n),
{
    if n > 0 {
        n - 1
    } else {
        0
    }
}

fn look_up(map: &AttributionMap, file: &String, n: Option<u32>, side: LineSide) -> (r: Option<
    Attribution,
>)
    ensures
        r.deep_view() == attribution_at(map@, file@, n, side),
{
    match n {
        Some(line) => map.get(&DiffLineKey { file: file.clone(), line, side }),
        None => None,
    }
}

/// Classifies the lines of a full-context diff and attaches to each deleted
/// and each added line what `attributions` holds for it.
pub fn annotate_diff(diff_text: &str, attributions: &AttributionMap) -> (out: Vec<AnnotatedLine>)
    ensures
        out.deep_view() == annotate_diff_spec(diff_text@, attributions@),
{
    let chars = to_chars(diff_text);
    let ls = split_lines(&chars);
    let ghost lv = views(ls@);
    let ghost map = attributions@;
    let ghost total = annotate_diff_spec(diff_text@, map);
    let mut out: Vec<AnnotatedLine> = Vec::new();
    let mut file = String::new();
    let mut old_line: Option<u32> = Some(0);
    let mut new_line: Option<u32> = Some(0);
    let mut old_owed: u32 = 0;
    let mut new_owed: u32 = 0;
    let mut i: usize = 0;
    proof {
        lemma_deep_view_empty(out);
        assert(out.deep_view() + total =~= total);
        reveal_strlit("+++ b/");
    }
    while i < ls.len()
        invariant
            0 <= i <= ls.len(),
            lv == views(ls@),
            map == attributions@,
            "+++ b/"@.len() == 6,
            total == out.deep_view() + annotate_from(
                lv,
                i as int,
                Cursor { file: file@, old_line, new_line, old_owed, new_owed },
                map,
            ),
        decreases ls.len() - i,
    {
        let line = &ls[i];
        assert(lv[i as int] == line@);
        let ghost cursor = Cursor { file: file@, old_line, new_line, old_owed, new_owed };
        let text = string_of(line);
        let in_body = old_owed > 0 || new_owed > 0;
        let minus = has_prefix(line, "-");
        let plus = has_prefix(line, "+");
        let space = has_prefix(line, " ");
        let mut line_type = LineType::Context;
        let mut attribution: Option<Attribution> = None;
        if in_body && (minus || plus || space) {
            if minus {
                line_type = LineType::Deletion;
                attribution = look_up(attributions, &file, old_line, LineSide::Old);
                old_line = advance(old_line);
                old_owed = one_less(old_owed);
            } else if plus {
                line_type = LineType::Addition;
                attribution = look_up(attributions, &file, new_line, LineSide::New);
                new_line = advance(new_line);
                new_owed = one_less(new_owed);
            } else {
                old_line = advance(old_line);
                new_line = advance(new_line);
                old_owed = one_less(old_owed);
                new_owed = one_less(new_owed);
            }
        } else if has_prefix(line, "diff --git") {
            line_type = LineType::DiffHeader;
            file = String::new();
            old_line = Some(0);
            new_line = Some(0);
            old_owed = 0;
            new_owed = 0;
        } else if has_prefix(line, "index ") {
            line_type = LineType::DiffHeader;
        } else if has_prefix(line, "--- ") {
            line_type = LineType::DiffHeader;
        } else if has_prefix(line, "+++ b/") {
            line_type = LineType::DiffHeader;
            file = string_of_range(line, 6, line.len());
            assert(line@.subrange(6, line.len() as int) =~= line@.skip(6));
        } else if has_prefix(line, "@@ ") {
            line_type = LineType::HunkHeader;
            match hunk_header_starts(line) {
                Some((old_start, new_start)) => {
                    old_line = Some(old_start);
                    new_line = Some(new_start);
                },
                None => {},
            }
            let (old_count, new_count) = hunk_header_counts(line);
            old_owed = old_count;
            new_owed = new_count;
        } else if minus && !has_prefix(line, "---") {
            line_type = LineType::Deletion;
            attribution = look_up(attributions, &file, old_line, LineSide::Old);
            old_line = advance(old_line);
            old_owed = one_less(old_owed);
        } else if plus && !has_prefix(line, "+++") {
            line_type = LineType::Addition;
            attribution = look_up(attributions, &file, new_line, LineSide::New);
            new_line = advance(new_line);
            new_owed = one_less(new_owed);
        } else if space {
            old_line = advance(old_line);
            new_line = advance(new_line);
            old_owed = one_less(old_owed);
            new_owed = one_less(new_owed);
        } else if has_prefix(line, "Binary files") {
            line_type = LineType::Binary;
        }
        let item = AnnotatedLine { text, line_type, attribution };
        let ghost before = out;
        out.push(item);
        proof {
            lemma_deep_view_push(before, out, item);
            let (next, annotated) = annotate_step(cursor, line@, map);
            assert(annotated == item@);
            assert(next == Cursor { file: file@, old_line, new_line, old_owed, new_owed });
            assert(before.deep_view() + (seq![annotated] + annotate_from(lv, i + 1, next, map))
                =~= out.deep_view() + annotate_from(lv, i + 1, next, map));
        }
        i += 1;
    }
    proof {
        assert(out.deep_view() + Seq::<AnnotatedLineView>::empty() =~= out.deep_view());
    }
    out
}

// ---------------------------------------------------------------------------
// The body of a hunk
// ---------------------------------------------------------------------------
/// Whether a line of a body belongs to the old file: a deleted line or a
/// shared one.
pub open spec fn is_old_line(line: Seq<char>) -> bool {
    line.len() > 0 && (line[0] == '-' || line[0] == ' ')
}

/// Whether a line of a body belongs to the new file: an added line or a
/// shared one.
pub open spec fn is_new_line(line: Seq<char>) -> bool {
    line.len() > 0 && (line[0] == '+' || line[0] == ' ')
}

/// Whether a line is a remark, such as the one on a missing newline at the
/// end of a file.
pub open spec fn is_remark(line: Seq<char>) -> bool {
    line.len() > 0 && line[0] == '\\'
}

/// The number of lines of the old file among `ls`.
pub open spec fn old_lines(ls: Seq<Seq<char>>) -> nat
    decreases ls.len(),
{
    if ls.len() == 0 {
        0
    } else {
        old_lines(ls.skip(1)) + if is_old_line(ls[0]) {
            1nat
        } else {
            0nat
        }
    }
}

/// The number of lines of the new file among `ls`.
pub open spec fn new_lines(ls: Seq<Seq<char>>) -> nat
    decreases ls.len(),
{
    if ls.len() == 0 {
        0
    } else {
        new_lines(ls.skip(1)) + if is_new_line(ls[0]) {
            1nat
        } else {
            0nat
        }
    }
}

/// Whether `ls` is the body of a hunk whose header announces `old_count` old
/// and `new_count` new lines: deleted, added and shared lines and remarks,
/// with as many lines of either file as announced.
pub open spec fn hunk_body(ls: Seq<Seq<char>>, old_count: u32, new_count: u32) -> bool {
    &&& forall|i: int|
        0 <= i < ls.len() ==> is_old_line(#[trigger] ls[i]) || is_new_line(ls[i]) || is_remark(
            ls[i],
        )
    &&& old_lines(ls) == old_count
    &&& new_lines(ls) == new_count
}

/// What line `k` of the body `ls` of a hunk of `file` is, where the hunk
/// begins at `old_start` in the old and at `new_start` in the new file: a
/// deletion has the attribution of the old line that as many old lines
/// precede in the body, an addition that of the new line, and a shared line
/// or a remark has none.
pub open spec fn body_line(
    ls: Seq<Seq<char>>,
    k: int,
    file: Seq<char>,
    old_start: u32,
    new_start: u32,
    map: Map<DiffLineKeyView, AttributionView>,
) -> AnnotatedLineView {
    let line = ls[k];
    if line[0] == '-' {
        AnnotatedLineView {
            text: line,
            line_type: LineType::Deletion,
            attribution: attribution_at(
                map,
                file,
                Some((old_start + old_lines(ls.take(k))) as u32),
                LineSide::Old,
            ),
        }
    } else if line[0] == '+' {
        AnnotatedLineView {
            text: line,
            line_type: LineType::Addition,
            attribution: attribution_at(
                map,
                file,
                Some((new_start + new_lines(ls.take(k))) as u32),
                LineSide::New,
            ),
        }
    } else {
        plain_line(line, LineType::Context)
    }
}

proof fn lemma_first_character(line: Seq<char>)
    ensures
        starts_with(line, "-"@) <==> line.len() > 0 && line[0] == '-',
        starts_with(line, "+"@) <==> line.len() > 0 && line[0] == '+',
        starts_with(line, " "@) <==> line.len() > 0 && line[0] == ' ',
        is_remark(line) ==> !starts_with(line, "diff --git"@) && !starts_with(line, "index "@)
            && !starts_with(line, "--- "@) && !starts_with(line, "+++ b/"@) && !starts_with(
            line,
            "@@ "@,
        ) && !starts_with(line, "Binary files"@),
{
    reveal_strlit("-");
    reveal_strlit("+");
    reveal_strlit(" ");
    reveal_strlit("diff --git");
    reveal_strlit("index ");
    reveal_strlit("--- ");
    reveal_strlit("+++ b/");
    reveal_strlit("@@ ");
    reveal_strlit("Binary files");
    if line.len() > 0 {
        assert(line.subrange(0, 1) =~= seq![line[0]]);
        assert(line[0] == '-' ==> line.subrange(0, 1) == "-"@);
        assert(line[0] == '+' ==> line.subrange(0, 1) == "+"@);
        assert(line[0] == ' ' ==> line.subrange(0, 1) == " "@);
        assert(starts_with(line, "-"@) ==> line.subrange(0, 1)[0] == '-');
        assert(starts_with(line, "+"@) ==> line.subrange(0, 1)[0] == '+');
        assert(starts_with(line, " "@) ==> line.subrange(0, 1)[0] == ' ');
        assert(starts_with(line, "diff --git"@) ==> line.subrange(0, 10)[0] == 'd');
        assert(starts_with(line, "index "@) ==> line.subrange(0, 6)[0] == 'i');
        assert(starts_with(line, "--- "@) ==> line.subrange(0, 4)[0] == '-');
        assert(starts_with(line, "+++ b/"@) ==> line.subrange(0, 6)[0] == '+');
        assert(starts_with(line, "@@ "@) ==> line.subrange(0, 3)[0] == '@');
        assert(starts_with(line, "Binary files"@) ==> line.subrange(0, 12)[0] == 'B');
    }
}

/// In the body of a hunk a line is read by its first character alone: a
/// line that begins with `-` is a deletion, looked up at the old number,
/// which then advances, and one that begins with `+` an addition, whatever
/// follows the first character; a line that begins with a space advances
/// both numbers.
pub proof fn lemma_body_line_is_read_by_its_first_character(
    cursor: Cursor,
    line: Seq<char>,
    map: Map<DiffLineKeyView, AttributionView>,
)
    requires
        in_hunk_body(cursor),
        line.len() > 0,
    ensures
        line[0] == '-' ==> annotate_step(cursor, line, map) == deletion_step(cursor, line, map),
        line[0] == '+' ==> annotate_step(cursor, line, map) == addition_step(cursor, line, map),
        line[0] == ' ' ==> annotate_step(cursor, line, map) == context_step(cursor, line),
{
    lemma_first_character(line);
}

/// The cursor after the lines `ls[from..to]`, read from `cursor` on.
pub open spec fn cursor_after(
    ls: Seq<Seq<char>>,
    from: int,
    to: int,
    cursor: Cursor,
    map: Map<DiffLineKeyView, AttributionView>,
) -> Cursor
    decreases to - from,
{
    if from < 0 || from >= to || from >= ls.len() {
        cursor
    } else {
        cursor_after(ls, from + 1, to, annotate_step(cursor, ls[from], map).0, map)
    }
}

/// The body of a hunk is read line by line. Where the lines `ls[from..to]`
/// are the body that the hunk header announced, and the numbers of the lines
/// it names fit in 32 bits, every deleted line of the body has the
/// attribution of its own old line and every added line that of its own new
/// line, each side counted on its own from where the hunk begins; shared
/// lines and remarks have none. After the body nothing is owed, both numbers
/// stand behind the hunk, and the file is the same.
pub proof fn lemma_hunk_body_is_read_line_by_line(
    ls: Seq<Seq<char>>,
    from: int,
    to: int,
    cursor: Cursor,
    map: Map<DiffLineKeyView, AttributionView>,
)
    requires
        0 <= from <= to <= ls.len(),
        hunk_body(ls.subrange(from, to), cursor.old_owed, cursor.new_owed),
        cursor.old_line is Some,
        cursor.new_line is Some,
        cursor.old_line->0 + cursor.old_owed <= u32::MAX,
        cursor.new_line->0 + cursor.new_owed <= u32::MAX,
    ensures
        annotate_from(ls, from, cursor, map).len() == ls.len() - from,
        forall|k: int|
            0 <= k < to - from ==> #[trigger] annotate_from(ls, from, cursor, map)[k] == body_line(
                ls.subrange(from, to),
                k,
                cursor.file,
                cursor.old_line->0,
                cursor.new_line->0,
                map,
            ),
        cursor_after(ls, from, to, cursor, map) == (Cursor {
            file: cursor.file,
            old_line: Some((cursor.old_line->0 + cursor.old_owed) as u32),
            new_line: Some((cursor.new_line->0 + cursor.new_owed) as u32),
            old_owed: 0,
            new_owed: 0,
        }),
    decreases to - from,
{
    lemma_annotate_from_len(ls, from, cursor, map);
    if from < to {
        let body = ls.subrange(from, to);
        let line = ls[from];
        assert(body[0] == line);
        assert(is_old_line(line) || is_new_line(line) || is_remark(line));
        lemma_first_character(line);
        let next = annotate_step(cursor, line, map).0;
        let rest = ls.subrange(from + 1, to);
        assert(body.skip(1) =~= rest);
        assert forall|i: int| 0 <= i < rest.len() implies is_old_line(#[trigger] rest[i])
            || is_new_line(rest[i]) || is_remark(rest[i]) by {
            assert(rest[i] == body[i + 1]);
        }
        lemma_hunk_body_is_read_line_by_line(ls, from + 1, to, next, map);
        let all = annotate_from(ls, from, cursor, map);
        let later = annotate_from(ls, from + 1, next, map);
        assert(all == seq![annotate_step(cursor, line, map).1] + later);
        assert forall|k: int| 0 <= k < to - from implies #[trigger] all[k] == body_line(
            body,
            k,
            cursor.file,
            cursor.old_line->0,
            cursor.new_line->0,
            map,
        ) by {
            if k == 0 {
                assert(body.take(0) =~= Seq::<Seq<char>>::empty());
            } else {
                assert(all[k] == later[k - 1]);
                assert(body[k] == rest[k - 1]);
                assert(body.take(k).skip(1) =~= rest.take(k - 1));
                assert(body.take(k)[0] == line);
            }
        }
    }
}

proof fn lemma_annotate_from_len(
    ls: Seq<Seq<char>>,
    from: int,
    cursor: Cursor,
    map: Map<DiffLineKeyView, AttributionView>,
)
    requires
        0 <= from <= ls.len(),
    ensures
        annotate_from(ls, from, cursor, map).len() == ls.len() - from,
    decreases ls.len() - from,
{
    if from < ls.len() {
        lemma_annotate_from_len(ls, from + 1, annotate_step(cursor, ls[from], map).0, map);
    }
}

// ---------------------------------------------------------------------------
// Rendering
// ---------------------------------------------------------------------------
/// The note that stands for an attribution: a robot and the tool, a person
/// and the user name, or `[no-data]`.
pub open spec fn format_attribution_spec(a: AttributionView) -> Seq<char> {
    match a {
        AttributionView::Ai(tool) => "\u{1F916}"@ + tool,
        AttributionView::Human(user) => "\u{1F464}"@ + user,
        AttributionView::NoData => "[no-data]"@,
    }
}

/// The note that stands for an attribution.
pub fn format_attribution(attribution: &Attribution) -> (s: String)
    ensures
        s@ == format_attribution_spec(attribution@),
{
    match attribution {
        Attribution::Ai(tool) => "\u{1F916}".to_owned().concat(tool.as_str()),
        Attribution::Human(user) => "\u{1F464}".to_owned().concat(user.as_str()),
        Attribution::NoData => "[no-data]".to_owned(),
    }
}

/// The note of a line: empty without attribution.
pub open spec fn annotation_of(attribution: Option<AttributionView>) -> Seq<char> {
    match attribution {
        Some(a) => format_attribution_spec(a),
        None => Seq::empty(),
    }
}

/// `line` between the escape sequence `code` and the reset sequence.
pub open spec fn painted(code: Seq<char>, line: Seq<char>) -> Seq<char> {
    code + line + "\u{1b}[0m"@
}

/// `line`, followed by two spaces and `note` where there is a note.
pub open spec fn with_note(line: Seq<char>, note: Seq<char>) -> Seq<char> {
    if note.len() == 0 {
        line
    } else {
        line + "  "@ + note
    }
}

/// The text that shows a line. Without colour it is the line and its note.
/// With colour a header is bold, a hunk header cyan, an addition green and a
/// deletion red, each of the last two with its note dimmed, and context and
/// binary markers are plain.
pub open spec fn render_line_spec(
    line: Seq<char>,
    line_type: LineType,
    use_color: bool,
    attribution: Option<AttributionView>,
) -> Seq<char> {
    let note = annotation_of(attribution);
    if use_color {
        match line_type {
            LineType::DiffHeader => painted("\u{1b}[1m"@, line),
            LineType::HunkHeader => painted("\u{1b}[36m"@, line),
            LineType::Addition => with_note(
                painted("\u{1b}[32m"@, line),
                if note.len() == 0 {
                    note
                } else {
                    painted("\u{1b}[2m"@, note)
                },
            ),
            LineType::Deletion => with_note(
                painted("\u{1b}[31m"@, line),
                if note.len() == 0 {
                    note
                } else {
                    painted("\u{1b}[2m"@, note)
                },
            ),
            LineType::Context => line,
            LineType::Binary => line,
        }
    } else {
        with_note(line, note)
    }
}

fn paint(code: &str, line: &str) -> (s: String)
    ensures
        s@ == painted(code@, line@),
{
    code.to_owned().concat(line).concat("\u{1b}[0m")
}

fn attach_note(line: String, note: &String, dimmed: bool) -> (s: String)
    ensures
        s@ == with_note(
            line@,
            if note@.len() == 0 || !dimmed {
                note@
            } else {
                painted("\u{1b}[2m"@, note@)
            },
        ),
{
    if note.as_str().unicode_len() == 0 {
        line
    } else if dimmed {
        let dim = paint("\u{1b}[2m", note.as_str());
        proof {
            reveal_strlit("\u{1b}[2m");
        }
        line.concat("  ").concat(dim.as_str())
    } else {
        line.concat("  ").concat(note.as_str())
    }
}

/// The text that shows a line of the annotated diff.
pub fn render_line(
    line: &str,
    line_type: LineType,
    use_color: bool,
    attribution: Option<&Attribution>,
) -> (s: String)
    ensures
        s@ == render_line_spec(line@, line_type, use_color, attribution.deep_view()),
{
    let note = match attribution {
        Some(a) => format_attribution(a),
        None => String::new(),
    };
    if use_color {
        match line_type {
            LineType::DiffHeader => paint("\u{1b}[1m", line),
            LineType::HunkHeader => paint("\u{1b}[36m", line),
            LineType::Addition => attach_note(paint("\u{1b}[32m", line), &note, true),
            LineType::Deletion => attach_note(paint("\u{1b}[31m", line), &note, true),
            LineType::Context => line.to_owned(),
            LineType::Binary => line.to_owned(),
        }
    } else {
        attach_note(line.to_owned(), &note, false)
    }
}

} // verus!
