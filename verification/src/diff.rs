//! Diffs addressed by line: the revisions a diff is asked for, the hunks of a
//! zero-context diff with their absolute line numbers, and the two readers of
//! hunk headers.

use crate::error::{not_text, not_text_message, GitAiError, GitAiErrorView};
use crate::sequences::{lemma_deep_view_empty, lemma_deep_view_push, lemma_take_all};
use crate::text::{
    chars_of_range, decode_text, find, find_at, find_char, has_prefix, index_of_from, lines,
    parse_u32, parse_u32_range, split_lines, split_whitespace, split_words, starts_with, string_of,
    string_of_range, to_chars, utf8_error_text, utf8_failure, views,
};
use vstd::prelude::*;
use vstd::string::*;
use vstd::utf8::*;

verus! {

// ---------------------------------------------------------------------------
// Data
// ---------------------------------------------------------------------------
/// What a diff is asked for.
#[derive(Debug, Clone, PartialEq, Eq)]
pub enum DiffSpec {
    /// One commit, shown against its parent.
    SingleCommit(String),
    /// The change from the first commit to the second.
    TwoCommit(String, String),
}

/// The mathematical value of a [`DiffSpec`].
pub enum DiffSpecView {
    SingleCommit(Seq<char>),
    TwoCommit(Seq<char>, Seq<char>),
}

impl View for DiffSpec {
    type V = DiffSpecView;

    open spec fn view(&self) -> DiffSpecView {
        match self {
            DiffSpec::SingleCommit(c) => DiffSpecView::SingleCommit(c@),
            DiffSpec::TwoCommit(a, b) => DiffSpecView::TwoCommit(a@, b@),
        }
    }
}

/// One hunk of a zero-context diff.
#[derive(Debug, Clone, PartialEq, Eq)]
pub struct DiffHunk {
    pub file_path: String,
    pub old_start: u32,
    pub old_count: u32,
    pub new_start: u32,
    pub new_count: u32,
    /// The lines that the hunk deletes, numbered in the old file.
    pub deleted_lines: Vec<u32>,
    /// The lines that the hunk adds, numbered in the new file.
    pub added_lines: Vec<u32>,
}

/// The mathematical value of a [`DiffHunk`].
pub struct DiffHunkView {
    pub file_path: Seq<char>,
    pub old_start: u32,
    pub old_count: u32,
    pub new_start: u32,
    pub new_count: u32,
    pub deleted_lines: Seq<u32>,
    pub added_lines: Seq<u32>,
}

impl View for DiffHunk {
    type V = DiffHunkView;

    open spec fn view(&self) -> DiffHunkView {
        DiffHunkView {
            file_path: self.file_path@,
            old_start: self.old_start,
            old_count: self.old_count,
            new_start: self.new_start,
            new_count: self.new_count,
            deleted_lines: self.deleted_lines@,
            added_lines: self.added_lines@,
        }
    }
}

impl DeepView for DiffHunk {
    type V = DiffHunkView;

    open spec fn deep_view(&self) -> DiffHunkView {
        self@
    }
}

/// Which numbering a line number of a diff belongs to.
#[derive(Debug, Clone, Copy, PartialEq, Eq, Structural, Hash)]
pub enum LineSide {
    /// Numbering of the old file: deleted lines.
    Old,
    /// Numbering of the new file: added lines.
    New,
}

/// A line of a diff: the same number on the two sides names unrelated lines.
#[derive(Debug, Clone, PartialEq, Eq, Hash)]
pub struct DiffLineKey {
    pub file: String,
    pub line: u32,
    pub side: LineSide,
}

/// The mathematical value of a [`DiffLineKey`].
pub struct DiffLineKeyView {
    pub file: Seq<char>,
    pub line: u32,
    pub side: LineSide,
}

impl View for DiffLineKey {
    type V = DiffLineKeyView;

    open spec fn view(&self) -> DiffLineKeyView {
        DiffLineKeyView { file: self.file@, line: self.line, side: self.side }
    }
}

impl DeepView for DiffLineKey {
    type V = DiffLineKeyView;

    open spec fn deep_view(&self) -> DiffLineKeyView {
        self@
    }
}

/// Who wrote a line, as far as the logs tell.
#[derive(Debug, Clone, PartialEq, Eq)]
pub enum Attribution {
    /// An AI assistant; the name of the tool.
    Ai(String),
    /// A human; the user name.
    Human(String),
    /// The logs say nothing of the line.
    NoData,
}

/// The mathematical value of an [`Attribution`].
pub enum AttributionView {
    Ai(Seq<char>),
    Human(Seq<char>),
    NoData,
}

impl View for Attribution {
    type V = AttributionView;

    open spec fn view(&self) -> AttributionView {
        match self {
            Attribution::Ai(t) => AttributionView::Ai(t@),
            Attribution::Human(u) => AttributionView::Human(u@),
            Attribution::NoData => AttributionView::NoData,
        }
    }
}

impl DeepView for Attribution {
    type V = AttributionView;

    open spec fn deep_view(&self) -> AttributionView {
        self@
    }
}

impl Attribution {
    /// A copy of the attribution.
    pub fn duplicate(&self) -> (a: Attribution)
        ensures
            a@ == self@,
    {
        match self {
            Attribution::Ai(t) => Attribution::Ai(t.clone()),
            Attribution::Human(u) => Attribution::Human(u.clone()),
            Attribution::NoData => Attribution::NoData,
        }
    }
}

// ---------------------------------------------------------------------------
// The revisions of a diff
// ---------------------------------------------------------------------------
/// The message for a range argument that is no `<commit>..<commit>`.
pub open spec fn invalid_range_message() -> Seq<char> {
    "Invalid commit range format. Expected: <commit>..<commit>"@
}

/// What an argument asks for: without `..` one commit; with exactly one `..`
/// that has text on both sides, the two commits; otherwise an error.
pub open spec fn parse_diff_args_spec(arg: Seq<char>) -> Result<DiffSpecView, GitAiErrorView> {
    match find(arg, ".."@) {
        None => Ok(DiffSpecView::SingleCommit(arg)),
        Some(i) => {
            let left = arg.take(i);
            let right = arg.skip(i + 2);
            if left.len() > 0 && right.len() > 0 && find(right, ".."@) is None {
                Ok(DiffSpecView::TwoCommit(left, right))
            } else {
                Err(GitAiErrorView::InvalidRange(invalid_range_message()))
            }
        },
    }
}

/// Reads the first argument as one commit or as a range `start..end`.
pub fn parse_diff_args(args: &[String]) -> (r: Result<DiffSpec, GitAiError>)
    requires
        args@.len() > 0,
    ensures
        match parse_diff_args_spec(args@[0]@) {
            Ok(s) => r matches Ok(x) && x@ == s,
            Err(e) => r matches Err(x) && x@ == e,
        },
{
    let arg = to_chars(args[0].as_str());
    let dots = to_chars("..");
    proof {
        reveal_strlit("..");
    }
    match find_at(&arg, &dots, 0) {
        None => Ok(DiffSpec::SingleCommit(args[0].clone())),
        Some(i) => {
            let right = chars_of_range(&arg, i + 2, arg.len());
            assert(right@ =~= arg@.skip(i + 2));
            assert(arg@.subrange(0, i as int) =~= arg@.take(i as int));
            if i > 0 && right.len() > 0 && find_at(&right, &dots, 0).is_none() {
                Ok(DiffSpec::TwoCommit(string_of_range(&arg, 0, i), string_of(&right)))
            } else {
                Err(
                    GitAiError::InvalidRange(
                        "Invalid commit range format. Expected: <commit>..<commit>".to_owned(),
                    ),
                )
            }
        },
    }
}

// ---------------------------------------------------------------------------
// Hunk headers
// ---------------------------------------------------------------------------
/// The number that `s` denotes, or 0 when it denotes none.
pub open spec fn number_or_zero(s: Seq<char>) -> u32 {
    match parse_u32(s) {
        Some(n) => n,
        None => 0,
    }
}

/// Start and count of one side of a hunk header, `<sign><start>[,<count>]`:
/// a count left out is 1, a number that cannot be read is 0, and a word that
/// does not begin with the sign gives `(0, 0)`.
pub open spec fn hunk_range(part: Seq<char>, sign: char) -> (u32, u32) {
    if part.len() > 0 && part[0] == sign {
        let comma = index_of_from(part, ',', 1);
        if comma < part.len() {
            (
                number_or_zero(part.subrange(1, comma)),
                number_or_zero(part.subrange(comma + 1, part.len() as int)),
            )
        } else {
            (number_or_zero(part.subrange(1, part.len() as int)), 1)
        }
    } else {
        (0, 0)
    }
}

/// The line numbers `start, start + 1, ..` of `count` lines.
pub open spec fn line_numbers(start: u32, count: u32) -> Seq<u32> {
    Seq::new(count as nat, |i: int| (start + i) as u32)
}

/// The message for a hunk whose last line number does not fit in 32 bits.
pub open spec fn hunk_overflow_message() -> Seq<char> {
    "Hunk header names line numbers beyond the 32-bit range"@
}

/// The hunk that a header line describes for the file `file_path`: nothing
/// when the line has fewer than three words, an error when a side reaches
/// beyond the last 32-bit line number.
pub open spec fn parse_hunk_line_spec(line: Seq<char>, file_path: Seq<char>) -> Result<
    Option<DiffHunkView>,
    GitAiErrorView,
> {
    let parts = split_whitespace(line);
    if parts.len() < 3 {
        Ok(None)
    } else {
        let (old_start, old_count) = hunk_range(parts[1], '-');
        let (new_start, new_count) = hunk_range(parts[2], '+');
        if old_start + old_count > u32::MAX || new_start + new_count > u32::MAX {
            Err(GitAiErrorView::Generic(hunk_overflow_message()))
        } else {
            Ok(
                Some(
                    DiffHunkView {
                        file_path,
                        old_start,
                        old_count,
                        new_start,
                        new_count,
                        deleted_lines: line_numbers(old_start, old_count),
                        added_lines: line_numbers(new_start, new_count),
                    },
                ),
            )
        }
    }
}

fn read_number_or_zero(v: &Vec<char>, from: usize, to: usize) -> (n: u32)
    requires
        from <= to <= v.len(),
    ensures
        n == number_or_zero(v@.subrange(from as int, to as int)),
{
    match parse_u32_range(v, from, to) {
        Some(n) => n,
        None => 0,
    }
}

fn read_hunk_range(part: &Vec<char>, sign: char) -> (r: (u32, u32))
    ensures
        r == hunk_range(part@, sign),
{
    if part.len() > 0 && part[0] == sign {
        let comma = find_char(part, ',', 1, part.len());
        proof {
            lemma_take_all(part@);
        }
        if comma < part.len() {
            (read_number_or_zero(part, 1, comma), read_number_or_zero(part, comma + 1, part.len()))
        } else {
            (read_number_or_zero(part, 1, part.len()), 1)
        }
    } else {
        (0, 0)
    }
}

fn expand_line_numbers(start: u32, count: u32) -> (v: Vec<u32>)
    requires
        start + count <= u32::MAX,
    ensures
        v@ == line_numbers(start, count),
{
    let mut v: Vec<u32> = Vec::new();
    let mut i: u32 = 0;
    while i < count
        invariant
            0 <= i <= count,
            start + count <= u32::MAX,
            v@ == line_numbers(start, i),
        decreases count - i,
    {
        v.push(start + i);
        i += 1;
        assert(v@ =~= line_numbers(start, i));
    }
    assert(v@ =~= line_numbers(start, count));
    v
}

/// Reads a hunk header `@@ -<start>[,<count>] +<start>[,<count>] @@` and lists
/// the line numbers of both sides.
pub fn parse_hunk_line(line: &str, file_path: &str) -> (r: Result<Option<DiffHunk>, GitAiError>)
    ensures
        match parse_hunk_line_spec(line@, file_path@) {
            Ok(Some(h)) => r matches Ok(Some(x)) && x@ == h,
            Ok(None) => r matches Ok(None),
            Err(e) => r matches Err(x) && x@ == e,
        },
{
    let chars = to_chars(line);
    parse_hunk_chars(&chars, file_path)
}

fn parse_hunk_chars(line: &Vec<char>, file_path: &str) -> (r: Result<Option<DiffHunk>, GitAiError>)
    ensures
        match parse_hunk_line_spec(line@, file_path@) {
            Ok(Some(h)) => r matches Ok(Some(x)) && x@ == h,
            Ok(None) => r matches Ok(None),
            Err(e) => r matches Err(x) && x@ == e,
        },
{
    let parts = split_words(line);
    if parts.len() < 3 {
        return Ok(None);
    }
    let (old_start, old_count) = read_hunk_range(&parts[1], '-');
    let (new_start, new_count) = read_hunk_range(&parts[2], '+');
    if old_count > u32::MAX - old_start || new_count > u32::MAX - new_start {
        return Err(
            GitAiError::Generic(
                "Hunk header names line numbers beyond the 32-bit range".to_owned(),
            ),
        );
    }
    Ok(
        Some(
            DiffHunk {
                file_path: file_path.to_owned(),
                old_start,
                old_count,
                new_start,
                new_count,
                deleted_lines: expand_line_numbers(old_start, old_count),
                added_lines: expand_line_numbers(new_start, new_count),
            },
        ),
    )
}

/// The number with which one side of a hunk header starts, where the word
/// begins with the sign and the number can be read.
pub open spec fn hunk_start(part: Seq<char>, sign: char) -> Option<u32> {
    if part.len() > 0 && part[0] == sign {
        parse_u32(part.subrange(1, index_of_from(part, ',', 1)))
    } else {
        None
    }
}

/// The first old and the first new line number that a hunk header names.
pub open spec fn parse_hunk_header_for_line_nums_spec(line: Seq<char>) -> Option<(u32, u32)> {
    let parts = split_whitespace(line);
    if parts.len() < 3 {
        None
    } else {
        match (hunk_start(parts[1], '-'), hunk_start(parts[2], '+')) {
            (Some(a), Some(b)) => Some((a, b)),
            _ => None,
        }
    }
}

fn read_hunk_start(part: &Vec<char>, sign: char) -> (r: Option<u32>)
    ensures
        r == hunk_start(part@, sign),
{
    if part.len() > 0 && part[0] == sign {
        let comma = find_char(part, ',', 1, part.len());
        proof {
            lemma_take_all(part@);
        }
        parse_u32_range(part, 1, comma)
    } else {
        None
    }
}

/// Reads from a hunk header the line numbers at which its two sides start.
pub fn parse_hunk_header_for_line_nums(line: &str) -> (r: Option<(u32, u32)>)
    ensures
        r == parse_hunk_header_for_line_nums_spec(line@),
{
    let chars = to_chars(line);
    hunk_header_starts(&chars)
}

/// Reads from the characters of a hunk header the line numbers at which its
/// two sides start.
pub(crate) fn hunk_header_starts(line: &Vec<char>) -> (r: Option<(u32, u32)>)
    ensures
        r == parse_hunk_header_for_line_nums_spec(line@),
{
    let parts = split_words(line);
    if parts.len() < 3 {
        return None;
    }
    match read_hunk_start(&parts[1], '-') {
        None => None,
        Some(a) => match read_hunk_start(&parts[2], '+') {
            None => None,
            Some(b) => Some((a, b)),
        },
    }
}

/// The numbers of old and of new lines that a hunk header announces for the
/// body that follows it: 0 each where the line has fewer than three words.
pub open spec fn hunk_header_counts_spec(line: Seq<char>) -> (u32, u32) {
    let parts = split_whitespace(line);
    if parts.len() < 3 {
        (0, 0)
    } else {
        (hunk_range(parts[1], '-').1, hunk_range(parts[2], '+').1)
    }
}

/// Reads from the characters of a hunk header how many old and how many new
/// lines its body has.
pub(crate) fn hunk_header_counts(line: &Vec<char>) -> (r: (u32, u32))
    ensures
        r == hunk_header_counts_spec(line@),
{
    let parts = split_words(line);
    if parts.len() < 3 {
        return (0, 0);
    }
    let (_, old_count) = read_hunk_range(&parts[1], '-');
    let (_, new_count) = read_hunk_range(&parts[2], '+');
    (old_count, new_count)
}

// ---------------------------------------------------------------------------
// The hunks of a diff
// ---------------------------------------------------------------------------
/// `hunks` put before what `rest` holds, where `rest` is no error.
pub open spec fn prepend_hunks(
    hunks: Seq<DiffHunkView>,
    rest: Result<Seq<DiffHunkView>, GitAiErrorView>,
) -> Result<Seq<DiffHunkView>, GitAiErrorView> {
    match rest {
        Ok(more) => Ok(hunks + more),
        Err(e) => Err(e),
    }
}

/// The hunks of the lines `ls[i..]`, where `file` is the file that the last
/// `+++ b/` line before them named: such a line names the file of the hunks
/// that follow, a line that begins with `@@ ` is read as a hunk header, and
/// every other line is passed over. The first error ends the reading.
pub open spec fn hunks_from(ls: Seq<Seq<char>>, i: int, file: Seq<char>) -> Result<
    Seq<DiffHunkView>,
    GitAiErrorView,
>
    decreases ls.len() - i,
{
    if i < 0 || i >= ls.len() {
        Ok(Seq::empty())
    } else if starts_with(ls[i], "+++ b/"@) {
        hunks_from(ls, i + 1, ls[i].skip("+++ b/"@.len() as int))
    } else if starts_with(ls[i], "@@ "@) {
        match parse_hunk_line_spec(ls[i], file) {
            Err(e) => Err(e),
            Ok(None) => hunks_from(ls, i + 1, file),
            Ok(Some(h)) => prepend_hunks(seq![h], hunks_from(ls, i + 1, file)),
        }
    } else {
        hunks_from(ls, i + 1, file)
    }
}

/// The hunks of a zero-context diff, in the order of the text.
pub open spec fn parse_diff_hunks_spec(text: Seq<char>) -> Result<
    Seq<DiffHunkView>,
    GitAiErrorView,
> {
    hunks_from(lines(text), 0, Seq::empty())
}

/// Reads the hunks of a zero-context diff.
pub fn parse_diff_hunks(diff_text: &str) -> (r: Result<Vec<DiffHunk>, GitAiError>)
    ensures
        match parse_diff_hunks_spec(diff_text@) {
            Ok(hs) => r matches Ok(v) && v.deep_view() == hs,
            Err(e) => r matches Err(x) && x@ == e,
        },
{
    let chars = to_chars(diff_text);
    let ls = split_lines(&chars);
    let mut hunks: Vec<DiffHunk> = Vec::new();
    let mut current_file = String::new();
    let ghost total = parse_diff_hunks_spec(diff_text@);
    let ghost lv = views(ls@);
    let mut i: usize = 0;
    proof {
        lemma_deep_view_empty(hunks);
        assert(prepend_hunks(hunks.deep_view(), hunks_from(lv, 0, current_file@)) == total) by {
            match hunks_from(lv, 0, current_file@) {
                Ok(more) => {
                    assert(hunks.deep_view() + more =~= more);
                },
                Err(_) => {},
            }
        }
    }
    while i < ls.len()
        invariant
            0 <= i <= ls.len(),
            lv == views(ls@),
            total == parse_diff_hunks_spec(diff_text@),
            total == prepend_hunks(hunks.deep_view(), hunks_from(lv, i as int, current_file@)),
        decreases ls.len() - i,
    {
        let line = &ls[i];
        assert(lv[i as int] == line@);
        if has_prefix(line, "+++ b/") {
            proof {
                reveal_strlit("+++ b/");
            }
            current_file = string_of_range(line, 6, line.len());
            assert(line@.subrange(6, line.len() as int) =~= line@.skip(6));
        } else if has_prefix(line, "@@ ") {
            match parse_hunk_chars(line, current_file.as_str()) {
                Err(e) => {
                    return Err(e);
                },
                Ok(None) => {},
                Ok(Some(hunk)) => {
                    let ghost before = hunks;
                    let ghost h = hunk;
                    hunks.push(hunk);
                    proof {
                        lemma_deep_view_push(before, hunks, h);
                        match hunks_from(lv, i + 1, current_file@) {
                            Ok(more) => {
                                assert(before.deep_view() + (seq![h@] + more) =~= hunks.deep_view()
                                    + more);
                            },
                            Err(_) => {},
                        }
                    }
                },
            }
        }
        i += 1;
    }
    proof {
        assert(hunks.deep_view() + Seq::<DiffHunkView>::empty() =~= hunks.deep_view());
    }
    Ok(hunks)
}

/// The message for diff output that is no UTF-8 text.
pub open spec fn diff_not_text_message(output: Seq<u8>) -> Seq<char> {
    not_text_message("diff output"@, utf8_error_text(output))
}

/// What the output of a zero-context diff holds: its hunks where the output
/// is UTF-8 text, an error where it is not.
pub open spec fn get_diff_with_line_numbers_spec(output: Seq<u8>) -> Result<
    Seq<DiffHunkView>,
    GitAiErrorView,
> {
    if valid_utf8(output) {
        parse_diff_hunks_spec(decode_utf8(output))
    } else {
        Err(GitAiErrorView::Generic(diff_not_text_message(output)))
    }
}

/// Reads the hunks, with their line numbers, from the bytes that a
/// zero-context diff wrote.
pub fn get_diff_with_line_numbers(output: &[u8]) -> (r: Result<Vec<DiffHunk>, GitAiError>)
    ensures
        match get_diff_with_line_numbers_spec(output@) {
            Ok(hs) => r matches Ok(v) && v.deep_view() == hs,
            Err(e) => r matches Err(x) && x@ == e,
        },
{
    match decode_text(output) {
        Some(text) => parse_diff_hunks(text.as_str()),
        None => {
            let shown = utf8_failure(output);
            Err(not_text("diff output", shown.as_str()))
        },
    }
}

} // verus!
