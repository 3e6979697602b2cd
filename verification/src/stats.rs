//! Counts: the added and deleted lines that a numeric diff summary reports,
//! and how many of the added lines a log attributes to AI.

use crate::authorship_log::{
    AttributionRef, AttributionRefView, AuthorshipLog, AuthorshipLogView, Entry, EntryView,
    FileAttestation, FileAttestationView,
};
use crate::diff::number_or_zero;
use crate::error::{not_text, not_text_message, GitAiError, GitAiErrorView};
use crate::sequences::{lemma_take_all, lemma_take_next};
use crate::text::{
    decode_text, find_char, index_of_from, lines, parse_u32_range, split_lines, to_chars,
    utf8_error_text, utf8_failure, views,
};
use vstd::prelude::*;
use vstd::string::*;
use vstd::utf8::*;

verus! {

// ---------------------------------------------------------------------------
// Data
// ---------------------------------------------------------------------------
/// The counts of one commit or of one range.
#[derive(Debug, Clone, Copy, PartialEq, Eq, Structural)]
pub struct CommitStats {
    /// Added lines that are not attributed to AI.
    pub human_additions: u32,
    /// Added lines that are attributed to AI.
    pub ai_additions: u32,
    /// Lines that the log attributes to AI, whether or not the diff counts
    /// them as added.
    pub total_ai_additions: u32,
    /// Lines that the diff reports as added.
    pub git_diff_added_lines: u32,
    /// Lines that the diff reports as deleted.
    pub git_diff_deleted_lines: u32,
}

// ---------------------------------------------------------------------------
// The numeric diff summary
// ---------------------------------------------------------------------------
/// The added and deleted lines that one line of the summary reports,
/// `<added>\t<deleted>\t<path>`: a count that is no number, such as the `-`
/// of a binary file, counts as 0, and a line without tab reports nothing.
pub open spec fn numstat_line(line: Seq<char>) -> (nat, nat) {
    let tab = index_of_from(line, '\t', 0);
    if 0 <= tab < line.len() {
        let end = index_of_from(line, '\t', tab + 1);
        (
            number_or_zero(line.subrange(0, tab)) as nat,
            number_or_zero(line.subrange(tab + 1, end)) as nat,
        )
    } else {
        (0, 0)
    }
}

/// The sums of what the lines `ls[i..]` report.
pub open spec fn numstat_totals_from(ls: Seq<Seq<char>>, i: int) -> (nat, nat)
    decreases ls.len() - i,
{
    if i < 0 || i >= ls.len() {
        (0, 0)
    } else {
        let (a, d) = numstat_line(ls[i]);
        let (ra, rd) = numstat_totals_from(ls, i + 1);
        (a + ra, d + rd)
    }
}

/// The added and the deleted lines that a summary reports in all.
pub open spec fn numstat_totals(text: Seq<char>) -> (nat, nat) {
    numstat_totals_from(lines(text), 0)
}

/// The message for a summary that is no UTF-8 text.
pub open spec fn numstat_not_text_message(output: Seq<u8>) -> Seq<char> {
    not_text_message("numstat output"@, utf8_error_text(output))
}

/// The message for totals that do not fit in 32 bits.
pub open spec fn numstat_overflow_message() -> Seq<char> {
    "Line counts of the diff exceed the 32-bit range"@
}

/// What the output of a numeric diff summary amounts to: an error where it
/// is no text or a total passes `u32::MAX`, the two totals otherwise.
pub open spec fn get_git_diff_stats_for_range_spec(output: Seq<u8>) -> Result<
    (u32, u32),
    GitAiErrorView,
> {
    if !valid_utf8(output) {
        Err(GitAiErrorView::Generic(numstat_not_text_message(output)))
    } else {
        let (a, d) = numstat_totals(decode_utf8(output));
        if a > u32::MAX || d > u32::MAX {
            Err(GitAiErrorView::Generic(numstat_overflow_message()))
        } else {
            Ok((a as u32, d as u32))
        }
    }
}

fn read_numstat_line(line: &Vec<char>) -> (r: (u32, u32))
    ensures
        (r.0 as nat, r.1 as nat) == numstat_line(line@),
{
    let tab = find_char(line, '\t', 0, line.len());
    proof {
        lemma_take_all(line@);
    }
    if tab < line.len() {
        let end = find_char(line, '\t', tab + 1, line.len());
        let added = match parse_u32_range(line, 0, tab) {
            Some(n) => n,
            None => 0,
        };
        let deleted = match parse_u32_range(line, tab + 1, end) {
            Some(n) => n,
            None => 0,
        };
        (added, deleted)
    } else {
        (0, 0)
    }
}

/// Sums the added and the deleted lines of a numeric diff summary.
pub fn get_git_diff_stats_for_range(output: &[u8]) -> (r: Result<(u32, u32), GitAiError>)
    ensures
        match get_git_diff_stats_for_range_spec(output@) {
            Ok(t) => r == Ok::<(u32, u32), GitAiError>(t),
            Err(e) => r matches Err(x) && x@ == e,
        },
{
    let text = match decode_text(output) {
        Some(t) => t,
        None => {
            let shown = utf8_failure(output);
            return Err(not_text("numstat output", shown.as_str()));
        },
    };
    let chars = to_chars(text.as_str());
    let ls = split_lines(&chars);
    let ghost lv = views(ls@);
    let ghost total = numstat_totals(text@);
    let mut added: u32 = 0;
    let mut deleted: u32 = 0;
    let mut i: usize = 0;
    while i < ls.len()
        invariant
            0 <= i <= ls.len(),
            lv == views(ls@),
            valid_utf8(output@),
            text@ == decode_utf8(output@),
            total == numstat_totals(text@),
            total.0 == added + numstat_totals_from(lv, i as int).0,
            total.1 == deleted + numstat_totals_from(lv, i as int).1,
        decreases ls.len() - i,
    {
        let (a, d) = read_numstat_line(&ls[i]);
        assert(lv[i as int] == ls[i as int]@);
        if a > u32::MAX - added || d > u32::MAX - deleted {
            return Err(
                GitAiError::Generic("Line counts of the diff exceed the 32-bit range".to_owned()),
            );
        }
        added += a;
        deleted += d;
        i += 1;
    }
    Ok((added, deleted))
}

// ---------------------------------------------------------------------------
// The lines of a log
// ---------------------------------------------------------------------------
/// The number of lines in the range of an entry.
pub open spec fn entry_lines(e: EntryView) -> nat {
    if e.start_line <= e.end_line {
        (e.end_line - e.start_line + 1) as nat
    } else {
        0
    }
}

/// The number of lines that an entry attributes to AI.
pub open spec fn entry_ai_lines(e: EntryView) -> nat {
    match e.reference {
        AttributionRefView::Prompt(_) => entry_lines(e),
        AttributionRefView::Human(_) => 0,
    }
}

/// The number of lines that the entries attribute to AI.
pub open spec fn entries_ai_lines(entries: Seq<EntryView>) -> nat
    decreases entries.len(),
{
    if entries.len() == 0 {
        0
    } else {
        entries_ai_lines(entries.drop_last()) + entry_ai_lines(entries.last())
    }
}

/// The number of lines that the attestations attribute to AI.
pub open spec fn files_ai_lines(files: Seq<FileAttestationView>) -> nat
    decreases files.len(),
{
    if files.len() == 0 {
        0
    } else {
        files_ai_lines(files.drop_last()) + entries_ai_lines(files.last().entries)
    }
}

/// `n`, but no more than `u32::MAX`.
pub open spec fn capped(n: nat) -> u32 {
    if n <= u32::MAX {
        n as u32
    } else {
        u32::MAX
    }
}

/// The smaller of two numbers.
pub open spec fn smaller(a: u32, b: u32) -> u32 {
    if a <= b {
        a
    } else {
        b
    }
}

/// The counts that a log and the totals of a diff give: of the added lines
/// as many are AI's as the log attributes to AI, but no more than were added;
/// the others are human's. Without a log every added line is human's.
pub open spec fn stats_from_authorship_log_spec(
    log: Option<AuthorshipLogView>,
    git_diff_added_lines: u32,
    git_diff_deleted_lines: u32,
) -> CommitStats {
    let recorded = match log {
        Some(l) => capped(files_ai_lines(l.attestations)),
        None => 0,
    };
    let ai = smaller(recorded, git_diff_added_lines);
    CommitStats {
        human_additions: (git_diff_added_lines - ai) as u32,
        ai_additions: ai,
        total_ai_additions: recorded,
        git_diff_added_lines,
        git_diff_deleted_lines,
    }
}

fn add_capped(acc: u32, n: u32) -> (r: u32)
    ensures
        r == capped((acc + n) as nat),
{
    if n > u32::MAX - acc {
        u32::MAX
    } else {
        acc + n
    }
}

fn count_entries_ai_lines(entries: &Vec<Entry>) -> (r: u32)
    ensures
        r == capped(entries_ai_lines(entries.deep_view())),
{
    let ghost ev = entries.deep_view();
    let mut acc: u32 = 0;
    let mut i: usize = 0;
    assert(ev.take(0) =~= Seq::<EntryView>::empty());
    while i < entries.len()
        invariant
            0 <= i <= entries.len(),
            ev == entries.deep_view(),
            acc == capped(entries_ai_lines(ev.take(i as int))),
        decreases entries.len() - i,
    {
        proof {
            lemma_take_next(ev, i as int);
        }
        let e = &entries[i];
        match &e.reference {
            AttributionRef::Prompt(_) => {
                if e.start_line <= e.end_line {
                    let span: u32 = e.end_line - e.start_line;
                    acc = add_capped(add_capped(acc, span), 1);
                }
            },
            AttributionRef::Human(_) => {},
        }
        i += 1;
    }
    proof {
        lemma_take_all(ev);
    }
    acc
}

fn count_files_ai_lines(files: &Vec<FileAttestation>) -> (r: u32)
    ensures
        r == capped(files_ai_lines(files.deep_view())),
{
    let ghost fv = files.deep_view();
    let mut acc: u32 = 0;
    let mut i: usize = 0;
    assert(fv.take(0) =~= Seq::<FileAttestationView>::empty());
    while i < files.len()
        invariant
            0 <= i <= files.len(),
            fv == files.deep_view(),
            acc == capped(files_ai_lines(fv.take(i as int))),
        decreases files.len() - i,
    {
        proof {
            lemma_take_next(fv, i as int);
        }
        acc = add_capped(acc, count_entries_ai_lines(&files[i].entries));
        i += 1;
    }
    proof {
        lemma_take_all(fv);
    }
    acc
}

/// The number of lines that a log attributes to AI, capped at `u32::MAX`.
pub fn ai_line_count(log: &AuthorshipLog) -> (r: u32)
    ensures
        r == capped(files_ai_lines(log@.attestations)),
{
    count_files_ai_lines(&log.attestations)
}

/// Derives the counts of AI's and of human's lines from a log and from the
/// totals of a diff.
pub fn stats_from_authorship_log(
    log: Option<&AuthorshipLog>,
    git_diff_added_lines: u32,
    git_diff_deleted_lines: u32,
) -> (r: CommitStats)
    ensures
        r == stats_from_authorship_log_spec(
            log.deep_view(),
            git_diff_added_lines,
            git_diff_deleted_lines,
        ),
        r.human_additions + r.ai_additions == git_diff_added_lines,
        r.ai_additions <= r.total_ai_additions,
{
    let recorded = match log {
        Some(l) => ai_line_count(l),
        None => 0,
    };
    let ai = if recorded <= git_diff_added_lines {
        recorded
    } else {
        git_diff_added_lines
    };
    CommitStats {
        human_additions: git_diff_added_lines - ai,
        ai_additions: ai,
        total_ai_additions: recorded,
        git_diff_added_lines,
        git_diff_deleted_lines,
    }
}

} // verus!
