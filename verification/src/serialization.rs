//! The stored form of a log: a section of attestations, a divider line, and
//! a trailer of metadata.
//!
//! The attestations are lines. A line that does not begin with a space names
//! a file; the lines `  <start>-<end> ai <prompt>` and
//! `  <start>-<end> human <author>` that follow it are the entries of that
//! file. Here the sections are framed and the attestations are read and
//! written; the trailer, which is JSON, has a module of its own.

use crate::authorship_log::{
    entries_well_formed, files_well_formed, prompts_well_formed, AttributionRef,
    AttributionRefView, AuthorshipLog, AuthorshipLogView, AuthorshipMetadata,
    AuthorshipMetadataView, Entry, EntryView, FileAttestation, FileAttestationView, PromptRecord,
};
use crate::error::{GitAiError, GitAiErrorView};
use crate::sequences::{
    lemma_deep_view_empty, lemma_deep_view_push, lemma_take_all, lemma_take_next,
};
use crate::text::{
    chars_equal, chars_of_range, find, find_at, find_char, has_prefix, index_of_from,
    lines, parse_u32, parse_u32_range, split_lines, starts_with, str_equal, string_of,
    string_of_range, to_chars, views,
};
use crate::virtual_attribution::{current_schema_version, schema_version};
use vstd::prelude::*;
use vstd::string::*;

verus! {

// ---------------------------------------------------------------------------
// Sections
// ---------------------------------------------------------------------------
/// The line that parts the attestations from the metadata, with the line
/// feeds around it.
pub open spec fn divider() -> Seq<char> {
    "\n---\n"@
}

/// The two sections of a stored log: what stands before the first divider,
/// and what stands after it.
pub open spec fn split_sections_spec(content: Seq<char>) -> Option<(Seq<char>, Seq<char>)> {
    match find(content, divider()) {
        Some(i) => Some((content.take(i), content.skip(i + divider().len()))),
        None => None,
    }
}

/// Parts a stored log into the section of attestations and the trailer.
pub fn split_sections(content: &str) -> (r: Option<(String, String)>)
    ensures
        r.deep_view() == split_sections_spec(content@),
{
    let chars = to_chars(content);
    let mark = to_chars("\n---\n");
    proof {
        reveal_strlit("\n---\n");
    }
    match find_at(&chars, &mark, 0) {
        Some(i) => {
            assert(chars@.subrange(0, i as int) =~= chars@.take(i as int));
            assert(chars@.subrange(i + 5, chars.len() as int) =~= chars@.skip(i + 5));
            Some((string_of_range(&chars, 0, i), string_of_range(&chars, i + 5, chars.len())))
        },
        None => None,
    }
}

/// The stored form of two sections.
pub open spec fn join_sections_spec(attestations: Seq<char>, metadata: Seq<char>) -> Seq<char> {
    attestations + divider() + metadata
}

/// Joins the section of attestations and the trailer.
pub fn join_sections(attestations: &str, metadata: &str) -> (r: String)
    ensures
        r@ == join_sections_spec(attestations@, metadata@),
{
    attestations.to_owned().concat("\n---\n").concat(metadata)
}

/// The trailer of a log that holds nothing but the schema version.
pub open spec fn minimal_metadata() -> AuthorshipMetadataView {
    AuthorshipMetadataView {
        schema_version: schema_version(),
        git_ai_version: None,
        base_commit_sha: Seq::empty(),
        prompts: Seq::empty(),
    }
}

impl AuthorshipMetadata {
    /// The trailer that holds nothing but the schema version: no prompt, and
    /// an empty base commit.
    pub fn minimal() -> (m: AuthorshipMetadata)
        ensures
            m@ == minimal_metadata(),
    {
        let prompts: Vec<PromptRecord> = Vec::new();
        proof {
            lemma_deep_view_empty(prompts);
        }
        AuthorshipMetadata {
            schema_version: current_schema_version(),
            git_ai_version: None,
            base_commit_sha: String::new(),
            prompts,
        }
    }
}

// ---------------------------------------------------------------------------
// Reading attestations
// ---------------------------------------------------------------------------
/// The reference that the end of an entry line names.
pub open spec fn parse_reference(who: Seq<char>) -> Option<AttributionRefView> {
    if starts_with(who, "ai "@) {
        Some(AttributionRefView::Prompt(who.skip("ai "@.len() as int)))
    } else if starts_with(who, "human "@) {
        Some(AttributionRefView::Human(who.skip("human "@.len() as int)))
    } else {
        None
    }
}

/// The entry that a line `  <start>-<end> ai <prompt>` or
/// `  <start>-<end> human <author>` holds, where `1 <= start <= end`.
pub open spec fn parse_entry_line(line: Seq<char>) -> Option<EntryView> {
    if !starts_with(line, "  "@) {
        None
    } else {
        let dash = index_of_from(line, '-', 2);
        let space = index_of_from(line, ' ', dash + 1);
        if dash >= line.len() || space >= line.len() {
            None
        } else {
            match (
                parse_u32(line.subrange(2, dash)),
                parse_u32(line.subrange(dash + 1, space)),
                parse_reference(line.skip(space + 1)),
            ) {
                (Some(start_line), Some(end_line), Some(reference)) => if 1 <= start_line
                    <= end_line {
                    Some(EntryView { start_line, end_line, reference })
                } else {
                    None
                },
                _ => None,
            }
        }
    }
}

/// `files` with `e` added to the entries of the last file.
pub open spec fn with_entry(files: Seq<FileAttestationView>, e: EntryView) -> Seq<
    FileAttestationView,
> {
    files.drop_last().push(
        FileAttestationView {
            file_path: files.last().file_path,
            entries: files.last().entries.push(e),
        },
    )
}

/// Whether `e` may follow `entries`: it begins after the last of them ends.
pub open spec fn entry_follows(entries: Seq<EntryView>, e: EntryView) -> bool {
    entries.len() == 0 || entries.last().end_line < e.start_line
}

/// Whether one of the attestations is of `path`.
pub open spec fn path_attested(files: Seq<FileAttestationView>, path: Seq<char>) -> bool {
    exists|k: int| 0 <= k < files.len() && (#[trigger] files[k]).file_path == path
}

/// The attestations that the lines `ls[i..]` add to `files`. A line that
/// begins with a space must hold an entry, follow a file, and begin after
/// the entry before it ends; an empty line is malformed; every other line
/// begins a file, which must not have been begun before.
pub open spec fn parse_attestation_lines(
    ls: Seq<Seq<char>>,
    i: int,
    files: Seq<FileAttestationView>,
) -> Option<Seq<FileAttestationView>>
    decreases ls.len() - i,
{
    if i < 0 || i >= ls.len() {
        Some(files)
    } else if ls[i].len() == 0 {
        None
    } else if ls[i][0] == ' ' {
        match parse_entry_line(ls[i]) {
            Some(e) => if files.len() > 0 && entry_follows(files.last().entries, e) {
                parse_attestation_lines(ls, i + 1, with_entry(files, e))
            } else {
                None
            },
            None => None,
        }
    } else if path_attested(files, ls[i]) {
        None
    } else {
        parse_attestation_lines(
            ls,
            i + 1,
            files.push(FileAttestationView { file_path: ls[i], entries: Seq::empty() }),
        )
    }
}

proof fn lemma_with_entry_well_formed(files: Seq<FileAttestationView>, e: EntryView)
    requires
        files_well_formed(files),
        files.len() > 0,
        entry_follows(files.last().entries, e),
        1 <= e.start_line <= e.end_line,
    ensures
        files_well_formed(with_entry(files, e)),
{
    let out = with_entry(files, e);
    let old_entries = files.last().entries;
    let new_entries = old_entries.push(e);
    assert(entries_well_formed(old_entries)) by {
        assert(files[files.len() - 1] == files.last());
    }
    assert(entries_well_formed(new_entries)) by {
        assert forall|a: int, b: int| 0 <= a < b < new_entries.len() implies (
        #[trigger] new_entries[a]).end_line < (#[trigger] new_entries[b]).start_line by {
            if b == new_entries.len() - 1 {
                assert(new_entries[a] == old_entries[a]);
                if a < old_entries.len() - 1 {
                    assert(old_entries[a].end_line < old_entries[old_entries.len() - 1].start_line);
                }
                assert(1 <= old_entries[old_entries.len() - 1].start_line
                    <= old_entries[old_entries.len() - 1].end_line);
            } else {
                assert(new_entries[a] == old_entries[a]);
                assert(new_entries[b] == old_entries[b]);
            }
        }
        assert forall|a: int| 0 <= a < new_entries.len() implies 1 <= (
        #[trigger] new_entries[a]).start_line <= new_entries[a].end_line by {
            if a < old_entries.len() {
                assert(new_entries[a] == old_entries[a]);
            }
        }
    }
    assert forall|a: int| 0 <= a < out.len() implies entries_well_formed(
        (#[trigger] out[a]).entries,
    ) by {
        if a < out.len() - 1 {
            assert(out[a] == files[a]);
        }
    }
    assert forall|a: int, b: int| 0 <= a < b < out.len() implies (#[trigger] out[a]).file_path != (
    #[trigger] out[b]).file_path by {
        assert(out[a].file_path == files[a].file_path);
        assert(out[b].file_path == files[b].file_path);
    }
}

/// What the lines add to well-formed attestations is well formed.
pub proof fn lemma_parsed_attestations_well_formed(
    ls: Seq<Seq<char>>,
    i: int,
    files: Seq<FileAttestationView>,
)
    requires
        files_well_formed(files),
    ensures
        parse_attestation_lines(ls, i, files) matches Some(out) ==> files_well_formed(out),
    decreases ls.len() - i,
{
    if i < 0 || i >= ls.len() {
    } else if ls[i].len() == 0 {
    } else if ls[i][0] == ' ' {
        match parse_entry_line(ls[i]) {
            Some(e) => {
                if files.len() > 0 && entry_follows(files.last().entries, e) {
                    lemma_with_entry_well_formed(files, e);
                    lemma_parsed_attestations_well_formed(ls, i + 1, with_entry(files, e));
                }
            },
            None => {},
        }
    } else if path_attested(files, ls[i]) {
    } else {
        let next = files.push(FileAttestationView { file_path: ls[i], entries: Seq::empty() });
        assert forall|a: int| 0 <= a < next.len() implies entries_well_formed(
            (#[trigger] next[a]).entries,
        ) by {
            if a < files.len() {
                assert(next[a] == files[a]);
            }
        }
        assert forall|a: int, b: int| 0 <= a < b < next.len() implies (
        #[trigger] next[a]).file_path != (#[trigger] next[b]).file_path by {
            assert(next[a] == files[a]);
            if b < files.len() {
                assert(next[b] == files[b]);
            }
        }
        lemma_parsed_attestations_well_formed(ls, i + 1, next);
    }
}

/// The attestations that a section holds, where it is well formed.
pub open spec fn parse_attestations_spec(section: Seq<char>) -> Option<Seq<FileAttestationView>> {
    parse_attestation_lines(lines(section), 0, Seq::empty())
}

fn read_reference(line: &Vec<char>, from: usize) -> (r: Option<AttributionRef>)
    requires
        from <= line.len(),
    ensures
        r.deep_view() == parse_reference(line@.skip(from as int)),
{
    let who = chars_of_range(line, from, line.len());
    assert(who@ =~= line@.skip(from as int));
    proof {
        reveal_strlit("ai ");
        reveal_strlit("human ");
    }
    if has_prefix(&who, "ai ") {
        assert(who@.subrange(3, who.len() as int) =~= who@.skip(3));
        Some(AttributionRef::Prompt(string_of_range(&who, 3, who.len())))
    } else if has_prefix(&who, "human ") {
        assert(who@.subrange(6, who.len() as int) =~= who@.skip(6));
        Some(AttributionRef::Human(string_of_range(&who, 6, who.len())))
    } else {
        None
    }
}

fn read_entry_line(line: &Vec<char>) -> (r: Option<Entry>)
    ensures
        r.deep_view() == parse_entry_line(line@),
{
    proof {
        reveal_strlit("  ");
        lemma_take_all(line@);
    }
    if !has_prefix(line, "  ") {
        return None;
    }
    let dash = find_char(line, '-', 2, line.len());
    if dash >= line.len() {
        return None;
    }
    let space = find_char(line, ' ', dash + 1, line.len());
    if space >= line.len() {
        return None;
    }
    let start = parse_u32_range(line, 2, dash);
    let end = parse_u32_range(line, dash + 1, space);
    let reference = read_reference(line, space + 1);
    match (start, end, reference) {
        (Some(start_line), Some(end_line), Some(reference)) => {
            if 1 <= start_line && start_line <= end_line {
                Some(Entry { start_line, end_line, reference })
            } else {
                None
            }
        },
        _ => None,
    }
}

fn has_path(files: &Vec<FileAttestation>, path: &Vec<char>) -> (r: bool)
    ensures
        r == path_attested(files.deep_view(), path@),
{
    let mut k: usize = 0;
    while k < files.len()
        invariant
            0 <= k <= files.len(),
            forall|j: int| 0 <= j < k ==> (#[trigger] files.deep_view()[j]).file_path != path@,
        decreases files.len() - k,
    {
        let known = to_chars(files[k].file_path.as_str());
        if chars_equal(&known, path) {
            assert(files.deep_view()[k as int].file_path == path@);
            return true;
        }
        k += 1;
    }
    false
}

/// Reads the attestations of a section; `None` where it is malformed. What
/// is read is well formed: no path occurs twice, and the entries of each file
/// ascend without sharing a line.
pub fn parse_attestations(section: &str) -> (r: Option<Vec<FileAttestation>>)
    ensures
        r.deep_view() == parse_attestations_spec(section@),
        r matches Some(files) ==> files_well_formed(files.deep_view()),
{
    let chars = to_chars(section);
    let ls = split_lines(&chars);
    let ghost lv = views(ls@);
    let mut files: Vec<FileAttestation> = Vec::new();
    let mut i: usize = 0;
    proof {
        lemma_deep_view_empty(files);
        lemma_parsed_attestations_well_formed(lv, 0, files.deep_view());
    }
    while i < ls.len()
        invariant
            0 <= i <= ls.len(),
            lv == views(ls@),
            lv == lines(section@),
            parse_attestations_spec(section@) == parse_attestation_lines(
                lv,
                i as int,
                files.deep_view(),
            ),
        decreases ls.len() - i,
    {
        let line = &ls[i];
        assert(lv[i as int] == line@);
        if line.len() == 0 {
            return None;
        }
        if line[0] == ' ' {
            match read_entry_line(line) {
                None => {
                    return None;
                },
                Some(e) => {
                    if files.len() == 0 {
                        return None;
                    }
                    let known = &files[files.len() - 1].entries;
                    if known.len() > 0 && known[known.len() - 1].end_line >= e.start_line {
                        assert(known.deep_view().last() == known[known.len() - 1]@);
                        return None;
                    }
                    assert(entry_follows(files.deep_view().last().entries, e@)) by {
                        if known.len() > 0 {
                            assert(known.deep_view().last() == known[known.len() - 1]@);
                        }
                    }
                    let ghost before = files;
                    let mut last = files.pop().unwrap();
                    let ghost head = files;
                    let ghost last_before = last;
                    last.entries.push(e);
                    files.push(last);
                    proof {
                        lemma_deep_view_push(last_before.entries, last.entries, e);
                        lemma_deep_view_push(head, files, last);
                        assert(head.deep_view() =~= before.deep_view().drop_last());
                        assert(before.deep_view().last() == last_before@);
                    }
                },
            }
        } else {
            if has_path(&files, line) {
                return None;
            }
            let entries: Vec<Entry> = Vec::new();
            proof {
                lemma_deep_view_empty(entries);
            }
            let item = FileAttestation { file_path: string_of(line), entries };
            let ghost before = files;
            files.push(item);
            proof {
                lemma_deep_view_push(before, files, item);
            }
        }
        i += 1;
    }
    Some(files)
}

// ---------------------------------------------------------------------------
// Writing attestations
// ---------------------------------------------------------------------------
/// The character of a decimal digit.
pub open spec fn digit_char(d: nat) -> char {
    if d == 0 {
        '0'
    } else if d == 1 {
        '1'
    } else if d == 2 {
        '2'
    } else if d == 3 {
        '3'
    } else if d == 4 {
        '4'
    } else if d == 5 {
        '5'
    } else if d == 6 {
        '6'
    } else if d == 7 {
        '7'
    } else if d == 8 {
        '8'
    } else {
        '9'
    }
}

/// The decimal digits of `n`, without leading zero.
pub open spec fn decimal(n: nat) -> Seq<char>
    decreases n,
{
    if n < 10 {
        seq![digit_char(n)]
    } else {
        decimal(n / 10).push(digit_char(n % 10))
    }
}

/// The text of a reference in an entry line.
pub open spec fn reference_text(r: AttributionRefView) -> Seq<char> {
    match r {
        AttributionRefView::Prompt(id) => "ai "@ + id,
        AttributionRefView::Human(author) => "human "@ + author,
    }
}

/// The line of an entry, with the line feed that ends it.
pub open spec fn entry_text(e: EntryView) -> Seq<char> {
    "  "@ + decimal(e.start_line as nat) + "-"@ + decimal(e.end_line as nat) + " "@
        + reference_text(e.reference) + "\n"@
}

/// The lines of the entries, each ended by a line feed.
pub open spec fn entries_text(entries: Seq<EntryView>) -> Seq<char>
    decreases entries.len(),
{
    if entries.len() == 0 {
        Seq::empty()
    } else {
        entries_text(entries.drop_last()) + entry_text(entries.last())
    }
}

/// The lines of the attestations, each ended by a line feed.
pub open spec fn files_text(files: Seq<FileAttestationView>) -> Seq<char>
    decreases files.len(),
{
    if files.len() == 0 {
        Seq::empty()
    } else {
        files_text(files.drop_last()) + files.last().file_path + "\n"@ + entries_text(
            files.last().entries,
        )
    }
}

/// The section of the attestations: their lines, the last one not ended.
pub open spec fn serialize_attestations_spec(files: Seq<FileAttestationView>) -> Seq<char> {
    let text = files_text(files);
    if text.len() == 0 {
        text
    } else {
        text.drop_last()
    }
}

fn digit_to_char(d: u64) -> (c: char)
    requires
        d < 10,
    ensures
        c == digit_char(d as nat),
{
    if d == 0 {
        '0'
    } else if d == 1 {
        '1'
    } else if d == 2 {
        '2'
    } else if d == 3 {
        '3'
    } else if d == 4 {
        '4'
    } else if d == 5 {
        '5'
    } else if d == 6 {
        '6'
    } else if d == 7 {
        '7'
    } else if d == 8 {
        '8'
    } else {
        '9'
    }
}

/// Appends the decimal digits of `n`.
pub(crate) fn push_decimal(out: &mut Vec<char>, n: u64)
    ensures
        final(out)@ == old(out)@ + decimal(n as nat),
    decreases n,
{
    if n >= 10 {
        push_decimal(out, n / 10);
    }
    out.push(digit_to_char(n % 10));
    assert(out@ =~= old(out)@ + decimal(n as nat));
}

/// Appends the characters of `s`.
pub(crate) fn push_text(out: &mut Vec<char>, s: &str)
    ensures
        final(out)@ == old(out)@ + s@,
{
    let chars = to_chars(s);
    let mut i: usize = 0;
    assert(out@ =~= old(out)@ + chars@.take(0));
    while i < chars.len()
        invariant
            0 <= i <= chars.len(),
            out@ == old(out)@ + chars@.take(i as int),
        decreases chars.len() - i,
    {
        out.push(chars[i]);
        proof {
            lemma_take_next(chars@, i as int);
            assert(out@ =~= old(out)@ + chars@.take(i + 1));
        }
        i += 1;
    }
    proof {
        lemma_take_all(chars@);
    }
}

fn push_entry(out: &mut Vec<char>, e: &Entry)
    ensures
        final(out)@ == old(out)@ + entry_text(e@),
{
    push_text(out, "  ");
    push_decimal(out, e.start_line as u64);
    push_text(out, "-");
    push_decimal(out, e.end_line as u64);
    push_text(out, " ");
    match &e.reference {
        AttributionRef::Prompt(id) => {
            push_text(out, "ai ");
            push_text(out, id.as_str());
        },
        AttributionRef::Human(author) => {
            push_text(out, "human ");
            push_text(out, author.as_str());
        },
    }
    push_text(out, "\n");
    assert(out@ =~= old(out)@ + entry_text(e@));
}

fn push_entries(out: &mut Vec<char>, entries: &Vec<Entry>)
    ensures
        final(out)@ == old(out)@ + entries_text(entries.deep_view()),
{
    let ghost ev = entries.deep_view();
    let mut i: usize = 0;
    assert(ev.take(0) =~= Seq::<EntryView>::empty());
    assert(out@ =~= old(out)@ + entries_text(ev.take(0)));
    while i < entries.len()
        invariant
            0 <= i <= entries.len(),
            ev == entries.deep_view(),
            out@ == old(out)@ + entries_text(ev.take(i as int)),
        decreases entries.len() - i,
    {
        let ghost before = out@;
        push_entry(out, &entries[i]);
        proof {
            lemma_take_next(ev, i as int);
            assert(out@ =~= old(out)@ + entries_text(ev.take(i + 1)));
        }
        i += 1;
    }
    proof {
        lemma_take_all(ev);
    }
}

/// Writes the section of the attestations.
pub fn serialize_attestations(files: &[FileAttestation]) -> (s: String)
    ensures
        s@ == serialize_attestations_spec(files.deep_view()),
{
    let ghost fv = files.deep_view();
    let mut out: Vec<char> = Vec::new();
    let mut i: usize = 0;
    assert(fv.take(0) =~= Seq::<FileAttestationView>::empty());
    assert(out@ =~= files_text(fv.take(0)));
    while i < files.len()
        invariant
            0 <= i <= files.len(),
            fv == files.deep_view(),
            out@ == files_text(fv.take(i as int)),
        decreases files.len() - i,
    {
        let ghost before = out@;
        push_text(&mut out, files[i].file_path.as_str());
        push_text(&mut out, "\n");
        push_entries(&mut out, &files[i].entries);
        proof {
            lemma_take_next(fv, i as int);
            assert(out@ =~= files_text(fv.take(i + 1)));
        }
        i += 1;
    }
    proof {
        lemma_take_all(fv);
    }
    if out.len() == 0 {
        string_of(&out)
    } else {
        assert(out@.subrange(0, out.len() - 1) =~= out@.drop_last());
        string_of_range(&out, 0, out.len() - 1)
    }
}

// ---------------------------------------------------------------------------
// Whole logs
// ---------------------------------------------------------------------------
/// The message for a section of attestations that is malformed.
pub open spec fn malformed_attestations_message() -> Seq<char> {
    "Malformed attestations in authorship log"@
}

/// The message for a trailer of another schema version.
pub open spec fn unsupported_schema_message() -> Seq<char> {
    "Unsupported schema version of authorship log"@
}

/// The message for a trailer in which an identifier names two prompts.
pub open spec fn duplicate_prompt_message() -> Seq<char> {
    "Duplicate prompt identifier in authorship log"@
}

/// The log that a section of attestations and a trailer make: an error
/// where the trailer has another schema version or names a prompt twice, or
/// the section is malformed.
pub open spec fn from_sections_spec(attestations: Seq<char>, metadata: AuthorshipMetadataView)
    -> Result<AuthorshipLogView, GitAiErrorView> {
    if metadata.schema_version != schema_version() {
        Err(GitAiErrorView::DecodeFailure(unsupported_schema_message()))
    } else if !prompts_well_formed(metadata.prompts) {
        Err(GitAiErrorView::DecodeFailure(duplicate_prompt_message()))
    } else {
        match parse_attestations_spec(attestations) {
            Some(files) => Ok(AuthorshipLogView { attestations: files, metadata }),
            None => Err(GitAiErrorView::DecodeFailure(malformed_attestations_message())),
        }
    }
}

/// Whether no identifier names two of the prompts.
pub fn prompts_are_distinct(prompts: &Vec<PromptRecord>) -> (r: bool)
    ensures
        r == prompts_well_formed(prompts.deep_view()),
{
    let ghost pv = prompts.deep_view();
    let mut j: usize = 0;
    while j < prompts.len()
        invariant
            0 <= j <= prompts.len(),
            pv == prompts.deep_view(),
            forall|a: int, b: int|
                0 <= a < b < j ==> (#[trigger] pv[a]).id != (#[trigger] pv[b]).id,
        decreases prompts.len() - j,
    {
        let mut i: usize = 0;
        while i < j
            invariant
                0 <= i <= j < prompts.len(),
                pv == prompts.deep_view(),
                forall|a: int| 0 <= a < i ==> (#[trigger] pv[a]).id != pv[j as int].id,
            decreases j - i,
        {
            if prompts[i].id == prompts[j].id {
                assert(pv[i as int].id == pv[j as int].id);
                return false;
            }
            i += 1;
        }
        j += 1;
    }
    true
}

impl AuthorshipLog {
    /// Makes a log of a section of attestations and of a trailer. The log
    /// that is made is well formed.
    pub fn from_sections(attestations: &str, metadata: AuthorshipMetadata) -> (r: Result<
        AuthorshipLog,
        GitAiError,
    >)
        ensures
            match from_sections_spec(attestations@, metadata@) {
                Ok(log) => r matches Ok(x) && x@ == log,
                Err(e) => r matches Err(x) && x@ == e,
            },
            r matches Ok(x) ==> x@.well_formed(),
    {
        if !str_equal(metadata.schema_version.as_str(), "authorship/3.0.0") {
            return Err(
                GitAiError::DecodeFailure("Unsupported schema version of authorship log".to_owned()),
            );
        }
        if !prompts_are_distinct(&metadata.prompts) {
            return Err(
                GitAiError::DecodeFailure(
                    "Duplicate prompt identifier in authorship log".to_owned(),
                ),
            );
        }
        match parse_attestations(attestations) {
            Some(files) => Ok(AuthorshipLog { attestations: files, metadata }),
            None => Err(
                GitAiError::DecodeFailure("Malformed attestations in authorship log".to_owned()),
            ),
        }
    }

    /// The section of attestations of the log.
    pub fn serialize_attestations(&self) -> (s: String)
        ensures
            s@ == serialize_attestations_spec(self@.attestations),
    {
        serialize_attestations(self.attestations.as_slice())
    }
}

/// The paths of the attestations.
pub open spec fn attested_paths(files: Seq<FileAttestationView>) -> Seq<Seq<char>> {
    files.map_values(|f: FileAttestationView| f.file_path)
}

/// The files that a stored log attests, read without its trailer: nothing
/// where the content has no divider or its attestations are malformed.
pub open spec fn note_file_paths_spec(content: Seq<char>) -> Seq<Seq<char>> {
    match split_sections_spec(content) {
        Some((attestations, _)) => match from_sections_spec(attestations, minimal_metadata()) {
            Ok(log) => attested_paths(log.attestations),
            Err(_) => Seq::empty(),
        },
        None => Seq::empty(),
    }
}

/// Reads the paths of the attested files from a stored log, whatever its
/// trailer holds.
pub fn note_file_paths(content: &str) -> (paths: Vec<String>)
    ensures
        paths.deep_view() == note_file_paths_spec(content@),
{
    let mut paths: Vec<String> = Vec::new();
    proof {
        lemma_deep_view_empty(paths);
    }
    let sections = split_sections(content);
    match sections {
        None => paths,
        Some((attestations, _)) => {
            match AuthorshipLog::from_sections(attestations.as_str(), AuthorshipMetadata::minimal()) {
                Err(_) => paths,
                Ok(log) => {
                    let ghost fv = log.attestations.deep_view();
                    let mut i: usize = 0;
                    assert(attested_paths(fv.take(0)) =~= Seq::<Seq<char>>::empty());
                    while i < log.attestations.len()
                        invariant
                            0 <= i <= log.attestations.len(),
                            fv == log.attestations.deep_view(),
                            paths.deep_view() == attested_paths(fv.take(i as int)),
                        decreases log.attestations.len() - i,
                    {
                        let item = log.attestations[i].file_path.clone();
                        let ghost before = paths;
                        paths.push(item);
                        proof {
                            lemma_deep_view_push(before, paths, item);
                            assert(attested_paths(fv.take(i + 1)) =~= attested_paths(
                                fv.take(i as int),
                            ).push(fv[i as int].file_path));
                        }
                        i += 1;
                    }
                    proof {
                        lemma_take_all(fv);
                    }
                    paths
                },
            }
        },
    }
}

} // verus!
