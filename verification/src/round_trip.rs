//! The law of the stored form: attestations that are written and read again
//! are the attestations that were written, and so is a whole log where its
//! trailer is read back as it was written.

use crate::authorship_log::{
    entries_well_formed, files_well_formed, prompts_well_formed, AttributionRefView,
    AuthorshipLogView, EntryView, FileAttestationView,
};
use crate::error::GitAiErrorView;
use crate::json::{json_of_text, text_of_json};
use crate::serialization::{
    decimal, digit_char, divider, entries_text, entry_follows, entry_text, files_text,
    join_sections_spec, parse_attestation_lines, parse_attestations_spec, parse_entry_line,
    parse_reference, path_attested, reference_text, serialize_attestations_spec,
    split_sections_spec, with_entry,
};
use crate::trailer::{
    deserialize_from_string_spec, lemma_metadata_round_trip, metadata_json,
    serialize_to_string_spec,
};
use crate::virtual_attribution::schema_version;
use crate::text::{
    all_digits, digit_of, digits_value, find, index_of_from, is_digit, lemma_find_from,
    lemma_index_of_from_bounds, lines, lines_from, occurs_at, parse_u32, starts_with, strip_cr,
    strip_plus,
};
use vstd::prelude::*;
use vstd::string::*;

verus! {

// ---------------------------------------------------------------------------
// What can be written
// ---------------------------------------------------------------------------
/// Whether a text can stand at the end of a line: it holds no line feed and
/// does not end with a carriage return.
pub open spec fn fits_in_line(s: Seq<char>) -> bool {
    &&& forall|i: int| 0 <= i < s.len() ==> s[i] != '\n'
    &&& s.len() > 0 ==> s.last() != '\r'
}

/// Whether a path can be written: it is not empty, does not begin with a
/// space, and fits in a line.
pub open spec fn path_encodable(path: Seq<char>) -> bool {
    path.len() > 0 && path[0] != ' ' && fits_in_line(path)
}

/// Whether a reference can be written: its identifier or author fits in a
/// line.
pub open spec fn reference_encodable(r: AttributionRefView) -> bool {
    match r {
        AttributionRefView::Prompt(id) => fits_in_line(id),
        AttributionRefView::Human(author) => fits_in_line(author),
    }
}

/// Whether the references of all entries can be written.
pub open spec fn entries_encodable(entries: Seq<EntryView>) -> bool {
    forall|j: int| 0 <= j < entries.len() ==> reference_encodable((#[trigger] entries[j]).reference)
}

/// Whether attestations can be written: they are well formed, and every path
/// and every reference can be written.
pub open spec fn encodable(files: Seq<FileAttestationView>) -> bool {
    &&& files_well_formed(files)
    &&& forall|i: int|
        0 <= i < files.len() ==> path_encodable((#[trigger] files[i]).file_path)
            && entries_encodable(files[i].entries)
}

// ---------------------------------------------------------------------------
// Numbers
// ---------------------------------------------------------------------------
proof fn lemma_digit_char(d: nat)
    requires
        d < 10,
    ensures
        is_digit(digit_char(d)),
        digit_of(digit_char(d)) == d,
{
}

proof fn lemma_decimal(n: nat)
    ensures
        decimal(n).len() > 0,
        all_digits(decimal(n)),
        digits_value(decimal(n)) == n,
    decreases n,
{
    if n < 10 {
        lemma_digit_char(n);
        let s = decimal(n);
        assert(s.drop_last() =~= Seq::<char>::empty());
        assert(digits_value(s.drop_last()) == 0);
    } else {
        lemma_decimal(n / 10);
        lemma_digit_char(n % 10);
        let head = decimal(n / 10);
        let s = decimal(n);
        assert(s.drop_last() =~= head);
        assert(s.last() == digit_char(n % 10));
        assert forall|i: int| 0 <= i < s.len() implies is_digit(#[trigger] s[i]) by {
            if i < head.len() {
                assert(s[i] == head[i]);
            }
        }
    }
}

/// A number that is written in decimal is read back as it was.
pub proof fn lemma_decimal_round_trip(n: u32)
    ensures
        parse_u32(decimal(n as nat)) == Some(n),
{
    lemma_decimal(n as nat);
    let s = decimal(n as nat);
    assert(is_digit(s[0]));
    assert(strip_plus(s) == s);
}

// ---------------------------------------------------------------------------
// Scanning
// ---------------------------------------------------------------------------
proof fn lemma_index_of_from_at(s: Seq<char>, c: char, i: int, k: int)
    requires
        0 <= i <= k <= s.len(),
        forall|j: int| i <= j < k ==> s[j] != c,
        k < s.len() ==> s[k] == c,
    ensures
        index_of_from(s, c, i) == k,
    decreases k - i,
{
    if i < k {
        lemma_index_of_from_at(s, c, i + 1, k);
    }
}

proof fn lemma_index_of_from_shift(p: Seq<char>, r: Seq<char>, c: char, i: int)
    requires
        0 <= i <= r.len(),
    ensures
        index_of_from(p + r, c, p.len() + i) == p.len() + index_of_from(r, c, i),
    decreases r.len() - i,
{
    if i < r.len() {
        assert((p + r)[p.len() + i] == r[i]);
        if r[i] != c {
            lemma_index_of_from_shift(p, r, c, i + 1);
        }
    }
}

proof fn lemma_lines_from_shift(p: Seq<char>, r: Seq<char>, i: int)
    requires
        0 <= i <= r.len(),
    ensures
        lines_from(p + r, p.len() + i) == lines_from(r, i),
    decreases r.len() - i,
{
    let s = p + r;
    if i < r.len() {
        lemma_index_of_from_shift(p, r, '\n', i);
        lemma_index_of_from_bounds(r, '\n', i);
        let e = index_of_from(r, '\n', i);
        assert(index_of_from(s, '\n', p.len() + i) == p.len() + e);
        if e >= r.len() {
            assert(s.subrange(p.len() + i, s.len() as int) =~= r.subrange(i, r.len() as int));
        } else {
            assert(s.subrange(p.len() + i, p.len() + e) =~= r.subrange(i, e));
            lemma_lines_from_shift(p, r, e + 1);
        }
    }
}

// ---------------------------------------------------------------------------
// Lines
// ---------------------------------------------------------------------------
/// The lines, each ended by a line feed.
pub open spec fn terminated(ls: Seq<Seq<char>>) -> Seq<char>
    decreases ls.len(),
{
    if ls.len() == 0 {
        Seq::empty()
    } else {
        terminated(ls.drop_last()) + ls.last() + "\n"@
    }
}

/// Whether a line can be read back: it is not empty and fits in a line.
pub open spec fn line_readable(l: Seq<char>) -> bool {
    l.len() > 0 && fits_in_line(l)
}

proof fn lemma_terminated_concat(a: Seq<Seq<char>>, b: Seq<Seq<char>>)
    ensures
        terminated(a + b) == terminated(a) + terminated(b),
    decreases b.len(),
{
    if b.len() == 0 {
        assert(a + b =~= a);
        assert(terminated(a) + terminated(b) =~= terminated(a));
    } else {
        assert((a + b).drop_last() =~= a + b.drop_last());
        assert((a + b).last() == b.last());
        lemma_terminated_concat(a, b.drop_last());
        assert(terminated(a + b) =~= terminated(a) + terminated(b));
    }
}

proof fn lemma_terminated_first(ls: Seq<Seq<char>>)
    requires
        ls.len() > 0,
    ensures
        terminated(ls) == ls[0] + "\n"@ + terminated(ls.skip(1)),
{
    let first = seq![ls[0]];
    assert(first + ls.skip(1) =~= ls);
    lemma_terminated_concat(first, ls.skip(1));
    assert(first.drop_last() =~= Seq::<Seq<char>>::empty());
    assert(terminated(first.drop_last()) =~= Seq::<char>::empty());
    assert(terminated(first) =~= ls[0] + "\n"@);
}

proof fn lemma_line_then_rest(l: Seq<char>, r: Seq<char>)
    requires
        fits_in_line(l),
    ensures
        lines(l + "\n"@ + r) == seq![l] + lines(r),
{
    reveal_strlit("\n");
    let p = l + "\n"@;
    let s = p + r;
    assert(s =~= l + "\n"@ + r);
    assert(s[l.len() as int] == '\n');
    assert forall|j: int| 0 <= j < l.len() implies s[j] != '\n' by {
        assert(s[j] == l[j]);
    }
    lemma_index_of_from_at(s, '\n', 0, l.len() as int);
    assert(s.subrange(0, l.len() as int) =~= l);
    assert(strip_cr(l) == l);
    lemma_lines_from_shift(p, r, 0);
}

proof fn lemma_single_line(l: Seq<char>)
    requires
        line_readable(l),
    ensures
        lines(l) == seq![l],
{
    lemma_index_of_from_at(l, '\n', 0, l.len() as int);
    assert(l.subrange(0, l.len() as int) =~= l);
    assert(lines_from(l, 0) =~= seq![l]);
}

proof fn lemma_terminated_ends(ls: Seq<Seq<char>>)
    requires
        ls.len() > 0,
    ensures
        terminated(ls).len() > 0,
        terminated(ls).drop_last() == terminated(ls.drop_last()) + ls.last(),
{
    reveal_strlit("\n");
    assert(terminated(ls).drop_last() =~= terminated(ls.drop_last()) + ls.last());
}

/// Lines that are written, each but the last ended by a line feed, are read
/// back as they were.
proof fn lemma_lines_of_terminated(ls: Seq<Seq<char>>)
    requires
        ls.len() > 0,
        forall|k: int| 0 <= k < ls.len() ==> line_readable(#[trigger] ls[k]),
    ensures
        lines(terminated(ls).drop_last()) == ls,
    decreases ls.len(),
{
    reveal_strlit("\n");
    lemma_terminated_first(ls);
    let rest = ls.skip(1);
    if rest.len() == 0 {
        assert(terminated(rest) =~= Seq::<char>::empty());
        assert(terminated(ls).drop_last() =~= ls[0]);
        lemma_single_line(ls[0]);
        assert(seq![ls[0]] =~= ls);
    } else {
        lemma_terminated_ends(rest);
        assert(terminated(ls).drop_last() =~= ls[0] + "\n"@ + terminated(rest).drop_last());
        lemma_line_then_rest(ls[0], terminated(rest).drop_last());
        assert forall|k: int| 0 <= k < rest.len() implies line_readable(#[trigger] rest[k]) by {
            assert(rest[k] == ls[k + 1]);
        }
        lemma_lines_of_terminated(rest);
        assert(seq![ls[0]] + rest =~= ls);
    }
}

// ---------------------------------------------------------------------------
// The lines of attestations
// ---------------------------------------------------------------------------
/// The line of an entry, without the line feed that ends it.
pub open spec fn entry_line(e: EntryView) -> Seq<char> {
    "  "@ + decimal(e.start_line as nat) + "-"@ + decimal(e.end_line as nat) + " "@
        + reference_text(e.reference)
}

/// The lines of the entries.
pub open spec fn entry_lines(entries: Seq<EntryView>) -> Seq<Seq<char>> {
    Seq::new(entries.len(), |k: int| entry_line(entries[k]))
}

/// The lines of an attestation: its path, then its entries.
pub open spec fn file_lines(f: FileAttestationView) -> Seq<Seq<char>> {
    seq![f.file_path] + entry_lines(f.entries)
}

/// The lines of the attestations.
pub open spec fn all_lines(files: Seq<FileAttestationView>) -> Seq<Seq<char>>
    decreases files.len(),
{
    if files.len() == 0 {
        Seq::empty()
    } else {
        all_lines(files.drop_last()) + file_lines(files.last())
    }
}

proof fn lemma_entries_text(entries: Seq<EntryView>)
    ensures
        entries_text(entries) == terminated(entry_lines(entries)),
    decreases entries.len(),
{
    if entries.len() > 0 {
        lemma_entries_text(entries.drop_last());
        assert(entry_lines(entries).drop_last() =~= entry_lines(entries.drop_last()));
        assert(entry_lines(entries).last() == entry_line(entries.last()));
        assert(entry_text(entries.last()) =~= entry_line(entries.last()) + "\n"@);
        assert(entries_text(entries) =~= terminated(entry_lines(entries)));
    } else {
        assert(entry_lines(entries) =~= Seq::<Seq<char>>::empty());
    }
}

proof fn lemma_files_text(files: Seq<FileAttestationView>)
    ensures
        files_text(files) == terminated(all_lines(files)),
    decreases files.len(),
{
    if files.len() > 0 {
        let f = files.last();
        lemma_files_text(files.drop_last());
        lemma_entries_text(f.entries);
        lemma_terminated_concat(all_lines(files.drop_last()), file_lines(f));
        let first = seq![f.file_path];
        lemma_terminated_concat(first, entry_lines(f.entries));
        assert(first.drop_last() =~= Seq::<Seq<char>>::empty());
        assert(terminated(first.drop_last()) =~= Seq::<char>::empty());
        assert(terminated(first) =~= f.file_path + "\n"@);
        assert(files_text(files) =~= terminated(all_lines(files)));
    }
}

proof fn lemma_all_lines_first(files: Seq<FileAttestationView>)
    requires
        files.len() > 0,
    ensures
        all_lines(files) == file_lines(files[0]) + all_lines(files.skip(1)),
    decreases files.len(),
{
    if files.len() == 1 {
        assert(files.drop_last() =~= Seq::<FileAttestationView>::empty());
        assert(files.skip(1) =~= Seq::<FileAttestationView>::empty());
        assert(all_lines(files) =~= file_lines(files[0]) + all_lines(files.skip(1)));
    } else {
        lemma_all_lines_first(files.drop_last());
        assert(files.drop_last()[0] == files[0]);
        assert(files.drop_last().skip(1) =~= files.skip(1).drop_last());
        assert(files.skip(1).last() == files.last());
        assert(all_lines(files) =~= file_lines(files[0]) + all_lines(files.skip(1)));
    }
}

// ---------------------------------------------------------------------------
// One entry
// ---------------------------------------------------------------------------
proof fn lemma_reference_round_trip(r: AttributionRefView)
    ensures
        parse_reference(reference_text(r)) == Some(r),
{
    reveal_strlit("ai ");
    reveal_strlit("human ");
    let text = reference_text(r);
    match r {
        AttributionRefView::Prompt(id) => {
            assert(text.subrange(0, 3) =~= "ai "@);
            assert(text.skip(3) =~= id);
        },
        AttributionRefView::Human(author) => {
            assert(text[0] == 'h');
            if starts_with(text, "ai "@) {
                assert(text.subrange(0, 3)[0] == 'a');
            }
            assert(text.subrange(0, 6) =~= "human "@);
            assert(text.skip(6) =~= author);
        },
    }
}

/// The line of an entry is read back as the entry, begins with a space, and
/// can itself be read back as a line.
proof fn lemma_entry_round_trip(e: EntryView)
    requires
        1 <= e.start_line <= e.end_line,
        reference_encodable(e.reference),
    ensures
        parse_entry_line(entry_line(e)) == Some(e),
        line_readable(entry_line(e)),
        entry_line(e)[0] == ' ',
{
    reveal_strlit("  ");
    reveal_strlit("-");
    reveal_strlit(" ");
    reveal_strlit("ai ");
    reveal_strlit("human ");
    let a = decimal(e.start_line as nat);
    let b = decimal(e.end_line as nat);
    let who = reference_text(e.reference);
    let line = entry_line(e);
    lemma_decimal(e.start_line as nat);
    lemma_decimal(e.end_line as nat);
    lemma_decimal_round_trip(e.start_line);
    lemma_decimal_round_trip(e.end_line);
    lemma_reference_round_trip(e.reference);
    let dash = 2 + a.len() as int;
    let space = dash + 1 + b.len() as int;
    assert(line.len() == space + 1 + who.len());
    assert(line.subrange(0, 2) =~= "  "@);
    assert(line[dash] == '-');
    assert forall|j: int| 2 <= j < dash implies line[j] != '-' by {
        assert(line[j] == a[j - 2]);
        assert(is_digit(a[j - 2]));
    }
    lemma_index_of_from_at(line, '-', 2, dash);
    assert(line[space] == ' ');
    assert forall|j: int| dash + 1 <= j < space implies line[j] != ' ' by {
        assert(line[j] == b[j - dash - 1]);
        assert(is_digit(b[j - dash - 1]));
    }
    lemma_index_of_from_at(line, ' ', dash + 1, space);
    assert(line.subrange(2, dash) =~= a);
    assert(line.subrange(dash + 1, space) =~= b);
    assert(line.skip(space + 1) =~= who);
    assert forall|j: int| 0 <= j < line.len() implies line[j] != '\n' by {
        if j < 2 {
        } else if j < dash {
            assert(line[j] == a[j - 2]);
            assert(is_digit(a[j - 2]));
        } else if j == dash {
        } else if j < space {
            assert(line[j] == b[j - dash - 1]);
            assert(is_digit(b[j - dash - 1]));
        } else if j == space {
        } else {
            assert(line[j] == who[j - space - 1]);
            match e.reference {
                AttributionRefView::Prompt(id) => {
                    if j - space - 1 >= 3 {
                        assert(who[j - space - 1] == id[j - space - 1 - 3]);
                    }
                },
                AttributionRefView::Human(author) => {
                    if j - space - 1 >= 6 {
                        assert(who[j - space - 1] == author[j - space - 1 - 6]);
                    }
                },
            }
        }
    }
    assert(line.last() != '\r') by {
        assert(line.last() == who.last());
        match e.reference {
            AttributionRefView::Prompt(id) => {
                if id.len() > 0 {
                    assert(who.last() == id.last());
                }
            },
            AttributionRefView::Human(author) => {
                if author.len() > 0 {
                    assert(who.last() == author.last());
                }
            },
        }
    }
}

// ---------------------------------------------------------------------------
// Reading the lines
// ---------------------------------------------------------------------------
/// `files` with `entries` added to the entries of the last file.
pub open spec fn with_entries(files: Seq<FileAttestationView>, entries: Seq<EntryView>) -> Seq<
    FileAttestationView,
> {
    files.drop_last().push(
        FileAttestationView {
            file_path: files.last().file_path,
            entries: files.last().entries + entries,
        },
    )
}

proof fn lemma_read_entries(
    ls: Seq<Seq<char>>,
    i: int,
    files: Seq<FileAttestationView>,
    entries: Seq<EntryView>,
)
    requires
        0 <= i,
        i + entries.len() <= ls.len(),
        files.len() > 0,
        forall|k: int| 0 <= k < entries.len() ==> #[trigger] ls[i + k] == entry_line(entries[k]),
        entries_well_formed(files.last().entries + entries),
        entries_encodable(entries),
    ensures
        parse_attestation_lines(ls, i, files) == parse_attestation_lines(
            ls,
            i + entries.len(),
            with_entries(files, entries),
        ),
    decreases entries.len(),
{
    let known = files.last().entries;
    let all = known + entries;
    if entries.len() == 0 {
        assert(known + entries =~= known);
        assert(with_entries(files, entries) =~= files);
    } else {
        let e = entries[0];
        assert(ls[i + 0] == entry_line(e));
        assert(all[known.len() as int] == e);
        assert(1 <= all[known.len() as int].start_line <= all[known.len() as int].end_line);
        assert(reference_encodable(entries[0].reference));
        lemma_entry_round_trip(e);
        assert(entry_follows(known, e)) by {
            if known.len() > 0 {
                assert(all[known.len() - 1] == known.last());
                assert(all[known.len() - 1].end_line < all[known.len() as int].start_line);
            }
        }
        let next = with_entry(files, e);
        let rest = entries.skip(1);
        assert(next.last().entries + rest =~= all);
        assert forall|k: int| 0 <= k < rest.len() implies #[trigger] ls[i + 1 + k] == entry_line(
            rest[k],
        ) by {
            assert(ls[i + (k + 1)] == entry_line(entries[k + 1]));
        }
        assert(entries_encodable(rest)) by {
            assert forall|j: int| 0 <= j < rest.len() implies reference_encodable(
                (#[trigger] rest[j]).reference,
            ) by {
                assert(rest[j] == entries[j + 1]);
            }
        }
        lemma_read_entries(ls, i + 1, next, rest);
        assert(with_entries(next, rest) =~= with_entries(files, entries)) by {
            assert(next.drop_last() =~= files.drop_last());
        }
    }
}

proof fn lemma_read_files(
    ls: Seq<Seq<char>>,
    i: int,
    before: Seq<FileAttestationView>,
    files: Seq<FileAttestationView>,
)
    requires
        0 <= i <= ls.len(),
        ls.skip(i) == all_lines(files),
        encodable(before + files),
    ensures
        parse_attestation_lines(ls, i, before) == Some(before + files),
    decreases files.len(),
{
    let whole = before + files;
    if files.len() == 0 {
        assert(ls.skip(i).len() == 0);
        assert(before + files =~= before);
    } else {
        let f = files[0];
        let rest = files.skip(1);
        lemma_all_lines_first(files);
        let tail = ls.skip(i);
        assert(whole[before.len() as int] == f);
        assert(path_encodable(whole[before.len() as int].file_path));
        assert(entries_encodable(whole[before.len() as int].entries));
        assert(entries_well_formed(whole[before.len() as int].entries));
        assert(file_lines(f).len() == 1 + f.entries.len());
        assert(tail.len() == file_lines(f).len() + all_lines(rest).len());
        assert(tail[0] == file_lines(f)[0]);
        assert(tail[0] == f.file_path);
        assert(ls[i] == tail[0]);
        assert(!path_attested(before, f.file_path)) by {
            if path_attested(before, f.file_path) {
                let k = choose|k: int|
                    0 <= k < before.len() && (#[trigger] before[k]).file_path == f.file_path;
                assert(whole[k] == before[k]);
                assert(whole[k].file_path != whole[before.len() as int].file_path);
            }
        }
        let begun = before.push(
            FileAttestationView { file_path: f.file_path, entries: Seq::empty() },
        );
        assert(parse_attestation_lines(ls, i, before) == parse_attestation_lines(
            ls,
            i + 1,
            begun,
        ));
        assert forall|k: int| 0 <= k < f.entries.len() implies #[trigger] ls[i + 1 + k]
            == entry_line(f.entries[k]) by {
            assert(tail[1 + k] == file_lines(f)[1 + k]);
            assert(ls[i + 1 + k] == tail[1 + k]);
        }
        assert(begun.last().entries + f.entries =~= f.entries);
        assert(tail.len() == file_lines(f).len() + all_lines(rest).len());
        lemma_read_entries(ls, i + 1, begun, f.entries);
        let done = with_entries(begun, f.entries);
        assert(done =~= before.push(f)) by {
            assert(begun.drop_last() =~= before);
        }
        let at = i + 1 + f.entries.len();
        assert(ls.skip(at) =~= all_lines(rest)) by {
            assert forall|k: int| 0 <= k < all_lines(rest).len() implies ls.skip(at)[k]
                == all_lines(rest)[k] by {
                assert(tail[file_lines(f).len() + k] == all_lines(rest)[k]);
            }
        }
        assert(before.push(f) + rest =~= whole);
        lemma_read_files(ls, at, before.push(f), rest);
    }
}

proof fn lemma_all_lines_readable(files: Seq<FileAttestationView>)
    requires
        encodable(files),
    ensures
        forall|k: int| 0 <= k < all_lines(files).len() ==> line_readable(#[trigger] all_lines(files)[k]),
        files.len() > 0 ==> all_lines(files).len() > 0,
    decreases files.len(),
{
    if files.len() > 0 {
        let head = files.drop_last();
        let f = files.last();
        assert(encodable(head)) by {
            assert forall|i: int| 0 <= i < head.len() implies path_encodable(
                (#[trigger] head[i]).file_path,
            ) && entries_encodable(head[i].entries) && entries_well_formed(head[i].entries) by {
                assert(head[i] == files[i]);
            }
            assert forall|a: int, b: int| 0 <= a < b < head.len() implies (
            #[trigger] head[a]).file_path != (#[trigger] head[b]).file_path by {
                assert(head[a] == files[a]);
                assert(head[b] == files[b]);
            }
        }
        lemma_all_lines_readable(head);
        assert(files[files.len() - 1] == f);
        assert forall|k: int| 0 <= k < all_lines(files).len() implies line_readable(
            #[trigger] all_lines(files)[k],
        ) by {
            let split = all_lines(head).len() as int;
            if k < split {
                assert(all_lines(files)[k] == all_lines(head)[k]);
            } else if k == split {
                assert(all_lines(files)[k] == f.file_path);
            } else {
                let j = k - split - 1;
                assert(all_lines(files)[k] == entry_line(f.entries[j]));
                assert(reference_encodable(f.entries[j].reference));
                assert(1 <= f.entries[j].start_line <= f.entries[j].end_line);
                lemma_entry_round_trip(f.entries[j]);
            }
        }
    }
}

// ---------------------------------------------------------------------------
// The laws
// ---------------------------------------------------------------------------
/// Attestations that can be written are read back, from what is written of
/// them, as they were.
pub proof fn lemma_attestations_round_trip(files: Seq<FileAttestationView>)
    requires
        encodable(files),
    ensures
        parse_attestations_spec(serialize_attestations_spec(files)) == Some(files),
{
    let text = serialize_attestations_spec(files);
    lemma_files_text(files);
    lemma_all_lines_readable(files);
    let ls = all_lines(files);
    if files.len() == 0 {
        assert(text.len() == 0);
        assert(lines(text) =~= Seq::<Seq<char>>::empty());
    } else {
        lemma_terminated_ends(ls);
        lemma_lines_of_terminated(ls);
        assert(lines(text) == ls);
        assert(ls.skip(0) =~= ls);
        let none = Seq::<FileAttestationView>::empty();
        assert(none + files =~= files);
        lemma_read_files(ls, 0, none, files);
    }
}

/// Two sections that are joined are parted again as they were, where the
/// divider does not occur before the place at which they were joined.
pub proof fn lemma_sections_round_trip(attestations: Seq<char>, metadata: Seq<char>)
    requires
        forall|j: int|
            0 <= j < attestations.len() ==> !occurs_at(
                join_sections_spec(attestations, metadata),
                divider(),
                j,
            ),
    ensures
        split_sections_spec(join_sections_spec(attestations, metadata)) == Some(
            (attestations, metadata),
        ),
{
    let joined = join_sections_spec(attestations, metadata);
    let at = attestations.len() as int;
    assert(joined.subrange(at, at + divider().len()) =~= divider());
    assert(occurs_at(joined, divider(), at));
    lemma_find_from(joined, divider(), 0);
    assert(find(joined, divider()) == Some(at));
    assert(joined.take(at) =~= attestations);
    assert(joined.skip(at + divider().len()) =~= metadata);
}

/// Whether no path can be taken for the divider: none is `---`.
pub open spec fn paths_differ_from_divider(files: Seq<FileAttestationView>) -> bool {
    forall|i: int| 0 <= i < files.len() ==> (#[trigger] files[i]).file_path != "---"@
}

proof fn lemma_no_divider_in_lines(ls: Seq<Seq<char>>, tail: Seq<char>)
    requires
        ls.len() > 0,
        forall|k: int| 0 <= k < ls.len() ==> fits_in_line(#[trigger] ls[k]),
        forall|k: int| 1 <= k < ls.len() ==> #[trigger] ls[k] != "---"@,
    ensures
        forall|j: int|
            0 <= j < terminated(ls).len() - 1 ==> !occurs_at(
                terminated(ls) + "---\n"@ + tail,
                divider(),
                j,
            ),
    decreases ls.len(),
{
    reveal_strlit("\n---\n");
    reveal_strlit("---\n");
    reveal_strlit("\n");
    reveal_strlit("---");
    let d = divider();
    let first = ls[0];
    let rest = ls.skip(1);
    let n = first.len() as int;
    lemma_terminated_first(ls);
    let t = terminated(ls);
    let s = t + "---\n"@ + tail;
    let later = terminated(rest) + "---\n"@ + tail;
    assert(s =~= first + "\n"@ + later);
    if rest.len() > 0 {
        assert forall|k: int| 0 <= k < rest.len() implies fits_in_line(#[trigger] rest[k]) by {
            assert(rest[k] == ls[k + 1]);
        }
        assert forall|k: int| 1 <= k < rest.len() implies #[trigger] rest[k] != "---"@ by {
            assert(rest[k] == ls[k + 1]);
        }
        lemma_no_divider_in_lines(rest, tail);
        lemma_terminated_first(rest);
    } else {
        assert(terminated(rest) =~= Seq::<char>::empty());
    }
    assert forall|j: int| 0 <= j < t.len() - 1 implies !occurs_at(s, d, j) by {
        if occurs_at(s, d, j) {
            let w = s.subrange(j, j + 5);
            assert(w == d);
            assert(w[0] == s[j] && w[1] == s[j + 1] && w[2] == s[j + 2] && w[3] == s[j + 3]
                && w[4] == s[j + 4]);
            if j < n {
                assert(s[j] == first[j]);
            } else if j == n {
                let second = rest[0];
                let m = second.len() as int;
                assert(second == ls[1]);
                assert(later =~= second + "\n"@ + (terminated(rest.skip(1)) + "---\n"@ + tail));
                assert(s[j + 1] == later[0] && s[j + 2] == later[1] && s[j + 3] == later[2]
                    && s[j + 4] == later[3]);
                if m >= 4 {
                    assert(later[3] == second[3]);
                } else if m == 3 {
                    assert(later[0] == second[0] && later[1] == second[1] && later[2]
                        == second[2]);
                    assert(second =~= "---"@);
                } else {
                    assert(later[m] == '\n');
                }
            } else {
                let at = j - n - 1;
                assert(later.subrange(at, at + 5) =~= w);
                assert(occurs_at(later, d, at));
            }
        }
    }
}

proof fn lemma_lines_differ_from_divider(files: Seq<FileAttestationView>)
    requires
        paths_differ_from_divider(files),
    ensures
        forall|k: int| 0 <= k < all_lines(files).len() ==> #[trigger] all_lines(files)[k] != "---"@,
    decreases files.len(),
{
    reveal_strlit("---");
    reveal_strlit("  ");
    if files.len() > 0 {
        let head = files.drop_last();
        let f = files.last();
        assert forall|i: int| 0 <= i < head.len() implies (#[trigger] head[i]).file_path
            != "---"@ by {
            assert(head[i] == files[i]);
        }
        lemma_lines_differ_from_divider(head);
        assert(files[files.len() - 1] == f);
        assert forall|k: int| 0 <= k < all_lines(files).len() implies #[trigger] all_lines(
            files,
        )[k] != "---"@ by {
            let split = all_lines(head).len() as int;
            if k < split {
                assert(all_lines(files)[k] == all_lines(head)[k]);
            } else if k == split {
                assert(all_lines(files)[k] == f.file_path);
            } else {
                let j = k - split - 1;
                assert(all_lines(files)[k] == entry_line(f.entries[j]));
                assert(entry_line(f.entries[j])[0] == ' ');
            }
        }
    }
}

/// The divider does not occur in what is written of the attestations and
/// the divider before the place of the divider itself, where no path is
/// `---`.
pub proof fn lemma_divider_is_found(files: Seq<FileAttestationView>, trailer: Seq<char>)
    requires
        encodable(files),
        paths_differ_from_divider(files),
    ensures
        split_sections_spec(join_sections_spec(serialize_attestations_spec(files), trailer))
            == Some((serialize_attestations_spec(files), trailer)),
{
    reveal_strlit("\n---\n");
    reveal_strlit("---\n");
    reveal_strlit("\n");
    let section = serialize_attestations_spec(files);
    let joined = join_sections_spec(section, trailer);
    if files.len() > 0 {
        let ls = all_lines(files);
        lemma_files_text(files);
        lemma_all_lines_readable(files);
        lemma_lines_differ_from_divider(files);
        lemma_terminated_ends(ls);
        lemma_no_divider_in_lines(ls, trailer);
        assert(terminated(ls) =~= section + "\n"@);
        assert(joined =~= terminated(ls) + "---\n"@ + trailer);
    } else {
        assert(section.len() == 0);
    }
    lemma_sections_round_trip(section, trailer);
}

/// A log that is written as a note is read back from the note as it was:
/// where its attestations can be written and no path is `---`, no identifier
/// names two of its prompts, it has the schema version of this library, and
/// `serde_json` reads the trailer that it wrote back as the value that was
/// written. Since `serde_json` hands the members of an object out sorted by
/// their names, that can only be so where the prompts stand sorted by their
/// identifiers.
pub proof fn lemma_note_round_trip(log: AuthorshipLogView)
    requires
        encodable(log.attestations),
        paths_differ_from_divider(log.attestations),
        prompts_well_formed(log.metadata.prompts),
        log.metadata.schema_version == schema_version(),
        json_of_text(text_of_json(metadata_json(log.metadata))) == Some(
            metadata_json(log.metadata),
        ),
    ensures
        deserialize_from_string_spec(serialize_to_string_spec(log)) == Ok::<
            AuthorshipLogView,
            GitAiErrorView,
        >(log),
{
    lemma_divider_is_found(log.attestations, text_of_json(metadata_json(log.metadata)));
    lemma_metadata_round_trip(log.metadata);
    lemma_attestations_round_trip(log.attestations);
}

} // verus!
