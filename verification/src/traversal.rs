//! The inventory of AI-touched files: the walk over the tree of notes, the
//! division of the notes among workers, and the reading of file paths from
//! each note.

use crate::error::{GitAiError, GitAiErrorView};
use crate::sequences::{
    add_all_once, lemma_deep_view_empty, lemma_deep_view_push, lemma_take_all, lemma_take_next,
    with_once,
};
use crate::serialization::{note_file_paths, note_file_paths_spec};
use crate::text::{contains_text, decode_text, utf8_error_text, utf8_failure};
use vstd::prelude::*;
use vstd::string::*;
use vstd::utf8::*;

verus! {

// ---------------------------------------------------------------------------
// Objects of the version-control system
// ---------------------------------------------------------------------------
/// What `gix_object::TreeRef::from_bytes` with SHA-1 identifiers gives for
/// the bytes of an object: for each entry of the tree the kind of its mode
/// (the number that `gix_object::tree::EntryKind` assigns), its file name and
/// its identifier; or, where the bytes are no tree, the text that shows its
/// error.
pub uninterp spec fn git_tree_entries(data: Seq<u8>) -> Result<
    Seq<(u16, Seq<u8>, Seq<u8>)>,
    Seq<char>,
>;

/// What `gix_object::CommitRef::from_bytes` with SHA-1 identifiers gives for
/// the bytes of an object: the identifier of the tree that the commit names;
/// or, where the bytes are no commit, the text that shows its error.
pub uninterp spec fn git_commit_tree(data: Seq<u8>) -> Result<Seq<u8>, Seq<char>>;

/// The number that `gix_object::tree::EntryKind` assigns to a directory.
pub const ENTRY_KIND_TREE: u16 = 0o040000;

/// The number that `gix_object::tree::EntryKind` assigns to a file that is
/// not executable.
pub const ENTRY_KIND_BLOB: u16 = 0o100644;

/// The entries as plain values.
pub open spec fn raw_entries(entries: Seq<(u16, Vec<u8>, Vec<u8>)>) -> Seq<
    (u16, Seq<u8>, Seq<u8>),
> {
    entries.map_values(|e: (u16, Vec<u8>, Vec<u8>)| (e.0, e.1@, e.2@))
}

/// Calls `gix_object::TreeRef::from_bytes` for SHA-1 and hands out, for each
/// entry, the number of `mode.kind()`, the bytes of `filename` and the bytes
/// of `oid`, or the error written out as text. The contract only names the
/// result.
#[verifier::external_body]
fn read_tree(data: &[u8]) -> (r: Result<Vec<(u16, Vec<u8>, Vec<u8>)>, String>)
    ensures
        match r {
            Ok(entries) => git_tree_entries(data@) matches Ok(es) && es == raw_entries(entries@),
            Err(shown) => git_tree_entries(data@) matches Err(text) && text == shown@,
        },
{
    match gix_object::TreeRef::from_bytes(data, gix_hash::Kind::Sha1) {
        Ok(tree) => Ok(
            tree.entries.iter().map(
                |e| (e.mode.kind() as u16, e.filename.to_vec(), e.oid.as_bytes().to_vec()),
            ).collect(),
        ),
        Err(e) => Err(format!("{}", e)),
    }
}

/// Calls `gix_object::CommitRef::from_bytes` for SHA-1 and hands out the
/// bytes of the identifier that `tree()` gives, or the error written out as
/// text. The contract only names the result.
#[verifier::external_body]
fn read_commit_tree(data: &[u8]) -> (r: Result<Vec<u8>, String>)
    ensures
        match r {
            Ok(tree) => git_commit_tree(data@) matches Ok(t) && t == tree@,
            Err(shown) => git_commit_tree(data@) matches Err(text) && text == shown@,
        },
{
    match gix_object::CommitRef::from_bytes(data, gix_hash::Kind::Sha1) {
        Ok(commit) => Ok(commit.tree().as_bytes().to_vec()),
        Err(e) => Err(format!("{}", e)),
    }
}

/// What was read from the object store for an identifier.
pub enum ObjectRead {
    /// The store failed; its message.
    Failed(String),
    /// The store holds no such object.
    Missing,
    /// The bytes of the object.
    Data(Vec<u8>),
}

/// The mathematical value of an [`ObjectRead`].
pub enum ObjectReadView {
    Failed(Seq<char>),
    Missing,
    Data(Seq<u8>),
}

impl View for ObjectRead {
    type V = ObjectReadView;

    open spec fn view(&self) -> ObjectReadView {
        match self {
            ObjectRead::Failed(m) => ObjectReadView::Failed(m@),
            ObjectRead::Missing => ObjectReadView::Missing,
            ObjectRead::Data(d) => ObjectReadView::Data(d@),
        }
    }
}

/// The tree that the commit of the notes names: an error where the commit
/// could not be read, is missing or is no commit.
pub open spec fn notes_tree_spec(commit: ObjectReadView) -> Result<Seq<u8>, GitAiErrorView> {
    match commit {
        ObjectReadView::Failed(m) => Err(
            GitAiErrorView::Generic("Failed to find notes object: "@ + m),
        ),
        ObjectReadView::Missing => Err(GitAiErrorView::Generic("Notes commit object not found"@)),
        ObjectReadView::Data(d) => notes_tree_of_data(git_commit_tree(d)),
    }
}

/// The plain value of bytes that were read, or of the text of the error.
pub open spec fn read_bytes(bytes: Result<Vec<u8>, String>) -> Result<Seq<u8>, Seq<char>> {
    match bytes {
        Ok(v) => Ok(v@),
        Err(shown) => Err(shown@),
    }
}

/// The tree of the notes, given what the commit's bytes name as their tree:
/// where they are no commit, the error says what the parser said.
pub open spec fn notes_tree_of_data(tree: Result<Seq<u8>, Seq<char>>) -> Result<
    Seq<u8>,
    GitAiErrorView,
> {
    match tree {
        Ok(t) => Ok(t),
        Err(shown) => Err(GitAiErrorView::Generic("Failed to parse commit: "@ + shown)),
    }
}

/// Decides what the tree of the notes is once the commit was parsed.
pub fn notes_tree_of(tree: Result<Vec<u8>, String>) -> (r: Result<Vec<u8>, GitAiError>)
    ensures
        match notes_tree_of_data(read_bytes(tree)) {
            Ok(t) => r matches Ok(x) && x@ == t,
            Err(e) => r matches Err(x) && x@ == e,
        },
{
    match tree {
        Ok(t) => Ok(t),
        Err(shown) => Err(
            GitAiError::Generic("Failed to parse commit: ".to_owned().concat(shown.as_str())),
        ),
    }
}

/// Finds the tree of the notes from what was read for the commit that the
/// notes reference points to.
pub fn notes_tree(commit: ObjectRead) -> (r: Result<Vec<u8>, GitAiError>)
    ensures
        match notes_tree_spec(commit@) {
            Ok(t) => r matches Ok(x) && x@ == t,
            Err(e) => r matches Err(x) && x@ == e,
        },
{
    match commit {
        ObjectRead::Failed(m) => Err(
            GitAiError::Generic("Failed to find notes object: ".to_owned().concat(m.as_str())),
        ),
        ObjectRead::Missing => Err(GitAiError::Generic("Notes commit object not found".to_owned())),
        ObjectRead::Data(d) => {
            let tree = read_commit_tree(d.as_slice());
            notes_tree_of(tree)
        },
    }
}

// ---------------------------------------------------------------------------
// The walk over the tree of notes
// ---------------------------------------------------------------------------
/// The walk over the trees of the notes, depth first and in the order of the
/// trees: which entries still wait, and which notes were found.
pub struct NotesWalk {
    /// The label prefix of the tree that is being read.
    pub prefix: String,
    /// The entries that wait, each with the label prefix of its tree, its
    /// kind, its name and its identifier. The last one is taken next.
    pub waiting: Vec<(String, u16, Vec<u8>, Vec<u8>)>,
    /// The notes found so far, each with its label.
    pub found: Vec<(String, Vec<u8>)>,
}

/// The mathematical value of a [`NotesWalk`]. The entries that wait stand in
/// the order in which they are taken: the first one is taken next.
pub struct NotesWalkView {
    pub prefix: Seq<char>,
    pub waiting: Seq<(Seq<char>, u16, Seq<u8>, Seq<u8>)>,
    pub found: Seq<(Seq<char>, Seq<u8>)>,
}

/// The plain values of labelled identifiers.
pub open spec fn labelled(items: Seq<(String, Vec<u8>)>) -> Seq<(Seq<char>, Seq<u8>)> {
    items.map_values(|p: (String, Vec<u8>)| (p.0@, p.1@))
}

/// The plain value of an entry that waits.
pub open spec fn waiting_entry(item: (String, u16, Vec<u8>, Vec<u8>)) -> (
    Seq<char>,
    u16,
    Seq<u8>,
    Seq<u8>,
) {
    (item.0@, item.1, item.2@, item.3@)
}

/// The entries that wait, in the order in which they are taken: the last of
/// `items` first.
pub open spec fn waiting_entries(items: Seq<(String, u16, Vec<u8>, Vec<u8>)>) -> Seq<
    (Seq<char>, u16, Seq<u8>, Seq<u8>),
> {
    Seq::new(items.len(), |i: int| waiting_entry(items[items.len() - 1 - i]))
}

impl View for NotesWalk {
    type V = NotesWalkView;

    open spec fn view(&self) -> NotesWalkView {
        NotesWalkView {
            prefix: self.prefix@,
            waiting: waiting_entries(self.waiting@),
            found: labelled(self.found@),
        }
    }
}

/// What the caller of the walk does next.
#[derive(Debug, Clone, PartialEq, Eq)]
pub enum WalkAction {
    /// Read the tree with this identifier and hand it to the walk.
    ReadTree(Vec<u8>),
    /// The walk is over: `found` holds every note.
    Done,
    /// The walk failed.
    Fail(GitAiError),
}

/// The mathematical value of a [`WalkAction`].
pub enum WalkActionView {
    ReadTree(Seq<u8>),
    Done,
    Fail(GitAiErrorView),
}

impl View for WalkAction {
    type V = WalkActionView;

    open spec fn view(&self) -> WalkActionView {
        match self {
            WalkAction::ReadTree(t) => WalkActionView::ReadTree(t@),
            WalkAction::Done => WalkActionView::Done,
            WalkAction::Fail(e) => WalkActionView::Fail(e@),
        }
    }
}

/// The entries of a tree with the label prefix `prefix`, as they wait.
pub open spec fn entries_under(prefix: Seq<char>, entries: Seq<(u16, Seq<u8>, Seq<u8>)>) -> Seq<
    (Seq<char>, u16, Seq<u8>, Seq<u8>),
> {
    Seq::new(entries.len(), |i: int| (prefix, entries[i].0, entries[i].1, entries[i].2))
}

/// The walk goes on with the entries that wait, one after the other, until it
/// has to read a tree or nothing waits any more. A file that is not
/// executable is a note, found under the prefix of its tree followed by its
/// name. A directory is read next, with the prefix followed by its name as
/// its own prefix; what waited behind it goes on waiting until the directory
/// is done. Any other entry is passed over. A name that is no UTF-8 text ends
/// the walk with an error that says what the decoder said.
pub open spec fn walk_on(walk: NotesWalkView) -> (NotesWalkView, WalkActionView)
    decreases walk.waiting.len(),
{
    if walk.waiting.len() == 0 {
        (walk, WalkActionView::Done)
    } else {
        let (prefix, kind, name, id) = walk.waiting[0];
        let rest = NotesWalkView { waiting: walk.waiting.skip(1), ..walk };
        if !valid_utf8(name) {
            (
                rest,
                WalkActionView::Fail(
                    GitAiErrorView::Generic("Invalid UTF-8 in tree entry: "@ + utf8_error_text(name)),
                ),
            )
        } else {
            let label = prefix + decode_utf8(name);
            if kind == ENTRY_KIND_BLOB {
                walk_on(NotesWalkView { found: rest.found.push((label, id)), ..rest })
            } else if kind == ENTRY_KIND_TREE {
                (NotesWalkView { prefix: label, ..rest }, WalkActionView::ReadTree(id))
            } else {
                walk_on(rest)
            }
        }
    }
}

/// The walk and the action after the entries of the tree that was asked for
/// have come, given as what the tree's bytes hold: the entries of the tree
/// are taken, in their order, before anything that waited already. Where the
/// bytes are no tree, the error says what the parser said.
pub open spec fn walk_after_tree(
    walk: NotesWalkView,
    entries: Result<Seq<(u16, Seq<u8>, Seq<u8>)>, Seq<char>>,
) -> (NotesWalkView, WalkActionView) {
    match entries {
        Err(shown) => (
            walk,
            WalkActionView::Fail(GitAiErrorView::Generic("Failed to parse tree: "@ + shown)),
        ),
        Ok(es) => walk_on(
            NotesWalkView { waiting: entries_under(walk.prefix, es) + walk.waiting, ..walk },
        ),
    }
}

/// The plain value of the entries that were read, or of the text of the
/// error.
pub open spec fn read_entries(entries: Result<Vec<(u16, Vec<u8>, Vec<u8>)>, String>) -> Result<
    Seq<(u16, Seq<u8>, Seq<u8>)>,
    Seq<char>,
> {
    match entries {
        Ok(es) => Ok(raw_entries(es@)),
        Err(shown) => Err(shown@),
    }
}

/// The walk and the action after what was read for the tree that was asked
/// for: a tree that could not be read, is missing or is no tree is an
/// error.
pub open spec fn collect_blob_entries_spec(walk: NotesWalkView, tree: ObjectReadView) -> (
    NotesWalkView,
    WalkActionView,
) {
    match tree {
        ObjectReadView::Failed(m) => (
            walk,
            WalkActionView::Fail(GitAiErrorView::Generic("Failed to find tree: "@ + m)),
        ),
        ObjectReadView::Missing => (
            walk,
            WalkActionView::Fail(GitAiErrorView::Generic("Tree object not found"@)),
        ),
        ObjectReadView::Data(d) => walk_after_tree(walk, git_tree_entries(d)),
    }
}

proof fn lemma_labelled_push(items: Seq<(String, Vec<u8>)>, x: (String, Vec<u8>))
    ensures
        labelled(items.push(x)) == labelled(items).push((x.0@, x.1@)),
{
    assert(labelled(items.push(x)) =~= labelled(items).push((x.0@, x.1@)));
}

proof fn lemma_waiting_push(
    items: Seq<(String, u16, Vec<u8>, Vec<u8>)>,
    x: (String, u16, Vec<u8>, Vec<u8>),
)
    ensures
        waiting_entries(items.push(x)) == seq![waiting_entry(x)] + waiting_entries(items),
{
    assert(waiting_entries(items.push(x)) =~= seq![waiting_entry(x)] + waiting_entries(items));
}

proof fn lemma_waiting_pop(items: Seq<(String, u16, Vec<u8>, Vec<u8>)>)
    requires
        items.len() > 0,
    ensures
        waiting_entries(items)[0] == waiting_entry(items.last()),
        waiting_entries(items.drop_last()) == waiting_entries(items).skip(1),
{
    assert(waiting_entries(items.drop_last()) =~= waiting_entries(items).skip(1));
}

impl NotesWalk {
    /// Begins the walk at the tree `root`: the first action is to read it.
    pub fn start(root: Vec<u8>) -> (r: (NotesWalk, WalkAction))
        ensures
            r.0@ == (NotesWalkView {
                prefix: Seq::empty(),
                waiting: Seq::empty(),
                found: Seq::empty(),
            }),
            r.1@ == WalkActionView::ReadTree(root@),
    {
        let walk = NotesWalk { prefix: String::new(), waiting: Vec::new(), found: Vec::new() };
        assert(waiting_entries(walk.waiting@) =~= Seq::empty());
        assert(labelled(walk.found@) =~= Seq::empty());
        (walk, WalkAction::ReadTree(root))
    }

    fn take_in(&mut self, entries: &Vec<(u16, Vec<u8>, Vec<u8>)>)
        ensures
            final(self)@ == (NotesWalkView {
                waiting: entries_under(old(self)@.prefix, raw_entries(entries@)) + old(self)@.waiting,
                ..old(self)@
            }),
    {
        let ghost es = entries_under(self@.prefix, raw_entries(entries@));
        let mut i: usize = entries.len();
        assert(es.skip(es.len() as int) + self@.waiting =~= self@.waiting);
        while i > 0
            invariant
                0 <= i <= entries.len(),
                self.prefix == old(self).prefix,
                self.found == old(self).found,
                es == entries_under(old(self)@.prefix, raw_entries(entries@)),
                self@.waiting == es.skip(i as int) + old(self)@.waiting,
            decreases i,
        {
            i -= 1;
            let ghost before = self.waiting@;
            let item = (
                self.prefix.clone(),
                entries[i].0,
                entries[i].1.clone(),
                entries[i].2.clone(),
            );
            self.waiting.push(item);
            proof {
                lemma_waiting_push(before, item);
                assert(es[i as int] == waiting_entry(item));
                assert(es.skip(i as int) =~= seq![es[i as int]] + es.skip(i + 1));
                assert(self@.waiting =~= es.skip(i as int) + old(self)@.waiting);
            }
        }
        assert(es.skip(0) =~= es);
    }

    fn go_on(&mut self) -> (action: WalkAction)
        ensures
            (final(self)@, action@) == walk_on(old(self)@),
    {
        while self.waiting.len() > 0
            invariant
                walk_on(old(self)@) == walk_on(self@),
            decreases self.waiting.len(),
        {
            let ghost before = self.waiting@;
            proof {
                lemma_waiting_pop(before);
            }
            let (prefix, kind, name, id) = self.waiting.pop().unwrap();
            match decode_text(name.as_slice()) {
                None => {
                    let shown = utf8_failure(name.as_slice());
                    return WalkAction::Fail(
                        GitAiError::Generic(
                            "Invalid UTF-8 in tree entry: ".to_owned().concat(shown.as_str()),
                        ),
                    );
                },
                Some(text) => {
                    let label = prefix.concat(text.as_str());
                    if kind == ENTRY_KIND_BLOB {
                        let ghost found = self.found@;
                        let item = (label, id);
                        self.found.push(item);
                        proof {
                            lemma_labelled_push(found, item);
                        }
                    } else if kind == ENTRY_KIND_TREE {
                        self.prefix = label;
                        return WalkAction::ReadTree(id);
                    }
                },
            }
        }
        assert(self@.waiting.len() == 0);
        WalkAction::Done
    }

    /// Continues the walk with the entries of the tree that was asked for.
    pub fn continue_with(&mut self, entries: Result<Vec<(u16, Vec<u8>, Vec<u8>)>, String>) -> (action:
        WalkAction)
        ensures
            (final(self)@, action@) == walk_after_tree(old(self)@, read_entries(entries)),
    {
        match entries {
            Err(shown) => WalkAction::Fail(
                GitAiError::Generic("Failed to parse tree: ".to_owned().concat(shown.as_str())),
            ),
            Ok(es) => {
                self.take_in(&es);
                self.go_on()
            },
        }
    }

    /// Continues the walk with what was read for the tree that was asked
    /// for: its entries are taken in their order, a note is found, a
    /// directory is asked for at once, and what follows a directory waits
    /// until the directory is done.
    pub fn collect_blob_entries(&mut self, tree: ObjectRead) -> (action: WalkAction)
        ensures
            (final(self)@, action@) == collect_blob_entries_spec(old(self)@, tree@),
    {
        match tree {
            ObjectRead::Failed(m) => WalkAction::Fail(
                GitAiError::Generic("Failed to find tree: ".to_owned().concat(m.as_str())),
            ),
            ObjectRead::Missing => WalkAction::Fail(
                GitAiError::Generic("Tree object not found".to_owned()),
            ),
            ObjectRead::Data(d) => {
                let entries = read_tree(d.as_slice());
                self.continue_with(entries)
            },
        }
    }
}

/// The walk takes nothing back: whatever was found before a step is still
/// there after it, at the same place, and what the step finds comes behind.
pub proof fn lemma_walk_keeps_what_was_found(walk: NotesWalkView, tree: ObjectReadView)
    ensures
        walk.found.is_prefix_of(walk_on(walk).0.found),
        walk.found.is_prefix_of(collect_blob_entries_spec(walk, tree).0.found),
{
    lemma_walk_goes_on_keeping(walk);
    match tree {
        ObjectReadView::Data(d) => match git_tree_entries(d) {
            Ok(es) => {
                lemma_walk_goes_on_keeping(
                    NotesWalkView { waiting: entries_under(walk.prefix, es) + walk.waiting, ..walk },
                );
            },
            Err(_) => {},
        },
        _ => {},
    }
}

proof fn lemma_walk_goes_on_keeping(walk: NotesWalkView)
    ensures
        walk.found.is_prefix_of(walk_on(walk).0.found),
    decreases walk.waiting.len(),
{
    if walk.waiting.len() > 0 {
        let (prefix, kind, name, id) = walk.waiting[0];
        let rest = NotesWalkView { waiting: walk.waiting.skip(1), ..walk };
        if valid_utf8(name) {
            if kind == ENTRY_KIND_BLOB {
                let taken = NotesWalkView {
                    found: rest.found.push((prefix + decode_utf8(name), id)),
                    ..rest
                };
                lemma_walk_goes_on_keeping(taken);
            } else if kind != ENTRY_KIND_TREE {
                lemma_walk_goes_on_keeping(rest);
            }
        }
    }
}

// ---------------------------------------------------------------------------
// The whole walk over a store of objects
// ---------------------------------------------------------------------------
/// The entries of the tree `id` in a store of objects, given as the bytes of
/// each object by its identifier: nothing where the store has no such object
/// or the object is no tree.
pub open spec fn tree_in(store: Map<Seq<u8>, Seq<u8>>, id: Seq<u8>) -> Option<
    Seq<(u16, Seq<u8>, Seq<u8>)>,
> {
    if store.contains_key(id) {
        match git_tree_entries(store[id]) {
            Ok(es) => Some(es),
            Err(_) => None,
        }
    } else {
        None
    }
}

/// What reading the object `id` from the store gives.
pub open spec fn object_in(store: Map<Seq<u8>, Seq<u8>>, id: Seq<u8>) -> ObjectReadView {
    if store.contains_key(id) {
        ObjectReadView::Data(store[id])
    } else {
        ObjectReadView::Missing
    }
}

/// The walk run on a store: as long as it asks for a tree, and for at most
/// `reads` trees, the tree is read from the store and handed to it.
pub open spec fn walk_with_store(
    store: Map<Seq<u8>, Seq<u8>>,
    walk: NotesWalkView,
    action: WalkActionView,
    reads: nat,
) -> (NotesWalkView, WalkActionView)
    decreases reads,
{
    match action {
        WalkActionView::ReadTree(id) => if reads > 0 {
            let next = collect_blob_entries_spec(walk, object_in(store, id));
            walk_with_store(store, next.0, next.1, (reads - 1) as nat)
        } else {
            (walk, action)
        },
        _ => (walk, action),
    }
}

/// Whether everything below the entries `items` can be read from the store
/// within `depth` levels of directories: every name is UTF-8 text, and every
/// directory is a tree of the store of which the same holds one level
/// further down.
pub open spec fn readable(
    store: Map<Seq<u8>, Seq<u8>>,
    items: Seq<(Seq<char>, u16, Seq<u8>, Seq<u8>)>,
    depth: nat,
) -> bool
    decreases depth, items.len(),
{
    if items.len() == 0 {
        true
    } else {
        let (prefix, kind, name, id) = items[0];
        let inner = tree_in(store, id);
        valid_utf8(name) && (if kind == ENTRY_KIND_TREE {
            depth > 0 && inner is Some && readable(
                store,
                entries_under(prefix + decode_utf8(name), inner->0),
                (depth - 1) as nat,
            )
        } else {
            true
        }) && readable(store, items.skip(1), depth)
    }
}

/// The notes below the entries `items`, depth first and in the order of the
/// trees: a note stands where its entry stands, the notes below a directory
/// stand where the directory stands, before whatever follows the directory.
pub open spec fn notes_below(
    store: Map<Seq<u8>, Seq<u8>>,
    items: Seq<(Seq<char>, u16, Seq<u8>, Seq<u8>)>,
    depth: nat,
) -> Seq<(Seq<char>, Seq<u8>)>
    decreases depth, items.len(),
{
    if items.len() == 0 {
        Seq::empty()
    } else {
        let (prefix, kind, name, id) = items[0];
        let label = prefix + decode_utf8(name);
        let inner = tree_in(store, id);
        let first = if kind == ENTRY_KIND_BLOB {
            seq![(label, id)]
        } else if kind == ENTRY_KIND_TREE && depth > 0 && inner is Some {
            notes_below(store, entries_under(label, inner->0), (depth - 1) as nat)
        } else {
            Seq::empty()
        };
        first + notes_below(store, items.skip(1), depth)
    }
}

/// The number of directories below the entries `items`.
pub open spec fn trees_below(
    store: Map<Seq<u8>, Seq<u8>>,
    items: Seq<(Seq<char>, u16, Seq<u8>, Seq<u8>)>,
    depth: nat,
) -> nat
    decreases depth, items.len(),
{
    if items.len() == 0 {
        0
    } else {
        let (prefix, kind, name, id) = items[0];
        let inner = tree_in(store, id);
        let first = if kind == ENTRY_KIND_TREE && depth > 0 && inner is Some {
            1 + trees_below(
                store,
                entries_under(prefix + decode_utf8(name), inner->0),
                (depth - 1) as nat,
            )
        } else {
            0
        };
        first + trees_below(store, items.skip(1), depth)
    }
}

/// A walk whose first waiting entries are `first`, followed by `rest`, comes
/// after the reads of all directories below `first` to where a walk stands
/// that has found the notes below `first` and in which `rest` waits. The
/// result is the prefix of that walk.
proof fn lemma_walk_passes(
    store: Map<Seq<u8>, Seq<u8>>,
    walk: NotesWalkView,
    first: Seq<(Seq<char>, u16, Seq<u8>, Seq<u8>)>,
    rest: Seq<(Seq<char>, u16, Seq<u8>, Seq<u8>)>,
    depth: nat,
    more: nat,
) -> (prefix: Seq<char>)
    requires
        readable(store, first, depth),
        walk.waiting == first + rest,
    ensures
        ({
            let begun = walk_on(walk);
            let passed = walk_on(
                NotesWalkView {
                    prefix,
                    waiting: rest,
                    found: walk.found + notes_below(store, first, depth),
                },
            );
            walk_with_store(store, begun.0, begun.1, trees_below(store, first, depth) + more)
                == walk_with_store(store, passed.0, passed.1, more)
        }),
    decreases depth, first.len(),
{
    if first.len() == 0 {
        assert(first + rest =~= rest);
        assert(walk.found + notes_below(store, first, depth) =~= walk.found);
        walk.prefix
    } else {
        let (prefix, kind, name, id) = first[0];
        let label = prefix + decode_utf8(name);
        let others = first.skip(1);
        assert(walk.waiting[0] == first[0]);
        assert(walk.waiting.skip(1) =~= others + rest);
        let after = NotesWalkView { waiting: others + rest, ..walk };
        if kind == ENTRY_KIND_BLOB {
            let taken = NotesWalkView { found: walk.found.push((label, id)), ..after };
            assert(walk_on(walk) == walk_on(taken));
            let p = lemma_walk_passes(store, taken, others, rest, depth, more);
            assert(taken.found + notes_below(store, others, depth) =~= walk.found + notes_below(
                store,
                first,
                depth,
            ));
            p
        } else if kind == ENTRY_KIND_TREE {
            let inner = entries_under(label, tree_in(store, id)->0);
            let down = NotesWalkView { prefix: label, ..after };
            assert(walk_on(walk) == (down, WalkActionView::ReadTree(id)));
            let entered = NotesWalkView { waiting: inner + (others + rest), ..down };
            let a = trees_below(store, inner, (depth - 1) as nat);
            let b = trees_below(store, others, depth);
            assert(trees_below(store, first, depth) == 1 + a + b);
            assert(collect_blob_entries_spec(down, object_in(store, id)) == walk_on(entered));
            assert(walk_with_store(store, down, WalkActionView::ReadTree(id), 1 + a + b + more)
                == walk_with_store(
                store,
                walk_on(entered).0,
                walk_on(entered).1,
                a + (b + more),
            ));
            let p = lemma_walk_passes(
                store,
                entered,
                inner,
                others + rest,
                (depth - 1) as nat,
                b + more,
            );
            let back = NotesWalkView {
                prefix: p,
                waiting: others + rest,
                found: walk.found + notes_below(store, inner, (depth - 1) as nat),
            };
            let q = lemma_walk_passes(store, back, others, rest, depth, more);
            assert(back.found + notes_below(store, others, depth) =~= walk.found + notes_below(
                store,
                first,
                depth,
            ));
            q
        } else {
            assert(walk_on(walk) == walk_on(after));
            let p = lemma_walk_passes(store, after, others, rest, depth, more);
            assert(after.found + notes_below(store, others, depth) =~= walk.found + notes_below(
                store,
                first,
                depth,
            ));
            p
        }
    }
}

/// The walk lists the notes depth first and in the order of the trees.
/// Where the tree `root` and everything below it can be read from the store,
/// the walk that begins at `root` and is handed every tree it asks for ends
/// after as many reads as there are trees, and has then found exactly the
/// notes below `root`, each under its label, a directory's notes before
/// whatever follows the directory.
pub proof fn lemma_walk_lists_notes_in_tree_order(
    store: Map<Seq<u8>, Seq<u8>>,
    root: Seq<u8>,
    depth: nat,
)
    requires
        tree_in(store, root) is Some,
        readable(store, entries_under(Seq::empty(), tree_in(store, root)->0), depth),
    ensures
        ({
            let top = entries_under(Seq::empty(), tree_in(store, root)->0);
            let begun = NotesWalkView {
                prefix: Seq::empty(),
                waiting: Seq::empty(),
                found: Seq::empty(),
            };
            let end = walk_with_store(
                store,
                begun,
                WalkActionView::ReadTree(root),
                1 + trees_below(store, top, depth),
            );
            &&& end.1 == WalkActionView::Done
            &&& end.0.found == notes_below(store, top, depth)
            &&& end.0.waiting.len() == 0
        }),
{
    let top = entries_under(Seq::empty(), tree_in(store, root)->0);
    let begun = NotesWalkView { prefix: Seq::empty(), waiting: Seq::empty(), found: Seq::empty() };
    let entered = NotesWalkView { waiting: top + begun.waiting, ..begun };
    assert(collect_blob_entries_spec(begun, object_in(store, root)) == walk_on(entered));
    let p = lemma_walk_passes(store, entered, top, Seq::empty(), depth, 0);
    let passed = NotesWalkView {
        prefix: p,
        waiting: Seq::empty(),
        found: entered.found + notes_below(store, top, depth),
    };
    assert(passed.found =~= notes_below(store, top, depth));
    assert(walk_on(passed) == (passed, WalkActionView::Done));
}

// ---------------------------------------------------------------------------
// The division among workers
// ---------------------------------------------------------------------------
/// The number of workers among which the notes are divided.
pub const MAX_CONCURRENT_WORKERS: usize = 64;

/// The number of notes of each worker but the last: `len / workers`, rounded
/// up.
pub open spec fn chunk_size(len: nat, workers: nat) -> nat {
    if workers == 0 {
        len
    } else if len % workers == 0 {
        len / workers
    } else {
        len / workers + 1
    }
}

/// The `k`-th run of `size` positions among `len`.
pub open spec fn chunk_at(k: int, size: nat, len: nat) -> (usize, usize) {
    (
        (k * size) as usize,
        if (k + 1) * size <= len {
            ((k + 1) * size) as usize
        } else {
            len as usize
        },
    )
}

/// Whether the ranges follow each other from 0 to `len`, none empty.
pub open spec fn tiles(ranges: Seq<(usize, usize)>, len: nat) -> bool
    decreases ranges.len(),
{
    if ranges.len() == 0 {
        len == 0
    } else {
        &&& ranges.last().0 < ranges.last().1
        &&& ranges.last().1 == len
        &&& tiles(ranges.drop_last(), ranges.last().0 as nat)
    }
}

proof fn lemma_chunk_size(len: nat, workers: nat)
    requires
        workers > 0,
    ensures
        chunk_size(len, workers) * workers >= len,
        len > 0 ==> chunk_size(len, workers) > 0,
        chunk_size(len, workers) <= len,
{
    let q = len / workers;
    let r = len % workers;
    assert(len == workers * q + r) by (nonlinear_arith)
        requires
            workers > 0,
            q == len / workers,
            r == len % workers,
    ;
    assert(0 <= r < workers);
    if r == 0 {
        assert(q * workers == len) by (nonlinear_arith)
            requires
                len == workers * q + r,
                r == 0,
        ;
        assert(q <= len) by (nonlinear_arith)
            requires
                q * workers == len,
                workers > 0,
                q >= 0,
        ;
    } else {
        assert((q + 1) * workers >= len) by (nonlinear_arith)
            requires
                len == workers * q + r,
                r < workers,
        ;
        assert(q + 1 <= len) by (nonlinear_arith)
            requires
                len == workers * q + r,
                r >= 1,
                workers >= 1,
                q >= 0,
        ;
    }
}

/// Divides `len` notes among at most `workers` workers: runs of
/// `chunk_size(len, workers)` notes that follow each other, the last one
/// perhaps shorter, none empty.
pub fn chunk_ranges(len: usize, workers: usize) -> (r: Vec<(usize, usize)>)
    requires
        workers > 0,
    ensures
        tiles(r@, len as nat),
        r@.len() <= workers,
        forall|k: int|
            0 <= k < r@.len() ==> #[trigger] r@[k] == chunk_at(
                k,
                chunk_size(len as nat, workers as nat),
                len as nat,
            ),
{
    let mut out: Vec<(usize, usize)> = Vec::new();
    if len == 0 {
        return out;
    }
    proof {
        lemma_chunk_size(len as nat, workers as nat);
    }
    let size: usize = if len % workers == 0 {
        len / workers
    } else {
        len / workers + 1
    };
    let mut start: usize = 0;
    while start < len
        invariant
            0 <= start <= len,
            workers > 0,
            size > 0,
            size == chunk_size(len as nat, workers as nat),
            size * workers >= len,
            tiles(out@, start as nat),
            start < len ==> start == out@.len() * size,
            start == len ==> out@.len() <= workers,
            forall|k: int| 0 <= k < out@.len() ==> #[trigger] out@[k] == chunk_at(k, size as nat, len as nat),
        decreases len - start,
    {
        let end: usize = if len - start > size {
            start + size
        } else {
            len
        };
        let ghost before = out@;
        let ghost count = out@.len() as int;
        proof {
            assert((count + 1) * size == start + size) by (nonlinear_arith)
                requires
                    start == count * size,
            ;
            assert(count < workers) by (nonlinear_arith)
                requires
                    start == count * size,
                    start < len,
                    size * workers >= len,
                    size > 0,
                    count >= 0,
            ;
        }
        out.push((start, end));
        proof {
            assert(out@.drop_last() =~= before);
            assert(out@[count] == chunk_at(count, size as nat, len as nat));
        }
        start = end;
    }
    out
}

// ---------------------------------------------------------------------------
// The paths of the notes
// ---------------------------------------------------------------------------
/// The files that one note attests: none where the note could not be read,
/// is no UTF-8 text, has no divider, or has malformed attestations.
pub open spec fn blob_file_paths(blob: Option<Seq<u8>>) -> Seq<Seq<char>> {
    match blob {
        Some(bytes) => if valid_utf8(bytes) {
            note_file_paths_spec(decode_utf8(bytes))
        } else {
            Seq::empty()
        },
        None => Seq::empty(),
    }
}

/// The files that the notes attest, each once, in the order in which they
/// first occur.
pub open spec fn extract_file_paths_from_batch_spec(blobs: Seq<Option<Seq<u8>>>) -> Seq<Seq<char>>
    decreases blobs.len(),
{
    if blobs.len() == 0 {
        Seq::empty()
    } else {
        add_all_once(
            extract_file_paths_from_batch_spec(blobs.drop_last()),
            blob_file_paths(blobs.last()),
        )
    }
}

/// The plain values of notes as they were read.
pub open spec fn blob_views(blobs: Seq<Option<Vec<u8>>>) -> Seq<Option<Seq<u8>>> {
    blobs.map_values(
        |b: Option<Vec<u8>>|
            match b {
                Some(v) => Some(v@),
                None => None,
            },
    )
}

fn add_paths(acc: &mut Vec<String>, items: &Vec<String>)
    ensures
        final(acc).deep_view() == add_all_once(old(acc).deep_view(), items.deep_view()),
{
    let ghost iv = items.deep_view();
    let mut i: usize = 0;
    assert(iv.take(0) =~= Seq::<Seq<char>>::empty());
    while i < items.len()
        invariant
            0 <= i <= items.len(),
            iv == items.deep_view(),
            acc.deep_view() == add_all_once(old(acc).deep_view(), iv.take(i as int)),
        decreases items.len() - i,
    {
        proof {
            lemma_take_next(iv, i as int);
        }
        if !contains_text(acc.as_slice(), items[i].as_str()) {
            let ghost before = *acc;
            let item = items[i].clone();
            acc.push(item);
            proof {
                lemma_deep_view_push(before, *acc, item);
            }
        }
        i += 1;
    }
    proof {
        lemma_take_all(iv);
    }
}

/// Collects the files that a batch of notes attests. A note that could not
/// be read is `None`; it is passed over, as is every note that is no stored
/// log.
pub fn extract_file_paths_from_batch(blobs: &[Option<Vec<u8>>]) -> (files: Vec<String>)
    ensures
        files.deep_view() == extract_file_paths_from_batch_spec(blob_views(blobs@)),
        files.deep_view().no_duplicates(),
{
    let ghost bv = blob_views(blobs@);
    let mut files: Vec<String> = Vec::new();
    let mut i: usize = 0;
    proof {
        lemma_deep_view_empty(files);
        assert(bv.take(0) =~= Seq::<Option<Seq<u8>>>::empty());
    }
    while i < blobs.len()
        invariant
            0 <= i <= blobs.len(),
            bv == blob_views(blobs@),
            files.deep_view() == extract_file_paths_from_batch_spec(bv.take(i as int)),
        decreases blobs.len() - i,
    {
        proof {
            lemma_take_next(bv, i as int);
        }
        let paths: Vec<String> = match &blobs[i] {
            Some(bytes) => match decode_text(bytes.as_slice()) {
                Some(content) => note_file_paths(content.as_str()),
                None => {
                    let p: Vec<String> = Vec::new();
                    proof {
                        lemma_deep_view_empty(p);
                    }
                    p
                },
            },
            None => {
                let p: Vec<String> = Vec::new();
                proof {
                    lemma_deep_view_empty(p);
                }
                p
            },
        };
        add_paths(&mut files, &paths);
        i += 1;
    }
    proof {
        lemma_take_all(bv);
        lemma_batch_paths_distinct(bv);
    }
    files
}

/// The files of all workers, each once.
pub open spec fn union_file_paths_spec(sets: Seq<Seq<Seq<char>>>) -> Seq<Seq<char>>
    decreases sets.len(),
{
    if sets.len() == 0 {
        Seq::empty()
    } else {
        add_all_once(union_file_paths_spec(sets.drop_last()), sets.last())
    }
}

/// Joins what the workers found.
pub fn union_file_paths(sets: &[Vec<String>]) -> (files: Vec<String>)
    ensures
        files.deep_view() == union_file_paths_spec(sets.deep_view()),
        files.deep_view().no_duplicates(),
{
    let ghost sv = sets.deep_view();
    let mut files: Vec<String> = Vec::new();
    let mut i: usize = 0;
    proof {
        lemma_deep_view_empty(files);
        assert(sv.take(0) =~= Seq::<Seq<Seq<char>>>::empty());
    }
    while i < sets.len()
        invariant
            0 <= i <= sets.len(),
            sv == sets.deep_view(),
            files.deep_view() == union_file_paths_spec(sv.take(i as int)),
        decreases sets.len() - i,
    {
        proof {
            lemma_take_next(sv, i as int);
        }
        add_paths(&mut files, &sets[i]);
        i += 1;
    }
    proof {
        lemma_take_all(sv);
        lemma_union_paths_distinct(sv);
    }
    files
}

// ---------------------------------------------------------------------------
// Laws: the division does not change what is found
// ---------------------------------------------------------------------------
proof fn lemma_add_all_once(acc: Seq<Seq<char>>, items: Seq<Seq<char>>)
    ensures
        acc.no_duplicates() ==> add_all_once(acc, items).no_duplicates(),
        add_all_once(acc, items).to_set() == acc.to_set().union(items.to_set()),
    decreases items.len(),
{
    if items.len() == 0 {
        assert(items.to_set() =~= Set::<Seq<char>>::empty());
        assert(acc.to_set().union(items.to_set()) =~= acc.to_set());
    } else {
        let rest = add_all_once(acc, items.drop_last());
        lemma_add_all_once(acc, items.drop_last());
        let x = items.last();
        let now = with_once(rest, x);
        assert forall|p: Seq<char>| now.to_set().contains(p) <==> acc.to_set().union(
            items.to_set(),
        ).contains(p) by {
            if now.contains(p) {
                let w = choose|w: int| 0 <= w < now.len() && now[w] == p;
                if w < rest.len() {
                    assert(rest[w] == p);
                    assert(rest.to_set().contains(p));
                    if items.drop_last().to_set().contains(p) {
                        let v = choose|v: int|
                            0 <= v < items.drop_last().len() && items.drop_last()[v] == p;
                        assert(items[v] == p);
                    }
                } else {
                    assert(p == x);
                    assert(items[items.len() - 1] == p);
                }
            }
            if acc.contains(p) {
                assert(rest.to_set().contains(p));
                let w = choose|w: int| 0 <= w < rest.len() && rest[w] == p;
                assert(now[w] == p);
            }
            if items.contains(p) {
                let v = choose|v: int| 0 <= v < items.len() && items[v] == p;
                if v < items.len() - 1 {
                    assert(items.drop_last()[v] == p);
                    assert(rest.to_set().contains(p));
                    let w = choose|w: int| 0 <= w < rest.len() && rest[w] == p;
                    assert(now[w] == p);
                } else {
                    if rest.contains(x) {
                    } else {
                        assert(now[rest.len() as int] == x);
                    }
                }
            }
        }
        assert(now.to_set() =~= acc.to_set().union(items.to_set()));
    }
}

proof fn lemma_batch_paths_distinct(blobs: Seq<Option<Seq<u8>>>)
    ensures
        extract_file_paths_from_batch_spec(blobs).no_duplicates(),
    decreases blobs.len(),
{
    if blobs.len() > 0 {
        lemma_batch_paths_distinct(blobs.drop_last());
        lemma_add_all_once(
            extract_file_paths_from_batch_spec(blobs.drop_last()),
            blob_file_paths(blobs.last()),
        );
    }
}

proof fn lemma_union_paths_distinct(sets: Seq<Seq<Seq<char>>>)
    ensures
        union_file_paths_spec(sets).no_duplicates(),
    decreases sets.len(),
{
    if sets.len() > 0 {
        lemma_union_paths_distinct(sets.drop_last());
        lemma_add_all_once(union_file_paths_spec(sets.drop_last()), sets.last());
    }
}

proof fn lemma_batch_paths_concat(a: Seq<Option<Seq<u8>>>, b: Seq<Option<Seq<u8>>>)
    ensures
        extract_file_paths_from_batch_spec(a + b).to_set() == extract_file_paths_from_batch_spec(
            a,
        ).to_set().union(extract_file_paths_from_batch_spec(b).to_set()),
    decreases b.len(),
{
    if b.len() == 0 {
        assert(a + b =~= a);
        assert(extract_file_paths_from_batch_spec(b).to_set() =~= Set::<Seq<char>>::empty());
        assert(extract_file_paths_from_batch_spec(a).to_set().union(
            extract_file_paths_from_batch_spec(b).to_set(),
        ) =~= extract_file_paths_from_batch_spec(a).to_set());
    } else {
        assert((a + b).drop_last() =~= a + b.drop_last());
        assert((a + b).last() == b.last());
        lemma_batch_paths_concat(a, b.drop_last());
        lemma_add_all_once(
            extract_file_paths_from_batch_spec(a + b.drop_last()),
            blob_file_paths(b.last()),
        );
        lemma_add_all_once(
            extract_file_paths_from_batch_spec(b.drop_last()),
            blob_file_paths(b.last()),
        );
        assert(extract_file_paths_from_batch_spec(a + b).to_set()
            =~= extract_file_paths_from_batch_spec(a).to_set().union(
            extract_file_paths_from_batch_spec(b).to_set(),
        ));
    }
}

/// What each worker finds in its run of the notes.
pub open spec fn worker_results(blobs: Seq<Option<Seq<u8>>>, ranges: Seq<(usize, usize)>) -> Seq<
    Seq<Seq<char>>,
> {
    Seq::new(
        ranges.len(),
        |k: int|
            extract_file_paths_from_batch_spec(
                blobs.subrange(ranges[k].0 as int, ranges[k].1 as int),
            ),
    )
}

proof fn lemma_tiles_bounds(ranges: Seq<(usize, usize)>, len: nat)
    requires
        tiles(ranges, len),
    ensures
        forall|k: int| 0 <= k < ranges.len() ==> (#[trigger] ranges[k]).0 < ranges[k].1 <= len,
    decreases ranges.len(),
{
    if ranges.len() > 0 {
        lemma_tiles_bounds(ranges.drop_last(), ranges.last().0 as nat);
        assert forall|k: int| 0 <= k < ranges.len() implies (#[trigger] ranges[k]).0 < ranges[k].1
            <= len by {
            if k < ranges.len() - 1 {
                assert(ranges.drop_last()[k] == ranges[k]);
            }
        }
    }
}

/// The set of files that the workers find together, each in its own run of
/// the notes, is the set that one worker finds in all the notes, however the
/// runs divide the notes.
pub proof fn lemma_division_keeps_the_files(
    blobs: Seq<Option<Seq<u8>>>,
    ranges: Seq<(usize, usize)>,
)
    requires
        tiles(ranges, blobs.len()),
    ensures
        union_file_paths_spec(worker_results(blobs, ranges)).to_set()
            == extract_file_paths_from_batch_spec(blobs).to_set(),
    decreases ranges.len(),
{
    let results = worker_results(blobs, ranges);
    if ranges.len() == 0 {
        assert(blobs =~= Seq::<Option<Seq<u8>>>::empty());
    } else {
        let cut = ranges.last().0 as int;
        let head = blobs.subrange(0, cut);
        let tail = blobs.subrange(cut, blobs.len() as int);
        lemma_tiles_bounds(ranges.drop_last(), cut as nat);
        lemma_division_keeps_the_files(head, ranges.drop_last());
        assert(worker_results(head, ranges.drop_last()) =~= results.drop_last()) by {
            assert forall|k: int| 0 <= k < ranges.len() - 1 implies worker_results(
                head,
                ranges.drop_last(),
            )[k] == results[k] by {
                assert(ranges.drop_last()[k] == ranges[k]);
                assert(head.subrange(ranges[k].0 as int, ranges[k].1 as int) =~= blobs.subrange(
                    ranges[k].0 as int,
                    ranges[k].1 as int,
                ));
            }
        }
        assert(results.last() == extract_file_paths_from_batch_spec(tail));
        lemma_add_all_once(union_file_paths_spec(results.drop_last()), results.last());
        assert(head + tail =~= blobs);
        lemma_batch_paths_concat(head, tail);
    }
}

/// One worker and many workers find the same set of files: what the runs of
/// [`chunk_ranges`] give for any two numbers of workers has the same members.
pub proof fn lemma_worker_count_is_irrelevant(
    blobs: Seq<Option<Seq<u8>>>,
    one: Seq<(usize, usize)>,
    many: Seq<(usize, usize)>,
)
    requires
        tiles(one, blobs.len()),
        tiles(many, blobs.len()),
    ensures
        union_file_paths_spec(worker_results(blobs, one)).to_set() == union_file_paths_spec(
            worker_results(blobs, many),
        ).to_set(),
{
    lemma_division_keeps_the_files(blobs, one);
    lemma_division_keeps_the_files(blobs, many);
}

} // verus!
