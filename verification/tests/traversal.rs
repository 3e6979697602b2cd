use git_ai::error::GitAiError;
use git_ai::traversal::{
    chunk_ranges, extract_file_paths_from_batch, notes_tree, notes_tree_of, union_file_paths,
    NotesWalk, ObjectRead, WalkAction, ENTRY_KIND_BLOB, ENTRY_KIND_TREE, MAX_CONCURRENT_WORKERS,
};

fn oid(fill: u8) -> Vec<u8> {
    vec![fill; 20]
}

fn tree_entry(mode: &str, name: &[u8], id: &[u8]) -> Vec<u8> {
    let mut bytes = mode.as_bytes().to_vec();
    bytes.push(b' ');
    bytes.extend_from_slice(name);
    bytes.push(0);
    bytes.extend_from_slice(id);
    bytes
}

fn note(paths: &[&str]) -> Option<Vec<u8>> {
    let mut text = String::new();
    for (index, path) in paths.iter().enumerate() {
        if index > 0 {
            text.push('\n');
        }
        text.push_str(path);
        text.push_str("\n  1-2 ai prompt");
    }
    text.push_str("\n---\n{\"schema_version\":\"authorship/3.0.0\"}");
    Some(text.into_bytes())
}

fn sorted(mut items: Vec<String>) -> Vec<String> {
    items.sort();
    items
}

#[test]
fn notes_are_divided_into_runs() {
    assert_eq!(chunk_ranges(10, 3), vec![(0, 4), (4, 8), (8, 10)]);
    assert_eq!(chunk_ranges(9, 3), vec![(0, 3), (3, 6), (6, 9)]);
    assert_eq!(chunk_ranges(5, 64), vec![(0, 1), (1, 2), (2, 3), (3, 4), (4, 5)]);
    assert_eq!(chunk_ranges(7, 1), vec![(0, 7)]);
    assert_eq!(chunk_ranges(0, 64), vec![]);
    assert_eq!(chunk_ranges(129, 64), {
        let mut expected: Vec<(usize, usize)> = (0..43).map(|k| (3 * k, 3 * k + 3)).collect();
        expected.last_mut().unwrap().1 = 129;
        expected
    });
    assert_eq!(chunk_ranges(usize::MAX, 2), vec![(0, usize::MAX / 2 + 1), (usize::MAX / 2 + 1, usize::MAX)]);
    assert_eq!(MAX_CONCURRENT_WORKERS, 64);
    for len in 0..200usize {
        for workers in [1usize, 2, 3, 7, 64, 500] {
            let ranges = chunk_ranges(len, workers);
            assert!(ranges.len() <= workers);
            let mut at = 0;
            for (from, to) in ranges {
                assert_eq!(from, at);
                assert!(from < to);
                at = to;
            }
            assert_eq!(at, len);
        }
    }
}

#[test]
fn paths_of_a_batch_are_collected_once() {
    let blobs = vec![
        note(&["src/a.rs", "b.txt"]),
        None,
        Some(vec![0xff, 0xfe]),
        Some(b"no divider here".to_vec()),
        Some(b"  1-2 ai orphan\n---\n{}".to_vec()),
        note(&["b.txt", "c d.rs"]),
        note(&[]),
    ];
    assert_eq!(extract_file_paths_from_batch(&blobs), vec!["src/a.rs", "b.txt", "c d.rs"]);
    assert_eq!(extract_file_paths_from_batch(&[]), Vec::<String>::new());
}

#[test]
fn results_of_workers_are_joined() {
    let sets = vec![
        vec!["a".to_string(), "b".to_string()],
        vec![],
        vec!["b".to_string(), "c".to_string(), "a".to_string()],
    ];
    assert_eq!(union_file_paths(&sets), vec!["a", "b", "c"]);
    assert_eq!(union_file_paths(&[]), Vec::<String>::new());
}

#[test]
fn one_worker_and_many_workers_find_the_same_files() {
    let mut blobs = Vec::new();
    let mut expected = std::collections::BTreeSet::new();
    for index in 0..150u32 {
        let first = format!("dir{}/file{}.rs", index % 7, index % 11);
        let second = format!("shared{}.txt", index % 3);
        blobs.push(match index % 5 {
            0 => None,
            1 => Some(vec![0xc3, 0x28]),
            _ => {
                expected.insert(first.clone());
                expected.insert(second.clone());
                note(&[first.as_str(), second.as_str()])
            }
        });
    }
    let scan = |workers: usize| {
        let parts: Vec<Vec<String>> = chunk_ranges(blobs.len(), workers)
            .into_iter()
            .map(|(from, to)| extract_file_paths_from_batch(&blobs[from..to]))
            .collect();
        sorted(union_file_paths(&parts))
    };
    let alone = scan(1);
    assert_eq!(scan(MAX_CONCURRENT_WORKERS), alone);
    assert_eq!(scan(3), alone);
    assert_eq!(scan(1000), alone);
    assert_eq!(alone, sorted(extract_file_paths_from_batch(&blobs)));
    assert_eq!(alone, expected.into_iter().collect::<Vec<String>>());
}

#[test]
fn tree_of_the_notes_is_read_from_the_commit() {
    let commit = b"tree 4b825dc642cb6eb9a060e54bf8d69288fbee4904\n\
author A U Thor <author@example.com> 1700000000 +0000\n\
committer A U Thor <author@example.com> 1700000000 +0000\n\
\n\
Notes added by 'git notes add'\n";
    let expected = vec![
        0x4b, 0x82, 0x5d, 0xc6, 0x42, 0xcb, 0x6e, 0xb9, 0xa0, 0x60, 0xe5, 0x4b, 0xf8, 0xd6, 0x92,
        0x88, 0xfb, 0xee, 0x49, 0x04,
    ];
    assert_eq!(notes_tree(ObjectRead::Data(commit.to_vec())), Ok(expected));
    assert_eq!(
        notes_tree(ObjectRead::Data(b"this is no commit".to_vec())),
        Err(GitAiError::Generic("Failed to parse commit: object parsing failed".to_string()))
    );
    assert_eq!(
        notes_tree(ObjectRead::Missing),
        Err(GitAiError::Generic("Notes commit object not found".to_string()))
    );
    assert_eq!(
        notes_tree(ObjectRead::Failed("io".to_string())),
        Err(GitAiError::Generic("Failed to find notes object: io".to_string()))
    );
    assert_eq!(notes_tree_of(Ok(oid(1))), Ok(oid(1)));
    assert_eq!(
        notes_tree_of(Err("no tree named".to_string())),
        Err(GitAiError::Generic("Failed to parse commit: no tree named".to_string()))
    );
}

#[test]
fn walk_finds_the_notes_of_all_trees() {
    let mut root = tree_entry("100644", b"aa11", &oid(1));
    root.extend(tree_entry("40000", b"bb", &oid(2)));
    root.extend(tree_entry("100755", b"tool", &oid(3)));
    root.extend(tree_entry("120000", b"link", &oid(4)));
    root.extend(tree_entry("40000", b"cc", &oid(5)));
    let mut second = tree_entry("100644", b"22", &oid(6));
    second.extend(tree_entry("100644", b"33", &oid(7)));
    let third = tree_entry("40000", b"dd", &oid(8));
    let fourth = tree_entry("100644", b"44", &oid(9));

    let (mut walk, first) = NotesWalk::start(oid(0));
    assert_eq!(first, WalkAction::ReadTree(oid(0)));
    assert_eq!(walk.collect_blob_entries(ObjectRead::Data(root)), WalkAction::ReadTree(oid(2)));
    assert_eq!(walk.prefix, "bb");
    assert_eq!(walk.found, vec![("aa11".to_string(), oid(1))]);
    assert_eq!(walk.collect_blob_entries(ObjectRead::Data(second)), WalkAction::ReadTree(oid(5)));
    assert_eq!(walk.prefix, "cc");
    assert_eq!(walk.collect_blob_entries(ObjectRead::Data(third)), WalkAction::ReadTree(oid(8)));
    assert_eq!(walk.prefix, "ccdd");
    assert_eq!(walk.collect_blob_entries(ObjectRead::Data(fourth)), WalkAction::Done);
    assert_eq!(
        walk.found,
        vec![
            ("aa11".to_string(), oid(1)),
            ("bb22".to_string(), oid(6)),
            ("bb33".to_string(), oid(7)),
            ("ccdd44".to_string(), oid(9)),
        ]
    );
    assert_eq!(walk.waiting, vec![]);
}

#[test]
fn walk_lists_a_directory_before_what_follows_it() {
    let mut root = tree_entry("100644", b"a", &oid(1));
    root.extend(tree_entry("40000", b"d", &oid(2)));
    root.extend(tree_entry("100644", b"b", &oid(3)));
    let inner = tree_entry("100644", b"x", &oid(4));

    let (mut walk, _) = NotesWalk::start(oid(0));
    assert_eq!(walk.collect_blob_entries(ObjectRead::Data(root)), WalkAction::ReadTree(oid(2)));
    assert_eq!(walk.found, vec![("a".to_string(), oid(1))]);
    assert_eq!(walk.waiting, vec![(String::new(), ENTRY_KIND_BLOB, b"b".to_vec(), oid(3))]);
    assert_eq!(walk.collect_blob_entries(ObjectRead::Data(inner)), WalkAction::Done);
    assert_eq!(
        walk.found,
        vec![("a".to_string(), oid(1)), ("dx".to_string(), oid(4)), ("b".to_string(), oid(3))]
    );
}

#[test]
fn walk_goes_down_before_it_goes_on() {
    let mut root = tree_entry("40000", b"1", &oid(1));
    root.extend(tree_entry("40000", b"2", &oid(2)));
    root.extend(tree_entry("100644", b"z", &oid(3)));
    let mut one = tree_entry("40000", b"a", &oid(4));
    one.extend(tree_entry("100644", b"b", &oid(5)));
    let deep = tree_entry("100644", b"c", &oid(6));
    let two = tree_entry("100644", b"d", &oid(7));

    let (mut walk, _) = NotesWalk::start(oid(0));
    assert_eq!(walk.collect_blob_entries(ObjectRead::Data(root)), WalkAction::ReadTree(oid(1)));
    assert_eq!(walk.collect_blob_entries(ObjectRead::Data(one)), WalkAction::ReadTree(oid(4)));
    assert_eq!(walk.prefix, "1a");
    assert_eq!(walk.collect_blob_entries(ObjectRead::Data(deep)), WalkAction::ReadTree(oid(2)));
    assert_eq!(walk.prefix, "2");
    assert_eq!(walk.collect_blob_entries(ObjectRead::Data(two)), WalkAction::Done);
    assert_eq!(
        walk.found,
        vec![
            ("1ac".to_string(), oid(6)),
            ("1b".to_string(), oid(5)),
            ("2d".to_string(), oid(7)),
            ("z".to_string(), oid(3)),
        ]
    );
}

#[test]
fn walk_of_an_empty_tree_is_over_at_once() {
    let (mut walk, _) = NotesWalk::start(oid(0));
    assert_eq!(walk.collect_blob_entries(ObjectRead::Data(vec![])), WalkAction::Done);
    assert_eq!(walk.found, vec![]);
}

#[test]
fn walk_fails_on_what_is_no_tree() {
    let fail = |message: &str| WalkAction::Fail(GitAiError::Generic(message.to_string()));
    let (mut walk, _) = NotesWalk::start(oid(0));
    assert_eq!(walk.collect_blob_entries(ObjectRead::Missing), fail("Tree object not found"));
    assert_eq!(
        walk.collect_blob_entries(ObjectRead::Failed("disk".to_string())),
        fail("Failed to find tree: disk")
    );
    assert_eq!(
        walk.collect_blob_entries(ObjectRead::Data(b"100644 short\0abc".to_vec())),
        fail("Failed to parse tree: object parsing failed")
    );
    let mut bad_name = tree_entry("100644", b"ok", &oid(1));
    bad_name.extend(tree_entry("100644", &[0xff, 0xfe], &oid(2)));
    bad_name.extend(tree_entry("100644", b"never", &oid(3)));
    assert_eq!(
        walk.collect_blob_entries(ObjectRead::Data(bad_name)),
        fail("Invalid UTF-8 in tree entry: invalid utf-8 sequence of 1 bytes from index 0")
    );
    assert_eq!(walk.found, vec![("ok".to_string(), oid(1))]);
    let mut cut_name = tree_entry("100755", &[b'a', 0xe2, 0x82], &oid(1));
    cut_name.extend(tree_entry("100644", b"never", &oid(3)));
    let (mut walk, _) = NotesWalk::start(oid(0));
    assert_eq!(
        walk.collect_blob_entries(ObjectRead::Data(cut_name)),
        fail("Invalid UTF-8 in tree entry: incomplete utf-8 byte sequence from index 1")
    );
    assert_eq!(walk.found, vec![]);
}

#[test]
fn walk_continues_with_entries_given_as_values() {
    let (mut walk, _) = NotesWalk::start(oid(0));
    let entries = vec![
        (ENTRY_KIND_TREE, b"ab".to_vec(), oid(1)),
        (ENTRY_KIND_BLOB, b"cd".to_vec(), oid(2)),
        (0o160000, b"sub".to_vec(), oid(3)),
    ];
    assert_eq!(walk.continue_with(Ok(entries)), WalkAction::ReadTree(oid(1)));
    assert_eq!(walk.found, vec![]);
    assert_eq!(walk.prefix, "ab");
    assert_eq!(
        walk.continue_with(Err("cut short".to_string())),
        WalkAction::Fail(GitAiError::Generic("Failed to parse tree: cut short".to_string()))
    );
    assert_eq!(walk.continue_with(Ok(vec![])), WalkAction::Done);
    assert_eq!(walk.found, vec![("cd".to_string(), oid(2))]);
}
