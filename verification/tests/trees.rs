use minigit::error::GitError;
use minigit::ident::hex_to_bytes;
use minigit::object::{encode, hash_object_file, ObjectKind};
use minigit::tree::{
    list_tree_names, read_tree, render_tree, serialize_tree, sort_tree_entries, tree_entries,
    write_tree, EntryAction, TreeEntry,
};

fn raw_id(hex_id: &[u8]) -> Vec<u8> {
    hex_to_bytes(hex_id).unwrap()
}

fn entry(mode: &[u8], name: &[u8], id: Vec<u8>) -> TreeEntry {
    TreeEntry { mode: mode.to_vec(), name: name.to_vec(), id }
}

fn blob_entry(name: &[u8], content: &[u8]) -> TreeEntry {
    let blob = hash_object_file(content).unwrap();
    entry(b"100644", name, raw_id(&blob.id))
}

#[test]
fn tree_over_two_files() {
    let tree = write_tree(vec![blob_entry(b"b", b"B\n"), blob_entry(b"a", b"A\n")]).unwrap();
    assert_eq!(tree.id, b"5ddb101b49ac18f7fd0b82d827a780751660407f".to_vec());
    let names = list_tree_names(&tree.compressed).unwrap();
    assert_eq!(names, vec![b"a".to_vec(), b"b".to_vec()]);
}

#[test]
fn listing_order_does_not_change_identity() {
    let first = write_tree(vec![
        blob_entry(b"x", b"1"),
        blob_entry(b"m", b"2"),
        blob_entry(b"a", b"3"),
    ])
    .unwrap();
    let second = write_tree(vec![
        blob_entry(b"a", b"3"),
        blob_entry(b"x", b"1"),
        blob_entry(b"m", b"2"),
    ])
    .unwrap();
    assert_eq!(first.id, second.id);
    assert_eq!(first.canonical, second.canonical);
}

#[test]
fn directories_sort_as_if_they_ended_in_a_slash() {
    let sub = write_tree(Vec::new()).unwrap();
    let sorted = sort_tree_entries(vec![
        entry(b"40000", b"foo", raw_id(&sub.id)),
        blob_entry(b"foo.txt", b"1"),
        blob_entry(b"foo-bar", b"2"),
        blob_entry(b"fo", b"3"),
    ]);
    let names: Vec<Vec<u8>> = sorted.iter().map(|e| e.name.clone()).collect();
    assert_eq!(
        names,
        vec![b"fo".to_vec(), b"foo-bar".to_vec(), b"foo.txt".to_vec(), b"foo".to_vec()]
    );
}

#[test]
fn empty_directory_gives_the_empty_tree() {
    let tree = write_tree(Vec::new()).unwrap();
    assert_eq!(tree.canonical, b"tree 0\0".to_vec());
    assert_eq!(tree.id, b"4b825dc642cb6eb9a060e54bf8d69288fbee4904".to_vec());
    assert_eq!(list_tree_names(&tree.compressed), Ok(Vec::new()));
}

#[test]
fn payload_bytes_are_exact() {
    let id: Vec<u8> = (1..=20).collect();
    let payload = serialize_tree(&vec![entry(b"100755", b"run", id.clone())]);
    let mut expected = b"100755 run\0".to_vec();
    expected.extend_from_slice(&id);
    assert_eq!(payload, expected);
}

#[test]
fn entries_that_cannot_be_written() {
    let id = vec![0u8; 20];
    let bad = [
        entry(b"100600", b"a", id.clone()),
        entry(b"040000", b"a", id.clone()),
        entry(b"100644", b"", id.clone()),
        entry(b"100644", b"a\0b", id.clone()),
        entry(b"100644", b"a", vec![0u8; 19]),
    ];
    for e in bad {
        assert!(matches!(write_tree(vec![e]), Err(GitError::MalformedTree)));
    }
    for mode in [&b"100644"[..], b"100755", b"120000", b"40000"] {
        assert!(write_tree(vec![entry(mode, b"a", id.clone())]).is_ok());
    }
}

#[test]
fn written_tree_reads_back() {
    let sub = write_tree(vec![blob_entry(b"inner", b"x")]).unwrap();
    let tree = write_tree(vec![
        entry(b"40000", b"dir", raw_id(&sub.id)),
        blob_entry(b"file", b"content"),
        entry(b"100755", b"tool", raw_id(&hash_object_file(b"#!").unwrap().id)),
    ])
    .unwrap();
    let entries = read_tree(&tree.compressed).unwrap();
    let seen: Vec<(Vec<u8>, Vec<u8>)> =
        entries.iter().map(|e| (e.mode.clone(), e.name.clone())).collect();
    assert_eq!(
        seen,
        vec![
            (b"40000".to_vec(), b"dir".to_vec()),
            (b"100644".to_vec(), b"file".to_vec()),
            (b"100755".to_vec(), b"tool".to_vec()),
        ]
    );
    assert_eq!(entries[0].id, raw_id(&sub.id));
}

#[test]
fn render_steps_follow_the_modes() {
    let id: Vec<u8> = (0..20).map(|i| i * 13).collect();
    let mut payload = Vec::new();
    for (mode, name) in [
        (&b"100644"[..], &b"plain"[..]),
        (b"100755", b"tool"),
        (b"40000", b"dir"),
        (b"120000", b"link"),
    ] {
        payload.extend_from_slice(mode);
        payload.push(b' ');
        payload.extend_from_slice(name);
        payload.push(0);
        payload.extend_from_slice(&id);
    }
    let tree = encode(ObjectKind::Tree, &payload).unwrap();
    let steps = render_tree(&tree.compressed).unwrap();
    let actions: Vec<EntryAction> = steps.iter().map(|s| s.action).collect();
    assert_eq!(
        actions,
        vec![
            EntryAction::WriteFile { executable: false },
            EntryAction::WriteFile { executable: true },
            EntryAction::Descend,
            EntryAction::Skip,
        ]
    );
    assert_eq!(steps[0].name, b"plain".to_vec());
    assert_eq!(steps[2].id, hex::encode(&id).into_bytes());
    assert_eq!(steps[2].id.len(), 40);
}

#[test]
fn malformed_trees() {
    assert!(matches!(tree_entries(b"100644 a"), Err(GitError::MalformedTree)));
    assert!(matches!(tree_entries(b"100644a\0"), Err(GitError::MalformedTree)));
    assert!(matches!(tree_entries(b"100644 a\0short"), Err(GitError::MalformedTree)));
    let mut one = b"100644 a\0".to_vec();
    one.extend_from_slice(&[9u8; 20]);
    assert_eq!(tree_entries(&one).unwrap().len(), 1);
    one.push(b'x');
    assert!(matches!(tree_entries(&one), Err(GitError::MalformedTree)));
    let blob = hash_object_file(b"not a tree").unwrap();
    assert!(matches!(read_tree(&blob.compressed), Err(GitError::MalformedTree)));
    assert!(matches!(list_tree_names(b"garbage"), Err(GitError::MalformedObject)));
    assert!(matches!(render_tree(b"garbage"), Err(GitError::MalformedObject)));
}
