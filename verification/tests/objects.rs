use minigit::error::GitError;
use minigit::object::{
    calculate_sha1, cat_file_object, create_git_object, decode, encode, get_object_path,
    hash_object_file, parse_git_object, ObjectKind,
};

#[test]
fn empty_blob_identity() {
    let object = hash_object_file(b"").unwrap();
    assert_eq!(object.id, b"e69de29bb2d1d6434b8b29ae775ad8c2e48c5391".to_vec());
    assert_eq!(object.canonical, b"blob 0\0".to_vec());
}

#[test]
fn empty_tree_identity() {
    let object = encode(ObjectKind::Tree, b"").unwrap();
    assert_eq!(object.id, b"4b825dc642cb6eb9a060e54bf8d69288fbee4904".to_vec());
}

#[test]
fn hello_blob_identity_and_path() {
    let object = hash_object_file(b"hello\n").unwrap();
    assert_eq!(object.id, b"ce013625030ba8dba906f756967f9e9ca394464a".to_vec());
    assert_eq!(object.canonical, b"blob 6\0hello\n".to_vec());
    assert_eq!(
        get_object_path(&object.id),
        b".git/objects/ce/013625030ba8dba906f756967f9e9ca394464a".to_vec()
    );
    assert_ne!(object.compressed, object.canonical);
}

#[test]
fn cat_file_round_trip() {
    let object = hash_object_file(b"hello\n").unwrap();
    assert_eq!(cat_file_object(&object.compressed), Ok(b"hello\n".to_vec()));
}

#[test]
fn decode_inverts_encode_for_each_kind() {
    let payload = b"some \0 bytes\nwith a zero".to_vec();
    for kind in [ObjectKind::Blob, ObjectKind::Tree, ObjectKind::Commit, ObjectKind::Tag] {
        let object = encode(kind, &payload).unwrap();
        assert_eq!(decode(&object.compressed), Ok((kind, payload.clone())));
    }
}

#[test]
fn encoding_known_objects_succeeds() {
    assert!(hash_object_file(b"").is_ok());
    assert!(hash_object_file(b"hello\n").is_ok());
    assert!(encode(ObjectKind::Tree, b"").is_ok());
    assert!(encode(ObjectKind::Blob, &vec![0u8; 100_000]).is_ok());
}

#[test]
fn identity_is_stable() {
    let first = encode(ObjectKind::Blob, b"abc").unwrap();
    let second = encode(ObjectKind::Blob, b"abc").unwrap();
    assert_eq!(first.id, second.id);
    assert_eq!(first.compressed, second.compressed);
    assert_eq!(first.id.len(), 40);
}

#[test]
fn canonical_form_has_decimal_length() {
    let payload = vec![7u8; 1234];
    let raw = create_git_object(ObjectKind::Commit, &payload);
    assert_eq!(&raw[..12], b"commit 1234\0");
    assert_eq!(&raw[12..], &payload[..]);
}

#[test]
fn sha1_of_known_text() {
    assert_eq!(calculate_sha1(b"abc"), b"a9993e364706816aba3e25717850c26c9cd0d89d".to_vec());
}

#[test]
fn malformed_objects_are_rejected() {
    assert_eq!(parse_git_object(b"blob 3abc"), Err(GitError::MalformedObject));
    assert_eq!(parse_git_object(b"blob 4\0abc"), Err(GitError::MalformedObject));
    assert_eq!(parse_git_object(b"blob 03\0abc"), Err(GitError::MalformedObject));
    assert_eq!(parse_git_object(b"blub 3\0abc"), Err(GitError::MalformedObject));
    assert_eq!(parse_git_object(b"blob3\0abc"), Err(GitError::MalformedObject));
    assert_eq!(parse_git_object(b""), Err(GitError::MalformedObject));
    assert_eq!(parse_git_object(b"tag 3\0abc"), Ok((ObjectKind::Tag, b"abc".to_vec())));
    assert_eq!(decode(b"not a zlib stream"), Err(GitError::MalformedObject));
}
