use minigit::commit::read_commit_tree;
use minigit::error::GitError;
use minigit::ident::hex_to_bytes;
use minigit::object::{cat_file_object, encode, get_object_path, seal_object, ObjectKind};
use minigit::pack::read_pack_response;
use minigit::refs::{build_head_file, build_ref_file, plan_fetch};
use minigit::tree::{render_tree, EntryAction};
use std::collections::HashMap;
use std::io::Write;

fn deflate(data: &[u8]) -> Vec<u8> {
    let mut encoder =
        flate2::write::ZlibEncoder::new(Vec::new(), flate2::Compression::default());
    encoder.write_all(data).unwrap();
    encoder.finish().unwrap()
}

fn record(kind: u8, payload: &[u8]) -> Vec<u8> {
    assert!(payload.len() < 16 * 128);
    let mut out = Vec::new();
    if payload.len() < 16 {
        out.push((kind << 4) | payload.len() as u8);
    } else {
        out.push(0x80 | (kind << 4) | (payload.len() & 0x0f) as u8);
        out.push((payload.len() >> 4) as u8);
    }
    out.extend_from_slice(&deflate(payload));
    out
}

#[test]
fn clone_of_one_commit_one_tree_one_blob() {
    let blob_id = "f70f10e4db19068f79bc43844b49f3eece45c4e8";
    let mut tree = b"100644 a\0".to_vec();
    tree.extend_from_slice(&hex_to_bytes(blob_id.as_bytes()).unwrap());
    let tree_object = encode(ObjectKind::Tree, &tree).unwrap();
    let tree_hex = String::from_utf8(tree_object.id.clone()).unwrap();
    let commit = format!(
        "tree {}\nauthor A <a@example.com> 1 +0000\ncommitter A <a@example.com> 1 +0000\n\none\n",
        tree_hex
    )
    .into_bytes();
    let commit_object = encode(ObjectKind::Commit, &commit).unwrap();
    let head = String::from_utf8(commit_object.id.clone()).unwrap();

    let refs = format!(
        "001e# service=git-upload-pack\n0000\
         0060{h} HEAD\0symref=HEAD:refs/heads/trunk agent=x\n\
         003f{h} refs/heads/main\n0000",
        h = head
    )
    .into_bytes();
    let plan = plan_fetch(&refs).unwrap();
    assert_eq!(plan.want, head.as_bytes().to_vec());
    assert_eq!(plan.branch, b"trunk".to_vec());

    let mut response = b"0008NAK\n".to_vec();
    response.extend_from_slice(b"PACK");
    response.extend_from_slice(&2u32.to_be_bytes());
    response.extend_from_slice(&3u32.to_be_bytes());
    response.extend_from_slice(&record(1, &commit));
    response.extend_from_slice(&record(2, &tree));
    response.extend_from_slice(&record(3, b"A\n"));
    response.extend_from_slice(&[0u8; 20]);

    let mut store: HashMap<Vec<u8>, Vec<u8>> = HashMap::new();
    for object in read_pack_response(&response).unwrap() {
        let encoded = encode(object.kind, &object.payload).unwrap();
        assert_eq!(encoded.id, object.id);
        store.insert(get_object_path(&encoded.id), encoded.compressed);
    }
    assert_eq!(store.len(), 3);

    let root = read_commit_tree(&store[&get_object_path(&plan.want)]).unwrap();
    assert_eq!(root, tree_object.id);
    let steps = render_tree(&store[&get_object_path(&root)]).unwrap();
    assert_eq!(steps.len(), 1);
    assert_eq!(steps[0].action, EntryAction::WriteFile { executable: false });
    assert_eq!(steps[0].name, b"a".to_vec());
    let file = cat_file_object(&store[&get_object_path(&steps[0].id)]).unwrap();
    assert_eq!(file, b"A\n".to_vec());

    assert_eq!(build_head_file(&plan.branch), b"ref: refs/heads/trunk\n".to_vec());
    assert_eq!(build_ref_file(&plan.want), format!("{}\n", head).into_bytes());
}

#[test]
fn stored_commit_must_be_a_commit() {
    let blob = encode(ObjectKind::Blob, b"tree 5ddb101b49ac18f7fd0b82d827a780751660407f\n").unwrap();
    assert_eq!(read_commit_tree(&blob.compressed), Err(GitError::MalformedObject));
    assert_eq!(read_commit_tree(b"junk"), Err(GitError::MalformedObject));
    let commit =
        encode(ObjectKind::Commit, b"tree 5ddb101b49ac18f7fd0b82d827a780751660407f\n").unwrap();
    assert_eq!(
        read_commit_tree(&commit.compressed),
        Ok(b"5ddb101b49ac18f7fd0b82d827a780751660407f".to_vec())
    );
}

#[test]
fn compressor_failure_is_an_io_error() {
    assert!(matches!(seal_object(b"blob 0\0".to_vec(), None), Err(GitError::Io)));
    let sealed = seal_object(b"blob 0\0".to_vec(), Some(vec![1, 2, 3])).unwrap();
    assert_eq!(sealed.id, b"e69de29bb2d1d6434b8b29ae775ad8c2e48c5391".to_vec());
    assert_eq!(sealed.compressed, vec![1, 2, 3]);
}

#[test]
fn stored_bytes_are_a_zlib_stream() {
    let object = encode(ObjectKind::Blob, b"hello\n").unwrap();
    assert_eq!(object.compressed[0], 0x78);
    assert_ne!(object.compressed, object.canonical);
    let mut decoder = flate2::read::ZlibDecoder::new(&object.compressed[..]);
    let mut raw = Vec::new();
    std::io::Read::read_to_end(&mut decoder, &mut raw).unwrap();
    assert_eq!(raw, b"blob 6\0hello\n".to_vec());
}
