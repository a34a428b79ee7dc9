use minigit::error::GitError;
use minigit::object::ObjectKind;
use minigit::pack::{
    find_pack_start, parse_pack, read_pack_response, read_record_header, skip_offset,
};
use std::io::Write;

fn deflate(data: &[u8]) -> Vec<u8> {
    let mut encoder =
        flate2::write::ZlibEncoder::new(Vec::new(), flate2::Compression::default());
    encoder.write_all(data).unwrap();
    encoder.finish().unwrap()
}

fn record_header(kind: u8, size: usize) -> Vec<u8> {
    let mut out = Vec::new();
    let mut first = (kind << 4) | (size & 0x0f) as u8;
    let mut rest = size >> 4;
    if rest > 0 {
        first |= 0x80;
    }
    out.push(first);
    while rest > 0 {
        let mut byte = (rest & 0x7f) as u8;
        rest >>= 7;
        if rest > 0 {
            byte |= 0x80;
        }
        out.push(byte);
    }
    out
}

fn plain(kind: u8, payload: &[u8]) -> Vec<u8> {
    let mut out = record_header(kind, payload.len());
    out.extend_from_slice(&deflate(payload));
    out
}

fn ref_delta(base_hex: &str, delta: &[u8]) -> Vec<u8> {
    let mut out = record_header(7, delta.len());
    out.extend_from_slice(&hex::decode(base_hex).unwrap());
    out.extend_from_slice(&deflate(delta));
    out
}

fn pack(count: u32, records: &[Vec<u8>]) -> Vec<u8> {
    let mut out = b"PACK".to_vec();
    out.extend_from_slice(&2u32.to_be_bytes());
    out.extend_from_slice(&count.to_be_bytes());
    for record in records {
        out.extend_from_slice(record);
    }
    out.extend_from_slice(&[0u8; 20]);
    out
}

const A_BLOB: &str = "f70f10e4db19068f79bc43844b49f3eece45c4e8";
const TREE: &str = "5ddb101b49ac18f7fd0b82d827a780751660407f";
const BASE: &str = "3ede3e6541fe203ceb6ac2568a9cd62aeb69a7e9";
const TARGET: &str = "860d0cf9a5d404c2de238fc483a0ccadf111d901";

#[test]
fn commit_tree_and_blob() {
    let commit = format!("tree {}\nauthor a\ncommitter c\n\nm\n", TREE).into_bytes();
    let mut tree = b"100644 a\0".to_vec();
    tree.extend_from_slice(&hex::decode(A_BLOB).unwrap());
    let data = pack(3, &[plain(1, &commit), plain(2, &tree), plain(3, b"A\n")]);
    let objects = parse_pack(&data).unwrap();
    assert_eq!(objects.len(), 3);
    assert_eq!(objects[0].kind, ObjectKind::Commit);
    assert_eq!(objects[0].payload, commit);
    assert_eq!(objects[1].kind, ObjectKind::Tree);
    assert_eq!(objects[1].payload, tree);
    assert_eq!(objects[2].kind, ObjectKind::Blob);
    assert_eq!(objects[2].payload, b"A\n".to_vec());
    assert_eq!(objects[2].id, A_BLOB.as_bytes().to_vec());
}

#[test]
fn tag_and_long_size_header() {
    let big = vec![b'x'; 5000];
    let data = pack(2, &[plain(4, b"tag body"), plain(3, &big)]);
    let objects = parse_pack(&data).unwrap();
    assert_eq!(objects[0].kind, ObjectKind::Tag);
    assert_eq!(objects[1].payload, big);
    let header = record_header(3, 5000);
    assert_eq!(read_record_header(&header, 0), Some((3, 5000, header.len())));
    assert_eq!(read_record_header(&[0x95], 0), None);
    assert_eq!(read_record_header(&[0x35], 0), Some((3, 5, 1)));
    assert_eq!(read_record_header(&[0x35], 1), None);
}

#[test]
fn delta_against_an_earlier_object() {
    let delta = [8u8, 6, 0x91, 0x02, 0x03, 0x03, b'X', b'Y', b'Z'];
    let data = pack(2, &[plain(3, b"ABCDEFGH"), ref_delta(BASE, &delta)]);
    let objects = parse_pack(&data).unwrap();
    assert_eq!(objects.len(), 2);
    assert_eq!(objects[1].kind, ObjectKind::Blob);
    assert_eq!(objects[1].payload, b"CDEXYZ".to_vec());
    assert_eq!(objects[1].id, TARGET.as_bytes().to_vec());
}

#[test]
fn delta_on_a_delta_result() {
    let first = [8u8, 6, 0x91, 0x02, 0x03, 0x03, b'X', b'Y', b'Z'];
    let second = [6u8, 6, 0x91, 0x03, 0x03, 0x90, 0x03];
    let data =
        pack(3, &[plain(2, b"ABCDEFGH"), ref_delta(
            "d0cb1b5b6e1bd1a6a1a8e3d2bd702f9c2cb0e4b0",
            &first,
        ), ref_delta(TARGET, &second)]);
    // The first delta names a base that is not in the pack.
    assert!(matches!(parse_pack(&data), Err(GitError::NotFound)));

    let tree_base = minigit::object::encode(ObjectKind::Blob, b"ABCDEFGH").unwrap();
    let base_hex = String::from_utf8(tree_base.id).unwrap();
    let data = pack(
        3,
        &[plain(3, b"ABCDEFGH"), ref_delta(&base_hex, &first), ref_delta(TARGET, &second)],
    );
    let objects = parse_pack(&data).unwrap();
    assert_eq!(objects.len(), 3);
    assert_eq!(objects[1].payload, b"CDEXYZ".to_vec());
    assert_eq!(objects[2].payload, b"XYZCDE".to_vec());
    assert_eq!(objects[2].kind, ObjectKind::Blob);
    assert_eq!(objects[2].id, b"3c9defc7861cd0af3419700d022577f27aab710c".to_vec());
}

#[test]
fn delta_before_its_base_is_reported() {
    let delta = [8u8, 6, 0x91, 0x02, 0x03, 0x03, b'X', b'Y', b'Z'];
    let data = pack(2, &[ref_delta(BASE, &delta), plain(3, b"ABCDEFGH")]);
    assert!(matches!(parse_pack(&data), Err(GitError::NotFound)));
}

#[test]
fn delta_that_does_not_apply() {
    let delta = [8u8, 6, 0x00];
    let data = pack(2, &[plain(3, b"ABCDEFGH"), ref_delta(BASE, &delta)]);
    assert!(matches!(parse_pack(&data), Err(GitError::MalformedDelta)));
}

#[test]
fn offset_delta_is_passed_over() {
    let mut ofs = record_header(6, 4);
    ofs.extend_from_slice(&[0x85, 0x02]);
    ofs.extend_from_slice(&deflate(b"\x05rest"));
    let data = pack(3, &[plain(3, b"one"), ofs, plain(3, b"two")]);
    let objects = parse_pack(&data).unwrap();
    assert_eq!(objects.len(), 2);
    assert_eq!(objects[0].payload, b"one".to_vec());
    assert_eq!(objects[1].payload, b"two".to_vec());
}

#[test]
fn base_offsets() {
    assert_eq!(skip_offset(&[0x05, 0x78], 0), Some(1));
    assert_eq!(skip_offset(&[0x85, 0x82, 0x01, 0x78], 0), Some(3));
    assert_eq!(skip_offset(&[0x85, 0x82], 0), None);
    assert_eq!(skip_offset(&[0x05], 1), None);
}

#[test]
fn structural_errors() {
    assert!(matches!(parse_pack(b"PACK"), Err(GitError::MalformedPack)));
    let mut bad_magic = pack(0, &[]);
    bad_magic[0] = b'p';
    assert!(matches!(parse_pack(&bad_magic), Err(GitError::MalformedPack)));
    let mut bad_version = pack(0, &[]);
    bad_version[7] = 3;
    assert!(matches!(parse_pack(&bad_version), Err(GitError::MalformedPack)));
    for kind in [0u8, 5] {
        let data = pack(1, &[plain(kind, b"x")]);
        assert!(matches!(parse_pack(&data), Err(GitError::MalformedPack)));
    }
    let mut cut = b"PACK".to_vec();
    cut.extend_from_slice(&2u32.to_be_bytes());
    cut.extend_from_slice(&2u32.to_be_bytes());
    cut.extend_from_slice(&plain(3, b"only one"));
    assert!(matches!(parse_pack(&cut), Err(GitError::MalformedPack)));
    let mut not_zlib = b"PACK".to_vec();
    not_zlib.extend_from_slice(&2u32.to_be_bytes());
    not_zlib.extend_from_slice(&1u32.to_be_bytes());
    not_zlib.extend_from_slice(&[0x33, 0xff, 0xff, 0xff, 0xff]);
    assert!(matches!(parse_pack(&not_zlib), Err(GitError::MalformedPack)));
    let mut short_base = b"PACK".to_vec();
    short_base.extend_from_slice(&2u32.to_be_bytes());
    short_base.extend_from_slice(&1u32.to_be_bytes());
    short_base.extend_from_slice(&[0x73, 1, 2, 3]);
    assert!(matches!(parse_pack(&short_base), Err(GitError::MalformedPack)));
    let mut open_offset = b"PACK".to_vec();
    open_offset.extend_from_slice(&2u32.to_be_bytes());
    open_offset.extend_from_slice(&1u32.to_be_bytes());
    open_offset.extend_from_slice(&[0x63, 0x85, 0x82]);
    assert!(matches!(parse_pack(&open_offset), Err(GitError::MalformedPack)));
    assert_eq!(parse_pack(&pack(0, &[])).unwrap().len(), 0);
}

#[test]
fn response_with_leading_lines() {
    let mut response = b"0008NAK\n".to_vec();
    response.extend_from_slice(&pack(1, &[plain(3, b"A\n")]));
    assert_eq!(find_pack_start(&response), Some(8));
    let objects = read_pack_response(&response).unwrap();
    assert_eq!(objects.len(), 1);
    assert_eq!(objects[0].id, A_BLOB.as_bytes().to_vec());
}

#[test]
fn empty_and_packless_responses() {
    assert_eq!(read_pack_response(b"").unwrap().len(), 0);
    assert!(matches!(read_pack_response(b"0008NAK\n"), Err(GitError::Protocol)));
    assert!(matches!(read_pack_response(b"PAC"), Err(GitError::Protocol)));
    assert_eq!(find_pack_start(b"xxPACPACK"), Some(5));
    assert_eq!(find_pack_start(b"PAC"), None);
}
