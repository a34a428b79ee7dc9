use minigit::delta::{apply_delta, parse_size};
use minigit::error::GitError;

#[test]
fn copy_then_insert() {
    let delta = [8u8, 6, 0x90, 0x02, 0x03, 0x03, b'X', b'Y', b'Z'];
    // 0x90 selects only a size byte; the offset byte needs bit 0 as well.
    let with_offset = [8u8, 6, 0x91, 0x02, 0x03, 0x03, b'X', b'Y', b'Z'];
    assert_eq!(apply_delta(b"ABCDEFGH", &with_offset), Ok(b"CDEXYZ".to_vec()));
    assert_eq!(apply_delta(b"ABCDEFGH", &delta), Err(GitError::MalformedDelta));
}

#[test]
fn copy_without_offset_bytes_starts_at_zero() {
    let delta = [8u8, 5, 0x90, 0x02, 0x03, b'X', b'Y', b'Z'];
    assert_eq!(apply_delta(b"ABCDEFGH", &delta), Ok(b"ABXYZ".to_vec()));
}

#[test]
fn zero_size_field_copies_65536_bytes() {
    let base: Vec<u8> = (0..70000u32).map(|i| (i % 251) as u8).collect();
    // target size 65536 = 0x80 0x80 0x04 as a varint
    let delta = [0xf0u8, 0xa2, 0x04, 0x80, 0x80, 0x04, 0x81, 0x05];
    let out = apply_delta(&base, &delta).unwrap();
    assert_eq!(out.len(), 0x10000);
    assert_eq!(&out[..], &base[5..5 + 0x10000]);
    let explicit_zero = [0xf0u8, 0xa2, 0x04, 0x80, 0x80, 0x04, 0x91, 0x05, 0x00];
    assert_eq!(apply_delta(&base, &explicit_zero), Ok(out));
}

#[test]
fn output_has_declared_size() {
    let delta = [3u8, 4, 0x02, b'h', b'i', 0x90, 0x02];
    let out = apply_delta(b"abc", &delta).unwrap();
    assert_eq!(out, b"hiab".to_vec());
    assert_eq!(parse_size(&delta[1..]), Some((out.len() as u64, 1)));
}

#[test]
fn declared_sizes_are_not_compared() {
    let delta = [0x08u8, 0x05, 0x03, b'X', b'Y', b'Z'];
    assert_eq!(apply_delta(b"ABCDEFGH", &delta), Ok(b"XYZ".to_vec()));
    let other_base = [3u8, 5, 0x02, b'h', b'i', 0x90, 0x02];
    assert_eq!(apply_delta(b"abcdef", &other_base), Ok(b"hiab".to_vec()));
}

#[test]
fn malformed_deltas() {
    assert_eq!(apply_delta(b"abc", &[3, 1, 0x00]), Err(GitError::MalformedDelta));
    assert_eq!(apply_delta(b"abc", &[3, 4, 0x91, 0x00, 0x04]), Err(GitError::MalformedDelta));
    assert_eq!(apply_delta(b"abc", &[3, 2, 0x02, b'x']), Err(GitError::MalformedDelta));
    assert_eq!(apply_delta(b"abc", &[3, 2, 0x91, 0x00]), Err(GitError::MalformedDelta));
    assert_eq!(apply_delta(b"abc", &[3]), Err(GitError::MalformedDelta));
    assert_eq!(apply_delta(b"abc", &[0x83]), Err(GitError::MalformedDelta));
    assert_eq!(apply_delta(b"abc", &[3, 0]), Ok(Vec::new()));
}

#[test]
fn size_varints() {
    assert_eq!(parse_size(&[0x05, 0xff]), Some((5, 1)));
    assert_eq!(parse_size(&[0x80, 0x01]), Some((128, 2)));
    assert_eq!(parse_size(&[0xe5, 0x8e, 0x26]), Some((624485, 3)));
    assert_eq!(parse_size(&[0x80]), None);
    assert_eq!(parse_size(&[]), None);
    assert_eq!(parse_size(&[0x80; 10]), None);
    let mut nine = vec![0xffu8; 8];
    nine.push(0x7f);
    assert_eq!(parse_size(&nine), Some((0x7fff_ffff_ffff_ffff, 9)));
}
