use minigit::ident::{bytes_to_hex, hex_to_bytes, read_digit};

#[test]
fn hex_text_to_bytes() {
    assert_eq!(hex_to_bytes(b"0102030f10"), Some(vec![1, 2, 3, 15, 16]));
    assert_eq!(hex_to_bytes(b"FFa0"), Some(vec![255, 160]));
    assert_eq!(hex_to_bytes(b""), Some(Vec::new()));
}

#[test]
fn text_that_is_not_hex() {
    assert_eq!(hex_to_bytes(b"abc"), None);
    assert_eq!(hex_to_bytes(b"0g"), None);
    assert_eq!(hex_to_bytes(b"+f"), None);
    assert_eq!(hex_to_bytes(b"0 "), None);
}

#[test]
fn bytes_to_hex_text() {
    assert_eq!(bytes_to_hex(&[0x00, 0x9a, 0xff, 0x10]), b"009aff10".to_vec());
    assert_eq!(bytes_to_hex(&[]), Vec::<u8>::new());
}

#[test]
fn hex_reads_back() {
    let bytes: Vec<u8> = (0..=255).collect();
    assert_eq!(hex_to_bytes(&bytes_to_hex(&bytes)), Some(bytes));
}

#[test]
fn digits() {
    assert_eq!(read_digit(b'0'), Some(0));
    assert_eq!(read_digit(b'9'), Some(9));
    assert_eq!(read_digit(b'a'), Some(10));
    assert_eq!(read_digit(b'F'), Some(15));
    assert_eq!(read_digit(b'g'), None);
    assert_eq!(read_digit(b'/'), None);
}
