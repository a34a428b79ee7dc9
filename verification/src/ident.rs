//! Identities as text and as raw bytes: hexadecimal text is read into
//! bytes here, and written by the `hex` crate.

use vstd::prelude::*;
use crate::backend::{hex_digit, hex_encode, hex_text};

verus! {

/// The value of an ASCII hexadecimal digit, in either case.
pub open spec fn digit_value(digit: u8) -> Option<int> {
    if 0x30 <= digit <= 0x39 {
        Some(digit - 0x30)
    } else if 0x61 <= digit <= 0x66 {
        Some(digit - 0x61 + 10)
    } else if 0x41 <= digit <= 0x46 {
        Some(digit - 0x41 + 10)
    } else {
        None
    }
}

/// Hexadecimal text that stands for whole bytes: an even number of
/// hexadecimal digits.
pub open spec fn is_hex_text(text: Seq<u8>) -> bool {
    text.len() % 2 == 0 && forall|i: int| 0 <= i < text.len() ==> digit_value(#[trigger] text[i])
        is Some
}

/// The bytes that hexadecimal text stands for: each pair of digits is one
/// byte, the high digit first.
pub open spec fn hex_value(text: Seq<u8>) -> Seq<u8> {
    Seq::new(
        text.len() / 2,
        |i: int|
            (16 * digit_value(text[2 * i]).unwrap() + digit_value(text[2 * i + 1]).unwrap()) as u8,
    )
}

/// The value of one hexadecimal digit.
pub fn read_digit(digit: u8) -> (value: Option<u8>)
    ensures
        value matches Some(v) ==> digit_value(digit) == Some(v as int) && v < 16,
        value is None ==> digit_value(digit) is None,
{
    if 0x30 <= digit && digit <= 0x39 {
        Some(digit - 0x30)
    } else if 0x61 <= digit && digit <= 0x66 {
        Some(digit - 0x61 + 10)
    } else if 0x41 <= digit && digit <= 0x46 {
        Some(digit - 0x41 + 10)
    } else {
        None
    }
}

/// Reads hexadecimal text into bytes: the bytes where the text is an even
/// number of hexadecimal digits, `None` for any other text.
pub fn hex_to_bytes(text: &[u8]) -> (r: Option<Vec<u8>>)
    ensures
        is_hex_text(text@) ==> (r matches Some(bytes) && bytes@ == hex_value(text@)),
        !is_hex_text(text@) ==> r is None,
{
    if text.len() % 2 != 0 {
        return None;
    }
    let count: usize = text.len() / 2;
    let mut bytes: Vec<u8> = Vec::new();
    let mut i: usize = 0;
    while i < count
        invariant
            0 <= i <= count,
            text@.len() == 2 * count,
            bytes@.len() == i,
            forall|j: int| 0 <= j < 2 * i ==> digit_value(#[trigger] text@[j]) is Some,
            forall|j: int| 0 <= j < i ==> #[trigger] bytes@[j] == hex_value(text@)[j],
        decreases count - i,
    {
        let high: u8 = match read_digit(text[2 * i]) {
            None => { return None; },
            Some(v) => v,
        };
        let low: u8 = match read_digit(text[2 * i + 1]) {
            None => { return None; },
            Some(v) => v,
        };
        bytes.push(16 * high + low);
        i += 1;
    }
    assert(bytes@ =~= hex_value(text@));
    Some(bytes)
}

/// Writes bytes as lowercase hexadecimal text.
pub fn bytes_to_hex(bytes: &[u8]) -> (text: Vec<u8>)
    ensures
        text@ == hex_text(bytes@),
{
    hex_encode(bytes)
}

/// Reading the hexadecimal text of some bytes gives the bytes back.
pub proof fn lemma_hex_reads_back(bytes: Seq<u8>)
    ensures
        is_hex_text(hex_text(bytes)),
        hex_value(hex_text(bytes)) == bytes,
{
    let text = hex_text(bytes);
    assert forall|i: int| 0 <= i < text.len() implies digit_value(#[trigger] text[i]) is Some by {
        let byte = bytes[i / 2];
        assert(byte / 16 < 16 && byte % 16 < 16);
    }
    assert forall|i: int| 0 <= i < bytes.len() implies hex_value(text)[i] == bytes[i] by {
        let byte = bytes[i];
        assert(text[2 * i] == hex_digit(byte / 16));
        assert(text[2 * i + 1] == hex_digit(byte % 16));
        assert(digit_value(hex_digit(byte / 16)) == Some((byte / 16) as int));
        assert(digit_value(hex_digit(byte % 16)) == Some((byte % 16) as int));
    }
    assert(hex_value(text) =~= bytes);
}

} // verus!
