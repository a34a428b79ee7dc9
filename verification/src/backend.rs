//! The three outside services the library relies on: SHA-1, hex text and
//! zlib. Each is reached through one small function whose contract is taken
//! on trust; everything else in the crate is proved from these contracts.

use vstd::prelude::*;

verus! {

/// The SHA-1 digest of a byte string, as the `sha1` crate computes it.
pub uninterp spec fn sha1_digest(data: Seq<u8>) -> Seq<u8>;

/// What `flate2` makes of a byte string at its default compression level:
/// the zlib stream, or `None` where the encoder reports a failure.
pub uninterp spec fn zlib_compressed(data: Seq<u8>) -> Option<Seq<u8>>;

/// What `flate2` recovers from a buffer that starts with a zlib stream: the
/// inflated bytes and the number of input bytes that the stream occupied;
/// `None` where the buffer does not start with a complete, valid stream.
pub uninterp spec fn zlib_inflated(data: Seq<u8>) -> Option<(Seq<u8>, int)>;

/// The lowercase hexadecimal digit for a value below sixteen.
pub open spec fn hex_digit(nibble: u8) -> u8 {
    if nibble < 10 {
        (0x30 + nibble) as u8
    } else {
        (0x61 + (nibble - 10)) as u8
    }
}

/// Lowercase hexadecimal text of a byte string: two digits per byte, the
/// high nibble first.
pub open spec fn hex_text(data: Seq<u8>) -> Seq<u8> {
    Seq::new(
        2 * data.len(),
        |i: int| if i % 2 == 0 { hex_digit(data[i / 2] / 16) } else { hex_digit(data[i / 2] % 16) },
    )
}

/// Calls `Digest::digest` of the `sha1` crate for `Sha1`. Trusted: the
/// result is the SHA-1 digest of `data`, which is always twenty bytes long.
#[verifier::external_body]
pub(crate) fn sha1_raw(data: &[u8]) -> (digest: Vec<u8>)
    ensures
        digest@ == sha1_digest(data@),
        digest@.len() == 20,
{
    <sha1::Sha1 as sha1::Digest>::digest(data).to_vec()
}

/// Calls `hex::encode` and hands out the bytes of the string it returns.
/// Trusted: they are the lowercase hexadecimal text of `data`, two digits
/// per byte, the high digit first.
#[verifier::external_body]
pub(crate) fn hex_encode(data: &[u8]) -> (text: Vec<u8>)
    ensures
        text@ == hex_text(data@),
{
    hex::encode(data).into_bytes()
}

/// Runs `flate2::write::ZlibEncoder` at the default level over `data`.
/// Trusted: the outcome is the named one for `data`, a stream or a failure,
/// and inflating a stream gives `data` back while consuming the whole
/// stream.
#[verifier::external_body]
pub(crate) fn zlib_compress(data: &[u8]) -> (out: Option<Vec<u8>>)
    ensures
        out matches Some(v) ==> zlib_compressed(data@) == Some(v@) && zlib_inflated(v@) == Some(
            (data@, v@.len() as int),
        ),
        out is None ==> zlib_compressed(data@) is None,
{
    let mut encoder = flate2::write::ZlibEncoder::new(Vec::new(), flate2::Compression::default());
    match std::io::Write::write_all(&mut encoder, data) {
        Ok(()) => match encoder.finish() {
            Ok(v) => Some(v),
            Err(_) => None,
        },
        Err(_) => None,
    }
}

/// Runs `flate2::read::ZlibDecoder` over `data` until the stream ends.
/// Trusted: the result is the named outcome for `data`: the inflated bytes
/// with `total_in`, the count of input bytes consumed, or `None` where the
/// decoder reports an error.
#[verifier::external_body]
pub(crate) fn zlib_inflate(data: &[u8]) -> (out: Option<(Vec<u8>, usize)>)
    ensures
        out matches Some((bytes, used)) ==> zlib_inflated(data@) == Some((bytes@, used as int)),
        out is None ==> zlib_inflated(data@) is None,
{
    let mut decoder = flate2::read::ZlibDecoder::new(data);
    let mut bytes = Vec::new();
    match std::io::Read::read_to_end(&mut decoder, &mut bytes) {
        Ok(_) => Some((bytes, decoder.total_in() as usize)),
        Err(_) => None,
    }
}

} // verus!
