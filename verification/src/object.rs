//! Objects: their canonical form `<kind> <len>\0<payload>`, their identity
//! and their compressed form.

use vstd::prelude::*;
use crate::backend::{hex_encode, hex_text, sha1_digest, sha1_raw, zlib_compress, zlib_compressed, zlib_inflate, zlib_inflated};
use crate::bytes::{append_all, append_range, find_byte, range_equals};
use crate::error::GitError;

verus! {

/// The four kinds of object.
#[derive(Clone, Copy, Debug, PartialEq, Eq, Structural)]
pub enum ObjectKind {
    Blob,
    Tree,
    Commit,
    Tag,
}

/// The name of a kind as it stands in a header: `blob`, `tree`, `commit`
/// or `tag`, in ASCII.
pub open spec fn kind_name(kind: ObjectKind) -> Seq<u8> {
    match kind {
        ObjectKind::Blob => seq![0x62u8, 0x6cu8, 0x6fu8, 0x62u8],
        ObjectKind::Tree => seq![0x74u8, 0x72u8, 0x65u8, 0x65u8],
        ObjectKind::Commit => seq![0x63u8, 0x6fu8, 0x6du8, 0x6du8, 0x69u8, 0x74u8],
        ObjectKind::Tag => seq![0x74u8, 0x61u8, 0x67u8],
    }
}

/// The decimal digits of `n` in ASCII, without leading zeros.
pub open spec fn decimal(n: nat) -> Seq<u8>
    decreases n,
{
    if n < 10 {
        seq![(0x30 + n) as u8]
    } else {
        decimal(n / 10).push((0x30 + n % 10) as u8)
    }
}

/// The header of an object of the given kind and payload length, up to
/// and including the zero byte that ends it.
pub open spec fn header(kind: ObjectKind, len: nat) -> Seq<u8> {
    kind_name(kind) + seq![0x20u8] + decimal(len) + seq![0x00u8]
}

/// The canonical form of an object: header, then payload.
pub open spec fn canonical(kind: ObjectKind, payload: Seq<u8>) -> Seq<u8> {
    header(kind, payload.len()) + payload
}

/// The object that `raw` is the canonical form of, if it is one.
pub open spec fn parsed(raw: Seq<u8>) -> Option<(ObjectKind, Seq<u8>)> {
    if exists|kind: ObjectKind, payload: Seq<u8>| #[trigger] canonical(kind, payload) == raw {
        Some(choose|pair: (ObjectKind, Seq<u8>)| #[trigger] canonical(pair.0, pair.1) == raw)
    } else {
        None
    }
}

/// The object that a compressed buffer holds: the buffer is inflated and
/// the result read as a canonical form.
pub open spec fn decoded(compressed: Seq<u8>) -> Option<(ObjectKind, Seq<u8>)> {
    match zlib_inflated(compressed) {
        None => None,
        Some((raw, _)) => parsed(raw),
    }
}

/// The identity of a canonical form: forty lowercase hexadecimal digits of
/// its SHA-1 digest.
pub open spec fn identity(raw: Seq<u8>) -> Seq<u8> {
    hex_text(sha1_digest(raw))
}

/// An object ready to be stored.
pub struct EncodedObject {
    /// The identity, as forty ASCII hexadecimal digits.
    pub id: Vec<u8>,
    /// The canonical form.
    pub canonical: Vec<u8>,
    /// The canonical form as a zlib stream: the bytes to store.
    pub compressed: Vec<u8>,
}

impl EncodedObject {
    /// Whether this is the encoding of the object `(kind, payload)`.
    pub open spec fn encodes(&self, kind: ObjectKind, payload: Seq<u8>) -> bool {
        &&& self.canonical@ == canonical(kind, payload)
        &&& self.id@ == identity(self.canonical@)
        &&& self.id@.len() == 40
        &&& zlib_compressed(self.canonical@) == Some(self.compressed@)
        &&& zlib_inflated(self.compressed@) == Some(
            (self.canonical@, self.compressed@.len() as int),
        )
    }
}

/// What encoding `(kind, payload)` may return: the encoding, or `Io`
/// where the compressor fails on the canonical form.
pub open spec fn encoded(
    kind: ObjectKind,
    payload: Seq<u8>,
    r: Result<EncodedObject, GitError>,
) -> bool {
    match r {
        Ok(object) => object.encodes(kind, payload),
        Err(e) => e == GitError::Io && zlib_compressed(canonical(kind, payload)) is None,
    }
}

/// Every byte of a decimal number is an ASCII digit.
pub proof fn lemma_decimal_digits(n: nat)
    ensures
        decimal(n).len() >= 1,
        forall|i: int| 0 <= i < decimal(n).len() ==> 0x30 <= #[trigger] decimal(n)[i] <= 0x39,
    decreases n,
{
    if n >= 10 {
        lemma_decimal_digits(n / 10);
    }
}

/// The only zero byte of a header is its last byte.
pub proof fn lemma_header_zero(kind: ObjectKind, len: nat)
    ensures
        header(kind, len).len() >= 6,
        header(kind, len)[header(kind, len).len() - 1] == 0,
        forall|i: int| 0 <= i < header(kind, len).len() - 1 ==> #[trigger] header(kind, len)[i] != 0,
{
    lemma_decimal_digits(len);
    let name = kind_name(kind);
    let h = header(kind, len);
    assert forall|i: int| 0 <= i < h.len() - 1 implies #[trigger] h[i] != 0 by {
        if i < name.len() {
            assert(h[i] == name[i]);
        } else if i == name.len() {
            assert(h[i] == 0x20);
        } else {
            assert(h[i] == decimal(len)[i - name.len() - 1]);
        }
    }
}

/// Two objects with the same canonical form are the same object.
pub proof fn lemma_canonical_injective(k1: ObjectKind, p1: Seq<u8>, k2: ObjectKind, p2: Seq<u8>)
    requires
        canonical(k1, p1) == canonical(k2, p2),
    ensures
        k1 == k2,
        p1 == p2,
{
    let c = canonical(k1, p1);
    let h1 = header(k1, p1.len());
    let h2 = header(k2, p2.len());
    lemma_header_zero(k1, p1.len());
    lemma_header_zero(k2, p2.len());
    assert(forall|i: int| 0 <= i < h1.len() ==> c[i] == h1[i]);
    assert(forall|i: int| 0 <= i < h2.len() ==> canonical(k2, p2)[i] == h2[i]);
    if h1.len() < h2.len() {
        assert(c[h1.len() - 1] == h1[h1.len() - 1]);
        assert(c[h1.len() - 1] == h2[h1.len() - 1]);
    } else if h2.len() < h1.len() {
        assert(c[h2.len() - 1] == h2[h2.len() - 1]);
        assert(c[h2.len() - 1] == h1[h2.len() - 1]);
    }
    assert(h1.len() == h2.len());
    assert(p1 =~= c.subrange(h1.len() as int, c.len() as int));
    assert(p2 =~= c.subrange(h2.len() as int, c.len() as int));
    assert(c[0] == h1[0] && c[1] == h1[1]);
    assert(c[0] == h2[0] && c[1] == h2[1]);
    assert(h1[0] == kind_name(k1)[0] && h1[1] == kind_name(k1)[1]);
    assert(h2[0] == kind_name(k2)[0] && h2[1] == kind_name(k2)[1]);
}

/// The canonical form of an object reads back as that object.
pub proof fn lemma_parsed_canonical(kind: ObjectKind, payload: Seq<u8>)
    ensures
        parsed(canonical(kind, payload)) == Some((kind, payload)),
{
    let raw = canonical(kind, payload);
    let pair = choose|pair: (ObjectKind, Seq<u8>)| #[trigger] canonical(pair.0, pair.1) == raw;
    assert(canonical((kind, payload).0, (kind, payload).1) == raw);
    lemma_canonical_injective(kind, payload, pair.0, pair.1);
}

/// Decoding what was encoded gives the object back: whatever encoding of
/// `(kind, payload)` is stored, it decodes to `(kind, payload)`.
pub proof fn lemma_decode_inverts_encode(object: EncodedObject, kind: ObjectKind, payload: Seq<u8>)
    requires
        object.encodes(kind, payload),
    ensures
        decoded(object.compressed@) == Some((kind, payload)),
{
    lemma_parsed_canonical(kind, payload);
}

/// Two encodings of the same object carry the same identity, the same
/// canonical form and the same stored bytes.
pub proof fn lemma_identity_stable(
    first: EncodedObject,
    second: EncodedObject,
    kind: ObjectKind,
    payload: Seq<u8>,
)
    requires
        first.encodes(kind, payload),
        second.encodes(kind, payload),
    ensures
        first.id@ == second.id@,
        first.canonical@ == second.canonical@,
        first.compressed@ == second.compressed@,
{
}

/// An object that was encoded once is encoded again: a second call for
/// the same object succeeds, with the same identity and the same stored
/// bytes.
pub proof fn lemma_second_encoding_agrees(
    first: EncodedObject,
    second: Result<EncodedObject, GitError>,
    kind: ObjectKind,
    payload: Seq<u8>,
)
    requires
        first.encodes(kind, payload),
        encoded(kind, payload, second),
    ensures
        second matches Ok(object) && object.id@ == first.id@ && object.compressed@
            == first.compressed@,
{
}

/// The ASCII name of a kind.
pub fn kind_name_bytes(kind: ObjectKind) -> (name: Vec<u8>)
    ensures
        name@ == kind_name(kind),
{
    let name = match kind {
        ObjectKind::Blob => vec![0x62u8, 0x6cu8, 0x6fu8, 0x62u8],
        ObjectKind::Tree => vec![0x74u8, 0x72u8, 0x65u8, 0x65u8],
        ObjectKind::Commit => vec![0x63u8, 0x6fu8, 0x6du8, 0x6du8, 0x69u8, 0x74u8],
        ObjectKind::Tag => vec![0x74u8, 0x61u8, 0x67u8],
    };
    assert(name@ =~= kind_name(kind));
    name
}

/// Appends the decimal digits of `n` to `out`.
pub fn push_decimal(out: &mut Vec<u8>, n: usize)
    ensures
        final(out)@ == old(out)@ + decimal(n as nat),
    decreases n,
{
    if n >= 10 {
        push_decimal(out, n / 10);
    }
    let digit: u8 = (n % 10) as u8;
    out.push(0x30 + digit);
    assert(out@ =~= old(out)@ + decimal(n as nat));
}

/// Builds the header of an object of the given kind and payload length.
pub fn object_header(kind: ObjectKind, len: usize) -> (out: Vec<u8>)
    ensures
        out@ == header(kind, len as nat),
{
    let mut out = kind_name_bytes(kind);
    out.push(0x20);
    push_decimal(&mut out, len);
    out.push(0x00);
    assert(out@ =~= header(kind, len as nat));
    out
}

/// Builds the canonical form of an object.
pub fn create_git_object(kind: ObjectKind, content: &[u8]) -> (object: Vec<u8>)
    ensures
        object@ == canonical(kind, content@),
{
    let mut object = object_header(kind, content.len());
    append_all(&mut object, content);
    object
}

/// The identity of `data`: the SHA-1 digest as forty lowercase hexadecimal
/// digits.
pub fn calculate_sha1(data: &[u8]) -> (id: Vec<u8>)
    ensures
        id@ == identity(data@),
        id@.len() == 40,
{
    let digest = sha1_raw(data);
    hex_encode(digest.as_slice())
}

/// Completes an encoding from a canonical form and what the compressor
/// made of it: `Io` where the compressor failed.
pub fn seal_object(canonical: Vec<u8>, compressed: Option<Vec<u8>>) -> (r: Result<
    EncodedObject,
    GitError,
>)
    ensures
        compressed is None ==> r == Err::<EncodedObject, GitError>(GitError::Io),
        compressed matches Some(stream) ==> (r matches Ok(object) && object.canonical == canonical
            && object.compressed == stream && object.id@ == identity(canonical@) && object.id@.len()
            == 40),
{
    match compressed {
        None => Err(GitError::Io),
        Some(stream) => {
            let id = calculate_sha1(canonical.as_slice());
            Ok(EncodedObject { id, canonical, compressed: stream })
        },
    }
}

/// Encodes an object: canonical form, identity and compressed bytes.
/// Fails with `Io` exactly where the compressor fails on the canonical
/// form.
pub fn encode(kind: ObjectKind, payload: &[u8]) -> (r: Result<EncodedObject, GitError>)
    ensures
        encoded(kind, payload@, r),
{
    let raw = create_git_object(kind, payload);
    let compressed = zlib_compress(raw.as_slice());
    seal_object(raw, compressed)
}

/// Reads `raw` as a canonical form: the kind and the payload where it is
/// one, `MalformedObject` where it is the canonical form of no object.
pub fn parse_git_object(raw: &[u8]) -> (r: Result<(ObjectKind, Vec<u8>), GitError>)
    ensures
        r matches Ok((kind, payload)) ==> parsed(raw@) == Some((kind, payload@)) && raw@
            == canonical(kind, payload@),
        r matches Err(e) ==> e == GitError::MalformedObject && parsed(raw@) is None,
{
    let zero: usize = match find_byte(raw, 0, 0x00) {
        Some(at) => at,
        None => {
            proof {
                assert forall|kind: ObjectKind, payload: Seq<u8>| #[trigger]
                    canonical(kind, payload) != raw@ by {
                    lemma_header_zero(kind, payload.len());
                    let h = header(kind, payload.len());
                    assert(canonical(kind, payload)[h.len() - 1] == h[h.len() - 1]);
                }
            }
            return Err(GitError::MalformedObject);
        },
    };
    let len: usize = raw.len() - zero - 1;
    let kinds: [ObjectKind; 4] = [
        ObjectKind::Blob,
        ObjectKind::Tree,
        ObjectKind::Commit,
        ObjectKind::Tag,
    ];
    let mut i: usize = 0;
    while i < 4
        invariant
            0 <= i <= 4,
            zero < raw@.len() <= usize::MAX,
            len == raw@.len() - zero - 1,
            kinds@ == seq![ObjectKind::Blob, ObjectKind::Tree, ObjectKind::Commit, ObjectKind::Tag],
            forall|j: int| 0 <= j < i ==> raw@.subrange(0, zero + 1) != header(#[trigger] kinds@[j], len as nat),
        decreases 4 - i,
    {
        let kind = kinds[i];
        let head = object_header(kind, len);
        if range_equals(raw, 0, zero + 1, head.as_slice()) {
            let mut payload: Vec<u8> = Vec::new();
            append_range(&mut payload, raw, zero + 1, raw.len());
            proof {
                assert(raw@ =~= raw@.subrange(0, zero + 1) + raw@.subrange(
                    zero + 1,
                    raw@.len() as int,
                ));
                assert(payload@.len() == len);
                lemma_parsed_canonical(kind, payload@);
            }
            return Ok((kind, payload));
        }
        i += 1;
    }
    proof {
        assert forall|kind: ObjectKind, payload: Seq<u8>| #[trigger]
            canonical(kind, payload) != raw@ by {
            if canonical(kind, payload) == raw@ {
                lemma_header_zero(kind, payload.len());
                let h = header(kind, payload.len());
                assert(forall|j: int| 0 <= j < h.len() ==> raw@[j] == h[j]);
                if zero < h.len() - 1 {
                    assert(raw@[zero as int] == h[zero as int]);
                } else if zero > h.len() - 1 {
                    assert(raw@[h.len() - 1] == h[h.len() - 1]);
                }
                assert(zero == h.len() - 1);
                assert(payload.len() == len);
                assert(raw@.subrange(0, zero + 1) =~= h);
                let j: int = match kind {
                    ObjectKind::Blob => 0,
                    ObjectKind::Tree => 1,
                    ObjectKind::Commit => 2,
                    ObjectKind::Tag => 3,
                };
                assert(kinds@[j] == kind);
            }
        }
    }
    Err(GitError::MalformedObject)
}

/// Decodes a stored object: inflates it and reads the canonical form.
/// Returns the object exactly where the buffer holds one; a buffer that
/// does not inflate, or inflates to something else, is `MalformedObject`.
pub fn decode(compressed: &[u8]) -> (r: Result<(ObjectKind, Vec<u8>), GitError>)
    ensures
        r matches Ok((kind, payload)) ==> decoded(compressed@) == Some((kind, payload@)),
        r matches Err(e) ==> e == GitError::MalformedObject && decoded(compressed@) is None,
{
    match zlib_inflate(compressed) {
        None => Err(GitError::MalformedObject),
        Some((raw, _)) => parse_git_object(raw.as_slice()),
    }
}

/// The bytes `.git/objects/`.
pub open spec fn objects_prefix() -> Seq<u8> {
    seq![0x2eu8, 0x67u8, 0x69u8, 0x74u8, 0x2fu8, 0x6fu8, 0x62u8, 0x6au8, 0x65u8, 0x63u8, 0x74u8, 0x73u8, 0x2fu8]
}

/// Where the object with identity `hash` is stored:
/// `.git/objects/<first two digits>/<the rest>`.
pub open spec fn object_path(hash: Seq<u8>) -> Seq<u8> {
    objects_prefix() + hash.subrange(0, 2) + seq![0x2fu8] + hash.subrange(2, hash.len() as int)
}

/// The path of the file that stores the object with identity `hash`.
pub fn get_object_path(hash: &[u8]) -> (path: Vec<u8>)
    requires
        hash@.len() >= 2,
    ensures
        path@ == object_path(hash@),
{
    let mut path: Vec<u8> = vec![0x2eu8, 0x67u8, 0x69u8, 0x74u8, 0x2fu8, 0x6fu8, 0x62u8, 0x6au8, 0x65u8, 0x63u8, 0x74u8, 0x73u8, 0x2fu8];
    assert(path@ =~= objects_prefix());
    append_range(&mut path, hash, 0, 2);
    path.push(0x2f);
    append_range(&mut path, hash, 2, hash.len());
    path
}

/// Encodes the contents of a file as a blob.
pub fn hash_object_file(file_data: &[u8]) -> (r: Result<EncodedObject, GitError>)
    ensures
        encoded(ObjectKind::Blob, file_data@, r),
{
    encode(ObjectKind::Blob, file_data)
}

/// The payload of a stored object, whatever its kind.
pub fn cat_file_object(compressed: &[u8]) -> (r: Result<Vec<u8>, GitError>)
    ensures
        r matches Ok(payload) ==> (decoded(compressed@) matches Some((_, p)) && p == payload@),
        r matches Err(e) ==> e == GitError::MalformedObject && decoded(compressed@) is None,
{
    match decode(compressed) {
        Ok((_, payload)) => Ok(payload),
        Err(e) => Err(e),
    }
}

} // verus!
