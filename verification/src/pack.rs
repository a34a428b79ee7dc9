//! Packfiles: the twelve-byte header, then one record per object, each a
//! type-and-size header followed by a zlib stream. Deltas against an
//! earlier object of the pack are rebuilt on the way.

use vstd::prelude::*;
use vstd::slice::slice_subrange;
use crate::backend::{hex_encode, hex_text, zlib_inflate, zlib_inflated};
use crate::bytes::{find_pattern, occurrence, range_equals};
use crate::delta::{apply_delta, delta_target, read_varint_from, varint_from};
use crate::error::GitError;
use crate::object::{calculate_sha1, canonical, create_git_object, identity, ObjectKind};

verus! {

/// An object taken out of a pack.
pub struct PackedObject {
    pub kind: ObjectKind,
    /// The identity, as forty ASCII hexadecimal digits.
    pub id: Vec<u8>,
    pub payload: Vec<u8>,
}

impl PackedObject {
    /// The object as kind and payload.
    pub open spec fn content(&self) -> (ObjectKind, Seq<u8>) {
        (self.kind, self.payload@)
    }

    /// The identity is the one that the kind and the payload determine.
    pub open spec fn well_formed(&self) -> bool {
        self.id@ == identity(canonical(self.kind, self.payload@))
    }
}

/// The kinds and payloads of a list of objects, in order.
pub open spec fn contents(objects: Seq<PackedObject>) -> Seq<(ObjectKind, Seq<u8>)> {
    Seq::new(objects.len(), |i: int| objects[i].content())
}

/// The bytes `PACK`.
pub open spec fn pack_magic() -> Seq<u8> {
    seq![0x50u8, 0x41u8, 0x43u8, 0x4bu8]
}

/// The big-endian 32-bit number at `pos`.
pub open spec fn be32(data: Seq<u8>, pos: int) -> int {
    data[pos] * 0x100_0000 + data[pos + 1] * 0x1_0000 + data[pos + 2] * 0x100 + data[pos + 3]
}

/// The object count that a pack header announces: the data must start
/// with `PACK`, version 2 and the count, twelve bytes in all.
pub open spec fn pack_count(data: Seq<u8>) -> Option<int> {
    if data.len() >= 12 && data.subrange(0, 4) == pack_magic() && be32(data, 4) == 2 {
        Some(be32(data, 8))
    } else {
        None
    }
}

/// The header of the record at `pos`: its type (bits 4 to 6 of the first
/// byte), its declared size (the low four bits, then seven more bits from
/// each continuation byte) and the position after the header.
pub open spec fn record_header(data: Seq<u8>, pos: int) -> Option<(int, int, int)> {
    if pos < 0 || pos >= data.len() {
        None
    } else {
        let first = data[pos];
        let kind = ((first / 16) % 8) as int;
        let low = (first % 16) as int;
        if first < 128 {
            Some((kind, low, pos + 1))
        } else {
            match varint_from(data, pos + 1, low, 16) {
                None => None,
                Some((size, next)) => Some((kind, size, next)),
            }
        }
    }
}

/// The zlib stream that starts at `pos`: the inflated bytes and the
/// position after the stream.
pub open spec fn stream_at(data: Seq<u8>, pos: int) -> Option<(Seq<u8>, int)> {
    if pos < 0 || pos > data.len() {
        None
    } else {
        match zlib_inflated(data.subrange(pos, data.len() as int)) {
            None => None,
            Some((bytes, used)) => if 0 <= used <= data.len() - pos {
                Some((bytes, pos + used))
            } else {
                None
            },
        }
    }
}

/// Where the base offset of an offset delta ends: after the first byte,
/// from `pos` on, whose top bit is clear.
pub open spec fn offset_end(data: Seq<u8>, pos: int) -> Option<int>
    decreases data.len() - pos,
{
    if pos < 0 || pos >= data.len() {
        None
    } else if data[pos] < 128 {
        Some(pos + 1)
    } else {
        offset_end(data, pos + 1)
    }
}

/// The kind that a record type from 1 to 4 stands for.
pub open spec fn kind_of_type(kind: int) -> ObjectKind {
    if kind == 1 {
        ObjectKind::Commit
    } else if kind == 2 {
        ObjectKind::Tree
    } else if kind == 3 {
        ObjectKind::Blob
    } else {
        ObjectKind::Tag
    }
}

/// The index of the first object at or after `from` whose identity is
/// `id`.
pub open spec fn find_object(store: Seq<(ObjectKind, Seq<u8>)>, id: Seq<u8>, from: int) -> Option<
    int,
>
    decreases store.len() - from,
{
    if from < 0 || from >= store.len() {
        None
    } else if identity(canonical(store[from].0, store[from].1)) == id {
        Some(from)
    } else {
        find_object(store, id, from + 1)
    }
}

/// The object that a delta against the base with identity `base_id`
/// stands for: the delta is applied to the first object of `store` with
/// that identity, and the result has the base's kind. `NotFound` where no
/// object of `store` has the identity, `MalformedDelta` where the delta
/// does not apply.
pub open spec fn resolve_delta(
    store: Seq<(ObjectKind, Seq<u8>)>,
    base_id: Seq<u8>,
    delta: Seq<u8>,
) -> Result<(ObjectKind, Seq<u8>), GitError> {
    match find_object(store, base_id, 0) {
        None => Err(GitError::NotFound),
        Some(at) => match delta_target(store[at].1, delta) {
            None => Err(GitError::MalformedDelta),
            Some(target) => Ok((store[at].0, target)),
        },
    }
}

/// Reads `remaining` records from `pos` on, adding each object to `store`.
///
/// - Types 1 to 4: the inflated stream is the payload of a commit, tree,
///   blob or tag.
/// - Type 7: twenty bytes name a base by its raw identity; the inflated
///   stream is a delta, resolved against `store` as [`resolve_delta`]
///   says; its errors end the reading.
/// - Type 6: the base offset and the stream after it are passed over and
///   no object is added.
/// - Any other type, a header or stream cut short, a stream that does not
///   inflate: `MalformedPack`.
pub open spec fn unpack_from(
    data: Seq<u8>,
    pos: int,
    remaining: nat,
    store: Seq<(ObjectKind, Seq<u8>)>,
) -> Result<Seq<(ObjectKind, Seq<u8>)>, GitError>
    decreases remaining,
{
    if remaining == 0 {
        Ok(store)
    } else {
        match record_header(data, pos) {
            None => Err(GitError::MalformedPack),
            Some((kind, _, body)) => if 1 <= kind <= 4 {
                match stream_at(data, body) {
                    None => Err(GitError::MalformedPack),
                    Some((bytes, next)) => unpack_from(
                        data,
                        next,
                        (remaining - 1) as nat,
                        store.push((kind_of_type(kind), bytes)),
                    ),
                }
            } else if kind == 6 {
                match offset_end(data, body) {
                    None => Err(GitError::MalformedPack),
                    Some(start) => match stream_at(data, start) {
                        None => Err(GitError::MalformedPack),
                        Some((_, next)) => unpack_from(data, next, (remaining - 1) as nat, store),
                    },
                }
            } else if kind == 7 {
                if body + 20 > data.len() {
                    Err(GitError::MalformedPack)
                } else {
                    match stream_at(data, body + 20) {
                        None => Err(GitError::MalformedPack),
                        Some((delta, next)) => match resolve_delta(
                            store,
                            hex_text(data.subrange(body, body + 20)),
                            delta,
                        ) {
                            Err(e) => Err(e),
                            Ok(object) => unpack_from(
                                data,
                                next,
                                (remaining - 1) as nat,
                                store.push(object),
                            ),
                        },
                    }
                }
            } else {
                Err(GitError::MalformedPack)
            },
        }
    }
}

/// The objects of a pack, in the order of their records.
pub open spec fn unpacked(data: Seq<u8>) -> Result<Seq<(ObjectKind, Seq<u8>)>, GitError> {
    match pack_count(data) {
        None => Err(GitError::MalformedPack),
        Some(count) => unpack_from(data, 12, count as nat, Seq::empty()),
    }
}

/// The first position where `PACK` stands.
pub open spec fn pack_start(data: Seq<u8>) -> Option<int> {
    occurrence(data, pack_magic(), 0)
}

/// The objects that an upload-pack response delivers: none for an empty
/// response, else those of the pack that starts at the first `PACK`;
/// `Protocol` where the response is not empty and holds no `PACK`.
pub open spec fn response_objects(response: Seq<u8>) -> Result<
    Seq<(ObjectKind, Seq<u8>)>,
    GitError,
> {
    if response.len() == 0 {
        Ok(Seq::empty())
    } else {
        match pack_start(response) {
            None => Err(GitError::Protocol),
            Some(start) => unpacked(response.subrange(start, response.len() as int)),
        }
    }
}

/// Reads the big-endian 32-bit number at `pos`.
pub fn read_be32(data: &[u8], pos: usize) -> (value: u32)
    requires
        pos + 4 <= data@.len(),
    ensures
        value == be32(data@, pos as int),
{
    let b0: u32 = data[pos] as u32;
    let b1: u32 = data[pos + 1] as u32;
    let b2: u32 = data[pos + 2] as u32;
    let b3: u32 = data[pos + 3] as u32;
    b0 * 0x100_0000 + b1 * 0x1_0000 + b2 * 0x100 + b3
}

/// Finds the first `PACK` in a response.
pub fn find_pack_start(data: &[u8]) -> (found: Option<usize>)
    ensures
        found matches Some(at) ==> pack_start(data@) == Some(at as int) && at + 4 <= data@.len(),
        found is None ==> pack_start(data@) is None,
{
    let magic: [u8; 4] = [0x50, 0x41, 0x43, 0x4b];
    assert(magic@ =~= pack_magic());
    find_pattern(data, magic.as_slice())
}

/// Reads the header of a pack and returns the number of objects.
pub fn read_pack_header(data: &[u8]) -> (count: Option<u32>)
    ensures
        count matches Some(n) ==> pack_count(data@) == Some(n as int),
        count is None ==> pack_count(data@) is None,
{
    if data.len() < 12 {
        return None;
    }
    let magic: [u8; 4] = [0x50, 0x41, 0x43, 0x4b];
    assert(magic@ =~= pack_magic());
    if !range_equals(data, 0, 4, magic.as_slice()) {
        return None;
    }
    if read_be32(data, 4) != 2 {
        return None;
    }
    Some(read_be32(data, 8))
}

/// Reads the type-and-size header of the record at `pos`.
pub fn read_record_header(data: &[u8], pos: usize) -> (r: Option<(u8, u64, usize)>)
    ensures
        r matches Some((kind, size, next)) ==> record_header(data@, pos as int) == Some(
            (kind as int, size as int, next as int),
        ) && pos < next <= data@.len(),
        r is None ==> record_header(data@, pos as int) is None,
{
    if pos >= data.len() {
        return None;
    }
    let first: u8 = data[pos];
    let kind: u8 = (first / 16) % 8;
    let low: u64 = (first % 16) as u64;
    if first < 128 {
        Some((kind, low, pos + 1))
    } else {
        match read_varint_from(data, pos + 1, low, 16) {
            None => None,
            Some((size, next)) => Some((kind, size, next)),
        }
    }
}

/// Passes over the base offset of an offset delta.
pub fn skip_offset(data: &[u8], pos: usize) -> (r: Option<usize>)
    ensures
        r matches Some(next) ==> offset_end(data@, pos as int) == Some(next as int) && pos < next
            <= data@.len(),
        r is None ==> offset_end(data@, pos as int) is None,
{
    let mut i: usize = pos;
    while i < data.len()
        invariant
            pos <= i,
            offset_end(data@, pos as int) == offset_end(data@, i as int),
        decreases data@.len() - i,
    {
        if data[i] < 128 {
            return Some(i + 1);
        }
        i += 1;
    }
    None
}

/// Inflates the zlib stream that starts at `pos` and reports where it
/// ends.
pub fn read_stream(data: &[u8], pos: usize) -> (r: Option<(Vec<u8>, usize)>)
    ensures
        r matches Some((bytes, next)) ==> stream_at(data@, pos as int) == Some(
            (bytes@, next as int),
        ) && pos <= next <= data@.len(),
        r is None ==> stream_at(data@, pos as int) is None,
{
    if pos > data.len() {
        return None;
    }
    match zlib_inflate(slice_subrange(data, pos, data.len())) {
        None => None,
        Some((bytes, used)) => {
            if used > data.len() - pos {
                None
            } else {
                Some((bytes, pos + used))
            }
        },
    }
}

/// Finds the first object whose identity is the hexadecimal text `id`.
fn lookup(objects: &Vec<PackedObject>, id: &[u8]) -> (found: Option<usize>)
    requires
        forall|i: int| 0 <= i < objects@.len() ==> (#[trigger] objects@[i]).well_formed(),
    ensures
        found matches Some(at) ==> find_object(contents(objects@), id@, 0) == Some(at as int) && at
            < objects@.len(),
        found is None ==> find_object(contents(objects@), id@, 0) is None,
{
    let mut i: usize = 0;
    while i < objects.len()
        invariant
            forall|i: int| 0 <= i < objects@.len() ==> (#[trigger] objects@[i]).well_formed(),
            find_object(contents(objects@), id@, 0) == find_object(
                contents(objects@),
                id@,
                i as int,
            ),
        decreases objects@.len() - i,
    {
        let candidate = &objects[i];
        assert(candidate.well_formed());
        assert(contents(objects@)[i as int] == candidate.content());
        if range_equals(candidate.id.as_slice(), 0, candidate.id.len(), id) {
            assert(candidate.id@.subrange(0, candidate.id@.len() as int) =~= candidate.id@);
            return Some(i);
        }
        assert(candidate.id@.subrange(0, candidate.id@.len() as int) =~= candidate.id@);
        i += 1;
    }
    None
}

/// Makes the packed object for a kind and a payload.
pub fn pack_object(kind: ObjectKind, payload: Vec<u8>) -> (object: PackedObject)
    ensures
        object.kind == kind,
        object.payload == payload,
        object.well_formed(),
{
    let raw = create_git_object(kind, payload.as_slice());
    let id = calculate_sha1(raw.as_slice());
    PackedObject { kind, id, payload }
}

/// The kind for a record type from 1 to 4.
pub fn kind_for(kind: u8) -> (r: ObjectKind)
    ensures
        r == kind_of_type(kind as int),
{
    if kind == 1 {
        ObjectKind::Commit
    } else if kind == 2 {
        ObjectKind::Tree
    } else if kind == 3 {
        ObjectKind::Blob
    } else {
        ObjectKind::Tag
    }
}

/// Decodes a pack that starts at the first byte of `data`.
///
/// Returns the objects of the pack in record order, each with its
/// identity, exactly as [`unpacked`] describes them, or the error that it
/// names.
pub fn parse_pack(data: &[u8]) -> (r: Result<Vec<PackedObject>, GitError>)
    ensures
        r matches Ok(objects) ==> unpacked(data@) == Ok::<_, GitError>(contents(objects@)) && forall|
            i: int,
        |
            0 <= i < objects@.len() ==> (#[trigger] objects@[i]).well_formed(),
        r matches Err(e) ==> unpacked(data@) == Err::<Seq<(ObjectKind, Seq<u8>)>, _>(e),
{
    let count: u32 = match read_pack_header(data) {
        None => { return Err(GitError::MalformedPack); },
        Some(n) => n,
    };
    let mut objects: Vec<PackedObject> = Vec::new();
    let mut pos: usize = 12;
    let mut done: u32 = 0;
    assert(contents(objects@) =~= Seq::empty());
    while done < count
        invariant
            done <= count,
            pack_count(data@) == Some(count as int),
            pos <= data@.len(),
            forall|i: int| 0 <= i < objects@.len() ==> (#[trigger] objects@[i]).well_formed(),
            unpacked(data@) == unpack_from(
                data@,
                pos as int,
                (count - done) as nat,
                contents(objects@),
            ),
        decreases count - done,
    {
        let ghost before = contents(objects@);
        let (kind, body): (u8, usize) = match read_record_header(data, pos) {
            None => { return Err(GitError::MalformedPack); },
            Some((kind, _, body)) => (kind, body),
        };
        if 1 <= kind && kind <= 4 {
            let (bytes, next): (Vec<u8>, usize) = match read_stream(data, body) {
                None => { return Err(GitError::MalformedPack); },
                Some(found) => found,
            };
            let object = pack_object(kind_for(kind), bytes);
            objects.push(object);
            assert(contents(objects@) =~= before.push((kind_of_type(kind as int), bytes@)));
            pos = next;
        } else if kind == 6 {
            let start: usize = match skip_offset(data, body) {
                None => { return Err(GitError::MalformedPack); },
                Some(start) => start,
            };
            let next: usize = match read_stream(data, start) {
                None => { return Err(GitError::MalformedPack); },
                Some((_, next)) => next,
            };
            pos = next;
        } else if kind == 7 {
            if 20 > data.len() - body {
                return Err(GitError::MalformedPack);
            }
            let (delta, next): (Vec<u8>, usize) = match read_stream(data, body + 20) {
                None => { return Err(GitError::MalformedPack); },
                Some(found) => found,
            };
            let base_id = hex_encode(slice_subrange(data, body, body + 20));
            let at: usize = match lookup(&objects, base_id.as_slice()) {
                None => { return Err(GitError::NotFound); },
                Some(at) => at,
            };
            assert(before[at as int] == objects@[at as int].content());
            let base_kind = objects[at].kind;
            let target: Vec<u8> = match apply_delta(objects[at].payload.as_slice(), delta.as_slice()) {
                Err(_) => { return Err(GitError::MalformedDelta); },
                Ok(target) => target,
            };
            let object = pack_object(base_kind, target);
            objects.push(object);
            assert(contents(objects@) =~= before.push((base_kind, target@)));
            pos = next;
        } else {
            return Err(GitError::MalformedPack);
        }
        done += 1;
    }
    Ok(objects)
}

/// Decodes the body of an upload-pack response.
///
/// An empty response delivers no object. Otherwise the pack starts at the
/// first `PACK`; a response without one is a `Protocol` error, and the
/// pack itself is read as [`parse_pack`] reads it.
pub fn read_pack_response(response: &[u8]) -> (r: Result<Vec<PackedObject>, GitError>)
    ensures
        r matches Ok(objects) ==> response_objects(response@) == Ok::<_, GitError>(
            contents(objects@),
        ) && forall|i: int| 0 <= i < objects@.len() ==> (#[trigger] objects@[i]).well_formed(),
        r matches Err(e) ==> response_objects(response@) == Err::<Seq<(ObjectKind, Seq<u8>)>, _>(e),
{
    if response.len() == 0 {
        let objects: Vec<PackedObject> = Vec::new();
        assert(contents(objects@) =~= Seq::empty());
        return Ok(objects);
    }
    match find_pack_start(response) {
        None => Err(GitError::Protocol),
        Some(start) => parse_pack(slice_subrange(response, start, response.len())),
    }
}

/// Adding an object to a store changes no search that already found
/// one, and a search that found none now finds the new object exactly
/// where it has the identity sought.
pub proof fn lemma_find_after_push(
    store: Seq<(ObjectKind, Seq<u8>)>,
    object: (ObjectKind, Seq<u8>),
    id: Seq<u8>,
    from: int,
)
    requires
        0 <= from <= store.len(),
    ensures
        find_object(store, id, from) is Some ==> find_object(store.push(object), id, from)
            == find_object(store, id, from),
        find_object(store, id, from) is None ==> find_object(store.push(object), id, from) == (
        if identity(canonical(object.0, object.1)) == id {
            Some(store.len() as int)
        } else {
            None
        }),
    decreases store.len() - from,
{
    let more = store.push(object);
    if from < store.len() {
        assert(more[from] == store[from]);
        if identity(canonical(store[from].0, store[from].1)) != id {
            lemma_find_after_push(store, object, id, from + 1);
        }
    } else {
        assert(more[from] == object);
        assert(find_object(more, id, from + 1) is None);
    }
}

/// What a delta has built can be the base of the next delta: once an
/// object is added to the store, a delta that names its identity finds a
/// base, whatever else the store holds.
pub proof fn lemma_added_object_is_found(
    store: Seq<(ObjectKind, Seq<u8>)>,
    kind: ObjectKind,
    payload: Seq<u8>,
    delta: Seq<u8>,
)
    ensures
        resolve_delta(store.push((kind, payload)), identity(canonical(kind, payload)), delta)
            != Err::<(ObjectKind, Seq<u8>), _>(GitError::NotFound),
{
    lemma_find_after_push(store, (kind, payload), identity(canonical(kind, payload)), 0);
}

/// A delta on the result of a delta: where `first` applies to a base of
/// the store and builds an object whose identity no earlier object has,
/// then after that object is added, a delta `second` that names it and
/// applies to it builds its target from it, with the kind of the first
/// base.
pub proof fn lemma_delta_on_delta(
    store: Seq<(ObjectKind, Seq<u8>)>,
    base_id: Seq<u8>,
    first: Seq<u8>,
    second: Seq<u8>,
)
    requires
        resolve_delta(store, base_id, first) is Ok,
        find_object(
            store,
            identity(
                canonical(
                    resolve_delta(store, base_id, first).unwrap().0,
                    resolve_delta(store, base_id, first).unwrap().1,
                ),
            ),
            0,
        ) is None,
        delta_target(resolve_delta(store, base_id, first).unwrap().1, second) is Some,
    ensures
        ({
            let middle = resolve_delta(store, base_id, first).unwrap();
            resolve_delta(store.push(middle), identity(canonical(middle.0, middle.1)), second)
                == Ok::<_, GitError>((middle.0, delta_target(middle.1, second).unwrap()))
        }),
{
    let middle = resolve_delta(store, base_id, first).unwrap();
    lemma_find_after_push(store, middle, identity(canonical(middle.0, middle.1)), 0);
}

} // verus!
