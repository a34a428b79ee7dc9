//! Commit payloads: a `tree` line, `parent` lines, an `author` and a
//! `committer` line, a blank line and the message.

use vstd::prelude::*;
use crate::bytes::{append_all, copy_range, has_prefix, starts_with, views_of};
use crate::error::GitError;
use crate::object::{decode, decoded, encode, encoded, EncodedObject, ObjectKind};

verus! {

/// The bytes `tree ` that open the first line of a commit.
pub open spec fn tree_word() -> Seq<u8> {
    seq![
        0x74u8, 0x72u8, 0x65u8, 0x65u8, 0x20u8,
    ]
}

/// The bytes `tree ` that open the first line of a commit.
fn tree_word_bytes() -> (text: Vec<u8>)
    ensures
        text@ == tree_word(),
{
    let text: Vec<u8> = vec![
        0x74u8, 0x72u8, 0x65u8, 0x65u8, 0x20u8,
    ];
    assert(text@ =~= tree_word());
    text
}

/// The bytes `parent ` that open a parent line.
pub open spec fn parent_word() -> Seq<u8> {
    seq![
        0x70u8, 0x61u8, 0x72u8, 0x65u8, 0x6eu8, 0x74u8, 0x20u8,
    ]
}

/// The bytes `parent ` that open a parent line.
fn parent_word_bytes() -> (text: Vec<u8>)
    ensures
        text@ == parent_word(),
{
    let text: Vec<u8> = vec![
        0x70u8, 0x61u8, 0x72u8, 0x65u8, 0x6eu8, 0x74u8, 0x20u8,
    ];
    assert(text@ =~= parent_word());
    text
}

/// The bytes `author ` that open the author line.
pub open spec fn author_word() -> Seq<u8> {
    seq![
        0x61u8, 0x75u8, 0x74u8, 0x68u8, 0x6fu8, 0x72u8, 0x20u8,
    ]
}

/// The bytes `author ` that open the author line.
fn author_word_bytes() -> (text: Vec<u8>)
    ensures
        text@ == author_word(),
{
    let text: Vec<u8> = vec![
        0x61u8, 0x75u8, 0x74u8, 0x68u8, 0x6fu8, 0x72u8, 0x20u8,
    ];
    assert(text@ =~= author_word());
    text
}

/// The bytes `committer ` that open the committer line.
pub open spec fn committer_word() -> Seq<u8> {
    seq![
        0x63u8, 0x6fu8, 0x6du8, 0x6du8, 0x69u8, 0x74u8, 0x74u8, 0x65u8, 0x72u8, 0x20u8,
    ]
}

/// The bytes `committer ` that open the committer line.
fn committer_word_bytes() -> (text: Vec<u8>)
    ensures
        text@ == committer_word(),
{
    let text: Vec<u8> = vec![
        0x63u8, 0x6fu8, 0x6du8, 0x6du8, 0x69u8, 0x74u8, 0x74u8, 0x65u8, 0x72u8, 0x20u8,
    ];
    assert(text@ =~= committer_word());
    text
}

/// The placeholder identity, with its time and zone, for callers that have none of their own.
pub open spec fn default_identity() -> Seq<u8> {
    seq![
        0x4au8, 0x6fu8, 0x68u8, 0x6eu8, 0x20u8, 0x44u8, 0x6fu8, 0x65u8, 0x20u8, 0x3cu8,
        0x6au8, 0x6fu8, 0x68u8, 0x6eu8, 0x2eu8, 0x64u8, 0x6fu8, 0x65u8, 0x40u8, 0x65u8,
        0x78u8, 0x61u8, 0x6du8, 0x70u8, 0x6cu8, 0x65u8, 0x2eu8, 0x63u8, 0x6fu8, 0x6du8,
        0x3eu8, 0x20u8, 0x31u8, 0x37u8, 0x31u8, 0x39u8, 0x31u8, 0x35u8, 0x38u8, 0x34u8,
        0x30u8, 0x30u8, 0x20u8, 0x2bu8, 0x30u8, 0x30u8, 0x30u8, 0x30u8,
    ]
}

/// The placeholder identity, with its time and zone, for callers that have none of their own.
pub fn default_identity_bytes() -> (text: Vec<u8>)
    ensures
        text@ == default_identity(),
{
    let text: Vec<u8> = vec![
        0x4au8, 0x6fu8, 0x68u8, 0x6eu8, 0x20u8, 0x44u8, 0x6fu8, 0x65u8, 0x20u8, 0x3cu8,
        0x6au8, 0x6fu8, 0x68u8, 0x6eu8, 0x2eu8, 0x64u8, 0x6fu8, 0x65u8, 0x40u8, 0x65u8,
        0x78u8, 0x61u8, 0x6du8, 0x70u8, 0x6cu8, 0x65u8, 0x2eu8, 0x63u8, 0x6fu8, 0x6du8,
        0x3eu8, 0x20u8, 0x31u8, 0x37u8, 0x31u8, 0x39u8, 0x31u8, 0x35u8, 0x38u8, 0x34u8,
        0x30u8, 0x30u8, 0x20u8, 0x2bu8, 0x30u8, 0x30u8, 0x30u8, 0x30u8,
    ];
    assert(text@ =~= default_identity());
    text
}

/// A lowercase hexadecimal digit in ASCII.
pub open spec fn is_lower_hex(byte: u8) -> bool {
    (0x30 <= byte <= 0x39) || (0x61 <= byte <= 0x66)
}

/// An identity as text: forty lowercase hexadecimal digits.
pub open spec fn is_hex_id(id: Seq<u8>) -> bool {
    id.len() == 40 && forall|i: int| 0 <= i < 40 ==> is_lower_hex(#[trigger] id[i])
}

/// Whether every one of the byte strings is an identity.
pub open spec fn all_hex_ids(ids: Seq<Seq<u8>>) -> bool {
    forall|i: int| 0 <= i < ids.len() ==> is_hex_id(#[trigger] ids[i])
}

/// One line of a commit: a word, a value and a newline.
pub open spec fn header_line(word: Seq<u8>, value: Seq<u8>) -> Seq<u8> {
    word + value + seq![0x0au8]
}

/// The `parent` lines for the given parents, in order.
pub open spec fn parent_lines(parents: Seq<Seq<u8>>) -> Seq<u8>
    decreases parents.len(),
{
    if parents.len() == 0 {
        Seq::empty()
    } else {
        parent_lines(parents.drop_last()) + header_line(parent_word(), parents.last())
    }
}

/// The message as it ends a commit: with a newline added where it does
/// not end in one.
pub open spec fn padded_message(message: Seq<u8>) -> Seq<u8> {
    if message.len() > 0 && message.last() == 0x0au8 {
        message
    } else {
        message.push(0x0au8)
    }
}

/// The payload of a commit.
pub open spec fn commit_payload(
    tree: Seq<u8>,
    parents: Seq<Seq<u8>>,
    author: Seq<u8>,
    committer: Seq<u8>,
    message: Seq<u8>,
) -> Seq<u8> {
    header_line(tree_word(), tree) + parent_lines(parents) + header_line(author_word(), author)
        + header_line(committer_word(), committer) + seq![0x0au8] + padded_message(message)
}

/// The tree that a commit payload names: the payload must open with
/// `tree `, an identity and a newline.
pub open spec fn commit_tree(payload: Seq<u8>) -> Option<Seq<u8>> {
    if payload.len() >= 46 && has_prefix(payload, tree_word()) && is_hex_id(payload.subrange(5, 45))
        && payload[45] == 0x0au8 {
        Some(payload.subrange(5, 45))
    } else {
        None
    }
}

/// Whether `id` is forty lowercase hexadecimal digits.
pub fn check_hex_id(id: &[u8]) -> (yes: bool)
    ensures
        yes == is_hex_id(id@),
{
    if id.len() != 40 {
        return false;
    }
    let mut i: usize = 0;
    while i < 40
        invariant
            0 <= i <= 40,
            id@.len() == 40,
            forall|j: int| 0 <= j < i ==> is_lower_hex(#[trigger] id@[j]),
        decreases 40 - i,
    {
        let byte: u8 = id[i];
        if !((0x30 <= byte && byte <= 0x39) || (0x61 <= byte && byte <= 0x66)) {
            return false;
        }
        i += 1;
    }
    true
}

/// Whether every one of `ids` is forty lowercase hexadecimal digits.
pub fn check_hex_ids(ids: &Vec<Vec<u8>>) -> (yes: bool)
    ensures
        yes == all_hex_ids(views_of(ids@)),
{
    let mut i: usize = 0;
    while i < ids.len()
        invariant
            0 <= i <= ids@.len(),
            forall|j: int| 0 <= j < i ==> is_hex_id(#[trigger] views_of(ids@)[j]),
        decreases ids@.len() - i,
    {
        if !check_hex_id(ids[i].as_slice()) {
            assert(!is_hex_id(views_of(ids@)[i as int]));
            return false;
        }
        i += 1;
    }
    true
}

/// Appends the line `word value\n` to `out`.
fn push_line(out: &mut Vec<u8>, word: &[u8], value: &[u8])
    ensures
        final(out)@ == old(out)@ + header_line(word@, value@),
{
    append_all(out, word);
    append_all(out, value);
    out.push(0x0a);
    assert(out@ =~= old(out)@ + header_line(word@, value@));
}

/// Assembles the payload of a commit.
pub fn build_commit_payload(
    tree: &[u8],
    parents: &Vec<Vec<u8>>,
    author: &[u8],
    committer: &[u8],
    message: &[u8],
) -> (payload: Vec<u8>)
    ensures
        payload@ == commit_payload(tree@, views_of(parents@), author@, committer@, message@),
{
    let ghost ids = views_of(parents@);
    let mut payload: Vec<u8> = Vec::new();
    push_line(&mut payload, tree_word_bytes().as_slice(), tree);
    let ghost first = payload@;
    let mut i: usize = 0;
    assert(ids.subrange(0, 0) =~= Seq::empty());
    while i < parents.len()
        invariant
            0 <= i <= parents@.len(),
            ids == views_of(parents@),
            payload@ == first + parent_lines(ids.subrange(0, i as int)),
        decreases parents@.len() - i,
    {
        let ghost before = payload@;
        push_line(&mut payload, parent_word_bytes().as_slice(), parents[i].as_slice());
        proof {
            let upto = ids.subrange(0, i + 1);
            assert(upto.drop_last() =~= ids.subrange(0, i as int));
            assert(upto.last() == parents@[i as int]@);
            assert(payload@ =~= first + parent_lines(upto));
        }
        i += 1;
    }
    assert(ids.subrange(0, ids.len() as int) =~= ids);
    push_line(&mut payload, author_word_bytes().as_slice(), author);
    push_line(&mut payload, committer_word_bytes().as_slice(), committer);
    payload.push(0x0a);
    append_all(&mut payload, message);
    if message.len() == 0 || message[message.len() - 1] != 0x0a {
        payload.push(0x0a);
    }
    assert(payload@ =~= commit_payload(tree@, ids, author@, committer@, message@));
    payload
}

/// Builds a commit object.
///
/// The tree and every parent must be identities of forty lowercase
/// hexadecimal digits, else the call fails with `MalformedObject`. The
/// payload is then the one of [`commit_payload`], and the call fails with
/// `Io` exactly where the compressor fails on the commit's canonical form.
pub fn create_commit(
    tree: &[u8],
    parents: &Vec<Vec<u8>>,
    author: &[u8],
    committer: &[u8],
    message: &[u8],
) -> (r: Result<EncodedObject, GitError>)
    ensures
        !(is_hex_id(tree@) && all_hex_ids(views_of(parents@))) ==> r == Err::<
            EncodedObject,
            GitError,
        >(GitError::MalformedObject),
        is_hex_id(tree@) && all_hex_ids(views_of(parents@)) ==> encoded(
            ObjectKind::Commit,
            commit_payload(tree@, views_of(parents@), author@, committer@, message@),
            r,
        ),
{
    if !check_hex_id(tree) || !check_hex_ids(parents) {
        return Err(GitError::MalformedObject);
    }
    let payload = build_commit_payload(tree, parents, author, committer, message);
    encode(ObjectKind::Commit, payload.as_slice())
}

/// The identity of the tree that a commit payload names, or
/// `MalformedObject` where the payload does not open with a tree line.
pub fn commit_tree_id(payload: &[u8]) -> (r: Result<Vec<u8>, GitError>)
    ensures
        r matches Ok(id) ==> commit_tree(payload@) == Some(id@),
        r matches Err(e) ==> e == GitError::MalformedObject && commit_tree(payload@) is None,
{
    if payload.len() < 46 || !starts_with(payload, tree_word_bytes().as_slice()) {
        return Err(GitError::MalformedObject);
    }
    let id = copy_range(payload, 5, 45);
    if !check_hex_id(id.as_slice()) || payload[45] != 0x0a {
        return Err(GitError::MalformedObject);
    }
    Ok(id)
}

/// The tree that a commit was built over is the tree that reading the
/// commit's payload gives back.
pub proof fn lemma_commit_names_its_tree(
    tree: Seq<u8>,
    parents: Seq<Seq<u8>>,
    author: Seq<u8>,
    committer: Seq<u8>,
    message: Seq<u8>,
)
    requires
        is_hex_id(tree),
    ensures
        commit_tree(commit_payload(tree, parents, author, committer, message)) == Some(tree),
{
    let payload = commit_payload(tree, parents, author, committer, message);
    let line = header_line(tree_word(), tree);
    assert(line.len() == 46);
    assert(forall|i: int| 0 <= i < 46 ==> payload[i] == line[i]);
    assert(payload.subrange(0, 5) =~= tree_word());
    assert(payload.subrange(5, 45) =~= tree);
}

/// The tree that a stored commit names: the buffer must decode to an
/// object of kind commit whose payload opens with a tree line.
pub open spec fn stored_commit_tree(compressed: Seq<u8>) -> Option<Seq<u8>> {
    match decoded(compressed) {
        None => None,
        Some((kind, payload)) => if kind == ObjectKind::Commit {
            commit_tree(payload)
        } else {
            None
        },
    }
}

/// Decodes a stored commit and returns the identity of its tree;
/// `MalformedObject` where the buffer holds no commit that names one.
pub fn read_commit_tree(compressed: &[u8]) -> (r: Result<Vec<u8>, GitError>)
    ensures
        r matches Ok(id) ==> stored_commit_tree(compressed@) == Some(id@),
        r matches Err(e) ==> e == GitError::MalformedObject && stored_commit_tree(compressed@)
            is None,
{
    match decode(compressed) {
        Err(_) => Err(GitError::MalformedObject),
        Ok((kind, payload)) => match kind {
            ObjectKind::Commit => commit_tree_id(payload.as_slice()),
            _ => Err(GitError::MalformedObject),
        },
    }
}

/// A commit that was built once is built again: a second call with the
/// same tree, parents, identities and message succeeds, with the same
/// identity. Nothing but the arguments enters the result.
pub proof fn lemma_second_commit_agrees(
    tree: Seq<u8>,
    parents: Seq<Seq<u8>>,
    author: Seq<u8>,
    committer: Seq<u8>,
    message: Seq<u8>,
    first: EncodedObject,
    second: Result<EncodedObject, GitError>,
)
    requires
        encoded(
            ObjectKind::Commit,
            commit_payload(tree, parents, author, committer, message),
            Ok(first),
        ),
        encoded(
            ObjectKind::Commit,
            commit_payload(tree, parents, author, committer, message),
            second,
        ),
    ensures
        second matches Ok(object) && object.id@ == first.id@ && object.compressed@
            == first.compressed@,
{
}

} // verus!
