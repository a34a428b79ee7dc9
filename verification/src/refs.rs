//! The smart-HTTP exchange: reading the ref advertisement, building the
//! upload-pack request, and the contents of `HEAD` and of a branch ref.

use vstd::prelude::*;
use vstd::slice::slice_subrange;
use crate::bytes::{append_all, copy_range, ends_with, find_byte, find_pattern, has_prefix, has_suffix, occurrence, position, starts_with};
use crate::error::GitError;

verus! {

/// The bytes `refs/heads/master`.
pub open spec fn master_ref() -> Seq<u8> {
    seq![
        0x72u8, 0x65u8, 0x66u8, 0x73u8, 0x2fu8, 0x68u8, 0x65u8, 0x61u8, 0x64u8, 0x73u8,
        0x2fu8, 0x6du8, 0x61u8, 0x73u8, 0x74u8, 0x65u8, 0x72u8,
    ]
}

/// The bytes `refs/heads/master`.
fn master_ref_bytes() -> (text: Vec<u8>)
    ensures
        text@ == master_ref(),
{
    let text: Vec<u8> = vec![
        0x72u8, 0x65u8, 0x66u8, 0x73u8, 0x2fu8, 0x68u8, 0x65u8, 0x61u8, 0x64u8, 0x73u8,
        0x2fu8, 0x6du8, 0x61u8, 0x73u8, 0x74u8, 0x65u8, 0x72u8,
    ];
    assert(text@ =~= master_ref());
    text
}

/// The bytes `refs/heads/main`.
pub open spec fn main_ref() -> Seq<u8> {
    seq![
        0x72u8, 0x65u8, 0x66u8, 0x73u8, 0x2fu8, 0x68u8, 0x65u8, 0x61u8, 0x64u8, 0x73u8,
        0x2fu8, 0x6du8, 0x61u8, 0x69u8, 0x6eu8,
    ]
}

/// The bytes `refs/heads/main`.
fn main_ref_bytes() -> (text: Vec<u8>)
    ensures
        text@ == main_ref(),
{
    let text: Vec<u8> = vec![
        0x72u8, 0x65u8, 0x66u8, 0x73u8, 0x2fu8, 0x68u8, 0x65u8, 0x61u8, 0x64u8, 0x73u8,
        0x2fu8, 0x6du8, 0x61u8, 0x69u8, 0x6eu8,
    ];
    assert(text@ =~= main_ref());
    text
}

/// The bytes `refs/heads/`.
pub open spec fn heads_prefix() -> Seq<u8> {
    seq![
        0x72u8, 0x65u8, 0x66u8, 0x73u8, 0x2fu8, 0x68u8, 0x65u8, 0x61u8, 0x64u8, 0x73u8,
        0x2fu8,
    ]
}

/// The bytes `refs/heads/`.
fn heads_prefix_bytes() -> (text: Vec<u8>)
    ensures
        text@ == heads_prefix(),
{
    let text: Vec<u8> = vec![
        0x72u8, 0x65u8, 0x66u8, 0x73u8, 0x2fu8, 0x68u8, 0x65u8, 0x61u8, 0x64u8, 0x73u8,
        0x2fu8,
    ];
    assert(text@ =~= heads_prefix());
    text
}

/// The bytes `symref=HEAD:`.
pub open spec fn symref_token() -> Seq<u8> {
    seq![
        0x73u8, 0x79u8, 0x6du8, 0x72u8, 0x65u8, 0x66u8, 0x3du8, 0x48u8, 0x45u8, 0x41u8,
        0x44u8, 0x3au8,
    ]
}

/// The bytes `symref=HEAD:`.
fn symref_token_bytes() -> (text: Vec<u8>)
    ensures
        text@ == symref_token(),
{
    let text: Vec<u8> = vec![
        0x73u8, 0x79u8, 0x6du8, 0x72u8, 0x65u8, 0x66u8, 0x3du8, 0x48u8, 0x45u8, 0x41u8,
        0x44u8, 0x3au8,
    ];
    assert(text@ =~= symref_token());
    text
}

/// The branch name `main`, used where the server names no default branch.
pub open spec fn main_branch() -> Seq<u8> {
    seq![
        0x6du8, 0x61u8, 0x69u8, 0x6eu8,
    ]
}

/// The branch name `main`, used where the server names no default branch.
pub fn main_branch_bytes() -> (text: Vec<u8>)
    ensures
        text@ == main_branch(),
{
    let text: Vec<u8> = vec![
        0x6du8, 0x61u8, 0x69u8, 0x6eu8,
    ];
    assert(text@ =~= main_branch());
    text
}

/// The bytes `0032want `: the length prefix of a want line for a forty-digit identity, and the word.
pub open spec fn want_word() -> Seq<u8> {
    seq![
        0x30u8, 0x30u8, 0x33u8, 0x32u8, 0x77u8, 0x61u8, 0x6eu8, 0x74u8, 0x20u8,
    ]
}

/// The bytes `0032want `: the length prefix of a want line for a forty-digit identity, and the word.
fn want_word_bytes() -> (text: Vec<u8>)
    ensures
        text@ == want_word(),
{
    let text: Vec<u8> = vec![
        0x30u8, 0x30u8, 0x33u8, 0x32u8, 0x77u8, 0x61u8, 0x6eu8, 0x74u8, 0x20u8,
    ];
    assert(text@ =~= want_word());
    text
}

/// The bytes that follow the identity in a request: the newline of the want line, a flush packet and the packet `done`.
pub open spec fn want_tail() -> Seq<u8> {
    seq![
        0x0au8, 0x30u8, 0x30u8, 0x30u8, 0x30u8, 0x30u8, 0x30u8, 0x30u8, 0x39u8, 0x64u8,
        0x6fu8, 0x6eu8, 0x65u8, 0x0au8,
    ]
}

/// The bytes that follow the identity in a request: the newline of the want line, a flush packet and the packet `done`.
fn want_tail_bytes() -> (text: Vec<u8>)
    ensures
        text@ == want_tail(),
{
    let text: Vec<u8> = vec![
        0x0au8, 0x30u8, 0x30u8, 0x30u8, 0x30u8, 0x30u8, 0x30u8, 0x30u8, 0x39u8, 0x64u8,
        0x6fu8, 0x6eu8, 0x65u8, 0x0au8,
    ];
    assert(text@ =~= want_tail());
    text
}

/// The bytes `ref: refs/heads/` that open a symbolic `HEAD`.
pub open spec fn symbolic_ref_word() -> Seq<u8> {
    seq![
        0x72u8, 0x65u8, 0x66u8, 0x3au8, 0x20u8, 0x72u8, 0x65u8, 0x66u8, 0x73u8, 0x2fu8,
        0x68u8, 0x65u8, 0x61u8, 0x64u8, 0x73u8, 0x2fu8,
    ]
}

/// The bytes `ref: refs/heads/` that open a symbolic `HEAD`.
fn symbolic_ref_word_bytes() -> (text: Vec<u8>)
    ensures
        text@ == symbolic_ref_word(),
{
    let text: Vec<u8> = vec![
        0x72u8, 0x65u8, 0x66u8, 0x3au8, 0x20u8, 0x72u8, 0x65u8, 0x66u8, 0x73u8, 0x2fu8,
        0x68u8, 0x65u8, 0x61u8, 0x64u8, 0x73u8, 0x2fu8,
    ];
    assert(text@ =~= symbolic_ref_word());
    text
}

/// The bytes `.git/refs/heads/`.
pub open spec fn heads_directory() -> Seq<u8> {
    seq![
        0x2eu8, 0x67u8, 0x69u8, 0x74u8, 0x2fu8, 0x72u8, 0x65u8, 0x66u8, 0x73u8, 0x2fu8,
        0x68u8, 0x65u8, 0x61u8, 0x64u8, 0x73u8, 0x2fu8,
    ]
}

/// The bytes `.git/refs/heads/`.
fn heads_directory_bytes() -> (text: Vec<u8>)
    ensures
        text@ == heads_directory(),
{
    let text: Vec<u8> = vec![
        0x2eu8, 0x67u8, 0x69u8, 0x74u8, 0x2fu8, 0x72u8, 0x65u8, 0x66u8, 0x73u8, 0x2fu8,
        0x68u8, 0x65u8, 0x61u8, 0x64u8, 0x73u8, 0x2fu8,
    ];
    assert(text@ =~= heads_directory());
    text
}

/// Where the line that starts at `from` ends: at the next newline, or at
/// the end of the data.
pub open spec fn line_end(data: Seq<u8>, from: int) -> int {
    match position(data, from, 0x0au8) {
        Some(at) => at,
        None => data.len() as int,
    }
}

/// The line from `from` to `end`, without the carriage return that stands
/// before a newline.
pub open spec fn line_between(data: Seq<u8>, from: int, end: int) -> Seq<u8> {
    if end < data.len() && from < end && data[end - 1] == 0x0du8 {
        data.subrange(from, end - 1)
    } else {
        data.subrange(from, end)
    }
}

/// An ASCII hexadecimal digit, in either case.
pub open spec fn is_hex_digit(byte: u8) -> bool {
    (0x30 <= byte <= 0x39) || (0x61 <= byte <= 0x66) || (0x41 <= byte <= 0x46)
}

/// The identity that a line advertises for the head branch: the line must
/// end with `refs/heads/master` or `refs/heads/main`, be at least 48 bytes
/// long and hold forty hexadecimal digits after its four-byte length.
pub open spec fn head_in_line(line: Seq<u8>) -> Option<Seq<u8>> {
    if (has_suffix(line, master_ref()) || has_suffix(line, main_ref())) && line.len() >= 48
        && forall|i: int| 4 <= i < 44 ==> is_hex_digit(#[trigger] line[i]) {
        Some(line.subrange(4, 44))
    } else {
        None
    }
}

/// The identity advertised by the first line, from `from` on, that
/// advertises one.
pub open spec fn head_commit_from(data: Seq<u8>, from: int) -> Option<Seq<u8>>
    decreases data.len() - from,
{
    if from < 0 || from >= data.len() {
        None
    } else {
        let end = line_end(data, from);
        match head_in_line(line_between(data, from, end)) {
            Some(id) => Some(id),
            None => if end < from || end >= data.len() {
                None
            } else {
                head_commit_from(data, end + 1)
            },
        }
    }
}

/// The identity that a ref advertisement gives for the head branch.
pub open spec fn head_commit(data: Seq<u8>) -> Option<Seq<u8>> {
    head_commit_from(data, 0)
}

/// The branch that a line names as the target of `HEAD`: what follows the
/// first `symref=HEAD:` up to the next space or the end of the line, if
/// that begins with `refs/heads/`, without that prefix.
pub open spec fn branch_in_line(line: Seq<u8>) -> Option<Seq<u8>> {
    match occurrence(line, symref_token(), 0) {
        None => None,
        Some(at) => {
            let rest = line.subrange(at + 12, line.len() as int);
            let token = match position(rest, 0, 0x20u8) {
                Some(space) => rest.subrange(0, space),
                None => rest,
            };
            if has_prefix(token, heads_prefix()) {
                Some(token.subrange(11, token.len() as int))
            } else {
                None
            }
        },
    }
}

/// The branch named by the first line, from `from` on, that names one.
pub open spec fn default_branch_from(data: Seq<u8>, from: int) -> Option<Seq<u8>>
    decreases data.len() - from,
{
    if from < 0 || from >= data.len() {
        None
    } else {
        let end = line_end(data, from);
        match branch_in_line(line_between(data, from, end)) {
            Some(name) => Some(name),
            None => if end < from || end >= data.len() {
                None
            } else {
                default_branch_from(data, end + 1)
            },
        }
    }
}

/// The default branch that a ref advertisement names.
pub open spec fn default_branch(data: Seq<u8>) -> Option<Seq<u8>> {
    default_branch_from(data, 0)
}

/// The body of the upload-pack request for one identity.
pub open spec fn want_request(id: Seq<u8>) -> Seq<u8> {
    want_word() + id + want_tail()
}

/// The contents of a symbolic `HEAD` for a branch.
pub open spec fn head_file(branch: Seq<u8>) -> Seq<u8> {
    symbolic_ref_word() + branch + seq![0x0au8]
}

/// The contents of a ref that points at `id`.
pub open spec fn ref_file(id: Seq<u8>) -> Seq<u8> {
    id + seq![0x0au8]
}

/// The path of the ref of a branch.
pub open spec fn branch_ref_path(branch: Seq<u8>) -> Seq<u8> {
    heads_directory() + branch
}

/// Reads the line that starts at `from`: the line and the position at
/// which the next one starts.
fn read_line(data: &[u8], from: usize) -> (r: (&[u8], usize))
    requires
        from < data@.len(),
    ensures
        r.0@ == line_between(data@, from as int, line_end(data@, from as int)),
        from <= line_end(data@, from as int) <= data@.len(),
        line_end(data@, from as int) < data@.len() ==> r.1 == line_end(data@, from as int) + 1,
        line_end(data@, from as int) == data@.len() ==> r.1 == data@.len(),
        from < r.1 <= data@.len(),
{
    let total: usize = data.len();
    match find_byte(data, from, 0x0a) {
        Some(end) => {
            if from < end && data[end - 1] == 0x0d {
                (slice_subrange(data, from, end - 1), end + 1)
            } else {
                (slice_subrange(data, from, end), end + 1)
            }
        },
        None => (slice_subrange(data, from, total), total),
    }
}

/// The identity that one line advertises for the head branch.
pub fn head_commit_in_line(line: &[u8]) -> (r: Option<Vec<u8>>)
    ensures
        r matches Some(id) ==> head_in_line(line@) == Some(id@) && id@.len() == 40,
        r is None ==> head_in_line(line@) is None,
{
    if !(ends_with(line, master_ref_bytes().as_slice()) || ends_with(
        line,
        main_ref_bytes().as_slice(),
    )) {
        return None;
    }
    if line.len() < 48 {
        return None;
    }
    let mut i: usize = 4;
    while i < 44
        invariant
            4 <= i <= 44,
            line@.len() >= 48,
            forall|j: int| 4 <= j < i ==> is_hex_digit(#[trigger] line@[j]),
        decreases 44 - i,
    {
        let byte: u8 = line[i];
        if !((0x30 <= byte && byte <= 0x39) || (0x61 <= byte && byte <= 0x66) || (0x41 <= byte
            && byte <= 0x46)) {
            return None;
        }
        i += 1;
    }
    Some(copy_range(line, 4, 44))
}

/// Finds the identity of the head branch in a ref advertisement: the
/// forty hexadecimal digits of the first line that ends with
/// `refs/heads/master` or `refs/heads/main`.
pub fn get_head_commit(refs: &[u8]) -> (r: Option<Vec<u8>>)
    ensures
        r matches Some(id) ==> head_commit(refs@) == Some(id@) && id@.len() == 40,
        r is None ==> head_commit(refs@) is None,
{
    let mut pos: usize = 0;
    while pos < refs.len()
        invariant
            head_commit(refs@) == head_commit_from(refs@, pos as int),
        decreases refs@.len() - pos,
    {
        let found = read_line(refs, pos);
        match head_commit_in_line(found.0) {
            Some(id) => { return Some(id); },
            None => {},
        }
        pos = found.1;
    }
    None
}

/// The branch that one line names as the target of `HEAD`.
pub fn default_branch_in_line(line: &[u8]) -> (r: Option<Vec<u8>>)
    ensures
        r matches Some(name) ==> branch_in_line(line@) == Some(name@),
        r is None ==> branch_in_line(line@) is None,
{
    let token_word = symref_token_bytes();
    let total: usize = line.len();
    assert(symref_token().len() == 12);
    let at: usize = match find_pattern(line, token_word.as_slice()) {
        None => { return None; },
        Some(at) => at,
    };
    let rest = slice_subrange(line, at + 12, total);
    let token = match find_byte(rest, 0, 0x20) {
        Some(space) => slice_subrange(rest, 0, space),
        None => rest,
    };
    if starts_with(token, heads_prefix_bytes().as_slice()) {
        Some(copy_range(token, 11, token.len()))
    } else {
        None
    }
}

/// Finds the default branch in a ref advertisement: the branch that the
/// first `symref=HEAD:refs/heads/<name>` names.
pub fn parse_default_branch(refs: &[u8]) -> (r: Option<Vec<u8>>)
    ensures
        r matches Some(name) ==> default_branch(refs@) == Some(name@),
        r is None ==> default_branch(refs@) is None,
{
    let mut pos: usize = 0;
    while pos < refs.len()
        invariant
            default_branch(refs@) == default_branch_from(refs@, pos as int),
        decreases refs@.len() - pos,
    {
        let found = read_line(refs, pos);
        match default_branch_in_line(found.0) {
            Some(name) => { return Some(name); },
            None => {},
        }
        pos = found.1;
    }
    None
}

/// Builds the body of the upload-pack request that asks for `id`.
pub fn build_want_request(id: &[u8]) -> (body: Vec<u8>)
    requires
        id@.len() == 40,
    ensures
        body@ == want_request(id@),
{
    let mut body = want_word_bytes();
    append_all(&mut body, id);
    append_all(&mut body, want_tail_bytes().as_slice());
    body
}

/// Builds the contents of a symbolic `HEAD` that points at `branch`.
pub fn build_head_file(branch: &[u8]) -> (text: Vec<u8>)
    ensures
        text@ == head_file(branch@),
{
    let mut text = symbolic_ref_word_bytes();
    append_all(&mut text, branch);
    text.push(0x0a);
    text
}

/// Builds the contents of a ref that points at `id`.
pub fn build_ref_file(id: &[u8]) -> (text: Vec<u8>)
    ensures
        text@ == ref_file(id@),
{
    let mut text: Vec<u8> = Vec::new();
    append_all(&mut text, id);
    text.push(0x0a);
    assert(text@ =~= ref_file(id@));
    text
}

/// Builds the path of the ref of `branch`.
pub fn build_branch_ref_path(branch: &[u8]) -> (path: Vec<u8>)
    ensures
        path@ == branch_ref_path(branch@),
{
    let mut path = heads_directory_bytes();
    append_all(&mut path, branch);
    path
}

/// What a clone does after ref discovery.
pub struct FetchPlan {
    /// The identity to ask for.
    pub want: Vec<u8>,
    /// The branch that `HEAD` will point at.
    pub branch: Vec<u8>,
    /// The body of the upload-pack request.
    pub request: Vec<u8>,
}

/// The branch to check out: the one the advertisement names, else `main`.
pub open spec fn branch_or_main(refs: Seq<u8>) -> Seq<u8> {
    match default_branch(refs) {
        Some(name) => name,
        None => main_branch(),
    }
}

/// Reads a ref advertisement and plans the fetch: `Protocol` where the
/// advertisement names no head commit, else the identity to ask for, the
/// branch to check out and the request that asks for the identity.
pub fn plan_fetch(refs: &[u8]) -> (r: Result<FetchPlan, GitError>)
    ensures
        head_commit(refs@) is None ==> r == Err::<FetchPlan, GitError>(GitError::Protocol),
        head_commit(refs@) matches Some(id) ==> (r matches Ok(plan) && plan.want@ == id
            && plan.want@.len() == 40 && plan.branch@ == branch_or_main(refs@) && plan.request@
            == want_request(id)),
{
    let want = match get_head_commit(refs) {
        None => { return Err(GitError::Protocol); },
        Some(id) => id,
    };
    let branch = match parse_default_branch(refs) {
        Some(name) => name,
        None => main_branch_bytes(),
    };
    let request = build_want_request(want.as_slice());
    Ok(FetchPlan { want, branch, request })
}

} // verus!
