//! The layout of a repository on disk and the addresses of the two
//! requests of a clone, as byte strings for the caller to act on.

use vstd::prelude::*;
use crate::bytes::{append_all, range_equals, views_of};
use crate::tree::{mode_directory, mode_file};

verus! {

/// The name `.git` of the repository directory, which no tree holds.
pub open spec fn git_directory() -> Seq<u8> {
    seq![
        0x2eu8, 0x67u8, 0x69u8, 0x74u8,
    ]
}

/// The name `.git` of the repository directory, which no tree holds.
fn git_directory_bytes() -> (text: Vec<u8>)
    ensures
        text@ == git_directory(),
{
    let text: Vec<u8> = vec![
        0x2eu8, 0x67u8, 0x69u8, 0x74u8,
    ];
    assert(text@ =~= git_directory());
    text
}

/// The path `.git/objects`.
pub open spec fn objects_directory() -> Seq<u8> {
    seq![
        0x2eu8, 0x67u8, 0x69u8, 0x74u8, 0x2fu8, 0x6fu8, 0x62u8, 0x6au8, 0x65u8, 0x63u8,
        0x74u8, 0x73u8,
    ]
}

/// The path `.git/objects`.
fn objects_directory_bytes() -> (text: Vec<u8>)
    ensures
        text@ == objects_directory(),
{
    let text: Vec<u8> = vec![
        0x2eu8, 0x67u8, 0x69u8, 0x74u8, 0x2fu8, 0x6fu8, 0x62u8, 0x6au8, 0x65u8, 0x63u8,
        0x74u8, 0x73u8,
    ];
    assert(text@ =~= objects_directory());
    text
}

/// The path `.git/refs`.
pub open spec fn refs_directory() -> Seq<u8> {
    seq![
        0x2eu8, 0x67u8, 0x69u8, 0x74u8, 0x2fu8, 0x72u8, 0x65u8, 0x66u8, 0x73u8,
    ]
}

/// The path `.git/refs`.
fn refs_directory_bytes() -> (text: Vec<u8>)
    ensures
        text@ == refs_directory(),
{
    let text: Vec<u8> = vec![
        0x2eu8, 0x67u8, 0x69u8, 0x74u8, 0x2fu8, 0x72u8, 0x65u8, 0x66u8, 0x73u8,
    ];
    assert(text@ =~= refs_directory());
    text
}

/// The path `.git/refs/heads`.
pub open spec fn heads_path() -> Seq<u8> {
    seq![
        0x2eu8, 0x67u8, 0x69u8, 0x74u8, 0x2fu8, 0x72u8, 0x65u8, 0x66u8, 0x73u8, 0x2fu8,
        0x68u8, 0x65u8, 0x61u8, 0x64u8, 0x73u8,
    ]
}

/// The path `.git/refs/heads`.
fn heads_path_bytes() -> (text: Vec<u8>)
    ensures
        text@ == heads_path(),
{
    let text: Vec<u8> = vec![
        0x2eu8, 0x67u8, 0x69u8, 0x74u8, 0x2fu8, 0x72u8, 0x65u8, 0x66u8, 0x73u8, 0x2fu8,
        0x68u8, 0x65u8, 0x61u8, 0x64u8, 0x73u8,
    ];
    assert(text@ =~= heads_path());
    text
}

/// The path `.git/HEAD`.
pub open spec fn head_path() -> Seq<u8> {
    seq![
        0x2eu8, 0x67u8, 0x69u8, 0x74u8, 0x2fu8, 0x48u8, 0x45u8, 0x41u8, 0x44u8,
    ]
}

/// The path `.git/HEAD`.
pub fn head_path_bytes() -> (text: Vec<u8>)
    ensures
        text@ == head_path(),
{
    let text: Vec<u8> = vec![
        0x2eu8, 0x67u8, 0x69u8, 0x74u8, 0x2fu8, 0x48u8, 0x45u8, 0x41u8, 0x44u8,
    ];
    assert(text@ =~= head_path());
    text
}

/// What is appended to the address of a remote to ask for its refs.
pub open spec fn refs_query() -> Seq<u8> {
    seq![
        0x2fu8, 0x69u8, 0x6eu8, 0x66u8, 0x6fu8, 0x2fu8, 0x72u8, 0x65u8, 0x66u8, 0x73u8,
        0x3fu8, 0x73u8, 0x65u8, 0x72u8, 0x76u8, 0x69u8, 0x63u8, 0x65u8, 0x3du8, 0x67u8,
        0x69u8, 0x74u8, 0x2du8, 0x75u8, 0x70u8, 0x6cu8, 0x6fu8, 0x61u8, 0x64u8, 0x2du8,
        0x70u8, 0x61u8, 0x63u8, 0x6bu8,
    ]
}

/// What is appended to the address of a remote to ask for its refs.
fn refs_query_bytes() -> (text: Vec<u8>)
    ensures
        text@ == refs_query(),
{
    let text: Vec<u8> = vec![
        0x2fu8, 0x69u8, 0x6eu8, 0x66u8, 0x6fu8, 0x2fu8, 0x72u8, 0x65u8, 0x66u8, 0x73u8,
        0x3fu8, 0x73u8, 0x65u8, 0x72u8, 0x76u8, 0x69u8, 0x63u8, 0x65u8, 0x3du8, 0x67u8,
        0x69u8, 0x74u8, 0x2du8, 0x75u8, 0x70u8, 0x6cu8, 0x6fu8, 0x61u8, 0x64u8, 0x2du8,
        0x70u8, 0x61u8, 0x63u8, 0x6bu8,
    ];
    assert(text@ =~= refs_query());
    text
}

/// What is appended to the address of a remote to ask for a pack.
pub open spec fn upload_pack_suffix() -> Seq<u8> {
    seq![
        0x2fu8, 0x67u8, 0x69u8, 0x74u8, 0x2du8, 0x75u8, 0x70u8, 0x6cu8, 0x6fu8, 0x61u8,
        0x64u8, 0x2du8, 0x70u8, 0x61u8, 0x63u8, 0x6bu8,
    ]
}

/// What is appended to the address of a remote to ask for a pack.
fn upload_pack_suffix_bytes() -> (text: Vec<u8>)
    ensures
        text@ == upload_pack_suffix(),
{
    let text: Vec<u8> = vec![
        0x2fu8, 0x67u8, 0x69u8, 0x74u8, 0x2du8, 0x75u8, 0x70u8, 0x6cu8, 0x6fu8, 0x61u8,
        0x64u8, 0x2du8, 0x70u8, 0x61u8, 0x63u8, 0x6bu8,
    ];
    assert(text@ =~= upload_pack_suffix());
    text
}

/// The `Content-Type` of an upload-pack request.
pub open spec fn request_content_type() -> Seq<u8> {
    seq![
        0x61u8, 0x70u8, 0x70u8, 0x6cu8, 0x69u8, 0x63u8, 0x61u8, 0x74u8, 0x69u8, 0x6fu8,
        0x6eu8, 0x2fu8, 0x78u8, 0x2du8, 0x67u8, 0x69u8, 0x74u8, 0x2du8, 0x75u8, 0x70u8,
        0x6cu8, 0x6fu8, 0x61u8, 0x64u8, 0x2du8, 0x70u8, 0x61u8, 0x63u8, 0x6bu8, 0x2du8,
        0x72u8, 0x65u8, 0x71u8, 0x75u8, 0x65u8, 0x73u8, 0x74u8,
    ]
}

/// The `Content-Type` of an upload-pack request.
pub fn request_content_type_bytes() -> (text: Vec<u8>)
    ensures
        text@ == request_content_type(),
{
    let text: Vec<u8> = vec![
        0x61u8, 0x70u8, 0x70u8, 0x6cu8, 0x69u8, 0x63u8, 0x61u8, 0x74u8, 0x69u8, 0x6fu8,
        0x6eu8, 0x2fu8, 0x78u8, 0x2du8, 0x67u8, 0x69u8, 0x74u8, 0x2du8, 0x75u8, 0x70u8,
        0x6cu8, 0x6fu8, 0x61u8, 0x64u8, 0x2du8, 0x70u8, 0x61u8, 0x63u8, 0x6bu8, 0x2du8,
        0x72u8, 0x65u8, 0x71u8, 0x75u8, 0x65u8, 0x73u8, 0x74u8,
    ];
    assert(text@ =~= request_content_type());
    text
}

/// The type that an upload-pack request accepts in answer.
pub open spec fn result_content_type() -> Seq<u8> {
    seq![
        0x61u8, 0x70u8, 0x70u8, 0x6cu8, 0x69u8, 0x63u8, 0x61u8, 0x74u8, 0x69u8, 0x6fu8,
        0x6eu8, 0x2fu8, 0x78u8, 0x2du8, 0x67u8, 0x69u8, 0x74u8, 0x2du8, 0x75u8, 0x70u8,
        0x6cu8, 0x6fu8, 0x61u8, 0x64u8, 0x2du8, 0x70u8, 0x61u8, 0x63u8, 0x6bu8, 0x2du8,
        0x72u8, 0x65u8, 0x73u8, 0x75u8, 0x6cu8, 0x74u8,
    ]
}

/// The type that an upload-pack request accepts in answer.
pub fn result_content_type_bytes() -> (text: Vec<u8>)
    ensures
        text@ == result_content_type(),
{
    let text: Vec<u8> = vec![
        0x61u8, 0x70u8, 0x70u8, 0x6cu8, 0x69u8, 0x63u8, 0x61u8, 0x74u8, 0x69u8, 0x6fu8,
        0x6eu8, 0x2fu8, 0x78u8, 0x2du8, 0x67u8, 0x69u8, 0x74u8, 0x2du8, 0x75u8, 0x70u8,
        0x6cu8, 0x6fu8, 0x61u8, 0x64u8, 0x2du8, 0x70u8, 0x61u8, 0x63u8, 0x6bu8, 0x2du8,
        0x72u8, 0x65u8, 0x73u8, 0x75u8, 0x6cu8, 0x74u8,
    ];
    assert(text@ =~= result_content_type());
    text
}

/// The directories of an empty repository, each after its parent.
pub open spec fn skeleton() -> Seq<Seq<u8>> {
    seq![git_directory(), objects_directory(), refs_directory(), heads_path()]
}

/// The directories to create for an empty repository, in the order in
/// which to create them.
pub fn skeleton_directories() -> (paths: Vec<Vec<u8>>)
    ensures
        views_of(paths@) == skeleton(),
{
    let mut paths: Vec<Vec<u8>> = Vec::new();
    paths.push(git_directory_bytes());
    paths.push(objects_directory_bytes());
    paths.push(refs_directory_bytes());
    paths.push(heads_path_bytes());
    assert(views_of(paths@) =~= skeleton());
    paths
}

/// Whether a directory walk leaves the name out: only `.git` is.
pub fn is_ignored(name: &[u8]) -> (yes: bool)
    ensures
        yes == (name@ == git_directory()),
{
    let ignored = git_directory_bytes();
    assert(name@.subrange(0, name@.len() as int) =~= name@);
    range_equals(name, 0, name.len(), ignored.as_slice())
}

/// The mode under which a directory walk records a child: `40000` for a
/// directory, `100644` for a regular file.
pub open spec fn child_mode(is_directory: bool) -> Seq<u8> {
    if is_directory {
        mode_directory()
    } else {
        mode_file()
    }
}

/// The mode under which a directory walk records a child.
pub fn child_mode_bytes(is_directory: bool) -> (mode: Vec<u8>)
    ensures
        mode@ == child_mode(is_directory),
{
    if is_directory {
        let mode: Vec<u8> = vec![0x34u8, 0x30u8, 0x30u8, 0x30u8, 0x30u8];
        assert(mode@ =~= mode_directory());
        mode
    } else {
        let mode: Vec<u8> = vec![0x31u8, 0x30u8, 0x30u8, 0x36u8, 0x34u8, 0x34u8];
        assert(mode@ =~= mode_file());
        mode
    }
}

/// The address to ask for the refs of the remote at `base`.
pub fn build_refs_url(base: &[u8]) -> (url: Vec<u8>)
    ensures
        url@ == base@ + refs_query(),
{
    let mut url: Vec<u8> = Vec::new();
    append_all(&mut url, base);
    append_all(&mut url, refs_query_bytes().as_slice());
    assert(url@ =~= base@ + refs_query());
    url
}

/// The address to ask for a pack from the remote at `base`.
pub fn build_upload_pack_url(base: &[u8]) -> (url: Vec<u8>)
    ensures
        url@ == base@ + upload_pack_suffix(),
{
    let mut url: Vec<u8> = Vec::new();
    append_all(&mut url, base);
    append_all(&mut url, upload_pack_suffix_bytes().as_slice());
    assert(url@ =~= base@ + upload_pack_suffix());
    url
}

} // verus!
