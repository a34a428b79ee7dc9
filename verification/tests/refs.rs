use minigit::error::GitError;
use minigit::refs::{
    build_branch_ref_path, build_head_file, build_ref_file, build_want_request, get_head_commit,
    parse_default_branch, plan_fetch,
};

const ID: &str = "47b37f1a82bfe85f6d8df52b6258b75e4343b7fd";

fn advertisement(branch: &str) -> Vec<u8> {
    format!(
        "001e# service=git-upload-pack\n0000\
         0155{id} HEAD\0multi_ack thin-pack side-band symref=HEAD:refs/heads/{b} agent=git/2\n\
         003f{id} refs/heads/{b}\n0000",
        id = ID,
        b = branch
    )
    .into_bytes()
}

#[test]
fn head_commit_of_master() {
    assert_eq!(get_head_commit(&advertisement("master")), Some(ID.as_bytes().to_vec()));
}

#[test]
fn head_commit_of_main() {
    assert_eq!(get_head_commit(&advertisement("main")), Some(ID.as_bytes().to_vec()));
    let crlf = format!("003f{} refs/heads/main\r\nrest", ID).into_bytes();
    assert_eq!(get_head_commit(&crlf), Some(ID.as_bytes().to_vec()));
}

#[test]
fn no_head_commit() {
    assert_eq!(get_head_commit(b""), None);
    assert_eq!(get_head_commit(&advertisement("develop")), None);
    assert_eq!(get_head_commit(b"003fnothexnothexnothexnothexnothexnothexnoth refs/heads/main\n"), None);
    assert_eq!(get_head_commit(b"0000 refs/heads/main\n"), None);
    assert_eq!(get_head_commit(format!("003f{} refs/heads/main2\n", ID).as_bytes()), None);
}

#[test]
fn default_branch_from_symref() {
    assert_eq!(parse_default_branch(&advertisement("master")), Some(b"master".to_vec()));
    assert_eq!(parse_default_branch(&advertisement("trunk")), Some(b"trunk".to_vec()));
    assert_eq!(
        parse_default_branch(b"x symref=HEAD:refs/heads/dev\nmore"),
        Some(b"dev".to_vec())
    );
    assert_eq!(parse_default_branch(b"x symref=HEAD:refs/tags/v1 y\n"), None);
    assert_eq!(
        parse_default_branch(b"symref=HEAD:refs/tags/v1\nsymref=HEAD:refs/heads/next z"),
        Some(b"next".to_vec())
    );
    assert_eq!(parse_default_branch(b"no capability here\n"), None);
}

#[test]
fn want_request_is_framed() {
    let body = build_want_request(ID.as_bytes());
    assert_eq!(body, format!("0032want {}\n00000009done\n", ID).into_bytes());
    assert_eq!(body.len(), 50 + 4 + 9);
}

#[test]
fn fetch_plan() {
    let plan = plan_fetch(&advertisement("master")).unwrap();
    assert_eq!(plan.want, ID.as_bytes().to_vec());
    assert_eq!(plan.want.len(), 40);
    assert_eq!(plan.branch, b"master".to_vec());
    assert_eq!(plan.request, format!("0032want {}\n00000009done\n", ID).into_bytes());
    let bare = format!("003f{} refs/heads/master\n", ID).into_bytes();
    assert_eq!(plan_fetch(&bare).unwrap().branch, b"main".to_vec());
    assert!(matches!(plan_fetch(b"0000"), Err(GitError::Protocol)));
}

#[test]
fn head_and_ref_files() {
    assert_eq!(build_head_file(b"main"), b"ref: refs/heads/main\n".to_vec());
    assert_eq!(build_ref_file(ID.as_bytes()), format!("{}\n", ID).into_bytes());
    assert_eq!(build_branch_ref_path(b"main"), b".git/refs/heads/main".to_vec());
}
