use minigit::repo::{
    build_refs_url, build_upload_pack_url, child_mode_bytes, head_path_bytes, is_ignored,
    request_content_type_bytes, result_content_type_bytes, skeleton_directories,
};

#[test]
fn repository_skeleton() {
    assert_eq!(
        skeleton_directories(),
        vec![
            b".git".to_vec(),
            b".git/objects".to_vec(),
            b".git/refs".to_vec(),
            b".git/refs/heads".to_vec(),
        ]
    );
    assert_eq!(head_path_bytes(), b".git/HEAD".to_vec());
}

#[test]
fn only_the_repository_directory_is_ignored() {
    assert!(is_ignored(b".git"));
    assert!(!is_ignored(b".gitignore"));
    assert!(!is_ignored(b".gi"));
    assert!(!is_ignored(b"git"));
    assert!(!is_ignored(b""));
}

#[test]
fn modes_of_children() {
    assert_eq!(child_mode_bytes(true), b"40000".to_vec());
    assert_eq!(child_mode_bytes(false), b"100644".to_vec());
}

#[test]
fn request_addresses() {
    assert_eq!(
        build_refs_url(b"https://example.com/repo"),
        b"https://example.com/repo/info/refs?service=git-upload-pack".to_vec()
    );
    assert_eq!(
        build_upload_pack_url(b"https://example.com/repo"),
        b"https://example.com/repo/git-upload-pack".to_vec()
    );
    assert_eq!(request_content_type_bytes(), b"application/x-git-upload-pack-request".to_vec());
    assert_eq!(result_content_type_bytes(), b"application/x-git-upload-pack-result".to_vec());
}
