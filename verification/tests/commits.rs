use minigit::commit::{
    build_commit_payload, commit_tree_id, create_commit, default_identity_bytes,
};
use minigit::error::GitError;
use minigit::object::cat_file_object;

const TREE: &[u8] = b"5ddb101b49ac18f7fd0b82d827a780751660407f";
const PARENT: &[u8] = b"77d61ade0b037fed134cea322dddd8a1c29a29b4";

#[test]
fn commit_with_parent() {
    let who = default_identity_bytes();
    let commit = create_commit(TREE, &vec![PARENT.to_vec()], &who, &who, b"msg").unwrap();
    assert_eq!(commit.id, b"5e6a0620106d0aede722be50ecdc5094f1e205bb".to_vec());
    let text = cat_file_object(&commit.compressed).unwrap();
    let expected = "tree 5ddb101b49ac18f7fd0b82d827a780751660407f\n\
                    parent 77d61ade0b037fed134cea322dddd8a1c29a29b4\n\
                    author John Doe <john.doe@example.com> 1719158400 +0000\n\
                    committer John Doe <john.doe@example.com> 1719158400 +0000\n\
                    \nmsg\n";
    assert_eq!(text, expected.as_bytes().to_vec());
    let again = create_commit(TREE, &vec![PARENT.to_vec()], &who, &who, b"msg").unwrap();
    assert_eq!(again.id, commit.id);
}

#[test]
fn root_commit_has_no_parent_line() {
    let who = default_identity_bytes();
    let commit = create_commit(TREE, &Vec::new(), &who, &who, b"first\n").unwrap();
    assert_eq!(commit.id, PARENT.to_vec());
}

#[test]
fn message_gets_one_final_newline() {
    let with = build_commit_payload(TREE, &Vec::new(), b"a", b"c", b"text\n");
    let without = build_commit_payload(TREE, &Vec::new(), b"a", b"c", b"text");
    assert_eq!(with, without);
    assert!(with.ends_with(b"\ncommitter c\n\ntext\n"));
    let empty = build_commit_payload(TREE, &Vec::new(), b"a", b"c", b"");
    assert!(empty.ends_with(b"\ncommitter c\n\n\n"));
}

#[test]
fn several_parents_in_order() {
    let payload =
        build_commit_payload(TREE, &vec![PARENT.to_vec(), TREE.to_vec()], b"a", b"c", b"m");
    let expected = format!(
        "tree {t}\nparent {p}\nparent {t}\nauthor a\ncommitter c\n\nm\n",
        t = String::from_utf8_lossy(TREE),
        p = String::from_utf8_lossy(PARENT)
    );
    assert_eq!(payload, expected.into_bytes());
}

#[test]
fn identities_must_be_forty_hex_digits() {
    let who = default_identity_bytes();
    let none: Vec<Vec<u8>> = Vec::new();
    assert!(matches!(
        create_commit(b"abc", &none, &who, &who, b"m"),
        Err(GitError::MalformedObject)
    ));
    assert!(matches!(
        create_commit(b"5DDB101B49AC18F7FD0B82D827A780751660407F", &none, &who, &who, b"m"),
        Err(GitError::MalformedObject)
    ));
    assert!(matches!(
        create_commit(TREE, &vec![b"zz".to_vec()], &who, &who, b"m"),
        Err(GitError::MalformedObject)
    ));
}

#[test]
fn commit_names_its_tree() {
    let who = default_identity_bytes();
    let payload = build_commit_payload(TREE, &vec![PARENT.to_vec()], &who, &who, b"m");
    assert_eq!(commit_tree_id(&payload), Ok(TREE.to_vec()));
    assert_eq!(commit_tree_id(b"tree short\n"), Err(GitError::MalformedObject));
    assert_eq!(
        commit_tree_id(b"parent 5ddb101b49ac18f7fd0b82d827a780751660407f\n"),
        Err(GitError::MalformedObject)
    );
    assert_eq!(
        commit_tree_id(b"tree 5ddb101b49ac18f7fd0b82d827a780751660407f "),
        Err(GitError::MalformedObject)
    );
}
