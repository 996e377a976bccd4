//! The whole flow on one file, with the real hash and compressor: a blob,
//! a tree holding it, a commit recording the tree, and HEAD repointed at
//! the commit.

use minigit::author::Author;
use minigit::database::Database;
use minigit::lockfile::CreateOutcome;
use minigit::object::{parse_object, Blob, Commit, Entry, Object, Tree};
use minigit::refs::Refs;
use minigit::workspace::Workspace;

#[test]
fn commit_one_file_end_to_end() {
    // The workspace yields one trackable file, "hello.txt" holding "hi";
    // the metadata directory itself is never tracked.
    assert!(Workspace::is_ignored(b".git"));
    assert!(!Workspace::is_ignored(b"hello.txt"));

    let database = Database::new(b".git/objects".to_vec());
    let refs = Refs::new(b".git".to_vec());

    // No commits yet: HEAD is absent, so this commit is the root commit.
    let parent = refs.read_head(None);
    assert_eq!(parent, None);

    let mut blob = Blob::new(b"hi".to_vec());
    database.store(&mut blob).unwrap();

    let entry = Entry::new(b"hello.txt".to_vec(), blob.get_oid(), 0o100644);
    let mut tree = Tree::new(vec![entry]);
    let tree_write = database.store(&mut tree).unwrap();

    let author = Author::new(
        b"Alice".to_vec(),
        b"alice@example.com".to_vec(),
        1234567890,
        330,
    );
    let mut commit = Commit::new(parent, tree.get_oid(), author, b"first".to_vec());
    let commit_write = database.store(&mut commit).unwrap();

    // HEAD now holds a 40-character hex digest and a newline.
    let head = refs
        .update_head(commit.get_oid().as_slice(), CreateOutcome::Created)
        .unwrap();
    assert_eq!(head.target_path, b".git/HEAD".to_vec());
    assert_eq!(head.data.len(), 41);
    assert_eq!(head.data.last(), Some(&b'\n'));
    let digest = &head.data[..40];
    assert!(digest.iter().all(|b| b.is_ascii_hexdigit()));
    assert_eq!(digest, commit.get_oid().as_slice());

    // The object stored under that digest decompresses to a commit whose
    // tree line references the stored tree.
    let commit_bytes = inflate::inflate_bytes_zlib(&commit_write.data).unwrap();
    let (tag, len, payload) = parse_object(commit_bytes.as_slice()).unwrap();
    assert_eq!(tag, b"commit".to_vec());
    assert_eq!(len, payload.len());
    let mut tree_line = b"tree ".to_vec();
    tree_line.extend_from_slice(tree.get_oid().as_slice());
    assert!(payload.starts_with(tree_line.as_slice()));
    // A root commit: no parent line anywhere in the payload.
    assert!(!payload.windows(8).any(|w| w == b"\nparent "));

    // That tree holds exactly one entry, named "hello.txt".
    let tree_bytes = inflate::inflate_bytes_zlib(&tree_write.data).unwrap();
    let (tag, _, tree_payload) = parse_object(tree_bytes.as_slice()).unwrap();
    assert_eq!(tag, b"tree".to_vec());
    let mut entry_head = b"100644 hello.txt\x00".to_vec();
    assert!(tree_payload.starts_with(entry_head.as_slice()));
    entry_head.extend_from_slice(&[0u8; 20]);
    // One entry: mode, space, name, NUL, and a 20-byte raw digest.
    assert_eq!(tree_payload.len(), entry_head.len());

    // Known digests for this exact content, computed independently.
    assert_eq!(
        blob.get_oid(),
        b"32f95c0d1244a78b2be1bab8de17906fabb2c4a8".to_vec()
    );
    assert_eq!(
        tree.get_oid(),
        b"2f94a8bb02683a65f8f3d70ce28c3725463c8759".to_vec()
    );
    assert_eq!(
        commit.get_oid(),
        b"a55902c0ba7f9eecc9b3bd5e6f22eeffdbc716a6".to_vec()
    );
}
