use minigit::author::Author;
use minigit::hex::HexError;
use minigit::object::{Blob, Commit, Entry, Object, Tree};

#[test]
fn blob_serializes_with_header() {
    let blob = Blob::new(b"hi".to_vec());
    assert_eq!(blob.bytes(), Ok(b"blob 2\x00hi".to_vec()));
}

#[test]
fn empty_blob_serializes_with_zero_length() {
    let blob = Blob::new(Vec::new());
    assert_eq!(blob.bytes(), Ok(b"blob 0\x00".to_vec()));
}

#[test]
fn blob_type_tag() {
    assert_eq!(Blob::new(Vec::new()).get_type(), "blob".to_string());
    assert_eq!(Tree::new(Vec::new()).get_type(), "tree".to_string());
}

#[test]
fn oid_starts_empty_and_is_assignable() {
    let mut blob = Blob::new(b"x".to_vec());
    assert_eq!(blob.get_oid(), Vec::<u8>::new());
    blob.set_oid(b"abc".to_vec());
    assert_eq!(blob.get_oid(), b"abc".to_vec());
}

fn oid_a() -> Vec<u8> {
    b"aaaaaaaaaaaaaaaaaaaaaaaaaaaaaaaaaaaaaaaa".to_vec()
}

fn oid_b() -> Vec<u8> {
    b"bbbbbbbbbbbbbbbbbbbbbbbbbbbbbbbbbbbbbbbb".to_vec()
}

#[test]
fn tree_orders_entries_by_name() {
    let unordered = Tree::new(vec![
        Entry::new(b"b".to_vec(), oid_b(), 0o100644),
        Entry::new(b"a".to_vec(), oid_a(), 0o100644),
    ]);
    let ordered = Tree::new(vec![
        Entry::new(b"a".to_vec(), oid_a(), 0o100644),
        Entry::new(b"b".to_vec(), oid_b(), 0o100644),
    ]);
    assert_eq!(unordered.bytes(), ordered.bytes());
}

#[test]
fn tree_entry_format_is_mode_name_nul_raw_digest() {
    let tree = Tree::new(vec![Entry::new(b"a".to_vec(), oid_a(), 0o100644)]);
    let mut expected = b"tree 29\x00100644 a\x00".to_vec();
    expected.extend_from_slice(&[0xaa; 20]);
    assert_eq!(tree.bytes(), Ok(expected));
}

#[test]
fn tree_with_undecodable_digest_fails() {
    let tree = Tree::new(vec![Entry::new(b"a".to_vec(), b"abc".to_vec(), 0o100644)]);
    assert_eq!(tree.bytes(), Err(HexError::OddLength));
    let tree = Tree::new(vec![Entry::new(b"a".to_vec(), b"zz".to_vec(), 0o100644)]);
    assert_eq!(tree.bytes(), Err(HexError::InvalidDigit));
}

#[test]
fn author_line_format() {
    let author = Author::new(
        b"Alice".to_vec(),
        b"alice@example.com".to_vec(),
        1234567890,
        330,
    );
    assert_eq!(
        author.bytes(),
        b"Alice <alice@example.com> 1234567890 +0530".to_vec()
    );
}

#[test]
fn author_line_negative_offset_and_timestamp() {
    let author = Author::new(b"A".to_vec(), b"a@b".to_vec(), -5, -480);
    assert_eq!(author.bytes(), b"A <a@b> -5 -0800".to_vec());
}

#[test]
fn author_line_extreme_timestamp() {
    let author = Author::new(b"A".to_vec(), b"a@b".to_vec(), i64::MIN, 0);
    assert_eq!(
        author.bytes(),
        b"A <a@b> -9223372036854775808 +0000".to_vec()
    );
}

fn test_author() -> Author {
    Author::new(
        b"Alice".to_vec(),
        b"alice@example.com".to_vec(),
        1234567890,
        330,
    )
}

#[test]
fn commit_serializes_author_and_committer() {
    let commit = Commit::new(None, oid_a(), test_author(), b"first".to_vec());
    let payload = b"tree aaaaaaaaaaaaaaaaaaaaaaaaaaaaaaaaaaaaaaaa\
\nauthor Alice <alice@example.com> 1234567890 +0530\
\ncommitter Alice <alice@example.com> 1234567890 +0530\n\nfirst";
    let mut expected = format!("commit {}\x00", payload.len()).into_bytes();
    expected.extend_from_slice(payload);
    assert_eq!(commit.bytes(), Ok(expected));
}

#[test]
fn root_commit_has_no_parent_line() {
    let root = Commit::new(None, oid_a(), test_author(), b"m".to_vec());
    let bytes = root.bytes().unwrap();
    let needle = b"\nparent ";
    assert!(!bytes
        .windows(needle.len())
        .any(|w| w == needle));
}

#[test]
fn child_commit_has_parent_line() {
    let child = Commit::new(Some(oid_b()), oid_a(), test_author(), b"m".to_vec());
    let bytes = child.bytes().unwrap();
    let needle = b"\nparent bbbbbbbbbbbbbbbbbbbbbbbbbbbbbbbbbbbbbbbb\n".to_vec();
    assert!(bytes
        .windows(needle.len())
        .any(|w| w == needle.as_slice()));
    assert_eq!(child.get_type(), "commit".to_string());
}
