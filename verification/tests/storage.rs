use minigit::database::{on_write_error, Database, WriteAction, WriteFailure};
use minigit::hex::HexError;
use minigit::object::{parse_object, Blob, Entry, Object, Tree};

fn db() -> Database {
    Database::new(b"objects".to_vec())
}

#[test]
fn store_assigns_the_sha1_of_the_serialized_bytes() {
    let mut blob = Blob::new(b"hi".to_vec());
    let database = db();
    let write = database.store(&mut blob).unwrap();
    assert_eq!(
        blob.get_oid(),
        b"32f95c0d1244a78b2be1bab8de17906fabb2c4a8".to_vec()
    );
    assert_eq!(
        write.object_path,
        b"objects/32/f95c0d1244a78b2be1bab8de17906fabb2c4a8".to_vec()
    );
    assert_eq!(write.dir, b"objects/32".to_vec());
}

#[test]
fn storing_the_same_content_twice_gives_the_same_digest_and_path() {
    let database = db();
    let mut first = Blob::new(b"same content".to_vec());
    let mut second = Blob::new(b"same content".to_vec());
    let w1 = database.store(&mut first).unwrap();
    let w2 = database.store(&mut second).unwrap();
    assert_eq!(first.get_oid(), second.get_oid());
    assert_eq!(w1.object_path, w2.object_path);
    // The replay writes byte-identical content: the rename replaces the
    // first file with the same bytes.
    assert_eq!(w1.data, w2.data);
}

#[test]
fn compressed_data_decompresses_to_the_serialized_bytes() {
    let database = db();
    let mut blob = Blob::new(b"hi".to_vec());
    let write = database.store(&mut blob).unwrap();
    let restored = inflate::inflate_bytes_zlib(&write.data).unwrap();
    assert_eq!(restored, b"blob 2\x00hi".to_vec());
    // Re-parse the header: type, payload length, payload.
    let (tag, len, payload) = parse_object(restored.as_slice()).unwrap();
    assert_eq!(tag, b"blob".to_vec());
    assert_eq!(len, 2);
    assert_eq!(payload, b"hi".to_vec());
}

#[test]
fn temp_path_never_equals_the_final_path() {
    let database = db();
    let mut blob = Blob::new(b"crash simulation".to_vec());
    let write = database.store(&mut blob).unwrap();
    // A crash after the temp write touches only the temp path, so nothing
    // ever appears at the digest-named path until the rename.
    assert_ne!(write.temp_path, write.object_path);
    let mut prefix = write.dir.clone();
    prefix.extend_from_slice(b"/tmp_obj_");
    assert_eq!(&write.temp_path[..prefix.len()], prefix.as_slice());
    assert_eq!(write.temp_path.len(), prefix.len() + 6);
    assert!(write.temp_path[prefix.len()..]
        .iter()
        .all(|b| b.is_ascii_alphanumeric()));
}

#[test]
fn two_stores_draw_fresh_temp_names() {
    // Not guaranteed distinct (the suffix is random), but both must keep
    // the required shape under the shard directory.
    let database = db();
    let mut b1 = Blob::new(b"x".to_vec());
    let mut b2 = Blob::new(b"x".to_vec());
    let w1 = database.store(&mut b1).unwrap();
    let w2 = database.store(&mut b2).unwrap();
    assert_eq!(w1.dir, w2.dir);
    assert_eq!(w1.temp_path.len(), w2.temp_path.len());
}

#[test]
fn store_propagates_a_tree_digest_decode_error() {
    let database = db();
    let mut tree = Tree::new(vec![Entry::new(b"a".to_vec(), b"nothex".to_vec(), 0o100644)]);
    assert!(matches!(
        database.store(&mut tree),
        Err(HexError::InvalidDigit)
    ));
    // The tree is untouched: no digest was assigned.
    assert_eq!(tree.get_oid(), Vec::<u8>::new());
}

#[test]
fn only_a_missing_shard_directory_is_retried() {
    assert_eq!(
        on_write_error(&WriteFailure::MissingDirectory),
        WriteAction::CreateDirAndRetry
    );
    assert_eq!(on_write_error(&WriteFailure::Other), WriteAction::Fail);
}

#[test]
fn parse_rejects_a_wrong_length_field() {
    assert!(parse_object(b"blob 3\x00hi").is_none());
    assert!(parse_object(b"blob 2hi").is_none());
    assert!(parse_object(b"blobhi").is_none());
    assert_eq!(
        parse_object(b"blob 0\x00"),
        Some((b"blob".to_vec(), 0, Vec::new()))
    );
}
