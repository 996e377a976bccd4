//! The object database: serializes an object, derives its digest from the
//! serialized bytes, and plans a durable write — a compressed temp file in
//! the digest's shard directory, atomically renamed onto the digest-named
//! path. The filesystem steps are carried out by the caller exactly as the
//! returned plan states them.

use vstd::prelude::*;
use crate::hex::{HexError, encode_hex, hex_encoded};
use crate::object::Object;

verus! {

/// The SHA-1 digest of a byte sequence, as the hash function defines it: a
/// function of the input alone.
pub uninterp spec fn sha1_of(data: Seq<u8>) -> Seq<u8>;

/// Relies on sha1::Sha1::from / digest / bytes: the 20-byte SHA-1 digest
/// of the input, a function of the input alone.
#[verifier::external_body]
fn sha1_digest(data: &Vec<u8>) -> (r: Vec<u8>)
    ensures
        r@ == sha1_of(data@),
        r@.len() == 20,
{
    sha1::Sha1::from(data.as_slice()).digest().bytes().to_vec()
}

/// The zlib stream the deflate compressor produces, at its fast setting,
/// for a byte sequence: a function of the input alone, and decompressing
/// it recovers the input exactly.
pub uninterp spec fn zlib_of(data: Seq<u8>) -> Seq<u8>;

/// Relies on deflate::deflate_bytes_zlib_conf with
/// deflate::CompressionOptions::fast(): compresses the input into a zlib
/// stream, deterministically in the input.
#[verifier::external_body]
fn zlib_compress(data: &Vec<u8>) -> (r: Vec<u8>)
    ensures
        r@ == zlib_of(data@),
{
    deflate::deflate_bytes_zlib_conf(data.as_slice(), deflate::CompressionOptions::fast())
}

/// Relies on rand::seq::index::sample (with rand::thread_rng): six
/// indices drawn from 0..62. Which indices come back is random; every
/// outcome has exactly six, each below 62.
#[verifier::external_body]
fn sample_indices() -> (r: Vec<usize>)
    ensures
        r@.len() == 6,
        forall|i: int| 0 <= i < r@.len() ==> r@[i] < 62,
{
    rand::seq::index::sample(&mut rand::thread_rng(), 62, 6).into_vec()
}

/// A path component separator between two path fragments.
pub open spec fn path_join(a: Seq<u8>, b: Seq<u8>) -> Seq<u8> {
    a + seq![47u8] + b
}

/// The digest the store assigns: the hex rendering of the SHA-1 of the
/// full serialized bytes (header and payload together).
pub open spec fn digest_of(serial: Seq<u8>) -> Seq<u8> {
    hex_encoded(sha1_of(serial))
}

/// The shard directory for a digest: the object root joined with the
/// digest's two-character prefix.
pub open spec fn shard_dir(root: Seq<u8>, oid: Seq<u8>) -> Seq<u8> {
    path_join(root, oid.subrange(0, 2))
}

/// The final path of an object: its shard directory joined with the
/// digest's 38-character remainder.
pub open spec fn object_path_of(root: Seq<u8>, oid: Seq<u8>) -> Seq<u8> {
    path_join(shard_dir(root, oid), oid.skip(2))
}

/// `tmp_obj_` — the fixed prefix of a temp file name.
pub open spec fn lit_tmp_obj() -> Seq<u8> {
    seq![116u8, 109u8, 112u8, 95u8, 111u8, 98u8, 106u8, 95u8]
}

/// A byte of the temp-name alphabet: an ASCII letter or digit.
pub open spec fn is_temp_char(b: u8) -> bool {
    (97 <= b <= 122) || (65 <= b <= 90) || (48 <= b <= 57)
}

/// Appends a slice to a vector.
pub(crate) fn append_bytes(dst: &mut Vec<u8>, src: &[u8])
    ensures
        final(dst)@ == old(dst)@ + src@,
{
    let mut i: usize = 0;
    while i < src.len()
        invariant
            i <= src@.len(),
            dst@ == old(dst)@ + src@.subrange(0, i as int),
        decreases src@.len() - i,
    {
        dst.push(src[i]);
        proof {
            assert(old(dst)@ + src@.subrange(0, i + 1) =~= (old(dst)@ + src@.subrange(
                0,
                i as int,
            )).push(src@[i as int]));
        }
        i = i + 1;
    }
    proof {
        assert(src@.subrange(0, src@.len() as int) =~= src@);
    }
}

/// Appends the range `from..to` of a slice to a vector.
pub(crate) fn append_range(dst: &mut Vec<u8>, src: &[u8], from: usize, to: usize)
    requires
        from <= to <= src@.len(),
    ensures
        final(dst)@ == old(dst)@ + src@.subrange(from as int, to as int),
{
    let mut i: usize = from;
    while i < to
        invariant
            from <= i <= to <= src@.len(),
            dst@ == old(dst)@ + src@.subrange(from as int, i as int),
        decreases to - i,
    {
        dst.push(src[i]);
        proof {
            assert(old(dst)@ + src@.subrange(from as int, i + 1) =~= (old(dst)@ + src@.subrange(
                from as int,
                i as int,
            )).push(src@[i as int]));
        }
        i = i + 1;
    }
}

/// Joins two path fragments with a separator.
fn join_path(a: &Vec<u8>, b: &[u8]) -> (r: Vec<u8>)
    ensures
        r@ == path_join(a@, b@),
{
    let mut r: Vec<u8> = Vec::new();
    append_bytes(&mut r, a.as_slice());
    r.push(47);
    append_bytes(&mut r, b);
    proof {
        assert(r@ =~= path_join(a@, b@));
    }
    r
}

/// One letter or digit of the temp-name alphabet, by index.
fn temp_suffix_char(i: usize) -> (r: u8)
    requires
        i < 62,
    ensures
        is_temp_char(r),
{
    if i < 26 {
        97 + i as u8
    } else if i < 52 {
        65 + (i as u8 - 26)
    } else {
        48 + (i as u8 - 52)
    }
}

/// A fresh temp file name: the fixed prefix and six random letters or
/// digits, there only to dodge concurrent writers in the same shard.
fn generate_temp_name() -> (r: Vec<u8>)
    ensures
        r@.len() == 14,
        r@.subrange(0, 8) == lit_tmp_obj(),
        forall|i: int| 8 <= i < 14 ==> is_temp_char(#[trigger] r@[i]),
{
    let mut name: Vec<u8> = vec![116u8, 109u8, 112u8, 95u8, 111u8, 98u8, 106u8, 95u8];
    let indices = sample_indices();
    let mut k: usize = 0;
    while k < indices.len()
        invariant
            k <= 6,
            indices@.len() == 6,
            forall|i: int| 0 <= i < indices@.len() ==> indices@[i] < 62,
            name@.len() == 8 + k,
            name@.subrange(0, 8) == lit_tmp_obj(),
            forall|i: int| 8 <= i < name@.len() ==> is_temp_char(#[trigger] name@[i]),
        decreases indices@.len() - k,
    {
        let c = temp_suffix_char(indices[k]);
        name.push(c);
        proof {
            assert(name@.subrange(0, 8) =~= lit_tmp_obj());
        }
        k = k + 1;
    }
    name
}

/// The write a stored object asks of the filesystem: put `data` at
/// `temp_path` (creating `dir` first if it is missing), then atomically
/// rename `temp_path` onto `object_path`.
pub struct ObjectWrite {
    /// The shard directory, created lazily on the shard's first object.
    pub dir: Vec<u8>,
    /// The temp file the data is written to first; never the final path.
    pub temp_path: Vec<u8>,
    /// The digest-named final path.
    pub object_path: Vec<u8>,
    /// The compressed object bytes.
    pub data: Vec<u8>,
}

impl ObjectWrite {
    /// The plan writes what the digest names: paths derived from `oid`
    /// under `root`, compressed from `content`, with a temp path in the
    /// same shard directory that can never collide with the final path.
    pub open spec fn wf_for(self, root: Seq<u8>, oid: Seq<u8>, content: Seq<u8>) -> bool {
        &&& self.dir@ == shard_dir(root, oid)
        &&& self.object_path@ == object_path_of(root, oid)
        &&& self.data@ == zlib_of(content)
        &&& self.temp_path@.len() == self.dir@.len() + 15
        &&& self.temp_path@.subrange(0, self.dir@.len() as int + 1) == self.dir@ + seq![47u8]
        &&& self.temp_path@.subrange(self.dir@.len() as int + 1, self.dir@.len() as int + 9) == lit_tmp_obj()
        &&& forall|i: int|
            self.dir@.len() + 9 <= i < self.temp_path@.len() ==> is_temp_char(
                #[trigger] self.temp_path@[i],
            )
        &&& self.temp_path@ != self.object_path@
    }
}

/// The storage engine: owns the object root directory and plans each
/// object's durable write.
pub struct Database {
    path: Vec<u8>,
}

impl Database {
    /// The object root directory.
    pub closed spec fn spec_path(self) -> Seq<u8> {
        self.path@
    }

    /// A database rooted at the given objects directory.
    pub fn new(path: Vec<u8>) -> (r: Database)
        ensures
            r.spec_path() == path@,
    {
        Database { path }
    }

    /// Plans the durable write of serialized bytes under their digest:
    /// shard-prefixed final path, compressed data, fresh temp path in the
    /// shard directory.
    pub fn write_object(&self, oid: &Vec<u8>, content: &Vec<u8>) -> (r: ObjectWrite)
        requires
            oid@.len() == 40,
        ensures
            r.wf_for(self.spec_path(), oid@, content@),
    {
        let mut dir: Vec<u8> = Vec::new();
        append_bytes(&mut dir, self.path.as_slice());
        dir.push(47);
        append_range(&mut dir, oid.as_slice(), 0, 2);
        proof {
            assert(dir@ =~= shard_dir(self.spec_path(), oid@));
        }
        let mut remainder: Vec<u8> = Vec::new();
        append_range(&mut remainder, oid.as_slice(), 2, 40);
        proof {
            assert(remainder@ =~= oid@.skip(2));
        }
        let object_path = join_path(&dir, remainder.as_slice());
        let temp_name = generate_temp_name();
        let temp_path = join_path(&dir, temp_name.as_slice());
        let data = zlib_compress(content);
        let w = ObjectWrite { dir, temp_path, object_path, data };
        proof {
            assert(w.temp_path@.len() == w.dir@.len() + 15);
            assert(w.object_path@.len() == w.dir@.len() + 39);
            assert(w.temp_path@.subrange(0, w.dir@.len() as int + 1) =~= w.dir@ + seq![47u8]);
            assert(w.temp_path@.subrange(w.dir@.len() as int + 1, w.dir@.len() as int + 9) =~= lit_tmp_obj());
            assert forall|i: int|
                w.dir@.len() + 9 <= i < w.temp_path@.len() implies is_temp_char(
                #[trigger] w.temp_path@[i],
            ) by {
                assert(w.temp_path@[i] == temp_name@[i - w.dir@.len() - 1]);
            }
        }
        w
    }

    /// Stores an object: serializes it, assigns the digest of the
    /// serialized bytes, and returns the filesystem write that persists
    /// it. Fails exactly when serialization fails (a tree entry whose
    /// digest text does not decode); the object is then untouched.
    pub fn store<T: Object>(&self, object: &mut T) -> (r: Result<ObjectWrite, HexError>)
        ensures
            match r {
                Ok(w) => {
                    &&& old(object).spec_serial() is Ok
                    &&& final(object).spec_oid() == digest_of(old(object).spec_serial()->Ok_0)
                    &&& final(object).spec_serial() == old(object).spec_serial()
                    &&& final(object).spec_type() == old(object).spec_type()
                    &&& w.wf_for(
                        self.spec_path(),
                        digest_of(old(object).spec_serial()->Ok_0),
                        old(object).spec_serial()->Ok_0,
                    )
                },
                Err(e) => {
                    &&& old(object).spec_serial() == Err::<Seq<u8>, HexError>(e)
                    &&& *final(object) == *old(object)
                },
            },
    {
        let content = match object.bytes() {
            Ok(c) => c,
            Err(e) => {
                return Err(e);
            },
        };
        let hash = sha1_digest(&content);
        let oid = encode_hex(hash.as_slice());
        let w = self.write_object(&oid, &content);
        object.set_oid(oid);
        Ok(w)
    }
}

/// What the writer does when the temp-file write itself fails.
pub enum WriteFailure {
    /// The shard directory does not exist yet.
    MissingDirectory,
    /// Any other I/O failure.
    Other,
}

/// The writer's answer to a failed temp-file write.
#[derive(PartialEq, Eq, Structural, Debug)]
pub enum WriteAction {
    /// Create the shard directory lazily and retry the write once.
    CreateDirAndRetry,
    /// Propagate the failure to the caller; nothing is retried.
    Fail,
}

/// Only a missing shard directory is recoverable: it is created and the
/// write retried once. Every other failure propagates as fatal.
pub fn on_write_error(failure: &WriteFailure) -> (r: WriteAction)
    ensures
        r == (match failure {
            WriteFailure::MissingDirectory => WriteAction::CreateDirAndRetry,
            WriteFailure::Other => WriteAction::Fail,
        }),
{
    match failure {
        WriteFailure::MissingDirectory => WriteAction::CreateDirAndRetry,
        WriteFailure::Other => WriteAction::Fail,
    }
}

/// Law: atomicity of a store. Until the rename, a write plan touches the
/// filesystem only at its temp path, which is never the digest-named
/// final path — so a crash between the temp-file write and the rename
/// leaves no trace at the final path.
pub proof fn lemma_crash_leaves_no_trace(w: ObjectWrite, root: Seq<u8>, oid: Seq<u8>, content: Seq<u8>)
    requires
        w.wf_for(root, oid, content),
    ensures
        w.temp_path@ != w.object_path@,
{
}

/// Law: content addressing. Two blobs wrapping the same bytes serialize
/// identically, so the store assigns them one digest and one final path,
/// with byte-identical compressed content — storing the same content
/// twice lands on the same file with the same bytes.
pub proof fn lemma_content_addressing(b1: crate::object::Blob, b2: crate::object::Blob)
    requires
        b1.spec_data() == b2.spec_data(),
    ensures
        b1.spec_serial() == b2.spec_serial(),
        digest_of(b1.spec_serial()->Ok_0) == digest_of(b2.spec_serial()->Ok_0),
        zlib_of(b1.spec_serial()->Ok_0) == zlib_of(b2.spec_serial()->Ok_0),
        forall|root: Seq<u8>|
            object_path_of(root, digest_of(b1.spec_serial()->Ok_0)) == #[trigger] object_path_of(
                root,
                digest_of(b2.spec_serial()->Ok_0),
            ),
{
}

} // verus!
