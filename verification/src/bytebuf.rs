//! Byte buffers for object serialization, backed by `bytes::BytesMut`.
//!
//! The buffer type is opaque here; its contents are named by `bm_bytes`,
//! and each operation the serializers use is a trusted wrapper whose
//! contract states what the crate's source shows it does.

use vstd::prelude::*;

verus! {

#[verifier::external_type_specification]
#[verifier::external_body]
pub struct ExBytesMut(bytes::BytesMut);

/// The bytes a `BytesMut` buffer holds, oldest first.
pub uninterp spec fn bm_bytes(buf: bytes::BytesMut) -> Seq<u8>;

/// Relies on bytes::BytesMut::new: creates an empty buffer.
#[verifier::external_body]
pub(crate) fn bm_new() -> (r: bytes::BytesMut)
    ensures
        bm_bytes(r) == Seq::<u8>::empty(),
{
    bytes::BytesMut::new()
}

/// Relies on bytes::BytesMut::extend_from_slice: appends the given bytes
/// after the buffer's current contents.
#[verifier::external_body]
pub(crate) fn bm_put(buf: &mut bytes::BytesMut, data: &[u8])
    ensures
        bm_bytes(*final(buf)) == bm_bytes(*old(buf)) + data@,
{
    buf.extend_from_slice(data)
}

/// Relies on bytes::BytesMut's slice view (`AsRef<[u8]>`): copies the
/// buffer's contents out in order.
#[verifier::external_body]
pub(crate) fn bm_to_vec(buf: &bytes::BytesMut) -> (r: Vec<u8>)
    ensures
        r@ == bm_bytes(*buf),
{
    buf.as_ref().to_vec()
}

} // verus!
