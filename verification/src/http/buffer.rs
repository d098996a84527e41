//! The byte buffers of the `bytes` crate.
use vstd::prelude::*;

verus! {

/// Whether a buffer can grow to a length: an allocation takes at most `isize::MAX`
/// bytes, and a buffer that grows takes up to twice what it holds.
pub open spec fn allocatable(len: int) -> bool {
    2 * len <= isize::MAX
}

/// Tells whether a buffer can grow to a length.
pub fn can_allocate(len: u64) -> (r: bool)
    ensures
        r == allocatable(len as int),
{
    len <= isize::MAX as u64 / 2
}

/// `bytes::BytesMut`: a buffer that grows.
#[verifier::external_type_specification]
#[verifier::external_body]
pub struct ExBytesMut(bytes::BytesMut);

/// `bytes::Bytes`: bytes that do not change any more.
#[verifier::external_type_specification]
#[verifier::external_body]
pub struct ExBytes(bytes::Bytes);

/// What a `BytesMut` holds.
pub uninterp spec fn buffer_bytes(b: bytes::BytesMut) -> Seq<u8>;

/// What a `Bytes` holds.
pub uninterp spec fn held_bytes(b: bytes::Bytes) -> Seq<u8>;

/// `BytesMut::new` gives an empty buffer.
pub assume_specification[ bytes::BytesMut::new ]() -> (r: bytes::BytesMut)
    ensures
        buffer_bytes(r) == Seq::<u8>::empty(),
;

/// `BytesMut::with_capacity` gives an empty buffer. It panics on a capacity that
/// no allocation can have.
pub assume_specification[ bytes::BytesMut::with_capacity ](capacity: usize) -> (r: bytes::BytesMut)
    requires
        allocatable(capacity as int),
    ensures
        buffer_bytes(r) == Seq::<u8>::empty(),
;

/// `BytesMut::extend_from_slice` appends the bytes of a slice. It panics where
/// the buffer would outgrow what an allocation can have.
pub assume_specification[ bytes::BytesMut::extend_from_slice ](
    b: &mut bytes::BytesMut,
    extend: &[u8],
)
    requires
        allocatable((buffer_bytes(*old(b)).len() + extend@.len()) as int),
    ensures
        buffer_bytes(*final(b)) == buffer_bytes(*old(b)) + extend@,
;

/// `BytesMut::freeze` keeps what the buffer holds.
pub assume_specification[ bytes::BytesMut::freeze ](b: bytes::BytesMut) -> (r: bytes::Bytes)
    ensures
        held_bytes(r) == buffer_bytes(b),
;

/// What a `BytesMut` derefs to: the bytes that it holds.
#[verifier::external_body]
pub(crate) fn buffer_slice(b: &bytes::BytesMut) -> (r: &[u8])
    ensures
        r@ == buffer_bytes(*b),
{
    &b[..]
}

/// What a `Bytes` derefs to: the bytes that it holds.
#[verifier::external_body]
pub(crate) fn bytes_slice(b: &bytes::Bytes) -> (r: &[u8])
    ensures
        r@ == held_bytes(*b),
{
    &b[..]
}

/// `Bytes::from` of a vector: takes over its bytes.
#[verifier::external_body]
pub(crate) fn bytes_of(v: Vec<u8>) -> (r: bytes::Bytes)
    ensures
        held_bytes(r) == v@,
{
    bytes::Bytes::from(v)
}

} // verus!
