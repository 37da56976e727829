//! The byte buffers of a connection, from the `bytes` crate.
//!
//! A `BytesMut` is the growable input or output buffer; splitting a prefix off it and
//! freezing that prefix gives an immutable `Bytes` snapshot that shares no mutable
//! bytes with what remains.
use vstd::prelude::*;
use bytes::{Bytes, BytesMut};

verus! {

#[verifier::external_type_specification]
#[verifier::external_body]
pub struct ExBytesMut(BytesMut);

#[verifier::external_type_specification]
#[verifier::external_body]
pub struct ExBytes(Bytes);

/// The bytes a `BytesMut` holds, from its start to its length.
pub uninterp spec fn buf_view(b: BytesMut) -> Seq<u8>;

/// The bytes a `Bytes` holds.
pub uninterp spec fn bytes_view(b: Bytes) -> Seq<u8>;

/// Relies on BytesMut::with_capacity: a new buffer is empty.
#[verifier::external_body]
pub(crate) fn buf_with_capacity(capacity: usize) -> (r: BytesMut)
    ensures
        buf_view(r) == Seq::<u8>::empty(),
{
    BytesMut::with_capacity(capacity)
}

/// Relies on BytesMut's `Deref` to `[u8]`: the slice is the buffer's contents.
#[verifier::external_body]
pub(crate) fn buf_bytes(b: &BytesMut) -> (r: &[u8])
    ensures
        r@ == buf_view(*b),
{
    &b[..]
}

/// Relies on BytesMut::extend_from_slice: the bytes are appended.
#[verifier::external_body]
pub(crate) fn buf_extend(b: &mut BytesMut, data: &[u8])
    ensures
        buf_view(*final(b)) == buf_view(*old(b)) + data@,
{
    b.extend_from_slice(data)
}

/// Relies on BytesMut::split_to: the first `at` bytes are returned and the rest stay.
/// It panics when `at` exceeds the length, which `requires` rules out.
#[verifier::external_body]
pub(crate) fn buf_split_to(b: &mut BytesMut, at: usize) -> (r: BytesMut)
    requires
        at <= buf_view(*old(b)).len(),
    ensures
        buf_view(r) == buf_view(*old(b)).subrange(0, at as int),
        buf_view(*final(b)) == buf_view(*old(b)).subrange(at as int, buf_view(*old(b)).len() as int),
{
    b.split_to(at)
}

/// Relies on BytesMut::freeze: the snapshot holds the same bytes.
#[verifier::external_body]
pub(crate) fn buf_freeze(b: BytesMut) -> (r: Bytes)
    ensures
        bytes_view(r) == buf_view(b),
{
    b.freeze()
}

/// Relies on BytesMut::clear: the buffer becomes empty.
#[verifier::external_body]
pub(crate) fn buf_clear(b: &mut BytesMut)
    ensures
        buf_view(*final(b)) == Seq::<u8>::empty(),
{
    b.clear()
}

/// Relies on BytesMut::try_reclaim: it may move or grow the allocation, never the
/// contents.
#[verifier::external_body]
pub(crate) fn buf_try_reclaim(b: &mut BytesMut, additional: usize) -> (r: bool)
    ensures
        buf_view(*final(b)) == buf_view(*old(b)),
{
    b.try_reclaim(additional)
}

/// Relies on Bytes's `Deref` to `[u8]`: the slice is the snapshot's contents.
#[verifier::external_body]
pub(crate) fn bytes_bytes(b: &Bytes) -> (r: &[u8])
    ensures
        r@ == bytes_view(*b),
{
    &b[..]
}

/// Relies on Bytes::slice: a view of the bytes `start..end`, sharing the snapshot.
/// It panics on a range outside the snapshot, which `requires` rules out.
#[verifier::external_body]
pub(crate) fn bytes_slice(b: &Bytes, start: usize, end: usize) -> (r: Bytes)
    requires
        start <= end <= bytes_view(*b).len(),
    ensures
        bytes_view(r) == bytes_view(*b).subrange(start as int, end as int),
{
    b.slice(start..end)
}

} // verus!
