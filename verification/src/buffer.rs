//! Byte buffers of the `bytes` crate, known by the bytes that they hold.

use bytes::{Buf, Bytes, BytesMut};
use vstd::prelude::*;

verus! {

#[verifier::external_type_specification]
#[verifier::external_body]
pub struct ExBytes(bytes::Bytes);

#[verifier::external_type_specification]
#[verifier::external_body]
pub struct ExBytesMut(bytes::BytesMut);

/// The bytes that a shared buffer holds.
pub uninterp spec fn shared_bytes(b: bytes::Bytes) -> Seq<u8>;

/// The bytes that a growing buffer holds.
pub uninterp spec fn held_bytes(b: bytes::BytesMut) -> Seq<u8>;

/// `Bytes::deref`: the bytes of a shared buffer.
#[verifier::external_body]
pub(crate) fn shared_slice(b: &Bytes) -> (r: &[u8])
    ensures
        r@ == shared_bytes(*b),
{
    &b[..]
}

/// `Bytes::copy_from_slice`: a shared buffer that holds a copy of the slice.
#[verifier::external_body]
pub(crate) fn shared_copy(data: &[u8]) -> (r: Bytes)
    ensures
        shared_bytes(r) == data@,
{
    Bytes::copy_from_slice(data)
}

/// `BytesMut::with_capacity`: an empty buffer. The capacity stays below what
/// an allocation may have.
#[verifier::external_body]
pub(crate) fn buffer_new(capacity: usize) -> (r: BytesMut)
    requires
        capacity <= usize::MAX / 8,
    ensures
        held_bytes(r) == Seq::<u8>::empty(),
{
    BytesMut::with_capacity(capacity)
}

/// `BytesMut::len`: how many bytes the buffer holds.
#[verifier::external_body]
pub(crate) fn buffer_len(b: &BytesMut) -> (r: usize)
    ensures
        r == held_bytes(*b).len(),
{
    b.len()
}

/// `BytesMut::deref`: the bytes that the buffer holds.
#[verifier::external_body]
pub(crate) fn buffer_slice(b: &BytesMut) -> (r: &[u8])
    ensures
        r@ == held_bytes(*b),
{
    &b[..]
}

/// `BytesMut::deref_mut`, used for one byte: that byte is replaced.
#[verifier::external_body]
pub(crate) fn buffer_set(b: &mut BytesMut, at: usize, value: u8)
    requires
        at < held_bytes(*old(b)).len(),
    ensures
        held_bytes(*final(b)) == held_bytes(*old(b)).update(at as int, value),
{
    b[at] = value;
}

/// `BytesMut::extend_from_slice`: the slice follows what the buffer held. The
/// sum stays below what an allocation may have.
#[verifier::external_body]
pub(crate) fn buffer_extend(b: &mut BytesMut, data: &[u8])
    requires
        held_bytes(*old(b)).len() + data@.len() <= usize::MAX / 8,
    ensures
        held_bytes(*final(b)) == held_bytes(*old(b)) + data@,
{
    b.extend_from_slice(data)
}

/// `BytesMut::advance`: the first `count` bytes leave the buffer.
#[verifier::external_body]
pub(crate) fn buffer_advance(b: &mut BytesMut, count: usize)
    requires
        count <= held_bytes(*old(b)).len(),
    ensures
        held_bytes(*final(b)) == held_bytes(*old(b)).skip(count as int),
{
    b.advance(count)
}

/// `BytesMut::clear`: nothing is left.
#[verifier::external_body]
pub(crate) fn buffer_clear(b: &mut BytesMut)
    ensures
        held_bytes(*final(b)) == Seq::<u8>::empty(),
{
    b.clear()
}

/// `BytesMut::split_to`: the first `count` bytes leave the buffer and are
/// handed back.
#[verifier::external_body]
pub(crate) fn buffer_split_to(b: &mut BytesMut, count: usize) -> (r: BytesMut)
    requires
        count <= held_bytes(*old(b)).len(),
    ensures
        held_bytes(r) == held_bytes(*old(b)).take(count as int),
        held_bytes(*final(b)) == held_bytes(*old(b)).skip(count as int),
{
    b.split_to(count)
}

/// `BytesMut::freeze`: a shared buffer with the same bytes.
#[verifier::external_body]
pub(crate) fn buffer_freeze(b: BytesMut) -> (r: Bytes)
    ensures
        shared_bytes(r) == held_bytes(b),
{
    b.freeze()
}

} // verus!
