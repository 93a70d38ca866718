//! Byte buffers of the `bytes` crate, and what the library relies on about them.

use bytes::{BufMut, Bytes, BytesMut};
use vstd::prelude::*;
use crate::wire;

verus! {

/// Growable byte buffer of the `bytes` crate.
#[verifier::external_type_specification]
#[verifier::external_body]
pub struct ExBytesMut(BytesMut);

/// Shared immutable byte buffer of the `bytes` crate.
#[verifier::external_type_specification]
#[verifier::external_body]
pub struct ExBytes(Bytes);

/// The bytes that a `BytesMut` holds.
pub uninterp spec fn buffer_content(b: BytesMut) -> Seq<u8>;

/// The bytes that a `Bytes` holds.
pub uninterp spec fn bytes_content(b: Bytes) -> Seq<u8>;

/// Calls `BytesMut::clear`: the buffer holds nothing afterwards.
#[verifier::external_body]
pub(crate) fn buffer_clear(b: &mut BytesMut)
    ensures
        buffer_content(*final(b)) == Seq::<u8>::empty(),
{
    b.clear()
}

/// Calls `BytesMut::reserve`: it changes what is allocated, not what the buffer
/// holds. It panics where the new length could not be allocated at all.
#[verifier::external_body]
pub(crate) fn buffer_reserve(b: &mut BytesMut, additional: usize)
    requires
        buffer_content(*old(b)).len() + additional <= isize::MAX,
    ensures
        buffer_content(*final(b)) == buffer_content(*old(b)),
{
    b.reserve(additional)
}

/// Calls `BufMut::put_slice` of `BytesMut`: it appends the bytes of `src`, growing
/// the buffer as needed.
#[verifier::external_body]
pub(crate) fn buffer_put_slice(b: &mut BytesMut, src: &[u8])
    requires
        buffer_content(*old(b)).len() + src@.len() <= isize::MAX,
    ensures
        buffer_content(*final(b)) == buffer_content(*old(b)) + src@,
{
    b.put_slice(src)
}

/// Calls `BytesMut::extend_from_slice`: it appends the bytes of `src`, growing the buffer
/// as needed.
#[verifier::external_body]
pub(crate) fn buffer_extend_from_slice(b: &mut BytesMut, src: &[u8])
    requires
        buffer_content(*old(b)).len() + src@.len() <= isize::MAX,
    ensures
        buffer_content(*final(b)) == buffer_content(*old(b)) + src@,
{
    b.extend_from_slice(src)
}

/// Calls `BufMut::put_u8` of `BytesMut`: it appends the byte.
#[verifier::external_body]
pub(crate) fn buffer_put_u8(b: &mut BytesMut, v: u8)
    requires
        buffer_content(*old(b)).len() + 1 <= isize::MAX,
    ensures
        buffer_content(*final(b)) == buffer_content(*old(b)).push(v),
{
    b.put_u8(v)
}

/// Calls `BufMut::put_u32` of `BytesMut`: it appends the four bytes of the number, most
/// significant first.
#[verifier::external_body]
pub(crate) fn buffer_put_u32(b: &mut BytesMut, v: u32)
    requires
        buffer_content(*old(b)).len() + 4 <= isize::MAX,
    ensures
        buffer_content(*final(b)) == buffer_content(*old(b)) + wire::be32_bytes(v),
{
    b.put_u32(v)
}

/// Calls `BytesMut::len`: the number of bytes that the buffer holds.
#[verifier::external_body]
pub(crate) fn buffer_len(b: &BytesMut) -> (n: usize)
    ensures
        n == buffer_content(*b).len(),
{
    b.len()
}

/// Calls `BytesMut::capacity`: room for at least what the buffer holds. How much more is
/// the allocator's affair.
#[verifier::external_body]
pub(crate) fn buffer_capacity(b: &BytesMut) -> (n: usize)
    ensures
        n >= buffer_content(*b).len(),
{
    b.capacity()
}

/// Calls `BytesMut::split_to`: the first `at` bytes leave the buffer for a new one. It
/// panics where the buffer holds fewer.
#[verifier::external_body]
pub(crate) fn buffer_split_to(b: &mut BytesMut, at: usize) -> (head: BytesMut)
    requires
        at <= buffer_content(*old(b)).len(),
    ensures
        buffer_content(head) == buffer_content(*old(b)).take(at as int),
        buffer_content(*final(b)) == buffer_content(*old(b)).skip(at as int),
{
    b.split_to(at)
}

/// Calls `BytesMut::freeze`: it keeps the bytes, and makes them immutable.
#[verifier::external_body]
pub(crate) fn buffer_freeze(b: BytesMut) -> (r: Bytes)
    ensures
        bytes_content(r) == buffer_content(b),
{
    b.freeze()
}

/// Calls `DerefMut::deref_mut` of `BytesMut`: the slice it gives is the buffer's
/// content, and what is written to the slice is what the buffer then holds.
#[verifier::external_body]
pub(crate) fn buffer_as_mut_slice(b: &mut BytesMut) -> (s: &mut [u8])
    ensures
        s@ == buffer_content(*old(b)),
        buffer_content(*final(b)) == final(s)@,
{
    &mut b[..]
}

/// Calls `Deref::deref` of `Bytes`: the slice it gives is the content.
#[verifier::external_body]
pub(crate) fn bytes_as_slice(b: &Bytes) -> (s: &[u8])
    ensures
        s@ == bytes_content(*b),
{
    &b[..]
}

/// Calls `Bytes::slice`: it shares the bytes from `at` to the end. It panics where `at` is
/// behind the end.
#[verifier::external_body]
pub(crate) fn bytes_slice_from(b: &Bytes, at: usize) -> (r: Bytes)
    requires
        at <= bytes_content(*b).len(),
    ensures
        bytes_content(r) == bytes_content(*b).skip(at as int),
{
    b.slice(at..)
}

} // verus!
