//! The byte buffers of the `bytes` crate, as the wire codec sees them.
//!
//! `Bytes` is a read cursor over received data, `BytesMut` a growable
//! output buffer. Their contents are named by `bytes_view` and
//! `bytes_mut_view`; every operation the codec performs on them is one
//! trusted wrapper below whose contract restates the crate's documentation.
use bytes::{Buf, BufMut, Bytes, BytesMut};
use vstd::bytes::*;
use vstd::prelude::*;

verus! {

#[verifier::external_type_specification]
#[verifier::external_body]
pub struct ExBytes(Bytes);

#[verifier::external_type_specification]
#[verifier::external_body]
pub struct ExBytesMut(BytesMut);

/// The bytes that a `Bytes` cursor still holds, from its current position on.
pub uninterp spec fn bytes_view(b: Bytes) -> Seq<u8>;

/// The bytes written into a `BytesMut` so far.
pub uninterp spec fn bytes_mut_view(b: BytesMut) -> Seq<u8>;

/// The largest length a `BytesMut` may grow to before it refuses to allocate.
pub open spec fn buf_limit() -> int {
    isize::MAX as int
}

/// `Buf::remaining` on `Bytes`: the number of bytes left to read.
#[verifier::external_body]
pub(crate) fn remaining(b: &Bytes) -> (r: usize)
    ensures
        r == bytes_view(*b).len(),
{
    b.remaining()
}

/// `Buf::get_u8`: returns the first byte and advances past it.
#[verifier::external_body]
pub(crate) fn get_u8(b: &mut Bytes) -> (r: u8)
    requires
        bytes_view(*old(b)).len() >= 1,
    ensures
        r == bytes_view(*old(b))[0],
        bytes_view(*final(b)) == bytes_view(*old(b)).skip(1),
{
    b.get_u8()
}

/// `Buf::get_u16_le`: decodes the first two bytes little-endian and advances past them.
#[verifier::external_body]
pub(crate) fn get_u16_le(b: &mut Bytes) -> (r: u16)
    requires
        bytes_view(*old(b)).len() >= 2,
    ensures
        r == spec_u16_from_le_bytes(bytes_view(*old(b)).take(2)),
        bytes_view(*final(b)) == bytes_view(*old(b)).skip(2),
{
    b.get_u16_le()
}

/// `Buf::get_i16_le`: the first two bytes, little-endian, as a two's complement value.
#[verifier::external_body]
pub(crate) fn get_i16_le(b: &mut Bytes) -> (r: i16)
    requires
        bytes_view(*old(b)).len() >= 2,
    ensures
        r == spec_u16_from_le_bytes(bytes_view(*old(b)).take(2)) as i16,
        bytes_view(*final(b)) == bytes_view(*old(b)).skip(2),
{
    b.get_i16_le()
}

/// `Buf::get_u32_le`: decodes the first four bytes little-endian and advances past them.
#[verifier::external_body]
pub(crate) fn get_u32_le(b: &mut Bytes) -> (r: u32)
    requires
        bytes_view(*old(b)).len() >= 4,
    ensures
        r == spec_u32_from_le_bytes(bytes_view(*old(b)).take(4)),
        bytes_view(*final(b)) == bytes_view(*old(b)).skip(4),
{
    b.get_u32_le()
}

/// `Buf::get_u64_le`: decodes the first eight bytes little-endian and advances past them.
#[verifier::external_body]
pub(crate) fn get_u64_le(b: &mut Bytes) -> (r: u64)
    requires
        bytes_view(*old(b)).len() >= 8,
    ensures
        r == spec_u64_from_le_bytes(bytes_view(*old(b)).take(8)),
        bytes_view(*final(b)) == bytes_view(*old(b)).skip(8),
{
    b.get_u64_le()
}

/// `Buf::get_u128_le`: decodes the first sixteen bytes little-endian and advances past them.
#[verifier::external_body]
pub(crate) fn get_u128_le(b: &mut Bytes) -> (r: u128)
    requires
        bytes_view(*old(b)).len() >= 16,
    ensures
        r == spec_u128_from_le_bytes(bytes_view(*old(b)).take(16)),
        bytes_view(*final(b)) == bytes_view(*old(b)).skip(16),
{
    b.get_u128_le()
}

/// `Bytes::slice`: a new cursor over the bytes in `start..end`; `b` itself is unchanged.
#[verifier::external_body]
pub(crate) fn slice(b: &Bytes, start: usize, end: usize) -> (r: Bytes)
    requires
        start <= end <= bytes_view(*b).len(),
    ensures
        bytes_view(r) == bytes_view(*b).subrange(start as int, end as int),
{
    b.slice(start..end)
}

/// `Buf::advance` on `Bytes`: drops the first `n` bytes.
#[verifier::external_body]
pub(crate) fn advance(b: &mut Bytes, n: usize)
    requires
        n <= bytes_view(*old(b)).len(),
    ensures
        bytes_view(*final(b)) == bytes_view(*old(b)).skip(n as int),
{
    b.advance(n)
}

/// `Bytes` dereferenced to a byte slice.
#[verifier::external_body]
pub(crate) fn as_slice(b: &Bytes) -> (r: &[u8])
    ensures
        r@ == bytes_view(*b),
{
    b.as_ref()
}

/// `Bytes::from(Vec<u8>)`: a cursor over exactly the given bytes.
#[verifier::external_body]
pub(crate) fn bytes_from_vec(v: Vec<u8>) -> (r: Bytes)
    ensures
        bytes_view(r) == v@,
{
    Bytes::from(v)
}

/// `BytesMut::new`: an empty output buffer.
#[verifier::external_body]
pub(crate) fn new_buf() -> (r: BytesMut)
    ensures
        bytes_mut_view(r) == Seq::<u8>::empty(),
{
    BytesMut::new()
}

/// `BytesMut::with_capacity`: an empty output buffer with room reserved.
#[verifier::external_body]
pub(crate) fn buf_with_capacity(cap: usize) -> (r: BytesMut)
    requires
        cap <= buf_limit(),
    ensures
        bytes_mut_view(r) == Seq::<u8>::empty(),
{
    BytesMut::with_capacity(cap)
}

/// `BytesMut::len`: the number of bytes written so far.
#[verifier::external_body]
pub(crate) fn buf_len(b: &BytesMut) -> (r: usize)
    ensures
        r == bytes_mut_view(*b).len(),
{
    b.len()
}

/// `BytesMut` copied out into a vector (`to_vec` through `Deref`).
#[verifier::external_body]
pub(crate) fn buf_to_vec(b: &BytesMut) -> (r: Vec<u8>)
    ensures
        r@ == bytes_mut_view(*b),
{
    b.to_vec()
}

/// `BufMut::put_u8`: appends one byte.
#[verifier::external_body]
pub(crate) fn put_u8(b: &mut BytesMut, v: u8)
    requires
        bytes_mut_view(*old(b)).len() + 1 <= buf_limit(),
    ensures
        bytes_mut_view(*final(b)) == bytes_mut_view(*old(b)).push(v),
{
    b.put_u8(v)
}

/// `BufMut::put_u16_le`: appends the two little-endian bytes of `v`.
#[verifier::external_body]
pub(crate) fn put_u16_le(b: &mut BytesMut, v: u16)
    requires
        bytes_mut_view(*old(b)).len() + 2 <= buf_limit(),
    ensures
        bytes_mut_view(*final(b)) == bytes_mut_view(*old(b)) + spec_u16_to_le_bytes(v),
{
    b.put_u16_le(v)
}

/// `BufMut::put_i16_le`: appends the two little-endian bytes of `v`'s two's complement form.
#[verifier::external_body]
pub(crate) fn put_i16_le(b: &mut BytesMut, v: i16)
    requires
        bytes_mut_view(*old(b)).len() + 2 <= buf_limit(),
    ensures
        bytes_mut_view(*final(b)) == bytes_mut_view(*old(b)) + spec_u16_to_le_bytes(v as u16),
{
    b.put_i16_le(v)
}

/// `BufMut::put_u32_le`: appends the four little-endian bytes of `v`.
#[verifier::external_body]
pub(crate) fn put_u32_le(b: &mut BytesMut, v: u32)
    requires
        bytes_mut_view(*old(b)).len() + 4 <= buf_limit(),
    ensures
        bytes_mut_view(*final(b)) == bytes_mut_view(*old(b)) + spec_u32_to_le_bytes(v),
{
    b.put_u32_le(v)
}

/// `BufMut::put_u64_le`: appends the eight little-endian bytes of `v`.
#[verifier::external_body]
pub(crate) fn put_u64_le(b: &mut BytesMut, v: u64)
    requires
        bytes_mut_view(*old(b)).len() + 8 <= buf_limit(),
    ensures
        bytes_mut_view(*final(b)) == bytes_mut_view(*old(b)) + spec_u64_to_le_bytes(v),
{
    b.put_u64_le(v)
}

/// `BufMut::put_u128_le`: appends the sixteen little-endian bytes of `v`.
#[verifier::external_body]
pub(crate) fn put_u128_le(b: &mut BytesMut, v: u128)
    requires
        bytes_mut_view(*old(b)).len() + 16 <= buf_limit(),
    ensures
        bytes_mut_view(*final(b)) == bytes_mut_view(*old(b)) + spec_u128_to_le_bytes(v),
{
    b.put_u128_le(v)
}

/// `BufMut::put_slice`: appends the bytes of `s`.
#[verifier::external_body]
pub(crate) fn put_slice(b: &mut BytesMut, s: &[u8])
    requires
        bytes_mut_view(*old(b)).len() + s@.len() <= buf_limit(),
    ensures
        bytes_mut_view(*final(b)) == bytes_mut_view(*old(b)) + s@,
{
    b.put_slice(s)
}

/// `BufMut::put` with another `BytesMut` as source: appends all of its bytes.
#[verifier::external_body]
pub(crate) fn put_buf(b: &mut BytesMut, src: BytesMut)
    requires
        bytes_mut_view(*old(b)).len() + bytes_mut_view(src).len() <= buf_limit(),
    ensures
        bytes_mut_view(*final(b)) == bytes_mut_view(*old(b)) + bytes_mut_view(src),
{
    b.put(src)
}

} // verus!
