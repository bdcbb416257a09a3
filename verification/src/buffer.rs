//! The byte buffers of the `bytes` crate, as the verifier sees them.
//!
//! `Bytes` and `BytesMut` are opaque to the verifier. What a buffer holds is
//! named by `bytes_content` and `bytes_mut_content`, and the room that a
//! growable buffer was made with by `bytes_mut_room`. Every item below
//! states, without proof, what one function of the `bytes` crate does to
//! those. Nothing else in this crate is assumed about the buffers.
//!
//! A growable buffer is only ever filled up to the room it was made with.
//! Within that room an append copies and nothing more; beyond it the buffer
//! would have to grow, and growing can panic.

use bytes::BufMut;
use bytes::Bytes;
use bytes::BytesMut;
use vstd::prelude::*;

use crate::endian::u16_le_bytes;
use crate::endian::u32_le_bytes;
use crate::endian::u64_le_bytes;

verus! {

/// The immutable, cheaply shared buffer `bytes::Bytes`.
#[verifier::external_type_specification]
#[verifier::external_body]
pub struct ExBytes(bytes::Bytes);

/// The growable buffer `bytes::BytesMut`.
#[verifier::external_type_specification]
#[verifier::external_body]
pub struct ExBytesMut(bytes::BytesMut);

/// The bytes that a `Bytes` holds, first to last.
pub uninterp spec fn bytes_content(b: Bytes) -> Seq<u8>;

/// The bytes that a `BytesMut` holds, first to last.
pub uninterp spec fn bytes_mut_content(b: BytesMut) -> Seq<u8>;

/// The number of bytes that a `BytesMut` was made to hold. Up to that length
/// it takes bytes in without growing.
pub uninterp spec fn bytes_mut_room(b: BytesMut) -> nat;

/// `Bytes::new` returns a buffer that holds nothing.
pub assume_specification[ Bytes::new ]() -> (r: Bytes)
    ensures
        bytes_content(r) == Seq::<u8>::empty(),
;

/// `Bytes::copy_from_slice` returns a buffer that holds a copy of `data`.
pub assume_specification[ Bytes::copy_from_slice ](data: &[u8]) -> (r: Bytes)
    ensures
        bytes_content(r) == data@,
;

/// `Bytes::len` returns the number of bytes held.
pub assume_specification[ Bytes::len ](b: &Bytes) -> (r: usize)
    ensures
        r == bytes_content(*b).len(),
;

/// Dereferencing a `Bytes` yields its contents as a slice.
pub assume_specification[ <Bytes as core::ops::Deref>::deref ](b: &Bytes) -> (r: &[u8])
    ensures
        r@ == bytes_content(*b),
;

/// `Bytes::from` on a vector takes the vector's bytes over unchanged.
pub assume_specification[ <Bytes as core::convert::From<Vec<u8>>>::from ](v: Vec<u8>) -> (r: Bytes)
    ensures
        bytes_content(r) == v@,
;

/// `BytesMut::with_capacity` returns an empty buffer that can hold
/// `capacity` bytes without growing. It delegates to `Vec::with_capacity`,
/// which panics above `isize::MAX` bytes.
pub assume_specification[ BytesMut::with_capacity ](capacity: usize) -> (r: BytesMut)
    requires
        capacity <= isize::MAX,
    ensures
        bytes_mut_content(r) == Seq::<u8>::empty(),
        bytes_mut_room(r) == capacity,
;

/// `BytesMut::extend_from_slice` appends `extend`. Where the buffer has the
/// room it does not grow, and so keeps its room.
pub assume_specification[ BytesMut::extend_from_slice ](buf: &mut BytesMut, extend: &[u8])
    requires
        bytes_mut_content(*old(buf)).len() + extend@.len() <= bytes_mut_room(*old(buf)),
    ensures
        bytes_mut_content(*final(buf)) == bytes_mut_content(*old(buf)) + extend@,
        bytes_mut_room(*final(buf)) == bytes_mut_room(*old(buf)),
;

/// `BytesMut::freeze` turns the buffer into a `Bytes` with the same contents.
pub assume_specification[ BytesMut::freeze ](buf: BytesMut) -> (r: Bytes)
    ensures
        bytes_content(r) == bytes_mut_content(buf),
;

/// `BufMut::put_u16_le` on a `BytesMut` appends the two bytes of `n`, least
/// significant first. It goes through `extend_from_slice`.
#[verifier::external_body]
pub(crate) fn put_u16_le(buf: &mut BytesMut, n: u16)
    requires
        bytes_mut_content(*old(buf)).len() + 2 <= bytes_mut_room(*old(buf)),
    ensures
        bytes_mut_content(*final(buf)) == bytes_mut_content(*old(buf)) + u16_le_bytes(n),
        bytes_mut_room(*final(buf)) == bytes_mut_room(*old(buf)),
{
    buf.put_u16_le(n)
}

/// `BufMut::put_u32_le` on a `BytesMut` appends the four bytes of `n`, least
/// significant first. It goes through `extend_from_slice`.
#[verifier::external_body]
pub(crate) fn put_u32_le(buf: &mut BytesMut, n: u32)
    requires
        bytes_mut_content(*old(buf)).len() + 4 <= bytes_mut_room(*old(buf)),
    ensures
        bytes_mut_content(*final(buf)) == bytes_mut_content(*old(buf)) + u32_le_bytes(n),
        bytes_mut_room(*final(buf)) == bytes_mut_room(*old(buf)),
{
    buf.put_u32_le(n)
}

/// `BufMut::put_u64_le` on a `BytesMut` appends the eight bytes of `n`, least
/// significant first. It goes through `extend_from_slice`.
#[verifier::external_body]
pub(crate) fn put_u64_le(buf: &mut BytesMut, n: u64)
    requires
        bytes_mut_content(*old(buf)).len() + 8 <= bytes_mut_room(*old(buf)),
    ensures
        bytes_mut_content(*final(buf)) == bytes_mut_content(*old(buf)) + u64_le_bytes(n),
        bytes_mut_room(*final(buf)) == bytes_mut_room(*old(buf)),
{
    buf.put_u64_le(n)
}

} // verus!
