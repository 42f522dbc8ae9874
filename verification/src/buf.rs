//! The byte buffer the request encoder writes into: `bytes::BytesMut`,
//! reached only through trusted wrappers whose contracts state the held
//! bytes exactly.

use bytes::{BufMut, BytesMut};
use vstd::prelude::*;

verus! {

#[verifier::external_type_specification]
#[verifier::external_body]
pub struct ExBytesMut(BytesMut);

/// The bytes a `BytesMut` currently holds, front to back.
pub uninterp spec fn buf_bytes(b: BytesMut) -> Seq<u8>;

/// Little-endian byte pair of a 16-bit integer.
pub open spec fn u16_le_bytes(x: u16) -> Seq<u8> {
    seq![(x & 0xff) as u8, ((x >> 8) & 0xff) as u8]
}

/// Little-endian bytes of a 32-bit integer.
pub open spec fn u32_le_bytes(x: u32) -> Seq<u8> {
    seq![
        (x & 0xff) as u8,
        ((x >> 8) & 0xff) as u8,
        ((x >> 16) & 0xff) as u8,
        ((x >> 24) & 0xff) as u8,
    ]
}

/// Little-endian bytes of a 64-bit integer.
pub open spec fn u64_le_bytes(x: u64) -> Seq<u8> {
    seq![
        (x & 0xff) as u8,
        ((x >> 8) & 0xff) as u8,
        ((x >> 16) & 0xff) as u8,
        ((x >> 24) & 0xff) as u8,
        ((x >> 32) & 0xff) as u8,
        ((x >> 40) & 0xff) as u8,
        ((x >> 48) & 0xff) as u8,
        ((x >> 56) & 0xff) as u8,
    ]
}

/// Relies on `bytes::BufMut::put_u8` on `BytesMut`: appends the byte,
/// growing the buffer as needed; panics only when the buffer cannot grow
/// past `usize::MAX` bytes.
#[verifier::external_body]
pub(crate) fn buf_put_u8(b: &mut BytesMut, v: u8)
    requires
        buf_bytes(*old(b)).len() + 1 <= usize::MAX,
    ensures
        buf_bytes(*final(b)) == buf_bytes(*old(b)).push(v),
{
    b.put_u8(v);
}

/// Relies on `bytes::BufMut::put_u16_le` on `BytesMut`: appends the two
/// little-endian bytes of the integer.
#[verifier::external_body]
pub(crate) fn buf_put_u16_le(b: &mut BytesMut, v: u16)
    requires
        buf_bytes(*old(b)).len() + 2 <= usize::MAX,
    ensures
        buf_bytes(*final(b)) == buf_bytes(*old(b)) + u16_le_bytes(v),
{
    b.put_u16_le(v);
}

/// Relies on `bytes::BufMut::put_u32_le` on `BytesMut`: appends the four
/// little-endian bytes of the integer.
#[verifier::external_body]
pub(crate) fn buf_put_u32_le(b: &mut BytesMut, v: u32)
    requires
        buf_bytes(*old(b)).len() + 4 <= usize::MAX,
    ensures
        buf_bytes(*final(b)) == buf_bytes(*old(b)) + u32_le_bytes(v),
{
    b.put_u32_le(v);
}

/// Relies on `bytes::BufMut::put_u64_le` on `BytesMut`: appends the eight
/// little-endian bytes of the integer.
#[verifier::external_body]
pub(crate) fn buf_put_u64_le(b: &mut BytesMut, v: u64)
    requires
        buf_bytes(*old(b)).len() + 8 <= usize::MAX,
    ensures
        buf_bytes(*final(b)) == buf_bytes(*old(b)) + u64_le_bytes(v),
{
    b.put_u64_le(v);
}

} // verus!
