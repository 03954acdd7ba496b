//! The output buffer: `bytes::BytesMut`, held behind trusted declarations.
//!
//! The buffer type is opaque to the verifier; `buf_bytes` names what it
//! holds, and each wrapper states, over that name, what one `bytes` call
//! does to the contents.  `BytesMut` refuses to hold more than
//! `isize::MAX` (that is, `usize::MAX / 2`) bytes: every writing wrapper
//! requires room for what it appends.
use vstd::prelude::*;

use bytes::BufMut;

use crate::qoi_spec::be32;

verus! {

#[verifier::external_type_specification]
#[verifier::external_body]
pub struct ExBytesMut(bytes::BytesMut);

/// The bytes a buffer holds, oldest first.
pub uninterp spec fn buf_bytes(b: bytes::BytesMut) -> Seq<u8>;

/// The two bytes of a 16-bit value in little-endian order.
pub open spec fn le16(v: u16) -> Seq<u8> {
    seq![(v % 0x100) as u8, (v / 0x100) as u8]
}

/// Relies on bytes::BytesMut::with_capacity: a new buffer, holding nothing.
#[verifier::external_body]
pub(crate) fn buf_with_capacity(capacity: usize) -> (b: bytes::BytesMut)
    ensures
        buf_bytes(b) == Seq::<u8>::empty(),
{
    bytes::BytesMut::with_capacity(capacity)
}

/// Relies on bytes::BufMut::put_u8: appends the one byte.
#[verifier::external_body]
pub(crate) fn buf_put_u8(b: &mut bytes::BytesMut, v: u8)
    requires
        buf_bytes(*old(b)).len() + 1 <= usize::MAX / 2,
    ensures
        buf_bytes(*final(b)) == buf_bytes(*old(b)).push(v),
{
    b.put_u8(v)
}

/// Relies on bytes::BufMut::put_u32: appends the four bytes of the value
/// in big-endian order.
#[verifier::external_body]
pub(crate) fn buf_put_u32(b: &mut bytes::BytesMut, v: u32)
    requires
        buf_bytes(*old(b)).len() + 4 <= usize::MAX / 2,
    ensures
        buf_bytes(*final(b)) == buf_bytes(*old(b)) + be32(v),
{
    b.put_u32(v)
}

/// Relies on bytes::BufMut::put_u16_le: appends the two bytes of the
/// value in little-endian order.
#[verifier::external_body]
pub(crate) fn buf_put_u16_le(b: &mut bytes::BytesMut, v: u16)
    requires
        buf_bytes(*old(b)).len() + 2 <= usize::MAX / 2,
    ensures
        buf_bytes(*final(b)) == buf_bytes(*old(b)) + le16(v),
{
    b.put_u16_le(v)
}

/// Relies on bytes::BufMut::put_bytes: appends `cnt` copies of `val`.
#[verifier::external_body]
pub(crate) fn buf_put_bytes(b: &mut bytes::BytesMut, val: u8, cnt: usize)
    requires
        buf_bytes(*old(b)).len() + cnt <= usize::MAX / 2,
    ensures
        buf_bytes(*final(b)) == buf_bytes(*old(b)) + Seq::new(cnt as nat, |i: int| val),
{
    b.put_bytes(val, cnt)
}

/// Relies on bytes::BytesMut::as_ref (via AsRef<[u8]>): the held bytes as
/// a slice, copied out into a vector.
#[verifier::external_body]
pub(crate) fn buf_to_vec(b: &bytes::BytesMut) -> (v: Vec<u8>)
    ensures
        v@ == buf_bytes(*b),
{
    Vec::from(b.as_ref())
}

} // verus!
