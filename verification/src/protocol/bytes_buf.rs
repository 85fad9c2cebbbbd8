//! Trusted boundary to the `bytes` crate: the connection buffer type, what
//! it holds, and the two operations the decoder needs.  Everything else in
//! the codec works on plain slices and is verified.

use vstd::prelude::*;

verus! {

#[verifier::external_type_specification]
#[verifier::external_body]
pub struct ExBytesMut(bytes::BytesMut);

/// The bytes a `BytesMut` buffer currently holds, in order.
pub uninterp spec fn bytes_view(b: bytes::BytesMut) -> Seq<u8>;

/// Relies on `<BytesMut as Deref>::deref`: a `BytesMut` dereferences to the
/// slice of exactly the bytes it holds.
#[verifier::external_body]
pub(crate) fn buf_bytes(b: &bytes::BytesMut) -> (r: &[u8])
    ensures
        r@ == bytes_view(*b),
{
    &**b
}

/// Relies on `<BytesMut as bytes::Buf>::advance`: it drops exactly the first
/// `n` bytes and keeps the rest; it panics when `n` exceeds the buffer's
/// length, so that case is excluded here.
#[verifier::external_body]
pub(crate) fn buf_advance(b: &mut bytes::BytesMut, n: usize)
    requires
        n <= bytes_view(*old(b)).len(),
    ensures
        bytes_view(*final(b)) == bytes_view(*old(b)).skip(n as int),
{
    bytes::Buf::advance(b, n)
}

} // verus!
