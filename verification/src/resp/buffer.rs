//! The receive buffer: `bytes::BytesMut`, as far as the decoder uses it.
use bytes::{Buf, BytesMut};
use vstd::prelude::*;

verus! {

/// `bytes::BytesMut`, a growable buffer of bytes. What it holds goes by the
/// name `buffered`.
#[verifier::external_type_specification]
#[verifier::external_body]
pub struct ExBytesMut(BytesMut);

/// The bytes that a buffer holds, first to last.
pub uninterp spec fn buffered(buf: BytesMut) -> Seq<u8>;

/// The text that a buffer of these bytes prints of itself for debugging.
pub uninterp spec fn debug_text(bytes: Seq<u8>) -> Seq<char>;

/// `Debug` for `bytes::BytesMut`, on a buffer made of `bytes`. The crate
/// prints the bytes as a byte string literal, one byte after the other, so
/// that the text depends on the bytes alone; what it is goes by the name
/// `debug_text`.
#[verifier::external_body]
pub(crate) fn debug_string(bytes: &[u8]) -> (text: String)
    ensures
        text@ == debug_text(bytes@),
{
    format!("{:?}", BytesMut::from(bytes))
}

/// `BytesMut::as_ref`: the buffer's bytes as a slice, all of them and in
/// order.
#[verifier::external_body]
pub(crate) fn buffer_bytes(buf: &BytesMut) -> (bytes: &[u8])
    ensures
        bytes@ == buffered(*buf),
{
    buf.as_ref()
}

/// `Buf::advance` on a `BytesMut`: drops the first `count` bytes and keeps the
/// rest. The crate panics where `count` is more than the buffer holds.
#[verifier::external_body]
pub(crate) fn buffer_advance(buf: &mut BytesMut, count: usize)
    requires
        count <= buffered(*old(buf)).len(),
    ensures
        buffered(*final(buf)) == buffered(*old(buf)).skip(count as int),
{
    buf.advance(count)
}

} // verus!
