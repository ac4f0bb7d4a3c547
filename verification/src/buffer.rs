//! The growable byte buffer that the decoder consumes from.

use bytes::Buf;
use bytes::BytesMut;
use vstd::prelude::*;

verus! {

/// `bytes::BytesMut`, of which only the bytes that it holds are spoken of.
#[verifier::external_type_specification]
#[verifier::external_body]
pub struct ExBytesMut(bytes::BytesMut);

/// The bytes that a buffer currently holds, first unread byte first.
pub uninterp spec fn buffered(buf: &BytesMut) -> Seq<u8>;

/// `BytesMut::deref`: the buffer's bytes as a slice.
#[verifier::external_body]
pub(crate) fn buffer_bytes(buf: &BytesMut) -> (data: &[u8])
    ensures
        data@ == buffered(buf),
{
    &buf[..]
}

/// `Buf::advance` on a `BytesMut`: drops the first `count` bytes and keeps the rest.
#[verifier::external_body]
pub(crate) fn buffer_advance(buf: &mut BytesMut, count: usize)
    requires
        count <= buffered(old(buf)).len(),
    ensures
        buffered(final(buf)) == buffered(old(buf)).skip(count as int),
{
    buf.advance(count)
}

} // verus!
