//! The byte buffer of the stream decoder: a `bytes::BytesMut`, seen through
//! the sequence of bytes it holds.

use vstd::prelude::*;

verus! {

/// `bytes::BytesMut`, a growable buffer of bytes that gives up its front
/// without moving the rest.
#[verifier::external_type_specification]
#[verifier::external_body]
pub struct ExByteBuffer(bytes::BytesMut);

/// The bytes that a buffer holds, first to last.
pub uninterp spec fn buffered(buffer: bytes::BytesMut) -> Seq<u8>;

/// `BytesMut::with_capacity`: a buffer that holds no bytes. The capacity is
/// kept within what one allocation may hold.
#[verifier::external_body]
pub(crate) fn new_buffer(capacity: usize) -> (buffer: bytes::BytesMut)
    requires
        capacity <= isize::MAX,
    ensures
        buffered(buffer) == Seq::<u8>::empty(),
{
    bytes::BytesMut::with_capacity(capacity)
}

/// `BufMut::put_slice` on a `BytesMut`: the given bytes are appended to what
/// the buffer holds. The call grows the buffer, so the sum of the lengths is
/// kept within what one allocation may hold.
#[verifier::external_body]
pub(crate) fn append_bytes(buffer: &mut bytes::BytesMut, bytes: &[u8])
    requires
        buffered(*old(buffer)).len() + bytes@.len() <= isize::MAX,
    ensures
        buffered(*final(buffer)) == buffered(*old(buffer)) + bytes@,
{
    bytes::BufMut::put_slice(buffer, bytes)
}

/// `Buf::advance` on a `BytesMut`: the first `count` bytes leave the buffer.
/// The call panics where fewer bytes are held, which `requires` rules out.
#[verifier::external_body]
pub(crate) fn discard_front(buffer: &mut bytes::BytesMut, count: usize)
    requires
        count <= buffered(*old(buffer)).len(),
    ensures
        buffered(*final(buffer)) == buffered(*old(buffer)).subrange(
            count as int,
            buffered(*old(buffer)).len() as int,
        ),
{
    bytes::Buf::advance(buffer, count)
}

/// `AsRef<[u8]>` of a `BytesMut`: the bytes that the buffer holds, as a slice.
#[verifier::external_body]
pub(crate) fn buffer_bytes(buffer: &bytes::BytesMut) -> (bytes: &[u8])
    ensures
        bytes@ == buffered(*buffer),
{
    buffer.as_ref()
}

} // verus!
