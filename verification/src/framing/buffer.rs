//! The byte buffers of the `bytes` crate, as far as the framing layer uses them.
//!
//! Nothing in this file is proved: each function states what the corresponding
//! operation of the `bytes` crate does to the bytes a buffer holds.

use vstd::prelude::*;

verus! {

/// `bytes::BytesMut`, a growable buffer of bytes. Nothing is known of a value but
/// the bytes it holds.
#[verifier::external_type_specification]
#[verifier::external_body]
pub struct ExBytesMut(bytes::BytesMut);

/// `bytes::Bytes`, an immutable buffer of bytes. Nothing is known of a value but
/// the bytes it holds.
#[verifier::external_type_specification]
#[verifier::external_body]
pub struct ExBytes(bytes::Bytes);

/// The bytes that a `BytesMut` holds, first to last.
pub uninterp spec fn bytes_mut_contents(buffer: bytes::BytesMut) -> Seq<u8>;

/// The bytes that a `Bytes` holds, first to last.
pub uninterp spec fn bytes_contents(bytes: bytes::Bytes) -> Seq<u8>;

/// The largest number of bytes that this library lets one buffer hold. An allocation
/// may not exceed `isize::MAX` bytes on any platform.
pub const MAX_BUFFER_LEN: usize = 0x7fff_ffff;

/// `BytesMut::len`: the number of bytes in the buffer.
#[verifier::external_body]
pub(crate) fn buffer_len(buffer: &bytes::BytesMut) -> (len: usize)
    ensures
        len == bytes_mut_contents(*buffer).len(),
{
    buffer.len()
}

/// Indexing a `BytesMut` through its `Deref` to a slice: the byte at `index`. The
/// index has to be in bounds, as the slice would panic otherwise.
#[verifier::external_body]
pub(crate) fn buffer_byte(buffer: &bytes::BytesMut, index: usize) -> (byte: u8)
    requires
        index < bytes_mut_contents(*buffer).len(),
    ensures
        byte == bytes_mut_contents(*buffer)[index as int],
{
    buffer[index]
}

/// `Buf::advance` on a `BytesMut`: drops the first `count` bytes. It panics when
/// `count` exceeds the length, which the precondition excludes.
#[verifier::external_body]
pub(crate) fn buffer_advance(buffer: &mut bytes::BytesMut, count: usize)
    requires
        count <= bytes_mut_contents(*old(buffer)).len(),
    ensures
        bytes_mut_contents(*final(buffer)) == bytes_mut_contents(*old(buffer)).skip(count as int),
{
    bytes::Buf::advance(buffer, count)
}

/// `BytesMut::split_to`: removes the first `at` bytes from the buffer and returns
/// them. It panics when `at` exceeds the length, which the precondition excludes.
#[verifier::external_body]
pub(crate) fn buffer_split_to(buffer: &mut bytes::BytesMut, at: usize) -> (head: bytes::BytesMut)
    requires
        at <= bytes_mut_contents(*old(buffer)).len(),
    ensures
        bytes_mut_contents(head) == bytes_mut_contents(*old(buffer)).take(at as int),
        bytes_mut_contents(*final(buffer)) == bytes_mut_contents(*old(buffer)).skip(at as int),
{
    buffer.split_to(at)
}

/// `BytesMut::unsplit`: appends the bytes of `tail` to the buffer. The combined
/// length is kept within [`MAX_BUFFER_LEN`], beyond which reserving space may panic.
#[verifier::external_body]
pub(crate) fn buffer_unsplit(buffer: &mut bytes::BytesMut, tail: bytes::BytesMut)
    requires
        bytes_mut_contents(*old(buffer)).len() + bytes_mut_contents(tail).len() <= MAX_BUFFER_LEN,
    ensures
        bytes_mut_contents(*final(buffer)) == bytes_mut_contents(*old(buffer)) + bytes_mut_contents(
            tail,
        ),
{
    buffer.unsplit(tail)
}

/// `BytesMut::freeze`: the same bytes as an immutable `Bytes`.
#[verifier::external_body]
pub(crate) fn buffer_freeze(buffer: bytes::BytesMut) -> (bytes: bytes::Bytes)
    ensures
        bytes_contents(bytes) == bytes_mut_contents(buffer),
{
    buffer.freeze()
}

} // verus!
