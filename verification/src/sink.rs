//! A frame sink that writes each frame after its length.
//!
//! The length takes eight bytes, the least significant first. This module holds
//! what is decided when a frame is sent; the writes themselves are the caller's.

use std::marker::PhantomData;
use vstd::prelude::*;

verus! {

/// `std::io::Error`, the error of a writer. Nothing is known of a value.
#[verifier::external_type_specification]
#[verifier::external_body]
pub struct ExIoError(std::io::Error);

/// Why a frame could not be sent.
#[derive(Debug)]
pub enum FrameSinkError {
    /// The underlying writer failed.
    Io(std::io::Error),
    /// Another error, by its message.
    Other(String),
}

/// The number that eight bytes encode in little-endian order.
pub open spec fn spec_le_u64(raw: Seq<u8>) -> nat
    recommends
        raw.len() == 8,
{
    (raw[0] as nat) + 0x100 * (raw[1] as nat) + 0x1_0000 * (raw[2] as nat) + 0x100_0000 * (
    raw[3] as nat) + 0x1_0000_0000 * (raw[4] as nat) + 0x100_0000_0000 * (raw[5] as nat)
        + 0x1_0000_0000_0000 * (raw[6] as nat) + 0x100_0000_0000_0000 * (raw[7] as nat)
}

/// Encodes a length as eight bytes in little-endian order.
pub fn length_prefix(length: u64) -> (prefix: [u8; 8])
    ensures
        spec_le_u64(prefix@) == length,
{
    let b0 = (length % 0x100) as u8;
    let r1 = length / 0x100;
    let b1 = (r1 % 0x100) as u8;
    let r2 = r1 / 0x100;
    let b2 = (r2 % 0x100) as u8;
    let r3 = r2 / 0x100;
    let b3 = (r3 % 0x100) as u8;
    let r4 = r3 / 0x100;
    let b4 = (r4 % 0x100) as u8;
    let r5 = r4 / 0x100;
    let b5 = (r5 % 0x100) as u8;
    let r6 = r5 / 0x100;
    let b6 = (r6 % 0x100) as u8;
    let r7 = r6 / 0x100;
    let b7 = (r7 % 0x100) as u8;
    proof {
        assert(length == b0 + 0x100 * r1);
        assert(r1 == b1 + 0x100 * r2);
        assert(r2 == b2 + 0x100 * r3);
        assert(r3 == b3 + 0x100 * r4);
        assert(r4 == b4 + 0x100 * r5);
        assert(r5 == b5 + 0x100 * r6);
        assert(r6 == b6 + 0x100 * r7);
        assert(r7 == b7);
    }
    let prefix = [b0, b1, b2, b3, b4, b5, b6, b7];
    prefix
}

/// Puts the length of a frame before the frame.
pub fn length_prefixed(frame: &Vec<u8>) -> (bytes: Vec<u8>)
    ensures
        bytes.len() == 8 + frame.len(),
        spec_le_u64(bytes@.take(8)) == frame.len(),
        bytes@.skip(8) == frame@,
{
    let prefix = length_prefix(frame.len() as u64);
    let mut bytes: Vec<u8> = Vec::new();
    let mut i: usize = 0;
    while i < 8
        invariant
            i <= 8,
            bytes@ == prefix@.take(i as int),
        decreases 8 - i,
    {
        bytes.push(prefix[i]);
        proof {
            assert(prefix@.take(i + 1) =~= prefix@.take(i as int).push(prefix@[i as int]));
        }
        i += 1;
    }
    assert(prefix@.take(8) =~= prefix@);
    let mut k: usize = 0;
    while k < frame.len()
        invariant
            k <= frame.len(),
            bytes@ == prefix@ + frame@.take(k as int),
        decreases frame.len() - k,
    {
        bytes.push(frame[k]);
        proof {
            assert(frame@.take(k + 1) =~= frame@.take(k as int).push(frame@[k as int]));
            assert(prefix@ + frame@.take(k + 1) =~= (prefix@ + frame@.take(k as int)).push(
                frame@[k as int],
            ));
        }
        k += 1;
    }
    proof {
        assert(frame@.take(frame.len() as int) =~= frame@);
        assert(bytes@.take(8) =~= prefix@);
        assert(bytes@.skip(8) =~= frame@);
    }
    bytes
}

/// A sink that writes each frame after its length. It owns the writer until a frame
/// is sent, and hands it to the sender of that frame.
#[derive(Debug)]
pub struct LengthPrefixer<W, F> {
    writer: Option<W>,
    _frame_phantom: PhantomData<F>,
}

impl<W, F> LengthPrefixer<W, F> {
    /// The writer, as long as the sink owns it.
    pub closed spec fn writer(&self) -> Option<W> {
        self.writer
    }

    /// Creates a sink that owns the writer.
    pub fn new(writer: W) -> (sink: LengthPrefixer<W, F>)
        ensures
            sink.writer() == Some(writer),
    {
        LengthPrefixer { writer: Some(writer), _frame_phantom: PhantomData }
    }

    /// Begins to send a frame of the given length: hands out the writer and the
    /// bytes to write before the frame. There is nothing to hand out if the writer
    /// was handed out before.
    pub fn send_frame(&mut self, length: u64) -> (start: Option<(W, [u8; 8])>)
        ensures
            final(self).writer() is None,
            match old(self).writer() {
                Some(writer) => start matches Some((out, prefix)) && out == writer && spec_le_u64(
                    prefix@,
                ) == length,
                None => start is None,
            },
    {
        match self.writer.take() {
            Some(writer) => Some((writer, length_prefix(length))),
            None => None,
        }
    }
}

/// What a sender does after a write.
#[derive(Copy, Clone, Debug, PartialEq, Eq, Structural)]
pub enum WriteStep {
    /// All bytes are written.
    Done,
    /// So many bytes remain to be written.
    Continue(usize),
}

/// Sends the bytes of a buffer to a writer.
#[derive(Debug)]
pub struct GenericBufSender<B, W> {
    buf: B,
    out: W,
}

impl<B, W> GenericBufSender<B, W> {
    /// The buffer and the writer.
    pub closed spec fn parts(&self) -> (B, W) {
        (self.buf, self.out)
    }

    /// Creates a sender of the bytes of `buf` to `out`.
    pub fn new(buf: B, out: W) -> (sender: GenericBufSender<B, W>)
        ensures
            sender.parts() == (buf, out),
    {
        GenericBufSender { buf, out }
    }

    /// Takes the sender apart.
    pub fn into_parts(self) -> (parts: (B, W))
        ensures
            parts == self.parts(),
    {
        (self.buf, self.out)
    }

    /// Decides how to go on after `bytes_written` of `remaining` bytes were written:
    /// the sender is done once nothing remains.
    pub fn poll(remaining: usize, bytes_written: usize) -> (step: WriteStep)
        requires
            bytes_written <= remaining,
        ensures
            step == if bytes_written == remaining {
                WriteStep::Done
            } else {
                WriteStep::Continue((remaining - bytes_written) as usize)
            },
    {
        if bytes_written == remaining {
            WriteStep::Done
        } else {
            WriteStep::Continue(remaining - bytes_written)
        }
    }
}

} // verus!
