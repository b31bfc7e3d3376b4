//! Reassembly of payloads that span several frames.
//!
//! The first frame of a payload holds the header, the length of the whole payload
//! as four bytes in little-endian order, and the first segment. Every further frame
//! holds the same header and the next segment. A frame is never longer than the
//! maximum frame size, and every segment but the last fills its frame.

use vstd::prelude::*;
use crate::framing::buffer::{
    buffer_advance, buffer_byte, buffer_len, buffer_split_to, buffer_unsplit, bytes_mut_contents,
    MAX_BUFFER_LEN,
};
use crate::framing::header::{ErrorKind, Header};
use crate::framing::outcome::Outcome;

verus! {

/// The bytes of the first frame that precede the first segment: header and length.
pub const PREAMBLE_SIZE: usize = 8;

/// The smallest maximum frame size that lets every frame carry at least one byte
/// of payload.
pub const MIN_FRAME_SIZE: u32 = 9;

/// The state of the reassembly on one channel.
#[verifier::ext_equal]
pub enum Cursor {
    /// No payload is being reassembled.
    Idle,
    /// A payload of `total` bytes is being reassembled, of which `received` have
    /// arrived in frames with the given header.
    InProgress { header: Header, received: Seq<u8>, total: u32 },
}

/// What accepting one frame came to.
#[verifier::ext_equal]
pub enum Accepted {
    /// The frame is not yet in the buffer as a whole; so many bytes are missing.
    Incomplete(u32),
    /// The frame is not acceptable; the header is to be sent to the peer.
    Fatal(Header),
    /// The frame was consumed, and the payload needs further frames.
    Segment,
    /// The frame was consumed and completed the payload.
    Complete(Seq<u8>),
}

/// The number that four bytes encode in little-endian order.
pub open spec fn spec_le_u32(raw: Seq<u8>) -> u32
    recommends
        raw.len() == 4,
{
    (raw[0] as int + 256 * (raw[1] as int) + 65536 * (raw[2] as int) + 16777216 * (
    raw[3] as int)) as u32
}

/// The smaller of two numbers.
pub open spec fn spec_min(a: int, b: int) -> int {
    if a <= b {
        a
    } else {
        b
    }
}

impl Cursor {
    /// A reassembly in progress is short of its total, and the total fits a buffer.
    pub open spec fn wf(self) -> bool {
        match self {
            Cursor::Idle => true,
            Cursor::InProgress { header, received, total } => {
                &&& received.len() < total
                &&& total <= MAX_BUFFER_LEN
            },
        }
    }

    /// Whether a frame with `header` starts a transfer: the cursor is idle, or busy
    /// with another header.
    pub open spec fn is_new_transfer(self, header: Header) -> bool {
        match self {
            Cursor::Idle => true,
            Cursor::InProgress { header: current, .. } => current != header,
        }
    }

    /// What accepting the frame at the start of `buffer` does: the cursor afterwards,
    /// the number of bytes consumed, and the result.
    ///
    /// An idle cursor reads the length and rejects a payload above `payload_cap` with
    /// the error `oversize`; a busy cursor rejects any header but its own. The frame
    /// is consumed only once it is in the buffer as a whole.
    pub open spec fn accept(
        self,
        header: Header,
        buffer: Seq<u8>,
        max_frame_size: u32,
        payload_cap: u32,
        oversize: ErrorKind,
    ) -> (Cursor, nat, Accepted) {
        match self {
            Cursor::Idle => {
                if buffer.len() < PREAMBLE_SIZE {
                    (self, 0, Accepted::Incomplete((PREAMBLE_SIZE - buffer.len()) as u32))
                } else {
                    let total = spec_le_u32(buffer.subrange(4, 8));
                    let segment = spec_min(total as int, max_frame_size - PREAMBLE_SIZE);
                    let frame = PREAMBLE_SIZE + segment;
                    if total > payload_cap {
                        (self, 0, Accepted::Fatal(header.with_err(oversize)))
                    } else if buffer.len() < frame {
                        (self, 0, Accepted::Incomplete((frame - buffer.len()) as u32))
                    } else if segment == total {
                        (
                            Cursor::Idle,
                            frame as nat,
                            Accepted::Complete(buffer.subrange(PREAMBLE_SIZE as int, frame)),
                        )
                    } else {
                        (
                            Cursor::InProgress {
                                header,
                                received: buffer.subrange(PREAMBLE_SIZE as int, frame),
                                total,
                            },
                            frame as nat,
                            Accepted::Segment,
                        )
                    }
                }
            },
            Cursor::InProgress { header: current, received, total } => {
                let segment = spec_min(total - received.len(), max_frame_size - Header::SIZE);
                let frame = Header::SIZE + segment;
                let payload = received + buffer.subrange(Header::SIZE as int, frame);
                if current != header {
                    (self, 0, Accepted::Fatal(header.with_err(ErrorKind::InProgress)))
                } else if buffer.len() < frame {
                    (self, 0, Accepted::Incomplete((frame - buffer.len()) as u32))
                } else if received.len() + segment == total {
                    (Cursor::Idle, frame as nat, Accepted::Complete(payload))
                } else {
                    (
                        Cursor::InProgress { header, received: payload, total },
                        frame as nat,
                        Accepted::Segment,
                    )
                }
            },
        }
    }
}

/// A payload under reassembly.
#[derive(Debug)]
struct Transfer {
    header: Header,
    payload: bytes::BytesMut,
    total: u32,
}

/// The multi-frame cursor of a channel: at most one payload is reassembled at a time.
#[derive(Debug)]
pub struct MultiframeReceiver {
    transfer: Option<Transfer>,
}

impl View for MultiframeReceiver {
    type V = Cursor;

    closed spec fn view(&self) -> Cursor {
        match self.transfer {
            None => Cursor::Idle,
            Some(transfer) => Cursor::InProgress {
                header: transfer.header,
                received: bytes_mut_contents(transfer.payload),
                total: transfer.total,
            },
        }
    }
}

/// Reads the payload length that follows the header of a first frame.
fn read_length(buffer: &bytes::BytesMut) -> (total: u32)
    requires
        bytes_mut_contents(*buffer).len() >= PREAMBLE_SIZE,
    ensures
        total == spec_le_u32(bytes_mut_contents(*buffer).subrange(4, 8)),
{
    let b0 = buffer_byte(buffer, 4) as u32;
    let b1 = buffer_byte(buffer, 5) as u32;
    let b2 = buffer_byte(buffer, 6) as u32;
    let b3 = buffer_byte(buffer, 7) as u32;
    b0 + 256 * b1 + 65536 * b2 + 16777216 * b3
}

impl MultiframeReceiver {
    /// Creates an idle cursor.
    pub fn new() -> (receiver: MultiframeReceiver)
        ensures
            receiver@ == Cursor::Idle,
    {
        MultiframeReceiver { transfer: None }
    }

    /// Whether a frame with `header` starts a transfer: the cursor is idle, or busy
    /// with another header.
    pub fn is_new_transfer(&self, header: Header) -> (res: bool)
        ensures
            res == self@.is_new_transfer(header),
    {
        match &self.transfer {
            None => true,
            Some(transfer) => transfer.header != header,
        }
    }

    /// Accepts the frame at the start of `buffer`, whose header the caller has parsed.
    ///
    /// The frame is taken out of the buffer only if it is there as a whole and
    /// acceptable. `Success(Some(payload))` is returned when the frame completes a
    /// payload, `Success(None)` when further frames are needed.
    pub fn accept(
        &mut self,
        header: Header,
        buffer: &mut bytes::BytesMut,
        max_frame_size: u32,
        payload_cap: u32,
        oversize: ErrorKind,
    ) -> (outcome: Outcome<Option<bytes::BytesMut>, Header>)
        requires
            old(self)@.wf(),
            max_frame_size >= MIN_FRAME_SIZE,
            payload_cap <= MAX_BUFFER_LEN,
        ensures
            final(self)@.wf(),
            ({
                let (cursor, consumed, accepted) = old(self)@.accept(
                    header,
                    bytes_mut_contents(*old(buffer)),
                    max_frame_size,
                    payload_cap,
                    oversize,
                );
                &&& final(self)@ == cursor
                &&& consumed <= bytes_mut_contents(*old(buffer)).len()
                &&& bytes_mut_contents(*final(buffer)) == bytes_mut_contents(*old(buffer)).skip(
                    consumed as int,
                )
                &&& match accepted {
                    Accepted::Incomplete(missing) => outcome == Outcome::<
                        Option<bytes::BytesMut>,
                        Header,
                    >::Incomplete(missing) && missing > 0,
                    Accepted::Fatal(error) => outcome == Outcome::<
                        Option<bytes::BytesMut>,
                        Header,
                    >::Fatal(error),
                    Accepted::Segment => outcome == Outcome::<
                        Option<bytes::BytesMut>,
                        Header,
                    >::Success(None),
                    Accepted::Complete(payload) => outcome matches Outcome::Success(Some(bytes))
                        && bytes_mut_contents(bytes) == payload,
                }
            }),
    {
        let available = buffer_len(buffer);
        match self.transfer.take() {
            None => {
                if available < PREAMBLE_SIZE {
                    return Outcome::Incomplete((PREAMBLE_SIZE - available) as u32);
                }
                let total = read_length(buffer);
                if total > payload_cap {
                    return Outcome::Fatal(header.with_err(oversize));
                }
                let room = max_frame_size - PREAMBLE_SIZE as u32;
                let segment = if total <= room {
                    total
                } else {
                    room
                };
                let frame = PREAMBLE_SIZE + segment as usize;
                if available < frame {
                    return Outcome::Incomplete((frame - available) as u32);
                }
                buffer_advance(buffer, PREAMBLE_SIZE);
                let payload = buffer_split_to(buffer, segment as usize);
                proof {
                    let old_contents = bytes_mut_contents(*old(buffer));
                    assert(bytes_mut_contents(payload) =~= old_contents.subrange(
                        PREAMBLE_SIZE as int,
                        frame as int,
                    ));
                    assert(bytes_mut_contents(*buffer) =~= old_contents.skip(frame as int));
                }
                if segment == total {
                    Outcome::Success(Some(payload))
                } else {
                    self.transfer = Some(Transfer { header, payload, total });
                    Outcome::Success(None)
                }
            },
            Some(transfer) => {
                if transfer.header != header {
                    self.transfer = Some(transfer);
                    return Outcome::Fatal(header.with_err(ErrorKind::InProgress));
                }
                let Transfer { header: current, payload: mut payload, total } = transfer;
                let received = buffer_len(&payload);
                let missing = total - received as u32;
                let room = max_frame_size - Header::SIZE as u32;
                let segment = if missing <= room {
                    missing
                } else {
                    room
                };
                let frame = Header::SIZE + segment as usize;
                if available < frame {
                    self.transfer = Some(Transfer { header: current, payload, total });
                    return Outcome::Incomplete((frame - available) as u32);
                }
                buffer_advance(buffer, Header::SIZE);
                let tail = buffer_split_to(buffer, segment as usize);
                proof {
                    let old_contents = bytes_mut_contents(*old(buffer));
                    assert(bytes_mut_contents(tail) =~= old_contents.subrange(
                        Header::SIZE as int,
                        frame as int,
                    ));
                    assert(bytes_mut_contents(*buffer) =~= old_contents.skip(frame as int));
                }
                buffer_unsplit(&mut payload, tail);
                if segment == missing {
                    Outcome::Success(Some(payload))
                } else {
                    self.transfer = Some(Transfer { header: current, payload, total });
                    Outcome::Success(None)
                }
            },
        }
    }
}

} // verus!
