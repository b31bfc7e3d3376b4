//! What holds of the reader on every stream of bytes.

use vstd::prelude::*;
use crate::framing::buffer::MAX_BUFFER_LEN;
use crate::framing::channel::{spec_payload_cap, ChannelState, Read};
use crate::framing::header::{ErrorKind, Header, HeaderKind, Kind};
use crate::framing::multiframe::{Cursor, MIN_FRAME_SIZE};
use crate::framing::outcome::Outcome;
use crate::framing::reader::ReaderState;

verus! {

/// Accepting a frame keeps the cursor well formed and consumes no more than the
/// buffer holds; a frame that does not complete its payload is consumed as a whole.
pub proof fn lemma_accept_wf(
    cursor: Cursor,
    header: Header,
    buffer: Seq<u8>,
    max_frame_size: u32,
    payload_cap: u32,
    oversize: ErrorKind,
)
    requires
        cursor.wf(),
        max_frame_size >= MIN_FRAME_SIZE,
        payload_cap <= MAX_BUFFER_LEN,
    ensures
        ({
            let (next, consumed, accepted) = cursor.accept(
                header,
                buffer,
                max_frame_size,
                payload_cap,
                oversize,
            );
            &&& next.wf()
            &&& consumed <= buffer.len()
            &&& accepted is Segment || accepted is Complete ==> consumed >= Header::SIZE
            &&& accepted is Incomplete || accepted is Fatal ==> consumed == 0 && next == cursor
        }),
{
}

/// A frame that is in the buffer as a whole is accepted in the same way whatever
/// follows it.
pub proof fn lemma_accept_extends(
    cursor: Cursor,
    header: Header,
    head: Seq<u8>,
    tail: Seq<u8>,
    max_frame_size: u32,
    payload_cap: u32,
    oversize: ErrorKind,
)
    requires
        cursor.wf(),
        max_frame_size >= MIN_FRAME_SIZE,
        payload_cap <= MAX_BUFFER_LEN,
        !(cursor.accept(header, head, max_frame_size, payload_cap, oversize).2 is Incomplete),
    ensures
        cursor.accept(header, head + tail, max_frame_size, payload_cap, oversize) == cursor.accept(
            header,
            head,
            max_frame_size,
            payload_cap,
            oversize,
        ),
{
    let whole = head + tail;
    let (next, consumed, accepted) = cursor.accept(
        header,
        head,
        max_frame_size,
        payload_cap,
        oversize,
    );
    match cursor {
        Cursor::Idle => {
            assert(head.len() >= 8);
            assert(whole.subrange(4, 8) =~= head.subrange(4, 8));
            if !(accepted is Fatal) {
                assert(whole.subrange(8, consumed as int) =~= head.subrange(8, consumed as int));
            }
        },
        Cursor::InProgress { header: current, received, total } => {
            if !(accepted is Fatal) {
                assert(whole.subrange(4, consumed as int) =~= head.subrange(4, consumed as int));
            }
        },
    }
}

/// A frame keeps its channel well formed: at every step, no more requests are in
/// flight than the request limit, and the cancellation allowance is within it.
pub proof fn lemma_step_wf(state: ChannelState, header: Header, buffer: Seq<u8>, max_frame_size: u32)
    requires
        state.wf(),
        max_frame_size >= MIN_FRAME_SIZE,
    ensures
        ({
            let (next, consumed, step) = state.step(header, buffer, max_frame_size);
            &&& next.wf()
            &&& next.incoming.len() <= next.config.request_limit
            &&& next.cancellation_allowance <= next.config.request_limit
            &&& next.config == state.config
            &&& consumed <= buffer.len() || buffer.len() < Header::SIZE
            &&& step is Continue && !header.is_error() ==> consumed >= Header::SIZE
            &&& step is Incomplete ==> consumed == 0 && next == state
        }),
{
    match header.kind {
        HeaderKind::Regular(Kind::RequestPl) => {
            lemma_accept_wf(
                state.cursor,
                header,
                buffer,
                max_frame_size,
                spec_payload_cap(state.config.max_request_payload_size),
                ErrorKind::RequestTooLarge,
            );
        },
        HeaderKind::Regular(Kind::ResponsePl) => {
            lemma_accept_wf(
                state.cursor,
                header,
                buffer,
                max_frame_size,
                spec_payload_cap(state.config.max_response_payload_size),
                ErrorKind::ResponseTooLarge,
            );
        },
        _ => {},
    }
}

/// A frame that is in the buffer as a whole is processed in the same way whatever
/// follows it.
pub proof fn lemma_step_extends(
    state: ChannelState,
    header: Header,
    head: Seq<u8>,
    tail: Seq<u8>,
    max_frame_size: u32,
)
    requires
        state.wf(),
        max_frame_size >= MIN_FRAME_SIZE,
        !(state.step(header, head, max_frame_size).2 is Incomplete),
    ensures
        state.step(header, head + tail, max_frame_size) == state.step(header, head, max_frame_size),
{
    match header.kind {
        HeaderKind::Regular(Kind::RequestPl) => {
            let cap = spec_payload_cap(state.config.max_request_payload_size);
            let oversize = ErrorKind::RequestTooLarge;
            if !(state.cursor.accept(header, head, max_frame_size, cap, oversize).2 is Incomplete) {
                lemma_accept_extends(state.cursor, header, head, tail, max_frame_size, cap, oversize);
            }
        },
        HeaderKind::Regular(Kind::ResponsePl) => {
            let cap = spec_payload_cap(state.config.max_response_payload_size);
            let oversize = ErrorKind::ResponseTooLarge;
            if !(state.cursor.accept(header, head, max_frame_size, cap, oversize).2 is Incomplete) {
                lemma_accept_extends(state.cursor, header, head, tail, max_frame_size, cap, oversize);
            }
        },
        _ => {},
    }
}

/// Processing keeps the reader well formed and leaves a suffix of the buffer. On
/// every channel, at every step, no more requests are in flight than the request
/// limit, and the cancellation allowance lies between zero and the request limit.
pub proof fn lemma_process_wf(reader: ReaderState, buffer: Seq<u8>)
    requires
        reader.wf(),
    ensures
        ({
            let (next, rest, outcome) = reader.process(buffer);
            &&& next.wf()
            &&& next.channels.len() == reader.channels.len()
            &&& forall|i: int|
                0 <= i < next.channels.len() ==> {
                    &&& (#[trigger] next.channels[i]).incoming.len()
                        <= next.channels[i].config.request_limit
                    &&& 0 <= next.channels[i].cancellation_allowance
                        <= next.channels[i].config.request_limit
                    &&& next.channels[i].config == reader.channels[i].config
                }
            &&& rest.len() <= buffer.len()
            &&& rest == buffer.skip(buffer.len() - rest.len())
            &&& outcome is Success ==> rest.len() < buffer.len()
        }),
    decreases buffer.len(),
{
    if buffer.len() >= Header::SIZE {
        match Header::spec_parse(buffer.take(Header::SIZE as int)) {
            None => {
                assert(buffer.skip(0) =~= buffer);
            },
            Some(header) => {
                let index = header.channel.0 as int;
                if header.is_error() {
                } else if index >= reader.channels.len() {
                    assert(buffer.skip(0) =~= buffer);
                } else {
                    lemma_step_wf(reader.channels[index], header, buffer, reader.max_frame_size);
                    let (channel, consumed, step) = reader.channels[index].step(
                        header,
                        buffer,
                        reader.max_frame_size,
                    );
                    let next = reader.with_channel(index, channel);
                    let rest = buffer.skip(consumed as int);
                    assert(next.wf()) by {
                        assert forall|i: int| 0 <= i < next.channels.len() implies (
                        #[trigger] next.channels[i]).wf() by {
                            if i != index {
                                assert(next.channels[i] == reader.channels[i]);
                            }
                        }
                    }
                    if step is Continue {
                        lemma_process_wf(next, rest);
                        let (last, left, outcome) = next.process(rest);
                        assert(left =~= buffer.skip(buffer.len() - left.len()));
                    }
                }
            },
        }
    } else {
        assert(buffer.skip(0) =~= buffer);
    }
}

/// Bytes may arrive in any number of pieces: if a call stops for want of bytes, the
/// next call on the bytes that were left, followed by those that arrived since, ends
/// as one call on all of the bytes would have ended. A call that does not stop for
/// want of bytes is not affected by what follows the bytes it consumed.
pub proof fn lemma_process_resumes(reader: ReaderState, head: Seq<u8>, tail: Seq<u8>)
    requires
        reader.wf(),
    ensures
        ({
            let (next, rest, outcome) = reader.process(head);
            if outcome is Incomplete {
                reader.process(head + tail) == next.process(rest + tail)
            } else {
                reader.process(head + tail) == (next, rest + tail, outcome)
            }
        }),
    decreases head.len(),
{
    let whole = head + tail;
    if head.len() >= Header::SIZE {
        assert(whole.take(Header::SIZE as int) =~= head.take(Header::SIZE as int));
        match Header::spec_parse(head.take(Header::SIZE as int)) {
            None => {
            },
            Some(header) => {
                let index = header.channel.0 as int;
                if header.is_error() {
                    assert(whole.skip(Header::SIZE as int) =~= head.skip(Header::SIZE as int) + tail);
                } else if index >= reader.channels.len() {
                } else {
                    let state = reader.channels[index];
                    lemma_step_wf(state, header, head, reader.max_frame_size);
                    let (channel, consumed, step) = state.step(header, head, reader.max_frame_size);
                    let next = reader.with_channel(index, channel);
                    let rest = head.skip(consumed as int);
                    if step is Incomplete {
                        assert(next =~= reader);
                        assert(rest =~= head);
                    } else {
                        lemma_step_extends(state, header, head, tail, reader.max_frame_size);
                        assert(whole.skip(consumed as int) =~= rest + tail);
                        if step is Continue {
                            assert(next.wf()) by {
                                assert forall|i: int| 0 <= i < next.channels.len() implies (
                                #[trigger] next.channels[i]).wf() by {
                                    if i != index {
                                        assert(next.channels[i] == reader.channels[i]);
                                    }
                                }
                            }
                            lemma_process_resumes(next, rest, tail);
                        }
                    }
                }
            },
        }
    }
}

impl ReaderState {
    /// What calling `process_incoming` again and again does, until a call reads no
    /// message: the messages read, the reader afterwards, the bytes left in the
    /// buffer, and the result of the last call.
    pub open spec fn drain(self, buffer: Seq<u8>) -> (
        Seq<Read>,
        ReaderState,
        Seq<u8>,
        Outcome<Read, Header>,
    )
        decreases buffer.len(),
    {
        let (next, rest, outcome) = self.process(buffer);
        match outcome {
            Outcome::Success(read) => {
                if rest.len() < buffer.len() {
                    let (reads, last, left, end) = next.drain(rest);
                    (seq![read] + reads, last, left, end)
                } else {
                    (seq![read], next, rest, outcome)
                }
            },
            _ => (Seq::empty(), next, rest, outcome),
        }
    }
}

/// The messages read do not depend on how the bytes were cut into pieces. Reading
/// all there is to read from the first piece, and then, unless the protocol was
/// violated, from what was left of it followed by the second piece, gives the
/// messages that reading from both pieces at once gives, in the same order, and ends
/// in the same state with the same result.
pub proof fn lemma_drain_in_pieces(reader: ReaderState, head: Seq<u8>, tail: Seq<u8>)
    requires
        reader.wf(),
    ensures
        ({
            let (reads, next, rest, end) = reader.drain(head);
            if end is Incomplete {
                let (more, last, left, result) = next.drain(rest + tail);
                reader.drain(head + tail) == (reads + more, last, left, result)
            } else {
                reader.drain(head + tail) == (reads, next, rest + tail, end)
            }
        }),
    decreases head.len(),
{
    let whole = head + tail;
    lemma_process_resumes(reader, head, tail);
    lemma_process_wf(reader, head);
    let (next, rest, outcome) = reader.process(head);
    match outcome {
        Outcome::Success(read) => {
            lemma_drain_in_pieces(next, rest, tail);
            let (reads, last, left, end) = next.drain(rest);
            if end is Incomplete {
                let (more, last2, left2, result) = last.drain(left + tail);
                assert(seq![read] + (reads + more) =~= (seq![read] + reads) + more);
            }
        },
        Outcome::Incomplete(_) => {
            lemma_process_wf(next, rest + tail);
            let (more, last, left, result) = next.drain(rest + tail);
            assert(Seq::<Read>::empty() + more =~= more);
            let (after, remaining, result2) = next.process(rest + tail);
            assert(remaining.len() < (rest + tail).len() ==> remaining.len() < whole.len());
        },
        Outcome::Fatal(_) => {},
    }
}

} // verus!
