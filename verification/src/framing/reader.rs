//! The reader of a connection: a parser and state machine for the incoming stream.
//!
//! The reader does no I/O. The caller appends what it receives to a buffer and hands
//! the buffer to [`MessageReader::process_incoming`], which consumes a prefix of it.

use vstd::prelude::*;
use crate::framing::buffer::{buffer_advance, buffer_byte, buffer_len, bytes_mut_contents};
use crate::framing::channel::{
    spec_payload, Channel, ChannelConfiguration, ChannelState, CompletedRead, FrameOutcome, Read,
    Step,
};
use crate::framing::header::{ChannelId, ErrorKind, Header, HeaderKind, Id, Kind};
use crate::framing::multiframe::MIN_FRAME_SIZE;
use crate::framing::outcome::Outcome;

verus! {

/// A mistake of the local caller.
#[derive(Copy, Clone, Debug, PartialEq, Eq, Structural)]
pub enum LocalProtocolViolation {
    /// Sending another request would exceed the request limit of the channel.
    WouldExceedRequestLimit,
    /// The channel does not exist.
    InvalidChannel(ChannelId),
}

impl LocalProtocolViolation {
    /// What went wrong, in words.
    pub open spec fn spec_message(&self) -> Seq<char> {
        match self {
            LocalProtocolViolation::WouldExceedRequestLimit => "sending would exceed request limit"@,
            LocalProtocolViolation::InvalidChannel(_) => "invalid channel"@,
        }
    }

    /// Says in words what went wrong.
    pub fn message(&self) -> (message: String)
        ensures
            message@ == self.spec_message(),
    {
        match self {
            LocalProtocolViolation::WouldExceedRequestLimit => {
                "sending would exceed request limit".to_owned()
            },
            LocalProtocolViolation::InvalidChannel(_) => "invalid channel".to_owned(),
        }
    }
}

/// A message to be sent to the peer.
#[derive(Debug)]
pub struct OutgoingMessage {
    header: Header,
    payload: Option<bytes::Bytes>,
}

impl OutgoingMessage {
    /// The header of the message.
    pub closed spec fn spec_header(&self) -> Header {
        self.header
    }

    /// The bytes of the payload, if the message has one.
    pub closed spec fn spec_payload(&self) -> Option<Seq<u8>> {
        spec_payload(self.payload)
    }

    /// Creates a message.
    pub fn new(header: Header, payload: Option<bytes::Bytes>) -> (message: OutgoingMessage)
        ensures
            message.spec_header() == header,
            message.spec_payload() == spec_payload(payload),
    {
        OutgoingMessage { header, payload }
    }

    /// The header of the message.
    pub fn header(&self) -> (header: Header)
        ensures
            header == self.spec_header(),
    {
        self.header
    }

    /// The payload of the message.
    pub fn payload(&self) -> (payload: &Option<bytes::Bytes>)
        ensures
            spec_payload(*payload) == self.spec_payload(),
    {
        &self.payload
    }
}

/// The state of a reader, as a mathematical value.
#[verifier::ext_equal]
pub struct ReaderState {
    /// The channels, by number.
    pub channels: Seq<ChannelState>,
    /// The largest size of a frame.
    pub max_frame_size: u32,
}

/// The error that answers bytes that are no header. As the channel and the id
/// cannot be known, both are zero.
pub open spec fn spec_invalid_header() -> Header {
    Header {
        kind: HeaderKind::Error(ErrorKind::InvalidHeader),
        channel: ChannelId(0),
        id: Id(0),
    }
}

impl ReaderState {
    /// The invariant of a reader: that of each of its channels, and a frame size
    /// that lets every frame carry payload.
    pub open spec fn wf(self) -> bool {
        &&& self.max_frame_size >= MIN_FRAME_SIZE
        &&& forall|i: int| 0 <= i < self.channels.len() ==> (#[trigger] self.channels[i]).wf()
    }

    /// The reader with one channel replaced.
    pub open spec fn with_channel(self, index: int, channel: ChannelState) -> ReaderState {
        ReaderState { channels: self.channels.update(index, channel), ..self }
    }

    /// What one call of `process_incoming` does on a buffer that holds `buffer`: the
    /// reader afterwards, the bytes left in the buffer, and the result.
    ///
    /// Frames are processed until one completes a message, violates the protocol, or
    /// is not in the buffer as a whole.
    pub open spec fn process(self, buffer: Seq<u8>) -> (ReaderState, Seq<u8>, Outcome<Read, Header>)
        decreases buffer.len(),
    {
        if buffer.len() < Header::SIZE {
            (self, buffer, Outcome::Incomplete((Header::SIZE - buffer.len()) as u32))
        } else {
            match Header::spec_parse(buffer.take(Header::SIZE as int)) {
                None => (self, buffer, Outcome::Fatal(spec_invalid_header())),
                Some(header) => {
                    let index = header.channel.0 as int;
                    if header.is_error() {
                        (
                            self,
                            buffer.skip(Header::SIZE as int),
                            Outcome::Success(Read::ErrorReceived(header)),
                        )
                    } else if index >= self.channels.len() {
                        (self, buffer, Outcome::Fatal(header.with_err(ErrorKind::InvalidChannel)))
                    } else {
                        let (channel, consumed, step) = self.channels[index].step(
                            header,
                            buffer,
                            self.max_frame_size,
                        );
                        let next = self.with_channel(index, channel);
                        let rest = buffer.skip(consumed as int);
                        match step {
                            Step::Incomplete(missing) => (next, rest, Outcome::Incomplete(missing)),
                            Step::Fatal(error) => (next, rest, Outcome::Fatal(error)),
                            Step::Read(read) => (next, rest, Outcome::Success(read)),
                            Step::Continue => {
                                if rest.len() < buffer.len() {
                                    next.process(rest)
                                } else {
                                    (next, rest, Outcome::Incomplete(1))
                                }
                            },
                        }
                    }
                },
            }
        }
    }
}

/// The result of a read, as a mathematical value.
pub open spec fn spec_outcome(outcome: Outcome<CompletedRead, Header>) -> Outcome<Read, Header> {
    match outcome {
        Outcome::Incomplete(missing) => Outcome::Incomplete(missing),
        Outcome::Fatal(error) => Outcome::Fatal(error),
        Outcome::Success(read) => Outcome::Success(read@),
    }
}

/// A parser and state machine for the incoming stream of a connection with `N`
/// channels.
#[derive(Debug)]
pub struct MessageReader<const N: usize> {
    channels: Vec<Channel>,
    max_frame_size: u32,
}

impl<const N: usize> View for MessageReader<N> {
    type V = ReaderState;

    closed spec fn view(&self) -> ReaderState {
        ReaderState {
            channels: self.channels@.map_values(|channel: Channel| channel@),
            max_frame_size: self.max_frame_size,
        }
    }
}

impl<const N: usize> MessageReader<N> {
    /// The invariant of the reader: it has `N` channels, and its state is well formed.
    pub open spec fn wf(&self) -> bool {
        &&& self@.channels.len() == N
        &&& self@.wf()
    }

    /// Creates a reader whose channels all have the given limits. A maximum frame
    /// size below [`MIN_FRAME_SIZE`] is refused.
    pub fn new(config: ChannelConfiguration, max_frame_size: u32) -> (reader: Option<
        MessageReader<N>,
    >)
        ensures
            reader is Some <==> max_frame_size >= MIN_FRAME_SIZE,
            reader matches Some(reader) ==> {
                &&& reader.wf()
                &&& reader@.max_frame_size == max_frame_size
                &&& forall|i: int|
                    0 <= i < N ==> #[trigger] reader@.channels[i] == ChannelState::initial(config)
            },
    {
        if max_frame_size < MIN_FRAME_SIZE {
            return None;
        }
        let mut channels: Vec<Channel> = Vec::new();
        while channels.len() < N
            invariant
                channels.len() <= N,
                forall|i: int|
                    0 <= i < channels.len() ==> (#[trigger] channels[i])@ == ChannelState::initial(
                        config,
                    ),
            decreases N - channels.len(),
        {
            channels.push(Channel::new(config));
        }
        let reader = MessageReader { channels, max_frame_size };
        assert forall|i: int| 0 <= i < N implies #[trigger] reader@.channels[i]
            == ChannelState::initial(config) by {
            assert(reader@.channels[i] == reader.channels[i]@);
        }
        Some(reader)
    }

    /// The index of a channel, if the channel exists.
    fn channel_index(&self, channel: ChannelId) -> (index: Result<usize, LocalProtocolViolation>)
        requires
            self.wf(),
        ensures
            channel.0 < N ==> index == Ok::<usize, LocalProtocolViolation>(channel.0 as usize),
            channel.0 >= N ==> index == Err::<usize, LocalProtocolViolation>(
                LocalProtocolViolation::InvalidChannel(channel),
            ),
    {
        if channel.0 as usize >= N {
            Err(LocalProtocolViolation::InvalidChannel(channel))
        } else {
            Ok(channel.0 as usize)
        }
    }

    /// Returns whether another request may be sent on the given channel: fewer
    /// requests of ours are in flight there than the request limit.
    pub fn allowed_to_send_request(&self, channel: ChannelId) -> (res: Result<
        bool,
        LocalProtocolViolation,
    >)
        requires
            self.wf(),
        ensures
            channel.0 >= N ==> res == Err::<bool, LocalProtocolViolation>(
                LocalProtocolViolation::InvalidChannel(channel),
            ),
            channel.0 < N ==> res == Ok::<bool, LocalProtocolViolation>(
                self@.channels[channel.0 as int].outgoing.len()
                    < self@.channels[channel.0 as int].config.request_limit,
            ),
    {
        let index = match self.channel_index(channel) {
            Ok(index) => index,
            Err(violation) => {
                return Err(violation);
            },
        };
        assert(self@.channels[index as int] == self.channels[index as int]@);
        assert(self@.channels[index as int].wf());
        Ok(self.channels[index].allowed_to_send_request())
    }

    /// Creates a new request to be sent, with or without a payload, and records it as
    /// in flight.
    ///
    /// The request gets the first id after that of the previous request on the
    /// channel, wrapping around, that no request in flight has. No request is created
    /// if the channel does not exist, if the request limit of the channel is reached,
    /// or if every id is taken.
    pub fn create_request(&mut self, channel: ChannelId, payload: Option<bytes::Bytes>) -> (res:
        Result<OutgoingMessage, LocalProtocolViolation>)
        requires
            old(self).wf(),
        ensures
            final(self).wf(),
            channel.0 >= N ==> res == Err::<OutgoingMessage, LocalProtocolViolation>(
                LocalProtocolViolation::InvalidChannel(channel),
            ) && final(self)@ == old(self)@,
            channel.0 < N ==> ({
                let state = old(self)@.channels[channel.0 as int];
                let kind = if payload is Some {
                    Kind::RequestPl
                } else {
                    Kind::Request
                };
                if state.outgoing.len() < state.config.request_limit
                    && state.next_request_id() is Some {
                    let id = state.next_request_id().unwrap();
                    &&& res matches Ok(message)
                    &&& message.spec_header() == (Header {
                        kind: HeaderKind::Regular(kind),
                        channel,
                        id: Id(id),
                    })
                    &&& message.spec_payload() == spec_payload(payload)
                    &&& final(self)@ == old(self)@.with_channel(
                        channel.0 as int,
                        ChannelState {
                            outgoing: state.outgoing.insert(id),
                            last_request_id: id,
                            ..state
                        },
                    )
                } else {
                    &&& res == Err::<OutgoingMessage, LocalProtocolViolation>(
                        LocalProtocolViolation::WouldExceedRequestLimit,
                    )
                    &&& final(self)@ == old(self)@
                }
            }),
    {
        let index = match self.channel_index(channel) {
            Ok(index) => index,
            Err(violation) => {
                return Err(violation);
            },
        };
        assert(self@.channels[index as int] == self.channels[index as int]@);
        assert(self@.channels[index as int].wf());
        if !self.channels[index].allowed_to_send_request() {
            return Err(LocalProtocolViolation::WouldExceedRequestLimit);
        }
        let id = match self.generate_request_id(channel) {
            Some(id) => id,
            None => {
                return Err(LocalProtocolViolation::WouldExceedRequestLimit);
            },
        };
        if payload.is_some() {
            let header = Header::new(Kind::RequestPl, channel, id);
            Ok(OutgoingMessage::new(header, payload))
        } else {
            let header = Header::new(Kind::Request, channel, id);
            Ok(OutgoingMessage::new(header, None))
        }
    }

    /// Generates a new, unused request id on a channel that may send a request, and
    /// records it as in flight.
    fn generate_request_id(&mut self, channel: ChannelId) -> (issued: Option<Id>)
        requires
            old(self).wf(),
            channel.0 < N,
            old(self)@.channels[channel.0 as int].outgoing.len() < old(self)@.channels[channel.0 as int].config.request_limit,
        ensures
            final(self).wf(),
            ({
                let state = old(self)@.channels[channel.0 as int];
                match state.next_request_id() {
                    Some(id) => issued == Some(Id(id)) && final(self)@ == old(self)@.with_channel(
                        channel.0 as int,
                        ChannelState {
                            outgoing: state.outgoing.insert(id),
                            last_request_id: id,
                            ..state
                        },
                    ),
                    None => issued is None && final(self)@ == old(self)@,
                }
            }),
    {
        let index = channel.0 as usize;
        assert(self@.channels[index as int] == self.channels[index as int]@);
        assert(self@.channels[index as int].wf());
        let issued = self.channels[index].issue_request_id();
        proof {
            assert(self@.channels =~= old(self)@.channels.update(
                index as int,
                self.channels[index as int]@,
            ));
            assert forall|i: int| 0 <= i < self@.channels.len() implies (
            #[trigger] self@.channels[i]).wf() by {
                if i != index {
                    assert(self@.channels[i] == old(self)@.channels[i]);
                }
            }
        }
        issued
    }

    /// Processes the bytes in `buffer`, consuming the frames at its start until one
    /// completes a message, violates the protocol, or is not in the buffer as a whole.
    ///
    /// After `Incomplete`, the caller appends at least the missing bytes and calls
    /// again. After `Fatal`, the caller sends the error header and closes the
    /// connection.
    pub fn process_incoming(&mut self, buffer: &mut bytes::BytesMut) -> (outcome: Outcome<
        CompletedRead,
        Header,
    >)
        requires
            old(self).wf(),
        ensures
            final(self).wf(),
            ({
                let (state, rest, result) = old(self)@.process(bytes_mut_contents(*old(buffer)));
                &&& final(self)@ == state
                &&& bytes_mut_contents(*final(buffer)) == rest
                &&& spec_outcome(outcome) == result
            }),
            outcome matches Outcome::Incomplete(missing) ==> missing > 0,
    {
        loop
            invariant
                self.wf(),
                old(self)@.process(bytes_mut_contents(*old(buffer))) == self@.process(
                    bytes_mut_contents(*buffer),
                ),
            decreases bytes_mut_contents(*buffer).len(),
        {
            let ghost contents = bytes_mut_contents(*buffer);
            let ghost before = self@;
            let available = buffer_len(buffer);
            if available < Header::SIZE {
                return Outcome::Incomplete((Header::SIZE - available) as u32);
            }
            let raw = [
                buffer_byte(buffer, 0),
                buffer_byte(buffer, 1),
                buffer_byte(buffer, 2),
                buffer_byte(buffer, 3),
            ];
            assert(raw@ =~= contents.take(Header::SIZE as int));
            let header = match Header::parse(raw) {
                Some(header) => header,
                None => {
                    return Outcome::Fatal(
                        Header::new_error(ErrorKind::InvalidHeader, ChannelId::new(0), Id::new(0)),
                    );
                },
            };
            if header.is_error() {
                buffer_advance(buffer, Header::SIZE);
                return Outcome::Success(CompletedRead::ErrorReceived(header));
            }
            let index = header.channel().get() as usize;
            if index >= self.channels.len() {
                return Outcome::Fatal(header.with_err(ErrorKind::InvalidChannel));
            }
            assert(before.channels[index as int] == self.channels[index as int]@);
            assert(before.channels[index as int].wf());
            let frame = self.channels[index].step(header, buffer, self.max_frame_size);
            proof {
                assert(self@.channels =~= before.channels.update(
                    index as int,
                    self.channels[index as int]@,
                ));
                assert forall|i: int| 0 <= i < self@.channels.len() implies (
                #[trigger] self@.channels[i]).wf() by {
                    if i != index {
                        assert(self@.channels[i] == before.channels[i]);
                    }
                }
            }
            match frame {
                FrameOutcome::Done(outcome) => {
                    return outcome;
                },
                FrameOutcome::Continue => {},
            }
        }
    }
}

} // verus!
