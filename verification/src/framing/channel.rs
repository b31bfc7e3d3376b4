//! The state of one channel and what a single frame does to it.

use std::collections::HashSet;
use vstd::prelude::*;
use crate::framing::buffer::{
    buffer_advance, buffer_freeze, bytes_contents, bytes_mut_contents, MAX_BUFFER_LEN,
};
use crate::framing::header::{ErrorKind, Header, HeaderKind, Id, Kind};
use crate::framing::multiframe::{Accepted, Cursor, MultiframeReceiver, MIN_FRAME_SIZE};
use crate::framing::outcome::Outcome;

verus! {

/// The limits of one channel.
#[derive(Copy, Clone, Debug, PartialEq, Eq, Structural)]
pub struct ChannelConfiguration {
    /// The largest number of requests that may be in flight in one direction.
    pub request_limit: u32,
    /// The largest payload of a request.
    pub max_request_payload_size: u32,
    /// The largest payload of a response.
    pub max_response_payload_size: u32,
}

impl ChannelConfiguration {
    /// A configuration with room for one request at a time and for no payloads.
    pub fn new() -> (config: ChannelConfiguration)
        ensures
            config == (ChannelConfiguration {
                request_limit: 1,
                max_request_payload_size: 0,
                max_response_payload_size: 0,
            }),
    {
        ChannelConfiguration {
            request_limit: 1,
            max_request_payload_size: 0,
            max_response_payload_size: 0,
        }
    }

    /// The same configuration with another request limit.
    pub fn with_request_limit(self, request_limit: u32) -> (config: ChannelConfiguration)
        ensures
            config == (ChannelConfiguration { request_limit, ..self }),
    {
        ChannelConfiguration { request_limit, ..self }
    }

    /// The same configuration with another limit on request payloads.
    pub fn with_max_request_payload_size(self, size: u32) -> (config: ChannelConfiguration)
        ensures
            config == (ChannelConfiguration { max_request_payload_size: size, ..self }),
    {
        ChannelConfiguration { max_request_payload_size: size, ..self }
    }

    /// The same configuration with another limit on response payloads.
    pub fn with_max_response_payload_size(self, size: u32) -> (config: ChannelConfiguration)
        ensures
            config == (ChannelConfiguration { max_response_payload_size: size, ..self }),
    {
        ChannelConfiguration { max_response_payload_size: size, ..self }
    }
}

/// A payload limit as it is enforced: no payload may exceed what a buffer can hold.
pub open spec fn spec_payload_cap(configured: u32) -> u32 {
    if configured <= MAX_BUFFER_LEN {
        configured
    } else {
        MAX_BUFFER_LEN as u32
    }
}

/// A message that was read from the stream, as a mathematical value.
#[verifier::ext_equal]
pub enum Read {
    /// The peer reported an error.
    ErrorReceived(Header),
    /// The peer sent a request.
    NewRequest { id: Id, payload: Option<Seq<u8>> },
    /// The peer answered a request.
    ReceivedResponse { id: Id, payload: Option<Seq<u8>> },
    /// The peer cancelled a request of its own.
    RequestCancellation { id: Id },
    /// The peer cancelled the response to a request of ours.
    ResponseCancellation { id: Id },
}

/// What one frame came to.
#[verifier::ext_equal]
pub enum Step {
    /// The frame is not yet in the buffer as a whole; so many bytes are missing.
    Incomplete(u32),
    /// The frame violates the protocol; the header is to be sent to the peer.
    Fatal(Header),
    /// The frame completed a message.
    Read(Read),
    /// The frame was consumed without completing a message.
    Continue,
}

/// The state of one channel, as a mathematical value.
#[verifier::ext_equal]
pub struct ChannelState {
    /// The ids of the requests of the peer that await our response.
    pub incoming: Set<u16>,
    /// The ids of our requests that await the response of the peer.
    pub outgoing: Set<u16>,
    /// The reassembly in progress.
    pub cursor: Cursor,
    /// The number of cancellations that the peer may still send.
    pub cancellation_allowance: u32,
    /// The id that was given to the latest request of ours.
    pub last_request_id: u16,
    /// The limits of the channel.
    pub config: ChannelConfiguration,
}

impl ChannelState {
    /// The invariant of a channel: neither direction has more requests in flight
    /// than the limit, nor may the peer send more cancellations than that.
    pub open spec fn wf(self) -> bool {
        &&& self.incoming.finite()
        &&& self.outgoing.finite()
        &&& self.incoming.len() <= self.config.request_limit
        &&& self.outgoing.len() <= self.config.request_limit
        &&& self.cancellation_allowance <= self.config.request_limit
        &&& self.cursor.wf()
    }

    /// A channel on which nothing has happened yet.
    pub open spec fn initial(config: ChannelConfiguration) -> ChannelState {
        ChannelState {
            incoming: Set::empty(),
            outgoing: Set::empty(),
            cursor: Cursor::Idle,
            cancellation_allowance: 0,
            last_request_id: 0,
            config,
        }
    }

    /// Whether the peer has as many requests in flight as it may.
    pub open spec fn is_at_max_requests(self) -> bool {
        self.incoming.len() >= self.config.request_limit
    }

    /// The channel after the request `id` of the peer was accepted: the id is in
    /// flight, and the peer may send one more cancellation, up to the request limit.
    pub open spec fn enroll(self, id: u16) -> ChannelState {
        ChannelState {
            incoming: self.incoming.insert(id),
            cancellation_allowance: if self.cancellation_allowance < self.config.request_limit {
                (self.cancellation_allowance + 1) as u32
            } else {
                self.cancellation_allowance
            },
            ..self
        }
    }

    /// The channel after the request `id` of ours was settled.
    pub open spec fn settle(self, id: u16) -> ChannelState {
        ChannelState { outgoing: self.outgoing.remove(id), ..self }
    }

    /// What the frame at the start of `buffer` does, whose header `header` is not an
    /// error header: the channel afterwards, the number of bytes consumed, and the
    /// result.
    pub open spec fn step(self, header: Header, buffer: Seq<u8>, max_frame_size: u32) -> (
        ChannelState,
        nat,
        Step,
    ) {
        let id = header.id;
        match header.kind {
            HeaderKind::Error(_) => (self, 0, Step::Continue),
            HeaderKind::Regular(Kind::Request) => {
                if self.is_at_max_requests() {
                    (self, 0, Step::Fatal(header.with_err(ErrorKind::RequestLimitExceeded)))
                } else if self.incoming.contains(id.0) {
                    (self, 0, Step::Fatal(header.with_err(ErrorKind::DuplicateRequest)))
                } else {
                    (
                        self.enroll(id.0),
                        Header::SIZE as nat,
                        Step::Read(Read::NewRequest { id, payload: None }),
                    )
                }
            },
            HeaderKind::Regular(Kind::Response) => {
                if !self.outgoing.contains(id.0) {
                    (self, 0, Step::Fatal(header.with_err(ErrorKind::FictitiousRequest)))
                } else {
                    (
                        self.settle(id.0),
                        Header::SIZE as nat,
                        Step::Read(Read::ReceivedResponse { id, payload: None }),
                    )
                }
            },
            HeaderKind::Regular(Kind::RequestPl) => {
                let is_new = self.cursor.is_new_transfer(header);
                let (cursor, consumed, accepted) = self.cursor.accept(
                    header,
                    buffer,
                    max_frame_size,
                    spec_payload_cap(self.config.max_request_payload_size),
                    ErrorKind::RequestTooLarge,
                );
                let moved = ChannelState { cursor, ..self };
                if is_new && self.is_at_max_requests() {
                    (self, 0, Step::Fatal(header.with_err(ErrorKind::RequestLimitExceeded)))
                } else if is_new && self.incoming.contains(id.0) {
                    (self, 0, Step::Fatal(header.with_err(ErrorKind::DuplicateRequest)))
                } else {
                    match accepted {
                        Accepted::Incomplete(missing) => (self, 0, Step::Incomplete(missing)),
                        Accepted::Fatal(error) => (self, 0, Step::Fatal(error)),
                        Accepted::Segment => (moved, consumed, Step::Continue),
                        Accepted::Complete(payload) => {
                            if self.is_at_max_requests() {
                                (
                                    moved,
                                    consumed,
                                    Step::Fatal(header.with_err(ErrorKind::RequestLimitExceeded)),
                                )
                            } else if self.incoming.contains(id.0) {
                                (
                                    moved,
                                    consumed,
                                    Step::Fatal(header.with_err(ErrorKind::DuplicateRequest)),
                                )
                            } else {
                                (
                                    moved.enroll(id.0),
                                    consumed,
                                    Step::Read(Read::NewRequest { id, payload: Some(payload) }),
                                )
                            }
                        },
                    }
                }
            },
            HeaderKind::Regular(Kind::ResponsePl) => {
                let is_new = self.cursor.is_new_transfer(header);
                let (cursor, consumed, accepted) = self.cursor.accept(
                    header,
                    buffer,
                    max_frame_size,
                    spec_payload_cap(self.config.max_response_payload_size),
                    ErrorKind::ResponseTooLarge,
                );
                let moved = ChannelState { cursor, ..self };
                if is_new && !self.outgoing.contains(id.0) {
                    (self, 0, Step::Fatal(header.with_err(ErrorKind::FictitiousRequest)))
                } else {
                    match accepted {
                        Accepted::Incomplete(missing) => (self, 0, Step::Incomplete(missing)),
                        Accepted::Fatal(error) => (self, 0, Step::Fatal(error)),
                        Accepted::Segment => (moved, consumed, Step::Continue),
                        Accepted::Complete(payload) => {
                            if !self.outgoing.contains(id.0) {
                                (
                                    moved,
                                    consumed,
                                    Step::Fatal(header.with_err(ErrorKind::FictitiousRequest)),
                                )
                            } else {
                                (
                                    moved.settle(id.0),
                                    consumed,
                                    Step::Read(
                                        Read::ReceivedResponse { id, payload: Some(payload) },
                                    ),
                                )
                            }
                        },
                    }
                }
            },
            HeaderKind::Regular(Kind::CancelReq) => {
                if self.cancellation_allowance == 0 {
                    (self, 0, Step::Fatal(header.with_err(ErrorKind::CancellationLimitExceeded)))
                } else {
                    (
                        ChannelState {
                            cancellation_allowance: (self.cancellation_allowance - 1) as u32,
                            ..self
                        },
                        Header::SIZE as nat,
                        Step::Read(Read::RequestCancellation { id }),
                    )
                }
            },
            HeaderKind::Regular(Kind::CancelResp) => {
                if self.outgoing.contains(id.0) {
                    (
                        self.settle(id.0),
                        Header::SIZE as nat,
                        Step::Read(Read::ResponseCancellation { id }),
                    )
                } else {
                    (self, 0, Step::Fatal(header.with_err(ErrorKind::FictitiousCancel)))
                }
            },
        }
    }

    /// The first id, counting up from `candidate` and wrapping around, that no
    /// request of ours in flight has; `tries` ids are looked at.
    pub open spec fn first_free_id(self, candidate: u16, tries: nat) -> Option<u16>
        decreases tries,
    {
        if tries == 0 {
            None
        } else if !self.outgoing.contains(candidate) {
            Some(candidate)
        } else {
            self.first_free_id(spec_next_id(candidate), (tries - 1) as nat)
        }
    }

    /// The id that the next request of ours gets: the first free id after the one
    /// given last.
    pub open spec fn next_request_id(self) -> Option<u16> {
        self.first_free_id(spec_next_id(self.last_request_id), 0x1_0000)
    }
}

/// The id after `id`, wrapping around.
pub open spec fn spec_next_id(id: u16) -> u16 {
    if id == u16::MAX {
        0
    } else {
        (id + 1) as u16
    }
}

/// A message that was read from the stream.
#[derive(Debug)]
pub enum CompletedRead {
    /// The peer reported an error.
    ErrorReceived(Header),
    /// The peer sent a request.
    NewRequest { id: Id, payload: Option<bytes::Bytes> },
    /// The peer answered a request.
    ReceivedResponse { id: Id, payload: Option<bytes::Bytes> },
    /// The peer cancelled a request of its own.
    RequestCancellation { id: Id },
    /// The peer cancelled the response to a request of ours.
    ResponseCancellation { id: Id },
}

/// The bytes of an optional payload.
pub open spec fn spec_payload(payload: Option<bytes::Bytes>) -> Option<Seq<u8>> {
    match payload {
        None => None,
        Some(bytes) => Some(bytes_contents(bytes)),
    }
}

impl View for CompletedRead {
    type V = Read;

    open spec fn view(&self) -> Read {
        match *self {
            CompletedRead::ErrorReceived(header) => Read::ErrorReceived(header),
            CompletedRead::NewRequest { id, payload } => Read::NewRequest {
                id,
                payload: spec_payload(payload),
            },
            CompletedRead::ReceivedResponse { id, payload } => Read::ReceivedResponse {
                id,
                payload: spec_payload(payload),
            },
            CompletedRead::RequestCancellation { id } => Read::RequestCancellation { id },
            CompletedRead::ResponseCancellation { id } => Read::ResponseCancellation { id },
        }
    }
}

/// What one frame came to: a result to hand to the caller, or nothing yet.
pub enum FrameOutcome {
    /// The result of the read.
    Done(Outcome<CompletedRead, Header>),
    /// The frame was consumed without completing a message.
    Continue,
}

impl FrameOutcome {
    /// Whether this is what `step` stands for.
    pub open spec fn matches_step(self, step: Step) -> bool {
        match step {
            Step::Incomplete(missing) => self == FrameOutcome::Done(Outcome::Incomplete(missing))
                && missing > 0,
            Step::Fatal(error) => self == FrameOutcome::Done(Outcome::Fatal(error)),
            Step::Read(read) => self matches FrameOutcome::Done(Outcome::Success(completed))
                && completed@ == read,
            Step::Continue => self is Continue,
        }
    }
}

/// One channel of a connection.
#[derive(Debug)]
pub struct Channel {
    incoming_requests: HashSet<u16>,
    outgoing_requests: HashSet<u16>,
    current_multiframe_receive: MultiframeReceiver,
    cancellation_allowance: u32,
    last_request_id: u16,
    config: ChannelConfiguration,
}

impl View for Channel {
    type V = ChannelState;

    closed spec fn view(&self) -> ChannelState {
        ChannelState {
            incoming: self.incoming_requests@,
            outgoing: self.outgoing_requests@,
            cursor: self.current_multiframe_receive@,
            cancellation_allowance: self.cancellation_allowance,
            last_request_id: self.last_request_id,
            config: self.config,
        }
    }
}

/// A payload limit as it is enforced.
fn payload_cap(configured: u32) -> (cap: u32)
    ensures
        cap == spec_payload_cap(configured),
        cap <= MAX_BUFFER_LEN,
{
    if configured as usize <= MAX_BUFFER_LEN {
        configured
    } else {
        MAX_BUFFER_LEN as u32
    }
}

/// The id after `id`, wrapping around.
fn next_id(id: u16) -> (next: u16)
    ensures
        next == spec_next_id(id),
{
    if id == u16::MAX {
        0
    } else {
        id + 1
    }
}

impl Channel {
    /// Creates a channel on which nothing has happened yet.
    pub fn new(config: ChannelConfiguration) -> (channel: Channel)
        ensures
            channel@ == ChannelState::initial(config),
            channel@.wf(),
    {
        Channel {
            incoming_requests: HashSet::new(),
            outgoing_requests: HashSet::new(),
            current_multiframe_receive: MultiframeReceiver::new(),
            cancellation_allowance: 0,
            last_request_id: 0,
            config,
        }
    }

    /// The number of requests of the peer that await our response.
    pub fn in_flight_requests(&self) -> (count: u32)
        requires
            self@.wf(),
        ensures
            count == self@.incoming.len(),
    {
        self.incoming_requests.len() as u32
    }

    /// Whether the peer has as many requests in flight as it may.
    pub fn is_at_max_requests(&self) -> (res: bool)
        requires
            self@.wf(),
        ensures
            res == self@.is_at_max_requests(),
    {
        self.in_flight_requests() == self.config.request_limit
    }

    /// Lets the peer send one more cancellation, up to the request limit.
    pub fn increment_cancellation_allowance(&mut self)
        ensures
            final(self)@ == (ChannelState {
                cancellation_allowance: old(self)@.enroll(0).cancellation_allowance,
                ..old(self)@
            }),
    {
        if self.cancellation_allowance < self.config.request_limit {
            self.cancellation_allowance += 1;
        }
    }

    /// Whether another request of ours may be sent.
    pub fn allowed_to_send_request(&self) -> (res: bool)
        requires
            self@.wf(),
        ensures
            res == (self@.outgoing.len() < self@.config.request_limit),
    {
        self.outgoing_requests.len() < self.config.request_limit as usize
    }

    /// Enrolls the request `id` of the peer.
    fn enroll(&mut self, id: u16)
        requires
            old(self)@.wf(),
            !old(self)@.is_at_max_requests(),
            !old(self)@.incoming.contains(id),
        ensures
            final(self)@ == old(self)@.enroll(id),
            final(self)@.wf(),
    {
        self.incoming_requests.insert(id);
        self.increment_cancellation_allowance();
    }

    /// Gives the next request of ours its id and records it as in flight. The id is
    /// the first after the one given last, wrapping around, that no request in
    /// flight has; there is none if every id is taken.
    pub fn issue_request_id(&mut self) -> (issued: Option<Id>)
        requires
            old(self)@.wf(),
            old(self)@.outgoing.len() < old(self)@.config.request_limit,
        ensures
            final(self)@.wf(),
            match old(self)@.next_request_id() {
                Some(id) => issued == Some(Id(id)) && final(self)@ == (ChannelState {
                    outgoing: old(self)@.outgoing.insert(id),
                    last_request_id: id,
                    ..old(self)@
                }),
                None => issued is None && final(self)@ == old(self)@,
            },
    {
        let mut candidate: u16 = next_id(self.last_request_id);
        let mut tries: u32 = 0x1_0000;
        while tries > 0
            invariant
                *self == *old(self),
                self@.wf(),
                self@.outgoing.len() < self@.config.request_limit,
                tries <= 0x1_0000,
                old(self)@.next_request_id() == old(self)@.first_free_id(candidate, tries as nat),
            decreases tries,
        {
            if !self.outgoing_requests.contains(&candidate) {
                self.outgoing_requests.insert(candidate);
                self.last_request_id = candidate;
                return Some(Id(candidate));
            }
            candidate = next_id(candidate);
            tries -= 1;
        }
        None
    }

    /// Processes the frame at the start of `buffer`, whose header the caller has
    /// parsed and found to be no error header.
    pub fn step(&mut self, header: Header, buffer: &mut bytes::BytesMut, max_frame_size: u32) -> (outcome:
        FrameOutcome)
        requires
            old(self)@.wf(),
            !header.is_error(),
            max_frame_size >= MIN_FRAME_SIZE,
            bytes_mut_contents(*old(buffer)).len() >= Header::SIZE,
        ensures
            final(self)@.wf(),
            ({
                let (state, consumed, step) = old(self)@.step(
                    header,
                    bytes_mut_contents(*old(buffer)),
                    max_frame_size,
                );
                &&& final(self)@ == state
                &&& consumed <= bytes_mut_contents(*old(buffer)).len()
                &&& bytes_mut_contents(*final(buffer)) == bytes_mut_contents(*old(buffer)).skip(
                    consumed as int,
                )
                &&& outcome.matches_step(step)
                &&& step is Continue ==> consumed >= Header::SIZE
            }),
    {
        let id = header.id();
        match header.kind() {
            Kind::Request => {
                if self.is_at_max_requests() {
                    return FrameOutcome::Done(
                        Outcome::Fatal(header.with_err(ErrorKind::RequestLimitExceeded)),
                    );
                }
                if self.incoming_requests.contains(&id.0) {
                    return FrameOutcome::Done(
                        Outcome::Fatal(header.with_err(ErrorKind::DuplicateRequest)),
                    );
                }
                self.enroll(id.0);
                buffer_advance(buffer, Header::SIZE);
                FrameOutcome::Done(Outcome::Success(CompletedRead::NewRequest { id, payload: None }))
            },
            Kind::Response => {
                if !self.outgoing_requests.remove(&id.0) {
                    return FrameOutcome::Done(
                        Outcome::Fatal(header.with_err(ErrorKind::FictitiousRequest)),
                    );
                }
                buffer_advance(buffer, Header::SIZE);
                FrameOutcome::Done(
                    Outcome::Success(CompletedRead::ReceivedResponse { id, payload: None }),
                )
            },
            Kind::RequestPl => {
                let is_new_request = self.current_multiframe_receive.is_new_transfer(header);
                if is_new_request {
                    if self.is_at_max_requests() {
                        return FrameOutcome::Done(
                            Outcome::Fatal(header.with_err(ErrorKind::RequestLimitExceeded)),
                        );
                    }
                    if self.incoming_requests.contains(&id.0) {
                        return FrameOutcome::Done(
                            Outcome::Fatal(header.with_err(ErrorKind::DuplicateRequest)),
                        );
                    }
                }
                let cap = payload_cap(self.config.max_request_payload_size);
                let accepted = self.current_multiframe_receive.accept(
                    header,
                    buffer,
                    max_frame_size,
                    cap,
                    ErrorKind::RequestTooLarge,
                );
                match accepted {
                    Outcome::Incomplete(missing) => FrameOutcome::Done(Outcome::Incomplete(missing)),
                    Outcome::Fatal(error) => FrameOutcome::Done(Outcome::Fatal(error)),
                    Outcome::Success(None) => FrameOutcome::Continue,
                    Outcome::Success(Some(payload)) => {
                        if self.is_at_max_requests() {
                            return FrameOutcome::Done(
                                Outcome::Fatal(header.with_err(ErrorKind::RequestLimitExceeded)),
                            );
                        }
                        if self.incoming_requests.contains(&id.0) {
                            return FrameOutcome::Done(
                                Outcome::Fatal(header.with_err(ErrorKind::DuplicateRequest)),
                            );
                        }
                        self.enroll(id.0);
                        FrameOutcome::Done(
                            Outcome::Success(
                                CompletedRead::NewRequest {
                                    id,
                                    payload: Some(buffer_freeze(payload)),
                                },
                            ),
                        )
                    },
                }
            },
            Kind::ResponsePl => {
                let is_new_response = self.current_multiframe_receive.is_new_transfer(header);
                if is_new_response {
                    if !self.outgoing_requests.contains(&id.0) {
                        return FrameOutcome::Done(
                            Outcome::Fatal(header.with_err(ErrorKind::FictitiousRequest)),
                        );
                    }
                }
                let cap = payload_cap(self.config.max_response_payload_size);
                let accepted = self.current_multiframe_receive.accept(
                    header,
                    buffer,
                    max_frame_size,
                    cap,
                    ErrorKind::ResponseTooLarge,
                );
                match accepted {
                    Outcome::Incomplete(missing) => FrameOutcome::Done(Outcome::Incomplete(missing)),
                    Outcome::Fatal(error) => FrameOutcome::Done(Outcome::Fatal(error)),
                    Outcome::Success(None) => FrameOutcome::Continue,
                    Outcome::Success(Some(payload)) => {
                        if !self.outgoing_requests.remove(&id.0) {
                            return FrameOutcome::Done(
                                Outcome::Fatal(header.with_err(ErrorKind::FictitiousRequest)),
                            );
                        }
                        FrameOutcome::Done(
                            Outcome::Success(
                                CompletedRead::ReceivedResponse {
                                    id,
                                    payload: Some(buffer_freeze(payload)),
                                },
                            ),
                        )
                    },
                }
            },
            Kind::CancelReq => {
                if self.cancellation_allowance == 0 {
                    return FrameOutcome::Done(
                        Outcome::Fatal(header.with_err(ErrorKind::CancellationLimitExceeded)),
                    );
                }
                self.cancellation_allowance -= 1;
                buffer_advance(buffer, Header::SIZE);
                FrameOutcome::Done(Outcome::Success(CompletedRead::RequestCancellation { id }))
            },
            Kind::CancelResp => {
                if self.outgoing_requests.remove(&id.0) {
                    buffer_advance(buffer, Header::SIZE);
                    FrameOutcome::Done(Outcome::Success(CompletedRead::ResponseCancellation { id }))
                } else {
                    FrameOutcome::Done(Outcome::Fatal(header.with_err(ErrorKind::FictitiousCancel)))
                }
            },
        }
    }
}

} // verus!
