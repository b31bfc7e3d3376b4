//! Frame headers.
//!
//! A header takes [`Header::SIZE`] bytes on the wire: the kind byte, the channel,
//! and the message id in little-endian order. The top bit of the kind byte marks an
//! error header; the remaining bits hold the number of the kind or of the error.

use vstd::prelude::*;

verus! {

/// A logical channel of a connection.
#[derive(Copy, Clone, Debug, PartialEq, Eq, Structural)]
pub struct ChannelId(pub u8);

impl ChannelId {
    /// Creates the id of the channel with the given number.
    pub fn new(channel: u8) -> (id: ChannelId)
        ensures
            id == ChannelId(channel),
    {
        ChannelId(channel)
    }

    /// The number of the channel.
    pub fn get(self) -> (channel: u8)
        ensures
            channel == self.0,
    {
        self.0
    }
}

/// The id of a message on a channel.
#[derive(Copy, Clone, Debug, PartialEq, Eq, Structural)]
pub struct Id(pub u16);

impl Id {
    /// Creates the id with the given number.
    pub fn new(id: u16) -> (res: Id)
        ensures
            res == Id(id),
    {
        Id(id)
    }

    /// The number of the id.
    pub fn get(self) -> (id: u16)
        ensures
            id == self.0,
    {
        self.0
    }
}

/// The kind of a frame that is not an error.
#[derive(Copy, Clone, Debug, PartialEq, Eq, Structural)]
pub enum Kind {
    /// A request without payload.
    Request,
    /// A response without payload.
    Response,
    /// A request with a payload.
    RequestPl,
    /// A response with a payload.
    ResponsePl,
    /// Cancellation of a request.
    CancelReq,
    /// Cancellation of a response.
    CancelResp,
}

/// The reason carried by an error header.
#[derive(Copy, Clone, Debug, PartialEq, Eq, Structural)]
pub enum ErrorKind {
    /// An application-defined error.
    Other,
    /// A frame was larger than the maximum frame size.
    MaxFrameSizeExceeded,
    /// The header could not be parsed.
    InvalidHeader,
    /// A segment of a multi-frame message was sent out of turn.
    SegmentViolation,
    /// A length prefix was malformed.
    BadVarInt,
    /// The channel does not exist.
    InvalidChannel,
    /// A multi-frame message was started while another was in progress on the channel.
    InProgress,
    /// A response payload was larger than the channel allows.
    ResponseTooLarge,
    /// A request payload was larger than the channel allows.
    RequestTooLarge,
    /// A request reused the id of a request in flight.
    DuplicateRequest,
    /// A response arrived for a request that was never sent.
    FictitiousRequest,
    /// The peer has too many requests in flight.
    RequestLimitExceeded,
    /// A cancellation arrived for a request that was never sent.
    FictitiousCancel,
    /// The peer sent more cancellations than it has requests to cancel.
    CancellationLimitExceeded,
}

/// What a header announces: a regular frame or an error.
#[derive(Copy, Clone, Debug, PartialEq, Eq, Structural)]
pub enum HeaderKind {
    /// A frame of the given kind.
    Regular(Kind),
    /// An error with the given reason.
    Error(ErrorKind),
}

/// The bit of the kind byte that marks an error header.
pub const ERROR_FLAG: u8 = 128;

impl Kind {
    /// The kind with the given number on the wire, if there is one.
    pub open spec fn spec_from_code(code: u8) -> Option<Kind> {
        if code == 0 {
            Some(Kind::Request)
        } else if code == 1 {
            Some(Kind::Response)
        } else if code == 2 {
            Some(Kind::RequestPl)
        } else if code == 3 {
            Some(Kind::ResponsePl)
        } else if code == 4 {
            Some(Kind::CancelReq)
        } else if code == 5 {
            Some(Kind::CancelResp)
        } else {
            None
        }
    }

    /// The number of the kind on the wire.
    pub open spec fn spec_code(self) -> u8 {
        match self {
            Kind::Request => 0,
            Kind::Response => 1,
            Kind::RequestPl => 2,
            Kind::ResponsePl => 3,
            Kind::CancelReq => 4,
            Kind::CancelResp => 5,
        }
    }

    /// Decodes the number of a kind; unknown numbers are rejected.
    pub fn from_code(code: u8) -> (kind: Option<Kind>)
        ensures
            kind == Kind::spec_from_code(code),
    {
        match code {
            0 => Some(Kind::Request),
            1 => Some(Kind::Response),
            2 => Some(Kind::RequestPl),
            3 => Some(Kind::ResponsePl),
            4 => Some(Kind::CancelReq),
            5 => Some(Kind::CancelResp),
            _ => None,
        }
    }

    /// Encodes the kind as its number.
    pub fn code(self) -> (code: u8)
        ensures
            code == self.spec_code(),
            code < ERROR_FLAG,
    {
        match self {
            Kind::Request => 0,
            Kind::Response => 1,
            Kind::RequestPl => 2,
            Kind::ResponsePl => 3,
            Kind::CancelReq => 4,
            Kind::CancelResp => 5,
        }
    }
}

impl ErrorKind {
    /// The error with the given number on the wire, if there is one.
    pub open spec fn spec_from_code(code: u8) -> Option<ErrorKind> {
        if code == 0 {
            Some(ErrorKind::Other)
        } else if code == 1 {
            Some(ErrorKind::MaxFrameSizeExceeded)
        } else if code == 2 {
            Some(ErrorKind::InvalidHeader)
        } else if code == 3 {
            Some(ErrorKind::SegmentViolation)
        } else if code == 4 {
            Some(ErrorKind::BadVarInt)
        } else if code == 5 {
            Some(ErrorKind::InvalidChannel)
        } else if code == 6 {
            Some(ErrorKind::InProgress)
        } else if code == 7 {
            Some(ErrorKind::ResponseTooLarge)
        } else if code == 8 {
            Some(ErrorKind::RequestTooLarge)
        } else if code == 9 {
            Some(ErrorKind::DuplicateRequest)
        } else if code == 10 {
            Some(ErrorKind::FictitiousRequest)
        } else if code == 11 {
            Some(ErrorKind::RequestLimitExceeded)
        } else if code == 12 {
            Some(ErrorKind::FictitiousCancel)
        } else if code == 13 {
            Some(ErrorKind::CancellationLimitExceeded)
        } else {
            None
        }
    }

    /// The number of the error on the wire.
    pub open spec fn spec_code(self) -> u8 {
        match self {
            ErrorKind::Other => 0,
            ErrorKind::MaxFrameSizeExceeded => 1,
            ErrorKind::InvalidHeader => 2,
            ErrorKind::SegmentViolation => 3,
            ErrorKind::BadVarInt => 4,
            ErrorKind::InvalidChannel => 5,
            ErrorKind::InProgress => 6,
            ErrorKind::ResponseTooLarge => 7,
            ErrorKind::RequestTooLarge => 8,
            ErrorKind::DuplicateRequest => 9,
            ErrorKind::FictitiousRequest => 10,
            ErrorKind::RequestLimitExceeded => 11,
            ErrorKind::FictitiousCancel => 12,
            ErrorKind::CancellationLimitExceeded => 13,
        }
    }

    /// Decodes the number of an error; unknown numbers are rejected.
    pub fn from_code(code: u8) -> (kind: Option<ErrorKind>)
        ensures
            kind == ErrorKind::spec_from_code(code),
    {
        match code {
            0 => Some(ErrorKind::Other),
            1 => Some(ErrorKind::MaxFrameSizeExceeded),
            2 => Some(ErrorKind::InvalidHeader),
            3 => Some(ErrorKind::SegmentViolation),
            4 => Some(ErrorKind::BadVarInt),
            5 => Some(ErrorKind::InvalidChannel),
            6 => Some(ErrorKind::InProgress),
            7 => Some(ErrorKind::ResponseTooLarge),
            8 => Some(ErrorKind::RequestTooLarge),
            9 => Some(ErrorKind::DuplicateRequest),
            10 => Some(ErrorKind::FictitiousRequest),
            11 => Some(ErrorKind::RequestLimitExceeded),
            12 => Some(ErrorKind::FictitiousCancel),
            13 => Some(ErrorKind::CancellationLimitExceeded),
            _ => None,
        }
    }

    /// Encodes the error as its number.
    pub fn code(self) -> (code: u8)
        ensures
            code == self.spec_code(),
            code < ERROR_FLAG,
    {
        match self {
            ErrorKind::Other => 0,
            ErrorKind::MaxFrameSizeExceeded => 1,
            ErrorKind::InvalidHeader => 2,
            ErrorKind::SegmentViolation => 3,
            ErrorKind::BadVarInt => 4,
            ErrorKind::InvalidChannel => 5,
            ErrorKind::InProgress => 6,
            ErrorKind::ResponseTooLarge => 7,
            ErrorKind::RequestTooLarge => 8,
            ErrorKind::DuplicateRequest => 9,
            ErrorKind::FictitiousRequest => 10,
            ErrorKind::RequestLimitExceeded => 11,
            ErrorKind::FictitiousCancel => 12,
            ErrorKind::CancellationLimitExceeded => 13,
        }
    }
}

/// The header of a frame.
#[derive(Copy, Clone, Debug, PartialEq, Eq, Structural)]
pub struct Header {
    /// What the frame is.
    pub kind: HeaderKind,
    /// The channel the frame belongs to.
    pub channel: ChannelId,
    /// The id of the message the frame belongs to.
    pub id: Id,
}

impl Header {
    /// The number of bytes a header takes on the wire.
    pub const SIZE: usize = 4;

    /// The header that the four bytes `raw` encode, if they encode one.
    pub open spec fn spec_parse(raw: Seq<u8>) -> Option<Header>
        recommends
            raw.len() == 4,
    {
        let channel = ChannelId(raw[1]);
        let id = Id((raw[2] as int + 256 * (raw[3] as int)) as u16);
        if raw[0] >= ERROR_FLAG {
            match ErrorKind::spec_from_code((raw[0] - ERROR_FLAG) as u8) {
                Some(error_kind) => Some(Header { kind: HeaderKind::Error(error_kind), channel, id }),
                None => None,
            }
        } else {
            match Kind::spec_from_code(raw[0]) {
                Some(kind) => Some(Header { kind: HeaderKind::Regular(kind), channel, id }),
                None => None,
            }
        }
    }

    /// The four bytes that encode the header.
    pub open spec fn spec_bytes(self) -> Seq<u8> {
        let kind_byte: u8 = match self.kind {
            HeaderKind::Regular(kind) => kind.spec_code(),
            HeaderKind::Error(error_kind) => (ERROR_FLAG + error_kind.spec_code()) as u8,
        };
        seq![kind_byte, self.channel.0, (self.id.0 % 256) as u8, (self.id.0 / 256) as u8]
    }

    /// Creates the header of a regular frame.
    pub fn new(kind: Kind, channel: ChannelId, id: Id) -> (header: Header)
        ensures
            header == (Header { kind: HeaderKind::Regular(kind), channel, id }),
    {
        Header { kind: HeaderKind::Regular(kind), channel, id }
    }

    /// Creates an error header.
    pub fn new_error(error_kind: ErrorKind, channel: ChannelId, id: Id) -> (header: Header)
        ensures
            header == (Header { kind: HeaderKind::Error(error_kind), channel, id }),
    {
        Header { kind: HeaderKind::Error(error_kind), channel, id }
    }

    /// Parses a header; the kind byte must hold a known kind or a known error.
    pub fn parse(raw: [u8; 4]) -> (header: Option<Header>)
        ensures
            header == Header::spec_parse(raw@),
    {
        let channel = ChannelId(raw[1]);
        let id = Id(raw[2] as u16 + 256 * (raw[3] as u16));
        if raw[0] >= ERROR_FLAG {
            match ErrorKind::from_code(raw[0] - ERROR_FLAG) {
                Some(error_kind) => Some(Header { kind: HeaderKind::Error(error_kind), channel, id }),
                None => None,
            }
        } else {
            match Kind::from_code(raw[0]) {
                Some(kind) => Some(Header { kind: HeaderKind::Regular(kind), channel, id }),
                None => None,
            }
        }
    }

    /// Encodes the header.
    pub fn to_bytes(self) -> (raw: [u8; 4])
        ensures
            raw@ == self.spec_bytes(),
    {
        let kind_byte: u8 = match self.kind {
            HeaderKind::Regular(kind) => kind.code(),
            HeaderKind::Error(error_kind) => ERROR_FLAG + error_kind.code(),
        };
        let raw = [kind_byte, self.channel.0, (self.id.0 % 256) as u8, (self.id.0 / 256) as u8];
        assert(raw@ =~= self.spec_bytes());
        raw
    }

    /// Whether this is an error header.
    pub open spec fn spec_is_error(self) -> bool {
        self.kind is Error
    }

    /// Whether this is an error header.
    #[verifier::when_used_as_spec(spec_is_error)]
    pub fn is_error(self) -> (res: bool)
        ensures
            res == self.spec_is_error(),
    {
        match self.kind {
            HeaderKind::Error(_) => true,
            HeaderKind::Regular(_) => false,
        }
    }

    /// The reason of an error header.
    pub fn error_kind(self) -> (error_kind: ErrorKind)
        requires
            self.is_error(),
        ensures
            self.kind == HeaderKind::Error(error_kind),
    {
        match self.kind {
            HeaderKind::Error(error_kind) => error_kind,
            HeaderKind::Regular(_) => ErrorKind::Other,
        }
    }

    /// The kind of a regular header.
    pub fn kind(self) -> (kind: Kind)
        requires
            !self.is_error(),
        ensures
            self.kind == HeaderKind::Regular(kind),
    {
        match self.kind {
            HeaderKind::Regular(kind) => kind,
            HeaderKind::Error(_) => Kind::Request,
        }
    }

    /// The channel of the frame.
    pub fn channel(self) -> (channel: ChannelId)
        ensures
            channel == self.channel,
    {
        self.channel
    }

    /// The id of the message.
    pub fn id(self) -> (id: Id)
        ensures
            id == self.id,
    {
        self.id
    }

    /// The error header that answers this header with the given reason.
    pub open spec fn spec_with_err(self, error_kind: ErrorKind) -> Header {
        Header { kind: HeaderKind::Error(error_kind), channel: self.channel, id: self.id }
    }

    /// The error header that answers this header with the given reason: same channel,
    /// same id.
    #[verifier::when_used_as_spec(spec_with_err)]
    pub fn with_err(self, error_kind: ErrorKind) -> (header: Header)
        ensures
            header == self.spec_with_err(error_kind),
    {
        Header { kind: HeaderKind::Error(error_kind), channel: self.channel, id: self.id }
    }
}

/// Parsing what was encoded gives the header back.
pub proof fn lemma_parse_bytes_roundtrip(header: Header)
    ensures
        header.spec_bytes().len() == 4,
        Header::spec_parse(header.spec_bytes()) == Some(header),
{
    let raw = header.spec_bytes();
    let id = header.id.0;
    assert(raw[2] as int + 256 * (raw[3] as int) == id) by {
        assert((id % 256) as int + 256 * ((id / 256) as int) == id);
    }
}

/// Encoding what was parsed gives the bytes back: no header has two encodings.
pub proof fn lemma_bytes_parse_roundtrip(raw: Seq<u8>)
    requires
        raw.len() == 4,
        Header::spec_parse(raw) is Some,
    ensures
        Header::spec_parse(raw).unwrap().spec_bytes() == raw,
{
    let header = Header::spec_parse(raw).unwrap();
    let id = (raw[2] as int + 256 * (raw[3] as int));
    assert(0 <= id < 65536);
    assert(header.id.0 == id);
    assert(id % 256 == raw[2]);
    assert(id / 256 == raw[3]);
    assert(header.spec_bytes() =~= raw);
}

} // verus!
