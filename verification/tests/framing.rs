use bft_core::framing::channel::{ChannelConfiguration, CompletedRead};
use bft_core::framing::header::{ChannelId, ErrorKind, Header, HeaderKind, Id, Kind};
use bft_core::framing::outcome::Outcome;
use bft_core::framing::reader::{LocalProtocolViolation, MessageReader};
use bytes::{Bytes, BytesMut};

const MAX_FRAME_SIZE: u32 = 16;

fn reader(request_limit: u32) -> MessageReader<4> {
    let config = ChannelConfiguration::new()
        .with_request_limit(request_limit)
        .with_max_request_payload_size(64)
        .with_max_response_payload_size(64);
    MessageReader::new(config, MAX_FRAME_SIZE).expect("the frame size is large enough")
}

fn header_bytes(kind: Kind, channel: u8, id: u16) -> [u8; 4] {
    Header::new(kind, ChannelId::new(channel), Id::new(id)).to_bytes()
}

fn frame(kind: Kind, channel: u8, id: u16) -> BytesMut {
    BytesMut::from(&header_bytes(kind, channel, id)[..])
}

/// The frames of a payload: the first with the length, every frame full but the last.
fn payload_frames(kind: Kind, channel: u8, id: u16, payload: &[u8]) -> Vec<u8> {
    let header = header_bytes(kind, channel, id);
    let mut bytes = Vec::new();
    bytes.extend_from_slice(&header);
    bytes.extend_from_slice(&(payload.len() as u32).to_le_bytes());
    let first = payload.len().min(MAX_FRAME_SIZE as usize - 8);
    bytes.extend_from_slice(&payload[..first]);
    let mut sent = first;
    while sent < payload.len() {
        let segment = (payload.len() - sent).min(MAX_FRAME_SIZE as usize - 4);
        bytes.extend_from_slice(&header);
        bytes.extend_from_slice(&payload[sent..sent + segment]);
        sent += segment;
    }
    bytes
}

fn expect_fatal(outcome: Outcome<CompletedRead, Header>, error: ErrorKind, channel: u8, id: u16) {
    match outcome {
        Outcome::Fatal(header) => {
            assert_eq!(header.kind, HeaderKind::Error(error));
            assert_eq!(header.channel, ChannelId::new(channel));
            assert_eq!(header.id, Id::new(id));
        }
        _ => panic!("expected a fatal error"),
    }
}

fn expect_request(outcome: Outcome<CompletedRead, Header>, id: u16, payload: Option<&[u8]>) {
    match outcome {
        Outcome::Success(CompletedRead::NewRequest { id: got, payload: bytes }) => {
            assert_eq!(got, Id::new(id));
            assert_eq!(bytes.as_deref(), payload);
        }
        _ => panic!("expected a new request"),
    }
}

#[test]
fn request_limit_edge() {
    let mut reader = reader(3);
    for id in [1u16, 2, 3] {
        let mut buffer = frame(Kind::Request, 0, id);
        expect_request(reader.process_incoming(&mut buffer), id, None);
        assert!(buffer.is_empty());
    }
    let mut buffer = frame(Kind::Request, 0, 4);
    expect_fatal(
        reader.process_incoming(&mut buffer),
        ErrorKind::RequestLimitExceeded,
        0,
        4,
    );
    assert_eq!(buffer.len(), 4);
}

#[test]
fn duplicate_request() {
    let mut reader = reader(3);
    let mut buffer = frame(Kind::Request, 1, 7);
    expect_request(reader.process_incoming(&mut buffer), 7, None);
    let mut buffer = frame(Kind::Request, 1, 7);
    expect_fatal(
        reader.process_incoming(&mut buffer),
        ErrorKind::DuplicateRequest,
        1,
        7,
    );
}

#[test]
fn cancellation_allowance() {
    let mut reader = reader(2);
    for id in [1u16, 2] {
        let mut buffer = frame(Kind::Request, 0, id);
        expect_request(reader.process_incoming(&mut buffer), id, None);
    }
    for id in [1u16, 1] {
        let mut buffer = frame(Kind::CancelReq, 0, id);
        match reader.process_incoming(&mut buffer) {
            Outcome::Success(CompletedRead::RequestCancellation { id: got }) => {
                assert_eq!(got, Id::new(id))
            }
            _ => panic!("expected a request cancellation"),
        }
        assert!(buffer.is_empty());
    }
    let mut buffer = frame(Kind::CancelReq, 0, 2);
    expect_fatal(
        reader.process_incoming(&mut buffer),
        ErrorKind::CancellationLimitExceeded,
        0,
        2,
    );
}

#[test]
fn cancellation_without_request_is_refused() {
    let mut reader = reader(2);
    let mut buffer = frame(Kind::CancelReq, 0, 1);
    expect_fatal(
        reader.process_incoming(&mut buffer),
        ErrorKind::CancellationLimitExceeded,
        0,
        1,
    );
}

#[test]
fn incomplete_header_asks_for_the_missing_bytes() {
    let mut reader = reader(1);
    let mut buffer = BytesMut::from(&[0u8][..]);
    match reader.process_incoming(&mut buffer) {
        Outcome::Incomplete(missing) => assert_eq!(missing, 3),
        _ => panic!("expected an incomplete read"),
    }
    assert_eq!(&buffer[..], &[0u8]);
    let mut empty = BytesMut::new();
    match reader.process_incoming(&mut empty) {
        Outcome::Incomplete(missing) => assert_eq!(missing, 4),
        _ => panic!("expected an incomplete read"),
    }
}

#[test]
fn unknown_kind_is_an_invalid_header() {
    let mut reader = reader(1);
    let mut buffer = BytesMut::from(&[6u8, 3, 9, 0][..]);
    expect_fatal(reader.process_incoming(&mut buffer), ErrorKind::InvalidHeader, 0, 0);
    let mut buffer = BytesMut::from(&[128u8 + 14, 0, 0, 0][..]);
    expect_fatal(reader.process_incoming(&mut buffer), ErrorKind::InvalidHeader, 0, 0);
}

#[test]
fn channel_out_of_range_is_refused() {
    let mut reader = reader(1);
    let mut buffer = frame(Kind::Request, 4, 1);
    expect_fatal(reader.process_incoming(&mut buffer), ErrorKind::InvalidChannel, 4, 1);
}

#[test]
fn error_header_is_reported() {
    let mut reader = reader(1);
    let error = Header::new_error(ErrorKind::DuplicateRequest, ChannelId::new(9), Id::new(513));
    assert_eq!(error.to_bytes(), [128 + 9, 9, 1, 2]);
    let mut buffer = BytesMut::from(&error.to_bytes()[..]);
    match reader.process_incoming(&mut buffer) {
        Outcome::Success(CompletedRead::ErrorReceived(header)) => assert_eq!(header, error),
        _ => panic!("expected an error header"),
    }
    assert!(buffer.is_empty());
}

#[test]
fn header_round_trip() {
    let header = Header::new(Kind::ResponsePl, ChannelId::new(200), Id::new(0xbeef));
    let raw = header.to_bytes();
    assert_eq!(raw, [3, 200, 0xef, 0xbe]);
    assert_eq!(Header::parse(raw), Some(header));
    assert_eq!(Header::parse([5, 0, 0, 0]).map(|h| h.kind), Some(HeaderKind::Regular(Kind::CancelResp)));
    assert_eq!(Header::parse([6, 0, 0, 0]), None);
    assert_eq!(Header::parse([127, 0, 0, 0]), None);
    assert_eq!(
        Header::parse([128 + 13, 0, 0, 0]).map(|h| h.kind),
        Some(HeaderKind::Error(ErrorKind::CancellationLimitExceeded))
    );
    assert_eq!(header.with_err(ErrorKind::InProgress).to_bytes(), [128 + 6, 200, 0xef, 0xbe]);
}

#[test]
fn request_with_payload_in_one_frame() {
    let mut reader = reader(2);
    let payload = b"abcdefgh";
    let mut buffer = BytesMut::from(&payload_frames(Kind::RequestPl, 2, 5, payload)[..]);
    assert_eq!(buffer.len(), 16);
    expect_request(reader.process_incoming(&mut buffer), 5, Some(payload));
    assert!(buffer.is_empty());
}

#[test]
fn request_with_payload_in_several_frames() {
    let mut reader = reader(2);
    let payload: Vec<u8> = (0u8..30).collect();
    let bytes = payload_frames(Kind::RequestPl, 2, 5, &payload);
    // 8 bytes in the first frame, 12 in the second, 10 in the third.
    assert_eq!(bytes.len(), 16 + 16 + 14);
    let mut buffer = BytesMut::from(&bytes[..]);
    expect_request(reader.process_incoming(&mut buffer), 5, Some(&payload));
    assert!(buffer.is_empty());
    // The request is in flight now.
    let mut again = frame(Kind::Request, 2, 5);
    expect_fatal(reader.process_incoming(&mut again), ErrorKind::DuplicateRequest, 2, 5);
}

#[test]
fn empty_payload_is_a_payload() {
    let mut reader = reader(2);
    let mut buffer = BytesMut::from(&payload_frames(Kind::RequestPl, 0, 1, b"")[..]);
    expect_request(reader.process_incoming(&mut buffer), 1, Some(b""));
}

#[test]
fn bytes_may_arrive_in_pieces() {
    let payload: Vec<u8> = (0u8..40).collect();
    let mut bytes = payload_frames(Kind::RequestPl, 1, 9, &payload);
    bytes.extend_from_slice(&header_bytes(Kind::Request, 1, 10));
    bytes.extend_from_slice(&header_bytes(Kind::CancelReq, 1, 9));

    let mut whole_reader = reader(4);
    let mut whole = BytesMut::from(&bytes[..]);
    let mut expected = Vec::new();
    loop {
        match whole_reader.process_incoming(&mut whole) {
            Outcome::Success(read) => expected.push(format!("{:?}", read)),
            Outcome::Incomplete(missing) => {
                assert_eq!(missing, 4);
                break;
            }
            Outcome::Fatal(_) => panic!("the stream is valid"),
        }
    }
    assert_eq!(expected.len(), 3);

    for piece in 1..bytes.len() {
        let mut piece_reader = reader(4);
        let mut buffer = BytesMut::new();
        let mut reads = Vec::new();
        for chunk in bytes.chunks(piece) {
            buffer.extend_from_slice(chunk);
            loop {
                match piece_reader.process_incoming(&mut buffer) {
                    Outcome::Success(read) => reads.push(format!("{:?}", read)),
                    Outcome::Incomplete(missing) => {
                        assert!(missing > 0);
                        break;
                    }
                    Outcome::Fatal(_) => panic!("the stream is valid"),
                }
            }
        }
        assert_eq!(reads, expected);
        assert!(buffer.is_empty());
    }
}

#[test]
fn incomplete_frame_tells_how_much_is_missing() {
    let mut reader = reader(2);
    let bytes = payload_frames(Kind::RequestPl, 0, 1, b"0123456789");
    let mut buffer = BytesMut::from(&bytes[..6]);
    match reader.process_incoming(&mut buffer) {
        Outcome::Incomplete(missing) => assert_eq!(missing, 2),
        _ => panic!("expected an incomplete read"),
    }
    buffer.extend_from_slice(&bytes[6..10]);
    match reader.process_incoming(&mut buffer) {
        Outcome::Incomplete(missing) => assert_eq!(missing, 6),
        _ => panic!("expected an incomplete read"),
    }
    assert_eq!(buffer.len(), 10);
}

#[test]
fn request_too_large() {
    let mut reader = reader(2);
    let payload = vec![7u8; 65];
    let mut buffer = BytesMut::from(&payload_frames(Kind::RequestPl, 0, 1, &payload)[..]);
    expect_fatal(reader.process_incoming(&mut buffer), ErrorKind::RequestTooLarge, 0, 1);
}

#[test]
fn second_transfer_while_one_is_in_progress() {
    let mut reader = reader(4);
    let payload: Vec<u8> = (0u8..30).collect();
    let bytes = payload_frames(Kind::RequestPl, 0, 1, &payload);
    let mut buffer = BytesMut::from(&bytes[..16]);
    match reader.process_incoming(&mut buffer) {
        Outcome::Incomplete(missing) => assert_eq!(missing, 4),
        _ => panic!("expected an incomplete read"),
    }
    let mut other = BytesMut::from(&payload_frames(Kind::RequestPl, 0, 2, b"xy")[..]);
    expect_fatal(reader.process_incoming(&mut other), ErrorKind::InProgress, 0, 2);
}

#[test]
fn response_without_request_is_fictitious() {
    let mut reader = reader(2);
    let mut buffer = frame(Kind::Response, 0, 1);
    expect_fatal(reader.process_incoming(&mut buffer), ErrorKind::FictitiousRequest, 0, 1);
    let mut buffer = BytesMut::from(&payload_frames(Kind::ResponsePl, 0, 1, b"x")[..]);
    expect_fatal(reader.process_incoming(&mut buffer), ErrorKind::FictitiousRequest, 0, 1);
    let mut buffer = frame(Kind::CancelResp, 0, 1);
    expect_fatal(reader.process_incoming(&mut buffer), ErrorKind::FictitiousCancel, 0, 1);
}

#[test]
fn requests_of_ours_are_answered() {
    let mut reader = reader(2);
    assert_eq!(reader.allowed_to_send_request(ChannelId::new(3)), Ok(true));
    let first = reader.create_request(ChannelId::new(3), None).expect("a request may be sent");
    assert_eq!(
        first.header(),
        Header::new(Kind::Request, ChannelId::new(3), Id::new(1))
    );
    assert!(first.payload().is_none());
    let second = reader
        .create_request(ChannelId::new(3), Some(Bytes::from_static(b"ping")))
        .expect("a request may be sent");
    assert_eq!(
        second.header(),
        Header::new(Kind::RequestPl, ChannelId::new(3), Id::new(2))
    );
    assert_eq!(second.payload().as_deref(), Some(&b"ping"[..]));
    assert_eq!(reader.allowed_to_send_request(ChannelId::new(3)), Ok(false));
    assert_eq!(
        reader.create_request(ChannelId::new(3), None).err(),
        Some(LocalProtocolViolation::WouldExceedRequestLimit)
    );

    let mut buffer = BytesMut::from(&payload_frames(Kind::ResponsePl, 3, 2, b"pong")[..]);
    match reader.process_incoming(&mut buffer) {
        Outcome::Success(CompletedRead::ReceivedResponse { id, payload }) => {
            assert_eq!(id, Id::new(2));
            assert_eq!(payload.as_deref(), Some(&b"pong"[..]));
        }
        _ => panic!("expected a response"),
    }
    let mut buffer = frame(Kind::CancelResp, 3, 1);
    match reader.process_incoming(&mut buffer) {
        Outcome::Success(CompletedRead::ResponseCancellation { id }) => assert_eq!(id, Id::new(1)),
        _ => panic!("expected a response cancellation"),
    }
    assert_eq!(reader.allowed_to_send_request(ChannelId::new(3)), Ok(true));
    // The next id follows the latest one.
    let third = reader.create_request(ChannelId::new(3), None).expect("a request may be sent");
    assert_eq!(third.header().id(), Id::new(3));
}

#[test]
fn local_violations() {
    let mut reader = reader(1);
    assert_eq!(
        reader.allowed_to_send_request(ChannelId::new(4)),
        Err(LocalProtocolViolation::InvalidChannel(ChannelId::new(4)))
    );
    assert_eq!(
        reader.create_request(ChannelId::new(200), None).err(),
        Some(LocalProtocolViolation::InvalidChannel(ChannelId::new(200)))
    );
}

#[test]
fn violations_in_words() {
    assert_eq!(
        LocalProtocolViolation::WouldExceedRequestLimit.message(),
        "sending would exceed request limit"
    );
    assert_eq!(
        LocalProtocolViolation::InvalidChannel(ChannelId::new(1)).message(),
        "invalid channel"
    );
}

#[test]
fn small_frame_sizes_are_refused() {
    let config = ChannelConfiguration::new();
    assert!(MessageReader::<2>::new(config, 8).is_none());
    assert!(MessageReader::<2>::new(config, 9).is_some());
}
