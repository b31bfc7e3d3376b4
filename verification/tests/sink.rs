use bft_core::sink::{length_prefix, length_prefixed, GenericBufSender, LengthPrefixer, WriteStep};
use bft_core::test_stream::{Polled, TestStream};

#[test]
fn length_prefixer_single_frame_works() {
    let mut output: Vec<u8> = Vec::new();

    let mut lp: LengthPrefixer<&mut Vec<u8>, &[u8]> = LengthPrefixer::new(&mut output);
    let frame = &b"abcdefg"[..];

    let (writer, prefix) = lp.send_frame(frame.len() as u64).expect("the sink has its writer");
    writer.extend_from_slice(&prefix);
    writer.extend_from_slice(frame);
    assert!(lp.send_frame(1).is_none());

    assert_eq!(
        output.as_slice(),
        b"\x07\x00\x00\x00\x00\x00\x00\x00abcdefg"
    );
    assert_eq!(
        length_prefixed(&b"abcdefg".to_vec()).as_slice(),
        b"\x07\x00\x00\x00\x00\x00\x00\x00abcdefg"
    );
}

#[test]
fn length_prefix_is_little_endian() {
    assert_eq!(length_prefix(0), [0; 8]);
    assert_eq!(length_prefix(0x0102_0304_0506_0708), [8, 7, 6, 5, 4, 3, 2, 1]);
    assert_eq!(length_prefix(u64::MAX), [255; 8]);
    assert_eq!(length_prefix(256), 256u64.to_le_bytes());
}

#[test]
fn sender_is_done_when_nothing_remains() {
    assert_eq!(GenericBufSender::<(), ()>::poll(15, 15), WriteStep::Done);
    assert_eq!(GenericBufSender::<(), ()>::poll(15, 4), WriteStep::Continue(11));
    assert_eq!(GenericBufSender::<(), ()>::poll(0, 0), WriteStep::Done);
    let sender = GenericBufSender::new(vec![1u8, 2], "out");
    assert_eq!(sender.into_parts(), (vec![1u8, 2], "out"));
}

fn next(stream: &mut TestStream<i32>) -> Option<i32> {
    match stream.poll_next() {
        Polled::Item(item) => Some(item),
        Polled::End => None,
        Polled::Pending => panic!("the stream is not paused"),
    }
}

#[test]
fn smoke_test() {
    let mut stream = TestStream::new(vec![1, 2, 3]);

    assert_eq!(next(&mut stream), Some(1));
    assert_eq!(next(&mut stream), Some(2));
    assert_eq!(next(&mut stream), Some(3));
    assert_eq!(next(&mut stream), None);
}

#[test]
fn paused_stream_gives_nothing() {
    let mut stream = TestStream::new(vec![1]);
    assert!(!stream.set_paused(true));
    assert!(matches!(stream.poll_next(), Polled::Pending));
    assert!(!stream.set_paused(true));
    assert!(stream.set_paused(false));
    assert!(!stream.set_paused(false));
    assert_eq!(next(&mut stream), Some(1));
    assert_eq!(next(&mut stream), None);
}
