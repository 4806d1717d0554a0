use lunaris_portal::codec::{
    connection_action, decode_frame, encode_frame, CodecError, ConnAction, FrameBuffer, FrameStep,
    MAX_FRAME_BYTES,
};

const PICKED: &[u8] =
    br#"{"type":"picked","handle":"h1","paths":["/home/user/file.txt"],"currentFilter":null}"#;

#[test]
fn round_trip_with_trailing_bytes() {
    let mut wire = encode_frame(PICKED).unwrap();
    wire.push(0xFF);
    let (consumed, decoded) = decode_frame(&wire).unwrap();
    assert_eq!(consumed, wire.len() - 1);
    assert_eq!(decoded, PICKED.to_vec());
}

#[test]
fn incomplete_too_short_for_length() {
    let buf = [0u8, 1, 2];
    let result = decode_frame(&buf);
    assert!(matches!(result, Err(CodecError::Incomplete { .. })));
}

#[test]
fn incomplete_body_partial() {
    let mut buf = vec![0u8, 0, 0, 100];
    buf.extend_from_slice(b"{");
    let result = decode_frame(&buf);
    match result {
        Err(CodecError::Incomplete { need, have }) => {
            assert_eq!(need, 4 + 100);
            assert_eq!(have, 5);
        }
        other => panic!("expected Incomplete, got {other:?}"),
    }
}

#[test]
fn frame_too_large_decode() {
    let buf = vec![0x80, 0, 0, 0];
    let result = decode_frame(&buf);
    assert!(matches!(result, Err(CodecError::FrameTooLarge { .. })));
}

#[test]
fn empty_frame_decode() {
    let buf = vec![0u8, 0, 0, 0];
    let result = decode_frame(&buf);
    assert!(matches!(result, Err(CodecError::EmptyFrame)));
}

#[test]
fn encode_writes_big_endian_length() {
    let body = vec![7u8; 0x0102];
    let wire = encode_frame(&body).unwrap();
    assert_eq!(&wire[..4], &[0, 0, 1, 2]);
    assert_eq!(wire.len(), 4 + 0x0102);
}

#[test]
fn encode_rejects_empty_and_oversized() {
    assert!(matches!(encode_frame(b""), Err(CodecError::EmptyFrame)));
    let big = vec![b'x'; MAX_FRAME_BYTES + 1];
    assert!(matches!(encode_frame(&big), Err(CodecError::FrameTooLarge { got }) if got == MAX_FRAME_BYTES + 1));
    let max = vec![b'x'; MAX_FRAME_BYTES];
    assert_eq!(encode_frame(&max).unwrap().len(), MAX_FRAME_BYTES + 4);
}

#[test]
fn decode_accepts_frame_at_cap() {
    let mut buf = vec![0u8, 0x10, 0, 0];
    buf.extend(vec![b'a'; MAX_FRAME_BYTES]);
    let (n, body) = decode_frame(&buf).unwrap();
    assert_eq!(n, MAX_FRAME_BYTES + 4);
    assert_eq!(body.len(), MAX_FRAME_BYTES);
    let over = vec![0u8, 0x10, 0, 1];
    assert!(matches!(decode_frame(&over), Err(CodecError::FrameTooLarge { got }) if got == MAX_FRAME_BYTES + 1));
}

#[test]
fn frame_buffer_yields_frames_in_order() {
    let mut fb = FrameBuffer::new();
    let mut wire = encode_frame(b"one").unwrap();
    wire.extend(encode_frame(b"two").unwrap());
    let (first, rest) = wire.split_at(5);
    fb.extend(first);
    assert!(matches!(fb.next_frame(), FrameStep::NeedMore));
    fb.extend(rest);
    match fb.next_frame() {
        FrameStep::Frame(b) => assert_eq!(b, b"one".to_vec()),
        other => panic!("unexpected {other:?}"),
    }
    match fb.next_frame() {
        FrameStep::Frame(b) => assert_eq!(b, b"two".to_vec()),
        other => panic!("unexpected {other:?}"),
    }
    assert!(fb.is_empty());
    assert!(matches!(fb.next_frame(), FrameStep::NeedMore));
}

#[test]
fn frame_buffer_clears_on_malformed() {
    let mut fb = FrameBuffer::new();
    fb.extend(&[0, 0, 0, 0, 1, 2, 3]);
    assert!(matches!(fb.next_frame(), FrameStep::Malformed(CodecError::EmptyFrame)));
    assert!(fb.is_empty());
}

#[test]
fn connection_action_delivers_parsed_frames() {
    let step = FrameStep::Frame(b"{}".to_vec());
    assert_eq!(connection_action(&step, true), ConnAction::Deliver);
}

#[test]
fn connection_action_drops_connection_on_unparsable_body() {
    let step = FrameStep::Frame(b"not json".to_vec());
    assert_eq!(connection_action(&step, false), ConnAction::Disconnect);
}

#[test]
fn connection_action_reads_more_on_partial_frame() {
    assert_eq!(connection_action(&FrameStep::NeedMore, true), ConnAction::ReadMore);
    assert_eq!(connection_action(&FrameStep::NeedMore, false), ConnAction::ReadMore);
}

#[test]
fn connection_action_drops_connection_on_malformed_frame() {
    let mut frames = FrameBuffer::new();
    frames.extend(&[0, 0, 0, 0]);
    let step = frames.next_frame();
    assert!(matches!(step, FrameStep::Malformed(CodecError::EmptyFrame)));
    assert_eq!(connection_action(&step, true), ConnAction::Disconnect);
}
