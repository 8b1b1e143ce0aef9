use tterm::messages::TerminalData;
use tterm::wire::{decode_frame, encode_frame, frame_length, FrameError, ProtocolMessage};

fn payload_of(m: &ProtocolMessage) -> (u8, Vec<u8>) {
    match m {
        ProtocolMessage::Json(p) => (0, p.clone()),
        ProtocolMessage::Bytes(p) => (1, p.clone()),
    }
}

#[test]
fn bytes_frame_layout() {
    let frame = ProtocolMessage::Bytes(b"hi".to_vec()).to_bytes();
    assert_eq!(frame, vec![0, 0, 0, 3, 1, b'h', b'i']);
}

#[test]
fn control_frame_layout() {
    let frame = ProtocolMessage::Json(b"{}".to_vec()).to_bytes();
    assert_eq!(frame, vec![0, 0, 0, 3, 0, b'{', b'}']);
}

#[test]
fn length_prefix_is_big_endian() {
    let payload = vec![7u8; 300];
    let frame = encode_frame(1, &payload);
    assert_eq!(&frame[..5], &[0, 0, 1, 45, 1]);
    assert_eq!(frame.len(), 305);
}

#[test]
fn frame_round_trip() {
    for msg in [
        ProtocolMessage::Bytes(b"echo hello\n".to_vec()),
        ProtocolMessage::Json(b"{\"Client\":\"ListSessions\"}".to_vec()),
        ProtocolMessage::Bytes(Vec::new()),
    ] {
        let frame = msg.to_bytes();
        let back = decode_frame(&frame).unwrap();
        assert_eq!(payload_of(&back), payload_of(&msg));
        assert_eq!(back.to_bytes(), frame);
    }
}

#[test]
fn frame_length_at_limit_is_accepted() {
    assert_eq!(frame_length([0x00, 0x10, 0x00, 0x00]), Ok(1048576));
}

#[test]
fn frame_length_over_limit_is_rejected() {
    assert_eq!(
        frame_length([0x00, 0x10, 0x00, 0x01]),
        Err(FrameError::TooLarge(1048577))
    );
}

#[test]
fn oversize_prefix_rejected_before_payload() {
    // 2 MiB + 1 announced, no payload bytes present at all
    assert_eq!(
        frame_length([0x00, 0x20, 0x00, 0x01]),
        Err(FrameError::TooLarge(0x00200001))
    );
    assert_eq!(
        decode_frame(&[0x00, 0x20, 0x00, 0x01]).err(),
        Some(FrameError::TooLarge(0x00200001))
    );
}

#[test]
fn unknown_type_tag_is_a_protocol_error() {
    assert_eq!(
        decode_frame(&[0, 0, 0, 2, 0xFE, 9]).err(),
        Some(FrameError::UnknownType(0xFE))
    );
    assert_eq!(
        ProtocolMessage::from_bytes(&[0xFE]).err(),
        Some(FrameError::UnknownType(0xFE))
    );
}

#[test]
fn empty_and_short_frames() {
    assert_eq!(ProtocolMessage::from_bytes(&[]).err(), Some(FrameError::Empty));
    assert_eq!(decode_frame(&[0, 0, 0, 0]).err(), Some(FrameError::Empty));
    assert_eq!(decode_frame(&[0, 0]).err(), Some(FrameError::Truncated));
    assert_eq!(decode_frame(&[0, 0, 0, 3, 1, 1]).err(), Some(FrameError::Truncated));
    assert_eq!(
        decode_frame(&[0, 0, 0, 1, 1, 1]).err(),
        Some(FrameError::TrailingBytes)
    );
}

#[test]
fn terminal_data_round_trip() {
    let data = TerminalData::new(b"ls -la\n".to_vec());
    let frame = data.to_protocol_bytes();
    assert_eq!(&frame[..5], &[0, 0, 0, 8, 1]);
    let back = TerminalData::from_protocol_bytes(&frame[4..]).unwrap();
    assert_eq!(back.data, b"ls -la\n".to_vec());
}

#[test]
fn terminal_data_rejects_other_frames() {
    assert_eq!(TerminalData::from_protocol_bytes(&[]).err().unwrap(), FrameError::Empty);
    assert_eq!(
        TerminalData::from_protocol_bytes(&[0, b'x']).err().unwrap(),
        FrameError::UnknownType(0)
    );
}
