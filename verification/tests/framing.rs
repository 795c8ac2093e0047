use broker::error::{ClockError, IoError};
use broker::units::teltonika::codec12::build_command_frame;
use broker::units::teltonika::utils::{frame_ack_bytes, imei_handshake_byte, imei_length, parse_imei};
use broker::units::teltonika::{
    avl_frame_outcome, classify_frame, decode_incoming_frame, decode_incoming_frame_at,
    try_extract_frame, AvlFrameOutcome,
    FrameOutcome, IncomingFrame,
};

#[test]
fn extracts_a_whole_frame_and_keeps_the_rest() {
    let frame = build_command_frame("getinfo");
    let mut acc = frame.clone();
    acc.extend_from_slice(&[0, 0, 0]);
    assert_eq!(try_extract_frame(&mut acc), Some(frame));
    assert_eq!(acc, vec![0, 0, 0]);
}

#[test]
fn skips_garbage_before_the_preamble() {
    let frame = build_command_frame("getio");
    let mut acc = vec![1, 2, 3];
    acc.extend_from_slice(&frame);
    assert_eq!(try_extract_frame(&mut acc), Some(frame));
    assert!(acc.is_empty());
}

#[test]
fn waits_for_incomplete_frames() {
    let frame = build_command_frame("getio");
    let mut acc = frame[..frame.len() - 1].to_vec();
    assert_eq!(try_extract_frame(&mut acc), None);
    assert_eq!(acc, frame[..frame.len() - 1].to_vec());
    let mut short = vec![0, 0, 0, 0, 0, 0, 0];
    assert_eq!(try_extract_frame(&mut short), None);
    assert_eq!(short.len(), 7);
}

#[test]
fn drops_buffers_without_a_preamble() {
    let mut acc = vec![1, 2, 3, 4, 5, 6, 7, 8, 0, 0, 0];
    assert_eq!(try_extract_frame(&mut acc), None);
    assert!(acc.is_empty());
    let mut acc = vec![1, 0, 0, 0, 0, 9, 9];
    acc.push(9);
    assert_eq!(try_extract_frame(&mut acc), None);
    assert_eq!(acc, vec![0, 0, 0, 0, 9, 9, 9]);
}

#[test]
fn classifies_by_codec_id() {
    let mut f = vec![0u8; 9];
    f[8] = 0x8E;
    assert_eq!(classify_frame(&f), Ok(IncomingFrame::Avl));
    f[8] = 0x0C;
    assert_eq!(classify_frame(&f), Ok(IncomingFrame::CommandResponse));
    f[8] = 0x08;
    assert_eq!(classify_frame(&f), Ok(IncomingFrame::Unsupported(0x08)));
    assert_eq!(classify_frame(&f[..8]), Err(IoError::FrameTooShortToClassify));
}

fn empty_avl_frame(n: u8, bad_codec_count: bool) -> Vec<u8> {
    let n2 = if bad_codec_count { n.wrapping_add(1) } else { n };
    vec![0, 0, 0, 0, 0, 0, 0, 3, 0x8E, n, n2, 0, 0, 0, 0]
}

#[test]
fn decides_what_to_do_with_avl_frames() {
    match avl_frame_outcome(&empty_avl_frame(0, false), "1", Ok(0)) {
        AvlFrameOutcome::Publish { frame, ack } => {
            assert_eq!(ack, 0);
            assert_eq!(frame.record_count, 0);
        }
        other => panic!("unexpected {:?}", other),
    }
    assert!(matches!(
        avl_frame_outcome(&empty_avl_frame(0, true), "1", Ok(0)),
        AvlFrameOutcome::Malformed(IoError::RecordCountMismatch)
    ));
}

#[test]
fn decodes_incoming_frames_by_kind() {
    assert!(matches!(
        decode_incoming_frame_at(&empty_avl_frame(0, false), "1", Err(ClockError::BeforeEpoch)),
        Ok(FrameOutcome::Avl(AvlFrameOutcome::Publish { .. }))
    ));
    let command = build_command_frame("getinfo");
    assert_eq!(
        decode_incoming_frame_at(&command, "1", Ok(0)).unwrap_err(),
        IoError::Codec12UnexpectedMessageType(5)
    );
    let mut other = vec![0u8; 12];
    other[8] = 0x08;
    assert!(matches!(
        decode_incoming_frame_at(&other, "1", Ok(0)),
        Ok(FrameOutcome::Unsupported(0x08))
    ));
    assert_eq!(
        decode_incoming_frame_at(&[0, 0], "1", Ok(0)).unwrap_err(),
        IoError::FrameTooShortToClassify
    );
}

#[test]
fn answers_the_imei_handshake() {
    assert_eq!(imei_handshake_byte(true), 1);
    assert_eq!(imei_handshake_byte(false), 0);
}

#[test]
fn acknowledges_with_a_big_endian_count() {
    assert_eq!(frame_ack_bytes(3), vec![0, 0, 0, 3]);
    assert_eq!(frame_ack_bytes(255), vec![0, 0, 0, 255]);
}

#[test]
fn checks_the_imei_length_prefix() {
    assert_eq!(imei_length([0, 15]), Ok(15));
    assert_eq!(imei_length([0, 32]), Ok(32));
    assert_eq!(imei_length([0, 0]), Err(IoError::InvalidImeiLength(0)));
    assert_eq!(imei_length([0, 33]), Err(IoError::InvalidImeiLength(33)));
    assert_eq!(imei_length([1, 0]), Err(IoError::InvalidImeiLength(256)));
}

#[test]
fn checks_the_imei_bytes() {
    assert_eq!(parse_imei(b"866069063120602".to_vec(), 15).unwrap(), "866069063120602");
    assert_eq!(parse_imei(vec![0xFF, 0x30], 2), Err(IoError::ImeiNotUtf8));
    assert_eq!(
        parse_imei(b"86606906312060A".to_vec(), 15),
        Err(IoError::InvalidImeiFormat("86606906312060A".to_string()))
    );
    assert_eq!(
        parse_imei(b"123".to_vec(), 4),
        Err(IoError::InvalidImeiFormat("123".to_string()))
    );
}

#[test]
fn decodes_with_the_server_clock() {
    assert!(matches!(
        decode_incoming_frame(&empty_avl_frame(0, false), "1"),
        Ok(FrameOutcome::Avl(AvlFrameOutcome::Publish { .. }))
    ));
}
