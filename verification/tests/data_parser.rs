use broker::error::{ClockError, ErrorKind, IoError};
use broker::units::teltonika::data_parser::{
    frame_slices_ok, teltonika_parse_frame, teltonika_parse_frame_at,
};
use broker::units::teltonika::errors::{DiscardReason, TeltonikaFrameError};
use broker::units::teltonika::validations::FutureTimestampError;

const NOW: u64 = 1_700_000_000_000;

fn io_element(event: u16) -> Vec<u8> {
    let mut r = Vec::new();
    r.extend_from_slice(&event.to_be_bytes());
    r.extend_from_slice(&5u16.to_be_bytes()); // n_total
    r.extend_from_slice(&1u16.to_be_bytes());
    r.extend_from_slice(&1u16.to_be_bytes());
    r.push(9);
    r.extend_from_slice(&1u16.to_be_bytes());
    r.extend_from_slice(&2u16.to_be_bytes());
    r.extend_from_slice(&0x0102u16.to_be_bytes());
    r.extend_from_slice(&1u16.to_be_bytes());
    r.extend_from_slice(&3u16.to_be_bytes());
    r.extend_from_slice(&0x0102_0304u32.to_be_bytes());
    r.extend_from_slice(&1u16.to_be_bytes());
    r.extend_from_slice(&78u16.to_be_bytes());
    r.extend_from_slice(&u64::MAX.to_be_bytes());
    r.extend_from_slice(&1u16.to_be_bytes());
    r.extend_from_slice(&5u16.to_be_bytes());
    r.extend_from_slice(&2u16.to_be_bytes());
    r.extend_from_slice(&[0xAA, 0xBB]);
    r
}

fn avl_record(ts: u64, event: u16) -> Vec<u8> {
    let mut r = ts.to_be_bytes().to_vec();
    r.push(1);
    r.extend_from_slice(&(-123_456i32).to_be_bytes());
    r.extend_from_slice(&654_321i32.to_be_bytes());
    r.extend_from_slice(&(-5i16).to_be_bytes());
    r.extend_from_slice(&90u16.to_be_bytes());
    r.push(7);
    r.extend_from_slice(&60u16.to_be_bytes());
    r.extend_from_slice(&io_element(event));
    r
}

fn frame(codec: u8, n1: u8, records: &[Vec<u8>], n2: u8) -> Vec<u8> {
    let mut data = vec![codec, n1];
    for r in records {
        data.extend_from_slice(r);
    }
    data.push(n2);
    let mut f = vec![0, 0, 0, 0];
    f.extend_from_slice(&(data.len() as u32).to_be_bytes());
    f.extend_from_slice(&data);
    f.extend_from_slice(&[0, 0, 0, 0]);
    f
}

#[test]
fn decodes_a_two_record_frame() {
    let f = frame(0x8E, 2, &[avl_record(NOW - 1, 78), avl_record(NOW, 0)], 2);
    let parsed = teltonika_parse_frame_at(&f, "866069063120602", Ok(NOW)).unwrap();
    assert_eq!(parsed.imei, "866069063120602");
    assert_eq!(parsed.codec_id, 0x8E);
    assert_eq!(parsed.record_count, 2);
    assert_eq!(parsed.records.len(), 2);
    let r = &parsed.records[0];
    assert_eq!(r.timestamp, NOW - 1);
    assert_eq!(r.priority, 1);
    assert_eq!(r.gps_element.longitude, -123_456);
    assert_eq!(r.gps_element.latitude, 654_321);
    assert_eq!(r.gps_element.altitude, -5);
    assert_eq!(r.gps_element.angle, 90);
    assert_eq!(r.gps_element.satellites, 7);
    assert_eq!(r.gps_element.speed, 60);
    assert_eq!(r.io_element.event_io_id, 78);
    assert_eq!(r.io_element.n_total, 5);
    assert_eq!(r.io_element.one_byte[&1], 9);
    assert_eq!(r.io_element.two_bytes[&2], 0x0102);
    assert_eq!(r.io_element.four_bytes[&3], 0x0102_0304);
    assert_eq!(r.io_element.eight_bytes[&78], u64::MAX);
    assert_eq!(r.io_element.x_bytes[&5], vec![0xAA, 0xBB]);
    assert_eq!(parsed.records[1].io_element.event_io_id, 0);
}

#[test]
fn decodes_with_the_real_clock() {
    let f = frame(0x8E, 1, &[avl_record(NOW, 1)], 1);
    assert!(teltonika_parse_frame(&f, "1").is_ok());
}

#[test]
fn discards_frames_from_the_future_but_acks_them() {
    let f = frame(0x8E, 2, &[avl_record(NOW, 1), avl_record(NOW + 300_001, 1)], 2);
    let err = teltonika_parse_frame_at(&f, "1", Ok(NOW)).unwrap_err();
    assert_eq!(err.ack_record_count(), Some(2));
    assert_eq!(
        err,
        TeltonikaFrameError::Discarded {
            ack_record_count: 2,
            reason: DiscardReason::FutureTimestamp(FutureTimestampError {
                timestamp_ms: NOW + 300_001,
                now_ms: NOW,
                max_future_drift_ms: 300_000,
            }),
        }
    );
}

#[test]
fn reports_clock_failures_as_parse_errors() {
    let f = frame(0x8E, 1, &[avl_record(NOW, 1)], 1);
    let err = teltonika_parse_frame_at(&f, "1", Err(ClockError::Overflow)).unwrap_err();
    assert_eq!(err, TeltonikaFrameError::Parse(IoError::Clock(ClockError::Overflow)));
    assert_eq!(err.ack_record_count(), None);
    assert_eq!(IoError::Clock(ClockError::Overflow).kind(), ErrorKind::Other);
}

#[test]
fn rejects_malformed_frames() {
    let parse = |f: &[u8]| match teltonika_parse_frame_at(f, "1", Ok(NOW)) {
        Err(TeltonikaFrameError::Parse(e)) => e,
        other => panic!("unexpected {:?}", other),
    };
    assert_eq!(parse(&[0; 14]), IoError::FrameTooShort);

    let mut f = frame(0x8E, 1, &[avl_record(NOW, 1)], 1);
    f.truncate(f.len() - 1);
    assert_eq!(parse(&f), IoError::FrameShorterThanDataLen);

    let f = frame(0x08, 1, &[avl_record(NOW, 1)], 1);
    assert_eq!(parse(&f), IoError::UnexpectedCodec(0x08));
    assert_eq!(IoError::UnexpectedCodec(0x08).kind(), ErrorKind::UnexpectedEof);

    let f = frame(0x8E, 1, &[avl_record(NOW, 1)], 2);
    assert_eq!(parse(&f), IoError::RecordCountMismatch);

    let f = frame(0x8E, 1, &[avl_record(NOW, 1), vec![0xEE]], 1);
    assert_eq!(parse(&f), IoError::ExtraBytes(1));

    let f = frame(0x8E, 2, &[avl_record(NOW, 1)], 2);
    assert_eq!(parse(&f), IoError::NotEnoughBytes);

    let mut rec = avl_record(NOW, 1);
    rec[24 + 3] = 4; // n_total low byte: 4 instead of 5
    let f = frame(0x8E, 1, &[rec], 1);
    assert_eq!(parse(&f), IoError::NTotalMismatch { got: 4, computed: 5 });
}

#[test]
fn later_duplicate_io_ids_win() {
    let mut rec = (NOW).to_be_bytes().to_vec();
    rec.push(0);
    rec.extend_from_slice(&[0; 15]);
    rec.extend_from_slice(&[0, 0, 0, 2]); // event 0, total 2
    rec.extend_from_slice(&[0, 2, 0, 1, 1, 0, 1, 2]); // n1 = 2: id 1 -> 1, id 1 -> 2
    rec.extend_from_slice(&[0, 0, 0, 0, 0, 0, 0, 0]); // n2, n4, n8, nx = 0
    let f = frame(0x8E, 1, &[rec], 1);
    let parsed = teltonika_parse_frame_at(&f, "1", Ok(NOW)).unwrap();
    let io = &parsed.records[0].io_element;
    assert_eq!(io.one_byte.len(), 1);
    assert_eq!(io.one_byte[&1], 2);
}

#[test]
fn accepts_an_empty_frame() {
    let f = frame(0x8E, 0, &[], 0);
    let parsed = teltonika_parse_frame_at(&f, "1", Err(ClockError::BeforeEpoch)).unwrap();
    assert_eq!(parsed.record_count, 0);
    assert!(parsed.records.is_empty());
}

#[test]
fn tells_which_layouts_can_be_sliced() {
    assert!(frame_slices_ok(&[0; 14]));
    let mut f = vec![0, 0, 0, 0, 0, 0, 0, 2, 0x8E, 0, 0, 0, 0, 0, 0];
    assert!(!frame_slices_ok(&f));
    f[7] = 3;
    assert!(frame_slices_ok(&f));
}
