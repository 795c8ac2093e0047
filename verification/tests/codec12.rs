use broker::error::{ErrorKind, IoError};
use broker::units::teltonika::codec12::{build_command_frame, crc16_ibm, parse_response_frame};

#[test]
fn builds_getinfo_codec12_command() {
    let frame = build_command_frame("getinfo");

    assert_eq!(hex::encode(frame), "000000000000000f0c010500000007676574696e666f0100004312");
}

#[test]
fn parses_getio_codec12_response() {
    let frame = hex::decode("00000000000000370c01060000002f4449313a31204449323a30204449333a302041494e313a302041494e323a313639323420444f313a3020444f323a3101000066e3").unwrap();

    let response = parse_response_frame(&frame).unwrap();

    assert_eq!(response, "DI1:1 DI2:0 DI3:0 AIN1:0 AIN2:16924 DO1:0 DO2:1");
}

fn response_frame(quantity: u8, text: &[u8]) -> Vec<u8> {
    let mut data = vec![0x0C, quantity, 0x06];
    data.extend_from_slice(&(text.len() as u32).to_be_bytes());
    data.extend_from_slice(text);
    data.push(quantity);
    let mut frame = vec![0, 0, 0, 0];
    frame.extend_from_slice(&(data.len() as u32).to_be_bytes());
    frame.extend_from_slice(&data);
    frame.extend_from_slice(&(crc16_ibm(&data) as u32).to_be_bytes());
    frame
}

#[test]
fn crc_matches_known_value() {
    // CRC-16/ARC of "123456789".
    assert_eq!(crc16_ibm(b"123456789"), 0xBB3D);
    assert_eq!(crc16_ibm(&[]), 0);
}

#[test]
fn response_frames_round_trip() {
    let frame = response_frame(1, "Ver:03.27.07".as_bytes());
    assert_eq!(parse_response_frame(&frame).unwrap(), "Ver:03.27.07");
    let frame = response_frame(3, "héllo".as_bytes());
    assert_eq!(parse_response_frame(&frame).unwrap(), "héllo");
}

#[test]
fn command_frames_are_not_responses() {
    let frame = build_command_frame("getinfo");
    assert_eq!(
        parse_response_frame(&frame).unwrap_err(),
        IoError::Codec12UnexpectedMessageType(0x05)
    );
}

#[test]
fn retyped_command_frames_decode_to_their_text() {
    for text in ["getinfo", "setdigout 1?", "héllo", ""] {
        let mut frame = build_command_frame(text);
        let n = text.len();
        frame[10] = 0x06;
        let crc = crc16_ibm(&frame[8..16 + n]) as u32;
        frame[16 + n..20 + n].copy_from_slice(&crc.to_be_bytes());
        assert_eq!(parse_response_frame(&frame).unwrap(), text);
    }
}

#[test]
fn round_trips_short_and_empty_texts() {
    assert_eq!(parse_response_frame(&response_frame(1, b"ok")).unwrap(), "ok");
    assert_eq!(parse_response_frame(&response_frame(1, b"")).unwrap(), "");
}

#[test]
fn rejects_frames_below_the_minimum_size() {
    let frame = response_frame(1, b"");
    assert_eq!(parse_response_frame(&frame[..19]).unwrap_err(), IoError::Codec12TooShort);
    assert_eq!(IoError::Codec12TooShort.kind(), ErrorKind::UnexpectedEof);
}

#[test]
fn reports_each_defect() {
    let good = response_frame(1, b"abcdef");

    let mut bad = good.clone();
    bad[0] = 1;
    assert_eq!(parse_response_frame(&bad).unwrap_err(), IoError::Codec12MissingPreamble);

    let mut bad = good.clone();
    bad.push(0);
    assert_eq!(parse_response_frame(&bad).unwrap_err(), IoError::Codec12LengthMismatch);

    let mut bad = good.clone();
    let last = bad.len() - 1;
    bad[last] ^= 0xFF;
    assert!(matches!(
        parse_response_frame(&bad).unwrap_err(),
        IoError::Codec12CrcMismatch { .. }
    ));

    let mut data = vec![0x0D, 1, 0x06, 0, 0, 0, 1, b'a', 1];
    let mut frame = vec![0, 0, 0, 0, 0, 0, 0, data.len() as u8];
    frame.append(&mut data.clone());
    frame.extend_from_slice(&(crc16_ibm(&data) as u32).to_be_bytes());
    assert_eq!(parse_response_frame(&frame).unwrap_err(), IoError::Codec12UnexpectedCodecId(0x0D));

    data = vec![0x0C, 1, 0x06, 0, 0, 0, 3, b'a', b'b', b'c', 2];
    let mut frame = vec![0, 0, 0, 0, 0, 0, 0, data.len() as u8];
    frame.extend_from_slice(&data);
    frame.extend_from_slice(&(crc16_ibm(&data) as u32).to_be_bytes());
    assert_eq!(parse_response_frame(&frame).unwrap_err(), IoError::Codec12QuantityMismatch);

    data = vec![0x0C, 1, 0x06, 0, 0, 0, 9, b'a', b'b', b'c', 1];
    let mut frame = vec![0, 0, 0, 0, 0, 0, 0, data.len() as u8];
    frame.extend_from_slice(&data);
    frame.extend_from_slice(&(crc16_ibm(&data) as u32).to_be_bytes());
    assert_eq!(parse_response_frame(&frame).unwrap_err(), IoError::NotEnoughBytes);

    let frame = response_frame(1, &[0xFF, 0xFE, 0xFD]);
    assert_eq!(parse_response_frame(&frame).unwrap_err(), IoError::Codec12NotUtf8);
}
