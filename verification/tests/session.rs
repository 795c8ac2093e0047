use broker::error::IoError;
use broker::units::teltonika::codec12::{build_command_frame, crc16_ibm};
use broker::units::teltonika::{AvlFrameOutcome, FrameOutcome, Session};

fn empty_avl_frame() -> Vec<u8> {
    vec![0, 0, 0, 0, 0, 0, 0, 3, 0x8E, 0, 0, 0, 0, 0, 0]
}

fn response_frame(text: &[u8]) -> Vec<u8> {
    let mut data = vec![0x0C, 1, 0x06];
    data.extend_from_slice(&(text.len() as u32).to_be_bytes());
    data.extend_from_slice(text);
    data.push(1);
    let mut frame = vec![0, 0, 0, 0];
    frame.extend_from_slice(&(data.len() as u32).to_be_bytes());
    frame.extend_from_slice(&data);
    frame.extend_from_slice(&(crc16_ibm(&data) as u32).to_be_bytes());
    frame
}

#[test]
fn becomes_ready_after_the_first_avl_frame() {
    let mut session = Session::new();
    assert!(!session.ready_for_commands());
    assert!(session.next_frame_outcome("1").is_none());

    let response = response_frame(b"Ver:1");
    session.receive(&response[..5]);
    assert!(session.next_frame_outcome("1").is_none());
    session.receive(&response[5..]);
    match session.next_frame_outcome("1") {
        Some(Ok(FrameOutcome::CommandResponse(text))) => assert_eq!(text, "Ver:1"),
        other => panic!("unexpected {:?}", other),
    }
    assert!(!session.ready_for_commands());

    let mut bytes = empty_avl_frame();
    bytes.extend_from_slice(&empty_avl_frame());
    session.receive(&bytes);
    assert!(matches!(
        session.next_frame_outcome("1"),
        Some(Ok(FrameOutcome::Avl(AvlFrameOutcome::Publish { ack: 0, .. })))
    ));
    assert!(session.ready_for_commands());
    assert!(session.next_frame_outcome("1").is_some());
    assert!(session.next_frame_outcome("1").is_none());
}

#[test]
fn reports_undecodable_responses() {
    let mut session = Session::new();
    session.receive(&build_command_frame("getinfo"));
    assert_eq!(
        session.next_frame_outcome("1").unwrap().unwrap_err(),
        IoError::Codec12UnexpectedMessageType(5)
    );
    assert!(!session.ready_for_commands());
}
