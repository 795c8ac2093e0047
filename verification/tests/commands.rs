use broker::commands::{
    command_payload_key, command_queue_key, command_response_payload, parse_subject,
    queued_command, response_timeout_ms, CommandPayload, QueuedCommand,
};
use broker::error::{ErrorKind, IoError};

#[test]
fn parses_command_subject() {
    let imei = parse_subject("units.command.123456789012345").unwrap();

    assert_eq!(imei, "123456789012345");
}

#[test]
fn parses_legacy_units_command_subject() {
    let imei = parse_subject("units.command.123456789012345").unwrap();

    assert_eq!(imei, "123456789012345");
}

#[test]
fn rejects_unknown_subject_prefix() {
    let err = parse_subject("units.avl.123456789012345").unwrap_err();

    assert_eq!(err.kind(), ErrorKind::InvalidInput);
}

#[test]
fn parses_short_command_subject() {
    assert_eq!(parse_subject("command.42").unwrap(), "42");
}

#[test]
fn rejects_subject_with_extra_segment() {
    let err = parse_subject("units.command.123.456").unwrap_err();
    assert_eq!(err, IoError::UnexpectedCommandSubject("units.command.123.456".to_string()));
}

#[test]
fn rejects_non_digit_imei_in_subject() {
    let err = parse_subject("command.12a").unwrap_err();
    assert_eq!(err, IoError::InvalidImeiInSubject("12a".to_string()));
    assert_eq!(err.kind(), ErrorKind::InvalidInput);
}

#[test]
fn accepts_empty_imei_segment_as_the_split_does() {
    assert_eq!(parse_subject("command.").unwrap(), "");
}

#[test]
fn builds_redis_keys() {
    assert_eq!(command_payload_key("866", "req-1"), "command.866.req-1");
    assert_eq!(command_queue_key("866"), "command.queue.866");
}

#[test]
fn queues_a_command_for_its_imei() {
    let payload = CommandPayload {
        request_id: "r1".to_string(),
        command: "getinfo".to_string(),
        timeout_ms: None,
    };
    let queued = queued_command("866".to_string(), payload);
    assert_eq!(queued.imei, "866");
    assert_eq!(queued.request_id, "r1");
    assert_eq!(queued.command, "getinfo");
    assert_eq!(queued.timeout_ms, None);
    assert_eq!(response_timeout_ms(&queued), 30_000);
}

#[test]
fn uses_the_commands_own_timeout() {
    let queued = QueuedCommand {
        imei: "866".to_string(),
        request_id: "r2".to_string(),
        command: "getio".to_string(),
        timeout_ms: Some(1_500),
    };
    assert_eq!(response_timeout_ms(&queued), 1_500);
    let payload = command_response_payload("866", &queued, "DI1:1".to_string(), true);
    assert_eq!(payload.request_id, "r2");
    assert_eq!(payload.imei, "866");
    assert_eq!(payload.command, "getio");
    assert_eq!(payload.response, "DI1:1");
    assert!(payload.ok);
}
