use std::time::Duration;

use broker::db::UnitMake;
use broker::error::{ErrorKind, IoError};
use broker::nats::{
    avl_subject, command_stream_spec, parse_positive_i64, parse_positive_u64, parse_stream_limits,
    response_subject, telematics_stream_spec, STREAM_MAX_MESSAGES,
};

#[test]
fn parses_stream_limits() {
    let limits = parse_stream_limits("72", "75000000000", "5000000000").unwrap();

    assert_eq!(Duration::from_secs(limits.max_age_secs), Duration::from_secs(72 * 60 * 60));
    assert_eq!(limits.telematics_max_bytes, 75_000_000_000);
    assert_eq!(limits.commands_max_bytes, 5_000_000_000);
}

#[test]
fn rejects_zero_stream_limits() {
    let age_err = parse_stream_limits("0", "1", "1").unwrap_err();
    let telematics_err = parse_stream_limits("72", "0", "1").unwrap_err();
    let commands_err = parse_stream_limits("72", "1", "0").unwrap_err();

    assert_eq!(age_err.kind(), ErrorKind::InvalidInput);
    assert_eq!(telematics_err.kind(), ErrorKind::InvalidInput);
    assert_eq!(commands_err.kind(), ErrorKind::InvalidInput);
}

#[test]
fn names_the_setting_that_is_wrong() {
    assert_eq!(
        parse_stream_limits("0", "1", "1").unwrap_err(),
        IoError::NotPositive("NATS_MAX_AGE_HOURS".to_string())
    );
    assert_eq!(
        parse_stream_limits("72", "x", "1").unwrap_err(),
        IoError::NotAnInteger("NATS_TELEMATICS_MAX_BYTES".to_string())
    );
    assert_eq!(
        parse_stream_limits("72", "1", "-5").unwrap_err(),
        IoError::NotPositive("NATS_COMMANDS_MAX_BYTES".to_string())
    );
}

#[test]
fn rejects_an_age_that_overflows_in_seconds() {
    assert_eq!(
        parse_stream_limits("18446744073709551615", "1", "1").unwrap_err(),
        IoError::MaxAgeTooLarge
    );
    assert_eq!(IoError::MaxAgeTooLarge.kind(), ErrorKind::InvalidInput);
}

#[test]
fn parses_positive_integers_like_str_parse() {
    assert_eq!(parse_positive_u64("N", " 72 ").unwrap(), 72);
    assert_eq!(parse_positive_u64("N", "+7").unwrap(), 7);
    assert_eq!(parse_positive_u64("N", "18446744073709551615").unwrap(), u64::MAX);
    assert_eq!(
        parse_positive_u64("N", "18446744073709551616").unwrap_err(),
        IoError::NotAnInteger("N".to_string())
    );
    assert_eq!(parse_positive_u64("N", "-1").unwrap_err(), IoError::NotAnInteger("N".to_string()));
    assert_eq!(parse_positive_u64("N", "").unwrap_err(), IoError::NotAnInteger("N".to_string()));
    assert_eq!(parse_positive_u64("N", "+").unwrap_err(), IoError::NotAnInteger("N".to_string()));
    assert_eq!(parse_positive_i64("N", "9223372036854775807").unwrap(), i64::MAX);
    assert_eq!(
        parse_positive_i64("N", "9223372036854775808").unwrap_err(),
        IoError::NotAnInteger("N".to_string())
    );
    assert_eq!(
        parse_positive_i64("N", "-9223372036854775808").unwrap_err(),
        IoError::NotPositive("N".to_string())
    );
    assert_eq!(parse_positive_i64("N", "\u{3000}12\t").unwrap(), 12);
}

#[test]
fn builds_response_subject_from_wildcard_template() {
    let subject = response_subject("units.command_response.*", "123456789012345").unwrap();

    assert_eq!(subject, "units.command_response.123456789012345");
}

#[test]
fn rejects_response_subject_without_terminal_wildcard() {
    let err = response_subject("units.command_response", "123456789012345").unwrap_err();

    assert_eq!(err.kind(), ErrorKind::InvalidInput);
}

#[test]
fn response_subject_edge_templates() {
    assert_eq!(response_subject(".*", "1").unwrap(), ".1");
    assert!(response_subject("*", "1").is_err());
    assert!(response_subject("a*", "1").is_err());
    assert_eq!(response_subject("a..*", "1").unwrap(), "a..1");
}

#[test]
fn builds_avl_subject_with_debug_make() {
    assert_eq!(avl_subject(UnitMake::Teltonika, "866"), "units.avl.Teltonika.866");
    assert_eq!(avl_subject(UnitMake::Ruptela, "1"), "units.avl.Ruptela.1");
}

#[test]
fn plans_both_streams_from_the_limits() {
    let limits = parse_stream_limits("72", "75000000000", "5000000000").unwrap();
    let telematics = telematics_stream_spec("TELEMATICS".to_string(), "units.avl.>".to_string(), limits);
    assert_eq!(telematics.name, "TELEMATICS");
    assert_eq!(telematics.subjects, vec!["units.avl.>".to_string()]);
    assert_eq!(telematics.max_messages, STREAM_MAX_MESSAGES);
    assert_eq!(telematics.max_messages, 10_000_000);
    assert_eq!(telematics.max_age_secs, 259_200);
    assert_eq!(telematics.max_bytes, 75_000_000_000);
    let commands = command_stream_spec(
        "COMMANDS".to_string(),
        "units.command.*".to_string(),
        "units.command_response.*".to_string(),
        limits,
    );
    assert_eq!(
        commands.subjects,
        vec!["units.command.*".to_string(), "units.command_response.*".to_string()]
    );
    assert_eq!(commands.max_bytes, 5_000_000_000);
    assert_eq!(commands.max_age_secs, 259_200);
}
