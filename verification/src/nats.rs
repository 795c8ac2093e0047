//! NATS subjects and JetStream limits.
use vstd::prelude::*;

use crate::db::UnitMake;
use crate::error::IoError;
use crate::text::{parse_i64, parse_u64, spec_parse_i64, spec_parse_u64, spec_trim, trim};

verus! {

/// The retention limits of the broker's two JetStream streams.
#[derive(Debug, Clone, Copy, PartialEq, Eq, Structural)]
pub struct StreamLimits {
    /// Maximum message age, in seconds.
    pub max_age_secs: u64,
    pub telematics_max_bytes: i64,
    pub commands_max_bytes: i64,
}

/// The message limit of both streams.
pub const STREAM_MAX_MESSAGES: i64 = 10_000_000;

/// The settings of a JetStream stream kept in file storage.
#[derive(Debug, Clone)]
pub struct StreamSpec {
    pub name: String,
    pub subjects: Vec<String>,
    pub max_messages: i64,
    pub max_age_secs: u64,
    pub max_bytes: i64,
}

/// The stream of AVL data: its subject, the shared age and message limits,
/// and the telematics byte limit.
pub fn telematics_stream_spec(name: String, avl_subject: String, limits: StreamLimits) -> (s:
    StreamSpec)
    ensures
        s.name == name,
        s.subjects@ == seq![avl_subject],
        s.max_messages == STREAM_MAX_MESSAGES,
        s.max_age_secs == limits.max_age_secs,
        s.max_bytes == limits.telematics_max_bytes,
{
    let mut subjects: Vec<String> = Vec::new();
    subjects.push(avl_subject);
    StreamSpec {
        name,
        subjects,
        max_messages: STREAM_MAX_MESSAGES,
        max_age_secs: limits.max_age_secs,
        max_bytes: limits.telematics_max_bytes,
    }
}

/// The stream of commands and their responses: both subjects, the shared
/// age and message limits, and the command byte limit.
pub fn command_stream_spec(
    name: String,
    command_subject: String,
    command_response_subject: String,
    limits: StreamLimits,
) -> (s: StreamSpec)
    ensures
        s.name == name,
        s.subjects@ == seq![command_subject, command_response_subject],
        s.max_messages == STREAM_MAX_MESSAGES,
        s.max_age_secs == limits.max_age_secs,
        s.max_bytes == limits.commands_max_bytes,
{
    let mut subjects: Vec<String> = Vec::new();
    subjects.push(command_subject);
    subjects.push(command_response_subject);
    StreamSpec {
        name,
        subjects,
        max_messages: STREAM_MAX_MESSAGES,
        max_age_secs: limits.max_age_secs,
        max_bytes: limits.commands_max_bytes,
    }
}

/// A setting read as a positive `u64`.
pub open spec fn spec_positive_u64(value: Seq<char>) -> Option<u64> {
    match spec_parse_u64(spec_trim(value)) {
        Some(v) => if v == 0 {
            None
        } else {
            Some(v)
        },
        None => None,
    }
}

/// A setting read as a positive `i64`.
pub open spec fn spec_positive_i64(value: Seq<char>) -> Option<i64> {
    match spec_parse_i64(spec_trim(value)) {
        Some(v) => if v <= 0 {
            None
        } else {
            Some(v)
        },
        None => None,
    }
}

/// The setting `name` as a positive integer: surrounding whitespace is
/// ignored; anything else than a `u64` is `NotAnInteger`, zero `NotPositive`.
pub fn parse_positive_u64(name: &str, value: &str) -> (r: Result<u64, IoError>)
    ensures
        match spec_parse_u64(spec_trim(value@)) {
            None => r matches Err(IoError::NotAnInteger(n)) && n@ == name@,
            Some(v) => if v == 0 {
                r matches Err(IoError::NotPositive(n)) && n@ == name@
            } else {
                r == Ok::<u64, IoError>(v)
            },
        },
{
    let value = match parse_u64(trim(value)) {
        Some(v) => v,
        None => return Err(IoError::NotAnInteger(String::from_str(name))),
    };
    if value == 0 {
        return Err(IoError::NotPositive(String::from_str(name)));
    }
    Ok(value)
}

/// The setting `name` as a positive integer: surrounding whitespace is
/// ignored; anything else than an `i64` is `NotAnInteger`, zero or a
/// negative number `NotPositive`.
pub fn parse_positive_i64(name: &str, value: &str) -> (r: Result<i64, IoError>)
    ensures
        match spec_parse_i64(spec_trim(value@)) {
            None => r matches Err(IoError::NotAnInteger(n)) && n@ == name@,
            Some(v) => if v <= 0 {
                r matches Err(IoError::NotPositive(n)) && n@ == name@
            } else {
                r == Ok::<i64, IoError>(v)
            },
        },
{
    let value = match parse_i64(trim(value)) {
        Some(v) => v,
        None => return Err(IoError::NotAnInteger(String::from_str(name))),
    };
    if value <= 0 {
        return Err(IoError::NotPositive(String::from_str(name)));
    }
    Ok(value)
}

/// The stream limits from the three settings, or `None` when one is not a
/// positive integer or the age in seconds overflows.
pub open spec fn spec_stream_limits(
    max_age_hours: Seq<char>,
    telematics_max_bytes: Seq<char>,
    commands_max_bytes: Seq<char>,
) -> Option<StreamLimits> {
    match (
        spec_positive_u64(max_age_hours),
        spec_positive_i64(telematics_max_bytes),
        spec_positive_i64(commands_max_bytes),
    ) {
        (Some(h), Some(t), Some(c)) => if h * 3600 <= u64::MAX {
            Some(
                StreamLimits {
                    max_age_secs: (h * 3600) as u64,
                    telematics_max_bytes: t,
                    commands_max_bytes: c,
                },
            )
        } else {
            None
        },
        _ => None,
    }
}

/// `e` reports the setting `name`: `NotAnInteger` when it did not parse,
/// `NotPositive` otherwise.
pub open spec fn setting_error(e: IoError, name: Seq<char>, unparsed: bool) -> bool {
    if unparsed {
        e matches IoError::NotAnInteger(n) && n@ == name
    } else {
        e matches IoError::NotPositive(n) && n@ == name
    }
}

/// The error for settings without stream limits: the first setting that is
/// not a positive integer, in the order age, telematics bytes, command
/// bytes, with an age that overflows in seconds reported before the others.
pub open spec fn stream_limits_error(
    e: IoError,
    max_age_hours: Seq<char>,
    telematics_max_bytes: Seq<char>,
    commands_max_bytes: Seq<char>,
) -> bool {
    if spec_positive_u64(max_age_hours) is None {
        setting_error(e, "NATS_MAX_AGE_HOURS"@, spec_parse_u64(spec_trim(max_age_hours)) is None)
    } else if spec_positive_u64(max_age_hours).unwrap() * 3600 > u64::MAX {
        e == IoError::MaxAgeTooLarge
    } else if spec_positive_i64(telematics_max_bytes) is None {
        setting_error(
            e,
            "NATS_TELEMATICS_MAX_BYTES"@,
            spec_parse_i64(spec_trim(telematics_max_bytes)) is None,
        )
    } else {
        setting_error(
            e,
            "NATS_COMMANDS_MAX_BYTES"@,
            spec_parse_i64(spec_trim(commands_max_bytes)) is None,
        )
    }
}

/// Reads the stream limits from the settings `NATS_MAX_AGE_HOURS`,
/// `NATS_TELEMATICS_MAX_BYTES` and `NATS_COMMANDS_MAX_BYTES`, in that order.
pub fn parse_stream_limits(
    max_age_hours: &str,
    telematics_max_bytes: &str,
    commands_max_bytes: &str,
) -> (r: Result<StreamLimits, IoError>)
    ensures
        match spec_stream_limits(max_age_hours@, telematics_max_bytes@, commands_max_bytes@) {
            Some(l) => r == Ok::<StreamLimits, IoError>(l),
            None => r matches Err(e) && stream_limits_error(
                e,
                max_age_hours@,
                telematics_max_bytes@,
                commands_max_bytes@,
            ),
        },
{
    let max_age_hours = parse_positive_u64("NATS_MAX_AGE_HOURS", max_age_hours)?;
    let max_age_seconds = match max_age_hours.checked_mul(60 * 60) {
        Some(s) => s,
        None => return Err(IoError::MaxAgeTooLarge),
    };
    let telematics_max_bytes = parse_positive_i64(
        "NATS_TELEMATICS_MAX_BYTES",
        telematics_max_bytes,
    )?;
    let commands_max_bytes = parse_positive_i64("NATS_COMMANDS_MAX_BYTES", commands_max_bytes)?;
    Ok(StreamLimits { max_age_secs: max_age_seconds, telematics_max_bytes, commands_max_bytes })
}

/// The subject for command responses of `imei`, from a template whose last
/// dot-separated segment is `*` and which has at least one segment before
/// it: the `*` is replaced by the IMEI.
pub open spec fn spec_response_subject(template: Seq<char>, imei: Seq<char>) -> Option<Seq<char>> {
    if template.len() >= 2 && template[template.len() - 1] == '*' && template[template.len() - 2]
        == '.' {
        Some(template.drop_last() + imei)
    } else {
        None
    }
}

/// The command-response subject for `imei` from `template` (such as
/// `units.command_response.*`).
pub fn response_subject(template: &str, imei: &str) -> (r: Result<String, IoError>)
    ensures
        match spec_response_subject(template@, imei@) {
            Some(s) => r matches Ok(x) && x@ == s,
            None => r matches Err(IoError::InvalidResponseSubjectTemplate(t)) && t@ == template@,
        },
{
    let n = template.unicode_len();
    if n >= 2 && template.get_char(n - 1) == '*' && template.get_char(n - 2) == '.' {
        let prefix = template.substring_char(0, n - 1);
        let mut subject = String::from_str(prefix);
        subject.append(imei);
        assert(prefix@ =~= template@.drop_last());
        Ok(subject)
    } else {
        Err(IoError::InvalidResponseSubjectTemplate(String::from_str(template)))
    }
}

/// The subject on which AVL frames of `imei` are published:
/// `units.avl.{make:?}.{imei}`.
pub fn avl_subject(make: UnitMake, imei: &str) -> (s: String)
    ensures
        s@ == "units.avl."@ + make.spec_debug_name() + "."@ + imei@,
{
    let mut s = String::from_str("units.avl.");
    s.append(make.debug_name());
    s.append(".");
    s.append(imei);
    s
}

/// The default template `units.command_response.*` gives the subject
/// `units.command_response.{imei}`.
pub proof fn lemma_default_response_subject(imei: Seq<char>)
    ensures
        spec_response_subject("units.command_response.*"@, imei) == Some(
            "units.command_response."@ + imei,
        ),
{
    reveal_strlit("units.command_response.*");
    reveal_strlit("units.command_response.");
    assert("units.command_response.*"@.drop_last() =~= "units.command_response."@);
}

} // verus!
