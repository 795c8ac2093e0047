//! Commands for devices: the payloads, their Redis keys, and the NATS
//! subjects they arrive on.
use vstd::prelude::*;

use crate::error::IoError;
use crate::text::{all_ascii_digits, is_all_ascii_digits, str_eq};

verus! {

/// A command as it arrives on NATS.
#[derive(Debug, Clone)]
pub struct CommandPayload {
    pub request_id: String,
    pub command: String,
    pub timeout_ms: Option<u64>,
}

/// A command waiting in a device's queue.
#[derive(Debug, Clone)]
pub struct QueuedCommand {
    pub imei: String,
    pub request_id: String,
    pub command: String,
    pub timeout_ms: Option<u64>,
}

/// The device's answer to a command, as published on NATS.
#[derive(Debug, Clone)]
pub struct CommandResponsePayload {
    pub request_id: String,
    pub imei: String,
    pub command: String,
    pub response: String,
    pub ok: bool,
}

/// How long to wait for a device's response when a command names no timeout.
pub const DEFAULT_COMMAND_TIMEOUT_MS: u64 = 30_000;

/// The Redis key of a queued command's payload: `command.{imei}.{req_id}`.
pub fn command_payload_key(imei: &str, req_id: &str) -> (key: String)
    ensures
        key@ == "command."@ + imei@ + "."@ + req_id@,
{
    let mut key = String::from_str("command.");
    key.append(imei);
    key.append(".");
    key.append(req_id);
    key
}

/// The Redis list of a device's queued request ids: `command.queue.{imei}`.
pub fn command_queue_key(imei: &str) -> (key: String)
    ensures
        key@ == "command.queue."@ + imei@,
{
    let mut key = String::from_str("command.queue.");
    key.append(imei);
    key
}

/// No character of `s` is a dot.
pub open spec fn has_no_dot(s: Seq<char>) -> bool {
    forall|i: int| 0 <= i < s.len() ==> #[trigger] s[i] != '.'
}

/// The IMEI segment of a command subject, when the subject splits on dots
/// into `command.{imei}` or `units.command.{imei}`.
pub open spec fn subject_imei(s: Seq<char>) -> Option<Seq<char>> {
    if s.len() >= 8 && s.take(8) == "command."@ && has_no_dot(s.skip(8)) {
        Some(s.skip(8))
    } else if s.len() >= 14 && s.take(14) == "units.command."@ && has_no_dot(s.skip(14)) {
        Some(s.skip(14))
    } else {
        None
    }
}

/// Whether `s[from..]` holds no dot.
fn no_dot_from(s: &str, from: usize) -> (r: bool)
    requires
        from <= s@.len(),
    ensures
        r == has_no_dot(s@.skip(from as int)),
{
    let n = s.unicode_len();
    let mut i = from;
    while i < n
        invariant
            n == s@.len(),
            from <= i <= n,
            forall|k: int| from <= k < i ==> s@[k] != '.',
        decreases n - i,
    {
        if s.get_char(i) == '.' {
            assert(s@.skip(from as int)[i - from] == '.');
            return false;
        }
        i = i + 1;
    }
    assert forall|k: int| 0 <= k < s@.skip(from as int).len() implies #[trigger] s@.skip(
        from as int,
    )[k] != '.' by {
        assert(s@.skip(from as int)[k] == s@[k + from]);
    }
    true
}

/// Whether `s` starts with `prefix` of `len` characters and has no dot after it.
fn prefix_then_no_dot(s: &str, prefix: &str, len: usize) -> (r: bool)
    requires
        prefix@.len() == len,
    ensures
        r == (s@.len() >= len && s@.take(len as int) == prefix@ && has_no_dot(s@.skip(len as int))),
{
    let n = s.unicode_len();
    if n < len {
        return false;
    }
    let head = s.substring_char(0, len);
    assert(head@ =~= s@.take(len as int));
    str_eq(head, prefix) && no_dot_from(s, len)
}

/// The IMEI of the command subject `subject`: `command.{imei}` or
/// `units.command.{imei}`, the IMEI all ASCII digits.
pub fn parse_subject(subject: &str) -> (r: Result<String, IoError>)
    ensures
        match subject_imei(subject@) {
            None => r matches Err(IoError::UnexpectedCommandSubject(s)) && s@ == subject@,
            Some(imei) => if all_ascii_digits(imei) {
                r matches Ok(s) && s@ == imei
            } else {
                r matches Err(IoError::InvalidImeiInSubject(s)) && s@ == imei
            },
        },
{
    proof {
        reveal_strlit("command.");
        reveal_strlit("units.command.");
    }
    let n = subject.unicode_len();
    let start: usize = if prefix_then_no_dot(subject, "command.", 8) {
        8
    } else if prefix_then_no_dot(subject, "units.command.", 14) {
        14
    } else {
        return Err(IoError::UnexpectedCommandSubject(String::from_str(subject)));
    };
    let imei = subject.substring_char(start, n);
    assert(imei@ =~= subject@.skip(start as int));
    if !is_all_ascii_digits(imei) {
        return Err(IoError::InvalidImeiInSubject(String::from_str(imei)));
    }
    Ok(String::from_str(imei))
}

/// The queue entry for a command that arrived for `imei`.
pub fn queued_command(imei: String, payload: CommandPayload) -> (c: QueuedCommand)
    ensures
        c.imei == imei,
        c.request_id == payload.request_id,
        c.command == payload.command,
        c.timeout_ms == payload.timeout_ms,
{
    QueuedCommand {
        imei,
        request_id: payload.request_id,
        command: payload.command,
        timeout_ms: payload.timeout_ms,
    }
}

/// How long to wait for the response to `command`, in milliseconds.
pub fn response_timeout_ms(command: &QueuedCommand) -> (ms: u64)
    ensures
        ms == match command.timeout_ms {
            Some(t) => t,
            None => DEFAULT_COMMAND_TIMEOUT_MS,
        },
{
    match command.timeout_ms {
        Some(t) => t,
        None => DEFAULT_COMMAND_TIMEOUT_MS,
    }
}

/// The message that reports the device's `response` to `command`.
pub fn command_response_payload(
    imei: &str,
    command: &QueuedCommand,
    response: String,
    ok: bool,
) -> (p: CommandResponsePayload)
    ensures
        p.request_id@ == command.request_id@,
        p.imei@ == imei@,
        p.command@ == command.command@,
        p.response == response,
        p.ok == ok,
{
    CommandResponsePayload {
        request_id: String::from_str(command.request_id.as_str()),
        imei: String::from_str(imei),
        command: String::from_str(command.command.as_str()),
        response,
        ok,
    }
}

/// A subject `units.command.{imei}` or `command.{imei}` with an all-digit
/// IMEI yields that IMEI.
pub proof fn lemma_command_subjects_yield_imei(imei: Seq<char>)
    requires
        all_ascii_digits(imei),
    ensures
        subject_imei("units.command."@ + imei) == Some(imei),
        subject_imei("command."@ + imei) == Some(imei),
{
    reveal_strlit("command.");
    reveal_strlit("units.command.");
    let long = "units.command."@ + imei;
    let short = "command."@ + imei;
    assert(long.skip(14) =~= imei);
    assert(short.skip(8) =~= imei);
    assert(short.take(8) =~= "command."@);
    assert(long.take(14) =~= "units.command."@);
    assert forall|i: int| 0 <= i < imei.len() implies #[trigger] imei[i] != '.' by {
        assert(crate::text::is_ascii_digit(imei[i]));
    }
    assert(long.take(8) != "command."@) by {
        assert(long.take(8)[0] == 'u');
    }
}

} // verus!
