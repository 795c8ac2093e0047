//! How far in the future a record's timestamp may lie.
use vstd::prelude::*;

use crate::error::ClockError;

verus! {

/// The largest distance, in milliseconds, by which a record's timestamp may
/// run ahead of the server clock (five minutes).
pub const MAX_FUTURE_TIMESTAMP_DRIFT_MS: u64 = 300_000;

/// Why a timestamp was refused.
#[derive(Debug, Clone, Copy, PartialEq, Eq, Structural)]
pub enum TimestampValidationError {
    /// The server clock could not be read.
    Clock(ClockError),
    /// The timestamp lies too far ahead of the server clock.
    TooFarInFuture(FutureTimestampError),
}

/// A timestamp that lies too far ahead of the server clock.
#[derive(Debug, Clone, Copy, PartialEq, Eq, Structural)]
pub struct FutureTimestampError {
    pub timestamp_ms: u64,
    pub now_ms: u64,
    pub max_future_drift_ms: u64,
}

/// `now + drift`, saturated at `u64::MAX`.
pub open spec fn latest_accepted_ms(now_ms: u64) -> int {
    if now_ms + MAX_FUTURE_TIMESTAMP_DRIFT_MS > u64::MAX {
        u64::MAX as int
    } else {
        now_ms + MAX_FUTURE_TIMESTAMP_DRIFT_MS
    }
}

/// The verdict on `timestamp_ms` when the server clock reads `now_ms`.
pub open spec fn spec_validate_timestamp_at(timestamp_ms: u64, now_ms: u64) -> Result<
    (),
    TimestampValidationError,
> {
    if timestamp_ms > latest_accepted_ms(now_ms) {
        Err(
            TimestampValidationError::TooFarInFuture(
                FutureTimestampError {
                    timestamp_ms,
                    now_ms,
                    max_future_drift_ms: MAX_FUTURE_TIMESTAMP_DRIFT_MS,
                },
            ),
        )
    } else {
        Ok(())
    }
}

/// The verdict on `timestamp_ms` given what reading the clock gave.
pub open spec fn spec_validate_timestamp_with(
    timestamp_ms: u64,
    clock: Result<u64, ClockError>,
) -> Result<(), TimestampValidationError> {
    match clock {
        Ok(now_ms) => spec_validate_timestamp_at(timestamp_ms, now_ms),
        Err(e) => Err(TimestampValidationError::Clock(e)),
    }
}

/// Milliseconds since the Unix epoch by the system clock, `None` when the
/// clock is set before the epoch.
///
/// Trusted: calls `std::time::SystemTime::now` and `duration_since(UNIX_EPOCH)`
/// and takes `as_millis` of the duration. Nothing is stated of the value,
/// which depends on the machine's clock.
#[verifier::external_body]
fn system_clock_ms() -> (r: Option<u128>) {
    match std::time::SystemTime::now().duration_since(std::time::UNIX_EPOCH) {
        Ok(elapsed) => Some(elapsed.as_millis()),
        Err(_) => None,
    }
}

/// The server clock as a `u64` count of milliseconds, given what reading the
/// system clock gave: `BeforeEpoch` for a clock set before the Unix epoch,
/// `Overflow` for a count above `u64::MAX`.
pub open spec fn spec_clock_reading(elapsed_ms: Option<u128>) -> Result<u64, ClockError> {
    match elapsed_ms {
        None => Err(ClockError::BeforeEpoch),
        Some(ms) => if ms > u64::MAX {
            Err(ClockError::Overflow)
        } else {
            Ok(ms as u64)
        },
    }
}

/// Turns a reading of the system clock into a `u64` count of milliseconds.
pub fn clock_reading_ms(elapsed_ms: Option<u128>) -> (r: Result<u64, ClockError>)
    ensures
        r == spec_clock_reading(elapsed_ms),
{
    match elapsed_ms {
        None => Err(ClockError::BeforeEpoch),
        Some(ms) => if ms > u64::MAX as u128 {
            Err(ClockError::Overflow)
        } else {
            Ok(ms as u64)
        },
    }
}

/// The server clock in milliseconds since the Unix epoch, as a `u64`: the
/// conversion of whatever the system clock read.
pub(crate) fn current_timestamp_ms() -> (r: Result<u64, ClockError>)
    ensures
        exists|elapsed_ms: Option<u128>| r == #[trigger] spec_clock_reading(elapsed_ms),
{
    let elapsed_ms = system_clock_ms();
    let r = clock_reading_ms(elapsed_ms);
    assert(r == spec_clock_reading(elapsed_ms));
    r
}

/// Checks `timestamp_ms` against the current server clock.
pub fn validate_timestamp(timestamp_ms: u64) -> (r: Result<(), TimestampValidationError>)
    ensures
        exists|clock: Result<u64, ClockError>|
            r == #[trigger] spec_validate_timestamp_with(timestamp_ms, clock),
{
    let now = current_timestamp_ms();
    let r = validate_timestamp_with(timestamp_ms, now);
    assert(r == spec_validate_timestamp_with(timestamp_ms, now));
    r
}

/// Checks `timestamp_ms` against what reading the clock gave.
pub fn validate_timestamp_with(timestamp_ms: u64, clock: Result<u64, ClockError>) -> (r: Result<
    (),
    TimestampValidationError,
>)
    ensures
        r == spec_validate_timestamp_with(timestamp_ms, clock),
{
    match clock {
        Ok(now_ms) => validate_timestamp_at(timestamp_ms, now_ms),
        Err(e) => Err(TimestampValidationError::Clock(e)),
    }
}

/// Accepts `timestamp_ms` iff it is at most `now_ms + MAX_FUTURE_TIMESTAMP_DRIFT_MS`
/// (the sum saturating at `u64::MAX`).
pub fn validate_timestamp_at(timestamp_ms: u64, now_ms: u64) -> (r: Result<
    (),
    TimestampValidationError,
>)
    ensures
        r == spec_validate_timestamp_at(timestamp_ms, now_ms),
{
    if timestamp_ms > now_ms.saturating_add(MAX_FUTURE_TIMESTAMP_DRIFT_MS) {
        return Err(
            TimestampValidationError::TooFarInFuture(
                FutureTimestampError {
                    timestamp_ms,
                    now_ms,
                    max_future_drift_ms: MAX_FUTURE_TIMESTAMP_DRIFT_MS,
                },
            ),
        );
    }
    Ok(())
}

/// A timestamp is accepted exactly when it lies at most five minutes
/// (300 000 ms) after the server clock; past timestamps are always accepted.
/// A refusal reports the timestamp, the clock and the allowed drift. So a
/// timestamp accepted at some clock reading stays accepted at every later
/// one, and an earlier timestamp is accepted whenever a later one is.
pub proof fn lemma_timestamp_window(timestamp_ms: u64, now_ms: u64)
    ensures
        spec_validate_timestamp_at(timestamp_ms, now_ms) is Ok <==> timestamp_ms <= now_ms + 300_000,
        timestamp_ms <= now_ms ==> spec_validate_timestamp_at(timestamp_ms, now_ms) is Ok,
        spec_validate_timestamp_at(timestamp_ms, now_ms) is Err ==> spec_validate_timestamp_at(
            timestamp_ms,
            now_ms,
        ) == Err::<(), TimestampValidationError>(
            TimestampValidationError::TooFarInFuture(
                FutureTimestampError { timestamp_ms, now_ms, max_future_drift_ms: 300_000 },
            ),
        ),
        forall|later_ms: u64|
            now_ms <= later_ms && spec_validate_timestamp_at(timestamp_ms, now_ms) is Ok
                ==> #[trigger] spec_validate_timestamp_at(timestamp_ms, later_ms) is Ok,
        forall|earlier_ts: u64|
            earlier_ts <= timestamp_ms && spec_validate_timestamp_at(timestamp_ms, now_ms) is Ok
                ==> #[trigger] spec_validate_timestamp_at(earlier_ts, now_ms) is Ok,
{
}

} // verus!
