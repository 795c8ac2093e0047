use broker::error::ClockError;
use broker::units::teltonika::validations::{
    clock_reading_ms, validate_timestamp, validate_timestamp_at, validate_timestamp_with, FutureTimestampError,
    TimestampValidationError, MAX_FUTURE_TIMESTAMP_DRIFT_MS,
};

#[test]
fn accepts_timestamp_within_future_drift_window() {
    let now_ms = 1_700_000_000_000;
    let timestamp_ms = now_ms + MAX_FUTURE_TIMESTAMP_DRIFT_MS;

    assert!(validate_timestamp_at(timestamp_ms, now_ms).is_ok());
}

#[test]
fn rejects_timestamp_beyond_future_drift_window() {
    let now_ms = 1_700_000_000_000;
    let timestamp_ms = now_ms + MAX_FUTURE_TIMESTAMP_DRIFT_MS + 1;

    let err = validate_timestamp_at(timestamp_ms, now_ms).unwrap_err();

    assert!(matches!(err, TimestampValidationError::TooFarInFuture(_)));
}

#[test]
fn reports_the_refused_timestamp() {
    let err = validate_timestamp_at(1_000_000, 0).unwrap_err();
    assert_eq!(
        err,
        TimestampValidationError::TooFarInFuture(FutureTimestampError {
            timestamp_ms: 1_000_000,
            now_ms: 0,
            max_future_drift_ms: 300_000,
        })
    );
}

#[test]
fn saturates_near_the_end_of_time() {
    assert!(validate_timestamp_at(u64::MAX, u64::MAX - 1).is_ok());
}

#[test]
fn passes_on_clock_errors() {
    assert_eq!(
        validate_timestamp_with(0, Err(ClockError::BeforeEpoch)),
        Err(TimestampValidationError::Clock(ClockError::BeforeEpoch))
    );
    assert_eq!(validate_timestamp_with(5, Ok(5)), Ok(()));
}

#[test]
fn uses_the_real_clock() {
    assert!(validate_timestamp(0).is_ok());
    assert!(matches!(
        validate_timestamp(u64::MAX),
        Err(TimestampValidationError::TooFarInFuture(_))
    ));
}

#[test]
fn converts_clock_readings() {
    assert_eq!(clock_reading_ms(None), Err(ClockError::BeforeEpoch));
    assert_eq!(clock_reading_ms(Some(1_700_000_000_000)), Ok(1_700_000_000_000));
    assert_eq!(clock_reading_ms(Some(u64::MAX as u128)), Ok(u64::MAX));
    assert_eq!(clock_reading_ms(Some(u64::MAX as u128 + 1)), Err(ClockError::Overflow));
}
