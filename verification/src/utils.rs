//! Wall-clock helpers for stage timing. The clock itself is outside the
//! library; the conversion to a bounded millisecond count is checked here.

use vstd::prelude::*;
use std::time::SystemTime;

verus! {

#[verifier::external_type_specification]
#[verifier::external_body]
pub struct ExSystemTime(SystemTime);

/// Why a time difference cannot be reported.
#[derive(Debug, Clone, Copy, PartialEq, Eq)]
pub enum TimeError {
    /// The clock moved backwards between the two readings.
    ClockDrift,
    /// The elapsed milliseconds do not fit the report's counter.
    OutOfRange,
}

/// Relies on std's `SystemTime::now`: a reading of the wall clock. Nothing
/// can be promised of its value.
#[verifier::external_body]
fn system_time_now() -> SystemTime {
    SystemTime::now()
}

/// Relies on std's `SystemTime::duration_since`: the elapsed milliseconds
/// between two readings, or nothing when the end lies before the start.
/// The readings are opaque, so nothing is promised of the value.
#[verifier::external_body]
fn millis_since(start: &SystemTime, end: &SystemTime) -> Option<u128> {
    match end.duration_since(*start) {
        Ok(duration) => Some(duration.as_millis()),
        Err(_) => None,
    }
}

/// Classifies the clock's answer: an absent difference means the clock
/// moved backwards, a count beyond the report's counter is out of range,
/// and anything else is returned as is.
pub fn timing_from_millis(ms: Option<u128>) -> (r: Result<usize, TimeError>)
    ensures
        match ms {
            None => r == Err::<usize, TimeError>(TimeError::ClockDrift),
            Some(m) => if m <= usize::MAX as u128 {
                r == Ok::<usize, TimeError>(m as usize)
            } else {
                r == Err::<usize, TimeError>(TimeError::OutOfRange)
            },
        },
{
    match ms {
        Some(m) => {
            if m <= usize::MAX as u128 {
                Ok(m as usize)
            } else {
                Err(TimeError::OutOfRange)
            }
        },
        None => Err(TimeError::ClockDrift),
    }
}

/// The milliseconds elapsed since an earlier clock reading: fails when
/// the clock moved backwards or the count does not fit.
pub fn compute_time_diff(start_time: SystemTime) -> (r: Result<usize, TimeError>)
    ensures
        r is Err ==> (r == Err::<usize, TimeError>(TimeError::ClockDrift) || r == Err::<
            usize,
            TimeError,
        >(TimeError::OutOfRange)),
{
    let now = system_time_now();
    timing_from_millis(millis_since(&start_time, &now))
}

} // verus!
