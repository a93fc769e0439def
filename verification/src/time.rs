//! The clock that counts from boot, suspend included.

use vstd::prelude::*;

verus! {

/// Why a reading of the clock is refused.
#[derive(Clone, Copy, Debug, PartialEq, Eq, Structural)]
pub enum ClockError {
    NegativeSeconds,
    NegativeNanoseconds,
    /// The milliseconds do not fit in 64 bits.
    TooLarge,
}

impl ClockError {
    /// The error in words.
    pub fn message(&self) -> (r: String)
        ensures
            r@ == (match *self {
                ClockError::NegativeSeconds => "CLOCK_BOOTTIME returned negative seconds"@,
                ClockError::NegativeNanoseconds => "CLOCK_BOOTTIME returned negative nanoseconds"@,
                ClockError::TooLarge => "CLOCK_BOOTTIME exceeds u64 milliseconds"@,
            }),
    {
        match self {
            ClockError::NegativeSeconds => "CLOCK_BOOTTIME returned negative seconds".to_owned(),
            ClockError::NegativeNanoseconds =>
                "CLOCK_BOOTTIME returned negative nanoseconds".to_owned(),
            ClockError::TooLarge => "CLOCK_BOOTTIME exceeds u64 milliseconds".to_owned(),
        }
    }
}

/// The whole milliseconds in a time of seconds and nanoseconds.
pub open spec fn milliseconds(seconds: int, nanos: int) -> int {
    seconds * 1_000 + nanos / 1_000_000
}

/// The milliseconds since boot, from a reading of the clock.
pub fn boottime_ms(seconds: i64, nanos: i64) -> (r: Result<u64, ClockError>)
    ensures
        r == (if seconds < 0 {
            Err::<u64, ClockError>(ClockError::NegativeSeconds)
        } else if nanos < 0 {
            Err(ClockError::NegativeNanoseconds)
        } else if milliseconds(seconds as int, nanos as int) > u64::MAX {
            Err(ClockError::TooLarge)
        } else {
            Ok(milliseconds(seconds as int, nanos as int) as u64)
        }),
        r matches Ok(ms) ==> ms * 1_000_000 <= seconds * 1_000_000_000 + nanos < (ms + 1)
            * 1_000_000,
{
    if seconds < 0 {
        return Err(ClockError::NegativeSeconds);
    }
    if nanos < 0 {
        return Err(ClockError::NegativeNanoseconds);
    }
    let total: u128 = seconds as u128 * 1_000 + nanos as u128 / 1_000_000;
    if total > u64::MAX as u128 {
        Err(ClockError::TooLarge)
    } else {
        Ok(total as u64)
    }
}

/// The whole milliseconds in a time are those that have passed: not one more fits.
pub proof fn milliseconds_are_whole(seconds: int, nanos: int)
    requires
        0 <= seconds,
        0 <= nanos,
    ensures
        milliseconds(seconds, nanos) * 1_000_000 <= seconds * 1_000_000_000 + nanos,
        seconds * 1_000_000_000 + nanos < (milliseconds(seconds, nanos) + 1) * 1_000_000,
{
}

} // verus!
