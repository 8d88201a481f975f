//! The clock, entry ages and the coarse "how long ago" buckets shown beside entries.

use vstd::prelude::*;

use crate::sys::{duration_nanos, error_duration, since_epoch, system_now};

verus! {

/// `x` held to the range of `i64`.
pub open spec fn saturated(x: int) -> i64 {
    if x > i64::MAX {
        i64::MAX
    } else if x < i64::MIN {
        i64::MIN
    } else {
        x as i64
    }
}

/// A clock reading (nanoseconds after the epoch, or before it) on the signed
/// scale of nanoseconds since the epoch, held to the range of `i64`.
pub open spec fn reading_nanos(reading: Result<u128, u128>) -> i64 {
    match reading {
        Ok(after) => saturated(after as int),
        Err(before) => saturated(-(before as int)),
    }
}

/// A clock reading in whole milliseconds since the epoch, rounded down (so
/// an instant before the epoch rounds away from zero), held to the range of
/// `i64`.
pub open spec fn reading_millis(reading: Result<u128, u128>) -> i64 {
    match reading {
        Ok(after) => saturated(after as int / 1_000_000),
        Err(before) => saturated((-(before as int)) / 1_000_000),
    }
}

/// Turns a reading of the clock against the epoch into signed nanoseconds.
pub fn nanos_from_reading(reading: Result<u128, u128>) -> (r: i64)
    ensures
        r == reading_nanos(reading),
{
    match reading {
        Ok(after) => if after > i64::MAX as u128 {
            i64::MAX
        } else {
            after as i64
        },
        Err(before) => if before > i64::MAX as u128 {
            i64::MIN
        } else {
            -(before as i64)
        },
    }
}

/// Turns a reading of the clock against the epoch into whole milliseconds,
/// rounded down.
pub fn millis_from_reading(reading: Result<u128, u128>) -> (r: i64)
    ensures
        r == reading_millis(reading),
{
    match reading {
        Ok(after) => {
            let q = after / 1_000_000;
            if q > i64::MAX as u128 {
                i64::MAX
            } else {
                q as i64
            }
        },
        Err(before) => {
            let q = before / 1_000_000;
            let up: u128 = if before % 1_000_000 == 0 {
                q
            } else {
                q + 1
            };
            proof {
                let b = before as int;
                assert((-b) / 1_000_000 == -(up as int)) by (nonlinear_arith)
                    requires
                        q == b / 1_000_000,
                        b >= 0,
                        up == (if b % 1_000_000 == 0 {
                            q as int
                        } else {
                            q + 1
                        }),
                {
                }
            }
            if up > i64::MAX as u128 {
                i64::MIN
            } else {
                -(up as i64)
            }
        },
    }
}

/// The machine's clock read against the Unix epoch, in whole nanoseconds:
/// `Ok` with the time since the epoch, `Err` with the time before it when the
/// clock is set earlier.
pub fn clock_reading() -> Result<u128, u128> {
    let t = system_now();
    match since_epoch(&t) {
        Ok(d) => Ok(duration_nanos(&d)),
        Err(e) => Err(duration_nanos(&error_duration(&e))),
    }
}

/// The current time in milliseconds since the Unix epoch, by the machine's
/// clock.
pub fn now_millis() -> (r: i64)
    ensures
        exists|reading: Result<u128, u128>| r == reading_millis(reading),
{
    let reading = clock_reading();
    millis_from_reading(reading)
}

/// The current time in nanoseconds since the Unix epoch, by the machine's
/// clock.
pub fn now_nanos() -> (r: i64)
    ensures
        exists|reading: Result<u128, u128>| r == reading_nanos(reading),
{
    let reading = clock_reading();
    nanos_from_reading(reading)
}

/// Integer division that truncates toward zero, as Rust's `/` and chrono's
/// `num_seconds` do.
pub open spec fn trunc_div(a: int, b: int) -> int {
    if a >= 0 {
        a / b
    } else {
        -((-a) / b)
    }
}

/// Whole seconds from `from_ms` to `now_ms` (milliseconds since the epoch),
/// truncated toward zero.
pub open spec fn age_seconds(from_ms: i64, now_ms: i64) -> int {
    trunc_div(now_ms - from_ms, 1000)
}

/// Whole seconds elapsed between two instants given in milliseconds.
pub fn age_secs_between(from_ms: i64, now_ms: i64) -> (r: i64)
    ensures
        r == age_seconds(from_ms, now_ms),
{
    let d: i128 = now_ms as i128 - from_ms as i128;
    let q: i128 = if d >= 0 {
        d / 1000
    } else {
        -((-d) / 1000)
    };
    q as i64
}

/// Whole seconds from `from_ns` to `now_ns` (nanoseconds since the epoch),
/// truncated toward zero.
pub open spec fn age_seconds_ns(from_ns: i64, now_ns: i64) -> int {
    trunc_div(now_ns - from_ns, 1_000_000_000)
}

/// Whole seconds elapsed between two instants given in nanoseconds.
pub fn age_secs_between_ns(from_ns: i64, now_ns: i64) -> (r: i64)
    ensures
        r == age_seconds_ns(from_ns, now_ns),
{
    let d: i128 = now_ns as i128 - from_ns as i128;
    let q: i128 = if d >= 0 {
        d / 1_000_000_000
    } else {
        -((-d) / 1_000_000_000)
    };
    q as i64
}

/// How long ago something happened, in the unit that the list shows.
#[derive(Debug, Clone, Copy, PartialEq, Eq, Structural)]
pub enum RelativeTime {
    JustNow,
    MinutesAgo(i64),
    HoursAgo(i64),
    DaysAgo(i64),
}

/// The bucket for an age of `secs` seconds: under a minute is "just now",
/// then whole minutes below an hour, whole hours below a day, whole days.
pub open spec fn relative_of(secs: i64) -> RelativeTime {
    if secs < 60 {
        RelativeTime::JustNow
    } else if secs < 3_600 {
        RelativeTime::MinutesAgo((secs / 60) as i64)
    } else if secs < 86_400 {
        RelativeTime::HoursAgo((secs / 3_600) as i64)
    } else {
        RelativeTime::DaysAgo((secs / 86_400) as i64)
    }
}

/// Classifies an age in seconds.
pub fn relative_time(secs: i64) -> (r: RelativeTime)
    ensures
        r == relative_of(secs),
{
    if secs < 60 {
        RelativeTime::JustNow
    } else if secs < 3_600 {
        RelativeTime::MinutesAgo(secs / 60)
    } else if secs < 86_400 {
        RelativeTime::HoursAgo(secs / 3_600)
    } else {
        RelativeTime::DaysAgo(secs / 86_400)
    }
}

} // verus!
