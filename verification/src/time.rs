//! Wall-clock readings. The clock is outside the library: nothing is known
//! of the values it gives, and every function here is correct for any of them.

use vstd::prelude::*;

verus! {

#[verifier::external_type_specification]
#[verifier::external_body]
pub struct ExSystemTime(std::time::SystemTime);

/// Calls `std::time::SystemTime::now`. The result is the current clock
/// reading; nothing is claimed of it.
#[verifier::external_body]
fn system_time_now() -> std::time::SystemTime {
    std::time::SystemTime::now()
}

/// Calls `SystemTime::duration_since(UNIX_EPOCH)`, keeping the elapsed
/// duration and dropping the error of a clock set before 1970. Nothing is
/// claimed of the value.
#[verifier::external_body]
fn since_unix_epoch(t: std::time::SystemTime) -> Option<core::time::Duration> {
    t.duration_since(std::time::UNIX_EPOCH).ok()
}

/// Calls `Duration::as_millis`. Nothing is claimed of the value.
#[verifier::external_body]
fn duration_as_millis(d: core::time::Duration) -> u128 {
    d.as_millis()
}

/// Calls `Duration::as_secs`. Nothing is claimed of the value.
#[verifier::external_body]
fn duration_as_secs(d: core::time::Duration) -> u64 {
    d.as_secs()
}

/// Converts a millisecond count to `u64`, saturating at `u64::MAX`.
pub fn saturate_millis(millis: u128) -> (ms: u64)
    ensures
        ms == if millis > u64::MAX { u64::MAX as int } else { millis as int },
{
    if millis > u64::MAX as u128 {
        u64::MAX
    } else {
        millis as u64
    }
}

/// The millisecond timestamp of a clock reading: the milliseconds elapsed
/// since the Unix epoch, saturating at `u64::MAX`, or 0 when the clock was
/// set before 1970 (`None`).
pub open spec fn millis_timestamp(elapsed: Option<u128>) -> u64 {
    match elapsed {
        Some(m) => if m > u64::MAX as u128 { u64::MAX } else { m as u64 },
        None => 0,
    }
}

/// Computes `millis_timestamp`.
pub fn millis_or_zero(elapsed: Option<u128>) -> (ms: u64)
    ensures
        ms == millis_timestamp(elapsed),
{
    match elapsed {
        Some(m) => saturate_millis(m),
        None => 0,
    }
}

/// The seconds timestamp of a clock reading: the whole seconds elapsed since
/// the Unix epoch, or 0 when the clock was set before 1970 (`None`).
pub fn secs_or_zero(elapsed: Option<u64>) -> (s: u64)
    ensures
        s == match elapsed {
            Some(v) => v,
            None => 0,
        },
{
    match elapsed {
        Some(v) => v,
        None => 0,
    }
}

/// Milliseconds since the Unix epoch; 0 for a clock set before 1970 and
/// `u64::MAX` past the range of `u64` (see `millis_or_zero`). The clock
/// reading itself is outside the library, so nothing is claimed of which
/// value comes back.
pub fn unix_time_ms() -> u64 {
    let elapsed = match since_unix_epoch(system_time_now()) {
        Some(d) => Some(duration_as_millis(d)),
        None => None,
    };
    millis_or_zero(elapsed)
}

/// Whole seconds since the Unix epoch, 0 for a clock set before 1970 (see
/// `secs_or_zero`). Nothing is claimed of the clock reading itself.
pub fn unix_time_secs() -> u64 {
    let elapsed = match since_unix_epoch(system_time_now()) {
        Some(d) => Some(duration_as_secs(d)),
        None => None,
    };
    secs_or_zero(elapsed)
}

/// The time the launcher records for a spawn or exit it observed.
pub fn launcher_observed_time_ms() -> u64 {
    unix_time_ms()
}

} // verus!
