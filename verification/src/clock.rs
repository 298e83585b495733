//! The wall clock.

use vstd::prelude::*;
use crate::task::Timestamp;
use std::time::SystemTime;

verus! {

#[verifier::external_type_specification]
#[verifier::external_body]
pub struct ExSystemTime(std::time::SystemTime);

/// Calls `SystemTime::now`: the system's time at this moment. Which time it
/// reads is not stated.
#[verifier::external_body]
fn system_now() -> (t: SystemTime) {
    SystemTime::now()
}

/// Calls `SystemTime::duration_since` with `UNIX_EPOCH`: `Ok` with the whole
/// seconds and the nanoseconds past them when `t` lies at or after the epoch;
/// otherwise the call's error, whose `duration` is how far `t` lies before
/// the epoch, as `Err` with its seconds and nanoseconds. std documents that
/// the nanoseconds are a fraction of a second, below one billion.
#[verifier::external_body]
fn since_epoch(t: &SystemTime) -> (r: Result<(u64, u32), (u64, u32)>)
    ensures
        match r {
            Ok(p) => p.1 < 1_000_000_000,
            Err(p) => p.1 < 1_000_000_000,
        },
{
    match t.duration_since(std::time::UNIX_EPOCH) {
        Ok(d) => Ok((d.as_secs(), d.subsec_nanos())),
        Err(e) => Err((e.duration().as_secs(), e.duration().subsec_nanos())),
    }
}

/// The time since the Unix epoch of a clock reading: `Ok` a whole number of
/// seconds and nanoseconds after the epoch, `Err` that much before it. A time
/// before the epoch has negative seconds and the nanoseconds that follow
/// them. A reading beyond what a signed 64-bit count of seconds holds stays
/// at the last second it holds.
pub open spec fn timestamp_of(reading: Result<(u64, u32), (u64, u32)>) -> Timestamp {
    match reading {
        Ok((s, n)) => if s <= i64::MAX {
            Timestamp { secs: s as i64, nanos: n }
        } else {
            Timestamp { secs: i64::MAX, nanos: n }
        },
        Err((s, n)) => if s >= i64::MAX {
            Timestamp { secs: i64::MIN, nanos: 0 }
        } else if n == 0 {
            Timestamp { secs: -(s as int) as i64, nanos: 0 }
        } else {
            Timestamp { secs: (-(s as int) - 1) as i64, nanos: (1_000_000_000 - n) as u32 }
        },
    }
}

/// Turns a clock reading into a timestamp, as [`timestamp_of`] says.
pub fn timestamp_from_reading(reading: Result<(u64, u32), (u64, u32)>) -> (t: Timestamp)
    requires
        match reading {
            Ok(p) => p.1 < 1_000_000_000,
            Err(p) => p.1 < 1_000_000_000,
        },
    ensures
        t == timestamp_of(reading),
        t.nanos < 1_000_000_000,
{
    match reading {
        Ok((s, n)) => {
            if s <= i64::MAX as u64 {
                Timestamp { secs: s as i64, nanos: n }
            } else {
                Timestamp { secs: i64::MAX, nanos: n }
            }
        },
        Err((s, n)) => {
            if s >= i64::MAX as u64 {
                Timestamp { secs: i64::MIN, nanos: 0 }
            } else if n == 0 {
                let si = s as i64;
                Timestamp { secs: -si, nanos: 0 }
            } else {
                let si = s as i64;
                Timestamp { secs: -si - 1, nanos: 1_000_000_000 - n }
            }
        },
    }
}

/// The current time since the Unix epoch, before it too; the time itself
/// comes from the system.
pub fn now() -> (t: Timestamp)
    ensures
        t.nanos < 1_000_000_000,
        exists|reading: Result<(u64, u32), (u64, u32)>| t == #[trigger] timestamp_of(reading),
{
    let st = system_now();
    let reading = since_epoch(&st);
    timestamp_from_reading(reading)
}

} // verus!
