//! The system clock: the current instant as whole seconds and nanoseconds
//! since the epoch, before the epoch too.

use vstd::prelude::*;
use std::time::{Duration, SystemTime, SystemTimeError};

verus! {

/// `std::time::SystemTime`, an instant of the system clock.
#[verifier::external_type_specification]
#[verifier::external_body]
pub struct ExSystemTime(SystemTime);

/// `std::time::SystemTimeError`, how far an instant lies before another.
#[verifier::external_type_specification]
#[verifier::external_body]
pub struct ExSystemTimeError(SystemTimeError);

/// A reading of the system clock.
pub struct ClockReading {
    /// Whole seconds since the epoch, rounded down.
    pub seconds: i64,
    /// Nanoseconds since the epoch, where they fit in an `i64`.
    pub nanos: Option<i64>,
}

/// `SystemTime::now`: the current instant. Nothing is stated of it: it is
/// the clock.
#[verifier::external_body]
fn system_now() -> SystemTime {
    SystemTime::now()
}

/// `SystemTime::duration_since(UNIX_EPOCH)`: how far the instant lies after
/// the epoch, or an error holding how far it lies before. Nothing is stated:
/// the instant is opaque here.
#[verifier::external_body]
fn since_epoch(t: &SystemTime) -> Result<Duration, SystemTimeError> {
    t.duration_since(SystemTime::UNIX_EPOCH)
}

/// `SystemTimeError::duration`: how far the instant lies before the epoch.
/// Nothing is stated: the error is opaque here.
#[verifier::external_body]
fn error_duration(e: &SystemTimeError) -> Duration {
    e.duration()
}

/// `Duration::as_secs`: the whole seconds of a duration. Nothing is stated:
/// the duration is opaque here.
#[verifier::external_body]
fn whole_seconds(d: &Duration) -> u64 {
    d.as_secs()
}

/// `Duration::subsec_nanos`: the fractional part of a duration, in
/// nanoseconds. Trusted: it is less than one billion, as its documentation
/// says.
#[verifier::external_body]
fn fraction_nanos(d: &Duration) -> (r: u32)
    ensures
        r < 1_000_000_000,
{
    d.subsec_nanos()
}

/// The whole seconds, rounded down, of an instant `secs` seconds and `nsec`
/// nanoseconds after the epoch (`after`) or before it.
pub open spec fn signed_seconds(after: bool, secs: int, nsec: int) -> int {
    if after {
        secs
    } else if nsec == 0 {
        -secs
    } else {
        -secs - 1
    }
}

/// The nanoseconds past the whole second of [`signed_seconds`].
pub open spec fn subsecond(after: bool, nsec: int) -> int {
    if after || nsec == 0 {
        nsec
    } else {
        1_000_000_000 - nsec
    }
}

/// The reading of an instant `secs` seconds and `nsec` nanoseconds after the
/// epoch (`after`) or before it; `None` where its seconds do not fit in an
/// `i64`.
pub open spec fn reading_from(after: bool, secs: int, nsec: int) -> Option<ClockReading> {
    let s = signed_seconds(after, secs, nsec);
    let n = s * 1_000_000_000 + subsecond(after, nsec);
    if i64::MIN <= s && s <= i64::MAX {
        Some(
            ClockReading {
                seconds: s as i64,
                nanos: if i64::MIN <= n && n <= i64::MAX {
                    Some(n as i64)
                } else {
                    None
                },
            },
        )
    } else {
        None
    }
}

/// A reading whose nanosecond count there is holds, as its seconds, that
/// count divided by one billion and rounded down.
pub open spec fn is_consistent(c: ClockReading) -> bool {
    c.nanos matches Some(n) ==> c.seconds as int == (n as int) / 1_000_000_000
}

/// The reading of an instant `secs` seconds and `nsec` nanoseconds after the
/// epoch (`after`) or before it.
pub fn reading_of(after: bool, secs: u64, nsec: u32) -> (r: Option<ClockReading>)
    requires
        nsec < 1_000_000_000,
    ensures
        r == reading_from(after, secs as int, nsec as int),
        r matches Some(c) ==> is_consistent(c),
{
    let sec: i128 = secs as i128;
    let ns: i128 = nsec as i128;
    let s: i128 = if after {
        sec
    } else if ns == 0 {
        -sec
    } else {
        -sec - 1
    };
    let sub: i128 = if after || ns == 0 {
        ns
    } else {
        1_000_000_000 - ns
    };
    if s < i64::MIN as i128 || s > i64::MAX as i128 {
        return None;
    }
    let n: i128 = s * 1_000_000_000 + sub;
    assert(0 <= sub < 1_000_000_000);
    assert(n / 1_000_000_000 == s) by (nonlinear_arith)
        requires
            n == s * 1_000_000_000 + sub,
            0 <= sub < 1_000_000_000,
    ;
    let nanos: Option<i64> = if n < i64::MIN as i128 || n > i64::MAX as i128 {
        None
    } else {
        Some(n as i64)
    };
    Some(ClockReading { seconds: s as i64, nanos })
}

/// Reads the system clock; `None` where its seconds do not fit in an `i64`.
/// Nothing is stated of the instant: it is the clock's.
pub(crate) fn read_clock() -> (r: Option<ClockReading>)
    ensures
        r matches Some(c) ==> is_consistent(c),
{
    let now = system_now();
    match since_epoch(&now) {
        Ok(d) => reading_of(true, whole_seconds(&d), fraction_nanos(&d)),
        Err(e) => {
            let d = error_duration(&e);
            reading_of(false, whole_seconds(&d), fraction_nanos(&d))
        },
    }
}

} // verus!
