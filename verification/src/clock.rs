//! The system clock.
use vstd::prelude::*;

verus! {

/// Nanoseconds since the Unix epoch, from `SystemTime::now` measured against
/// `UNIX_EPOCH` by `duration_since`; `None` when the clock is set before it.
/// Nothing is said of the number: it depends on when the call is made.
#[verifier::external_body]
pub(crate) fn clock_nanos() -> (r: Option<u128>) {
    match std::time::SystemTime::now().duration_since(std::time::UNIX_EPOCH) {
        Ok(d) => Some(d.as_nanos()),
        Err(_) => None,
    }
}

/// The milliseconds of a clock reading, in 64 bits.
pub open spec fn millis_of(nanos: u128) -> int {
    (nanos / 1_000_000) as int % 0x1_0000_0000_0000_0000
}

/// The milliseconds of a clock reading.
pub fn millis(nanos: u128) -> (r: u64)
    ensures
        r == millis_of(nanos),
{
    ((nanos / 1_000_000) % 0x1_0000_0000_0000_0000) as u64
}

/// The milliseconds of a reading of the clock, if there is one.
pub fn millis_at(nanos: Option<u128>) -> (r: Option<u64>)
    ensures
        match (nanos, r) {
            (Some(n), Some(ms)) => ms == millis_of(n),
            (None, None) => true,
            _ => false,
        },
{
    match nanos {
        Some(n) => Some(millis(n)),
        None => None,
    }
}

/// Current Unix time in milliseconds; `None` when the clock is set before 1970.
/// Any number can come back: it is what [`millis_at`] gives for the clock's
/// reading.
pub fn unix_ms() -> (r: Option<u64>) {
    millis_at(clock_nanos())
}

/// A million nanoseconds make a millisecond, and what is left over does not
/// count.
pub proof fn law_millis_count_up(nanos: u128, ms: u64)
    requires
        ms as int * 1_000_000 <= nanos < (ms as int + 1) * 1_000_000,
    ensures
        millis_of(nanos) == ms,
{
}

} // verus!
