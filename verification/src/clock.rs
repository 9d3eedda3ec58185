//! The wall clock.
use crate::memory::Timestamp;
use vstd::prelude::*;

verus! {

/// A point in time of the system's clock.
#[verifier::external_type_specification]
#[verifier::external_body]
pub struct ExSystemTime(std::time::SystemTime);

/// The error for a clock that stands before the epoch.
#[verifier::external_type_specification]
#[verifier::external_body]
pub struct ExSystemTimeError(std::time::SystemTimeError);

/// `std::time::SystemTime::now` reads the clock; nothing is known of the result.
#[verifier::external_body]
fn read_clock() -> (res: std::time::SystemTime) {
    std::time::SystemTime::now()
}

/// `std::time::SystemTime::duration_since` the Unix epoch: an error where the
/// clock stands before it.
#[verifier::external_body]
fn since_epoch(at: std::time::SystemTime) -> (res: Result<
    std::time::Duration,
    std::time::SystemTimeError,
>) {
    at.duration_since(std::time::UNIX_EPOCH)
}

/// `std::time::Duration::as_micros` gives the whole microseconds of a span.
#[verifier::external_body]
fn whole_micros(span: std::time::Duration) -> (res: u128) {
    span.as_micros()
}

/// The timestamp for a reading in microseconds since the Unix epoch: the 64
/// lowest bits, 0 where the clock stands before the epoch.
pub fn timestamp_of(micros: Option<u128>) -> (res: Timestamp)
    ensures
        res == match micros {
            Some(m) => m as int % 0x1_0000_0000_0000_0000,
            None => 0,
        },
{
    match micros {
        Some(m) => (m % 0x1_0000_0000_0000_0000) as u64,
        None => 0,
    }
}

/// The current time in microseconds since the Unix epoch: what `timestamp_of`
/// makes of the clock's reading. The clock may read anything, so nothing is
/// stated of the value.
pub fn now_us() -> Timestamp {
    match since_epoch(read_clock()) {
        Ok(span) => timestamp_of(Some(whole_micros(span))),
        Err(_) => timestamp_of(None),
    }
}

} // verus!
