//! Wall-clock integration: reading the current time as milliseconds
//! since the Unix epoch, and mapping identifiers back to instants.
//!
//! The clock is an outside dependency. Every reading is handed to the
//! core as a plain millisecond count, so everything downstream of a
//! reading is verified for every value the clock could produce.

use crate::{spec_from_parts, Ulid, MAX_TIMESTAMP};
use std::time::{Duration, SystemTime};
use vstd::prelude::*;

verus! {

#[verifier::external_type_specification]
#[verifier::external_body]
pub struct ExSystemTime(SystemTime);

/// Relies on `std::time::SystemTime::now`: the current wall-clock time.
/// The reading is converted to whole milliseconds since the Unix epoch
/// (zero for a clock set before the epoch). Two calls need not agree,
/// so nothing is promised of the value.
#[verifier::external_body]
pub(crate) fn now_ms() -> u128 {
    SystemTime::now().duration_since(SystemTime::UNIX_EPOCH).unwrap_or(Duration::ZERO).as_millis()
}

/// Relies on `std::time::SystemTime::duration_since`: the given instant
/// as whole milliseconds since the Unix epoch (zero for earlier
/// instants). The instant is opaque here, so nothing is promised of the
/// value.
#[verifier::external_body]
pub(crate) fn systemtime_millis(datetime: SystemTime) -> u128 {
    datetime.duration_since(SystemTime::UNIX_EPOCH).unwrap_or(Duration::ZERO).as_millis()
}

/// Relies on `std::time::Duration::from_millis` and `SystemTime`
/// addition: the instant exactly `ms` milliseconds after the Unix
/// epoch. A 48-bit count of milliseconds stays far below the range
/// where that addition could overflow.
#[verifier::external_body]
fn epoch_plus_millis(ms: u64) -> SystemTime
    requires
        ms <= MAX_TIMESTAMP,
{
    SystemTime::UNIX_EPOCH + Duration::from_millis(ms)
}

impl Ulid {
    /// Creates a new Ulid with the current time (UTC) and a fresh
    /// random payload. The clock reading is truncated to 48 bits and
    /// the payload to 80, as `from_parts` does.
    pub fn new() -> (r: Ulid)
        ensures
            exists|t: u64, rand: u128| r.0 == spec_from_parts(t, rand),
    {
        Ulid::from_millis_ts(now_ms())
    }

    /// Creates a new Ulid with the given datetime and a fresh random
    /// payload. Times before the Unix epoch are read as the epoch
    /// itself; times past the 48-bit range are truncated.
    pub fn from_datetime(datetime: SystemTime) -> (r: Ulid)
        ensures
            exists|t: u64, rand: u128| r.0 == spec_from_parts(t, rand),
    {
        Ulid::from_millis_ts(systemtime_millis(datetime))
    }

    /// Creates a new Ulid from a millisecond reading (truncated to 48
    /// bits) and a fresh random payload.
    fn from_millis_ts(timestamp: u128) -> (r: Ulid)
        ensures
            exists|t: u64, rand: u128|
                r.0 == spec_from_parts(t, rand) && t == (timestamp & 0xFFFF_FFFF_FFFF) as u64,
    {
        let timebits = (timestamp & 0xFFFF_FFFF_FFFF) as u64;
        let random = ((crate::rng::random_u16() as u128) << 64) | (crate::rng::random_u64() as u128);
        Ulid::from_parts(timebits, random)
    }

    /// Gets the datetime at which this Ulid was created, accurate to
    /// one millisecond.
    pub fn datetime(&self) -> SystemTime {
        epoch_plus_millis(self.timestamp_ms())
    }
}

} // verus!
