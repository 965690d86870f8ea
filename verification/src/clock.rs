//! The time in milliseconds.

use core::time::Duration;
use std::time::SystemTime;
use vstd::prelude::*;

verus! {

/// The whole milliseconds in a length of time.
pub uninterp spec fn whole_millis(d: Duration) -> u128;

/// `Duration::as_millis`: the number of whole milliseconds, which depends on
/// the length of time alone.
pub assume_specification[ Duration::as_millis ](d: &Duration) -> (r: u128)
    ensures
        r == whole_millis(*d),
;

/// `std::time::SystemTime`: a reading of the clock.
#[verifier::external_type_specification]
#[verifier::external_body]
pub struct ExSystemTime(SystemTime);

/// `SystemTime::now`: what the clock shows, which is not for a contract to say.
pub assume_specification[ SystemTime::now ]() -> SystemTime;

/// The time from the Unix epoch to a reading of the clock; none if the reading
/// lies before the epoch.
pub uninterp spec fn since_epoch_of(reading: SystemTime) -> Option<Duration>;

/// `SystemTime::duration_since` the Unix epoch: the time from the epoch to the
/// reading, which depends on the reading alone; nothing if the reading lies
/// before the epoch.
#[verifier::external_body]
fn since_epoch(reading: SystemTime) -> (r: Option<Duration>)
    ensures
        r == since_epoch_of(reading),
{
    reading.duration_since(std::time::UNIX_EPOCH).ok()
}

/// A timestamp for a time since the epoch: its low 64 bits; zero if there is
/// none.
pub fn timestamp(millis: Option<u128>) -> (r: u64)
    ensures
        match millis {
            Some(m) => r == m % 0x1_0000_0000_0000_0000,
            None => r == 0,
        },
{
    match millis {
        Some(m) => {
            assert(#[verifier::truncate] (m as u64) == m % 0x1_0000_0000_0000_0000u128)
                by (bit_vector);
            #[verifier::truncate]
            (m as u64)
        },
        None => 0,
    }
}

/// The timestamp for a reading of the clock: the low 64 bits of the whole
/// milliseconds since the Unix epoch; zero for a reading before it.
pub open spec fn stamp(reading: SystemTime) -> int {
    match since_epoch_of(reading) {
        Some(d) => whole_millis(d) as int % 0x1_0000_0000_0000_0000,
        None => 0,
    }
}

/// The milliseconds since the Unix epoch, by the machine's clock: the timestamp
/// for a reading that the clock gave.
pub fn now_ms() -> (r: u64)
    ensures
        exists|reading: SystemTime|
            call_ensures(SystemTime::now, (), reading) && r == #[trigger] stamp(reading),
{
    let reading: SystemTime = SystemTime::now();
    let r: u64 = match since_epoch(reading) {
        Some(d) => timestamp(Some(d.as_millis())),
        None => timestamp(None),
    };
    assert(r == stamp(reading));
    r
}

/// A reading's timestamp is the number of whole milliseconds since the epoch, as
/// long as 64 bits hold it; a reading before the epoch has the timestamp zero.
pub proof fn law_what_a_timestamp_counts(reading: SystemTime, d: Duration)
    ensures
        since_epoch_of(reading) == Some(d) && whole_millis(d) <= u64::MAX ==> stamp(reading)
            == whole_millis(d),
        since_epoch_of(reading) is None ==> stamp(reading) == 0,
        0 <= stamp(reading) <= u64::MAX,
{
}

} // verus!
