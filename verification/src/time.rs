//! Time from the HPET's main counter: instants in nanoseconds since boot, and wall-clock
//! timestamps through the `jiff` crate.
use vstd::prelude::*;
use jiff::Timestamp;

verus! {

/// A point in time of the `jiff` crate.
#[verifier::external_type_specification]
#[verifier::external_body]
pub struct ExTimestamp(Timestamp);

/// Femtoseconds in a nanosecond.
pub const FEMTOSECONDS_PER_NANOSECOND: u128 = 1_000_000;

/// Nanoseconds in a second.
pub const NANOS_PER_SECOND: u64 = 1_000_000_000;

/// The latest second since the Unix epoch that `jiff` can hold in a timestamp.
pub const TIMESTAMP_MAX_SECOND: i64 = 253_402_207_200;

/// The clock that reads the HPET's main counter.
#[derive(Debug, Clone, Copy, PartialEq, Eq, Structural)]
pub struct HpetClock;

impl HpetClock {
    /// The nanoseconds that `ticks` ticks of `period_femtoseconds` each make, if they
    /// fit in 64 bits.
    pub fn nanos(ticks: u64, period_femtoseconds: u64) -> (r: Option<u64>)
        ensures
            match r {
                Some(n) => n == ticks * period_femtoseconds / 1_000_000,
                None => ticks * period_femtoseconds / 1_000_000 > u64::MAX,
            },
    {
        let t = ticks as u128;
        let p = period_femtoseconds as u128;
        assert(t * p <= u64::MAX * u64::MAX) by (nonlinear_arith)
            requires
                t <= u64::MAX,
                p <= u64::MAX,
        ;
        let nanos = (t * p) / FEMTOSECONDS_PER_NANOSECOND;
        if nanos <= u64::MAX as u128 {
            Some(nanos as u64)
        } else {
            None
        }
    }
}

/// The seconds and nanoseconds of the wall-clock time `counter` nanoseconds after a
/// boot at `boot_seconds` since the Unix epoch.
pub fn timestamp_parts(boot_seconds: u64, counter: u64) -> (r: (u64, u64))
    requires
        boot_seconds + counter / 1_000_000_000 <= u64::MAX,
    ensures
        r.0 == boot_seconds + counter / 1_000_000_000,
        r.1 == counter % 1_000_000_000,
{
    (boot_seconds + counter / NANOS_PER_SECOND, counter % NANOS_PER_SECOND)
}

/// The timestamp that `jiff` makes of `second` seconds and `nanosecond` nanoseconds
/// after the Unix epoch.
pub uninterp spec fn jiff_timestamp(second: i64, nanosecond: i32) -> Timestamp;

/// `Timestamp::new` of the `jiff` crate, for a time at or after the Unix epoch with
/// nanoseconds below one second: a timestamp exactly when the seconds lie within the
/// range that `jiff` supports, and then the one that `jiff` makes of the arguments.
#[verifier::external_body]
fn new_timestamp(second: i64, nanosecond: i32) -> (r: Option<Timestamp>)
    requires
        0 <= second,
        0 <= nanosecond < 1_000_000_000,
    ensures
        r == (if second <= TIMESTAMP_MAX_SECOND {
            Some(jiff_timestamp(second, nanosecond))
        } else {
            None
        }),
{
    Timestamp::new(second, nanosecond).ok()
}

/// The wall-clock timestamp `counter` nanoseconds after a boot at `boot_seconds` since
/// the Unix epoch, if `jiff` can hold it.
pub fn timestamp_now(boot_seconds: u64, counter: u64) -> (r: Option<Timestamp>)
    requires
        boot_seconds + counter / 1_000_000_000 <= u64::MAX,
    ensures
        r == (if boot_seconds + counter / 1_000_000_000 <= TIMESTAMP_MAX_SECOND {
            Some(jiff_timestamp((boot_seconds + counter / 1_000_000_000) as i64, (counter % 1_000_000_000) as i32))
        } else {
            None
        }),
{
    let (secs, nanos) = timestamp_parts(boot_seconds, counter);
    if secs > TIMESTAMP_MAX_SECOND as u64 {
        return None;
    }
    new_timestamp(secs as i64, nanos as i32)
}

} // verus!
