//! Instants of the storage header: whole seconds since the Unix epoch and a
//! sub-second part in nanoseconds.
use vstd::prelude::*;

verus! {

/// A UTC instant: `secs` whole seconds after the Unix epoch (negative before
/// it) plus `nanos` nanoseconds.
#[derive(Clone, Copy, Debug, PartialEq, Eq, Structural)]
pub struct Timestamp {
    pub secs: i64,
    pub nanos: u32,
}

/// Largest magnitude of whole seconds that the calendar is asked to accept
/// (about 34,800 years either side of the epoch).
pub const INSTANT_SECS_BOUND: i64 = 1_099_511_627_776;

impl Timestamp {
    /// The sub-second part is below one second.
    pub open spec fn wf(&self) -> bool {
        self.nanos < 1_000_000_000
    }
}

/// The instant `seconds + micros / 10^6` seconds after the epoch, the
/// microseconds carried into whole seconds (flooring, so that a negative
/// microsecond count borrows from the seconds) and their remainder kept as
/// nanoseconds.
pub open spec fn timestamp_of(seconds: u32, micros: i32) -> Timestamp {
    Timestamp {
        secs: (seconds + micros / 1_000_000) as i64,
        nanos: ((micros % 1_000_000) * 1000) as u32,
    }
}

/// Relies on chrono's `DateTime::<Utc>::from_timestamp`, read back through
/// `timestamp` and `timestamp_subsec_nanos`: an instant is accepted as given
/// when its nanoseconds are below one second and its seconds lie well inside
/// the calendar's range of years; an accepted instant reads back unchanged.
#[verifier::external_body]
fn utc_instant(secs: i64, nanos: u32) -> (r: Option<(i64, u32)>)
    ensures
        r is Some ==> r == Some((secs, nanos)),
        nanos < 1_000_000_000 && -INSTANT_SECS_BOUND <= secs <= INSTANT_SECS_BOUND ==> r is Some,
{
    chrono::DateTime::from_timestamp(secs, nanos).map(|d| (d.timestamp(), d.timestamp_subsec_nanos()))
}

/// Combines the seconds and the signed microseconds of a storage header into
/// one instant, carrying whole seconds out of the microseconds.
pub fn compose_timestamp(seconds: u32, micros: i32) -> (r: Timestamp)
    ensures
        r == timestamp_of(seconds, micros),
        r.wf(),
{
    // The offset is a multiple of 10^6 that makes every i32 non-negative.
    let shifted: u64 = (micros as i64 + 2_148_000_000) as u64;
    let whole: u64 = shifted / 1_000_000;
    let rest: u64 = shifted % 1_000_000;
    proof {
        let m = micros as int;
        assert((m + 2_148_000_000) / 1_000_000 == m / 1_000_000 + 2148) by (nonlinear_arith);
        assert((m + 2_148_000_000) % 1_000_000 == m % 1_000_000) by (nonlinear_arith);
    }
    let secs: i64 = seconds as i64 + whole as i64 - 2148;
    let nanos: u32 = (rest * 1000) as u32;
    match utc_instant(secs, nanos) {
        Some((s, n)) => Timestamp { secs: s, nanos: n },
        // Not reached: the seconds stay within a few thousand of a u32 and the
        // nanoseconds below one second, which the calendar always accepts.
        None => Timestamp { secs, nanos },
    }
}

} // verus!
