//! Row timestamps: the time of day as eight ASCII bytes, `HH:MM:SS`.

use std::time::{Duration, SystemTime, SystemTimeError, UNIX_EPOCH};
use vstd::prelude::*;

verus! {

broadcast use vstd::array::group_array_axioms;

/// `std::time::SystemTime`, a point in time.
#[verifier::external_type_specification]
#[verifier::external_body]
pub struct ExSystemTime(SystemTime);

/// `std::time::SystemTimeError`, which says that a point in time lies before another.
#[verifier::external_type_specification]
#[verifier::external_body]
pub struct ExSystemTimeError(SystemTimeError);

/// `SystemTime::now` reads the system's clock. Nothing is promised of what it shows.
pub assume_specification[ SystemTime::now ]() -> SystemTime
;

/// `Duration::as_secs` gives the whole seconds of a duration. Which duration it is depends on
/// the clock, so nothing is promised of the number.
pub assume_specification[ Duration::as_secs ](d: &Duration) -> u64
;

/// `SystemTime::duration_since`, counted from the Unix epoch. It fails for a time before the
/// epoch; which of the two comes depends on the clock.
#[verifier::external_body]
fn since_epoch(t: SystemTime) -> (r: Result<Duration, SystemTimeError>) {
    t.duration_since(UNIX_EPOCH)
}

/// The marker of a row without a timestamp.
pub open spec fn unset() -> [u8; 8] {
    [48u8, 48u8, 48u8, 48u8, 48u8, 48u8, 48u8, 48u8]
}

/// The two decimal digits of `n`.
pub open spec fn two_digits(n: int) -> Seq<u8> {
    seq![(48 + n / 10) as u8, (48 + n % 10) as u8]
}

/// The time of day, `secs` seconds after the Unix epoch, as `HH:MM:SS` in UTC.
pub open spec fn time_of_day(secs: int) -> Seq<u8> {
    two_digits((secs / 3600) % 24) + seq![58u8] + two_digits((secs / 60) % 60) + seq![58u8]
        + two_digits(secs % 60)
}

/// `ts` shows the time of some second.
pub open spec fn is_time(ts: [u8; 8]) -> bool {
    exists|secs: int| 0 <= secs && ts@ == #[trigger] time_of_day(secs)
}

/// No time of day is the marker of a row without a timestamp.
pub proof fn law_time_is_set(ts: [u8; 8])
    requires
        is_time(ts),
    ensures
        ts != unset(),
{
    let secs = choose|secs: int| 0 <= secs && ts@ == #[trigger] time_of_day(secs);
    assert(time_of_day(secs)[2] == 58);
    assert(unset()@[2] == 48);
}

/// The marker of a row without a timestamp.
pub fn unset_stamp() -> (r: [u8; 8])
    ensures
        r == unset(),
{
    [48u8, 48u8, 48u8, 48u8, 48u8, 48u8, 48u8, 48u8]
}

/// Whether a row has no timestamp.
pub fn is_unset(ts: &[u8; 8]) -> (r: bool)
    ensures
        r == (*ts == unset()),
{
    let mut i: usize = 0;
    while i < 8
        invariant
            i <= 8,
            forall|j: int| 0 <= j < i ==> ts[j] == 48u8,
        decreases 8 - i,
    {
        if ts[i] != 48u8 {
            assert(unset()[i as int] == 48u8);
            return false;
        }
        i = i + 1;
    }
    assert(ts@ =~= unset()@);
    assert(*ts =~= unset());
    true
}

/// The timestamp of a time given in seconds since the Unix epoch.
pub fn timestamp_of(secs: u64) -> (r: [u8; 8])
    ensures
        r@ == time_of_day(secs as int),
{
    let s: u8 = (secs % 60) as u8;
    let m: u8 = ((secs / 60) % 60) as u8;
    let h: u8 = ((secs / 3600) % 24) as u8;
    let r: [u8; 8] = [
        48 + h / 10,
        48 + h % 10,
        58,
        48 + m / 10,
        48 + m % 10,
        58,
        48 + s / 10,
        48 + s % 10,
    ];
    assert(r@ =~= time_of_day(secs as int));
    r
}

/// Generate a HH:MM:SS timestamp for the current moment.
pub fn now_timestamp() -> (r: [u8; 8])
    ensures
        is_time(r),
{
    let secs: u64 = match since_epoch(SystemTime::now()) {
        Ok(d) => d.as_secs(),
        Err(_) => 0,
    };
    timestamp_of(secs)
}

/// A timestamp shows the hours, minutes and seconds since midnight, two digits each with colons
/// between, and nothing of the days before.
pub proof fn law_time_of_day_reads(secs: int)
    requires
        secs >= 0,
    ensures
        ({
            let ts = time_of_day(secs);
            let h = 10 * (ts[0] - 48) + (ts[1] - 48);
            let m = 10 * (ts[3] - 48) + (ts[4] - 48);
            let s = 10 * (ts[6] - 48) + (ts[7] - 48);
            &&& ts.len() == 8
            &&& ts[2] == 58 && ts[5] == 58
            &&& 0 <= h < 24 && 0 <= m < 60 && 0 <= s < 60
            &&& 3600 * h + 60 * m + s == secs % 86400
            &&& forall|i: int| 0 <= i < 8 && i != 2 && i != 5 ==> 48 <= #[trigger] ts[i] <= 57
        }),
{
    let ts = time_of_day(secs);
    let (h, m, s) = ((secs / 3600) % 24, (secs / 60) % 60, secs % 60);
    assert(ts =~= seq![
        (48 + h / 10) as u8,
        (48 + h % 10) as u8,
        58u8,
        (48 + m / 10) as u8,
        (48 + m % 10) as u8,
        58u8,
        (48 + s / 10) as u8,
        (48 + s % 10) as u8,
    ]);
}

} // verus!
