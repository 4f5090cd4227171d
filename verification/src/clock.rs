//! Wall-clock time in seconds.

use vstd::prelude::*;

verus! {

/// `SystemTime::elapsed` of the standard library on the Unix epoch, in whole
/// seconds; `None` where the clock stands before the epoch. The reading
/// depends on the machine's clock, so nothing is promised of it.
#[verifier::external_body]
fn since_epoch() -> (r: Option<u64>) {
    std::time::UNIX_EPOCH.elapsed().ok().map(|d| d.as_secs())
}

/// Epoch seconds for a reading of the clock: zero for a clock before the epoch.
pub fn secs_of(reading: Option<u64>) -> (r: u64)
    ensures
        r == (match reading {
            Some(s) => s,
            None => 0,
        }),
{
    match reading {
        Some(s) => s,
        None => 0,
    }
}

/// Epoch seconds now.
pub fn now_secs() -> (r: u64) {
    secs_of(since_epoch())
}

} // verus!
