use vstd::prelude::*;
use crate::shared::HZ;

verus! {

/// The uptime in milliseconds after `ticks` timer ticks (the product saturates).
pub fn uptime_ms(ticks: u64) -> (r: u64)
    ensures
        r == (if ticks * 1000 > u64::MAX { u64::MAX as int } else { ticks * 1000 }) / (HZ as int),
{
    let hz: u64 = HZ as u64;
    if hz == 0 {
        return 0;
    }
    let ms = match ticks.checked_mul(1000) {
        Some(v) => v,
        None => u64::MAX,
    };
    ms / hz
}

/// The tick at which a sleep of `ms` milliseconds begun at tick `start` ends:
/// the sleep lasts the milliseconds in ticks, rounded up.
pub fn sleep_target(start: u64, ms: u64) -> (r: u64)
    requires
        ms * (HZ as int) + 999 <= u64::MAX,
        start + (ms * (HZ as int) + 999) / 1000 <= u64::MAX,
    ensures
        r == start + (ms * (HZ as int) + 999) / 1000,
{
    let hz: u64 = HZ as u64;
    let delta = (ms * hz + 999) / 1000;
    start + delta
}

} // verus!
