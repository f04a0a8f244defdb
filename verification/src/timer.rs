use vstd::prelude::*;

use crate::config::CLOCK_FREQ;

verus! {

/// Timer ticks in one millisecond.
pub const MSEC_PER_SEC: u64 = 1000;
/// Scheduling time slices per second.
pub const TICKS_PER_SEC: u64 = 100;

/// The milliseconds a tick count amounts to.
pub open spec fn spec_time_ms(ticks: u64) -> int {
    (ticks as int) / ((CLOCK_FREQ / MSEC_PER_SEC) as int)
}

/// Converts a reading of the platform clock to milliseconds since boot.
pub fn get_time_ms(ticks: u64) -> (r: u64)
    ensures
        r == spec_time_ms(ticks),
{
    ticks / (CLOCK_FREQ / MSEC_PER_SEC)
}

/// The next timer deadline: one scheduling quantum past `now`.  The
/// deadline is strictly later than the reading that triggered it.
pub fn set_next_trigger(now_ticks: u64) -> (deadline: u64)
    requires
        now_ticks <= u64::MAX - CLOCK_FREQ,
    ensures
        deadline == now_ticks + CLOCK_FREQ / TICKS_PER_SEC,
        deadline > now_ticks,
{
    now_ticks + CLOCK_FREQ / TICKS_PER_SEC
}

/// Reading the clock twice without an intervening tick, or later, never
/// turns time backwards: the millisecond reading is monotone in the
/// ticks.
pub proof fn lemma_time_monotone(t1: u64, t2: u64)
    requires
        t1 <= t2,
    ensures
        spec_time_ms(t1) <= spec_time_ms(t2),
{
    vstd::arithmetic::div_mod::lemma_div_is_ordered(
        t1 as int,
        t2 as int,
        (CLOCK_FREQ / MSEC_PER_SEC) as int,
    );
}

/// Each timer reprogramming after a fired deadline sets a strictly later
/// deadline than the one that just fired.
pub proof fn lemma_trigger_strictly_later(fired: u64, now_ticks: u64)
    requires
        fired <= now_ticks,
        now_ticks <= u64::MAX - CLOCK_FREQ,
    ensures
        now_ticks + CLOCK_FREQ / TICKS_PER_SEC > fired,
{
}

} // verus!
