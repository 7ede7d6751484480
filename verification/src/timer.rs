use vstd::prelude::*;
use std::time::{Duration, Instant};

verus! {

#[verifier::external_type_specification]
#[verifier::external_body]
pub struct ExInstant(Instant);

/// The delay timer counts down at 60 Hz: one tick every this many milliseconds.
pub const MILLIS_PER_TICK: u64 = 16;

/// The largest whole-second count whose nanoseconds still fit in a `u64`
/// together with a sub-second part.
pub const MAX_EXACT_SECS: u64 = 18_446_744_072;

/// Milliseconds in `secs` seconds and `subsec_nanos` nanoseconds, rounded down.
pub open spec fn millis_of(secs: int, subsec_nanos: int) -> int {
    (secs * 1_000_000_000 + subsec_nanos) / 1_000_000
}

/// What a delay timer set to `timer` reads `elapsed_ms` milliseconds later:
/// it loses one per 16 ms tick and stops at zero.
pub open spec fn delay_after(timer: u8, elapsed_ms: int) -> u8 {
    if elapsed_ms / (MILLIS_PER_TICK as int) >= timer as int {
        0u8
    } else {
        (timer as int - elapsed_ms / (MILLIS_PER_TICK as int)) as u8
    }
}

/// Calls `std::time::Instant::now`: the current reading of the monotonic
/// clock. The reading depends on the time, so nothing is claimed of it.
#[verifier::external_body]
pub(crate) fn instant_now() -> Instant {
    Instant::now()
}

/// Calls `std::time::Instant::elapsed`: the time that passed since
/// `earlier`. It depends on the time, so nothing is claimed of it.
#[verifier::external_body]
pub(crate) fn elapsed_since(earlier: &Instant) -> Duration {
    earlier.elapsed()
}

/// Calls `std::time::Duration::as_secs`: the whole seconds of `d`. The
/// duration is opaque here, so nothing is claimed of the count.
#[verifier::external_body]
pub(crate) fn duration_secs(d: &Duration) -> u64 {
    d.as_secs()
}

/// Calls `std::time::Duration::subsec_nanos`: the fractional part of `d` in
/// nanoseconds, which its documentation puts below one second.
#[verifier::external_body]
pub(crate) fn duration_subsec_nanos(d: &Duration) -> (nanos: u32)
    ensures
        nanos < 1_000_000_000,
{
    d.subsec_nanos()
}

/// Milliseconds in `secs` seconds plus `subsec_nanos` nanoseconds, rounded
/// down.
pub fn get_millis(secs: u64, subsec_nanos: u32) -> (ms: u64)
    requires
        secs * 1_000_000_000 + subsec_nanos <= u64::MAX,
    ensures
        ms == millis_of(secs as int, subsec_nanos as int),
{
    let nanos = subsec_nanos as u64;
    (1_000_000_000 * secs + nanos) / 1_000_000
}

/// What a delay timer set to `timer` reads `elapsed_ms` milliseconds later.
pub fn remaining_delay(timer: u8, elapsed_ms: u64) -> (r: u8)
    ensures
        r == delay_after(timer, elapsed_ms as int),
{
    let ticks = elapsed_ms / MILLIS_PER_TICK;
    if ticks >= timer as u64 {
        0
    } else {
        timer - ticks as u8
    }
}

/// A delay timer never runs up: it reads its start value at first, never
/// more later on, and zero once `16 * timer` milliseconds have passed.
pub proof fn lemma_delay_counts_down(timer: u8, earlier_ms: int, later_ms: int)
    requires
        0 <= earlier_ms <= later_ms,
    ensures
        delay_after(timer, 0) == timer,
        delay_after(timer, later_ms) <= delay_after(timer, earlier_ms),
        delay_after(timer, earlier_ms) <= timer,
        later_ms >= MILLIS_PER_TICK * timer ==> delay_after(timer, later_ms) == 0,
{
    vstd::arithmetic::div_mod::lemma_div_is_ordered(earlier_ms, later_ms, 16);
    if later_ms >= MILLIS_PER_TICK * timer {
        vstd::arithmetic::div_mod::lemma_div_is_ordered(16 * timer, later_ms, 16);
        vstd::arithmetic::div_mod::lemma_div_multiples_vanish(timer as int, 16);
    }
}

/// Every whole second counts as a thousand milliseconds, so a timer read
/// one second later than another shows 62 or 63 fewer ticks (never more
/// than before), and a timer is at zero after `16 * timer` milliseconds
/// whatever split into seconds and nanoseconds they come in.
pub proof fn lemma_reading_counts_seconds(timer: u8, secs: int, subsec_nanos: int)
    requires
        secs >= 0,
        0 <= subsec_nanos < 1_000_000_000,
    ensures
        millis_of(secs + 1, subsec_nanos) == millis_of(secs, subsec_nanos) + 1000,
        millis_of(secs, subsec_nanos) >= 1000 * secs,
        delay_after(timer, millis_of(secs + 1, subsec_nanos)) <= delay_after(
            timer,
            millis_of(secs, subsec_nanos),
        ),
        delay_after(timer, millis_of(secs, subsec_nanos)) == 0 <==> millis_of(secs, subsec_nanos)
            >= MILLIS_PER_TICK * timer,
{
    let t = secs * 1_000_000_000 + subsec_nanos;
    vstd::arithmetic::div_mod::lemma_fundamental_div_mod(t, 1_000_000);
    vstd::arithmetic::div_mod::lemma_fundamental_div_mod(t + 1_000_000_000, 1_000_000);
    vstd::arithmetic::div_mod::lemma_hoist_over_denominator(t, 1000, 1_000_000);
    assert(millis_of(secs + 1, subsec_nanos) == (t + 1000 * 1_000_000) / 1_000_000);
    vstd::arithmetic::div_mod::lemma_div_is_ordered(1_000_000_000 * secs, t, 1_000_000);
    vstd::arithmetic::div_mod::lemma_div_multiples_vanish(1000 * secs, 1_000_000);
    assert(1_000_000_000 * secs == 1000 * secs * 1_000_000);
    lemma_delay_counts_down(timer, millis_of(secs, subsec_nanos), millis_of(secs + 1, subsec_nanos));
    let ms = millis_of(secs, subsec_nanos);
    if ms < MILLIS_PER_TICK * timer {
        vstd::arithmetic::div_mod::lemma_div_is_ordered(ms, 16 * timer - 1, 16);
        vstd::arithmetic::div_mod::lemma_fundamental_div_mod(16 * timer - 1, 16);
    }
}

/// The largest elapsed time that `get_millis` can measure exactly is far
/// beyond the point where every delay timer has run out.
pub proof fn lemma_long_wait_runs_out(timer: u8, secs: int, subsec_nanos: int)
    requires
        secs > MAX_EXACT_SECS,
        0 <= subsec_nanos,
    ensures
        delay_after(timer, millis_of(secs, subsec_nanos)) == 0,
{
    assert(secs * 1_000_000_000 + subsec_nanos >= 1_000_000 * 4096);
    vstd::arithmetic::div_mod::lemma_div_is_ordered(1_000_000int * 4096, secs * 1_000_000_000 + subsec_nanos, 1_000_000);
    vstd::arithmetic::div_mod::lemma_div_multiples_vanish(4096, 1_000_000);
    vstd::arithmetic::div_mod::lemma_div_is_ordered(16int * 256, millis_of(secs, subsec_nanos), 16);
    vstd::arithmetic::div_mod::lemma_div_multiples_vanish(256, 16);
}

} // verus!
