use vstd::prelude::*;

verus! {

#[verifier::external_type_specification]
#[verifier::external_body]
pub struct ExInstant(std::time::Instant);

/// Relies on std::time::Instant::now: a reading of the monotonic clock.
#[verifier::external_body]
fn instant_now() -> std::time::Instant {
    std::time::Instant::now()
}

/// Relies on std::time::Instant::elapsed: the time since the reading was
/// taken, handed out as whole nanoseconds.
#[verifier::external_body]
fn elapsed_nanos(since: &std::time::Instant) -> u128 {
    since.elapsed().as_nanos()
}

/// Relies on std::hint::spin_loop: the processor's busy-wait hint.
#[verifier::external_body]
fn spin_hint() {
    std::hint::spin_loop()
}

/// Wait out the given number of nanoseconds by actively polling the
/// monotonic clock. Accurate to well under a scheduling quantum, at the
/// price of keeping the processor busy: meant only for the last small
/// remainder of a longer sleep. The spin carries an astronomically large
/// iteration budget, so it provably comes to an end.
pub fn spin_lock(duration_nanos: u128) {
    let start = instant_now();
    let mut budget: u64 = u64::MAX;
    while budget > 0
        decreases budget,
    {
        let elapsed = elapsed_nanos(&start);
        if elapsed >= duration_nanos {
            return;
        }
        budget = budget - 1;
        spin_hint();
    }
}

} // verus!
