// The timer's integer arithmetic: tempo changes, duration scaling with
// speed, the frozen-clock sentinel, and drift compensation.

use midi_file_performer::{sleep_duration_without_readjustment, Timer, Timing};

#[test]
fn new_rejects_timecode() {
    assert!(Timer::new(Timing::Timecode(25, 40), 10_000).is_err());
}

#[test]
fn new_rejects_zero_resolution() {
    assert!(Timer::new(Timing::Metrical(0), 10_000).is_err());
}

#[test]
fn duration_before_any_tempo_is_zero() {
    let timer = Timer::new(Timing::Metrical(480), 10_000).ok().unwrap();
    assert_eq!(timer.calculate_duration_of_ticks(1000), 0);
}

#[test]
fn duration_follows_tempo() {
    let mut timer = Timer::new(Timing::Metrical(480), 10_000).ok().unwrap();
    timer.change_tempo(500000);
    // 500000 / 480 = 1041 whole microseconds per tick.
    assert_eq!(timer.calculate_duration_of_ticks(1), 1_041_000);
    assert_eq!(timer.calculate_duration_of_ticks(480), 480 * 1_041_000);
}

#[test]
fn ticks_per_maximum_sleep_follows_tempo() {
    let mut timer = Timer::new(Timing::Metrical(480), 10_000).ok().unwrap();
    timer.change_tempo(500000);
    // 10000 microseconds hold nine whole 1041-microsecond ticks.
    assert_eq!(timer.get_number_of_ticks_that_would_fit_into_maximum_sleep_time(), 9);
}

#[test]
fn doubling_speed_halves_durations() {
    let mut timer = Timer::new(Timing::Metrical(480), 10_000).ok().unwrap();
    timer.change_tempo(500000);
    timer.set_speed(1000);
    let normal = timer.calculate_duration_of_ticks(333);
    timer.set_speed(2000);
    let double = timer.calculate_duration_of_ticks(333);
    assert_eq!(double, normal / 2);
}

#[test]
fn speed_zero_freezes_the_clock() {
    let mut timer = Timer::new(Timing::Metrical(480), 10_000).ok().unwrap();
    timer.change_tempo(500000);
    timer.set_speed(0);
    assert_eq!(timer.calculate_duration_of_ticks(1), u128::MAX);
}

#[test]
fn sleep_without_readjustment_matches_duration() {
    let mut timer = Timer::new(Timing::Metrical(480), 10_000).ok().unwrap();
    timer.change_tempo(500000);
    assert_eq!(sleep_duration_without_readjustment(&timer, 7), timer.calculate_duration_of_ticks(7));
}

#[test]
fn drift_compensation_cancels_oversleep() {
    // Ticks per beat 480 at tempo 500000: 1041 whole microseconds per tick.
    let mut timer = Timer::new(Timing::Metrical(480), 10_000).ok().unwrap();
    timer.change_tempo(500000);
    let tick = 1_041_000u128;

    // The first call anchors the schedule and returns the whole duration.
    let start = 7_000u128;
    let mut now = start;
    let first = timer.calculate_sleeping_time(1, now);
    assert_eq!(first, tick);
    let overrun = 200_000u128;
    now = now + first + overrun;

    // Each cycle oversleeps by 200 microseconds; each next sleep comes back
    // shortened by exactly that overrun, so the clock stays exactly one
    // overrun past the nominal schedule, never further.
    let mut k = 2u128;
    while k <= 51 {
        let corrected = timer.calculate_sleeping_time(1, now);
        assert_eq!(corrected, tick - overrun);
        now = now + corrected + overrun;
        assert_eq!(now - start, k * tick + overrun);
        k += 1;
    }

    // One exact sleep resynchronizes completely: 52 nominal ticks have been
    // scheduled in all, and the clock lands exactly on that grid.
    now = now + timer.calculate_sleeping_time(1, now);
    assert_eq!(now - start, 52 * tick);
}
