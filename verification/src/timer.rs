use vstd::arithmetic::div_mod::lemma_div_denominator;
use vstd::arithmetic::mul::lemma_mul_upper_bound;
use vstd::prelude::*;

use crate::score::Timing;

verus! {

/// The speed multiplier that leaves the score's own pace unchanged, in
/// thousandths.
pub const NORMAL_SPEED_MILLIS: u64 = 1000;

/// The length in nanoseconds of `ticks` ticks, at `tick_us` whole
/// microseconds per tick, stretched by the inverse of a speed multiplier
/// given in thousandths. Only meaningful for a positive speed; speed 0 is
/// handled by the callers as a frozen clock.
pub open spec fn duration_nanos_spec(ticks: int, tick_us: int, speed_millis: int) -> int {
    ticks * tick_us * 1_000_000 / speed_millis
}

/// How many whole ticks of `tick_us` microseconds fit into the longest
/// single sleep the engine allows itself. A tick of no length fits without
/// limit.
pub open spec fn cap_of(tick_us: u32, max_us: u64) -> usize {
    if tick_us == 0 {
        usize::MAX
    } else if max_us / (tick_us as u64) > usize::MAX as u64 {
        usize::MAX
    } else {
        (max_us / (tick_us as u64)) as usize
    }
}

/// Saturating addition on the nanosecond clock domain.
pub open spec fn sat_add(a: int, b: int) -> int {
    if a + b <= u128::MAX {
        a + b
    } else {
        u128::MAX as int
    }
}

/// The nominal length of a sleep of `ticks` ticks: the duration formula,
/// or the maximal duration under a frozen clock (speed 0).
pub open spec fn nominal_nanos(ticks: int, tick_us: int, speed_millis: int) -> int {
    if speed_millis == 0 {
        u128::MAX as int
    } else {
        duration_nanos_spec(ticks, tick_us, speed_millis)
    }
}

/// Where the drift anchor stands after one sleep computation: the previous
/// anchor (or, on the first call, the present clock reading) advanced by
/// the nominal duration.
pub open spec fn drift_anchor(anchor: Option<u128>, d: int, now: int) -> int {
    match anchor {
        None => sat_add(now, d),
        Some(a) => sat_add(a as int, d),
    }
}

/// The drift-corrected sleep: the nominal duration, shortened by the time
/// already elapsed since the previous anchor and floored at zero; the
/// first call returns the nominal duration whole.
pub open spec fn drift_sleep(anchor: Option<u128>, d: int, now: int) -> int {
    match anchor {
        None => d,
        Some(a) => {
            let elapsed: int = if now > a {
                now - a
            } else {
                0
            };
            if d >= elapsed {
                d - elapsed
            } else {
                0
            }
        },
    }
}

/// The stateful clock of a playback session: converts tick counts into
/// wall-clock durations under the current tempo and speed, and computes
/// drift-corrected sleep intervals against a caller-supplied monotonic
/// clock reading (nanoseconds).
#[derive(Clone, Copy, Debug, PartialEq, Eq, Structural)]
pub struct Timer {
    ticks_per_beat: u16,
    tick_microseconds: u32,
    maximum_sleep_microseconds: u64,
    ticks_per_maximum_sleep: usize,
    last_instant_nanos: Option<u128>,
    speed_millis: u64,
}

impl Timer {
    /// The score resolution this timer was created with.
    pub closed spec fn ticks_per_beat(&self) -> u16 {
        self.ticks_per_beat
    }

    /// Whole microseconds per tick currently in force (0 until a tempo is
    /// applied: an infinitely fast clock).
    pub closed spec fn tick_us(&self) -> u32 {
        self.tick_microseconds
    }

    /// The longest single sleep the engine allows itself, in microseconds.
    pub closed spec fn max_sleep_us(&self) -> u64 {
        self.maximum_sleep_microseconds
    }

    /// The cached tick cap derived from the tempo and the maximum sleep.
    pub closed spec fn cap_ticks(&self) -> usize {
        self.ticks_per_maximum_sleep
    }

    /// The drift anchor: the nanosecond instant the playhead is scheduled
    /// to have reached, if a sleep has been computed before.
    pub closed spec fn anchor(&self) -> Option<u128> {
        self.last_instant_nanos
    }

    /// The speed multiplier, in thousandths; 0 freezes the clock.
    pub closed spec fn speed(&self) -> u64 {
        self.speed_millis
    }

    /// The structural invariant: the resolution is positive and the cached
    /// cap matches the tempo in force.
    pub open spec fn wf(&self) -> bool {
        &&& self.ticks_per_beat() >= 1
        &&& self.cap_ticks() == cap_of(self.tick_us(), self.max_sleep_us())
    }
}

impl Timer {
    /// Create a timer with the given ticks-per-beat resolution.
    ///
    /// Initially no tempo is in force: each tick has no length, so the
    /// playhead would advance without consuming time until the first tempo
    /// change is applied. A tempo change message usually stands on the
    /// first tick of a score.
    pub fn new_with_ticks_per_beat(ticks_per_beat: u16, maximum_sleep_microseconds: u64) -> (r:
        Timer)
        requires
            ticks_per_beat >= 1,
        ensures
            r.wf(),
            r.ticks_per_beat() == ticks_per_beat,
            r.tick_us() == 0,
            r.max_sleep_us() == maximum_sleep_microseconds,
            r.anchor() is None,
            r.speed() == NORMAL_SPEED_MILLIS,
    {
        Timer {
            ticks_per_beat,
            tick_microseconds: 0,
            maximum_sleep_microseconds,
            ticks_per_maximum_sleep: usize::MAX,
            last_instant_nanos: None,
            speed_millis: NORMAL_SPEED_MILLIS,
        }
    }

    /// Create a timer from a score timing value.
    ///
    /// Fails on timecode timing, and on a metrical resolution of 0 ticks
    /// per beat, with which no tick could ever have a length.
    pub fn new(timing: Timing, maximum_sleep_microseconds: u64) -> (r: Result<Timer, ()>)
        ensures
            match r {
                Ok(t) => {
                    &&& timing matches Timing::Metrical(n) && n >= 1 && t.ticks_per_beat() == n
                    &&& t.wf()
                    &&& t.tick_us() == 0
                    &&& t.max_sleep_us() == maximum_sleep_microseconds
                    &&& t.anchor() is None
                    &&& t.speed() == NORMAL_SPEED_MILLIS
                },
                Err(()) => !(timing matches Timing::Metrical(n) && n >= 1),
            },
    {
        match timing {
            Timing::Metrical(n) => {
                if n >= 1 {
                    Ok(Timer::new_with_ticks_per_beat(n, maximum_sleep_microseconds))
                } else {
                    Err(())
                }
            },
            Timing::Timecode(_, _) => Err(()),
        }
    }
}

impl Timer {
    /// Apply a tempo change: recompute the microseconds per tick as the
    /// tempo divided by the resolution (whole microseconds), and refresh
    /// the cached tick cap.
    pub fn change_tempo(&mut self, tempo: u32)
        requires
            old(self).wf(),
        ensures
            final(self).wf(),
            final(self).tick_us() == tempo / (old(self).ticks_per_beat() as u32),
            final(self).ticks_per_beat() == old(self).ticks_per_beat(),
            final(self).max_sleep_us() == old(self).max_sleep_us(),
            final(self).anchor() == old(self).anchor(),
            final(self).speed() == old(self).speed(),
    {
        self.tick_microseconds = tempo / (self.ticks_per_beat as u32);
        self.ticks_per_maximum_sleep = if self.tick_microseconds == 0 {
            usize::MAX
        } else {
            let q: u64 = self.maximum_sleep_microseconds / (self.tick_microseconds as u64);
            if q > usize::MAX as u64 {
                usize::MAX
            } else {
                q as usize
            }
        };
    }

    /// Set the speed multiplier, in thousandths of the score's own pace.
    pub fn set_speed(&mut self, speed_millis: u64)
        ensures
            final(self).speed() == speed_millis,
            final(self).ticks_per_beat() == old(self).ticks_per_beat(),
            final(self).tick_us() == old(self).tick_us(),
            final(self).max_sleep_us() == old(self).max_sleep_us(),
            final(self).cap_ticks() == old(self).cap_ticks(),
            final(self).anchor() == old(self).anchor(),
    {
        self.speed_millis = speed_millis;
    }

    /// The longest single sleep the engine allows itself, in microseconds,
    /// as set at construction.
    pub fn get_maximum_sleep_microseconds(&self) -> (r: u64)
        ensures
            r == self.max_sleep_us(),
    {
        self.maximum_sleep_microseconds
    }

    /// How many whole ticks fit into the longest single sleep the engine
    /// allows itself, under the tempo in force.
    pub fn get_number_of_ticks_that_would_fit_into_maximum_sleep_time(&self) -> (r: usize)
        ensures
            r == self.cap_ticks(),
    {
        self.ticks_per_maximum_sleep
    }

    /// The wall-clock length of `ticks` ticks under the tempo and speed in
    /// force, in nanoseconds. Speed 0 freezes the clock: every duration is
    /// the maximal one.
    pub fn calculate_duration_of_ticks(&self, ticks: usize) -> (r: u128)
        ensures
            self.speed() == 0 ==> r == u128::MAX,
            self.speed() > 0 ==> r == duration_nanos_spec(
                ticks as int,
                self.tick_us() as int,
                self.speed() as int,
            ),
    {
        if self.speed_millis == 0 {
            return u128::MAX;
        }
        proof {
            lemma_duration_fits(ticks as int, self.tick_us() as int);
        }
        (ticks as u128) * (self.tick_microseconds as u128) * 1_000_000 / (self.speed_millis
            as u128)
    }

    /// The drift-compensated sleep before the playhead may advance by
    /// `ticks` ticks, given the present reading `now_nanos` of the caller's
    /// monotonic clock.
    ///
    /// The first call anchors the schedule at `now_nanos` and returns the
    /// nominal duration. Each later call advances the anchor by the nominal
    /// duration and returns the nominal duration shortened by the time
    /// already elapsed since the previous anchor, floored at zero, so that
    /// one cycle's oversleep shortens the next sleep instead of
    /// accumulating.
    pub fn calculate_sleeping_time(&mut self, ticks: usize, now_nanos: u128) -> (r: u128)
        requires
            old(self).wf(),
        ensures
            final(self).wf(),
            ({
                let d: int = nominal_nanos(
                    ticks as int,
                    old(self).tick_us() as int,
                    old(self).speed() as int,
                );
                &&& r == drift_sleep(old(self).anchor(), d, now_nanos as int)
                &&& final(self).anchor() == Some(
                    drift_anchor(old(self).anchor(), d, now_nanos as int) as u128,
                )
            }),
            final(self).ticks_per_beat() == old(self).ticks_per_beat(),
            final(self).tick_us() == old(self).tick_us(),
            final(self).max_sleep_us() == old(self).max_sleep_us(),
            final(self).cap_ticks() == old(self).cap_ticks(),
            final(self).speed() == old(self).speed(),
    {
        let duration = self.calculate_duration_of_ticks(ticks);

        match self.last_instant_nanos {
            Some(last_instant) => {
                self.last_instant_nanos = Some(saturating_add_u128(last_instant, duration));
                let elapsed = if now_nanos > last_instant {
                    now_nanos - last_instant
                } else {
                    0
                };
                if duration >= elapsed {
                    duration - elapsed
                } else {
                    0
                }
            },
            None => {
                self.last_instant_nanos = Some(saturating_add_u128(now_nanos, duration));
                duration
            },
        }
    }
}

/// Saturating addition of nanosecond counts.
fn saturating_add_u128(a: u128, b: u128) -> (r: u128)
    ensures
        r == sat_add(a as int, b as int),
{
    if a <= u128::MAX - b {
        a + b
    } else {
        u128::MAX
    }
}

/// The length of `n_ticks` ticks under the timer's tempo and speed, without
/// consulting or moving the drift anchor. Useful for computing the length
/// of a whole score.
pub fn sleep_duration_without_readjustment(timer: &Timer, n_ticks: u32) -> (r: u128)
    ensures
        timer.speed() == 0 ==> r == u128::MAX,
        timer.speed() > 0 ==> r == duration_nanos_spec(
            n_ticks as int,
            timer.tick_us() as int,
            timer.speed() as int,
        ),
{
    timer.calculate_duration_of_ticks(n_ticks as usize)
}

/// The nanosecond product of any representable tick count, tick length and
/// the millisecond scale stays far inside the 128-bit range.
proof fn lemma_duration_fits(ticks: int, tick_us: int)
    requires
        0 <= ticks <= u64::MAX,
        0 <= tick_us <= u32::MAX,
    ensures
        0 <= ticks * tick_us * 1_000_000 <= u128::MAX,
{
    lemma_mul_upper_bound(ticks, u64::MAX as int, tick_us, u32::MAX as int);
    lemma_mul_upper_bound(
        ticks * tick_us,
        u64::MAX as int * u32::MAX as int,
        1_000_000,
        1_000_000,
    );
    vstd::arithmetic::mul::lemma_mul_nonnegative(ticks, tick_us);
    vstd::arithmetic::mul::lemma_mul_nonnegative(ticks * tick_us, 1_000_000);
}

/// One drift-corrected sleep resynchronizes the caller to the nominal
/// schedule: sleeping the returned time wakes exactly at the new anchor,
/// or immediately if that moment has already passed.
pub proof fn lemma_drift_sleep_resyncs(a: u128, d: int, now: u128)
    requires
        a <= now,
        0 <= d,
        a + d <= u128::MAX,
    ensures
        now + drift_sleep(Some(a), d, now as int) == (if now >= a + d {
            now as int
        } else {
            a + d
        }),
        drift_anchor(Some(a), d, now as int) == a + d,
{
}

/// The clock reading after a run of drift-corrected sleeps: each step
/// advances the schedule by its nominal duration `ds[k]`, sleeps the
/// corrected time, and oversleeps by `os[k]` before the next reading. By
/// [`lemma_drift_sleep_resyncs`], a caller whose reading was `n` lands at
/// exactly the greater of `n` and the step's schedule point after sleeping
/// the corrected time.
pub open spec fn chain_wake(a: int, n: int, ds: Seq<int>, os: Seq<int>) -> int
    decreases ds.len(),
{
    if ds.len() == 0 {
        n
    } else {
        let target = a + ds[0];
        let next = (if n >= target {
            n
        } else {
            target
        }) + os[0];
        chain_wake(target, next, ds.skip(1), os.skip(1))
    }
}

/// The sum of a run of nominal durations: the nominal schedule.
pub open spec fn sum_of(ds: Seq<int>) -> int
    decreases ds.len(),
{
    if ds.len() == 0 {
        0
    } else {
        ds[0] + sum_of(ds.skip(1))
    }
}

/// Drift does not accumulate: over any run of drift-corrected sleeps whose
/// nominal durations are each at least `bound` and whose oversleeps are
/// each at most `bound`, the final wake time stays within `bound` of the
/// nominal schedule, however long the run is.
pub proof fn lemma_no_cumulative_drift(a: int, n: int, ds: Seq<int>, os: Seq<int>, bound: int)
    requires
        ds.len() == os.len(),
        0 <= bound,
        forall|k: int| 0 <= k < ds.len() ==> bound <= #[trigger] ds[k],
        forall|k: int| 0 <= k < os.len() ==> 0 <= #[trigger] os[k] <= bound,
        a <= n <= a + bound,
    ensures
        a + sum_of(ds) <= chain_wake(a, n, ds, os) <= a + sum_of(ds) + bound,
    decreases ds.len(),
{
    if ds.len() > 0 {
        let target = a + ds[0];
        let next = (if n >= target {
            n
        } else {
            target
        }) + os[0];
        assert forall|k: int| 0 <= k < ds.skip(1).len() implies bound <= #[trigger] ds.skip(
            1,
        )[k] by {
            assert(ds.skip(1)[k] == ds[k + 1]);
        }
        assert forall|k: int| 0 <= k < os.skip(1).len() implies 0 <= #[trigger] os.skip(1)[k]
            <= bound by {
            assert(os.skip(1)[k] == os[k + 1]);
        }
        lemma_no_cumulative_drift(target, next, ds.skip(1), os.skip(1), bound);
    }
}

/// Halving law of the duration formula: doubling the speed exactly halves
/// the computed duration (in the integer division sense), for every tick
/// count and tempo.
pub proof fn lemma_duration_scales_with_speed(ticks: int, tick_us: int, speed_millis: int)
    requires
        0 <= ticks,
        0 <= tick_us,
        speed_millis > 0,
    ensures
        duration_nanos_spec(ticks, tick_us, 2 * speed_millis) == duration_nanos_spec(
            ticks,
            tick_us,
            speed_millis,
        ) / 2,
{
    let x = ticks * tick_us * 1_000_000;
    vstd::arithmetic::mul::lemma_mul_nonnegative(ticks, tick_us);
    vstd::arithmetic::mul::lemma_mul_nonnegative(ticks * tick_us, 1_000_000);
    lemma_div_denominator(x, speed_millis, 2);
}

} // verus!
