use vstd::prelude::*;

use crate::channel::{channel_drain, channel_send};
use crate::event::EventView;
use crate::messages::{lemma_msgs_view_push, msgs_view, ToConsole, ToConsoleView, ToEngine};
use crate::score::{gathered, moments_view, tempo_at_spec, Score};
use crate::timer::{cap_of, drift_anchor, drift_sleep, nominal_nanos, Timer, NORMAL_SPEED_MILLIS};

verus! {

/// The longest single sleep the engine allows itself, and its idle poll
/// interval, in microseconds. A long silent stretch is slept through in
/// hops of at most this length, so newly queued control messages are
/// noticed promptly.
pub const MAXIMUM_SLEEP_MICROSECONDS: u64 = 10_000;

/// Why the engine loop aborts.
#[derive(Clone, Debug, PartialEq, Eq)]
pub enum Error {
    /// The timer could not be created: the score timing is unusable.
    TimerCreation,
    /// A message could not be delivered to the caller's side; it carries
    /// the message that came back.
    Channel(ToConsole),
}

/// The engine's playback state: a terminal halt flag, the play/pause flag,
/// the tick position, the speed multiplier in thousandths, and the loop
/// flag. Transitions happen only between cycles, by applying control
/// messages or by the advancement of one cycle.
#[derive(Clone, Copy, Debug, PartialEq, Eq, Structural)]
pub struct EngineState {
    pub halt: bool,
    pub play: bool,
    pub position: usize,
    pub speed_millis: u64,
    pub looping: bool,
}

/// The microseconds per tick after re-synchronizing the timer to the tempo
/// in force at a position: unchanged where the score answers no tempo.
pub open spec fn resync_tick_us(score: &Score, pos: int, t: Timer) -> u32 {
    match tempo_at_spec(score.changes(), score.length(), pos) {
        Some(tempo) => tempo / (t.ticks_per_beat() as u32),
        None => t.tick_us(),
    }
}

/// The event messages of one gathered moment: each event tagged with its
/// track index, in moment order.
pub open spec fn moment_messages(ti: usize, es: Seq<EventView>) -> Seq<ToConsoleView> {
    es.map_values(|e: EventView| ToConsoleView::Event(ti, e))
}

/// The event messages of a whole gathered tick, track after track.
pub open spec fn event_messages(g: Seq<(usize, Seq<EventView>)>) -> Seq<ToConsoleView>
    decreases g.len(),
{
    if g.len() == 0 {
        Seq::empty()
    } else {
        event_messages(g.drop_last()) + moment_messages(g.last().0, g.last().1)
    }
}

/// The last tempo set by a list of events, if any sets one.
pub open spec fn last_tempo_of_events(es: Seq<EventView>) -> Option<u32>
    decreases es.len(),
{
    if es.len() == 0 {
        None
    } else {
        match es.last().tempo_change() {
            Some(t) => Some(t),
            None => last_tempo_of_events(es.drop_last()),
        }
    }
}

/// The last tempo set at a gathered tick, if any of its events sets one.
pub open spec fn last_tempo_of_moments(g: Seq<(usize, Seq<EventView>)>) -> Option<u32>
    decreases g.len(),
{
    if g.len() == 0 {
        None
    } else {
        match last_tempo_of_events(g.last().1) {
            Some(t) => Some(t),
            None => last_tempo_of_moments(g.drop_last()),
        }
    }
}

/// Every message one cycle emits, given the state it starts from: nothing
/// while paused; a position report followed by the tick's events while
/// playing; a position report alone when the end is reached and the run
/// loops; a position report and a stop notification when the end is
/// reached and the run does not loop.
pub open spec fn cycle_messages_spec(state: EngineState, s: &Score) -> Seq<ToConsoleView> {
    if !state.play {
        Seq::empty()
    } else if s.beyond_every_track(state.position as int) {
        if state.looping {
            seq![ToConsoleView::PositionUpdate(state.position)]
        } else {
            seq![ToConsoleView::PositionUpdate(state.position), ToConsoleView::Stopped]
        }
    } else {
        seq![ToConsoleView::PositionUpdate(state.position)] + event_messages(
            gathered(s.tracks(), s.tracks().len() as int, state.position as int),
        )
    }
}

/// How many Stopped notifications a message list holds.
pub open spec fn count_stopped(msgs: Seq<ToConsoleView>) -> int
    decreases msgs.len(),
{
    if msgs.len() == 0 {
        0
    } else {
        count_stopped(msgs.drop_last()) + if msgs.last() is Stopped {
            1int
        } else {
            0int
        }
    }
}

/// Tagging a moment's events commutes with appending one event.
proof fn lemma_moment_messages_push(ti: usize, s: Seq<EventView>, e: EventView)
    ensures
        moment_messages(ti, s.push(e)) == moment_messages(ti, s).push(
            ToConsoleView::Event(ti, e),
        ),
{
    assert forall|k: int| 0 <= k < s.len() + 1 implies moment_messages(ti, s.push(e))[k]
        == moment_messages(ti, s).push(ToConsoleView::Event(ti, e))[k] by {
        if k < s.len() {
            assert(s.push(e)[k] == s[k]);
        } else {
            assert(s.push(e)[k] == e);
        }
    }
    assert(moment_messages(ti, s.push(e)) =~= moment_messages(ti, s).push(
        ToConsoleView::Event(ti, e),
    ));
}

impl EngineState {
    /// The state a fresh engine starts in: idle at tick 0, at the score's
    /// own pace, not looping.
    pub fn new() -> (r: EngineState)
        ensures
            r == (EngineState {
                halt: false,
                play: false,
                position: 0,
                speed_millis: NORMAL_SPEED_MILLIS,
                looping: false,
            }),
    {
        EngineState { halt: false, play: false, position: 0, speed_millis: NORMAL_SPEED_MILLIS, looping: false }
    }

    /// Apply one control message: halt or the play flag are set directly;
    /// a stop or jump moves the playhead and re-synchronizes the timer to
    /// the tempo in force there; a speed message takes effect only for a
    /// positive speed; the loop flag is set directly.
    pub fn apply_message(&mut self, timer: &mut Timer, score: &Score, message: ToEngine)
        requires
            old(timer).wf(),
            score.wf(),
        ensures
            final(timer).wf(),
            final(timer).ticks_per_beat() == old(timer).ticks_per_beat(),
            final(timer).max_sleep_us() == old(timer).max_sleep_us(),
            final(timer).anchor() == old(timer).anchor(),
            match message {
                ToEngine::Halt => *final(self) == (EngineState { halt: true, ..*old(self) })
                    && *final(timer) == *old(timer),
                ToEngine::Play => *final(self) == (EngineState { play: true, ..*old(self) })
                    && *final(timer) == *old(timer),
                ToEngine::Pause => *final(self) == (EngineState { play: false, ..*old(self) })
                    && *final(timer) == *old(timer),
                ToEngine::Stop => {
                    &&& *final(self) == (EngineState { play: false, position: 0, ..*old(self) })
                    &&& final(timer).speed() == old(timer).speed()
                    &&& final(timer).tick_us() == resync_tick_us(score, 0, *old(timer))
                },
                ToEngine::JumpTo(p) => {
                    &&& *final(self) == (EngineState { position: p, ..*old(self) })
                    &&& final(timer).speed() == old(timer).speed()
                    &&& final(timer).tick_us() == resync_tick_us(score, p as int, *old(timer))
                },
                ToEngine::SetSpeed(s) => {
                    if s > 0 {
                        &&& *final(self) == (EngineState { speed_millis: s, ..*old(self) })
                        &&& final(timer).speed() == s
                        &&& final(timer).tick_us() == old(timer).tick_us()
                    } else {
                        *final(self) == *old(self) && *final(timer) == *old(timer)
                    }
                },
                ToEngine::SetLooping(b) => *final(self) == (EngineState {
                    looping: b,
                    ..*old(self)
                }) && *final(timer) == *old(timer),
            },
    {
        match message {
            ToEngine::Halt => {
                self.halt = true;
            },
            ToEngine::Play => {
                self.play = true;
            },
            ToEngine::Pause => {
                self.play = false;
            },
            ToEngine::Stop => {
                self.play = false;
                self.position = 0;
                match score.get_microseconds_per_beat_at(0) {
                    Some(tempo) => {
                        timer.change_tempo(tempo);
                    },
                    None => {},
                }
            },
            ToEngine::JumpTo(new_position) => {
                self.position = new_position;
                match score.get_microseconds_per_beat_at(new_position) {
                    Some(tempo) => {
                        timer.change_tempo(tempo);
                    },
                    None => {},
                }
            },
            ToEngine::SetSpeed(new_speed) => {
                if new_speed > 0 {
                    self.speed_millis = new_speed;
                    timer.set_speed(new_speed);
                }
            },
            ToEngine::SetLooping(new_state) => {
                self.looping = new_state;
            },
        }
    }
}

/// What one cycle returns to its caller: the messages to deliver, in
/// order, and how long to sleep before the next cycle.
pub struct CycleOutput {
    pub messages: Vec<ToConsole>,
    pub sleep_nanos: u128,
}

impl EngineState {
    /// Run one cycle of the scheduling loop.
    ///
    /// While paused, nothing is emitted and the sleep is the idle interval.
    /// While playing, the cycle reports its position, then: at a tick some
    /// track still covers, it forwards that tick's events in track-then-
    /// moment order — applying each embedded tempo change to the timer in
    /// that order, so later events of the same tick already run under the
    /// new tempo — and advances by the distance to the next event, capped
    /// by how many ticks fit into one maximal sleep (at least one tick, so
    /// the engine always makes progress); past the end of every track it
    /// either rewinds to tick 0 (looping) or stops and says so.
    #[verifier::loop_isolation(false)]
    #[verifier::rlimit(50)]
    pub fn run_cycle(&mut self, timer: &mut Timer, score: &Score, now_nanos: u128) -> (out:
        CycleOutput)
        requires
            old(timer).wf(),
            score.wf(),
        ensures
            final(timer).wf(),
            msgs_view(out.messages@) == cycle_messages_spec(*old(self), score),
            final(self).halt == old(self).halt,
            final(self).looping == old(self).looping,
            final(self).speed_millis == old(self).speed_millis,
            final(timer).ticks_per_beat() == old(timer).ticks_per_beat(),
            final(timer).max_sleep_us() == old(timer).max_sleep_us(),
            final(timer).speed() == old(timer).speed(),
            !old(self).play ==> *final(self) == *old(self) && *final(timer) == *old(timer)
                && out.sleep_nanos == (old(timer).max_sleep_us() as u128) * 1000,
            old(self).play && score.beyond_every_track(old(self).position as int) ==> {
                &&& *final(timer) == *old(timer)
                &&& out.sleep_nanos == 0
                &&& final(self).play == old(self).looping
                &&& (old(self).looping ==> final(self).position == 0)
                &&& (!old(self).looping ==> final(self).position == old(self).position)
            },
            old(self).play && !score.beyond_every_track(old(self).position as int) ==> ({
                let g = gathered(
                    score.tracks(),
                    score.tracks().len() as int,
                    old(self).position as int,
                );
                let new_us = match last_tempo_of_moments(g) {
                    Some(t) => t / (old(timer).ticks_per_beat() as u32),
                    None => old(timer).tick_us(),
                };
                let raw_cap = cap_of(new_us, old(timer).max_sleep_us());
                let cap: int = if raw_cap == 0 {
                    1
                } else {
                    raw_cap as int
                };
                let base: int = match score.next_event_distance(old(self).position as int) {
                    Some(d) => d,
                    None => 1,
                };
                let ticks: int = if base > cap {
                    cap
                } else {
                    base
                };
                let d: int = nominal_nanos(ticks, new_us as int, old(timer).speed() as int);
                &&& final(self).play == old(self).play
                &&& final(timer).tick_us() == new_us
                &&& final(self).position == old(self).position + ticks
                &&& out.sleep_nanos == drift_sleep(old(timer).anchor(), d, now_nanos as int)
                &&& final(timer).anchor() == Some(
                    drift_anchor(old(timer).anchor(), d, now_nanos as int) as u128,
                )
            }),
    {
        if !self.play {
            let idle: u128 = (timer.get_maximum_sleep_microseconds() as u128) * 1000;
            return CycleOutput { messages: Vec::new(), sleep_nanos: idle };
        }

        let position = self.position;
        let ghost g = gathered(score.tracks(), score.tracks().len() as int, position as int);
        let ghost start_us = timer.tick_us();
        let mut messages: Vec<ToConsole> = Vec::new();
        messages.push(ToConsole::PositionUpdate(position));
        proof {
            assert(msgs_view(messages@) =~= seq![
                ToConsoleView::PositionUpdate(position),
            ]);
        }

        match score.gather_all_events_for_index(position) {
            Some(moments) => {
                let mut mi: usize = 0;
                proof {
                    assert(msgs_view(messages@) =~= seq![ToConsoleView::PositionUpdate(position)]
                        + event_messages(g.take(0)));
                }
                while mi < moments.len()
                    invariant
                        0 <= mi <= moments@.len(),
                        moments_view(moments@) == g,
                        msgs_view(messages@) == seq![ToConsoleView::PositionUpdate(position)]
                            + event_messages(g.take(mi as int)),
                        timer.wf(),
                        timer.tick_us() == match last_tempo_of_moments(g.take(mi as int)) {
                            Some(t) => t / (old(timer).ticks_per_beat() as u32),
                            None => start_us,
                        },
                        timer.ticks_per_beat() == old(timer).ticks_per_beat(),
                        timer.max_sleep_us() == old(timer).max_sleep_us(),
                        timer.anchor() == old(timer).anchor(),
                        timer.speed() == old(timer).speed(),
                    decreases moments@.len() - mi,
                {
                    let track_index = moments[mi].0;
                    let ghost es = g[mi as int].1;
                    let ghost outer_us = timer.tick_us();
                    proof {
                        assert(g[mi as int] == (moments@[mi as int].0, moments@[mi as int].1@));
                        assert(es == moments@[mi as int].1@);
                    }
                    let mut ei: usize = 0;
                    proof {
                        assert(moment_messages(track_index, es.take(0))
                            =~= Seq::<ToConsoleView>::empty());
                        assert(msgs_view(messages@) =~= seq![
                            ToConsoleView::PositionUpdate(position),
                        ] + event_messages(g.take(mi as int)) + moment_messages(
                            track_index,
                            es.take(0),
                        ));
                    }
                    while ei < moments[mi].1.events.len()
                        invariant
                            0 <= ei <= es.len(),
                            0 <= mi < moments@.len(),
                            moments_view(moments@) == g,
                            es == moments@[mi as int].1@,
                            track_index == moments@[mi as int].0,
                            msgs_view(messages@) == seq![ToConsoleView::PositionUpdate(position)]
                                + event_messages(g.take(mi as int)) + moment_messages(
                                track_index,
                                es.take(ei as int),
                            ),
                            timer.wf(),
                            timer.tick_us() == match last_tempo_of_events(es.take(ei as int)) {
                                Some(t) => t / (old(timer).ticks_per_beat() as u32),
                                None => outer_us,
                            },
                            outer_us == match last_tempo_of_moments(g.take(mi as int)) {
                                Some(t) => t / (old(timer).ticks_per_beat() as u32),
                                None => start_us,
                            },
                            timer.ticks_per_beat() == old(timer).ticks_per_beat(),
                            timer.max_sleep_us() == old(timer).max_sleep_us(),
                            timer.anchor() == old(timer).anchor(),
                            timer.speed() == old(timer).speed(),
                        decreases es.len() - ei,
                    {
                        proof {
                            assert(es.take(ei + 1).drop_last() =~= es.take(ei as int));
                            assert(es.take(ei + 1).last() == es[ei as int]);
                        }
                        let event = &moments[mi].1.events[ei];
                        proof {
                            assert(event@ == es[ei as int]);
                        }
                        match event.tempo_change() {
                            Some(tempo) => {
                                timer.change_tempo(tempo);
                            },
                            None => {},
                        }
                        let ghost pre = messages@;
                        let copy = event.duplicate();
                        messages.push(ToConsole::Event(track_index, copy));
                        proof {
                            lemma_msgs_view_push(pre, ToConsole::Event(track_index, copy));
                            lemma_moment_messages_push(track_index, es.take(ei as int), es[ei as int]);
                            assert(msgs_view(messages@) =~= seq![
                                ToConsoleView::PositionUpdate(position),
                            ] + event_messages(g.take(mi as int)) + moment_messages(
                                track_index,
                                es.take(ei + 1),
                            ));
                        }
                        ei = ei + 1;
                    }
                    proof {
                        assert(es.take(es.len() as int) =~= es);
                        assert(g.take(mi + 1).drop_last() =~= g.take(mi as int));
                        assert(g.take(mi + 1).last() == g[mi as int]);
                        assert(msgs_view(messages@) =~= seq![
                            ToConsoleView::PositionUpdate(position),
                        ] + event_messages(g.take(mi + 1)));
                    }
                    mi = mi + 1;
                }
                proof {
                    assert(g.take(g.len() as int) =~= g);
                }

                let next = score.calculate_ticks_until_next_events_from_index(position);
                let base: usize = match next {
                    Some(d) => d,
                    None => 1,
                };
                let raw_cap = timer.get_number_of_ticks_that_would_fit_into_maximum_sleep_time();
                let cap: usize = if raw_cap == 0 {
                    1
                } else {
                    raw_cap
                };
                let ticks: usize = if base > cap {
                    cap
                } else {
                    base
                };
                proof {
                    lemma_position_advance_fits(score, position as int, base as int);
                }
                let sleep_nanos = timer.calculate_sleeping_time(ticks, now_nanos);
                self.position = position + ticks;
                CycleOutput { messages, sleep_nanos }
            },
            None => {
                if self.looping {
                    self.position = 0;
                    CycleOutput { messages, sleep_nanos: 0 }
                } else {
                    self.play = false;
                    let ghost pre = messages@;
                    messages.push(ToConsole::Stopped);
                    proof {
                        lemma_msgs_view_push(pre, ToConsole::Stopped);
                        assert(msgs_view(messages@) =~= seq![
                            ToConsoleView::PositionUpdate(position),
                            ToConsoleView::Stopped,
                        ]);
                    }
                    CycleOutput { messages, sleep_nanos: 0 }
                }
            },
        }
    }
}

/// One whole iteration of the engine loop: drain and apply every queued
/// control message; if a halt arrived, report that the loop is over;
/// otherwise run one cycle, deliver its messages, and hand back how long
/// to sleep. Only the sleeping itself is left to the caller.
#[verifier::loop_isolation(false)]
pub fn engine_step(
    state: &mut EngineState,
    timer: &mut Timer,
    score: &Score,
    channel_from_console: &crossbeam_channel::Receiver<ToEngine>,
    channel_to_console: &crossbeam_channel::Sender<ToConsole>,
    now_nanos: u128,
) -> (r: Result<Option<u128>, Error>)
    requires
        old(timer).wf(),
        score.wf(),
    ensures
        final(timer).wf(),
        r matches Ok(None) ==> final(state).halt,
        r matches Ok(Some(_)) ==> !final(state).halt,
        r matches Err(e) ==> e is Channel,
{
    let inbox = channel_drain(channel_from_console);
    let mut i: usize = 0;
    while i < inbox.len()
        invariant
            timer.wf(),
        decreases inbox@.len() - i,
    {
        let message = inbox[i];
        state.apply_message(timer, score, message);
        i = i + 1;
    }
    if state.halt {
        return Ok(None);
    }

    let output = state.run_cycle(timer, score, now_nanos);
    let mut messages = output.messages;
    while messages.len() > 0
        invariant
            timer.wf(),
        decreases messages@.len(),
    {
        let message = messages.remove(0);
        match channel_send(channel_to_console, message) {
            Ok(()) => {},
            Err(returned) => {
                return Err(Error::Channel(returned));
            },
        }
    }
    Ok(Some(output.sleep_nanos))
}

/// The stop notification is reported exactly once: the cycle that finds a
/// playing, non-looping run past the end of every track emits one Stopped
/// message (after its position report), and leaves a paused state — and a
/// paused state's cycles emit nothing at all until a new control message
/// arrives.
pub proof fn lemma_stopped_reported_once(state: EngineState, score: &Score)
    requires
        state.play,
        !state.looping,
        score.beyond_every_track(state.position as int),
    ensures
        cycle_messages_spec(state, score) == seq![
            ToConsoleView::PositionUpdate(state.position),
            ToConsoleView::Stopped,
        ],
        count_stopped(cycle_messages_spec(state, score)) == 1,
        forall|later: EngineState|
            !later.play ==> count_stopped(#[trigger] cycle_messages_spec(later, score)) == 0,
{
    let msgs = cycle_messages_spec(state, score);
    assert(msgs.drop_last() =~= seq![ToConsoleView::PositionUpdate(state.position)]);
    assert(msgs.drop_last().drop_last() =~= Seq::<ToConsoleView>::empty());
    assert(count_stopped(msgs.drop_last().drop_last()) == 0);
    assert(count_stopped(msgs.drop_last()) == 0);
    assert(count_stopped(msgs) == 1);
    assert forall|later: EngineState| !later.play implies count_stopped(
        #[trigger] cycle_messages_spec(later, score),
    ) == 0 by {
        assert(cycle_messages_spec(later, score) == Seq::<ToConsoleView>::empty());
        assert(count_stopped(Seq::<ToConsoleView>::empty()) == 0);
    }
}

/// A position that some track still covers can advance by the distance to
/// the next event (or by one tick) without leaving the machine's range.
proof fn lemma_position_advance_fits(score: &Score, position: int, base: int)
    requires
        score.wf(),
        0 <= position,
        !score.beyond_every_track(position),
        base == match score.next_event_distance(position) {
            Some(d) => d,
            None => 1int,
        },
    ensures
        1 <= base,
        position + base <= usize::MAX,
{
    crate::score::lemma_max_track_len(score.tracks(), score.tracks().len() as int);
    let ti = choose|ti: int|
        0 <= ti < score.tracks().len() && position < (#[trigger] score.tracks()[ti]).grid().len();
    crate::track::lemma_grid_len_bound(score.tracks()[ti]);
    match score.next_event_distance(position) {
        Some(d) => {
            lemma_next_tick_in_score(score, position + 1);
        },
        None => {},
    }
}

/// Whatever tick the event search finds lies inside the score.
proof fn lemma_next_tick_in_score(score: &Score, m: int)
    requires
        score.wf(),
        0 <= m,
    ensures
        match score.next_event_tick_from(m) {
            Some(t) => m <= t < score.length() && score.length() <= usize::MAX,
            None => true,
        },
    decreases score.length() - m,
{
    crate::score::lemma_max_track_len(score.tracks(), score.tracks().len() as int);
    if m < score.length() {
        lemma_next_tick_in_score(score, m + 1);
    }
    match score.next_event_tick_from(m) {
        Some(t) => {
            let ti = choose|ti: int|
                0 <= ti < score.tracks().len() && (#[trigger] score.tracks()[ti]).grid().len()
                    == score.length();
            crate::track::lemma_grid_len_bound(score.tracks()[ti]);
        },
        None => {},
    }
}

} // verus!
