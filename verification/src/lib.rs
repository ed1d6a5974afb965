//! Plays back a previously parsed multi-track musical score against
//! wall-clock time, honoring the tempo changes embedded in the score and a
//! user-set speed multiplier, and exposes transport controls together with
//! a non-blocking poll of timed output events.
//!
//! The caller's side and the engine's side communicate only through two
//! ordered message queues. [`Performer::try_new`] builds both sides; the
//! surrounding program gives the [`EngineSide`] its own execution context,
//! where [`engine_step`] decides everything and the context only sleeps
//! between steps.

pub mod channel;
pub mod engine;
pub mod error;
pub mod event;
pub mod messages;
pub mod moment;
pub mod score;
pub mod sleep;
pub mod timer;
pub mod track;

use vstd::prelude::*;

use channel::{channel_drain, channel_send, new_channel};
use messages::msgs_view;
use score::score_built;

pub use engine::Error as EngineError;
pub use engine::{engine_step, CycleOutput, EngineState, MAXIMUM_SLEEP_MICROSECONDS};
pub use error::Error;
pub use event::{Event, MetaEvent, MidiEvent, MidiMessage, SmpteTime};
pub use messages::{ToConsole, ToEngine};
pub use moment::{Moment, SimultaneousEvents};
pub use score::Error as ScoreError;
pub use score::{Format, Score, SmfData, Timing};
pub use sleep::spin_lock;
pub use timer::{sleep_duration_without_readjustment, Timer, NORMAL_SPEED_MILLIS};
pub use track::Track;

use event::EventView;
use messages::ToConsoleView;

verus! {

/// Whether the caller is shown as playing after a run of engine messages:
/// a stop notification pauses the mirror, and nothing else touches it.
pub open spec fn fold_is_playing(msgs: Seq<ToConsoleView>, init: bool) -> bool
    decreases msgs.len(),
{
    if msgs.len() == 0 {
        init
    } else {
        match msgs.last() {
            ToConsoleView::Stopped => false,
            _ => fold_is_playing(msgs.drop_last(), init),
        }
    }
}

/// The mirrored position after a run of engine messages: the last position
/// report wins.
pub open spec fn fold_position(msgs: Seq<ToConsoleView>, init: usize) -> usize
    decreases msgs.len(),
{
    if msgs.len() == 0 {
        init
    } else {
        match msgs.last() {
            ToConsoleView::PositionUpdate(p) => p,
            _ => fold_position(msgs.drop_last(), init),
        }
    }
}

/// The renderable events of a run of engine messages: every channel-voice
/// event paired with its track index, in arrival order; position reports,
/// stop notifications and non-performance events are not surfaced.
pub open spec fn midi_events_of(msgs: Seq<ToConsoleView>) -> Seq<(usize, MidiEvent)>
    decreases msgs.len(),
{
    if msgs.len() == 0 {
        Seq::empty()
    } else {
        midi_events_of(msgs.drop_last()) + match msgs.last() {
            ToConsoleView::Event(ti, EventView::Midi(me)) => seq![(ti, me)],
            _ => Seq::empty(),
        }
    }
}

/// The caller-facing side of a playback session: the score, the caller's
/// endpoints of the two message queues, and an optimistic mirror of the
/// engine's playback state, reconciled from engine messages on every poll.
pub struct Performer {
    score: Score,
    channel_to_engine: crossbeam_channel::Sender<ToEngine>,
    channel_from_engine: crossbeam_channel::Receiver<ToConsole>,
    is_playing: bool,
    position: usize,
    speed_millis: u64,
    looping: bool,
}

/// What the engine's execution context is given: its endpoints of the two
/// message queues, its own copy of the score, and the header timing to
/// build its timer from.
pub struct EngineSide {
    pub channel_from_console: crossbeam_channel::Receiver<ToEngine>,
    pub channel_to_console: crossbeam_channel::Sender<ToConsole>,
    pub score: Score,
    pub timing: Timing,
}

impl Performer {
    /// The score this performer plays.
    pub closed spec fn score(&self) -> Score {
        self.score
    }

    /// The mirrored play flag.
    pub closed spec fn playing(&self) -> bool {
        self.is_playing
    }

    /// The mirrored tick position.
    pub closed spec fn position(&self) -> usize {
        self.position
    }

    /// The mirrored speed multiplier, in thousandths.
    pub closed spec fn speed(&self) -> u64 {
        self.speed_millis
    }

    /// The mirrored loop flag.
    pub closed spec fn looping(&self) -> bool {
        self.looping
    }

    /// The structural invariant: the held score is well formed.
    pub open spec fn wf(&self) -> bool {
        self.score().wf()
    }
}

impl Performer {
    /// Build a playback session from a parsed score file: the caller's
    /// performer and the bundle the engine's execution context needs. The
    /// score must use metrical timing and contain at least one tempo
    /// change; the errors say exactly which requirement failed.
    pub fn try_new(data: &SmfData) -> (r: Result<(Performer, EngineSide), Error>)
        requires
            score::tracks_fit(data),
        ensures
            match r {
                Ok(pair) => {
                    &&& pair.0.wf()
                    &&& score_built(pair.0.score(), data)
                    &&& score_built(pair.1.score, data)
                    &&& pair.1.timing == data.timing
                    &&& !pair.0.playing()
                    &&& pair.0.position() == 0
                    &&& pair.0.speed() == NORMAL_SPEED_MILLIS
                    &&& !pair.0.looping()
                },
                Err(e) => match e {
                    Error::Score(ScoreError::TimingFormat) => score::metrical_ticks(
                        data.timing,
                    ) is None,
                    Error::Score(ScoreError::NoTempo) => score::metrical_ticks(data.timing) is Some
                        && !score::input_has_tempo(data.tracks@),
                    _ => false,
                },
            },
    {
        let score = match Score::new(data) {
            Ok(s) => s,
            Err(e) => {
                return Err(Error::from(e));
            },
        };
        let engine_score = match Score::new(data) {
            Ok(s) => s,
            Err(_) => {
                proof {
                    assert(false);
                }
                vstd::pervasive::unreached()
            },
        };

        let (channel_to_engine, channel_from_console) = new_channel::<ToEngine>();
        let (channel_to_console, channel_from_engine) = new_channel::<ToConsole>();

        let performer = Performer {
            score,
            channel_to_engine,
            channel_from_engine,
            is_playing: false,
            position: 0,
            speed_millis: NORMAL_SPEED_MILLIS,
            looping: false,
        };
        let engine_side = EngineSide {
            channel_from_console,
            channel_to_console,
            score: engine_score,
            timing: data.timing,
        };
        Ok((performer, engine_side))
    }

    /// Build a playback session from a parsed score file that is known to
    /// be playable: metrical timing and at least one tempo change.
    pub fn new(data: &SmfData) -> (r: (Performer, EngineSide))
        requires
            score::tracks_fit(data),
            score::metrical_ticks(data.timing) is Some,
            score::input_has_tempo(data.tracks@),
        ensures
            r.0.wf(),
            score_built(r.0.score(), data),
            score_built(r.1.score, data),
            r.1.timing == data.timing,
            !r.0.playing(),
            r.0.position() == 0,
            r.0.speed() == NORMAL_SPEED_MILLIS,
            !r.0.looping(),
    {
        match Performer::try_new(data) {
            Ok(pair) => pair,
            Err(_) => {
                proof {
                    assert(false);
                }
                vstd::pervasive::unreached()
            },
        }
    }
}

impl Performer {
    /// How many tracks the score holds.
    pub fn get_track_count(&self) -> (r: usize)
        ensures
            r == self.score().tracks().len(),
    {
        self.score.get_track_count()
    }

    /// The mirrored play flag.
    pub fn is_playing(&self) -> (r: bool)
        ensures
            r == self.playing(),
    {
        self.is_playing
    }

    /// The mirrored speed multiplier, in thousandths of the score's pace.
    pub fn get_speed(&self) -> (r: u64)
        ensures
            r == self.speed(),
    {
        self.speed_millis
    }

    /// The mirrored loop flag.
    pub fn is_looping(&self) -> (r: bool)
        ensures
            r == self.looping(),
    {
        self.looping
    }

    /// The length of the score, in ticks.
    pub fn get_length_in_ticks(&self) -> (r: usize)
        ensures
            r as int == self.score().length(),
    {
        self.score.len()
    }

    /// The mirrored position, in ticks.
    pub fn get_position_in_ticks(&self) -> (r: usize)
        ensures
            r == self.position(),
    {
        self.position
    }

    /// The wall-clock length of the whole score at the mirrored speed, in
    /// nanoseconds; maximal under a frozen clock (speed 0).
    pub fn get_length_in_duration(&self) -> (r: u128)
        requires
            self.wf(),
        ensures
            self.speed() == 0 ==> r == u128::MAX,
            self.speed() > 0 ==> r as int == score::duration_fold(
                self.score().changes(),
                self.score().ticks_per_beat() as int,
                self.speed() as int,
                self.score().length(),
                0,
                0,
            ),
    {
        self.score.calculate_duration(self.speed_millis)
    }

    /// The wall-clock time from the beginning of the score to the mirrored
    /// position, at the mirrored speed, in nanoseconds.
    pub fn get_position_in_duration(&self) -> (r: u128)
        requires
            self.wf(),
        ensures
            self.speed() == 0 ==> r == u128::MAX,
            self.speed() > 0 ==> r as int == score::duration_fold(
                self.score().changes(),
                self.score().ticks_per_beat() as int,
                self.speed() as int,
                self.position() as int,
                0,
                0,
            ),
    {
        self.score.calculate_duration_until(self.speed_millis, self.position)
    }

    /// The microseconds-per-beat value in force at the mirrored position
    /// (clamped to the last tick of the score): the score's answer there,
    /// or the first tempo entry where the score answers none.
    pub fn get_current_microseconds_per_beat(&self) -> (r: u32)
        requires
            self.wf(),
        ensures
            ({
                let clamped: int = if self.position() as int >= self.score().length() {
                    self.score().length() - 1
                } else {
                    self.position() as int
                };
                r == match score::tempo_at_spec(
                    self.score().changes(),
                    self.score().length(),
                    clamped,
                ) {
                    Some(t) => t,
                    None => self.score().changes()[0].1,
                }
            }),
    {
        proof {
            assert(self.score().changes()[0].0 < self.score().length());
        }
        let length = self.score.len();
        let position = if self.position >= length {
            length - 1
        } else {
            self.position
        };
        match self.score.get_microseconds_per_beat_at(position) {
            Some(tempo) => tempo,
            None => self.score.get_microseconds_per_beat_changes()[0].1,
        }
    }
}

impl Performer {
    /// Instruct the engine to begin playing. The mirror flips first; a
    /// failed send reports the message that could not be delivered.
    pub fn play(&mut self) -> (r: Result<(), Error>)
        ensures
            final(self).playing(),
            final(self).position() == old(self).position(),
            final(self).speed() == old(self).speed(),
            final(self).looping() == old(self).looping(),
            final(self).score() == old(self).score(),
            r is Ok || r == Err::<(), Error>(Error::Communication(ToEngine::Play)),
    {
        self.is_playing = true;
        match channel_send(&self.channel_to_engine, ToEngine::Play) {
            Ok(()) => Ok(()),
            Err(message) => Err(Error::Communication(message)),
        }
    }

    /// Instruct the engine to pause, keeping the position.
    pub fn pause(&mut self) -> (r: Result<(), Error>)
        ensures
            !final(self).playing(),
            final(self).position() == old(self).position(),
            final(self).speed() == old(self).speed(),
            final(self).looping() == old(self).looping(),
            final(self).score() == old(self).score(),
            r is Ok || r == Err::<(), Error>(Error::Communication(ToEngine::Pause)),
    {
        self.is_playing = false;
        match channel_send(&self.channel_to_engine, ToEngine::Pause) {
            Ok(()) => Ok(()),
            Err(message) => Err(Error::Communication(message)),
        }
    }

    /// Instruct the engine to stop: pause and return the playhead to tick
    /// 0. The mirrored position is reconciled later, from the engine's own
    /// position reports.
    pub fn stop(&mut self) -> (r: Result<(), Error>)
        ensures
            !final(self).playing(),
            final(self).position() == old(self).position(),
            final(self).speed() == old(self).speed(),
            final(self).looping() == old(self).looping(),
            final(self).score() == old(self).score(),
            r is Ok || r == Err::<(), Error>(Error::Communication(ToEngine::Stop)),
    {
        self.is_playing = false;
        match channel_send(&self.channel_to_engine, ToEngine::Stop) {
            Ok(()) => Ok(()),
            Err(message) => Err(Error::Communication(message)),
        }
    }

    /// Instruct the engine to jump to a position inside the score. A
    /// position at or beyond the score's length is rejected before
    /// anything is sent or mirrored.
    pub fn jump_to(&mut self, position: usize) -> (r: Result<(), Error>)
        requires
            old(self).wf(),
        ensures
            final(self).playing() == old(self).playing(),
            final(self).speed() == old(self).speed(),
            final(self).looping() == old(self).looping(),
            final(self).score() == old(self).score(),
            (position as int) >= old(self).score().length() ==> r == Err::<(), Error>(
                Error::BeyondScoreLength,
            ) && final(self).position() == old(self).position(),
            (position as int) < old(self).score().length() ==> final(self).position() == position && (
            r is Ok || r == Err::<(), Error>(Error::Communication(ToEngine::JumpTo(position)))),
    {
        if position >= self.score.len() {
            return Err(Error::BeyondScoreLength);
        }

        self.position = position;

        match channel_send(&self.channel_to_engine, ToEngine::JumpTo(position)) {
            Ok(()) => Ok(()),
            Err(message) => Err(Error::Communication(message)),
        }
    }

    /// Set the playback speed, in thousandths of the score's own pace. A
    /// negative speed is rejected before anything is sent or mirrored;
    /// speed 0 is legal and freezes the clock.
    pub fn set_speed(&mut self, speed_millis: i64) -> (r: Result<(), Error>)
        ensures
            final(self).playing() == old(self).playing(),
            final(self).position() == old(self).position(),
            final(self).looping() == old(self).looping(),
            final(self).score() == old(self).score(),
            speed_millis < 0 ==> r == Err::<(), Error>(Error::NegativeSpeed) && final(self).speed()
                == old(self).speed(),
            speed_millis >= 0 ==> final(self).speed() == speed_millis as u64 && (r is Ok || r
                == Err::<(), Error>(Error::Communication(ToEngine::SetSpeed(speed_millis as u64)))),
    {
        if speed_millis < 0 {
            return Err(Error::NegativeSpeed);
        }

        let speed = speed_millis as u64;
        self.speed_millis = speed;

        match channel_send(&self.channel_to_engine, ToEngine::SetSpeed(speed)) {
            Ok(()) => Ok(()),
            Err(message) => Err(Error::Communication(message)),
        }
    }

    /// Instruct the engine to rewind to the beginning whenever it reaches
    /// the end of the score.
    pub fn set_looping(&mut self, looping: bool) -> (r: Result<(), Error>)
        ensures
            final(self).playing() == old(self).playing(),
            final(self).position() == old(self).position(),
            final(self).speed() == old(self).speed(),
            final(self).score() == old(self).score(),
            final(self).looping() == looping,
            r is Ok || r == Err::<(), Error>(Error::Communication(ToEngine::SetLooping(looping))),
    {
        self.looping = looping;

        match channel_send(&self.channel_to_engine, ToEngine::SetLooping(looping)) {
            Ok(()) => Ok(()),
            Err(message) => Err(Error::Communication(message)),
        }
    }

    /// Ask the engine to terminate. Meant for teardown, where a failure
    /// only means the engine is already gone.
    pub fn halt(&self) -> (r: Result<(), Error>)
        ensures
            r is Ok || r == Err::<(), Error>(Error::Communication(ToEngine::Halt)),
    {
        match channel_send(&self.channel_to_engine, ToEngine::Halt) {
            Ok(()) => Ok(()),
            Err(message) => Err(Error::Communication(message)),
        }
    }
}

impl Performer {
    /// Reconcile the mirror from a run of engine messages and hand back
    /// the renderable events: the last position report wins, a stop
    /// notification pauses the mirror, and every channel-voice event is
    /// returned with its track index, in arrival order.
    #[verifier::loop_isolation(false)]
    pub fn apply_console_messages(&mut self, inbox: Vec<ToConsole>) -> (r: Vec<(usize, MidiEvent)>)
        ensures
            final(self).playing() == fold_is_playing(msgs_view(inbox@), old(self).playing()),
            final(self).position() == fold_position(msgs_view(inbox@), old(self).position()),
            r@ == midi_events_of(msgs_view(inbox@)),
            final(self).speed() == old(self).speed(),
            final(self).looping() == old(self).looping(),
            final(self).score() == old(self).score(),
    {
        let mut out: Vec<(usize, MidiEvent)> = Vec::new();
        let mut i: usize = 0;
        proof {
            assert(msgs_view(inbox@).take(0) =~= Seq::<ToConsoleView>::empty());
            assert(out@ =~= midi_events_of(msgs_view(inbox@).take(0)));
        }
        while i < inbox.len()
            invariant
                0 <= i <= inbox@.len(),
                self.is_playing == fold_is_playing(
                    msgs_view(inbox@).take(i as int),
                    old(self).playing(),
                ),
                self.position == fold_position(
                    msgs_view(inbox@).take(i as int),
                    old(self).position(),
                ),
                out@ == midi_events_of(msgs_view(inbox@).take(i as int)),
                self.speed_millis == old(self).speed(),
                self.looping == old(self).looping(),
                self.score == old(self).score(),
            decreases inbox@.len() - i,
        {
            proof {
                assert(msgs_view(inbox@).take(i + 1).drop_last() =~= msgs_view(inbox@).take(
                    i as int,
                ));
                assert(msgs_view(inbox@).take(i + 1).last() == msgs_view(inbox@)[i as int]);
                assert(msgs_view(inbox@)[i as int] == inbox@[i as int]@);
            }
            match &inbox[i] {
                ToConsole::Event(track_index, event) => {
                    match event {
                        Event::Midi(midi_event) => {
                            out.push((*track_index, *midi_event));
                            proof {
                                assert(out@ =~= midi_events_of(msgs_view(inbox@).take(i + 1)));
                            }
                        },
                        _ => {
                            proof {
                                assert(out@ =~= midi_events_of(msgs_view(inbox@).take(i + 1)));
                            }
                        },
                    }
                },
                ToConsole::Stopped => {
                    self.is_playing = false;
                },
                ToConsole::PositionUpdate(new_position) => {
                    self.position = *new_position;
                },
            }
            i = i + 1;
        }
        proof {
            assert(msgs_view(inbox@).take(inbox@.len() as int) =~= msgs_view(inbox@));
        }
        out
    }

    /// Take every message the engine has queued, reconcile the mirror from
    /// them, and hand back the renderable events. Never blocks; an empty
    /// result only means the engine had queued nothing new.
    pub fn poll(&mut self) -> (r: Vec<(usize, MidiEvent)>)
        ensures
            final(self).speed() == old(self).speed(),
            final(self).looping() == old(self).looping(),
            final(self).score() == old(self).score(),
            exists|msgs: Seq<ToConsoleView>|
                {
                    &&& final(self).playing() == fold_is_playing(msgs, old(self).playing())
                    &&& final(self).position() == fold_position(msgs, old(self).position())
                    &&& r@ == #[trigger] midi_events_of(msgs)
                },
    {
        let inbox = channel_drain(&self.channel_from_engine);
        self.apply_console_messages(inbox)
    }
}

} // verus!
