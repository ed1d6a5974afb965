// The engine's cycle and message handling: what one cycle emits and how it
// advances, how control messages change the state, and how the step
// function reports a gone receiver.

use midi_file_performer::{
    engine_step, EngineError, EngineState, Event, Format, MetaEvent, MidiEvent, MidiMessage,
    Score, SmfData, Timer, Timing, ToConsole, ToEngine,
};

fn note_on() -> Event {
    Event::Midi(MidiEvent { channel: 0, message: MidiMessage::NoteOn { key: 60, vel: 100 } })
}

fn small_score() -> Score {
    // A tempo and a note at tick 0, another note at tick 960: 961 ticks.
    let items: Vec<(u32, Event)> = vec![
        (0, Event::Meta(MetaEvent::Tempo(500000))),
        (0, note_on()),
        (960, note_on()),
    ];
    let data = SmfData {
        timing: Timing::Metrical(480),
        format: Format::SingleTrack,
        tracks: vec![items],
    };
    Score::new(&data).ok().unwrap()
}

fn fresh_timer() -> Timer {
    Timer::new(Timing::Metrical(480), 10_000).ok().unwrap()
}

#[test]
fn idle_cycle_emits_nothing() {
    let score = small_score();
    let mut state = EngineState::new();
    let mut timer = fresh_timer();
    let out = state.run_cycle(&mut timer, &score, 0);
    assert_eq!(out.messages.len(), 0);
    assert_eq!(out.sleep_nanos, 10_000_000);
    assert!(!state.play);
}

#[test]
fn playing_cycle_reports_position_and_events() {
    let score = small_score();
    let mut state = EngineState::new();
    let mut timer = fresh_timer();
    state.play = true;
    let out = state.run_cycle(&mut timer, &score, 0);
    assert_eq!(out.messages.len(), 3);
    assert_eq!(out.messages[0], ToConsole::PositionUpdate(0));
    assert_eq!(out.messages[1], ToConsole::Event(0, Event::Meta(MetaEvent::Tempo(500000))));
    assert_eq!(out.messages[2], ToConsole::Event(0, note_on()));
    // The tempo of tick 0 governs the advance: 1041 whole microseconds per
    // tick, of which nine fit into one 10000-microsecond sleep; the next
    // event is 960 ticks away, so the cap wins.
    assert_eq!(state.position, 9);
    assert_eq!(out.sleep_nanos, 9 * 1_041_000);
    assert!(state.play);
}

#[test]
fn tempo_applies_in_moment_order() {
    // Two tempo changes on the same tick: the later one must govern what
    // follows.
    let items: Vec<(u32, Event)> = vec![
        (0, Event::Meta(MetaEvent::Tempo(500000))),
        (0, Event::Meta(MetaEvent::Tempo(250000))),
        (960, note_on()),
    ];
    let data = SmfData {
        timing: Timing::Metrical(480),
        format: Format::SingleTrack,
        tracks: vec![items],
    };
    let score = Score::new(&data).ok().unwrap();
    let mut state = EngineState::new();
    let mut timer = fresh_timer();
    state.play = true;
    let out = state.run_cycle(&mut timer, &score, 0);
    // 250000 / 480 = 520 whole microseconds per tick now governs the timer.
    assert_eq!(timer.calculate_duration_of_ticks(1), 520_000);
    assert!(out.messages.len() == 3);
}

#[test]
fn end_of_score_stops_and_reports_once() {
    let score = small_score();
    let mut state = EngineState::new();
    let mut timer = fresh_timer();
    state.play = true;
    state.position = 961;
    let out = state.run_cycle(&mut timer, &score, 0);
    assert_eq!(
        out.messages,
        vec![ToConsole::PositionUpdate(961), ToConsole::Stopped]
    );
    assert_eq!(out.sleep_nanos, 0);
    assert!(!state.play);
    assert_eq!(state.position, 961);

    // The next cycle finds a paused engine: nothing further is reported.
    let quiet = state.run_cycle(&mut timer, &score, 0);
    assert_eq!(quiet.messages.len(), 0);
}

#[test]
fn end_of_score_loops_when_looping() {
    let score = small_score();
    let mut state = EngineState::new();
    let mut timer = fresh_timer();
    state.play = true;
    state.looping = true;
    state.position = 961;
    let out = state.run_cycle(&mut timer, &score, 0);
    assert_eq!(out.messages, vec![ToConsole::PositionUpdate(961)]);
    assert_eq!(out.sleep_nanos, 0);
    assert!(state.play);
    assert_eq!(state.position, 0);
}

#[test]
fn apply_message_changes_state() {
    let score = small_score();
    let mut state = EngineState::new();
    let mut timer = fresh_timer();

    state.apply_message(&mut timer, &score, ToEngine::Play);
    assert!(state.play);
    state.apply_message(&mut timer, &score, ToEngine::Pause);
    assert!(!state.play);
    state.apply_message(&mut timer, &score, ToEngine::SetLooping(true));
    assert!(state.looping);
    state.apply_message(&mut timer, &score, ToEngine::SetSpeed(2000));
    assert_eq!(state.speed_millis, 2000);
    state.apply_message(&mut timer, &score, ToEngine::SetSpeed(0));
    assert_eq!(state.speed_millis, 2000);
    state.apply_message(&mut timer, &score, ToEngine::JumpTo(480));
    assert_eq!(state.position, 480);
    // The jump re-synchronized the tempo, so tick durations follow it.
    assert_eq!(timer.calculate_duration_of_ticks(1), 1_041_000 / 2);
    state.apply_message(&mut timer, &score, ToEngine::Stop);
    assert!(!state.play);
    assert_eq!(state.position, 0);
    state.apply_message(&mut timer, &score, ToEngine::Halt);
    assert!(state.halt);
}

#[test]
fn step_halts_on_halt_message() {
    let score = small_score();
    let mut state = EngineState::new();
    let mut timer = fresh_timer();
    let (to_engine, from_console) = crossbeam_channel::unbounded::<ToEngine>();
    let (to_console, _from_engine) = crossbeam_channel::unbounded::<ToConsole>();
    to_engine.send(ToEngine::Halt).ok().unwrap();
    let r = engine_step(&mut state, &mut timer, &score, &from_console, &to_console, 0);
    assert!(matches!(r, Ok(None)));
    assert!(state.halt);
}

#[test]
fn step_idles_without_messages() {
    let score = small_score();
    let mut state = EngineState::new();
    let mut timer = fresh_timer();
    let (_to_engine, from_console) = crossbeam_channel::unbounded::<ToEngine>();
    let (to_console, from_engine) = crossbeam_channel::unbounded::<ToConsole>();
    let r = engine_step(&mut state, &mut timer, &score, &from_console, &to_console, 0);
    assert!(matches!(r, Ok(Some(10_000_000))));
    assert!(from_engine.try_recv().is_err());
}

#[test]
fn step_reports_gone_receiver() {
    let score = small_score();
    let mut state = EngineState::new();
    let mut timer = fresh_timer();
    state.play = true;
    let (_to_engine, from_console) = crossbeam_channel::unbounded::<ToEngine>();
    let (to_console, from_engine) = crossbeam_channel::unbounded::<ToConsole>();
    drop(from_engine);
    let r = engine_step(&mut state, &mut timer, &score, &from_console, &to_console, 0);
    assert_eq!(r, Err(EngineError::Channel(ToConsole::PositionUpdate(0))));
}

#[test]
fn step_delivers_cycle_messages() {
    let score = small_score();
    let mut state = EngineState::new();
    let mut timer = fresh_timer();
    let (to_engine, from_console) = crossbeam_channel::unbounded::<ToEngine>();
    let (to_console, from_engine) = crossbeam_channel::unbounded::<ToConsole>();
    to_engine.send(ToEngine::Play).ok().unwrap();
    let r = engine_step(&mut state, &mut timer, &score, &from_console, &to_console, 0);
    assert!(matches!(r, Ok(Some(_))));
    assert_eq!(from_engine.try_recv(), Ok(ToConsole::PositionUpdate(0)));
    assert_eq!(
        from_engine.try_recv(),
        Ok(ToConsole::Event(0, Event::Meta(MetaEvent::Tempo(500000))))
    );
    assert_eq!(from_engine.try_recv(), Ok(ToConsole::Event(0, note_on())));
    assert!(from_engine.try_recv().is_err());
}
