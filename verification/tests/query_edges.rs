// Edge cases of the score queries and of the engine's message drain.

use midi_file_performer::{
    engine_step, EngineState, Event, Format, MetaEvent, MidiEvent, MidiMessage, Score, SmfData,
    Timer, Timing, ToEngine, ToConsole,
};

fn note_on() -> Event {
    Event::Midi(MidiEvent { channel: 0, message: MidiMessage::NoteOn { key: 60, vel: 100 } })
}

#[test]
fn tempo_query_before_the_first_of_several_changes_answers_none() {
    // Two tempo changes, the first at tick 100: a tick before it (other
    // than tick 0, which always answers the first entry) has no change in
    // force yet.
    let items: Vec<(u32, Event)> = vec![
        (100, Event::Meta(MetaEvent::Tempo(500000))),
        (100, Event::Meta(MetaEvent::Tempo(250000))),
        (100, note_on()),
    ];
    let data = SmfData {
        timing: Timing::Metrical(480),
        format: Format::SingleTrack,
        tracks: vec![items],
    };
    let score = Score::new(&data).ok().unwrap();
    assert_eq!(score.get_microseconds_per_beat_at(0), Some(500000));
    assert_eq!(score.get_microseconds_per_beat_at(50), None);
    assert_eq!(score.get_microseconds_per_beat_at(100), Some(500000));
    assert_eq!(score.get_microseconds_per_beat_at(200), Some(250000));
    assert_eq!(score.get_microseconds_per_beat_at(250), Some(250000));
}

#[test]
fn single_change_is_in_force_everywhere_inside_the_score() {
    let items: Vec<(u32, Event)> = vec![
        (100, Event::Meta(MetaEvent::Tempo(500000))),
        (100, note_on()),
    ];
    let data = SmfData {
        timing: Timing::Metrical(480),
        format: Format::SingleTrack,
        tracks: vec![items],
    };
    let score = Score::new(&data).ok().unwrap();
    // With a single entry the query answers it even before its tick.
    assert_eq!(score.get_microseconds_per_beat_at(50), Some(500000));
}

#[test]
fn no_next_event_after_the_last_one() {
    let items: Vec<(u32, Event)> = vec![
        (0, Event::Meta(MetaEvent::Tempo(500000))),
        (10, note_on()),
    ];
    let data = SmfData {
        timing: Timing::Metrical(480),
        format: Format::SingleTrack,
        tracks: vec![items],
    };
    let score = Score::new(&data).ok().unwrap();
    assert_eq!(score.calculate_ticks_until_next_events_from_index(9), Some(1));
    assert_eq!(score.calculate_ticks_until_next_events_from_index(10), None);
    assert_eq!(score.calculate_ticks_until_next_events_from_index(500), None);
}

#[test]
fn drained_messages_apply_in_order_and_the_last_wins() {
    let items: Vec<(u32, Event)> = vec![
        (0, Event::Meta(MetaEvent::Tempo(500000))),
        (960, note_on()),
    ];
    let data = SmfData {
        timing: Timing::Metrical(480),
        format: Format::SingleTrack,
        tracks: vec![items],
    };
    let score = Score::new(&data).ok().unwrap();
    let mut state = EngineState::new();
    let mut timer = Timer::new(Timing::Metrical(480), 10_000).ok().unwrap();
    let (to_engine, from_console) = crossbeam_channel::unbounded::<ToEngine>();
    let (to_console, _from_engine) = crossbeam_channel::unbounded::<ToConsole>();

    to_engine.send(ToEngine::JumpTo(5)).ok().unwrap();
    to_engine.send(ToEngine::Play).ok().unwrap();
    to_engine.send(ToEngine::Pause).ok().unwrap();
    to_engine.send(ToEngine::JumpTo(7)).ok().unwrap();
    let r = engine_step(&mut state, &mut timer, &score, &from_console, &to_console, 0);
    assert!(matches!(r, Ok(Some(_))));
    assert!(!state.play);
    assert_eq!(state.position, 7);
}
