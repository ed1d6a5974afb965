// The caller-facing surface: construction and its errors, validated
// controls and their mirror, message delivery, and the poll fold.

use midi_file_performer::{
    Error, Event, Format, MetaEvent, MidiEvent, MidiMessage, Performer, ScoreError, SmfData,
    Timing, ToConsole, ToEngine,
};

fn note_on() -> Event {
    Event::Midi(MidiEvent { channel: 0, message: MidiMessage::NoteOn { key: 60, vel: 100 } })
}

fn note_off() -> Event {
    Event::Midi(MidiEvent { channel: 0, message: MidiMessage::NoteOff { key: 60, vel: 0 } })
}

// The score of the one-track walkthrough: ticks per beat 480, one tempo
// meta event of 500000 microseconds per beat at tick 0, a note-on at tick
// 0 and a note-off at tick 480.
fn walkthrough_data() -> SmfData {
    let items: Vec<(u32, Event)> = vec![
        (0, Event::Meta(MetaEvent::Tempo(500000))),
        (0, note_on()),
        (480, note_off()),
    ];
    SmfData { timing: Timing::Metrical(480), format: Format::SingleTrack, tracks: vec![items] }
}

#[test]
fn walkthrough_queries() {
    let (performer, _engine_side) = Performer::new(&walkthrough_data());
    assert_eq!(performer.get_length_in_ticks(), 481);
    assert_eq!(performer.get_track_count(), 1);
    assert_eq!(performer.get_current_microseconds_per_beat(), 500000);
    let (_p2, engine_side) = Performer::new(&walkthrough_data());
    assert_eq!(engine_side.score.get_microseconds_per_beat_at(0), Some(500000));
    assert_eq!(engine_side.score.calculate_ticks_until_next_events_from_index(0), Some(480));
    // 481 ticks of 1041 whole microseconds each (500000 / 480 truncates).
    assert_eq!(engine_side.score.calculate_duration(1000), 481 * 1041 * 1000);
}

#[test]
fn try_new_rejects_timecode() {
    let mut data = walkthrough_data();
    data.timing = Timing::Timecode(25, 40);
    let r = Performer::try_new(&data);
    assert!(matches!(r, Err(Error::Score(ScoreError::TimingFormat))));
}

#[test]
fn try_new_rejects_zero_resolution() {
    let mut data = walkthrough_data();
    data.timing = Timing::Metrical(0);
    let r = Performer::try_new(&data);
    assert!(matches!(r, Err(Error::Score(ScoreError::TimingFormat))));
}

#[test]
fn try_new_rejects_score_without_tempo() {
    let items: Vec<(u32, Event)> = vec![(0, note_on()), (480, note_off())];
    let data = SmfData {
        timing: Timing::Metrical(480),
        format: Format::SingleTrack,
        tracks: vec![items],
    };
    let r = Performer::try_new(&data);
    assert!(matches!(r, Err(Error::Score(ScoreError::NoTempo))));
}

#[test]
fn score_error_wraps_into_surface_error() {
    assert_eq!(Error::from(ScoreError::NoTempo), Error::Score(ScoreError::NoTempo));
    assert_eq!(Error::from(ScoreError::TimingFormat), Error::Score(ScoreError::TimingFormat));
}

#[test]
fn jump_beyond_length_is_rejected_and_mirror_kept() {
    let (mut performer, _engine_side) = Performer::new(&walkthrough_data());
    assert_eq!(performer.jump_to(481), Err(Error::BeyondScoreLength));
    assert_eq!(performer.get_position_in_ticks(), 0);
    assert_eq!(performer.jump_to(100_000), Err(Error::BeyondScoreLength));
    assert_eq!(performer.get_position_in_ticks(), 0);
    assert!(performer.jump_to(480).is_ok());
    assert_eq!(performer.get_position_in_ticks(), 480);
}

#[test]
fn negative_speed_is_rejected_and_mirror_kept() {
    let (mut performer, _engine_side) = Performer::new(&walkthrough_data());
    assert_eq!(performer.set_speed(-1), Err(Error::NegativeSpeed));
    assert_eq!(performer.get_speed(), 1000);
    assert!(performer.set_speed(2000).is_ok());
    assert_eq!(performer.get_speed(), 2000);
    assert!(performer.set_speed(0).is_ok());
    assert_eq!(performer.get_speed(), 0);
}

#[test]
fn controls_mirror_and_send() {
    let (mut performer, engine_side) = Performer::new(&walkthrough_data());
    assert!(!performer.is_playing());
    assert!(performer.play().is_ok());
    assert!(performer.is_playing());
    assert!(performer.pause().is_ok());
    assert!(!performer.is_playing());
    assert!(performer.set_looping(true).is_ok());
    assert!(performer.is_looping());
    assert!(performer.stop().is_ok());
    assert!(performer.halt().is_ok());

    let inbox = &engine_side.channel_from_console;
    assert_eq!(inbox.try_recv(), Ok(ToEngine::Play));
    assert_eq!(inbox.try_recv(), Ok(ToEngine::Pause));
    assert_eq!(inbox.try_recv(), Ok(ToEngine::SetLooping(true)));
    assert_eq!(inbox.try_recv(), Ok(ToEngine::Stop));
    assert_eq!(inbox.try_recv(), Ok(ToEngine::Halt));
    assert!(inbox.try_recv().is_err());
}

#[test]
fn gone_engine_surfaces_communication_error() {
    let (mut performer, engine_side) = Performer::new(&walkthrough_data());
    drop(engine_side);
    // The failed send hands the undelivered message back; the mirror keeps
    // the optimistic update.
    assert_eq!(performer.play(), Err(Error::Communication(ToEngine::Play)));
    assert!(performer.is_playing());
    assert_eq!(
        performer.jump_to(5),
        Err(Error::Communication(ToEngine::JumpTo(5)))
    );
    assert_eq!(performer.get_position_in_ticks(), 5);
}

#[test]
fn poll_is_empty_while_engine_is_silent() {
    let (mut performer, _engine_side) = Performer::new(&walkthrough_data());
    assert_eq!(performer.poll(), Vec::<(usize, MidiEvent)>::new());
}

#[test]
fn poll_surfaces_events_and_reconciles_mirror() {
    let (mut performer, engine_side) = Performer::new(&walkthrough_data());
    assert!(performer.play().is_ok());
    let outbox = &engine_side.channel_to_console;
    outbox.send(ToConsole::PositionUpdate(5)).ok().unwrap();
    outbox.send(ToConsole::Event(0, note_on())).ok().unwrap();
    outbox.send(ToConsole::Event(0, Event::Meta(MetaEvent::Tempo(500000)))).ok().unwrap();
    outbox.send(ToConsole::PositionUpdate(9)).ok().unwrap();
    let events = performer.poll();
    let expected = match note_on() {
        Event::Midi(me) => me,
        _ => unreachable!(),
    };
    assert_eq!(events, vec![(0usize, expected)]);
    assert_eq!(performer.get_position_in_ticks(), 9);
    assert!(performer.is_playing());
}

#[test]
fn poll_notices_stop_exactly_once() {
    let (mut performer, engine_side) = Performer::new(&walkthrough_data());
    assert!(performer.play().is_ok());
    let outbox = &engine_side.channel_to_console;
    outbox.send(ToConsole::PositionUpdate(481)).ok().unwrap();
    outbox.send(ToConsole::Stopped).ok().unwrap();
    assert_eq!(performer.poll(), Vec::<(usize, MidiEvent)>::new());
    assert!(!performer.is_playing());
    assert_eq!(performer.get_position_in_ticks(), 481);
    // The engine is idle now; further polls stay empty and change nothing.
    assert_eq!(performer.poll(), Vec::<(usize, MidiEvent)>::new());
    assert!(!performer.is_playing());
}

#[test]
fn apply_console_messages_folds_in_order() {
    let (mut performer, _engine_side) = Performer::new(&walkthrough_data());
    assert!(performer.play().is_ok());
    let inbox = vec![
        ToConsole::PositionUpdate(3),
        ToConsole::Event(0, note_on()),
        ToConsole::Event(0, Event::Meta(MetaEvent::TrackName(vec![65, 66]))),
        ToConsole::Stopped,
        ToConsole::PositionUpdate(7),
        ToConsole::Event(1, note_off()),
    ];
    let events = performer.apply_console_messages(inbox);
    let on = match note_on() {
        Event::Midi(me) => me,
        _ => unreachable!(),
    };
    let off = match note_off() {
        Event::Midi(me) => me,
        _ => unreachable!(),
    };
    assert_eq!(events, vec![(0usize, on), (1usize, off)]);
    assert_eq!(performer.get_position_in_ticks(), 7);
    assert!(!performer.is_playing());
}

#[test]
fn duration_scales_with_mirror_speed() {
    let (mut performer, _engine_side) = Performer::new(&walkthrough_data());
    let normal = performer.get_length_in_duration();
    assert!(performer.set_speed(2000).is_ok());
    assert_eq!(performer.get_length_in_duration(), normal / 2);
    assert!(performer.set_speed(0).is_ok());
    assert_eq!(performer.get_length_in_duration(), u128::MAX);
}
