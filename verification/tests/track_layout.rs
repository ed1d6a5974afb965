// Track construction and the sequential merge: grids, the skip-ahead
// lookup table, and moments.

use midi_file_performer::{
    Event, Format, MetaEvent, MidiEvent, MidiMessage, Moment, Score, SimultaneousEvents, SmfData,
    Timing, Track,
};

fn note(key: u8) -> Event {
    Event::Midi(MidiEvent { channel: 0, message: MidiMessage::NoteOn { key, vel: 100 } })
}

#[test]
fn end_of_track_delta_does_not_inflate_the_grid() {
    let items: Vec<(u32, Event)> = vec![
        (0, Event::Meta(MetaEvent::Tempo(500000))),
        (4, note(60)),
        (1000, Event::Meta(MetaEvent::EndOfTrack)),
    ];
    let track = Track::from_events(&items);
    assert_eq!(track.len(), 5);
    assert_eq!(track.get_all_tempos(), &[(0usize, 500000u32)]);
}

#[test]
fn ticks_until_next_event_codex_matches_the_grid() {
    // Events at ticks 0, 4 (twice) and 7: the table holds, for each tick
    // before the last event, the distance to the next event.
    let items: Vec<(u32, Event)> = vec![
        (0, note(60)),
        (4, note(61)),
        (0, note(62)),
        (3, note(63)),
    ];
    let track = Track::from_events(&items);
    assert_eq!(track.len(), 8);
    assert_eq!(track.calculate_ticks_until_next_event_codex(), vec![4, 3, 2, 1, 3, 2, 1]);
}

#[test]
fn append_concatenates_and_offsets() {
    let first: Vec<(u32, Event)> = vec![(0, Event::Meta(MetaEvent::Tempo(500000))), (4, note(60))];
    let second: Vec<(u32, Event)> = vec![(2, Event::Meta(MetaEvent::Tempo(250000))), (1, note(61))];
    let mut a = Track::from_events(&first);
    let mut b = Track::from_events(&second);
    assert_eq!(a.len(), 5);
    assert_eq!(b.len(), 4);
    a.append(&mut b);
    assert_eq!(a.len(), 9);
    assert_eq!(b.len(), 0);
    // The second track's tempo change at its tick 2 now stands at tick 7.
    assert_eq!(a.get_all_tempos(), &[(0usize, 500000u32), (7usize, 250000u32)]);
    match a.get_events(8) {
        Some(Some(moment)) => assert_eq!(moment.events, vec![note(61)]),
        _ => panic!("the second track's note must stand at tick 8"),
    }
}

#[test]
fn sequential_format_merges_tracks_end_to_end() {
    // Track lengths 481 and 961 concatenate to one track of length 1442,
    // with the second track's ticks offset by 481.
    let first: Vec<(u32, Event)> = vec![(0, Event::Meta(MetaEvent::Tempo(500000))), (480, note(60))];
    let second: Vec<(u32, Event)> = vec![(960, note(61))];
    let data = SmfData {
        timing: Timing::Metrical(480),
        format: Format::Sequential,
        tracks: vec![first, second],
    };
    let score = Score::new(&data).ok().unwrap();
    assert_eq!(score.get_track_count(), 1);
    assert_eq!(score.len(), 481 + 961);
    // The second track's note at its tick 960 now stands at tick 1441.
    assert_eq!(score.calculate_ticks_until_next_events_from_index(480), Some(961));
    match score.gather_all_events_for_index(1441) {
        Some(found) => {
            assert_eq!(found.len(), 1);
            assert_eq!(found[0].0, 0);
            assert_eq!(found[0].1.events, vec![note(61)]);
        },
        None => panic!("the offset note must be found"),
    }
}

#[test]
fn parallel_format_keeps_tracks_apart() {
    let first: Vec<(u32, Event)> = vec![(0, Event::Meta(MetaEvent::Tempo(500000))), (480, note(60))];
    let second: Vec<(u32, Event)> = vec![(960, note(61))];
    let data = SmfData {
        timing: Timing::Metrical(480),
        format: Format::Parallel,
        tracks: vec![first, second],
    };
    let score = Score::new(&data).ok().unwrap();
    assert_eq!(score.get_track_count(), 2);
    assert_eq!(score.len(), 961);
    match score.gather_all_events_for_index(960) {
        Some(found) => {
            assert_eq!(found.len(), 1);
            assert_eq!(found[0].0, 1);
        },
        None => panic!("the second track's note must be found"),
    }
    // Tick 700 is inside the second track but empty everywhere: the answer
    // distinguishes "nothing here" from "the score is over".
    match score.gather_all_events_for_index(700) {
        Some(found) => assert_eq!(found.len(), 0),
        None => panic!("tick 700 is still inside the score"),
    }
    assert!(score.gather_all_events_for_index(2000).is_none());
}

#[test]
fn moments_keep_event_order() {
    let mut simultaneous = SimultaneousEvents::new(vec![note(60)]);
    simultaneous.push(note(61));
    assert_eq!(simultaneous.events, vec![note(60), note(61)]);
    let copy = simultaneous.duplicate();
    assert_eq!(copy, simultaneous);

    let mut moment = Moment::default();
    assert!(moment.is_empty());
    moment.push(note(62));
    moment.push(Event::Meta(MetaEvent::Tempo(500000)));
    assert!(!moment.is_empty());
    assert_eq!(moment.get_events(), &[note(62), Event::Meta(MetaEvent::Tempo(500000))]);
}

#[test]
fn spin_lock_returns() {
    midi_file_performer::spin_lock(0);
    midi_file_performer::spin_lock(50_000);
}
