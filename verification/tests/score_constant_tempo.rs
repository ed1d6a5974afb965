// A score with one track at 480 ticks per beat and a constant tempo of
// 500000 microseconds per beat: a tempo event at tick 0 and a note every
// 960 ticks through tick 15360, so the grid spans 15361 ticks.

use midi_file_performer::{Event, Format, MetaEvent, MidiEvent, MidiMessage, Score, SmfData, Timing};

fn note_on() -> Event {
    Event::Midi(MidiEvent { channel: 0, message: MidiMessage::NoteOn { key: 60, vel: 100 } })
}

fn constant_tempo_score() -> Score {
    let mut items: Vec<(u32, Event)> = Vec::new();
    items.push((0, Event::Meta(MetaEvent::Tempo(500000))));
    let mut k = 0;
    while k < 16 {
        items.push((960, note_on()));
        k += 1;
    }
    items.push((0, Event::Meta(MetaEvent::EndOfTrack)));
    let data = SmfData {
        timing: Timing::Metrical(480),
        format: Format::SingleTrack,
        tracks: vec![items],
    };
    Score::new(&data).ok().unwrap()
}

#[test]
pub fn len() {
    let score = constant_tempo_score();
    assert_eq!(score.len(), 15361);
}

#[test]
pub fn get_microseconds_per_beat_changes() {
    let score = constant_tempo_score();
    assert_eq!(score.get_microseconds_per_beat_changes(), &vec![(0usize, 500000u32)]);
}

#[test]
pub fn get_tempo_at_zero() {
    let score = constant_tempo_score();
    assert_eq!(score.get_microseconds_per_beat_at(0), Some(500000));
}

#[test]
pub fn get_tempo_at_beyond() {
    let score = constant_tempo_score();
    assert_eq!(score.get_microseconds_per_beat_at(1_000_000), None);
}

#[test]
pub fn get_tempo_at_intermediate() {
    let score = constant_tempo_score();
    assert_eq!(score.get_microseconds_per_beat_at(0 + 1), Some(500000));
    assert_eq!(score.get_microseconds_per_beat_at(3840), Some(500000));
    assert_eq!(score.get_microseconds_per_beat_at(5760), Some(500000));
    assert_eq!(score.get_microseconds_per_beat_at(7680), Some(500000));
    assert_eq!(score.get_microseconds_per_beat_at(8640), Some(500000));
    assert_eq!(score.get_microseconds_per_beat_at(9600), Some(500000));
    assert_eq!(score.get_microseconds_per_beat_at(10560), Some(500000));
    assert_eq!(score.get_microseconds_per_beat_at(11520), Some(500000));
}

#[test]
pub fn calculate_duration() {
    let score = constant_tempo_score();
    // 15361 ticks at 500000 / 480 = 1041 whole microseconds each.
    assert_eq!(score.calculate_duration(1000), 15361 * 1041 * 1000);
}

#[test]
pub fn calculate_duration_until() {
    let score = constant_tempo_score();
    assert_eq!(score.calculate_duration_until(1000, 3841), 3841 * 1041 * 1000);
}

#[test]
pub fn calculate_ticks_until_next_events_from_index_1() {
    let score = constant_tempo_score();
    assert_eq!(score.calculate_ticks_until_next_events_from_index(0), Some(960));
}

#[test]
pub fn calculate_ticks_until_next_events_from_index_2() {
    let score = constant_tempo_score();
    assert_eq!(score.calculate_ticks_until_next_events_from_index(1), Some(959));
}

#[test]
pub fn calculate_ticks_until_next_events_from_index_3() {
    let score = constant_tempo_score();
    assert_eq!(score.calculate_ticks_until_next_events_from_index(959), Some(1));
}

#[test]
pub fn calculate_ticks_until_next_events_from_index_4() {
    let score = constant_tempo_score();
    assert_eq!(score.calculate_ticks_until_next_events_from_index(960), Some(960));
}
