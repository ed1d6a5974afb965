// A score with one track at 480 ticks per beat whose tempo changes seven
// times after the opening tempo, and whose last event falls on tick 15360,
// so the grid spans 15361 ticks.

use midi_file_performer::{Event, Format, MetaEvent, MidiEvent, MidiMessage, Score, SmfData, Timing};

fn note_on() -> Event {
    Event::Midi(MidiEvent { channel: 0, message: MidiMessage::NoteOn { key: 64, vel: 90 } })
}

fn changing_tempo_score() -> Score {
    let items: Vec<(u32, Event)> = vec![
        (0, Event::Meta(MetaEvent::Tempo(500000))),
        (3840, Event::Meta(MetaEvent::Tempo(428571))),
        (1920, Event::Meta(MetaEvent::Tempo(500000))),
        (1920, Event::Meta(MetaEvent::Tempo(600000))),
        (960, Event::Meta(MetaEvent::Tempo(545455))),
        (960, Event::Meta(MetaEvent::Tempo(500000))),
        (960, Event::Meta(MetaEvent::Tempo(461538))),
        (960, Event::Meta(MetaEvent::Tempo(500000))),
        (3840, note_on()),
        (0, Event::Meta(MetaEvent::EndOfTrack)),
    ];
    let data = SmfData {
        timing: Timing::Metrical(480),
        format: Format::SingleTrack,
        tracks: vec![items],
    };
    Score::new(&data).ok().unwrap()
}

#[test]
pub fn tests_len() {
    let score = changing_tempo_score();
    assert_eq!(score.len(), 15361);
}

#[test]
pub fn tests_get_microseconds_per_beat_changes() {
    let score = changing_tempo_score();
    assert_eq!(
        score.get_microseconds_per_beat_changes(),
        &vec![
            (0usize, 500000u32),
            (3840, 428571),
            (5760, 500000),
            (7680, 600000),
            (8640, 545455),
            (9600, 500000),
            (10560, 461538),
            (11520, 500000),
        ]
    );
}

#[test]
pub fn tests_get_tempo_at_zero() {
    let score = changing_tempo_score();
    assert_eq!(score.get_microseconds_per_beat_at(0), Some(500000));
}

#[test]
pub fn tests_get_tempo_at_beyond() {
    let score = changing_tempo_score();
    assert_eq!(score.get_microseconds_per_beat_at(1_000_000), None);
}

#[test]
pub fn get_tempo_at_exact() {
    let score = changing_tempo_score();
    assert_eq!(score.get_microseconds_per_beat_at(0), Some(500000));
    assert_eq!(score.get_microseconds_per_beat_at(3840), Some(428571));
    assert_eq!(score.get_microseconds_per_beat_at(5760), Some(500000));
    assert_eq!(score.get_microseconds_per_beat_at(7680), Some(600000));
    assert_eq!(score.get_microseconds_per_beat_at(8640), Some(545455));
    assert_eq!(score.get_microseconds_per_beat_at(9600), Some(500000));
    assert_eq!(score.get_microseconds_per_beat_at(10560), Some(461538));
    assert_eq!(score.get_microseconds_per_beat_at(11520), Some(500000));
}

#[test]
pub fn tests_get_tempo_at_intermediate() {
    let score = changing_tempo_score();
    assert_eq!(score.get_microseconds_per_beat_at(0 + 1), Some(500000));
    assert_eq!(score.get_microseconds_per_beat_at(3840 + 1), Some(428571));
    assert_eq!(score.get_microseconds_per_beat_at(5760 + 1), Some(500000));
    assert_eq!(score.get_microseconds_per_beat_at(7680 + 1), Some(600000));
    assert_eq!(score.get_microseconds_per_beat_at(8640 + 1), Some(545455));
    assert_eq!(score.get_microseconds_per_beat_at(9600 + 1), Some(500000));
    assert_eq!(score.get_microseconds_per_beat_at(10560 + 1), Some(461538));
    assert_eq!(score.get_microseconds_per_beat_at(11520 + 1), Some(500000));
}

#[test]
pub fn tests_calculate_duration() {
    let score = changing_tempo_score();
    // Per-segment whole microseconds per tick: 1041, 892, 1041, 1250, 1136,
    // 1041, 961, then 1041 again from tick 11520 to the end.
    let expected_micros: u128 = 3840 * 1041 + 1920 * 892 + 1920 * 1041 + 960 * 1250 + 960 * 1136
        + 960 * 1041 + 960 * 961 + 3841 * 1041;
    assert_eq!(score.calculate_duration(1000), expected_micros * 1000);
    assert_eq!(score.calculate_duration(1000), 15_919_761_000);
}

#[test]
pub fn tests_calculate_duration_until() {
    let score = changing_tempo_score();
    let expected_micros: u128 = 3840 * 1041 + 1 * 892;
    assert_eq!(score.calculate_duration_until(1000, 3841), expected_micros * 1000);
    assert_eq!(score.calculate_duration_until(1000, 3841), 3_998_332_000);
}
