use vstd::prelude::*;

verus! {

/// An SMPTE time-of-day stamp, as carried by an SMPTE-offset meta event.
///
/// The frame rate is stored as its frame count per second (24, 25, 29 or 30),
/// so that the whole stamp is made of plain integers.
#[derive(Clone, Copy, Debug, PartialEq, Eq, Hash, Structural)]
pub struct SmpteTime {
    pub hour: u8,
    pub minute: u8,
    pub second: u8,
    pub frame: u8,
    pub subframe: u8,
    pub frames_per_second: u8,
}

/// A channel-voice message payload: the musical content of a [`MidiEvent`].
///
/// Key, velocity, controller and program values are 7-bit quantities and the
/// pitch-bend value is a 14-bit quantity; they are held here as plain `u8`
/// and `u16` values.
#[derive(Clone, Copy, Debug, PartialEq, Eq, Hash, Structural)]
pub enum MidiMessage {
    /// Stop playing a note.
    NoteOff { key: u8, vel: u8 },
    /// Start playing a note.
    NoteOn { key: u8, vel: u8 },
    /// Modify the velocity of a note after it has been played.
    Aftertouch { key: u8, vel: u8 },
    /// Modify the value of a MIDI controller.
    Controller { controller: u8, value: u8 },
    /// Change the program (instrument) for a channel.
    ProgramChange { program: u8 },
    /// Change the note velocity of a whole channel at once.
    ChannelAftertouch { vel: u8 },
    /// Set the pitch-bend value for the entire channel.
    PitchBend { bend: u16 },
}

/// A channel-voice event: the channel it is addressed to and its message.
#[derive(Clone, Copy, Debug, PartialEq, Eq, Hash, Structural)]
pub struct MidiEvent {
    /// The channel this event is to be sent to.
    pub channel: u8,
    /// The message body.
    pub message: MidiMessage,
}

/// A non-performance annotation embedded in a track.
#[derive(Clone, Debug, PartialEq, Eq, Hash)]
pub enum MetaEvent {
    /// The number of the track; may be empty, defaulting to the track index.
    TrackNumber(Option<u16>),
    /// Arbitrary text associated to an instant.
    Text(Vec<u8>),
    /// A copyright notice.
    Copyright(Vec<u8>),
    /// The name of the track.
    TrackName(Vec<u8>),
    /// The name of the current instrument.
    InstrumentName(Vec<u8>),
    /// Arbitrary lyric information associated to an instant.
    Lyric(Vec<u8>),
    /// Arbitrary marker text associated to an instant.
    Marker(Vec<u8>),
    /// Arbitrary cue-point text associated to an instant.
    CuePoint(Vec<u8>),
    /// The name of the current program.
    ProgramName(Vec<u8>),
    /// The name of the device this score was intended to be played with.
    DeviceName(Vec<u8>),
    /// The number of the MIDI channel this score was intended for.
    MidiChannel(u8),
    /// The number of the MIDI port this score was intended for.
    MidiPort(u8),
    /// Marks the end of a track.
    EndOfTrack,
    /// The amount of microseconds per beat (quarter note), a 24-bit quantity.
    Tempo(u32),
    /// An offset for the starting point of a track, in SMPTE time of day.
    SmpteOffset(SmpteTime),
    /// Numerator, denominator, MIDI clocks per click, 32nd notes per quarter.
    TimeSignature(u8, u8, u8, u8),
    /// Fifths count (negative for flats, positive for sharps) and whether the
    /// scale is minor (`true`) rather than major (`false`).
    KeySignature(i8, bool),
    /// Arbitrary data intended for the sequencer.
    SequencerSpecific(Vec<u8>),
    /// An unknown or malformed meta event: its raw identifier byte plus its
    /// payload.
    Unknown(u8, Vec<u8>),
}

/// Any event that can occur at a tick of a track.
#[derive(Clone, Debug, PartialEq, Eq, Hash)]
pub enum Event {
    /// A channel-voice event.
    Midi(MidiEvent),
    /// A system-exclusive payload.
    SysEx(Vec<u8>),
    /// An escape payload.
    Escape(Vec<u8>),
    /// A meta event.
    Meta(MetaEvent),
}

/// The mathematical value of a [`MetaEvent`]: the same variants, with every
/// byte vector abstracted to a sequence.
pub enum MetaEventView {
    TrackNumber(Option<u16>),
    Text(Seq<u8>),
    Copyright(Seq<u8>),
    TrackName(Seq<u8>),
    InstrumentName(Seq<u8>),
    Lyric(Seq<u8>),
    Marker(Seq<u8>),
    CuePoint(Seq<u8>),
    ProgramName(Seq<u8>),
    DeviceName(Seq<u8>),
    MidiChannel(u8),
    MidiPort(u8),
    EndOfTrack,
    Tempo(u32),
    SmpteOffset(SmpteTime),
    TimeSignature(u8, u8, u8, u8),
    KeySignature(i8, bool),
    SequencerSpecific(Seq<u8>),
    Unknown(u8, Seq<u8>),
}

/// The mathematical value of an [`Event`].
pub enum EventView {
    Midi(MidiEvent),
    SysEx(Seq<u8>),
    Escape(Seq<u8>),
    Meta(MetaEventView),
}

impl View for MetaEvent {
    type V = MetaEventView;

    open spec fn view(&self) -> MetaEventView {
        match self {
            MetaEvent::TrackNumber(n) => MetaEventView::TrackNumber(*n),
            MetaEvent::Text(d) => MetaEventView::Text(d@),
            MetaEvent::Copyright(d) => MetaEventView::Copyright(d@),
            MetaEvent::TrackName(d) => MetaEventView::TrackName(d@),
            MetaEvent::InstrumentName(d) => MetaEventView::InstrumentName(d@),
            MetaEvent::Lyric(d) => MetaEventView::Lyric(d@),
            MetaEvent::Marker(d) => MetaEventView::Marker(d@),
            MetaEvent::CuePoint(d) => MetaEventView::CuePoint(d@),
            MetaEvent::ProgramName(d) => MetaEventView::ProgramName(d@),
            MetaEvent::DeviceName(d) => MetaEventView::DeviceName(d@),
            MetaEvent::MidiChannel(c) => MetaEventView::MidiChannel(*c),
            MetaEvent::MidiPort(p) => MetaEventView::MidiPort(*p),
            MetaEvent::EndOfTrack => MetaEventView::EndOfTrack,
            MetaEvent::Tempo(t) => MetaEventView::Tempo(*t),
            MetaEvent::SmpteOffset(s) => MetaEventView::SmpteOffset(*s),
            MetaEvent::TimeSignature(a, b, c, d) => MetaEventView::TimeSignature(*a, *b, *c, *d),
            MetaEvent::KeySignature(f, m) => MetaEventView::KeySignature(*f, *m),
            MetaEvent::SequencerSpecific(d) => MetaEventView::SequencerSpecific(d@),
            MetaEvent::Unknown(id, d) => MetaEventView::Unknown(*id, d@),
        }
    }
}

impl View for Event {
    type V = EventView;

    open spec fn view(&self) -> EventView {
        match self {
            Event::Midi(m) => EventView::Midi(*m),
            Event::SysEx(d) => EventView::SysEx(d@),
            Event::Escape(d) => EventView::Escape(d@),
            Event::Meta(m) => EventView::Meta(m@),
        }
    }
}

impl EventView {
    /// The tempo this event sets, if it is a tempo meta event.
    pub open spec fn tempo_change(self) -> Option<u32> {
        match self {
            EventView::Meta(MetaEventView::Tempo(t)) => Some(t),
            _ => None,
        }
    }
}

impl Event {
    /// Whether this event is the end-of-track marker.
    pub fn is_end_of_track(&self) -> (r: bool)
        ensures
            r == (self@ == EventView::Meta(MetaEventView::EndOfTrack)),
    {
        matches!(self, Event::Meta(MetaEvent::EndOfTrack))
    }

    /// The tempo this event sets, if it is a tempo meta event.
    pub fn tempo_change(&self) -> (r: Option<u32>)
        ensures
            r == self@.tempo_change(),
    {
        match self {
            Event::Meta(MetaEvent::Tempo(t)) => Some(*t),
            _ => None,
        }
    }
}

/// An exact copy of a byte vector.
fn dup_bytes(data: &Vec<u8>) -> (r: Vec<u8>)
    ensures
        r@ == data@,
{
    let r = data.clone();
    proof {
        assert(r@ =~= data@);
    }
    r
}

impl MetaEvent {
    /// An exact copy of this meta event.
    pub fn duplicate(&self) -> (r: MetaEvent)
        ensures
            r@ == self@,
    {
        match self {
            MetaEvent::TrackNumber(n) => MetaEvent::TrackNumber(*n),
            MetaEvent::Text(d) => MetaEvent::Text(dup_bytes(d)),
            MetaEvent::Copyright(d) => MetaEvent::Copyright(dup_bytes(d)),
            MetaEvent::TrackName(d) => MetaEvent::TrackName(dup_bytes(d)),
            MetaEvent::InstrumentName(d) => MetaEvent::InstrumentName(dup_bytes(d)),
            MetaEvent::Lyric(d) => MetaEvent::Lyric(dup_bytes(d)),
            MetaEvent::Marker(d) => MetaEvent::Marker(dup_bytes(d)),
            MetaEvent::CuePoint(d) => MetaEvent::CuePoint(dup_bytes(d)),
            MetaEvent::ProgramName(d) => MetaEvent::ProgramName(dup_bytes(d)),
            MetaEvent::DeviceName(d) => MetaEvent::DeviceName(dup_bytes(d)),
            MetaEvent::MidiChannel(c) => MetaEvent::MidiChannel(*c),
            MetaEvent::MidiPort(p) => MetaEvent::MidiPort(*p),
            MetaEvent::EndOfTrack => MetaEvent::EndOfTrack,
            MetaEvent::Tempo(t) => MetaEvent::Tempo(*t),
            MetaEvent::SmpteOffset(s) => MetaEvent::SmpteOffset(*s),
            MetaEvent::TimeSignature(a, b, c, d) => MetaEvent::TimeSignature(*a, *b, *c, *d),
            MetaEvent::KeySignature(f, m) => MetaEvent::KeySignature(*f, *m),
            MetaEvent::SequencerSpecific(d) => MetaEvent::SequencerSpecific(dup_bytes(d)),
            MetaEvent::Unknown(id, d) => MetaEvent::Unknown(*id, dup_bytes(d)),
        }
    }
}

impl Event {
    /// An exact copy of this event.
    pub fn duplicate(&self) -> (r: Event)
        ensures
            r@ == self@,
    {
        match self {
            Event::Midi(m) => Event::Midi(*m),
            Event::SysEx(d) => Event::SysEx(dup_bytes(d)),
            Event::Escape(d) => Event::Escape(dup_bytes(d)),
            Event::Meta(m) => Event::Meta(m.duplicate()),
        }
    }
}

} // verus!
