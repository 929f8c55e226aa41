use soundy::midi::{
    MidiChunk, MidiDivision, MidiEvent, MidiFileError, MidiTrack, TrackEvent, TrackEventKind,
};

fn header(tpq: u16) -> MidiChunk {
    MidiChunk::Header { division: MidiDivision::TicksPerQuarterNote { ticks_per_quarter_note: tpq } }
}

fn note_on(delta: u32, channel: u8, note: u8, velocity: u8) -> TrackEvent {
    TrackEvent { delta_time: delta, kind: TrackEventKind::NoteOn { channel, note, velocity } }
}

fn note_off(delta: u32, channel: u8, note: u8) -> TrackEvent {
    TrackEvent { delta_time: delta, kind: TrackEventKind::NoteOff { channel, note } }
}

fn tempo(delta: u32, bytes: Vec<u8>) -> TrackEvent {
    TrackEvent { delta_time: delta, kind: TrackEventKind::Meta { meta_type: 0x51, bytes } }
}

#[test]
fn events_are_sorted_and_tempo_is_exact() {
    let chunks = vec![
        header(96),
        MidiChunk::Track {
            events: vec![tempo(0, vec![0x07, 0xA1, 0x20]), note_on(10, 0, 60, 100), note_off(5, 0, 60)],
        },
        MidiChunk::Track { events: vec![note_on(3, 0, 62, 90)] },
    ];
    let t = MidiTrack::from_midi_file(&chunks).unwrap();
    assert_eq!(t.ticks_per_beat, 96);
    let times: Vec<u64> = t.events.iter().map(|e| e.time).collect();
    assert_eq!(times, vec![0, 3, 10, 15]);
    // 500_000 microseconds per beat: 60_000_000 / 500_000 = 120 beats per minute.
    assert_eq!(t.events[0].inner, MidiEvent::SetTempo { microseconds_per_beat: 500_000 });
    assert_eq!(60_000_000 / 500_000, 120);
    assert_eq!(t.events[1].inner, MidiEvent::NoteOn { channel: 1, note: 62, velocity: 90 });
}

#[test]
fn equal_ticks_keep_file_order() {
    let chunks = vec![
        header(48),
        MidiChunk::Track { events: vec![note_on(4, 3, 60, 1)] },
        MidiChunk::Track { events: vec![note_on(4, 3, 61, 2)] },
        MidiChunk::Track { events: vec![note_on(4, 3, 62, 3)] },
    ];
    let t = MidiTrack::from_midi_file(&chunks).unwrap();
    let notes: Vec<MidiEvent> = t.events.iter().map(|e| e.inner).collect();
    assert_eq!(
        notes,
        vec![
            MidiEvent::NoteOn { channel: 3, note: 60, velocity: 1 },
            MidiEvent::NoteOn { channel: 3, note: 61, velocity: 2 },
            MidiEvent::NoteOn { channel: 3, note: 62, velocity: 3 },
        ]
    );
}

#[test]
fn channel_is_raised_to_track_index() {
    let chunks = vec![
        MidiChunk::Track { events: vec![] },
        header(96),
        MidiChunk::Track { events: vec![] },
        MidiChunk::Track { events: vec![note_on(0, 0, 60, 100), note_off(1, 0, 60), note_on(0, 5, 61, 100)] },
    ];
    let t = MidiTrack::from_midi_file(&chunks).unwrap();
    assert_eq!(t.events[0].inner, MidiEvent::NoteOn { channel: 2, note: 60, velocity: 100 });
    assert_eq!(t.events[1].inner, MidiEvent::NoteOff { channel: 2, note: 60 });
    assert_eq!(t.events[2].inner, MidiEvent::NoteOn { channel: 5, note: 61, velocity: 100 });
}

#[test]
fn other_meta_events_are_dropped() {
    let chunks = vec![
        header(96),
        MidiChunk::Track {
            events: vec![
                TrackEvent { delta_time: 7, kind: TrackEventKind::Meta { meta_type: 0x2F, bytes: vec![] } },
                TrackEvent { delta_time: 1, kind: TrackEventKind::Other },
                note_on(2, 0, 60, 1),
            ],
        },
    ];
    let t = MidiTrack::from_midi_file(&chunks).unwrap();
    assert_eq!(t.events.len(), 1);
    assert_eq!(t.events[0].time, 10);
}

#[test]
fn missing_header_is_an_error() {
    let chunks = vec![MidiChunk::Track { events: vec![note_on(0, 0, 60, 1)] }];
    assert_eq!(MidiTrack::from_midi_file(&chunks).unwrap_err(), MidiFileError::MissingHeader);
}

#[test]
fn smpte_division_is_an_error() {
    let chunks = vec![MidiChunk::Header { division: MidiDivision::Smpte }];
    assert_eq!(MidiTrack::from_midi_file(&chunks).unwrap_err(), MidiFileError::UnsupportedDivision);
}

#[test]
fn short_or_zero_tempo_is_an_error() {
    let short = vec![header(96), MidiChunk::Track { events: vec![tempo(0, vec![1, 2])] }];
    assert_eq!(MidiTrack::from_midi_file(&short).unwrap_err(), MidiFileError::InvalidTempo);
    let zero = vec![header(96), MidiChunk::Track { events: vec![tempo(0, vec![0, 0, 0])] }];
    assert_eq!(MidiTrack::from_midi_file(&zero).unwrap_err(), MidiFileError::InvalidTempo);
}
