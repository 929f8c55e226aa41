//! Decoding MIDI files into timelines of note and tempo events.
use itertools::Itertools;
use vstd::prelude::*;

verus! {

/// The library's own view of one chunk of a decoded MIDI file.
pub enum MidiChunk {
    Header { division: MidiDivision },
    Track { events: Vec<TrackEvent> },
    Other,
}

/// How the delta times of a file are to be read.
#[derive(Clone, Copy, PartialEq, Eq, Structural)]
pub enum MidiDivision {
    TicksPerQuarterNote { ticks_per_quarter_note: u16 },
    Smpte,
}

/// One event of a track chunk, before interpretation.
pub struct TrackEvent {
    pub delta_time: u32,
    pub kind: TrackEventKind,
}

/// The messages that interpretation looks at; every other one is `Other`.
pub enum TrackEventKind {
    NoteOn { channel: u8, note: u8, velocity: u8 },
    NoteOff { channel: u8, note: u8 },
    Meta { meta_type: u8, bytes: Vec<u8> },
    Other,
}

/// An interpreted MIDI event.
///
/// A tempo is kept as the file gives it, in microseconds per beat: the tempo
/// in beats per minute is exactly `60_000_000 / microseconds_per_beat`.
#[derive(Clone, Copy, PartialEq, Eq, Structural, Debug)]
pub enum MidiEvent {
    NoteOn { channel: u8, note: u8, velocity: u8 },
    NoteOff { channel: u8, note: u8 },
    SetTempo { microseconds_per_beat: u32 },
}

/// An event at an absolute tick of its timeline.
#[derive(Clone, Copy, PartialEq, Eq, Structural, Debug)]
pub struct MidiTrackAccumulateEvent {
    pub time: u64,
    pub inner: MidiEvent,
}

/// A timeline: the events of every track of a file, sorted by tick.
#[derive(Clone, Debug)]
pub struct MidiTrack {
    pub events: Vec<MidiTrackAccumulateEvent>,
    pub ticks_per_beat: u16,
}

/// Why a MIDI file could not become a timeline.
#[derive(Clone, Copy, PartialEq, Eq, Structural, Debug)]
pub enum MidiFileError {
    /// The bytes are not a MIDI file.
    Malformed,
    /// A set-tempo event holds fewer than three bytes, or a tempo of zero.
    InvalidTempo,
    /// No header chunk.
    MissingHeader,
    /// The header's division is not in ticks per quarter note.
    UnsupportedDivision,
}

pub open spec fn u64_max() -> int {
    0xffff_ffff_ffff_ffff
}

/// The big-endian value of the first three bytes.
pub open spec fn be24(b: Seq<u8>) -> int {
    b[0] as int * 65536 + b[1] as int * 256 + b[2] as int
}

/// The meta event type of a tempo change.
pub const SET_TEMPO: u8 = 0x51;

pub open spec fn is_bad_tempo(k: TrackEventKind) -> bool {
    match k {
        TrackEventKind::Meta { meta_type, bytes } => meta_type == SET_TEMPO && (bytes@.len() < 3
            || be24(bytes@) == 0),
        _ => false,
    }
}

/// The channel a note event of the `k`-th track chunk plays on: the larger of
/// the encoded channel and the track's index (taken modulo 256), for tools
/// that write every track on channel 0.
pub open spec fn effective_channel(channel: u8, k: int) -> u8 {
    let t = (k % 256) as u8;
    if channel >= t { channel } else { t }
}

/// What a raw event of the `k`-th track chunk becomes; `None` for the dropped ones.
pub open spec fn interpret(kind: TrackEventKind, k: int) -> Option<MidiEvent> {
    match kind {
        TrackEventKind::NoteOn { channel, note, velocity } => Some(
            MidiEvent::NoteOn { channel: effective_channel(channel, k), note, velocity },
        ),
        TrackEventKind::NoteOff { channel, note } => Some(
            MidiEvent::NoteOff { channel: effective_channel(channel, k), note },
        ),
        TrackEventKind::Meta { meta_type, bytes } => if meta_type == SET_TEMPO && bytes@.len()
            >= 3 {
            Some(MidiEvent::SetTempo { microseconds_per_beat: be24(bytes@) as u32 })
        } else {
            None
        },
        TrackEventKind::Other => None,
    }
}

/// A note authored on channel 0 in the `k`-th track chunk plays on channel
/// `k`; one authored on a higher channel keeps it.
pub proof fn lemma_channel_workaround(channel: u8, note: u8, velocity: u8, k: int)
    requires
        0 <= k < 256,
    ensures
        interpret(TrackEventKind::NoteOn { channel, note, velocity }, k) == Some(
            MidiEvent::NoteOn { channel: if channel as int >= k { channel } else { k as u8 }, note, velocity },
        ),
        channel == 0 ==> interpret(TrackEventKind::NoteOn { channel, note, velocity }, k) == Some(
            MidiEvent::NoteOn { channel: k as u8, note, velocity },
        ),
{
}

/// A set-tempo event of three or more bytes gives the tempo its first three
/// bytes hold, big-endian, in microseconds per beat: a tempo of exactly
/// `60_000_000 / microseconds_per_beat` beats per minute.
pub proof fn lemma_tempo_event(bytes: Vec<u8>, k: int)
    requires
        bytes@.len() >= 3,
    ensures
        interpret(TrackEventKind::Meta { meta_type: SET_TEMPO, bytes }, k) == Some(
            MidiEvent::SetTempo { microseconds_per_beat: be24(bytes@) as u32 },
        ),
        0 <= be24(bytes@) < 0x100_0000,
{
}

/// The absolute tick of the `n`-th event (counted from 1), saturating at `u64::MAX`.
pub open spec fn prefix_time(evs: Seq<TrackEvent>, n: int) -> int
    decreases n,
{
    if n <= 0 {
        0
    } else {
        let t = prefix_time(evs, n - 1) + evs[n - 1].delta_time;
        if t > u64_max() { u64_max() } else { t }
    }
}

/// The interpreted events among the first `n` events of the `k`-th track chunk.
pub open spec fn track_events(evs: Seq<TrackEvent>, k: int, n: int) -> Seq<MidiTrackAccumulateEvent>
    decreases n,
{
    if n <= 0 {
        seq![]
    } else {
        let prev = track_events(evs, k, n - 1);
        match interpret(evs[n - 1].kind, k) {
            Some(e) => prev.push(MidiTrackAccumulateEvent { time: prefix_time(evs, n) as u64, inner: e }),
            None => prev,
        }
    }
}

pub open spec fn track_ok(evs: Seq<TrackEvent>, n: int) -> bool
    decreases n,
{
    if n <= 0 {
        true
    } else {
        track_ok(evs, n - 1) && !is_bad_tempo(evs[n - 1].kind)
    }
}

/// How many of the first `n` chunks are track chunks.
pub open spec fn track_count(chunks: Seq<MidiChunk>, n: int) -> int
    decreases n,
{
    if n <= 0 {
        0
    } else {
        track_count(chunks, n - 1) + if chunks[n - 1] is Track { 1int } else { 0int }
    }
}

/// The events of the track chunks among the first `n` chunks, in file order.
pub open spec fn collected(chunks: Seq<MidiChunk>, n: int) -> Seq<MidiTrackAccumulateEvent>
    decreases n,
{
    if n <= 0 {
        seq![]
    } else {
        match chunks[n - 1] {
            MidiChunk::Track { events } => collected(chunks, n - 1) + track_events(
                events@,
                track_count(chunks, n - 1),
                events@.len() as int,
            ),
            _ => collected(chunks, n - 1),
        }
    }
}

pub open spec fn chunks_ok(chunks: Seq<MidiChunk>, n: int) -> bool
    decreases n,
{
    if n <= 0 {
        true
    } else {
        chunks_ok(chunks, n - 1) && match chunks[n - 1] {
            MidiChunk::Track { events } => track_ok(events@, events@.len() as int),
            _ => true,
        }
    }
}

/// The division of the first header chunk among the first `n` chunks.
pub open spec fn first_division(chunks: Seq<MidiChunk>, n: int) -> Option<MidiDivision>
    decreases n,
{
    if n <= 0 {
        None
    } else {
        match first_division(chunks, n - 1) {
            Some(d) => Some(d),
            None => match chunks[n - 1] {
                MidiChunk::Header { division } => Some(division),
                _ => None,
            },
        }
    }
}

/// Where an event at tick `t` goes in `s`: just after the last event, counted
/// from the back, whose tick is not later than `t`.
pub open spec fn insert_pos(s: Seq<MidiTrackAccumulateEvent>, t: u64) -> int
    decreases s.len(),
{
    if s.len() == 0 {
        0
    } else if s.last().time <= t {
        s.len() as int
    } else {
        insert_pos(s.drop_last(), t)
    }
}

pub open spec fn insert_by_time(s: Seq<MidiTrackAccumulateEvent>, e: MidiTrackAccumulateEvent) -> Seq<
    MidiTrackAccumulateEvent,
> {
    let p = insert_pos(s, e.time);
    s.take(p).push(e) + s.skip(p)
}

/// The stable sort of `s` by tick: events at the same tick keep their order.
pub open spec fn sort_by_time(s: Seq<MidiTrackAccumulateEvent>) -> Seq<MidiTrackAccumulateEvent>
    decreases s.len(),
{
    if s.len() == 0 {
        s
    } else {
        insert_by_time(sort_by_time(s.drop_last()), s.last())
    }
}

pub open spec fn sorted_by_time(s: Seq<MidiTrackAccumulateEvent>) -> bool {
    forall|i: int, j: int| 0 <= i <= j < s.len() ==> s[i].time <= s[j].time
}

/// The timeline that a decoded file gives, or the error it fails with.
pub open spec fn timeline_of(chunks: Seq<MidiChunk>) -> Result<(Seq<MidiTrackAccumulateEvent>, u16), MidiFileError> {
    let n = chunks.len() as int;
    if !chunks_ok(chunks, n) {
        Err(MidiFileError::InvalidTempo)
    } else {
        match first_division(chunks, n) {
            None => Err(MidiFileError::MissingHeader),
            Some(MidiDivision::Smpte) => Err(MidiFileError::UnsupportedDivision),
            Some(MidiDivision::TicksPerQuarterNote { ticks_per_quarter_note }) => Ok(
                (sort_by_time(collected(chunks, n)), ticks_per_quarter_note),
            ),
        }
    }
}

proof fn lemma_insert_pos_bounds(s: Seq<MidiTrackAccumulateEvent>, t: u64)
    ensures
        0 <= insert_pos(s, t) <= s.len(),
        forall|k: int| insert_pos(s, t) <= k < s.len() ==> s[k].time > t,
        insert_pos(s, t) > 0 ==> s[insert_pos(s, t) - 1].time <= t,
    decreases s.len(),
{
    if s.len() > 0 && s.last().time > t {
        lemma_insert_pos_bounds(s.drop_last(), t);
        assert forall|k: int| insert_pos(s, t) <= k < s.len() implies s[k].time > t by {
            if k < s.len() - 1 {
                assert(s[k] == s.drop_last()[k]);
            }
        }
    }
}

proof fn lemma_track_bad_stays(evs: Seq<TrackEvent>, j: int, n: int)
    requires
        0 <= j < n,
        !track_ok(evs, j + 1),
    ensures
        !track_ok(evs, n),
    decreases n - j,
{
    if n > j + 1 {
        lemma_track_bad_stays(evs, j, n - 1);
    }
}

proof fn lemma_chunks_bad_stays(chunks: Seq<MidiChunk>, i: int, n: int)
    requires
        0 <= i < n,
        !chunks_ok(chunks, i + 1),
    ensures
        !chunks_ok(chunks, n),
    decreases n - i,
{
    if n > i + 1 {
        lemma_chunks_bad_stays(chunks, i, n - 1);
    }
}

proof fn lemma_insert_keeps_sorted(s: Seq<MidiTrackAccumulateEvent>, e: MidiTrackAccumulateEvent)
    requires
        sorted_by_time(s),
    ensures
        sorted_by_time(insert_by_time(s, e)),
        insert_by_time(s, e).len() == s.len() + 1,
{
    lemma_insert_pos_bounds(s, e.time);
    let p = insert_pos(s, e.time);
    let r = insert_by_time(s, e);
    assert(r.len() == s.len() + 1);
    assert forall|i: int| 0 <= i < r.len() implies r[i] == (if i < p { s[i] } else if i == p { e } else { s[i - 1] }) by {}
    assert forall|i: int, j: int| 0 <= i <= j < r.len() implies r[i].time <= r[j].time by {
        if i < p && j > p {
            assert(s[i].time <= s[p - 1].time);
        }
        if i < p && j == p {
            assert(s[i].time <= s[p - 1].time);
        }
    }
}

/// A sorted timeline is sorted by tick, whatever order the events came in.
pub proof fn lemma_sort_by_time_sorted(s: Seq<MidiTrackAccumulateEvent>)
    ensures
        sorted_by_time(sort_by_time(s)),
        sort_by_time(s).len() == s.len(),
    decreases s.len(),
{
    if s.len() > 0 {
        lemma_sort_by_time_sorted(s.drop_last());
        lemma_insert_keeps_sorted(sort_by_time(s.drop_last()), s.last());
    }
}

/// Relies on itertools::Itertools::sorted_by_key, a stable sort: events at
/// the same tick keep their order.
#[verifier::external_body]
fn sort_by_tick(v: Vec<MidiTrackAccumulateEvent>) -> (r: Vec<MidiTrackAccumulateEvent>)
    ensures
        r@ == sort_by_time(v@),
{
    v.into_iter().sorted_by_key(|e| e.time).collect()
}

impl MidiTrack {
    /// Builds the timeline of a decoded file.
    ///
    /// Every track chunk's events get absolute ticks by summing delta times
    /// (saturating at `u64::MAX`); note events take the channel
    /// `effective_channel`, set-tempo meta events (type 0x51) become
    /// `SetTempo`, all else is dropped; the events of all tracks are then
    /// sorted stably by tick. The ticks per beat come from the first header.
    pub fn from_midi_file(chunks: &Vec<MidiChunk>) -> (r: Result<MidiTrack, MidiFileError>)
        ensures
            match timeline_of(chunks@) {
                Ok((evs, tpb)) => r matches Ok(t) && t.events@ == evs && t.ticks_per_beat == tpb,
                Err(e) => r == Err::<MidiTrack, MidiFileError>(e),
            },
            r matches Ok(t) ==> sorted_by_time(t.events@),
    {
        let mut events: Vec<MidiTrackAccumulateEvent> = Vec::new();
        let mut division: Option<MidiDivision> = None;
        let mut k: usize = 0;
        let mut i: usize = 0;
        while i < chunks.len()
            invariant
                i <= chunks.len(),
                k == track_count(chunks@, i as int),
                k <= i,
                division == first_division(chunks@, i as int),
                chunks_ok(chunks@, i as int),
                events@ == collected(chunks@, i as int),
            decreases chunks.len() - i,
        {
            match &chunks[i] {
                MidiChunk::Header { division: d } => {
                    if division.is_none() {
                        division = Some(*d);
                    }
                },
                MidiChunk::Track { events: evs } => {
                    let ghost base = collected(chunks@, i as int);
                    let mut time: u64 = 0;
                    let mut j: usize = 0;
                    while j < evs.len()
                        invariant
                            j <= evs.len(),
                            i < chunks.len(),
                            chunks_ok(chunks@, i as int),
                            chunks@[i as int] matches MidiChunk::Track { events } && events@ == evs@,
                            time == prefix_time(evs@, j as int),
                            track_ok(evs@, j as int),
                            events@ == base + track_events(evs@, k as int, j as int),
                        decreases evs.len() - j,
                    {
                        let ev = &evs[j];
                        time = if time > u64::MAX - ev.delta_time as u64 {
                            u64::MAX
                        } else {
                            time + ev.delta_time as u64
                        };
                        let ghost prev = base + track_events(evs@, k as int, j as int);
                        let inner: Option<MidiEvent> = match &ev.kind {
                            TrackEventKind::NoteOn { channel, note, velocity } => {
                                let t = (k % 256) as u8;
                                let c = if *channel >= t { *channel } else { t };
                                Some(MidiEvent::NoteOn { channel: c, note: *note, velocity: *velocity })
                            },
                            TrackEventKind::NoteOff { channel, note } => {
                                let t = (k % 256) as u8;
                                let c = if *channel >= t { *channel } else { t };
                                Some(MidiEvent::NoteOff { channel: c, note: *note })
                            },
                            TrackEventKind::Meta { meta_type, bytes } => {
                                if *meta_type == SET_TEMPO {
                                    if bytes.len() < 3 {
                                        proof {
                                            lemma_track_bad_stays(evs@, j as int, evs@.len() as int);
                                            lemma_chunks_bad_stays(chunks@, i as int, chunks@.len() as int);
                                        }
                                        return Err(MidiFileError::InvalidTempo);
                                    }
                                    let us: u32 = bytes[0] as u32 * 65536 + bytes[1] as u32 * 256
                                        + bytes[2] as u32;
                                    if us == 0 {
                                        proof {
                                            lemma_track_bad_stays(evs@, j as int, evs@.len() as int);
                                            lemma_chunks_bad_stays(chunks@, i as int, chunks@.len() as int);
                                        }
                                        return Err(MidiFileError::InvalidTempo);
                                    }
                                    Some(MidiEvent::SetTempo { microseconds_per_beat: us })
                                } else {
                                    None
                                }
                            },
                            TrackEventKind::Other => None,
                        };
                        match inner {
                            Some(e) => {
                                let te = MidiTrackAccumulateEvent { time, inner: e };
                                events.push(te);
                                assert(base + track_events(evs@, k as int, j + 1) =~= prev.push(te));
                            },
                            None => {
                                assert(base + track_events(evs@, k as int, j + 1) =~= prev);
                            },
                        }
                        j = j + 1;
                    }
                    k = k + 1;
                    assert(collected(chunks@, i + 1) =~= base + track_events(evs@, (k - 1) as int, evs@.len() as int));
                },
                MidiChunk::Other => {},
            }
            i = i + 1;
        }
        proof {
            assert(chunks@.take(chunks@.len() as int) =~= chunks@);
            lemma_sort_by_time_sorted(collected(chunks@, chunks@.len() as int));
        }
        match division {
            None => Err(MidiFileError::MissingHeader),
            Some(MidiDivision::Smpte) => Err(MidiFileError::UnsupportedDivision),
            Some(MidiDivision::TicksPerQuarterNote { ticks_per_quarter_note }) => Ok(
                MidiTrack { events: sort_by_tick(events), ticks_per_beat: ticks_per_quarter_note },
            ),
        }
    }
}

} // verus!
