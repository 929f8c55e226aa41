//! One sequencer track: a timeline, sixteen channels, the voices sounding on
//! them, a beat clock and a queue of deferred commands.
use crate::bank::{SampleRegion, SoundFontBank};
use crate::midi::{MidiEvent, MidiTrack, MidiTrackAccumulateEvent};
use crate::queue::{apply_queue, playing_after, spec_next_queue, MidiQueueEvent, TimingSet};
use crate::voice::{spec_start_sample, start_sample, VoiceSample};
use vstd::prelude::*;

verus! {

/// Output samples per second.
pub const SAMPLE_RATE: u64 = 44100;

/// The clock advances this many units per output sample, where one beat is
/// `micros_per_beat * SAMPLE_RATE` units.
pub const MICROS_PER_SECOND: u64 = 1_000_000;

/// 120 beats per minute.
pub const DEFAULT_MICROS_PER_BEAT: u32 = 500_000;

/// The bank and patch a MIDI channel plays.
#[derive(Clone, Copy, PartialEq, Eq, Structural, Debug)]
pub struct Channel {
    pub number: u8,
    pub bank_number: u8,
    pub patch_number: u8,
}

/// The state of a track that playing changes.
pub struct TrackState {
    pub voices: Seq<VoiceSample>,
    pub ticks_per_beat: u16,
    pub micros_per_beat: u32,
    pub beat: u64,
    pub beat_frac: u64,
    pub event_index: int,
}

/// A sequencer track.
///
/// The beat clock stands at `beat + beat_frac / (micros_per_beat *
/// SAMPLE_RATE)` beats and the tick clock at that many beats times the
/// timeline's ticks per beat. A voice is the set of cursors with one
/// (channel, note).
pub struct MidiAudioTrack {
    pub midi_track: MidiTrack,
    pub channels: Vec<Channel>,
    pub voices: Vec<VoiceSample>,
    pub micros_per_beat: u32,
    pub beat: u64,
    pub beat_frac: u64,
    pub event_index: usize,
    pub beats_per_bar: u32,
    pub queue: Vec<MidiQueueEvent>,
    pub is_playing: bool,
}

/// The bar that whole beat `b` lies in; with no beats per bar, every beat lies in bar 0.
pub open spec fn bar_of(b: int, beats_per_bar: int) -> int {
    if beats_per_bar <= 0 { 0 } else { b / beats_per_bar }
}

/// The first channel numbered `n` among the first `k`.
pub open spec fn channel_lookup(chs: Seq<Channel>, n: u8, k: int) -> Option<Channel>
    decreases k,
{
    if k <= 0 {
        None
    } else {
        match channel_lookup(chs, n, k - 1) {
            Some(c) => Some(c),
            None => if chs[k - 1].number == n { Some(chs[k - 1]) } else { None },
        }
    }
}

pub open spec fn find_channel_in(chs: Seq<Channel>, n: u8) -> Option<Channel> {
    channel_lookup(chs, n, chs.len() as int)
}

/// The first `n` cursors without those of (`channel`, `note`).
pub open spec fn without_key(vs: Seq<VoiceSample>, channel: u8, note: u8, n: int) -> Seq<VoiceSample>
    decreases n,
{
    if n <= 0 {
        seq![]
    } else {
        let prev = without_key(vs, channel, note, n - 1);
        if vs[n - 1].channel == channel && vs[n - 1].note == note { prev } else { prev.push(vs[n - 1]) }
    }
}

/// The cursors a note starts on the first `n` sample regions.
pub open spec fn started(channel: u8, note: u8, velocity: u8, hs: Seq<SampleRegion>, n: int) -> Seq<VoiceSample>
    decreases n,
{
    if n <= 0 {
        seq![]
    } else {
        let prev = started(channel, note, velocity, hs, n - 1);
        match spec_start_sample(channel, note, velocity, hs[n - 1]) {
            Some(v) => prev.push(v),
            None => prev,
        }
    }
}

/// The cursors of the voice a note-on starts, `None` where it starts none:
/// the channel is unknown, its preset is missing, or no region plays.
pub open spec fn voice_for(chs: Seq<Channel>, channel: u8, note: u8, velocity: u8, bank: SoundFontBank) -> Option<Seq<VoiceSample>> {
    match find_channel_in(chs, channel) {
        None => None,
        Some(c) => match bank.spec_resolve(note as int, velocity as int, c.bank_number, c.patch_number) {
            None => None,
            Some(hs) => {
                let vs = started(channel, note, velocity, hs, hs.len() as int);
                if vs.len() == 0 { None } else { Some(vs) }
            },
        },
    }
}

/// The state after one event: a note-on replaces the voice of its key by
/// the one it starts, if any; a note-off on a channel the track has removes
/// it; a tempo change keeps
/// the whole beat and the tick the clock stands at (`rescaled_frac`).
pub open spec fn interpret_state(st: TrackState, e: MidiEvent, chs: Seq<Channel>, bank: SoundFontBank) -> TrackState {
    match e {
        MidiEvent::NoteOn { channel, note, velocity } => match voice_for(chs, channel, note, velocity, bank) {
            Some(vs) => TrackState {
                voices: without_key(st.voices, channel, note, st.voices.len() as int) + vs,
                ..st
            },
            None => st,
        },
        MidiEvent::NoteOff { channel, note } => if find_channel_in(chs, channel) is Some {
            TrackState { voices: without_key(st.voices, channel, note, st.voices.len() as int), ..st }
        } else {
            st
        },
        MidiEvent::SetTempo { microseconds_per_beat } => if microseconds_per_beat == 0 {
            st
        } else {
            TrackState {
                micros_per_beat: microseconds_per_beat,
                beat_frac: rescaled_frac(
                    st.beat_frac as int,
                    st.micros_per_beat as int,
                    microseconds_per_beat as int,
                    st.ticks_per_beat as int,
                ) as u64,
                ..st
            }
        },
    }
}

/// The fraction of the current beat, over `new_us * SAMPLE_RATE`, that a
/// fraction `frac` over `old_us * SAMPLE_RATE` becomes under a new tempo: the
/// same fraction rounded down, raised where needed to the start of the tick
/// it stood in, so that the tick the clock stands at stays the same (see
/// `lemma_tempo_keeps_position`).
pub open spec fn rescaled_frac(frac: int, old_us: int, new_us: int, tpb: int) -> int {
    let d_old = old_us * SAMPLE_RATE;
    let d_new = new_us * SAMPLE_RATE;
    let lo = frac * new_us / old_us;
    if tpb <= 0 {
        lo
    } else {
        let k = frac * tpb / d_old;
        let start = (k * d_new + tpb - 1) / tpb;
        let r = if lo >= start { lo } else { start };
        if r >= d_new { d_new - 1 } else { r }
    }
}

/// The tick the clock of `st` stands at, rounded down.
pub open spec fn tick_pos(st: TrackState, ticks_per_beat: int) -> int {
    st.beat * ticks_per_beat + st.beat_frac * ticks_per_beat / (st.micros_per_beat * SAMPLE_RATE)
}

pub open spec fn due(st: TrackState, events: Seq<MidiTrackAccumulateEvent>, ticks_per_beat: int) -> bool {
    0 <= st.event_index < events.len() && events[st.event_index].time <= tick_pos(st, ticks_per_beat)
}

/// The state after the next event fires; after the last one, the timeline
/// starts over with both clocks at 0.
pub open spec fn fire(st: TrackState, events: Seq<MidiTrackAccumulateEvent>, chs: Seq<Channel>, bank: SoundFontBank) -> TrackState {
    let s1 = interpret_state(st, events[st.event_index].inner, chs, bank);
    if st.event_index + 1 >= events.len() {
        TrackState { event_index: 0, beat: 0, beat_frac: 0, ..s1 }
    } else {
        TrackState { event_index: st.event_index + 1, ..s1 }
    }
}

/// The state after every due event fired, stopping after a restart.
pub open spec fn run_due(
    st: TrackState,
    events: Seq<MidiTrackAccumulateEvent>,
    ticks_per_beat: int,
    chs: Seq<Channel>,
    bank: SoundFontBank,
) -> TrackState
    decreases events.len() - st.event_index,
{
    if due(st, events, ticks_per_beat) {
        let n = fire(st, events, chs, bank);
        if n.event_index == 0 { n } else { run_due(n, events, ticks_per_beat, chs, bank) }
    } else {
        st
    }
}

/// The whole beat after one more output sample, saturating at `u64::MAX`.
pub open spec fn next_beat(t: MidiAudioTrack) -> int {
    let b = t.beat + (t.beat_frac + MICROS_PER_SECOND) / t.den();
    if b > 0xffff_ffff_ffff_ffff { 0xffff_ffff_ffff_ffffint } else { b }
}

/// The state after the clock moves on by one output sample.
pub open spec fn timed_state(t: MidiAudioTrack) -> TrackState {
    TrackState {
        beat: next_beat(t) as u64,
        beat_frac: ((t.beat_frac + MICROS_PER_SECOND) % t.den()) as u64,
        ..t.state()
    }
}

/// The boundaries the clock meets as it moves on by one output sample: a
/// loop start where it stood at 0, a beat where the whole beat changes, a
/// bar where the bar changes.
pub open spec fn boundaries_of(t: MidiAudioTrack) -> TimingSet {
    TimingSet {
        on_loop: t.beat == 0 && t.beat_frac == 0,
        on_bar: bar_of(t.beat as int, t.beats_per_bar as int) != bar_of(next_beat(t), t.beats_per_bar as int),
        on_beat: next_beat(t) != t.beat,
    }
}

pub open spec fn union(a: TimingSet, b: TimingSet) -> TimingSet {
    TimingSet { on_loop: a.on_loop || b.on_loop, on_bar: a.on_bar || b.on_bar, on_beat: a.on_beat || b.on_beat }
}

/// The cursors of the first `n` after one output frame, exhausted ones dropped.
pub open spec fn ticked(vs: Seq<VoiceSample>, n: int) -> Seq<VoiceSample>
    decreases n,
{
    if n <= 0 {
        seq![]
    } else {
        let prev = ticked(vs, n - 1);
        let t = vs[n - 1].spec_tick();
        if t.exhausted() { prev } else { prev.push(t) }
    }
}

/// After the last event of the timeline fires, the clocks stand at 0 and the
/// next event due is the first, on a later frame.
pub proof fn lemma_timeline_restarts(
    st: TrackState,
    events: Seq<MidiTrackAccumulateEvent>,
    ticks_per_beat: int,
    chs: Seq<Channel>,
    bank: SoundFontBank,
)
    requires
        events.len() > 0,
        st.event_index == events.len() - 1,
        due(st, events, ticks_per_beat),
    ensures
        run_due(st, events, ticks_per_beat, chs, bank) == fire(st, events, chs, bank),
        fire(st, events, chs, bank).event_index == 0,
        fire(st, events, chs, bank).beat == 0,
        fire(st, events, chs, bank).beat_frac == 0,
{
}

/// With four beats to the bar, a frame that reaches whole beat `b + 1` from
/// beat `b` meets a bar boundary exactly when `b + 1` is a multiple of four.
pub proof fn lemma_bar_every_fourth_beat(b: nat)
    ensures
        (bar_of(b as int, 4) != bar_of(b + 1int, 4)) <==> ((b + 1) % 4 == 0),
{
}

/// One output sample's move of a beat clock at whole beat `beat` and
/// fraction `frac` over `den`: the new whole beat (saturating at
/// `u64::MAX`) and fraction.
pub open spec fn clock_step(beat: int, frac: int, den: int) -> (int, int) {
    let b = beat + (frac + MICROS_PER_SECOND) / den;
    (if b > 0xffff_ffff_ffff_ffff { 0xffff_ffff_ffff_ffffint } else { b }, (frac + MICROS_PER_SECOND) % den)
}

/// The clock after `j` output samples.
pub open spec fn clock_after(beat: int, frac: int, den: int, j: nat) -> (int, int)
    decreases j,
{
    if j == 0 {
        (beat, frac)
    } else {
        let (b, f) = clock_after(beat, frac, den, (j - 1) as nat);
        clock_step(b, f, den)
    }
}

/// `tick_timing` moves the clock by one `clock_step`, and reports a beat
/// exactly when the whole beat changes.
pub proof fn lemma_timing_is_clock_step(t: MidiAudioTrack)
    requires
        t.wf(),
    ensures
        (timed_state(t).beat as int, timed_state(t).beat_frac as int) == clock_step(t.beat as int, t.beat_frac as int, t.den()),
        boundaries_of(t).on_beat == (clock_step(t.beat as int, t.beat_frac as int, t.den()).0 != t.beat),
{
    vstd::arithmetic::div_mod::lemma_mod_bound(t.beat_frac + MICROS_PER_SECOND, t.den());
}

/// From the start of a beat, the clock stays in that beat for every sample
/// short of one beat's worth, and reaches the next beat, at its start, on
/// exactly the sample that completes it: at 120 beats per minute and 44100
/// samples per second, the 22050th.
pub proof fn lemma_first_beat(beat: int, den: int, j: nat)
    requires
        den > 0,
        0 <= beat < 0xffff_ffff_ffff_ffff,
        j * MICROS_PER_SECOND <= den,
    ensures
        j * MICROS_PER_SECOND < den ==> clock_after(beat, 0, den, j) == (beat, j * MICROS_PER_SECOND),
        j * MICROS_PER_SECOND == den ==> clock_after(beat, 0, den, j) == (beat + 1, 0int),
    decreases j,
{
    if j > 0 {
        lemma_first_beat(beat, den, (j - 1) as nat);
        let f = (j - 1) * MICROS_PER_SECOND;
        assert(f + MICROS_PER_SECOND == j * MICROS_PER_SECOND);
        if j * MICROS_PER_SECOND < den {
            vstd::arithmetic::div_mod::lemma_basic_div(j * MICROS_PER_SECOND, den);
            vstd::arithmetic::div_mod::lemma_small_mod((j * MICROS_PER_SECOND) as nat, den as nat);
        } else {
            vstd::arithmetic::div_mod::lemma_div_by_self(den);
            vstd::arithmetic::div_mod::lemma_mod_self_0(den);
        }
    }
}

/// A note-on on a channel whose bank and patch name no preset starts no
/// voice and leaves the track as it was.
pub proof fn lemma_missing_preset_no_voice(
    st: TrackState,
    chs: Seq<Channel>,
    channel: u8,
    note: u8,
    velocity: u8,
    bank: SoundFontBank,
)
    requires
        find_channel_in(chs, channel) matches Some(c) && bank.spec_resolve(
            note as int,
            velocity as int,
            c.bank_number,
            c.patch_number,
        ) is None,
    ensures
        voice_for(chs, channel, note, velocity, bank) is None,
        interpret_state(st, MidiEvent::NoteOn { channel, note, velocity }, chs, bank) == st,
{
}

/// With four beats to the bar, the sample that completes a beat reports a
/// beat boundary, and a bar boundary only when the new whole beat is a
/// multiple of four; a sample that completes no beat reports neither.
pub proof fn lemma_beat_boundaries(t: MidiAudioTrack)
    requires
        t.wf(),
        t.beats_per_bar == 4,
        t.beat < 0xffff_ffff_ffff_ffffu64,
        t.beat_frac + MICROS_PER_SECOND <= t.den(),
    ensures
        t.beat_frac + MICROS_PER_SECOND == t.den() ==> boundaries_of(t).on_beat && next_beat(t) == t.beat + 1
            && (boundaries_of(t).on_bar <==> (t.beat + 1) % 4 == 0),
        t.beat_frac + MICROS_PER_SECOND < t.den() ==> !boundaries_of(t).on_beat && !boundaries_of(t).on_bar,
{
    if t.beat_frac + MICROS_PER_SECOND == t.den() {
        vstd::arithmetic::div_mod::lemma_div_by_self(t.den());
        lemma_bar_every_fourth_beat(t.beat as nat);
    } else {
        vstd::arithmetic::div_mod::lemma_basic_div(t.beat_frac + MICROS_PER_SECOND, t.den());
    }
}

impl MidiAudioTrack {
    pub open spec fn den(self) -> int {
        self.micros_per_beat * SAMPLE_RATE
    }

    pub open spec fn state(self) -> TrackState {
        TrackState {
            voices: self.voices@,
            ticks_per_beat: self.midi_track.ticks_per_beat,
            micros_per_beat: self.micros_per_beat,
            beat: self.beat,
            beat_frac: self.beat_frac,
            event_index: self.event_index as int,
        }
    }

    pub open spec fn wf(self) -> bool {
        &&& self.micros_per_beat > 0
        &&& self.beat_frac < self.den()
        &&& (self.event_index < self.midi_track.events@.len() || self.event_index == 0)
        &&& forall|i: int| 0 <= i < self.voices@.len() ==> self.voices@[i].wf()
    }

    /// Whether the track is well formed.
    pub fn is_well_formed(&self) -> (r: bool)
        ensures
            r == self.wf(),
    {
        if self.micros_per_beat == 0 || self.beat_frac >= self.micros_per_beat as u64 * SAMPLE_RATE {
            return false;
        }
        if !(self.event_index < self.midi_track.events.len() || self.event_index == 0) {
            return false;
        }
        let mut i: usize = 0;
        while i < self.voices.len()
            invariant
                i <= self.voices@.len(),
                forall|k: int| 0 <= k < i ==> self.voices@[k].wf(),
            decreases self.voices@.len() - i,
        {
            let v = &self.voices[i];
            if !(v.end <= 0x7fff_ffff * 65536 && v.speed <= 131072 * 32768) {
                return false;
            }
            i = i + 1;
        }
        true
    }

    /// What playing leaves alone.
    pub open spec fn same_setup(self, other: MidiAudioTrack) -> bool {
        &&& self.midi_track.events@ == other.midi_track.events@
        &&& self.midi_track.ticks_per_beat == other.midi_track.ticks_per_beat
        &&& self.channels@ == other.channels@
        &&& self.beats_per_bar == other.beats_per_bar
    }

    /// A track at 120 beats per minute with as many beats to the bar as the
    /// time signature's numerator `time_signature` (none for 0), playing, its clocks at 0; channels 0 to 15 play bank 0 patch 0,
    /// but channel 9, which plays the drum bank 128.
    pub fn new(midi_track: MidiTrack, time_signature: u32) -> (r: MidiAudioTrack)
        ensures
            r.wf(),
            r.midi_track.events@ == midi_track.events@,
            r.midi_track.ticks_per_beat == midi_track.ticks_per_beat,
            r.beats_per_bar == time_signature,
            r.channels@.len() == 16,
            forall|i: int| 0 <= i < 16 ==> r.channels@[i] == (Channel {
                number: i as u8,
                bank_number: if i == 9 { 128u8 } else { 0u8 },
                patch_number: 0,
            }),
            r.voices@.len() == 0,
            r.queue@.len() == 0,
            r.is_playing,
            r.micros_per_beat == DEFAULT_MICROS_PER_BEAT,
            r.beat == 0 && r.beat_frac == 0 && r.event_index == 0,
    {
        let mut channels: Vec<Channel> = Vec::new();
        let mut i: u8 = 0;
        while i < 16
            invariant
                i <= 16,
                channels@.len() == i,
                forall|k: int| 0 <= k < i ==> channels@[k] == (Channel {
                    number: k as u8,
                    bank_number: if k == 9 { 128u8 } else { 0u8 },
                    patch_number: 0,
                }),
            decreases 16 - i,
        {
            channels.push(Channel { number: i, bank_number: if i == 9 { 128 } else { 0 }, patch_number: 0 });
            i = i + 1;
        }
        MidiAudioTrack {
            midi_track,
            channels,
            voices: Vec::new(),
            micros_per_beat: DEFAULT_MICROS_PER_BEAT,
            beat: 0,
            beat_frac: 0,
            event_index: 0,
            beats_per_bar: time_signature,
            queue: Vec::new(),
            is_playing: true,
        }
    }

    /// The track with channel `channel_number` playing the given bank and patch.
    pub fn with_channel_patch(self, channel_number: u8, bank_number: u8, patch_number: u8) -> (r: MidiAudioTrack)
        requires
            self.wf(),
        ensures
            r.wf(),
            find_channel_in(r.channels@, channel_number) == Some(
                Channel { number: channel_number, bank_number, patch_number },
            ),
            forall|n: u8| n != channel_number ==> find_channel_in(r.channels@, n) == find_channel_in(self.channels@, n),
            r.voices@ == self.voices@ && r.queue@ == self.queue@ && r.is_playing == self.is_playing,
            r.midi_track.events@ == self.midi_track.events@,
            r.beats_per_bar == self.beats_per_bar,
    {
        let mut s = self;
        let c = Channel { number: channel_number, bank_number, patch_number };
        let ghost old_chs = s.channels@;
        match channel_index(&s.channels, channel_number) {
            Some(i) => {
                s.channels.set(i, c);
                proof {
                    assert(s.channels@ == old_chs.update(i as int, c));
                    assert forall|n: u8| #![auto] true implies channel_lookup(s.channels@, n, s.channels@.len() as int)
                        == (if n == channel_number { Some(c) } else { channel_lookup(old_chs, n, old_chs.len() as int) }) by {
                        lemma_lookup_after_set(old_chs, i as int, c, n, old_chs.len() as int);
                    }
                }
            },
            None => {
                s.channels.push(c);
                proof {
                    let new_chs = s.channels@;
                    assert forall|n: u8| #![auto] true implies channel_lookup(new_chs, n, new_chs.len() as int)
                        == (if n == channel_number { Some(c) } else { channel_lookup(old_chs, n, old_chs.len() as int) }) by {
                        lemma_lookup_prefix(new_chs, old_chs, n, old_chs.len() as int);
                    }
                }
            },
        }
        s
    }

    /// The track with `event` at the end of its queue.
    pub fn with_queue(self, event: MidiQueueEvent) -> (r: MidiAudioTrack)
        ensures
            r.queue@ == self.queue@.push(event),
            r.state() == self.state() && r.same_setup(self) && r.is_playing == self.is_playing,
    {
        let mut s = self;
        s.queue.push(event);
        s
    }

    /// The track, not playing.
    pub fn stopped(self) -> (r: MidiAudioTrack)
        ensures
            !r.is_playing,
            r.state() == self.state() && r.same_setup(self) && r.queue@ == self.queue@,
    {
        let mut s = self;
        s.is_playing = false;
        s
    }

    /// Moves the beat clock on by one output sample and adds the boundaries
    /// met to `timings`: a loop start where the clock stood at 0, a beat
    /// where the whole beat changes, a bar where the bar changes. The whole
    /// beat saturates at `u64::MAX`.
    pub fn tick_timing(&mut self, timings: &mut TimingSet)
        requires
            old(self).wf(),
        ensures
            final(self).wf(),
            final(self).same_setup(*old(self)),
            final(self).queue@ == old(self).queue@ && final(self).is_playing == old(self).is_playing,
            final(self).state() == timed_state(*old(self)),
            *final(timings) == union(*old(timings), boundaries_of(*old(self))),
    {
        if self.beat == 0 && self.beat_frac == 0 {
            timings.on_loop = true;
        }
        let den: u64 = self.micros_per_beat as u64 * SAMPLE_RATE;
        let total: u64 = self.beat_frac + MICROS_PER_SECOND;
        let carry: u64 = total / den;
        let last_beat = self.beat;
        self.beat_frac = total % den;
        self.beat = if last_beat > u64::MAX - carry { u64::MAX } else { last_beat + carry };
        if last_beat != self.beat {
            timings.on_beat = true;
            if self.beats_per_bar > 0 && last_beat / self.beats_per_bar as u64 != self.beat / self.beats_per_bar as u64 {
                timings.on_bar = true;
            }
        }
    }

    /// Applies the queued commands that fire on `timings`.
    pub fn run_queue(&mut self, timings: &TimingSet)
        ensures
            final(self).queue@ == spec_next_queue(old(self).queue@, *timings),
            final(self).is_playing == playing_after(old(self).queue@, *timings, old(self).queue@.len() as int, old(self).is_playing),
            final(self).state() == old(self).state(),
            final(self).same_setup(*old(self)),
    {
        let q = apply_queue(&self.queue, timings, &mut self.is_playing);
        self.queue = q;
    }

    /// The channel numbered `n`.
    pub fn find_channel(&self, n: u8) -> (r: Option<Channel>)
        ensures
            r == find_channel_in(self.channels@, n),
    {
        match channel_index(&self.channels, n) {
            Some(i) => {
                proof {
                    lemma_lookup_found(self.channels@, n, i as int, self.channels@.len() as int);
                }
                Some(self.channels[i])
            },
            None => None,
        }
    }

    /// The cursors that a note-on on `channel` starts.
    pub fn create_voice(&self, channel: u8, note: u8, velocity: u8, bank: &SoundFontBank) -> (r: Option<Vec<VoiceSample>>)
        ensures
            match voice_for(self.channels@, channel, note, velocity, *bank) {
                None => r is None,
                Some(vs) => r matches Some(v) && v@ == vs,
            },
            r matches Some(v) ==> forall|i: int| 0 <= i < v@.len() ==> v@[i].wf(),
    {
        let c = match self.find_channel(channel) {
            Some(c) => c,
            None => return None,
        };
        let hs = match bank.get_sample_headers(note as i32, velocity as i32, c.bank_number, c.patch_number) {
            Some(hs) => hs,
            None => return None,
        };
        let mut out: Vec<VoiceSample> = Vec::new();
        let mut i: usize = 0;
        while i < hs.len()
            invariant
                i <= hs.len(),
                out@ == started(channel, note, velocity, hs@, i as int),
                forall|k: int| 0 <= k < out@.len() ==> out@[k].wf(),
            decreases hs.len() - i,
        {
            match start_sample(channel, note, velocity, &hs[i]) {
                Some(v) => out.push(v),
                None => {},
            }
            i = i + 1;
        }
        if out.len() == 0 {
            None
        } else {
            Some(out)
        }
    }

    /// Interprets one event on this track.
    pub fn interpret_event(&mut self, event: MidiEvent, bank: &SoundFontBank)
        requires
            old(self).wf(),
        ensures
            final(self).wf(),
            final(self).state() == interpret_state(old(self).state(), event, old(self).channels@, *bank),
            final(self).same_setup(*old(self)),
            final(self).queue@ == old(self).queue@ && final(self).is_playing == old(self).is_playing,
    {
        match event {
            MidiEvent::NoteOn { channel, note, velocity } => {
                match self.create_voice(channel, note, velocity, bank) {
                    Some(vs) => {
                        let mut kept = remove_key(&self.voices, channel, note);
                        let mut vs = vs;
                        let ghost a = kept@;
                        let ghost b = vs@;
                        kept.append(&mut vs);
                        self.voices = kept;
                        assert(self.voices@ == a + b);
                    },
                    None => {},
                }
            },
            MidiEvent::NoteOff { channel, note } => {
                if self.find_channel(channel).is_some() {
                    self.voices = remove_key(&self.voices, channel, note);
                }
            },
            MidiEvent::SetTempo { microseconds_per_beat } => {
                if microseconds_per_beat > 0 {
                    let old_us = self.micros_per_beat;
                    let tpb = self.midi_track.ticks_per_beat as u128;
                    proof {
                        lemma_rescale(self.beat_frac as int, old_us as int, microseconds_per_beat as int);
                        lemma_rescaled_bounds(self.beat_frac as int, old_us as int, microseconds_per_beat as int, tpb as int);
                    }
                    let d_old: u128 = old_us as u128 * SAMPLE_RATE as u128;
                    let d_new: u128 = microseconds_per_beat as u128 * SAMPLE_RATE as u128;
                    let lo: u128 = self.beat_frac as u128 * microseconds_per_beat as u128 / old_us as u128;
                    let f: u128 = if tpb == 0 {
                        lo
                    } else {
                        let k: u128 = self.beat_frac as u128 * tpb / d_old;
                        let start: u128 = (k * d_new + tpb - 1) / tpb;
                        let r: u128 = if lo >= start { lo } else { start };
                        if r >= d_new { d_new - 1 } else { r }
                    };
                    self.beat_frac = f as u64;
                    self.micros_per_beat = microseconds_per_beat;
                }
            },
        }
    }

    /// The tick the clock stands at, rounded down.
    pub fn current_tick(&self) -> (r: u128)
        requires
            self.wf(),
        ensures
            r == tick_pos(self.state(), self.midi_track.ticks_per_beat as int),
    {
        let tpb = self.midi_track.ticks_per_beat as u128;
        let den = self.micros_per_beat as u128 * SAMPLE_RATE as u128;
        assert(self.beat as int * tpb <= 0xffff_ffff_ffff_ffff * 0xffff) by (nonlinear_arith)
            requires self.beat <= 0xffff_ffff_ffff_ffffint, tpb <= 0xffff;
        assert(self.beat_frac as int * tpb <= 0xffff_ffff_ffff_ffff * 0xffff) by (nonlinear_arith)
            requires self.beat_frac <= 0xffff_ffff_ffff_ffffint, tpb <= 0xffff;
        let a = self.beat as u128 * tpb;
        let b = self.beat_frac as u128 * tpb / den;
        proof {
            vstd::arithmetic::div_mod::lemma_div_is_ordered_by_denominator(self.beat_frac as int * tpb, 1, den as int);
        }
        a + b
    }

    /// Fires every event that is due, in order; after the timeline's last
    /// event it starts over with both clocks at 0 and stops until the next frame.
    pub fn tick_midi(&mut self, bank: &SoundFontBank)
        requires
            old(self).wf(),
        ensures
            final(self).wf(),
            final(self).state() == run_due(
                old(self).state(),
                old(self).midi_track.events@,
                old(self).midi_track.ticks_per_beat as int,
                old(self).channels@,
                *bank,
            ),
            final(self).same_setup(*old(self)),
            final(self).queue@ == old(self).queue@ && final(self).is_playing == old(self).is_playing,
    {
        let ghost start = *old(self);
        let ghost evs = start.midi_track.events@;
        let ghost tpb = start.midi_track.ticks_per_beat as int;
        let ghost target = run_due(start.state(), evs, tpb, start.channels@, *bank);
        loop
            invariant
                start == *old(self),
                evs == start.midi_track.events@ && tpb == start.midi_track.ticks_per_beat as int,
                target == run_due(start.state(), evs, tpb, start.channels@, *bank),
                self.wf(),
                self.same_setup(start),
                self.queue@ == start.queue@ && self.is_playing == start.is_playing,
                run_due(self.state(), evs, tpb, start.channels@, *bank) == target,
            decreases self.midi_track.events@.len() - self.event_index,
        {
            let len = self.midi_track.events.len();
            if self.event_index >= len {
                assert(!due(self.state(), evs, tpb));
                return;
            }
            let e = self.midi_track.events[self.event_index];
            let now = self.current_tick();
            if e.time as u128 > now {
                assert(!due(self.state(), evs, tpb));
                return;
            }
            let ghost before = self.state();
            self.interpret_event(e.inner, bank);
            self.event_index = self.event_index + 1;
            if self.event_index >= len {
                self.event_index = 0;
                self.beat = 0;
                self.beat_frac = 0;
                assert(self.state() == fire(before, evs, start.channels@, *bank));
                return;
            }
            assert(self.state() == fire(before, evs, start.channels@, *bank));
        }
    }

    /// Moves every cursor on by one output frame and drops the exhausted ones.
    pub fn advance_voices(&mut self)
        requires
            old(self).wf(),
        ensures
            final(self).wf(),
            final(self).voices@ == ticked(old(self).voices@, old(self).voices@.len() as int),
            final(self).micros_per_beat == old(self).micros_per_beat,
            final(self).beat == old(self).beat && final(self).beat_frac == old(self).beat_frac,
            final(self).event_index == old(self).event_index,
            final(self).same_setup(*old(self)),
            final(self).queue@ == old(self).queue@ && final(self).is_playing == old(self).is_playing,
    {
        let mut out: Vec<VoiceSample> = Vec::new();
        let mut i: usize = 0;
        while i < self.voices.len()
            invariant
                i <= self.voices.len(),
                forall|k: int| 0 <= k < self.voices@.len() ==> self.voices@[k].wf(),
                out@ == ticked(self.voices@, i as int),
                forall|k: int| 0 <= k < out@.len() ==> out@[k].wf(),
            decreases self.voices.len() - i,
        {
            let t = self.voices[i].tick();
            if t.position < t.end {
                out.push(t);
            }
            i = i + 1;
        }
        self.voices = out;
    }
}

/// Where the first channel numbered `n` stands.
fn channel_index(chs: &Vec<Channel>, n: u8) -> (r: Option<usize>)
    ensures
        r matches Some(i) ==> i < chs@.len() && chs@[i as int].number == n && channel_lookup(chs@, n, i as int) is None,
        r is None ==> channel_lookup(chs@, n, chs@.len() as int) is None,
{
    let mut i: usize = 0;
    while i < chs.len()
        invariant
            i <= chs.len(),
            channel_lookup(chs@, n, i as int) is None,
        decreases chs.len() - i,
    {
        if chs[i].number == n {
            return Some(i);
        }
        i = i + 1;
    }
    None
}

/// The cursors without those of (`channel`, `note`).
fn remove_key(vs: &Vec<VoiceSample>, channel: u8, note: u8) -> (r: Vec<VoiceSample>)
    requires
        forall|k: int| 0 <= k < vs@.len() ==> vs@[k].wf(),
    ensures
        r@ == without_key(vs@, channel, note, vs@.len() as int),
        forall|k: int| 0 <= k < r@.len() ==> r@[k].wf(),
{
    let mut out: Vec<VoiceSample> = Vec::new();
    let mut i: usize = 0;
    while i < vs.len()
        invariant
            i <= vs.len(),
            forall|k: int| 0 <= k < vs@.len() ==> vs@[k].wf(),
            out@ == without_key(vs@, channel, note, i as int),
            forall|k: int| 0 <= k < out@.len() ==> out@[k].wf(),
        decreases vs.len() - i,
    {
        if !(vs[i].channel == channel && vs[i].note == note) {
            out.push(vs[i]);
        }
        i = i + 1;
    }
    out
}

proof fn lemma_div_le_cross(x: int, a: int, y: int, b: int)
    requires
        a > 0,
        b > 0,
        x >= 0,
        y >= 0,
        x * b <= y * a,
    ensures
        x / a <= y / b,
{
    let q = x / a;
    vstd::arithmetic::div_mod::lemma_fundamental_div_mod(x, a);
    vstd::arithmetic::div_mod::lemma_div_pos_is_pos(x, a);
    assert(q * a <= x) by (nonlinear_arith)
        requires x == a * q + x % a, x % a >= 0;
    assert(q * b <= y) by (nonlinear_arith)
        requires q * a <= x, x * b <= y * a, a > 0, b > 0, q >= 0;
    vstd::arithmetic::div_mod::lemma_div_is_ordered(q * b, y, b);
    vstd::arithmetic::div_mod::lemma_div_multiples_vanish(q, b);
    assert(q * b == b * q) by (nonlinear_arith);
}

proof fn lemma_rescaled_bounds(frac: int, old_us: int, new_us: int, tpb: int)
    requires
        0 <= frac < old_us * SAMPLE_RATE,
        0 < old_us < 0x1_0000_0000,
        0 < new_us < 0x1_0000_0000,
        0 <= tpb < 0x1_0000,
    ensures
        0 <= rescaled_frac(frac, old_us, new_us, tpb) < new_us * SAMPLE_RATE,
        tpb > 0 ==> frac * tpb < 0x1_0000_0000_0000_0000_0000,
        tpb > 0 ==> 0 <= frac * tpb / (old_us * SAMPLE_RATE) < tpb,
        tpb > 0 ==> (frac * tpb / (old_us * SAMPLE_RATE)) * (new_us * SAMPLE_RATE) + tpb < 0x1_0000_0000_0000_0000_0000,
{
    lemma_rescale(frac, old_us, new_us);
    let d_old = old_us * SAMPLE_RATE;
    let d_new = new_us * SAMPLE_RATE;
    if tpb > 0 {
        assert(frac * tpb < d_old * tpb) by (nonlinear_arith)
            requires frac < d_old, tpb > 0;
        assert(frac * tpb < 0x1_0000_0000_0000_0000_0000) by (nonlinear_arith)
            requires frac < old_us * SAMPLE_RATE, old_us < 0x1_0000_0000, tpb < 0x1_0000, 0 <= frac;
        assert(0 <= frac * tpb) by (nonlinear_arith)
            requires 0 <= frac, tpb > 0;
        vstd::arithmetic::div_mod::lemma_div_pos_is_pos(frac * tpb, d_old);
        let k = frac * tpb / d_old;
        vstd::arithmetic::div_mod::lemma_fundamental_div_mod(frac * tpb, d_old);
        assert(k * d_old <= frac * tpb) by (nonlinear_arith)
            requires frac * tpb == d_old * k + (frac * tpb) % d_old, (frac * tpb) % d_old >= 0;
        assert(k < tpb) by (nonlinear_arith)
            requires k * d_old <= frac * tpb, frac * tpb < d_old * tpb, d_old > 0;
        assert(k * d_new + tpb < 0x1_0000_0000_0000_0000_0000) by (nonlinear_arith)
            requires 0 <= k < tpb, tpb < 0x1_0000, d_new == new_us * SAMPLE_RATE, new_us < 0x1_0000_0000;
        assert(k * d_new >= 0) by (nonlinear_arith)
            requires k >= 0, d_new > 0;
        vstd::arithmetic::div_mod::lemma_div_pos_is_pos(k * d_new + tpb - 1, tpb);
    }
}

/// A tempo change keeps the whole beat and the tick the clock stands at,
/// where a beat has no more ticks than fraction units under the new tempo.
pub proof fn lemma_tempo_change_keeps_tick(st: TrackState, us: u32, chs: Seq<Channel>, bank: SoundFontBank)
    requires
        st.micros_per_beat > 0,
        st.beat_frac < st.micros_per_beat * SAMPLE_RATE,
        us > 0,
        st.ticks_per_beat > 0,
        st.ticks_per_beat <= us * SAMPLE_RATE,
    ensures
        interpret_state(st, MidiEvent::SetTempo { microseconds_per_beat: us }, chs, bank).beat == st.beat,
        interpret_state(st, MidiEvent::SetTempo { microseconds_per_beat: us }, chs, bank).micros_per_beat == us,
        tick_pos(interpret_state(st, MidiEvent::SetTempo { microseconds_per_beat: us }, chs, bank), st.ticks_per_beat as int)
            == tick_pos(st, st.ticks_per_beat as int),
{
    lemma_rescaled_bounds(st.beat_frac as int, st.micros_per_beat as int, us as int, st.ticks_per_beat as int);
    lemma_tempo_keeps_position(st.beat_frac as int, st.micros_per_beat as int, us as int, st.ticks_per_beat as int);
}

/// A tempo change keeps the whole beat and, where a beat has no more ticks
/// than fraction units, the tick the clock stands at.
pub proof fn lemma_tempo_keeps_position(frac: int, old_us: int, new_us: int, tpb: int)
    requires
        0 <= frac < old_us * SAMPLE_RATE,
        0 < old_us < 0x1_0000_0000,
        0 < new_us < 0x1_0000_0000,
        0 < tpb < 0x1_0000,
        tpb <= new_us * SAMPLE_RATE,
    ensures
        rescaled_frac(frac, old_us, new_us, tpb) * tpb / (new_us * SAMPLE_RATE) == frac * tpb / (old_us * SAMPLE_RATE),
{
    lemma_rescaled_bounds(frac, old_us, new_us, tpb);
    lemma_rescale(frac, old_us, new_us);
    let d_old = old_us * SAMPLE_RATE;
    let d_new = new_us * SAMPLE_RATE;
    let lo = frac * new_us / old_us;
    let k = frac * tpb / d_old;
    let start = (k * d_new + tpb - 1) / tpb;
    // lo stays at or below the old position.
    vstd::arithmetic::div_mod::lemma_fundamental_div_mod(frac * new_us, old_us);
    assert(lo * old_us <= frac * new_us) by (nonlinear_arith)
        requires frac * new_us == old_us * lo + (frac * new_us) % old_us, (frac * new_us) % old_us >= 0;
    assert((lo * tpb) * d_old <= (frac * tpb) * d_new) by (nonlinear_arith)
        requires lo * old_us <= frac * new_us, tpb > 0, d_old == old_us * SAMPLE_RATE, d_new == new_us * SAMPLE_RATE;
    assert(lo * tpb >= 0) by (nonlinear_arith)
        requires lo >= 0, tpb > 0;
    lemma_div_le_cross(lo * tpb, d_new, frac * tpb, d_old);
    // start is the first fraction of tick k.
    vstd::arithmetic::div_mod::lemma_fundamental_div_mod(k * d_new + tpb - 1, tpb);
    let m = (k * d_new + tpb - 1) % tpb;
    assert(start * tpb == k * d_new + tpb - 1 - m) by (nonlinear_arith)
        requires k * d_new + tpb - 1 == tpb * start + m;
    assert(k * d_new <= start * tpb < (k + 1) * d_new) by (nonlinear_arith)
        requires start * tpb == k * d_new + tpb - 1 - m, 0 <= m < tpb, tpb <= d_new;
    assert(k * d_new <= (start * tpb) * 1) by (nonlinear_arith)
        requires k * d_new <= start * tpb;
    assert(k >= 0);
    lemma_div_le_cross(k, 1, start * tpb, d_new);
    assert(start * tpb / d_new < k + 1) by {
        let q = start * tpb / d_new;
        vstd::arithmetic::div_mod::lemma_fundamental_div_mod(start * tpb, d_new);
        assert(q * d_new <= start * tpb) by (nonlinear_arith)
            requires start * tpb == d_new * q + (start * tpb) % d_new, (start * tpb) % d_new >= 0;
        assert(q < k + 1) by (nonlinear_arith)
            requires q * d_new <= start * tpb, start * tpb < (k + 1) * d_new, d_new > 0;
    }
    assert(start < d_new) by (nonlinear_arith)
        requires start * tpb < (k + 1) * d_new, k + 1 <= tpb, tpb > 0, d_new > 0;
    assert(lo < d_new);
    if lo >= start {
        assert((start * tpb) * d_new <= (lo * tpb) * d_new) by (nonlinear_arith)
            requires start <= lo, tpb > 0, d_new > 0;
        assert(start * tpb >= 0) by (nonlinear_arith)
            requires start >= 0, tpb > 0;
        lemma_div_le_cross(start * tpb, d_new, lo * tpb, d_new);
        assert(rescaled_frac(frac, old_us, new_us, tpb) == lo);
    } else {
        assert(rescaled_frac(frac, old_us, new_us, tpb) == start);
    }
}

proof fn lemma_rescale(frac: int, old_us: int, new_us: int)
    requires
        0 <= frac < old_us * SAMPLE_RATE,
        0 < old_us < 0x1_0000_0000,
        0 < new_us < 0x1_0000_0000,
    ensures
        0 <= frac * new_us / old_us < new_us * SAMPLE_RATE,
        frac * new_us <= 0xffff_ffff_ffff_ffff_ffff_ffff_ffff,
{
    assert(frac * new_us < old_us * SAMPLE_RATE * new_us) by (nonlinear_arith)
        requires 0 <= frac < old_us * SAMPLE_RATE, new_us > 0;
    assert(old_us * SAMPLE_RATE * new_us == (new_us * SAMPLE_RATE) * old_us) by (nonlinear_arith);
    assert(0 <= frac * new_us) by (nonlinear_arith)
        requires 0 <= frac, new_us > 0;
    vstd::arithmetic::div_mod::lemma_div_pos_is_pos(frac * new_us, old_us);
    vstd::arithmetic::div_mod::lemma_div_is_ordered(frac * new_us, (new_us * SAMPLE_RATE) * old_us - 1, old_us);
    vstd::arithmetic::div_mod::lemma_div_multiples_vanish_fancy(new_us * SAMPLE_RATE - 1, old_us - 1, old_us);
    assert((new_us * SAMPLE_RATE) * old_us - 1 == (new_us * SAMPLE_RATE - 1) * old_us + (old_us - 1)) by (nonlinear_arith);
    assert(frac * new_us <= 0xffff_ffff_ffff_ffff_ffff_ffff_ffff) by (nonlinear_arith)
        requires frac < old_us * SAMPLE_RATE, old_us < 0x1_0000_0000, new_us < 0x1_0000_0000, 0 <= frac;
}

proof fn lemma_lookup_found(chs: Seq<Channel>, n: u8, i: int, k: int)
    requires
        0 <= i < k <= chs.len(),
        chs[i].number == n,
        channel_lookup(chs, n, i) is None,
    ensures
        channel_lookup(chs, n, k) == Some(chs[i]),
    decreases k,
{
    if k > i + 1 {
        lemma_lookup_found(chs, n, i, k - 1);
    }
}

proof fn lemma_lookup_prefix(a: Seq<Channel>, b: Seq<Channel>, n: u8, k: int)
    requires
        0 <= k <= b.len() <= a.len(),
        forall|j: int| 0 <= j < b.len() ==> a[j] == b[j],
    ensures
        channel_lookup(a, n, k) == channel_lookup(b, n, k),
        k == b.len() && a.len() == b.len() + 1 && channel_lookup(b, n, k) is None ==> channel_lookup(a, n, k + 1)
            == (if a[k].number == n { Some(a[k]) } else { None }),
    decreases k,
{
    if k > 0 {
        lemma_lookup_prefix(a, b, n, k - 1);
    }
}

proof fn lemma_lookup_after_set(chs: Seq<Channel>, i: int, c: Channel, n: u8, k: int)
    requires
        0 <= i < k <= chs.len(),
        chs[i].number == c.number,
        channel_lookup(chs, c.number, i) is None,
    ensures
        channel_lookup(chs.update(i, c), n, k) == (if n == c.number { Some(c) } else { channel_lookup(chs, n, k) }),
    decreases k,
{
    if k > i + 1 {
        lemma_lookup_after_set(chs, i, c, n, k - 1);
    } else {
        lemma_lookup_prefix(chs.update(i, c), chs.take(i), n, i);
        lemma_lookup_prefix(chs, chs.take(i), n, i);
    }
}

} // verus!
