//! The mixer: named tracks driven once per output frame, their voices summed
//! and clamped into interleaved 16-bit audio, produced no faster than the
//! consumer keeps up with.
use crate::bank::SoundFontBank;
use crate::midi::MidiEvent;
use crate::queue::{
    added, fires, kept, lemma_fired_once_leaves, playing_after, spec_next_queue, MidiQueueEvent,
    MidiQueueLooping, TimingSet,
};
use crate::track::{boundaries_of, run_due, timed_state, MidiAudioTrack, SAMPLE_RATE};
use crate::voice::{i64_clamp, sum_voices, voices_sum};
use std::collections::VecDeque;
use vstd::prelude::*;

verus! {

/// Names a track of a mixer: the tracks are numbered in the order they were
/// added, from 0.
#[derive(Clone, Copy, PartialEq, Eq, Structural, Hash, Debug)]
pub struct MidiAudioTrackHandle(pub usize);

/// A note was to be played on the first track, and there is none.
#[derive(Clone, Copy, PartialEq, Eq, Structural, Default, Debug)]
pub struct NoTracksError;

/// What the mixer hands out.
#[derive(Clone, Copy, PartialEq, Eq, Structural, Debug)]
pub enum MidiBufferMessage {
    Audio(i16),
}

/// Where a track stands: its whole beat and its tempo.
#[derive(Clone, Copy, PartialEq, Eq, Structural, Default, Debug)]
pub struct SyncedMidiInfo {
    pub beat: u64,
    /// The fraction of the current beat, over `micros_per_beat * 44100`.
    pub beat_frac: u64,
    pub micros_per_beat: u32,
}

pub struct MidiAudio {
    pub tracks: Vec<MidiAudioTrack>,
    pub soundfont: SoundFontBank,
    pub num_audio_channels: u16,
    pub current_audio_channel: u16,
    pub samples_per_second: u32,
}

pub open spec fn i16_clamp(x: int) -> int {
    if x < -32768 { -32768 } else if x > 32767 { 32767 } else { x }
}

/// The output sample for `x`: held within the signed 16-bit range.
pub fn clamp_sample(x: i64) -> (r: i16)
    ensures
        r == i16_clamp(x as int),
{
    if x < -32768 {
        -32768
    } else if x > 32767 {
        32767
    } else {
        x as i16
    }
}

/// A sum beyond the 16-bit range gives its nearest end, never a wrapped value.
pub proof fn lemma_clamp_saturates(x: int)
    ensures
        x > 32767 ==> i16_clamp(x) == 32767,
        x < -32768 ==> i16_clamp(x) == -32768,
        -32768 <= x <= 32767 ==> i16_clamp(x) == x,
{
}

/// The sum over the playing tracks among the first `n` of what their voices
/// add to output channel `ch`, each partial sum held within `i64`.
pub open spec fn tracks_sum(ts: Seq<MidiAudioTrack>, wave: Seq<i16>, ch: int, n: int) -> int
    decreases n,
{
    if n <= 0 {
        0
    } else {
        let prev = tracks_sum(ts, wave, ch, n - 1);
        if ts[n - 1].is_playing {
            i64_clamp(prev + voices_sum(ts[n - 1].voices@, wave, ch, ts[n - 1].voices@.len() as int))
        } else {
            prev
        }
    }
}

/// Track `a` is track `b` after one frame's control step: its clock moved
/// on, its queued commands that fire on the boundaries its own clock met
/// were applied, and, where it then plays, its due events fired.
pub open spec fn stepped(a: MidiAudioTrack, b: MidiAudioTrack, bank: SoundFontBank) -> bool {
    let t = boundaries_of(b);
    let p = playing_after(b.queue@, t, b.queue@.len() as int, b.is_playing);
    &&& a.queue@ == spec_next_queue(b.queue@, t)
    &&& a.is_playing == p
    &&& a.same_setup(b)
    &&& a.state() == if p {
        run_due(timed_state(b), b.midi_track.events@, b.midi_track.ticks_per_beat as int, b.channels@, bank)
    } else {
        timed_state(b)
    }
}

/// `mid` are the tracks of `m` as its next sample is mixed: after the
/// frame's control step where that sample is the frame's first, unchanged
/// otherwise.
pub open spec fn controlled(m: MidiAudio, mid: Seq<MidiAudioTrack>) -> bool {
    &&& mid.len() == m.tracks@.len()
    &&& m.current_audio_channel == 0 ==> forall|i: int| 0 <= i < mid.len() ==> stepped(
        #[trigger] mid[i],
        m.tracks@[i],
        m.soundfont,
    )
    &&& m.current_audio_channel != 0 ==> mid == m.tracks@
}

/// After a frame's control step, no command of a track's queue that fired
/// on the boundaries its own clock met and does not repeat is still among
/// those that stayed, and every repeating command stays queued.
pub proof fn lemma_step_queue(a: MidiAudioTrack, b: MidiAudioTrack, bank: SoundFontBank)
    requires
        stepped(a, b, bank),
    ensures
        ({
            let t = boundaries_of(b);
            let k = kept(b.queue@, t, b.queue@.len() as int);
            &&& a.queue@.take(k.len() as int) == k
            &&& forall|j: int| 0 <= j < k.len() ==> !(fires(#[trigger] a.queue@[j], t) && a.queue@[j].looping
                == MidiQueueLooping::Once)
            &&& forall|i: int| 0 <= i < b.queue@.len() && b.queue@[i].looping == MidiQueueLooping::Loop
                ==> a.queue@.contains(#[trigger] b.queue@[i])
        }),
{
    let t = boundaries_of(b);
    let n = b.queue@.len() as int;
    let k = kept(b.queue@, t, n);
    lemma_fired_once_leaves(b.queue@, t, n);
    assert(a.queue@ == k + added(b.queue@, t, n));
    assert(a.queue@.take(k.len() as int) =~= k);
    assert forall|j: int| 0 <= j < k.len() implies !(fires(#[trigger] a.queue@[j], t) && a.queue@[j].looping
        == MidiQueueLooping::Once) by {
        assert(a.queue@[j] == k[j]);
    }
    assert forall|i: int| 0 <= i < n && b.queue@[i].looping == MidiQueueLooping::Loop implies a.queue@.contains(
        #[trigger] b.queue@[i],
    ) by {
        let w = choose|w: int| 0 <= w < k.len() && k[w] == b.queue@[i];
        assert(a.queue@[w] == k[w]);
    }
}

/// Track `a` is track `b` with every cursor moved on by one frame and the
/// exhausted ones dropped; nothing else differs.
pub open spec fn advanced(a: MidiAudioTrack, b: MidiAudioTrack) -> bool {
    &&& a.voices@ == crate::track::ticked(b.voices@, b.voices@.len() as int)
    &&& a.micros_per_beat == b.micros_per_beat && a.beat == b.beat && a.beat_frac == b.beat_frac
    &&& a.event_index == b.event_index
    &&& a.same_setup(b) && a.queue@ == b.queue@ && a.is_playing == b.is_playing
}

/// Mixer `n` is mixer `m` after one sample step that produced `r`: on the
/// frame's first channel the tracks take their control step (`controlled`),
/// the sample mixes the voices of the playing tracks for the current channel,
/// after the frame's last channel every cursor moves on, and the channel
/// cursor moves to the next channel.
pub open spec fn one_step(m: MidiAudio, n: MidiAudio, r: i16) -> bool {
    &&& n.wf()
    &&& n.num_audio_channels == m.num_audio_channels
    &&& n.samples_per_second == m.samples_per_second
    &&& n.soundfont == m.soundfont
    &&& n.current_audio_channel == (m.current_audio_channel + 1) % (m.num_audio_channels as int)
    &&& n.tracks@.len() == m.tracks@.len()
    &&& exists|mid: Seq<MidiAudioTrack>| #[trigger] controlled(m, mid) && {
        &&& r == i16_clamp(tracks_sum(mid, m.soundfont.wave_data@, m.current_audio_channel as int, mid.len() as int))
        &&& m.current_audio_channel + 1 < m.num_audio_channels ==> n.tracks@ == mid
        &&& m.current_audio_channel + 1 == m.num_audio_channels ==> forall|i: int| 0 <= i < mid.len() ==> advanced(
            #[trigger] n.tracks@[i],
            mid[i],
        )
    }
}

/// `states` run from one mixer to the next by sample steps, the `k`-th
/// producing `out[k]`.
pub open spec fn run_steps(states: Seq<MidiAudio>, out: Seq<i16>) -> bool {
    &&& states.len() == out.len() + 1
    &&& forall|k: int| 0 <= k < out.len() ==> #[trigger] one_step(states[k], states[k + 1], out[k])
}

/// How many frames to produce for `delta_nanos` nanoseconds when `buffered`
/// samples wait: the whole frames that the time is worth, but no more than
/// keep the waiting audio within one second.
pub open spec fn frames_for(delta_nanos: int, samples_per_second: int, buffered: int, channels: int) -> int {
    let want = delta_nanos * samples_per_second / 1_000_000_000;
    let held = (buffered + channels - 1) / channels;
    let room = if held >= samples_per_second { 0 } else { samples_per_second - held };
    if want < room { want } else { room }
}

/// Produced audio never takes the waiting samples beyond one second's worth.
pub proof fn lemma_backpressure(delta_nanos: int, samples_per_second: int, buffered: int, channels: int)
    requires
        delta_nanos >= 0,
        samples_per_second >= 0,
        buffered >= 0,
        channels >= 1,
    ensures
        frames_for(delta_nanos, samples_per_second, buffered, channels) == 0 || buffered + frames_for(
            delta_nanos,
            samples_per_second,
            buffered,
            channels,
        ) * channels <= samples_per_second * channels,
{
    let held = (buffered + channels - 1) / channels;
    let f = frames_for(delta_nanos, samples_per_second, buffered, channels);
    vstd::arithmetic::div_mod::lemma_fundamental_div_mod(buffered + channels - 1, channels);
    let m = (buffered + channels - 1) % channels;
    assert(held * channels >= buffered) by (nonlinear_arith)
        requires buffered + channels - 1 == channels * held + m, m < channels;
    if f > 0 {
        assert(f <= samples_per_second - held);
        assert(f * channels <= (samples_per_second - held) * channels) by (nonlinear_arith)
            requires f <= samples_per_second - held, channels >= 1;
        assert((samples_per_second - held) * channels == samples_per_second * channels - held * channels) by (nonlinear_arith);
    }
}

/// The next sample for the audio device: the oldest one waiting, or silence
/// where none waits.
pub fn pull_sample(buffer: &mut VecDeque<i16>) -> (r: i16)
    ensures
        old(buffer)@.len() == 0 ==> r == 0 && final(buffer)@ == old(buffer)@,
        old(buffer)@.len() > 0 ==> r == old(buffer)@[0] && final(buffer)@ == old(buffer)@.subrange(1, old(buffer)@.len() as int),
{
    match buffer.pop_front() {
        Some(s) => s,
        None => 0,
    }
}

/// How many samples the device may take before it asks again: one while
/// nothing waits, otherwise no limit.
pub fn current_frame_len(buffer: &VecDeque<i16>) -> (r: Option<usize>)
    ensures
        r == (if buffer@.len() == 0 { Some(1usize) } else { None::<usize> }),
{
    if buffer.len() == 0 {
        Some(1)
    } else {
        None
    }
}

impl MidiAudio {
    pub open spec fn wf(self) -> bool {
        &&& self.num_audio_channels >= 1
        &&& self.current_audio_channel < self.num_audio_channels
        &&& self.samples_per_second == SAMPLE_RATE
        &&& forall|i: int| 0 <= i < self.tracks@.len() ==> self.tracks@[i].wf()
    }

    /// Whether the mixer is well formed, as every operation needs.
    pub fn is_well_formed(&self) -> (r: bool)
        ensures
            r == self.wf(),
    {
        if self.num_audio_channels < 1 || self.current_audio_channel >= self.num_audio_channels
            || self.samples_per_second as u64 != SAMPLE_RATE {
            return false;
        }
        let mut i: usize = 0;
        while i < self.tracks.len()
            invariant
                i <= self.tracks@.len(),
                forall|k: int| 0 <= k < i ==> self.tracks@[k].wf(),
            decreases self.tracks@.len() - i,
        {
            if !self.tracks[i].is_well_formed() {
                return false;
            }
            i = i + 1;
        }
        true
    }

    /// A stereo mixer at 44100 samples per second, with no tracks.
    pub fn new(soundfont: SoundFontBank) -> (r: MidiAudio)
        ensures
            r.wf(),
            r.tracks@.len() == 0,
            r.num_audio_channels == 2,
            r.current_audio_channel == 0,
            r.soundfont == soundfont,
    {
        MidiAudio {
            tracks: Vec::new(),
            soundfont,
            num_audio_channels: 2,
            current_audio_channel: 0,
            samples_per_second: SAMPLE_RATE as u32,
        }
    }

    /// Adds a track; its handle is the number of tracks before it.
    pub fn add_track(&mut self, midi_track: MidiAudioTrack) -> (r: MidiAudioTrackHandle)
        requires
            old(self).wf(),
            midi_track.wf(),
        ensures
            final(self).wf(),
            r.0 == old(self).tracks@.len(),
            final(self).tracks@ == old(self).tracks@.push(midi_track),
            final(self).current_audio_channel == old(self).current_audio_channel,
            final(self).num_audio_channels == old(self).num_audio_channels,
            final(self).soundfont == old(self).soundfont,
            final(self).samples_per_second == old(self).samples_per_second,
    {
        let handle = MidiAudioTrackHandle(self.tracks.len());
        self.tracks.push(midi_track);
        handle
    }

    /// The mixer with one more track.
    pub fn with_track(self, midi_track: MidiAudioTrack) -> (r: MidiAudio)
        requires
            self.wf(),
            midi_track.wf(),
        ensures
            r.wf(),
            r.tracks@ == self.tracks@.push(midi_track),
            r.soundfont == self.soundfont,
            r.num_audio_channels == self.num_audio_channels,
            r.current_audio_channel == self.current_audio_channel,
            r.samples_per_second == self.samples_per_second,
    {
        let mut s = self;
        s.add_track(midi_track);
        s
    }

    /// Queues a command on a track; nothing where the handle names none.
    pub fn queue(&mut self, handle: MidiAudioTrackHandle, event: MidiQueueEvent)
        requires
            old(self).wf(),
        ensures
            final(self).wf(),
            final(self).tracks@.len() == old(self).tracks@.len(),
            final(self).soundfont == old(self).soundfont,
            final(self).num_audio_channels == old(self).num_audio_channels,
            final(self).current_audio_channel == old(self).current_audio_channel,
            final(self).samples_per_second == old(self).samples_per_second,
            handle.0 >= old(self).tracks@.len() ==> final(self).tracks@ == old(self).tracks@,
            forall|i: int| 0 <= i < old(self).tracks@.len() && i != handle.0 ==> final(self).tracks@[i] == old(self).tracks@[i],
            handle.0 < old(self).tracks@.len() ==> ({
                let (a, b) = (final(self).tracks@[handle.0 as int], old(self).tracks@[handle.0 as int]);
                a.queue@ == b.queue@.push(event) && a.state() == b.state() && a.same_setup(b) && a.is_playing == b.is_playing
            }),
    {
        if handle.0 < self.tracks.len() {
            let t = self.tracks.remove(handle.0);
            let t = t.with_queue(event);
            self.tracks.insert(handle.0, t);
        }
    }

    /// Interprets an event at once on the first track.
    fn play_now(&mut self, event: MidiEvent) -> (r: Result<(), NoTracksError>)
        requires
            old(self).wf(),
        ensures
            final(self).wf(),
            final(self).tracks@.len() == old(self).tracks@.len(),
            old(self).tracks@.len() == 0 <==> r is Err,
            old(self).tracks@.len() == 0 ==> final(self).tracks@ == old(self).tracks@,
            old(self).tracks@.len() > 0 ==> ({
                let (a, b) = (final(self).tracks@[0], old(self).tracks@[0]);
                &&& a.state() == crate::track::interpret_state(b.state(), event, b.channels@, old(self).soundfont)
                &&& a.same_setup(b) && a.queue@ == b.queue@ && a.is_playing == b.is_playing
            }),
            forall|i: int| 0 < i < old(self).tracks@.len() ==> final(self).tracks@[i] == old(self).tracks@[i],
            final(self).soundfont == old(self).soundfont,
            final(self).num_audio_channels == old(self).num_audio_channels,
            final(self).current_audio_channel == old(self).current_audio_channel,
            final(self).samples_per_second == old(self).samples_per_second,
    {
        if self.tracks.len() == 0 {
            return Err(NoTracksError);
        }
        let mut t = self.tracks.remove(0);
        t.interpret_event(event, &self.soundfont);
        self.tracks.insert(0, t);
        Ok(())
    }

    /// Starts `note` at full velocity on channel 0 of the first track.
    pub fn start_playing_note(&mut self, note: u8) -> (r: Result<(), NoTracksError>)
        requires
            old(self).wf(),
        ensures
            final(self).wf(),
            old(self).tracks@.len() == 0 <==> r is Err,
            old(self).tracks@.len() > 0 ==> ({
                let (a, b) = (final(self).tracks@[0], old(self).tracks@[0]);
                a.state() == crate::track::interpret_state(
                    b.state(),
                    MidiEvent::NoteOn { channel: 0, note, velocity: 127 },
                    b.channels@,
                    old(self).soundfont,
                ) && a.same_setup(b) && a.queue@ == b.queue@ && a.is_playing == b.is_playing
            }),
            final(self).tracks@.len() == old(self).tracks@.len(),
            old(self).tracks@.len() == 0 ==> final(self).tracks@ == old(self).tracks@,
            forall|i: int| 0 < i < old(self).tracks@.len() ==> final(self).tracks@[i] == old(self).tracks@[i],
            final(self).soundfont == old(self).soundfont,
            final(self).num_audio_channels == old(self).num_audio_channels,
            final(self).current_audio_channel == old(self).current_audio_channel,
            final(self).samples_per_second == old(self).samples_per_second,
    {
        self.play_now(MidiEvent::NoteOn { channel: 0, note, velocity: 127 })
    }

    /// Stops `note` on channel 0 of the first track.
    pub fn stop_playing_note(&mut self, note: u8) -> (r: Result<(), NoTracksError>)
        requires
            old(self).wf(),
        ensures
            final(self).wf(),
            old(self).tracks@.len() == 0 <==> r is Err,
            old(self).tracks@.len() > 0 ==> ({
                let (a, b) = (final(self).tracks@[0], old(self).tracks@[0]);
                a.state() == crate::track::interpret_state(
                    b.state(),
                    MidiEvent::NoteOff { channel: 0, note },
                    b.channels@,
                    old(self).soundfont,
                ) && a.same_setup(b) && a.queue@ == b.queue@ && a.is_playing == b.is_playing
            }),
            final(self).tracks@.len() == old(self).tracks@.len(),
            old(self).tracks@.len() == 0 ==> final(self).tracks@ == old(self).tracks@,
            forall|i: int| 0 < i < old(self).tracks@.len() ==> final(self).tracks@[i] == old(self).tracks@[i],
            final(self).soundfont == old(self).soundfont,
            final(self).num_audio_channels == old(self).num_audio_channels,
            final(self).current_audio_channel == old(self).current_audio_channel,
            final(self).samples_per_second == old(self).samples_per_second,
    {
        self.play_now(MidiEvent::NoteOff { channel: 0, note })
    }

    /// Whether the track plays; false where the handle names none.
    pub fn is_playing(&self, handle: &MidiAudioTrackHandle) -> (r: bool)
        ensures
            r == (handle.0 < self.tracks@.len() && self.tracks@[handle.0 as int].is_playing),
    {
        handle.0 < self.tracks.len() && self.tracks[handle.0].is_playing
    }

    /// The track's beats per second as a fraction `(numerator,
    /// denominator)`: one million over its microseconds per beat; `None`
    /// where the handle names none.
    pub fn beats_per_second(&self, handle: &MidiAudioTrackHandle) -> (r: Option<(u32, u32)>)
        ensures
            r == (if handle.0 < self.tracks@.len() {
                Some((1_000_000u32, self.tracks@[handle.0 as int].micros_per_beat))
            } else {
                None::<(u32, u32)>
            }),
    {
        if handle.0 < self.tracks.len() {
            Some((1_000_000, self.tracks[handle.0].micros_per_beat))
        } else {
            None
        }
    }

    /// The track's beats to the bar; `None` where the handle names none.
    pub fn beats_per_bar(&self, handle: &MidiAudioTrackHandle) -> (r: Option<u32>)
        ensures
            r == (if handle.0 < self.tracks@.len() {
                Some(self.tracks@[handle.0 as int].beats_per_bar)
            } else {
                None::<u32>
            }),
    {
        if handle.0 < self.tracks.len() {
            Some(self.tracks[handle.0].beats_per_bar)
        } else {
            None
        }
    }

    /// The sample for the current output channel: the sum over the playing
    /// tracks, clamped to 16 bits.
    pub fn mix_sample(&self) -> (r: i16)
        ensures
            r == i16_clamp(tracks_sum(self.tracks@, self.soundfont.wave_data@, self.current_audio_channel as int, self.tracks@.len() as int)),
    {
        let mut acc: i64 = 0;
        let mut i: usize = 0;
        while i < self.tracks.len()
            invariant
                i <= self.tracks.len(),
                acc == tracks_sum(self.tracks@, self.soundfont.wave_data@, self.current_audio_channel as int, i as int),
            decreases self.tracks.len() - i,
        {
            let t = &self.tracks[i];
            if t.is_playing {
                let x = sum_voices(&t.voices, &self.soundfont.wave_data, self.current_audio_channel);
                acc = if x >= 0 {
                    if acc > i64::MAX - x { i64::MAX } else { acc + x }
                } else {
                    if acc < i64::MIN - x { i64::MIN } else { acc + x }
                };
            }
            i = i + 1;
        }
        clamp_sample(acc)
    }

    /// One frame's control step: every track's clock moves on, the queued
    /// commands that fire on the boundaries its own clock met are applied,
    /// and the tracks that then play fire their due events.
    fn step_tracks(&mut self)
        requires
            old(self).wf(),
        ensures
            final(self).wf(),
            final(self).tracks@.len() == old(self).tracks@.len(),
            final(self).soundfont == old(self).soundfont,
            final(self).current_audio_channel == old(self).current_audio_channel,
            final(self).num_audio_channels == old(self).num_audio_channels,
            final(self).samples_per_second == old(self).samples_per_second,
            forall|i: int| 0 <= i < old(self).tracks@.len() ==> stepped(
                #[trigger] final(self).tracks@[i],
                old(self).tracks@[i],
                old(self).soundfont,
            ),
    {
        let n = self.tracks.len();
        let mut i: usize = 0;
        while i < n
            invariant
                i <= n,
                self.wf(),
                self.tracks@.len() == n,
                n == old(self).tracks@.len(),
                self.soundfont == old(self).soundfont,
                self.current_audio_channel == old(self).current_audio_channel,
                self.num_audio_channels == old(self).num_audio_channels,
                self.samples_per_second == old(self).samples_per_second,
                forall|k: int| 0 <= k < i ==> {
                    let (a, b) = (#[trigger] self.tracks@[k], old(self).tracks@[k]);
                    &&& a.state() == timed_state(b) && a.same_setup(b)
                    &&& a.queue@ == spec_next_queue(b.queue@, boundaries_of(b))
                    &&& a.is_playing == playing_after(b.queue@, boundaries_of(b), b.queue@.len() as int, b.is_playing)
                },
                forall|k: int| i <= k < n ==> self.tracks@[k] == old(self).tracks@[k],
            decreases n - i,
        {
            let ghost prev = self.tracks@;
            let mut t = self.tracks.remove(i);
            let mut timings = TimingSet::empty();
            t.tick_timing(&mut timings);
            assert(timings == boundaries_of(prev[i as int]));
            t.run_queue(&timings);
            self.tracks.insert(i, t);
            assert(self.tracks@ =~= prev.update(i as int, t));
            i = i + 1;
        }
        let mut i: usize = 0;
        while i < n
            invariant
                i <= n,
                self.wf(),
                self.tracks@.len() == n,
                n == old(self).tracks@.len(),
                self.soundfont == old(self).soundfont,
                self.current_audio_channel == old(self).current_audio_channel,
                self.num_audio_channels == old(self).num_audio_channels,
                self.samples_per_second == old(self).samples_per_second,
                forall|k: int| 0 <= k < i ==> stepped(#[trigger] self.tracks@[k], old(self).tracks@[k], old(self).soundfont),
                forall|k: int| i <= k < n ==> {
                    let (a, b) = (#[trigger] self.tracks@[k], old(self).tracks@[k]);
                    &&& a.state() == timed_state(b) && a.same_setup(b)
                    &&& a.queue@ == spec_next_queue(b.queue@, boundaries_of(b))
                    &&& a.is_playing == playing_after(b.queue@, boundaries_of(b), b.queue@.len() as int, b.is_playing)
                },
            decreases n - i,
        {
            let ghost prev = self.tracks@;
            if self.tracks[i].is_playing {
                let mut t = self.tracks.remove(i);
                t.tick_midi(&self.soundfont);
                self.tracks.insert(i, t);
                assert(self.tracks@ =~= prev.update(i as int, t));
            }
            i = i + 1;
        }
    }

    /// Moves every voice of every track on by one frame.
    fn advance_all_voices(&mut self)
        requires
            old(self).wf(),
        ensures
            final(self).wf(),
            final(self).tracks@.len() == old(self).tracks@.len(),
            final(self).soundfont == old(self).soundfont,
            final(self).current_audio_channel == old(self).current_audio_channel,
            final(self).num_audio_channels == old(self).num_audio_channels,
            final(self).samples_per_second == old(self).samples_per_second,
            forall|i: int| 0 <= i < final(self).tracks@.len() ==> advanced(#[trigger] final(self).tracks@[i], old(self).tracks@[i]),
    {
        let n = self.tracks.len();
        let mut i: usize = 0;
        while i < n
            invariant
                self.wf(),
                self.tracks@.len() == n,
                self.soundfont == old(self).soundfont,
                self.current_audio_channel == old(self).current_audio_channel,
                self.num_audio_channels == old(self).num_audio_channels,
                self.samples_per_second == old(self).samples_per_second,
                n == old(self).tracks@.len(),
                forall|k: int| 0 <= k < i ==> advanced(#[trigger] self.tracks@[k], old(self).tracks@[k]),
                forall|k: int| i <= k < n ==> self.tracks@[k] == old(self).tracks@[k],
            decreases n - i,
        {
            let ghost prev = self.tracks@;
            let mut t = self.tracks.remove(i);
            t.advance_voices();
            self.tracks.insert(i, t);
            assert(self.tracks@ =~= prev.update(i as int, t));
            i = i + 1;
        }
    }

    /// Produces the next interleaved sample. On the first channel of a frame
    /// the tracks take their control step first; the sample is then mixed
    /// from their voices; after the last channel every voice moves on by
    /// one frame.
    pub fn tick_once(&mut self) -> (r: i16)
        requires
            old(self).wf(),
        ensures
            one_step(*old(self), *final(self), r),
    {
        if self.current_audio_channel == 0 {
            self.step_tracks();
        }
        let ghost mid = self.tracks@;
        assert(controlled(*old(self), mid));
        let sample = self.mix_sample();
        if self.current_audio_channel + 1 == self.num_audio_channels {
            self.advance_all_voices();
        }
        self.current_audio_channel = (self.current_audio_channel + 1) % self.num_audio_channels;
        sample
    }

    /// Produces `frames` frames of interleaved samples at the end of
    /// `buffer`: one sample step after another, which leaves the channel
    /// cursor where it was.
    pub fn tick_n_times(&mut self, frames: usize, buffer: &mut Vec<i16>)
        requires
            old(self).wf(),
            frames * old(self).num_audio_channels <= usize::MAX,
        ensures
            final(self).wf(),
            final(buffer)@.len() == old(buffer)@.len() + frames * old(self).num_audio_channels,
            final(buffer)@.take(old(buffer)@.len() as int) == old(buffer)@,
            exists|states: Seq<MidiAudio>| #[trigger] run_steps(states, final(buffer)@.skip(old(buffer)@.len() as int))
                && states[0] == *old(self) && states.last() == *final(self),
            final(self).current_audio_channel == old(self).current_audio_channel,
            final(self).num_audio_channels == old(self).num_audio_channels,
            final(self).tracks@.len() == old(self).tracks@.len(),
    {
        let total: usize = frames * self.num_audio_channels as usize;
        let ghost start = buffer@;
        let ghost states: Seq<MidiAudio> = seq![*self];
        let ghost num = self.num_audio_channels as int;
        let ghost c0 = self.current_audio_channel as int;
        proof {
            vstd::arithmetic::div_mod::lemma_small_mod(c0 as nat, num as nat);
        }
        let mut i: usize = 0;
        while i < total
            invariant
                i <= total,
                self.wf(),
                total == frames * num,
                num == old(self).num_audio_channels,
                c0 == old(self).current_audio_channel,
                buffer@.len() == start.len() + i,
                buffer@.take(start.len() as int) == start,
                start == old(buffer)@,
                run_steps(states, buffer@.skip(start.len() as int)),
                states[0] == *old(self),
                states.last() == *self,
                self.current_audio_channel == (c0 + i) % num,
                self.num_audio_channels == old(self).num_audio_channels,
                self.tracks@.len() == old(self).tracks@.len(),
            decreases total - i,
        {
            let ghost before_self = *self;
            let ghost before_out = buffer@.skip(start.len() as int);
            let s = self.tick_once();
            buffer.push(s);
            proof {
                let out = buffer@.skip(start.len() as int);
                assert(out =~= before_out.push(s));
                let ns = states.push(*self);
                assert forall|k: int| 0 <= k < out.len() implies #[trigger] one_step(ns[k], ns[k + 1], out[k]) by {
                    if k < out.len() - 1 {
                        assert(one_step(states[k], states[k + 1], before_out[k]));
                    }
                }
                states = ns;
                vstd::arithmetic::div_mod::lemma_add_mod_noop(c0 + i, 1, num);
                vstd::arithmetic::div_mod::lemma_add_mod_noop_right((c0 + i) % num, 1, num);
                assert(buffer@.take(start.len() as int) =~= start);
            }
            i = i + 1;
        }
        proof {
            vstd::arithmetic::div_mod::lemma_mod_multiples_vanish(frames as int, c0, num);
            vstd::arithmetic::div_mod::lemma_small_mod(c0 as nat, num as nat);
            assert(c0 + total == num * frames + c0) by (nonlinear_arith)
                requires total == frames * num;
        }
    }

    /// Advances the mixer by `delta_nanos` nanoseconds of time while
    /// `buffered` samples still wait to be played, and gives the new
    /// interleaved samples: `frames_for` frames, which never take the
    /// waiting audio beyond one second.
    pub fn tick(&mut self, delta_nanos: u64, buffered: usize) -> (r: Vec<i16>)
        requires
            old(self).wf(),
        ensures
            final(self).wf(),
            r@.len() == frames_for(delta_nanos as int, old(self).samples_per_second as int, buffered as int, old(self).num_audio_channels as int)
                * old(self).num_audio_channels,
            r@.len() == 0 || buffered + r@.len() <= old(self).samples_per_second * old(self).num_audio_channels,
            exists|states: Seq<MidiAudio>| #[trigger] run_steps(states, r@) && states[0] == *old(self) && states.last() == *final(self),
            final(self).current_audio_channel == old(self).current_audio_channel,
            final(self).tracks@.len() == old(self).tracks@.len(),
    {
        let sps = self.samples_per_second as u128;
        let ch = self.num_audio_channels as u128;
        assert(delta_nanos as u128 * sps <= 0xffff_ffff_ffff_ffff * 44100) by (nonlinear_arith)
            requires sps == 44100, delta_nanos <= 0xffff_ffff_ffff_ffffu64;
        let want: u128 = delta_nanos as u128 * sps / 1_000_000_000;
        let held: u128 = (buffered as u128 + ch - 1) / ch;
        let room: u128 = if held >= sps { 0 } else { sps - held };
        let frames: u128 = if want < room { want } else { room };
        proof {
            lemma_backpressure(delta_nanos as int, sps as int, buffered as int, ch as int);
            assert(frames * ch <= 44100 * 65535) by (nonlinear_arith)
                requires frames <= 44100, ch <= 65535;
        }
        assert(frames == frames_for(delta_nanos as int, sps as int, buffered as int, ch as int));
        let mut out: Vec<i16> = Vec::new();
        self.tick_n_times(frames as usize, &mut out);
        assert(out@.skip(0) =~= out@);
        assert(out@.len() == frames * ch);
        assert(frames == 0 ==> frames * ch == 0) by (nonlinear_arith);
        assert(frames == 0 || buffered + frames * ch <= sps * ch);
        out
    }
}

} // verus!
