use soundy::bank::{
    InstrumentData, InstrumentZone, PresetData, PresetZone, SampleRegion, SoundFontBank, Zone,
};
use soundy::midi::{MidiEvent, MidiTrack, MidiTrackAccumulateEvent};
use soundy::queue::{
    apply_queue, MidiQueueEvent, MidiQueueEventType, MidiQueueLooping, MidiQueueTiming, TimingSet,
};
use soundy::source::{clamp_sample, current_frame_len, pull_sample, MidiAudio, NoTracksError};
use soundy::track::MidiAudioTrack;
use soundy::voice::{sample_value, start_sample, SampleType};
use std::collections::VecDeque;

const FULL: Zone = Zone { key_start: 0, key_end: 127, velocity_start: 0, velocity_end: 127 };

fn bank_with(bank_number: i32, patch_number: i32, level: i16, len: i32) -> SoundFontBank {
    SoundFontBank {
        presets: vec![PresetData {
            bank_number,
            patch_number,
            regions: vec![PresetZone { zone: FULL, instrument_id: 0 }],
        }],
        instruments: vec![InstrumentData { regions: vec![InstrumentZone { zone: FULL, sample_id: 0 }] }],
        sample_headers: vec![SampleRegion {
            start: 0,
            end: len,
            original_pitch: 60,
            pitch_correction: 0,
            sample_type: 1,
        }],
        wave_data: vec![level; len as usize + 1],
    }
}

fn ev(time: u64, inner: MidiEvent) -> MidiTrackAccumulateEvent {
    MidiTrackAccumulateEvent { time, inner }
}

fn timeline(events: Vec<MidiTrackAccumulateEvent>) -> MidiTrack {
    MidiTrack { events, ticks_per_beat: 96 }
}

#[test]
fn missing_preset_resolves_to_none() {
    let bank = bank_with(1, 5, 1000, 100);
    assert!(bank.get_sample_headers(60, 100, 0, 0).is_none());
    let found = bank.get_sample_headers(60, 100, 1, 5).unwrap();
    assert_eq!(found.len(), 1);
    let mut t = MidiAudioTrack::new(timeline(vec![]), 4);
    t.interpret_event(MidiEvent::NoteOn { channel: 0, note: 60, velocity: 100 }, &bank);
    assert!(t.voices.is_empty());
}

#[test]
fn zone_outside_note_gives_empty_list() {
    let mut bank = bank_with(0, 0, 1000, 100);
    bank.instruments[0].regions[0].zone = Zone { key_start: 70, key_end: 80, velocity_start: 0, velocity_end: 127 };
    assert_eq!(bank.get_sample_headers(60, 100, 0, 0), Some(vec![]));
}

#[test]
fn pitch_sets_playback_speed() {
    let h = SampleRegion { start: 2, end: 10, original_pitch: 60, pitch_correction: 0, sample_type: 4 };
    let v = start_sample(3, 60, 100, &h).unwrap();
    assert_eq!(v.speed, 65536);
    assert_eq!(v.position, 2 * 65536);
    assert_eq!(v.end, 10 * 65536);
    assert_eq!(v.sample_type, SampleType::Left);
    assert_eq!(start_sample(3, 72, 100, &h).unwrap().speed, 131072);
    assert_eq!(start_sample(3, 48, 100, &h).unwrap().speed, 32768);
    assert_eq!(start_sample(3, 61, 100, &h).unwrap().speed, 69433);
    let linked = SampleRegion { sample_type: 8, ..h };
    assert!(start_sample(3, 60, 100, &linked).is_none());
}

#[test]
fn note_off_removes_voice() {
    let bank = bank_with(0, 0, 1000, 100);
    let mut t = MidiAudioTrack::new(timeline(vec![]), 4);
    t.interpret_event(MidiEvent::NoteOn { channel: 0, note: 60, velocity: 100 }, &bank);
    t.interpret_event(MidiEvent::NoteOn { channel: 0, note: 60, velocity: 50 }, &bank);
    assert_eq!(t.voices.len(), 1);
    assert_eq!(t.voices[0].velocity, 50);
    t.interpret_event(MidiEvent::NoteOff { channel: 0, note: 60 }, &bank);
    assert!(t.voices.is_empty());
}

#[test]
fn drum_channel_uses_bank_128() {
    let bank = bank_with(128, 0, 1000, 100);
    let mut t = MidiAudioTrack::new(timeline(vec![]), 4);
    t.interpret_event(MidiEvent::NoteOn { channel: 0, note: 60, velocity: 100 }, &bank);
    assert!(t.voices.is_empty());
    t.interpret_event(MidiEvent::NoteOn { channel: 9, note: 60, velocity: 100 }, &bank);
    assert_eq!(t.voices.len(), 1);
}

#[test]
fn channel_patch_selects_preset() {
    let bank = bank_with(3, 7, 1000, 100);
    let mut t = MidiAudioTrack::new(timeline(vec![]), 4).with_channel_patch(4, 3, 7);
    t.interpret_event(MidiEvent::NoteOn { channel: 4, note: 60, velocity: 100 }, &bank);
    assert_eq!(t.voices.len(), 1);
    let mut u = MidiAudioTrack::new(timeline(vec![]), 4).with_channel_patch(20, 3, 7);
    u.interpret_event(MidiEvent::NoteOn { channel: 20, note: 60, velocity: 100 }, &bank);
    assert_eq!(u.voices.len(), 1);
}

#[test]
fn tempo_change_keeps_beat_position() {
    let bank = bank_with(0, 0, 1000, 100);
    let mut t = MidiAudioTrack::new(timeline(vec![]), 4);
    let mut timings = TimingSet::empty();
    for _ in 0..11025 {
        t.tick_timing(&mut timings);
    }
    // Half a beat at 500_000 microseconds per beat.
    assert_eq!(t.beat, 0);
    assert_eq!(t.beat_frac, 11025 * 1_000_000);
    t.interpret_event(MidiEvent::SetTempo { microseconds_per_beat: 250_000 }, &bank);
    assert_eq!(t.micros_per_beat, 250_000);
    assert_eq!(t.beat_frac, 11025 * 1_000_000 / 2);
}

#[test]
fn beat_and_bar_boundaries() {
    let mut t = MidiAudioTrack::new(timeline(vec![]), 4);
    assert_eq!(t.beats_per_bar, 4);
    let mut beats = vec![];
    let mut bars = vec![];
    let mut loops = vec![];
    for k in 1..=(8 * 22050u64) {
        let mut timings = TimingSet::empty();
        t.tick_timing(&mut timings);
        if timings.on_beat {
            beats.push(k);
        }
        if timings.on_bar {
            bars.push(k);
        }
        if timings.on_loop {
            loops.push(k);
        }
    }
    assert_eq!(beats, (1..=8u64).map(|b| b * 22050).collect::<Vec<_>>());
    assert_eq!(bars, vec![4 * 22050, 8 * 22050]);
    assert_eq!(loops, vec![1]);
}

#[test]
fn timeline_restarts_after_last_event() {
    let bank = bank_with(0, 0, 1000, 100_000);
    let events = vec![
        ev(0, MidiEvent::NoteOn { channel: 0, note: 60, velocity: 100 }),
        ev(1, MidiEvent::NoteOff { channel: 0, note: 60 }),
    ];
    let mut t = MidiAudioTrack::new(timeline(events), 4);
    let mut timings = TimingSet::empty();
    t.tick_timing(&mut timings);
    t.tick_midi(&bank);
    assert_eq!(t.event_index, 1);
    assert_eq!(t.voices.len(), 1);
    // One tick is 22050 / 96 samples at 120 beats per minute.
    let mut steps = 1;
    while t.event_index == 1 {
        t.tick_timing(&mut timings);
        t.tick_midi(&bank);
        steps += 1;
    }
    assert_eq!(steps, 230);
    assert_eq!(t.event_index, 0);
    assert_eq!((t.beat, t.beat_frac), (0, 0));
    assert!(t.voices.is_empty());
    let mut timings = TimingSet::empty();
    t.tick_timing(&mut timings);
    assert!(timings.on_loop);
    t.tick_midi(&bank);
    assert_eq!(t.event_index, 1);
    assert_eq!(t.voices.len(), 1);
}

fn stop_on(timing: MidiQueueTiming, looping: MidiQueueLooping) -> MidiQueueEvent {
    MidiQueueEvent { event: MidiQueueEventType::Stop, timing, looping }
}

#[test]
fn once_command_fires_on_bar_and_leaves() {
    let q = vec![stop_on(MidiQueueTiming::Bar, MidiQueueLooping::Once)];
    let mut playing = true;
    let beat_only = TimingSet { on_loop: false, on_bar: false, on_beat: true };
    let q = apply_queue(&q, &beat_only, &mut playing);
    assert!(playing);
    assert_eq!(q.len(), 1);
    let bar = TimingSet { on_loop: false, on_bar: true, on_beat: true };
    let q = apply_queue(&q, &bar, &mut playing);
    assert!(!playing);
    assert!(q.is_empty());
}

#[test]
fn looping_command_stays_queued() {
    let q = vec![stop_on(MidiQueueTiming::Bar, MidiQueueLooping::Loop)];
    let bar = TimingSet { on_loop: false, on_bar: true, on_beat: true };
    let mut playing = true;
    let q = apply_queue(&q, &bar, &mut playing);
    assert!(!playing);
    playing = true;
    let q = apply_queue(&q, &bar, &mut playing);
    assert!(!playing);
    assert_eq!(q, vec![stop_on(MidiQueueTiming::Bar, MidiQueueLooping::Loop)]);
}

#[test]
fn nested_queue_adds_inner_command_last() {
    let inner = MidiQueueEvent { event: MidiQueueEventType::Play, timing: MidiQueueTiming::Beat, looping: MidiQueueLooping::Once };
    let outer = MidiQueueEvent {
        event: MidiQueueEventType::Queue(Box::new(inner.clone())),
        timing: MidiQueueTiming::Loop,
        looping: MidiQueueLooping::Once,
    };
    let other = stop_on(MidiQueueTiming::Bar, MidiQueueLooping::Once);
    let mut playing = false;
    let q = apply_queue(&vec![outer, other.clone()], &TimingSet { on_loop: true, on_bar: false, on_beat: false }, &mut playing);
    assert!(!playing);
    assert_eq!(q, vec![other, inner]);
}

#[test]
fn clamps_instead_of_wrapping() {
    assert_eq!(clamp_sample(40_000), 32767);
    assert_eq!(clamp_sample(-40_000), -32768);
    assert_eq!(clamp_sample(1234), 1234);
    let mut audio = MidiAudio::new(bank_with(0, 0, 30_000, 100_000));
    audio.add_track(MidiAudioTrack::new(timeline(vec![]), 4));
    audio.start_playing_note(60).unwrap();
    audio.start_playing_note(72).unwrap();
    audio.start_playing_note(48).unwrap();
    assert_eq!(audio.mix_sample(), 32767);
    let mut quiet = MidiAudio::new(bank_with(0, 0, -30_000, 100_000));
    quiet.add_track(MidiAudioTrack::new(timeline(vec![]), 4));
    quiet.start_playing_note(60).unwrap();
    quiet.start_playing_note(61).unwrap();
    assert_eq!(quiet.mix_sample(), -32768);
}

#[test]
fn notes_need_a_track() {
    let mut audio = MidiAudio::new(bank_with(0, 0, 1000, 100));
    assert_eq!(audio.start_playing_note(60), Err(NoTracksError));
    assert_eq!(audio.stop_playing_note(60), Err(NoTracksError));
}

#[test]
fn handles_query_tracks() {
    let mut audio = MidiAudio::new(bank_with(0, 0, 1000, 100));
    let h0 = audio.add_track(MidiAudioTrack::new(timeline(vec![]), 4));
    let h1 = audio.add_track(MidiAudioTrack::new(timeline(vec![]), 3).stopped());
    assert_ne!(h0, h1);
    assert!(audio.is_playing(&h0));
    assert!(!audio.is_playing(&h1));
    assert_eq!(audio.beats_per_bar(&h1), Some(3));
    assert_eq!(audio.beats_per_second(&h0), Some((1_000_000, 500_000)));
    let play = MidiQueueEvent { event: MidiQueueEventType::Play, timing: MidiQueueTiming::Beat, looping: MidiQueueLooping::Once };
    audio.queue(h1, play.clone());
    assert_eq!(audio.tracks[1].queue, vec![play]);
}

#[test]
fn buffer_never_exceeds_one_second() {
    let mut audio = MidiAudio::new(bank_with(0, 0, 1000, 100));
    let ten_seconds = 10_000_000_000u64;
    assert_eq!(audio.tick(ten_seconds, 0).len(), 88200);
    assert_eq!(audio.tick(ten_seconds, 88200).len(), 0);
    assert_eq!(audio.tick(ten_seconds, 88199).len(), 0);
    assert_eq!(audio.tick(ten_seconds, 88000).len(), 200);
    assert_eq!(audio.tick(ten_seconds, 200_000).len(), 0);
    // 10 ms is 441 frames.
    assert_eq!(audio.tick(10_000_000, 0).len(), 882);
}

#[test]
fn note_sounds_until_note_off() {
    let bank = bank_with(0, 0, 10_000, 100_000);
    let events = vec![
        ev(0, MidiEvent::NoteOn { channel: 0, note: 60, velocity: 127 }),
        ev(96, MidiEvent::NoteOff { channel: 0, note: 60 }),
    ];
    // Stop at the first restart of the timeline: the nested command is queued
    // on the first frame and fires on the next loop boundary.
    let stop = MidiQueueEvent { event: MidiQueueEventType::Stop, timing: MidiQueueTiming::Loop, looping: MidiQueueLooping::Once };
    let track = MidiAudioTrack::new(timeline(events), 4).with_queue(MidiQueueEvent {
        event: MidiQueueEventType::Queue(Box::new(stop)),
        timing: MidiQueueTiming::Loop,
        looping: MidiQueueLooping::Once,
    });
    let mut audio = MidiAudio::new(bank).with_track(track);
    let out = audio.tick(1_000_000_000, 0);
    assert_eq!(out.len(), 88200);
    // The note-off is due after one beat: 22050 frames at 120 beats per minute.
    assert!(out[..2 * 22049].iter().all(|&s| s == 10_000));
    assert!(out[2 * 22049..].iter().all(|&s| s == 0));
    assert!(!audio.is_playing(&soundy::source::MidiAudioTrackHandle(0)));
}

#[test]
fn empty_buffer_plays_silence() {
    let mut buffer: VecDeque<i16> = VecDeque::new();
    assert_eq!(current_frame_len(&buffer), Some(1));
    assert_eq!(pull_sample(&mut buffer), 0);
    buffer.push_back(7);
    buffer.push_back(-3);
    assert_eq!(current_frame_len(&buffer), None);
    assert_eq!(pull_sample(&mut buffer), 7);
    assert_eq!(pull_sample(&mut buffer), -3);
    assert_eq!(pull_sample(&mut buffer), 0);
}

#[test]
fn exhausted_cursor_still_moves() {
    let h = SampleRegion { start: 0, end: 1, original_pitch: 60, pitch_correction: 0, sample_type: 1 };
    let v = start_sample(0, 60, 100, &h).unwrap();
    let once = v.tick();
    assert_eq!(once.position, 65536);
    assert_eq!(once.tick().position, 2 * 65536);
}

#[test]
fn right_sample_plays_on_channel_one_only() {
    let h = SampleRegion { start: 0, end: 10, original_pitch: 60, pitch_correction: 0, sample_type: 2 };
    let v = start_sample(0, 60, 127, &h).unwrap();
    let wave = vec![500i16; 11];
    assert_eq!(sample_value(&v, &wave, 0), 0);
    assert_eq!(sample_value(&v, &wave, 1), 500);
    assert_eq!(sample_value(&v, &wave, 2), 0);
}

#[test]
fn frames_keep_channel_cursor() {
    let mut audio = MidiAudio::new(bank_with(0, 0, 1000, 100));
    audio.tick_once();
    assert_eq!(audio.current_audio_channel, 1);
    assert_eq!(audio.tick(10_000_000, 0).len(), 882);
    assert_eq!(audio.current_audio_channel, 1);
}

#[test]
fn queue_follows_own_track_bars() {
    let stop = MidiQueueEvent { event: MidiQueueEventType::Stop, timing: MidiQueueTiming::Bar, looping: MidiQueueLooping::Once };
    let mut audio = MidiAudio::new(bank_with(0, 0, 1000, 100))
        .with_track(MidiAudioTrack::new(timeline(vec![]), 1))
        .with_track(MidiAudioTrack::new(timeline(vec![]), 4).with_queue(stop));
    let b = soundy::source::MidiAudioTrackHandle(1);
    // Two beats: the first track met two bars, the second none.
    audio.tick(1_000_000_000, 0);
    assert!(audio.is_playing(&b));
    assert_eq!(audio.tracks[1].queue.len(), 1);
    // Its own first bar comes with its fourth beat.
    audio.tick(1_000_000_000, 0);
    assert!(!audio.is_playing(&b));
    assert!(audio.tracks[1].queue.is_empty());
}
