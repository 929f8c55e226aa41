//! A sample-accurate MIDI sequencer and SoundFont synthesizer.
//!
//! MIDI files become time-sorted timelines (`midi`), SoundFont data becomes a
//! read-only sample bank (`bank`), voices play its samples (`voice`), tracks
//! run a beat clock and a queue of deferred commands (`track`, `queue`), and
//! a mixer (`source`) drives the tracks once per output frame and hands out
//! interleaved 16-bit audio.
pub mod bank;
pub mod midi;
pub mod queue;
pub mod source;
pub mod track;
pub mod voice;
