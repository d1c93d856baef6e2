//! Note-to-sound engine of a small polyphonic synthesizer.
//!
//! Everything is computed in integers. A gain or a waveform sample is a count
//! of millionths ([`GAIN_ONE`] stands for unity), a pitch is a count of
//! micro-hertz, and time is measured in sample ticks.

pub mod envelope;
pub mod midi;
pub mod oscillator;
pub mod pitch;
pub mod synth;
pub mod trace;
pub mod types;
pub mod voice;
pub mod voice_manager;

pub use midi::{decode, MidiEvent};
pub use types::{Gain, MidiNote, NoteFreq, Playhead, GAIN_ONE};
