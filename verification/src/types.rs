//! Scalar types shared by every module, and the fixed-point scale.

use vstd::prelude::*;

verus! {

/// Identity of a note, the key under which a voice is held. MIDI numbers its
/// notes from 0 to 127; a larger number is treated as a note like any other,
/// that many semitones above note 0.
pub type MidiNote = u8;

/// An amplitude ratio in millionths: `GAIN_ONE` is unity.
pub type Gain = u32;

/// A count of sample ticks.
pub type Playhead = u64;

/// A pitch in micro-hertz.
pub type NoteFreq = u64;

/// Unity gain, and the full-scale amplitude of a waveform sample.
pub const GAIN_ONE: u32 = 1_000_000;

} // verus!
