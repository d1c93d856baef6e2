//! One voice: the synthesis state of one sounding note.

use crate::envelope::{
    lemma_attack_rises, lemma_gain_in_range, lemma_release_falls, Envelope, State, ADSR,
    SILENCE_THRESHOLD,
};
use crate::oscillator::{lemma_sample_bounds, sample_of, SineOsc};
use crate::pitch::{freq_of, note_freq};
use crate::types::{Gain, MidiNote, NoteFreq, Playhead, GAIN_ONE};
use vstd::prelude::*;

verus! {

/// Whether the note of a voice is still held.
#[derive(Clone, Copy, Debug, PartialEq, Eq, Structural)]
pub enum VoiceState {
    /// The note is held.
    Playing,
    /// The note ended at the given tick and the voice is fading out.
    Released(Playhead),
}

/// The synthesis state of one note.
#[derive(Clone, Copy, Debug, PartialEq, Eq, Structural)]
pub struct Voice {
    /// The note that started the voice.
    pub note: MidiNote,
    /// Number of ticks from the start of the note to the tick that the voice
    /// was last rendered at.
    pub samples_since_start: u64,
    /// Volume envelope of the voice, which holds its start and its release.
    pub envelope: Envelope,
    /// Oscillator of the voice, which holds its pitch.
    pub oscillator: SineOsc,
}

/// A waveform sample scaled by a gain, rounded towards zero.
pub open spec fn scaled(sample: int, gain: int) -> int {
    if sample >= 0 {
        sample * gain / (GAIN_ONE as int)
    } else {
        -((-sample) * gain / (GAIN_ONE as int))
    }
}

/// A scaled sample is no louder than the sample, and keeps its sign.
pub proof fn lemma_scaled_bounds(sample: int, gain: int)
    requires
        0 <= gain <= GAIN_ONE,
    ensures
        sample >= 0 ==> 0 <= scaled(sample, gain) <= sample,
        sample <= 0 ==> sample <= scaled(sample, gain) <= 0,
        gain == 0 ==> scaled(sample, gain) == 0,
        sample == 0 ==> scaled(sample, gain) == 0,
{
    let one = GAIN_ONE as int;
    let size = if sample >= 0 {
        sample
    } else {
        -sample
    };
    assert(0 <= size * gain <= size * one) by (nonlinear_arith)
        requires
            0 <= size,
            0 <= gain <= one,
    ;
    assert(size * one / one == size) by (nonlinear_arith)
        requires
            one == 1_000_000,
    ;
    assert(gain == 0 ==> size * gain == 0) by (nonlinear_arith);
    assert(size == 0 ==> size * gain == 0) by (nonlinear_arith);
}

impl Voice {
    /// The voice of `note` as it is when the note starts at tick `now`.
    pub open spec fn fresh(note: MidiNote, now: Playhead) -> Voice {
        Voice {
            note,
            samples_since_start: 0,
            envelope: Envelope { start: now, state: State::Held },
            oscillator: SineOsc { freq: freq_of(note) as NoteFreq },
        }
    }

    /// The tick that the voice was last rendered at.
    pub open spec fn now(self) -> int {
        self.envelope.start + self.samples_since_start
    }

    /// The pitch of the voice in micro-hertz.
    pub open spec fn pitch(self) -> NoteFreq {
        self.oscillator.freq
    }

    /// Whether the note is still held.
    pub open spec fn is_playing(self) -> bool {
        self.envelope.state == State::Held
    }

    /// The state of the voice as the envelope records it.
    pub open spec fn state_of(self) -> VoiceState {
        match self.envelope.state {
            State::Held => VoiceState::Playing,
            State::Released { at, gain } => VoiceState::Released(at),
        }
    }

    /// The voice is consistent: its pitch is that of its note, its envelope
    /// is well formed, and the tick it was last rendered at is a tick.
    pub open spec fn wf(self) -> bool {
        &&& self.envelope.wf()
        &&& self.oscillator.freq == freq_of(self.note)
        &&& self.now() <= Playhead::MAX
    }

    /// The voice lies in the past of tick `now`: it neither started nor was
    /// released nor was rendered after it.
    pub open spec fn before(self, now: Playhead) -> bool {
        &&& self.now() <= now
        &&& match self.envelope.state {
            State::Held => true,
            State::Released { at, gain } => at <= now,
        }
    }

    /// The voice after a release at tick `now`; see `Envelope::released`.
    pub open spec fn released(self, adsr: ADSR, rate: u32, now: Playhead) -> Voice {
        Voice { envelope: self.envelope.released(adsr, rate, now), ..self }
    }

    /// The voice as it is rendered at tick `now`.
    pub open spec fn at_tick(self, now: Playhead) -> Voice {
        Voice { samples_since_start: (now - self.envelope.start) as u64, ..self }
    }

    /// Gain of the voice at tick `now`.
    pub open spec fn gain_at(self, adsr: ADSR, rate: u32, now: int) -> int {
        self.envelope.gain_at(adsr, rate, now)
    }

    /// Whether the voice has faded out at tick `now`: its note has ended and
    /// its gain is at or below the threshold of silence. A held note is never
    /// silent, however quiet.
    pub open spec fn silent_at(self, adsr: ADSR, rate: u32, now: int) -> bool {
        !self.is_playing() && self.gain_at(adsr, rate, now) <= SILENCE_THRESHOLD
    }

    /// What the voice adds to the output at the tick it was last rendered
    /// at: its waveform sample scaled by its gain.
    pub open spec fn output_of(self, adsr: ADSR, rate: u32) -> int {
        scaled(
            sample_of(self.oscillator.freq, self.samples_since_start, rate),
            self.gain_at(adsr, rate, self.now()),
        )
    }

    /// A voice for `note` that starts at tick `now`, at phase zero.
    pub fn new(note: MidiNote, now: Playhead) -> (voice: Voice)
        ensures
            voice == Voice::fresh(note, now),
            voice.wf(),
            voice.is_playing(),
    {
        Voice {
            note,
            samples_since_start: 0,
            envelope: Envelope::new(now),
            oscillator: SineOsc::new(note_freq(note)),
        }
    }

    /// Whether the note is still held, and if not, when it ended.
    pub fn state(&self) -> (state: VoiceState)
        ensures
            state == self.state_of(),
            state == VoiceState::Playing <==> self.is_playing(),
    {
        match self.envelope.state {
            State::Held => VoiceState::Playing,
            State::Released { at, gain } => VoiceState::Released(at),
        }
    }

    /// The pitch of the voice in micro-hertz.
    pub fn freq(&self) -> (freq: NoteFreq)
        ensures
            freq == self.pitch(),
    {
        self.oscillator.freq
    }

    /// Gain of the voice at the tick it was last rendered at.
    pub fn gain(&self, adsr: &ADSR, rate: u32) -> (gain: Gain)
        requires
            self.wf(),
        ensures
            gain == self.gain_at(*adsr, rate, self.now()),
            gain <= GAIN_ONE,
    {
        proof {
            lemma_gain_in_range(self.envelope, *adsr, rate, self.now());
        }
        self.envelope.gain(adsr, rate, self.envelope.start + self.samples_since_start)
    }

    /// Waveform sample of the voice at the tick it was last rendered at.
    pub fn sample(&self, rate: u32) -> (sample: i32)
        ensures
            sample == sample_of(self.oscillator.freq, self.samples_since_start, rate),
            -GAIN_ONE <= sample <= GAIN_ONE,
    {
        self.oscillator.sample(self.samples_since_start, rate)
    }

    /// What the voice adds to the output at the tick it was last rendered
    /// at, in millionths of full scale.
    pub fn output(&self, adsr: &ADSR, rate: u32) -> (out: i32)
        requires
            self.wf(),
        ensures
            out == self.output_of(*adsr, rate),
            -GAIN_ONE <= out <= GAIN_ONE,
    {
        let sample: i32 = self.sample(rate);
        let gain: Gain = self.gain(adsr, rate);
        proof {
            lemma_scaled_bounds(sample as int, gain as int);
        }
        if sample >= 0 {
            let size: u64 = sample as u64;
            assert(size * gain <= 1_000_000 * 1_000_000) by (nonlinear_arith)
                requires
                    0 <= size <= 1_000_000,
                    0 <= gain <= 1_000_000,
            ;
            (size * (gain as u64) / (GAIN_ONE as u64)) as i32
        } else {
            let size: u64 = (-sample) as u64;
            assert(size * gain <= 1_000_000 * 1_000_000) by (nonlinear_arith)
                requires
                    0 <= size <= 1_000_000,
                    0 <= gain <= 1_000_000,
            ;
            -((size * (gain as u64) / (GAIN_ONE as u64)) as i32)
        }
    }

    /// Whether the voice has faded out at tick `now`.
    pub fn is_silent(&self, adsr: &ADSR, rate: u32, now: Playhead) -> (silent: bool)
        ensures
            silent == self.silent_at(*adsr, rate, now as int),
    {
        match self.envelope.state {
            State::Held => false,
            State::Released { .. } => self.envelope.gain(adsr, rate, now) <= SILENCE_THRESHOLD,
        }
    }

    /// Ends the note at tick `now`: a held voice starts to fade from the
    /// gain it has there, a released one stays as it is.
    pub fn release(&mut self, adsr: &ADSR, rate: u32, now: Playhead)
        ensures
            *final(self) == old(self).released(*adsr, rate, now),
    {
        self.envelope.release(adsr, rate, now);
    }
}

/// A voice starts in silence: at the tick of its start its gain is zero, and
/// so is what it adds to the output.
pub proof fn lemma_fresh_voice_is_silent(note: MidiNote, now: Playhead, adsr: ADSR, rate: u32)
    ensures
        Voice::fresh(note, now).is_playing(),
        Voice::fresh(note, now).gain_at(adsr, rate, now as int) == 0,
        Voice::fresh(note, now).output_of(adsr, rate) == 0,
{
    let voice = Voice::fresh(note, now);
    lemma_attack_rises(adsr, rate, 0, 0);
    lemma_sample_bounds(voice.oscillator.freq, 0, rate);
}

/// Releasing a held voice does not change its gain at the tick of the
/// release: the fade starts where the attack stood.
pub proof fn lemma_release_keeps_gain(voice: Voice, adsr: ADSR, rate: u32, now: Playhead)
    requires
        voice.is_playing(),
    ensures
        voice.released(adsr, rate, now).gain_at(adsr, rate, now as int) == voice.gain_at(
            adsr,
            rate,
            now as int,
        ),
        !voice.released(adsr, rate, now).is_playing(),
{
    crate::envelope::lemma_release_is_continuous(voice.envelope, adsr, rate, now);
}

/// Once a released voice is silent it stays silent, and it is silent at the
/// latest when a whole release has gone by.
pub proof fn lemma_silence_lasts(voice: Voice, adsr: ADSR, rate: u32, a: int, b: int)
    requires
        !voice.is_playing(),
        a <= b,
    ensures
        voice.silent_at(adsr, rate, a) ==> voice.silent_at(adsr, rate, b),
        voice.gain_at(adsr, rate, b) <= voice.gain_at(adsr, rate, a),
        voice.envelope.state matches State::Released { at, gain } && b >= at + adsr.release_ticks(
            rate,
        ) ==> voice.silent_at(adsr, rate, b),
{
    match voice.envelope.state {
        State::Held => {},
        State::Released { at, gain } => {
            lemma_release_falls(adsr, rate, a - at, b - at, gain as int);
        },
    }
}

} // verus!
