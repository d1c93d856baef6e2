//! The instrument: events in, one mixed sample out per tick, and the four
//! parameters that configure the envelope.
//!
//! A parameter value is a count of millionths of the range from zero to one,
//! as a host hands it over. For a duration one millionth is one microsecond,
//! so the whole range is one second.

use crate::envelope::{floored_ratio, floored_time, ADSR};
use crate::midi::{decode, decoded, MidiEvent};
use crate::types::{MidiNote, GAIN_ONE};
use crate::voice::Voice;
use crate::voice_manager::{Pool, VoiceManager};
use vstd::prelude::*;

verus! {

/// Divisor that leaves headroom for several voices at full scale.
pub const HEADROOM: i128 = 4;

/// Number of parameters of the instrument.
pub const PARAMETERS: i32 = 4;

/// Sum of what the voices add to the output.
pub open spec fn mix_of(voices: Seq<Voice>, adsr: ADSR, rate: u32) -> int
    decreases voices.len(),
{
    if voices.len() == 0 {
        0
    } else {
        mix_of(voices.drop_last(), adsr, rate) + voices.last().output_of(adsr, rate)
    }
}

/// A sum of voices divided by the headroom, rounded towards zero.
pub open spec fn with_headroom(sum: int) -> int {
    if sum >= 0 {
        sum / (HEADROOM as int)
    } else {
        -((-sum) / (HEADROOM as int))
    }
}

/// The value of parameter `index`: attack, release, attack curve, release
/// curve. Any other index has the value zero.
pub open spec fn parameter_of(adsr: ADSR, index: i32) -> u32 {
    if index == 0 {
        adsr.attack_time
    } else if index == 1 {
        adsr.release_time
    } else if index == 2 {
        adsr.attack_ratio
    } else if index == 3 {
        adsr.release_ratio
    } else {
        0
    }
}

/// The configuration after parameter `index` was set to `value`. A value
/// below the floor of its parameter is raised to the floor; an index without
/// a parameter changes nothing.
pub open spec fn with_parameter(adsr: ADSR, index: i32, value: u32) -> ADSR {
    if index == 0 {
        ADSR { attack_time: floored_time(value), ..adsr }
    } else if index == 1 {
        ADSR { release_time: floored_time(value), ..adsr }
    } else if index == 2 {
        ADSR { attack_ratio: floored_ratio(value), ..adsr }
    } else if index == 3 {
        ADSR { release_ratio: floored_ratio(value), ..adsr }
    } else {
        adsr
    }
}

/// The name of parameter `index`, empty for an index without a parameter.
pub open spec fn parameter_name_of(index: i32) -> Seq<char> {
    if index == 0 {
        "Attack"@
    } else if index == 1 {
        "Release"@
    } else if index == 2 {
        "Attack Curve"@
    } else if index == 3 {
        "Release Curve"@
    } else {
        ""@
    }
}

/// The unit of parameter `index`, empty for an index without a parameter.
pub open spec fn parameter_label_of(index: i32) -> Seq<char> {
    if index == 0 || index == 1 {
        "ms"@
    } else if index == 2 || index == 3 {
        "%"@
    } else {
        ""@
    }
}

/// The mix of two lists of voices is the sum of their mixes, so the order in
/// which voices are mixed does not matter.
pub proof fn lemma_mix_is_additive(first: Seq<Voice>, second: Seq<Voice>, adsr: ADSR, rate: u32)
    ensures
        mix_of(first + second, adsr, rate) == mix_of(first, adsr, rate) + mix_of(
            second,
            adsr,
            rate,
        ),
        mix_of(first + second, adsr, rate) == mix_of(second + first, adsr, rate),
{
    lemma_mix_concat(first, second, adsr, rate);
    lemma_mix_concat(second, first, adsr, rate);
}

proof fn lemma_mix_concat(first: Seq<Voice>, second: Seq<Voice>, adsr: ADSR, rate: u32)
    ensures
        mix_of(first + second, adsr, rate) == mix_of(first, adsr, rate) + mix_of(
            second,
            adsr,
            rate,
        ),
    decreases second.len(),
{
    if second.len() == 0 {
        assert(first + second =~= first);
    } else {
        assert((first + second).drop_last() =~= first + second.drop_last());
        assert((first + second).last() == second.last());
        lemma_mix_concat(first, second.drop_last(), adsr, rate);
    }
}

/// A mix is no louder than all its voices at full scale, and voices without
/// gain mix to silence.
pub proof fn lemma_mix_bounds(voices: Seq<Voice>, adsr: ADSR, rate: u32)
    requires
        forall|i: int| 0 <= i < voices.len() ==> (#[trigger] voices[i]).wf(),
    ensures
        -(voices.len() * GAIN_ONE) <= mix_of(voices, adsr, rate) <= voices.len() * GAIN_ONE,
        (forall|i: int|
            0 <= i < voices.len() ==> (#[trigger] voices[i]).gain_at(adsr, rate, voices[i].now())
                == 0) ==> mix_of(voices, adsr, rate) == 0,
    decreases voices.len(),
{
    if voices.len() > 0 {
        let front = voices.drop_last();
        let voice = voices.last();
        assert forall|i: int| 0 <= i < front.len() implies (#[trigger] front[i]).wf() by {
            assert(front[i] == voices[i]);
        }
        lemma_mix_bounds(front, adsr, rate);
        assert(voice == voices[voices.len() - 1]);
        crate::envelope::lemma_gain_in_range(voice.envelope, adsr, rate, voice.now());
        crate::oscillator::lemma_sample_bounds(
            voice.oscillator.freq,
            voice.samples_since_start,
            rate,
        );
        crate::voice::lemma_scaled_bounds(
            crate::oscillator::sample_of(voice.oscillator.freq, voice.samples_since_start, rate),
            voice.gain_at(adsr, rate, voice.now()),
        );
        assert((front.len() + 1) * GAIN_ONE == front.len() * GAIN_ONE + GAIN_ONE)
            by (nonlinear_arith);
        if forall|i: int|
            0 <= i < voices.len() ==> (#[trigger] voices[i]).gain_at(adsr, rate, voices[i].now())
                == 0 {
            assert forall|i: int| 0 <= i < front.len() implies (#[trigger] front[i]).gain_at(
                adsr,
                rate,
                front[i].now(),
            ) == 0 by {
                assert(front[i] == voices[i]);
            }
        }
    }
}

/// Mixes a render list: the sum of what each voice adds, divided by the
/// headroom. The result is in millionths of full scale.
pub fn mix(voices: &Vec<Voice>, adsr: &ADSR, rate: u32) -> (sample: i128)
    requires
        forall|i: int| 0 <= i < voices@.len() ==> (#[trigger] voices@[i]).wf(),
    ensures
        sample == with_headroom(mix_of(voices@, *adsr, rate)),
{
    let count: usize = voices.len();
    let mut sum: i128 = 0;
    let mut index: usize = 0;
    proof {
        assert(voices@.take(0) =~= Seq::<Voice>::empty());
    }
    while index < count
        invariant
            index <= count,
            count == voices@.len(),
            forall|i: int| 0 <= i < voices@.len() ==> (#[trigger] voices@[i]).wf(),
            sum == mix_of(voices@.take(index as int), *adsr, rate),
            -(index * GAIN_ONE) <= sum <= index * GAIN_ONE,
        decreases count - index,
    {
        let out: i32 = voices[index].output(adsr, rate);
        proof {
            let upto = voices@.take(index + 1);
            assert(upto.drop_last() =~= voices@.take(index as int));
            assert(upto.last() == voices@[index as int]);
            assert((index + 1) * GAIN_ONE == index * GAIN_ONE + GAIN_ONE) by (nonlinear_arith);
            assert(index * GAIN_ONE <= 0xFFFF_FFFF_FFFF_FFFF * 1_000_000) by (nonlinear_arith)
                requires
                    index <= 0xFFFF_FFFF_FFFF_FFFF,
                    GAIN_ONE == 1_000_000,
            ;
        }
        sum = sum + (out as i128);
        index = index + 1;
    }
    proof {
        assert(voices@.take(count as int) =~= voices@);
    }
    if sum >= 0 {
        ((sum as u128) / (HEADROOM as u128)) as i128
    } else {
        -((((-sum) as u128) / (HEADROOM as u128)) as i128)
    }
}

/// The instrument.
pub struct SimpleSynth {
    voice_manager: VoiceManager,
}

impl View for SimpleSynth {
    type V = Pool;

    closed spec fn view(&self) -> Pool {
        self.voice_manager@
    }
}

impl Default for SimpleSynth {
    /// The instrument as `SimpleSynth::new` makes it.
    fn default() -> (synth: SimpleSynth)
        ensures
            synth.wf(),
            synth@.voices == Seq::<Voice>::empty(),
            synth@.tick == 0,
            synth@.rate == 0,
            synth@.adsr == (ADSR {
                attack_time: 50_000,
                release_time: 90_000,
                attack_ratio: 750_000,
                release_ratio: 100,
            }),
    {
        SimpleSynth::new()
    }
}

impl SimpleSynth {
    /// The instrument is consistent; see `Pool::wf`.
    pub open spec fn wf(&self) -> bool {
        self@.wf()
    }

    /// An instrument without voices, at tick zero, with the default
    /// envelope and no sample rate yet.
    pub fn new() -> (synth: SimpleSynth)
        ensures
            synth.wf(),
            synth@.voices == Seq::<Voice>::empty(),
            synth@.tick == 0,
            synth@.rate == 0,
            synth@.adsr == (ADSR {
                attack_time: 50_000,
                release_time: 90_000,
                attack_ratio: 750_000,
                release_ratio: 100,
            }),
    {
        SimpleSynth { voice_manager: VoiceManager::new() }
    }

    /// Number of voices that have not been reclaimed.
    pub fn voice_count(&self) -> (count: usize)
        ensures
            count == self@.voices.len(),
    {
        self.voice_manager.len()
    }

    /// The render sample rate in samples per second.
    pub fn sample_rate(&self) -> (rate: u32)
        ensures
            rate == self@.rate,
    {
        self.voice_manager.sample_rate()
    }

    /// The envelope configuration.
    pub fn envelope(&self) -> (adsr: ADSR)
        ensures
            adsr == self@.adsr,
    {
        self.voice_manager.envelope()
    }

    /// Renders one tick and mixes it: the sum over the render list of each
    /// voice's waveform sample scaled by its gain, divided by the headroom.
    pub fn process_sample(&mut self) -> (sample: i128)
        requires
            old(self).wf(),
        ensures
            final(self).wf(),
            final(self)@ == old(self)@.next(),
            sample == with_headroom(
                mix_of(old(self)@.next().voices, old(self)@.adsr, old(self)@.rate),
            ),
    {
        let adsr: ADSR = self.voice_manager.envelope();
        let rate: u32 = self.voice_manager.sample_rate();
        let list: &Vec<Voice> = self.voice_manager.next();
        mix(list, &adsr, rate)
    }

    /// Decodes a message and handles it. Returns the event, so that the
    /// caller can report an unsupported one.
    pub fn process_midi_event(&mut self, data: [u8; 3]) -> (event: MidiEvent)
        requires
            old(self).wf(),
        ensures
            final(self).wf(),
            event == decoded(data@),
            final(self)@ == old(self)@.apply(event),
    {
        let event: MidiEvent = decode(data);
        self.voice_manager.handle(event);
        event
    }

    /// Starts `note`; see `VoiceManager::note_on`.
    pub fn note_on(&mut self, note: MidiNote)
        requires
            old(self).wf(),
        ensures
            final(self).wf(),
            final(self)@ == old(self)@.note_on(note),
    {
        self.voice_manager.note_on(note);
    }

    /// Ends `note`; see `VoiceManager::note_off`.
    pub fn note_off(&mut self, note: MidiNote)
        requires
            old(self).wf(),
        ensures
            final(self).wf(),
            final(self)@ == old(self)@.note_off(note),
    {
        self.voice_manager.note_off(note);
    }

    /// Sets the render sample rate.
    pub fn set_sample_rate(&mut self, rate: u32)
        requires
            old(self).wf(),
        ensures
            final(self).wf(),
            final(self)@ == (Pool { rate, ..old(self)@ }),
    {
        self.voice_manager.set_sample_rate(rate);
    }

    /// The value of parameter `index`.
    pub fn get_parameter(&self, index: i32) -> (value: u32)
        ensures
            value == parameter_of(self@.adsr, index),
    {
        let adsr: ADSR = self.voice_manager.envelope();
        match index {
            0 => adsr.attack_time,
            1 => adsr.release_time,
            2 => adsr.attack_ratio,
            3 => adsr.release_ratio,
            _ => 0,
        }
    }

    /// Sets parameter `index` to `value`, raised to the floor of the
    /// parameter if it lies below.
    pub fn set_parameter(&mut self, index: i32, value: u32)
        requires
            old(self).wf(),
        ensures
            final(self).wf(),
            final(self)@ == (Pool {
                adsr: with_parameter(old(self)@.adsr, index, value),
                ..old(self)@
            }),
    {
        let mut adsr: ADSR = self.voice_manager.envelope();
        match index {
            0 => {
                adsr.attack_time = value;
            },
            1 => {
                adsr.release_time = value;
            },
            2 => {
                adsr.attack_ratio = value;
            },
            3 => {
                adsr.release_ratio = value;
            },
            _ => {},
        }
        self.voice_manager.set_envelope(adsr);
    }

    /// The name of parameter `index`.
    pub fn get_parameter_name(&self, index: i32) -> (name: String)
        ensures
            name@ == parameter_name_of(index),
    {
        match index {
            0 => "Attack".to_owned(),
            1 => "Release".to_owned(),
            2 => "Attack Curve".to_owned(),
            3 => "Release Curve".to_owned(),
            _ => "".to_owned(),
        }
    }

    /// The unit of parameter `index`.
    pub fn get_parameter_label(&self, index: i32) -> (label: String)
        ensures
            label@ == parameter_label_of(index),
    {
        match index {
            0 => "ms".to_owned(),
            1 => "ms".to_owned(),
            2 => "%".to_owned(),
            3 => "%".to_owned(),
            _ => "".to_owned(),
        }
    }
}

} // verus!
