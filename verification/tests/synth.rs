use dd_dsp::envelope::{Envelope, State, ADSR};
use dd_dsp::midi::MidiEvent;
use dd_dsp::oscillator::SineOsc;
use dd_dsp::synth::{mix, SimpleSynth, HEADROOM, PARAMETERS};
use dd_dsp::voice::Voice;

fn quick() -> SimpleSynth {
    // At 1760 samples per second a cycle of A4 has four samples, and the
    // shortest attack is over after one tick.
    let mut synth = SimpleSynth::new();
    synth.set_sample_rate(1_760);
    synth.set_parameter(0, 0);
    synth
}

#[test]
fn a_new_synth() {
    let synth = SimpleSynth::new();
    assert_eq!(synth.voice_count(), 0);
    assert_eq!(synth.sample_rate(), 0);
    assert_eq!(synth.envelope(), ADSR::default());
    assert_eq!(HEADROOM, 4);
    assert_eq!(PARAMETERS, 4);
}

#[test]
fn the_default_synth_is_a_new_one() {
    let synth = SimpleSynth::default();
    assert_eq!(synth.voice_count(), 0);
    assert_eq!(synth.sample_rate(), 0);
    assert_eq!(synth.envelope(), ADSR::default());
}

#[test]
fn silence_without_voices() {
    let mut synth = SimpleSynth::new();
    synth.set_sample_rate(44_100);
    for _ in 0..100 {
        assert_eq!(synth.process_sample(), 0);
    }
}

#[test]
fn one_voice_at_full_gain() {
    let mut synth = quick();
    synth.note_on(69);
    assert_eq!(synth.process_sample(), 0);
    assert_eq!(synth.process_sample(), 250_000);
    assert_eq!(synth.process_sample(), 0);
    assert_eq!(synth.process_sample(), -250_000);
    assert_eq!(synth.process_sample(), 0);
    assert_eq!(synth.process_sample(), 250_000);
}

#[test]
fn voices_add_up() {
    let mut synth = quick();
    synth.note_on(69);
    synth.note_on(81);
    assert_eq!(synth.process_sample(), 0);
    // A5 is at half a cycle, where the sine is zero; A4 is at its peak.
    assert_eq!(synth.process_sample(), 250_000);
    let mut octaves = quick();
    octaves.note_on(69);
    octaves.note_on(21);
    octaves.process_sample();
    // A0 has turned by a sixty-fourth of a cycle.
    let low = SineOsc::new(27_500_000).sample(1, 1_760) as i128;
    assert_eq!(low, 99_279);
    assert_eq!(octaves.process_sample(), (1_000_000 + low) / 4);
}

#[test]
fn mix_of_a_list() {
    let adsr = ADSR::default();
    let loud = Voice {
        note: 69,
        samples_since_start: 1,
        envelope: Envelope { start: 0, state: State::Released { at: 1, gain: 600_000 } },
        oscillator: SineOsc { freq: 440_000_000 },
    };
    let low = Voice { samples_since_start: 3, envelope: Envelope { start: 0, state: State::Released { at: 3, gain: 200_001 } }, ..loud };
    assert_eq!(loud.output(&adsr, 1_760), 600_000);
    assert_eq!(low.output(&adsr, 1_760), -200_001);
    assert_eq!(mix(&vec![], &adsr, 1_760), 0);
    assert_eq!(mix(&vec![loud], &adsr, 1_760), 150_000);
    assert_eq!(mix(&vec![low], &adsr, 1_760), -50_000);
    assert_eq!(mix(&vec![loud, low], &adsr, 1_760), 99_999);
    assert_eq!(mix(&vec![low, loud], &adsr, 1_760), 99_999);
    assert_eq!(mix(&vec![loud, loud, loud, loud, loud], &adsr, 1_760), 750_000);
}

#[test]
fn an_immediate_note_off_is_never_heard() {
    let mut synth = SimpleSynth::new();
    synth.set_sample_rate(44_100);
    synth.note_on(60);
    synth.note_off(60);
    for _ in 0..=3969 {
        assert_eq!(synth.process_sample(), 0);
    }
    assert_eq!(synth.voice_count(), 0);
}

#[test]
fn a_note_fades_out_without_a_step() {
    let mut synth = SimpleSynth::new();
    synth.set_sample_rate(44_100);
    synth.note_on(69);
    let mut last = 0i128;
    for tick in 0..9000 {
        if tick == 1000 {
            synth.note_off(69);
        }
        let sample = synth.process_sample();
        assert!(sample.abs() <= 250_000);
        // One tick of A4 at full scale moves by 2 pi 440 / 44100 of the
        // amplitude at most, a sixteenth of the headroom.
        assert!((sample - last).abs() < 16_000, "step at {}", tick);
        last = sample;
    }
    assert_eq!(synth.voice_count(), 0);
    assert_eq!(last, 0);
}

#[test]
fn midi_events_reach_the_voices() {
    let mut synth = SimpleSynth::new();
    synth.set_sample_rate(44_100);
    assert_eq!(synth.process_midi_event([144, 60, 100]), MidiEvent::NoteOn { note: 60 });
    assert_eq!(synth.voice_count(), 1);
    assert_eq!(synth.process_midi_event([176, 1, 64]), MidiEvent::Unsupported { opcode: 176 });
    assert_eq!(synth.voice_count(), 1);
    synth.process_sample();
    assert_eq!(synth.process_midi_event([128, 60, 0]), MidiEvent::NoteOff { note: 60 });
    assert_eq!(synth.voice_count(), 1);
    for _ in 0..3970 {
        synth.process_sample();
    }
    assert_eq!(synth.voice_count(), 0);
}

#[test]
fn parameters_of_the_default_envelope() {
    let synth = SimpleSynth::new();
    assert_eq!(synth.get_parameter(0), 50_000);
    assert_eq!(synth.get_parameter(1), 90_000);
    assert_eq!(synth.get_parameter(2), 750_000);
    assert_eq!(synth.get_parameter(3), 100);
    assert_eq!(synth.get_parameter(4), 0);
    assert_eq!(synth.get_parameter(-1), 0);
}

#[test]
fn parameters_are_set_one_by_one() {
    let mut synth = SimpleSynth::new();
    synth.set_parameter(0, 250_000);
    assert_eq!(synth.envelope(), ADSR { attack_time: 250_000, ..ADSR::default() });
    synth.set_parameter(1, 1_000_000);
    synth.set_parameter(2, 500_000);
    synth.set_parameter(3, 20);
    assert_eq!(
        synth.envelope(),
        ADSR { attack_time: 250_000, release_time: 1_000_000, attack_ratio: 500_000, release_ratio: 20 }
    );
    synth.set_parameter(4, 7);
    synth.set_parameter(-3, 7);
    assert_eq!(
        synth.envelope(),
        ADSR { attack_time: 250_000, release_time: 1_000_000, attack_ratio: 500_000, release_ratio: 20 }
    );
}

#[test]
fn parameters_below_the_floor_are_raised() {
    let mut synth = SimpleSynth::new();
    for index in 0..4 {
        synth.set_parameter(index, 0);
    }
    assert_eq!(synth.get_parameter(0), 1_000);
    assert_eq!(synth.get_parameter(1), 1_000);
    assert_eq!(synth.get_parameter(2), 10);
    assert_eq!(synth.get_parameter(3), 10);
    synth.set_parameter(0, 999);
    synth.set_parameter(2, 9);
    assert_eq!(synth.get_parameter(0), 1_000);
    assert_eq!(synth.get_parameter(2), 10);
}

#[test]
fn parameter_names_and_labels() {
    let synth = SimpleSynth::new();
    let names: Vec<String> = (-1..6).map(|index| synth.get_parameter_name(index)).collect();
    assert_eq!(names, vec!["", "Attack", "Release", "Attack Curve", "Release Curve", "", ""]);
    let labels: Vec<String> = (-1..6).map(|index| synth.get_parameter_label(index)).collect();
    assert_eq!(labels, vec!["", "ms", "ms", "%", "%", "", ""]);
}

#[test]
fn the_sample_rate_can_change() {
    let mut synth = SimpleSynth::new();
    synth.set_sample_rate(48_000);
    assert_eq!(synth.sample_rate(), 48_000);
    synth.note_on(69);
    synth.set_sample_rate(96_000);
    assert_eq!(synth.sample_rate(), 96_000);
    assert_eq!(synth.voice_count(), 1);
}
