use dd_dsp::oscillator::{half_wave, SineOsc, MICRO};
use dd_dsp::pitch::{lowest_octave, note_freq};
use dd_dsp::types::GAIN_ONE;

#[test]
fn concert_pitch() {
    assert_eq!(note_freq(69), 440_000_000);
    assert_eq!(note_freq(57), 220_000_000);
    assert_eq!(note_freq(81), 880_000_000);
    assert_eq!(note_freq(9), 13_750_000);
}

#[test]
fn pitch_of_other_notes() {
    assert_eq!(note_freq(0), 8_175_799);
    assert_eq!(note_freq(60), 261_625_568);
    assert_eq!(note_freq(127), 12_543_853_568);
    assert_eq!(note_freq(255), 20_390_017_499_136);
    assert_eq!(lowest_octave(11), 15_433_853);
}

#[test]
fn an_octave_doubles_the_pitch() {
    for note in 0..=243u8 {
        assert_eq!(note_freq(note + 12), 2 * note_freq(note));
    }
}

#[test]
fn pitch_rises_with_the_note() {
    for note in 0..255u8 {
        assert!(note_freq(note) < note_freq(note + 1));
    }
}

#[test]
fn a_tone_starts_at_zero() {
    for note in [0u8, 60, 69, 127] {
        assert_eq!(SineOsc::new(note_freq(note)).sample(0, 44_100), 0);
    }
}

#[test]
fn phase_of_a_sample() {
    let osc = SineOsc::new(440_000_000);
    assert_eq!(osc.phase(0, 44_100), 0);
    assert_eq!(osc.phase(1, 44_100), 440_000_000);
    // 101 samples of 440 Hz are one whole cycle of 44 100 000 000 steps and
    // 340 000 000 steps more.
    assert_eq!(osc.phase(101, 44_100), 340_000_000);
    assert_eq!(osc.phase(5, 0), 0);
    assert_eq!(SineOsc::new(u64::MAX).phase(u64::MAX, 1), 108_225);
}

#[test]
fn sine_at_the_quarters_of_the_cycle() {
    let osc = SineOsc::new(MICRO);
    assert_eq!(osc.sample(0, 4), 0);
    assert_eq!(osc.sample(1, 4), 1_000_000);
    assert_eq!(osc.sample(2, 4), 0);
    assert_eq!(osc.sample(3, 4), -1_000_000);
    assert_eq!(osc.sample(4, 4), 0);
    assert_eq!(osc.sample(5, 4), 1_000_000);
}

#[test]
fn sine_at_a_twelfth_of_the_cycle() {
    let osc = SineOsc::new(MICRO);
    assert_eq!(osc.sample(1, 12), 500_000);
    assert_eq!(osc.sample(5, 12), 500_000);
    assert_eq!(osc.sample(7, 12), -500_000);
    assert_eq!(osc.sample(11, 12), -500_000);
    // The true sine of 60 degrees is 0.866025.
    assert_eq!(osc.sample(2, 12), 864_864);
}

#[test]
fn sine_is_close_to_the_true_sine() {
    let osc = SineOsc::new(MICRO);
    for index in 0..3600u64 {
        let angle = (index as f64) * std::f64::consts::TAU / 3600.0;
        let sample = osc.sample(index, 3600) as f64 / GAIN_ONE as f64;
        assert!((sample - angle.sin()).abs() < 0.002, "off at {}", index);
    }
}

#[test]
fn samples_stay_within_full_scale() {
    let osc = SineOsc::new(note_freq(69));
    for index in 0..5000u64 {
        let sample = osc.sample(index, 44_100);
        assert!(-1_000_000 <= sample && sample <= 1_000_000);
    }
    assert_eq!(SineOsc::new(u64::MAX).sample(u64::MAX, u32::MAX).abs() <= 1_000_000, true);
}

#[test]
fn the_same_inputs_give_the_same_sample() {
    let osc = SineOsc::new(note_freq(64));
    for index in [0u64, 1, 77, 44_100, 1 << 40, u64::MAX] {
        assert_eq!(osc.sample(index, 48_000), osc.sample(index, 48_000));
    }
    // A whole number of seconds later a whole number of cycles has gone by.
    let a4 = SineOsc::new(440_000_000);
    assert_eq!(a4.sample(17, 44_100), a4.sample(17 + 44_100, 44_100));
}

#[test]
fn without_a_sample_rate_there_is_no_sound() {
    assert_eq!(SineOsc::new(440_000_000).sample(123, 0), 0);
}

#[test]
fn half_wave_values() {
    assert_eq!(half_wave(0, 6), 0);
    assert_eq!(half_wave(1, 6), 500_000);
    assert_eq!(half_wave(3, 6), GAIN_ONE);
    assert_eq!(half_wave(6, 6), 0);
}
