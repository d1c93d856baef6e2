use dd_dsp::envelope::{Envelope, State, ADSR, SILENCE_THRESHOLD};
use dd_dsp::midi::MidiEvent;
use dd_dsp::oscillator::SineOsc;
use dd_dsp::types::GAIN_ONE;
use dd_dsp::voice::{Voice, VoiceState};
use dd_dsp::voice_manager::VoiceManager;

const RATE: u32 = 44_100;

fn manager() -> VoiceManager {
    let mut manager = VoiceManager::new();
    manager.set_sample_rate(RATE);
    manager
}

fn held(list: &[Voice], note: u8) -> usize {
    list.iter().filter(|voice| voice.note == note && voice.state() == VoiceState::Playing).count()
}

#[test]
fn a_new_manager_is_empty() {
    let mut manager = VoiceManager::new();
    assert_eq!(manager.len(), 0);
    assert_eq!(manager.playhead(), 0);
    assert_eq!(manager.sample_rate(), 0);
    assert_eq!(manager.envelope(), ADSR::default());
    assert_eq!(manager.voice(0), None);
    assert!(manager.next().is_empty());
    assert_eq!(manager.playhead(), 1);
}

#[test]
fn a_new_voice() {
    let voice = Voice::new(69, 1234);
    assert_eq!(voice.note, 69);
    assert_eq!(voice.samples_since_start, 0);
    assert_eq!(voice.envelope, Envelope { start: 1234, state: State::Held });
    assert_eq!(voice.oscillator, SineOsc { freq: 440_000_000 });
    assert_eq!(voice.freq(), 440_000_000);
    assert_eq!(voice.state(), VoiceState::Playing);
    assert_eq!(voice.gain(&ADSR::default(), RATE), 0);
    assert_eq!(voice.sample(RATE), 0);
    assert_eq!(voice.output(&ADSR::default(), RATE), 0);
}

#[test]
fn note_on_starts_a_held_voice_at_gain_zero() {
    for note in 0..=127u8 {
        let mut manager = manager();
        manager.next();
        manager.next();
        manager.note_on(note);
        assert_eq!(manager.len(), 1);
        assert_eq!(manager.voice(0), Some(Voice::new(note, 2)));
        let list = manager.next().clone();
        assert_eq!(list.len(), 1);
        assert_eq!(list[0].note, note);
        assert_eq!(list[0].state(), VoiceState::Playing);
        assert_eq!(list[0].samples_since_start, 0);
        assert_eq!(list[0].gain(&manager.envelope(), RATE), 0);
        assert_eq!(list[0].output(&manager.envelope(), RATE), 0);
    }
}

#[test]
fn a4_reaches_full_gain_after_the_attack() {
    let mut manager = manager();
    manager.note_on(69);
    let first = manager.next().clone();
    assert_eq!(first[0].freq(), 440_000_000);
    assert_eq!(first[0].sample(RATE), 0);
    for _ in 1..2205 {
        manager.next();
    }
    let list = manager.next().clone();
    assert_eq!(manager.playhead(), 2206);
    assert_eq!(list.len(), 1);
    assert_eq!(list[0].samples_since_start, 2205);
    let gain = list[0].gain(&manager.envelope(), RATE);
    assert!(gain >= 990_000 && gain <= 1_010_000);
    assert_eq!(gain, GAIN_ONE);
}

#[test]
fn an_immediate_note_off_stays_silent_and_is_reclaimed() {
    let mut manager = manager();
    manager.note_on(60);
    manager.note_off(60);
    let voice = manager.voice(0).unwrap();
    assert_eq!(voice.state(), VoiceState::Released(0));
    assert_eq!(voice.envelope.state, State::Released { at: 0, gain: 0 });
    assert_eq!(voice.gain(&manager.envelope(), RATE), 0);
    for tick in 0..=3969u64 {
        let list = manager.next().clone();
        for voice in &list {
            assert_eq!(voice.output(&manager.envelope(), RATE), 0);
        }
        if tick >= 3969 {
            assert!(list.is_empty());
        }
    }
    assert_eq!(manager.len(), 0);
}

#[test]
fn a_voice_without_gain_is_reclaimed_at_once() {
    let mut manager = manager();
    manager.note_on(60);
    manager.note_off(60);
    assert_eq!(manager.len(), 1);
    assert!(manager.next().is_empty());
    assert_eq!(manager.len(), 0);
}

#[test]
fn a_held_voice_is_never_reclaimed() {
    let mut manager = manager();
    manager.note_on(40);
    for tick in 0..10_000u64 {
        let list = manager.next().clone();
        assert_eq!(list.len(), 1);
        assert_eq!(list[0].samples_since_start, tick);
    }
}

#[test]
fn a_released_voice_is_rendered_until_it_is_silent() {
    let mut manager = manager();
    let adsr = manager.envelope();
    manager.note_on(72);
    for _ in 0..3000 {
        manager.next();
    }
    manager.note_off(72);
    assert_eq!(manager.voice(0).unwrap().state(), VoiceState::Released(3000));
    assert_eq!(manager.voice(0).unwrap().envelope.state, State::Released { at: 3000, gain: GAIN_ONE });
    let mut audible = 0;
    let mut gone = false;
    for elapsed in 0..=3969u64 {
        let gain = adsr.release_gain_ratio(RATE, elapsed, GAIN_ONE);
        let list = manager.next().clone();
        if gain > SILENCE_THRESHOLD {
            assert!(!gone);
            assert_eq!(list.len(), 1, "reclaimed early at {}", elapsed);
            assert_eq!(list[0].gain(&adsr, RATE), gain);
            audible += 1;
        } else {
            assert!(list.is_empty(), "rendered late at {}", elapsed);
            gone = true;
        }
    }
    assert!(gone);
    // The release is almost linear, so the gain falls to a ten-thousandth
    // just before its end.
    assert_eq!(audible, 3969);
}

#[test]
fn retrigger_releases_the_held_voice() {
    let mut manager = manager();
    manager.note_on(60);
    for _ in 0..1000 {
        manager.next();
    }
    manager.note_on(60);
    assert_eq!(manager.len(), 2);
    let old = manager.voice(0).unwrap();
    let new = manager.voice(1).unwrap();
    let adsr = manager.envelope();
    assert_eq!(old.state(), VoiceState::Released(1000));
    assert_eq!(old.envelope.state, State::Released { at: 1000, gain: adsr.gain_ratio(RATE, 1000) });
    assert_eq!(new, Voice::new(60, 1000));
    let list = manager.next().clone();
    assert_eq!(list.len(), 2);
    assert_eq!(held(&list, 60), 1);
}

#[test]
fn retrigger_during_decay_never_gives_two_held_voices() {
    let mut manager = manager();
    for round in 0..20u64 {
        manager.note_on(60);
        for _ in 0..(round * 37 % 500) {
            let list = manager.next().clone();
            assert_eq!(held(&list, 60), 1);
        }
        if round % 3 == 0 {
            manager.note_off(60);
            assert_eq!(held(manager.next(), 60), 0);
        }
    }
    manager.note_on(60);
    let list = manager.next().clone();
    assert_eq!(held(&list, 60), 1);
    assert!(list.len() > 1);
}

#[test]
fn independent_notes_all_sound() {
    let mut manager = manager();
    for note in 0..100u8 {
        manager.note_on(note);
        let list = manager.next().clone();
        assert_eq!(list.len(), note as usize + 1);
    }
    let list = manager.next().clone();
    assert_eq!(list.len(), 100);
    for (place, voice) in list.iter().enumerate() {
        assert_eq!(voice.note, place as u8);
        assert_eq!(voice.state(), VoiceState::Playing);
    }
}

#[test]
fn a_stray_note_off_changes_nothing() {
    let mut manager = manager();
    manager.note_off(60);
    assert_eq!(manager.len(), 0);
    manager.note_on(61);
    manager.note_on(62);
    manager.next();
    let before = vec![manager.voice(0), manager.voice(1), manager.voice(2)];
    manager.note_off(60);
    assert_eq!(vec![manager.voice(0), manager.voice(1), manager.voice(2)], before);
    assert_eq!(manager.playhead(), 1);
    manager.note_off(61);
    let once = vec![manager.voice(0), manager.voice(1)];
    assert_ne!(once[0], before[0]);
    manager.note_off(61);
    assert_eq!(vec![manager.voice(0), manager.voice(1)], once);
}

#[test]
fn note_off_ends_only_its_own_note() {
    let mut manager = manager();
    manager.note_on(60);
    manager.note_on(64);
    manager.note_on(67);
    for _ in 0..100 {
        manager.next();
    }
    manager.note_off(64);
    assert_eq!(manager.voice(0).unwrap().state(), VoiceState::Playing);
    assert_eq!(manager.voice(1).unwrap().state(), VoiceState::Released(100));
    assert_eq!(manager.voice(2).unwrap().state(), VoiceState::Playing);
}

#[test]
fn handle_dispatches_events() {
    let mut manager = manager();
    manager.handle(MidiEvent::NoteOn { note: 50 });
    assert_eq!(manager.voice(0), Some(Voice::new(50, 0)));
    manager.handle(MidiEvent::Unsupported { opcode: 176 });
    assert_eq!(manager.len(), 1);
    assert_eq!(manager.voice(0), Some(Voice::new(50, 0)));
    manager.next();
    manager.handle(MidiEvent::NoteOff { note: 50 });
    assert_eq!(manager.voice(0).unwrap().state(), VoiceState::Released(1));
}

#[test]
fn set_envelope_floors_the_configuration() {
    let mut manager = manager();
    manager.set_envelope(ADSR { attack_time: 0, release_time: 5, attack_ratio: 0, release_ratio: 3 });
    assert_eq!(
        manager.envelope(),
        ADSR { attack_time: 1_000, release_time: 1_000, attack_ratio: 10, release_ratio: 10 }
    );
    manager.set_sample_rate(48_000);
    assert_eq!(manager.sample_rate(), 48_000);
}

#[test]
fn a_long_release_is_not_cut_short() {
    let mut manager = manager();
    manager.set_envelope(ADSR {
        attack_time: 1_000,
        release_time: 2_000_000,
        attack_ratio: 10,
        release_ratio: 10,
    });
    manager.note_on(33);
    for _ in 0..100 {
        manager.next();
    }
    manager.note_off(33);
    for _ in 0..80_000 {
        assert_eq!(manager.next().len(), 1);
    }
    for _ in 0..8_200 {
        manager.next();
    }
    assert_eq!(manager.len(), 0);
}

#[test]
fn is_silent_tells_a_faded_voice() {
    let adsr = ADSR::default();
    let mut voice = Voice::new(60, 0);
    assert!(!voice.is_silent(&adsr, RATE, 0));
    voice.release(&adsr, RATE, 2205);
    assert!(!voice.is_silent(&adsr, RATE, 2205));
    assert!(voice.is_silent(&adsr, RATE, 2205 + 3969));
}
