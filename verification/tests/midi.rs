use dd_dsp::midi::{decode, MidiEvent, NOTE_OFF, NOTE_ON};

#[test]
fn decodes_note_on() {
    assert_eq!(decode([144, 60, 100]), MidiEvent::NoteOn { note: 60 });
}

#[test]
fn decodes_note_off() {
    assert_eq!(decode([128, 60, 0]), MidiEvent::NoteOff { note: 60 });
}

#[test]
fn decodes_control_change_as_unsupported() {
    assert_eq!(decode([176, 1, 64]), MidiEvent::Unsupported { opcode: 176 });
}

#[test]
fn status_bytes_are_the_midi_ones() {
    assert_eq!(NOTE_OFF, 0x80);
    assert_eq!(NOTE_ON, 0x90);
}

#[test]
fn velocity_plays_no_part() {
    for velocity in 0..=255u8 {
        assert_eq!(decode([144, 72, velocity]), MidiEvent::NoteOn { note: 72 });
        assert_eq!(decode([128, 72, velocity]), MidiEvent::NoteOff { note: 72 });
    }
}

#[test]
fn every_other_status_is_unsupported() {
    for status in 0..=255u8 {
        let event = decode([status, 5, 6]);
        match status {
            128 => assert_eq!(event, MidiEvent::NoteOff { note: 5 }),
            144 => assert_eq!(event, MidiEvent::NoteOn { note: 5 }),
            other => assert_eq!(event, MidiEvent::Unsupported { opcode: other }),
        }
    }
}
