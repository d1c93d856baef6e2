//! Decoding of framed three-byte MIDI messages.

use vstd::prelude::*;

verus! {

/// Status byte of a note-off message.
pub const NOTE_OFF: u8 = 128;

/// Status byte of a note-on message.
pub const NOTE_ON: u8 = 144;

/// What a three-byte message asks of the instrument.
#[derive(Clone, Copy, Debug, PartialEq, Eq, Structural)]
pub enum MidiEvent {
    NoteOn { note: u8 },
    NoteOff { note: u8 },
    /// Any other status byte; the message is reported and dropped.
    Unsupported { opcode: u8 },
}

/// The event that a frame of three bytes stands for. The third byte, the
/// velocity, plays no part.
pub open spec fn decoded(data: Seq<u8>) -> MidiEvent
    recommends
        data.len() == 3,
{
    if data[0] == NOTE_OFF {
        MidiEvent::NoteOff { note: data[1] }
    } else if data[0] == NOTE_ON {
        MidiEvent::NoteOn { note: data[1] }
    } else {
        MidiEvent::Unsupported { opcode: data[0] }
    }
}

/// Classifies a message by its status byte.
pub fn decode(data: [u8; 3]) -> (event: MidiEvent)
    ensures
        event == decoded(data@),
{
    let status: u8 = data[0];
    if status == NOTE_OFF {
        MidiEvent::NoteOff { note: data[1] }
    } else if status == NOTE_ON {
        MidiEvent::NoteOn { note: data[1] }
    } else {
        MidiEvent::Unsupported { opcode: status }
    }
}

} // verus!
