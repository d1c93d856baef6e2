//! The pitch of a note in equal temperament, with A4 (note 69) at 440 Hz.

use crate::types::{MidiNote, NoteFreq};
use vstd::arithmetic::power2::{lemma2_to64, lemma_pow2_strictly_increases, lemma_pow2_unfold, pow2};
use vstd::prelude::*;

verus! {

/// Pitch of the twelve lowest notes in micro-hertz, rounded to the nearest
/// one. Note 9 lies five octaves below A4, at 13.75 Hz exactly.
pub open spec fn semitone_freq(semitone: int) -> int {
    if semitone == 0 {
        8_175_799
    } else if semitone == 1 {
        8_661_957
    } else if semitone == 2 {
        9_177_024
    } else if semitone == 3 {
        9_722_718
    } else if semitone == 4 {
        10_300_861
    } else if semitone == 5 {
        10_913_382
    } else if semitone == 6 {
        11_562_326
    } else if semitone == 7 {
        12_249_857
    } else if semitone == 8 {
        12_978_272
    } else if semitone == 9 {
        13_750_000
    } else if semitone == 10 {
        14_567_618
    } else {
        15_433_853
    }
}

/// Pitch of `note` in micro-hertz: that of its semitone among the twelve
/// lowest notes, doubled once for each octave above them.
pub open spec fn freq_of(note: MidiNote) -> int {
    semitone_freq((note % 12) as int) * pow2((note / 12) as nat)
}

/// Pitch of one of the twelve lowest notes.
pub fn lowest_octave(semitone: u8) -> (freq: NoteFreq)
    requires
        semitone < 12,
    ensures
        freq == semitone_freq(semitone as int),
        8_175_799 <= freq <= 15_433_853,
{
    match semitone {
        0 => 8_175_799,
        1 => 8_661_957,
        2 => 9_177_024,
        3 => 9_722_718,
        4 => 10_300_861,
        5 => 10_913_382,
        6 => 11_562_326,
        7 => 12_249_857,
        8 => 12_978_272,
        9 => 13_750_000,
        10 => 14_567_618,
        _ => 15_433_853,
    }
}

/// Pitch of `note` in micro-hertz.
pub fn note_freq(note: MidiNote) -> (freq: NoteFreq)
    ensures
        freq == freq_of(note),
        0 < freq < 0x2000_0000_0000,
{
    let octave: u8 = note / 12;
    let mut freq: NoteFreq = lowest_octave(note % 12);
    let ghost base: int = freq as int;
    let mut doubled: u8 = 0;
    proof {
        lemma2_to64();
    }
    while doubled < octave
        invariant
            doubled <= octave <= 21,
            base == semitone_freq((note % 12) as int),
            0 < base < 0x100_0000,
            freq == base * pow2(doubled as nat),
            pow2(doubled as nat) <= pow2(21),
            pow2(21) == 0x20_0000,
        decreases octave - doubled,
    {
        proof {
            lemma_pow2_unfold((doubled + 1) as nat);
            if doubled + 1 < 21 {
                lemma_pow2_strictly_increases((doubled + 1) as nat, 21);
            }
            assert(base * pow2(doubled as nat) <= 0x100_0000 * 0x20_0000) by (nonlinear_arith)
                requires
                    0 < base < 0x100_0000,
                    pow2(doubled as nat) <= 0x20_0000,
            ;
            assert(base * (2 * pow2(doubled as nat)) == 2 * (base * pow2(doubled as nat)))
                by (nonlinear_arith);
        }
        freq = freq * 2;
        doubled = doubled + 1;
    }
    proof {
        assert(base * pow2(doubled as nat) <= 0x100_0000 * 0x20_0000) by (nonlinear_arith)
            requires
                0 < base < 0x100_0000,
                pow2(doubled as nat) <= 0x20_0000,
        ;
        assert(0 < base * pow2(doubled as nat)) by (nonlinear_arith)
            requires
                0 < base,
                0 < pow2(doubled as nat),
        ;
    }
    freq
}

/// Every pitch is positive and fits the type that holds it.
pub proof fn lemma_freq_in_range(note: MidiNote)
    ensures
        0 < freq_of(note) < 0x2000_0000_0000,
{
    let octave = (note / 12) as nat;
    let base = semitone_freq((note % 12) as int);
    lemma2_to64();
    vstd::arithmetic::power2::lemma_pow2_pos(octave);
    if octave < 21 {
        lemma_pow2_strictly_increases(octave, 21);
    }
    assert(0 < base * pow2(octave) <= 0x100_0000 * 0x20_0000) by (nonlinear_arith)
        requires
            0 < base < 0x100_0000,
            0 < pow2(octave) <= 0x20_0000,
    ;
}

/// A note one octave above another has twice its pitch.
pub proof fn lemma_octave_doubles(note: MidiNote)
    requires
        note + 12 <= MidiNote::MAX,
    ensures
        freq_of((note + 12) as MidiNote) == 2 * freq_of(note),
{
    let upper = (note + 12) as MidiNote;
    assert(upper % 12 == note % 12);
    assert(upper / 12 == note / 12 + 1);
    lemma_pow2_unfold((upper / 12) as nat);
    assert(semitone_freq((note % 12) as int) * (2 * pow2((note / 12) as nat)) == 2 * (semitone_freq(
        (note % 12) as int,
    ) * pow2((note / 12) as nat))) by (nonlinear_arith);
}

} // verus!
