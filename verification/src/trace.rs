//! What holds of a pool along any sequence of events and rendered ticks.

use crate::midi::MidiEvent;
use crate::types::MidiNote;
use crate::voice::Voice;
use crate::voice_manager::{
    is_held, lemma_next_keeps_wf, lemma_note_off_keeps_wf, lemma_note_on_keeps_wf,
    lemma_rendered_all_held, lemma_stray_note_off, Pool,
};
use vstd::prelude::*;

verus! {

/// One thing that happens to a pool.
pub enum Step {
    /// An event arrives.
    Event(MidiEvent),
    /// A tick is rendered.
    Render,
}

/// The pool after one step.
pub open spec fn step(pool: Pool, step: Step) -> Pool {
    match step {
        Step::Event(event) => pool.apply(event),
        Step::Render => pool.next(),
    }
}

/// The pool after a sequence of steps, taken in order.
pub open spec fn run(pool: Pool, steps: Seq<Step>) -> Pool
    decreases steps.len(),
{
    if steps.len() == 0 {
        pool
    } else {
        step(run(pool, steps.drop_last()), steps.last())
    }
}

/// Number of note-ons among the steps.
pub open spec fn note_ons(steps: Seq<Step>) -> nat
    decreases steps.len(),
{
    if steps.len() == 0 {
        0
    } else if steps.last() matches Step::Event(MidiEvent::NoteOn { note }) {
        note_ons(steps.drop_last()) + 1
    } else {
        note_ons(steps.drop_last())
    }
}

/// The steps hold no note-off, and no two note-ons for the same note.
pub open spec fn independent(steps: Seq<Step>) -> bool {
    &&& forall|i: int|
        0 <= i < steps.len() ==> !(#[trigger] steps[i] matches Step::Event(
            MidiEvent::NoteOff { note },
        ))
    &&& forall|i: int, j: int|
        0 <= i < j < steps.len() && #[trigger] steps[i] is Event && #[trigger] steps[j] is Event
            ==> match (steps[i], steps[j]) {
            (
                Step::Event(MidiEvent::NoteOn { note: first }),
                Step::Event(MidiEvent::NoteOn { note: second }),
            ) => first != second,
            _ => true,
        }
}

/// Whether the steps start `note`.
pub open spec fn starts(steps: Seq<Step>, note: MidiNote) -> bool {
    exists|i: int|
        0 <= i < steps.len() && #[trigger] steps[i] == Step::Event(MidiEvent::NoteOn { note })
}

/// A consistent pool stays consistent whatever happens to it. In particular
/// no note ever has two held voices, however its note-ons and note-offs and
/// the rendered ticks follow each other.
pub proof fn lemma_run_keeps_wf(pool: Pool, steps: Seq<Step>)
    requires
        pool.wf(),
    ensures
        run(pool, steps).wf(),
    decreases steps.len(),
{
    if steps.len() > 0 {
        lemma_run_keeps_wf(pool, steps.drop_last());
        let before = run(pool, steps.drop_last());
        match steps.last() {
            Step::Event(MidiEvent::NoteOn { note }) => lemma_note_on_keeps_wf(before, note),
            Step::Event(MidiEvent::NoteOff { note }) => lemma_note_off_keeps_wf(before, note),
            Step::Event(MidiEvent::Unsupported { opcode }) => {},
            Step::Render => lemma_next_keeps_wf(before),
        }
    }
}

/// Notes that are started once each and never ended all keep sounding: from
/// an empty pool, the pool holds one held voice for each note-on, however
/// many ticks were rendered in between.
pub proof fn lemma_independent_notes_all_sound(pool: Pool, steps: Seq<Step>)
    requires
        pool.voices.len() == 0,
        independent(steps),
    ensures
        run(pool, steps).voices.len() == note_ons(steps),
        forall|k: int|
            0 <= k < run(pool, steps).voices.len() ==> (#[trigger] run(
                pool,
                steps,
            ).voices[k]).is_playing() && starts(steps, run(pool, steps).voices[k].note),
    decreases steps.len(),
{
    if steps.len() > 0 {
        let front = steps.drop_last();
        let last = steps.last();
        assert(independent(front)) by {
            assert forall|i: int| 0 <= i < front.len() implies !(#[trigger] front[i] matches Step::Event(
                MidiEvent::NoteOff { note },
            )) by {
                assert(front[i] == steps[i]);
            }
            assert forall|i: int, j: int|
                0 <= i < j < front.len() && #[trigger] front[i] is Event
                    && #[trigger] front[j] is Event implies match (front[i], front[j]) {
                (
                    Step::Event(MidiEvent::NoteOn { note: first }),
                    Step::Event(MidiEvent::NoteOn { note: second }),
                ) => first != second,
                _ => true,
            } by {
                assert(front[i] == steps[i] && front[j] == steps[j]);
            }
        }
        lemma_independent_notes_all_sound(pool, front);
        let before = run(pool, front);
        let after = run(pool, steps);
        assert forall|k: int| 0 <= k < before.voices.len() implies starts(
            steps,
            (#[trigger] before.voices[k]).note,
        ) by {
            let i = choose|i: int|
                0 <= i < front.len() && #[trigger] front[i] == Step::Event(
                    MidiEvent::NoteOn { note: before.voices[k].note },
                );
            assert(steps[i] == front[i]);
        }
        match last {
            Step::Event(MidiEvent::NoteOn { note }) => {
                assert(!is_held(before.voices, note)) by {
                    if is_held(before.voices, note) {
                        let k = choose|k: int|
                            0 <= k < before.voices.len() && (#[trigger] before.voices[k]).is_playing()
                                && before.voices[k].note == note;
                        let i = choose|i: int|
                            0 <= i < front.len() && #[trigger] front[i] == Step::Event(
                                MidiEvent::NoteOn { note },
                            );
                        assert(steps[i] == front[i]);
                        assert(steps[steps.len() - 1] == last);
                    }
                }
                lemma_stray_note_off(before, note);
                assert(after.voices == before.voices.push(Voice::fresh(note, before.tick)));
                assert(steps[steps.len() - 1] == Step::Event(MidiEvent::NoteOn { note }));
                assert forall|k: int| 0 <= k < after.voices.len() implies (#[trigger] after.voices[k]).is_playing()
                    && starts(steps, after.voices[k].note) by {
                    if k < before.voices.len() {
                        assert(after.voices[k] == before.voices[k]);
                    }
                }
            },
            Step::Event(MidiEvent::NoteOff { note }) => {
                assert(steps[steps.len() - 1] == last);
            },
            Step::Event(MidiEvent::Unsupported { opcode }) => {},
            Step::Render => {
                lemma_rendered_all_held(before.voices, before.adsr, before.rate, before.tick);
                assert forall|k: int| 0 <= k < after.voices.len() implies (#[trigger] after.voices[k]).is_playing()
                    && starts(steps, after.voices[k].note) by {
                    assert(after.voices[k] == before.voices[k].at_tick(before.tick));
                }
            },
        }
    }
}

} // verus!
