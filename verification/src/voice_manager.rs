//! The voice manager: the pool of sounding voices, what a note-on and a
//! note-off do to it, and the list of voices to render at each tick.
//!
//! A note-on for a note that is still held releases the held voice at that
//! instant and starts a new one beside it. The old voice fades out under its
//! own envelope, so nothing is cut off, and no note ever has two held voices.

use crate::envelope::{lemma_attack_rises, ADSR};
use crate::midi::MidiEvent;
use crate::types::{MidiNote, Playhead};
use crate::voice::{Voice, VoiceState};
use vstd::prelude::*;

verus! {

/// The voice after a note-off for `note` at tick `now`: released if it is the
/// held voice of that note, unchanged otherwise.
pub open spec fn ended(voice: Voice, note: MidiNote, adsr: ADSR, rate: u32, now: Playhead) -> Voice {
    if voice.is_playing() && voice.note == note {
        voice.released(adsr, rate, now)
    } else {
        voice
    }
}

/// The voices after a note-off for `note` at tick `now`.
pub open spec fn ended_all(
    voices: Seq<Voice>,
    note: MidiNote,
    adsr: ADSR,
    rate: u32,
    now: Playhead,
) -> Seq<Voice> {
    voices.map_values(|voice: Voice| ended(voice, note, adsr, rate, now))
}

/// The voices to render at tick `now`: those that have not faded out, in
/// their order, each brought to that tick.
pub open spec fn rendered(voices: Seq<Voice>, adsr: ADSR, rate: u32, now: Playhead) -> Seq<Voice> {
    voices.filter(|voice: Voice| !voice.silent_at(adsr, rate, now as int)).map_values(
        |voice: Voice| voice.at_tick(now),
    )
}

/// No note has two held voices.
pub open spec fn one_held_per_note(voices: Seq<Voice>) -> bool {
    forall|i: int, j: int|
        0 <= i < j < voices.len() && (#[trigger] voices[i]).is_playing()
            && (#[trigger] voices[j]).is_playing() ==> voices[i].note != voices[j].note
}

/// Every voice is consistent and lies in the past of tick `now`.
pub open spec fn all_before(voices: Seq<Voice>, now: Playhead) -> bool {
    forall|i: int|
        0 <= i < voices.len() ==> (#[trigger] voices[i]).wf() && voices[i].before(now)
}

/// Whether `note` has a held voice.
pub open spec fn is_held(voices: Seq<Voice>, note: MidiNote) -> bool {
    exists|i: int|
        0 <= i < voices.len() && (#[trigger] voices[i]).is_playing() && voices[i].note == note
}

/// The tick after `now`. The last tick that can be counted is followed by
/// itself.
pub open spec fn tick_after(now: Playhead) -> Playhead {
    if now < Playhead::MAX {
        (now + 1) as Playhead
    } else {
        now
    }
}

/// What a voice manager holds, as plain values.
pub struct Pool {
    /// The voices that have not been reclaimed, oldest first.
    pub voices: Seq<Voice>,
    /// The tick that is rendered next.
    pub tick: Playhead,
    /// The render sample rate in samples per second.
    pub rate: u32,
    /// The envelope configuration of the instrument.
    pub adsr: ADSR,
}

impl Pool {
    /// The pool is consistent: the configuration is usable, every voice is
    /// consistent and lies in the past of the current tick, and no note has
    /// two held voices.
    pub open spec fn wf(self) -> bool {
        &&& self.adsr.wf()
        &&& all_before(self.voices, self.tick)
        &&& one_held_per_note(self.voices)
    }

    /// The pool after a note-off: the held voice of `note`, if there is one,
    /// is released at the current tick.
    pub open spec fn note_off(self, note: MidiNote) -> Pool {
        Pool { voices: ended_all(self.voices, note, self.adsr, self.rate, self.tick), ..self }
    }

    /// The pool after a note-on: the held voice of `note`, if there is one,
    /// is released, and a new voice for `note` starts at the current tick.
    pub open spec fn note_on(self, note: MidiNote) -> Pool {
        Pool {
            voices: ended_all(self.voices, note, self.adsr, self.rate, self.tick).push(
                Voice::fresh(note, self.tick),
            ),
            ..self
        }
    }

    /// The pool after an event: a note-on or a note-off does its work, and
    /// an unsupported message changes nothing.
    pub open spec fn apply(self, event: MidiEvent) -> Pool {
        match event {
            MidiEvent::NoteOn { note } => self.note_on(note),
            MidiEvent::NoteOff { note } => self.note_off(note),
            MidiEvent::Unsupported { opcode } => self,
        }
    }

    /// The pool after a tick was rendered: the voices that had faded out at
    /// that tick are gone, the others stand at it, and the playhead has
    /// moved on.
    pub open spec fn next(self) -> Pool {
        Pool {
            voices: rendered(self.voices, self.adsr, self.rate, self.tick),
            tick: tick_after(self.tick),
            ..self
        }
    }
}

/// Rendering one more voice: it joins the list unless it has faded out.
pub proof fn lemma_rendered_push(
    voices: Seq<Voice>,
    voice: Voice,
    adsr: ADSR,
    rate: u32,
    now: Playhead,
)
    ensures
        rendered(voices.push(voice), adsr, rate, now) == if voice.silent_at(
            adsr,
            rate,
            now as int,
        ) {
            rendered(voices, adsr, rate, now)
        } else {
            rendered(voices, adsr, rate, now).push(voice.at_tick(now))
        },
{
    let keep = |voice: Voice| !voice.silent_at(adsr, rate, now as int);
    let all = voices.push(voice);
    assert(all.drop_last() =~= voices);
    assert(all.last() == voice);
    reveal_with_fuel(Seq::filter, 2);
    if keep(voice) {
        assert(all.filter(keep) == voices.filter(keep).push(voice));
        assert(rendered(all, adsr, rate, now) =~= rendered(voices, adsr, rate, now).push(
            voice.at_tick(now),
        ));
    } else {
        assert(all.filter(keep) == voices.filter(keep));
    }
}

/// Nothing is rendered from an empty pool.
pub proof fn lemma_rendered_empty(adsr: ADSR, rate: u32, now: Playhead)
    ensures
        rendered(Seq::<Voice>::empty(), adsr, rate, now) == Seq::<Voice>::empty(),
{
    let keep = |voice: Voice| !voice.silent_at(adsr, rate, now as int);
    reveal_with_fuel(Seq::filter, 1);
    assert(Seq::<Voice>::empty().filter(keep) =~= Seq::<Voice>::empty());
    assert(rendered(Seq::<Voice>::empty(), adsr, rate, now) =~= Seq::<Voice>::empty());
}

/// The render list is exact. Every voice on it is a voice of the pool that
/// has not faded out, brought to the tick; every such voice of the pool is on
/// it; and it is no longer than the pool.
pub proof fn lemma_rendered_exact(voices: Seq<Voice>, adsr: ADSR, rate: u32, now: Playhead)
    ensures
        rendered(voices, adsr, rate, now).len() <= voices.len(),
        forall|k: int|
            0 <= k < rendered(voices, adsr, rate, now).len() ==> exists|i: int|
                0 <= i < voices.len() && !(#[trigger] voices[i]).silent_at(adsr, rate, now as int)
                    && (#[trigger] rendered(voices, adsr, rate, now)[k]) == voices[i].at_tick(now),
        forall|i: int|
            0 <= i < voices.len() && !(#[trigger] voices[i]).silent_at(adsr, rate, now as int)
                ==> rendered(voices, adsr, rate, now).contains(voices[i].at_tick(now)),
    decreases voices.len(),
{
    if voices.len() == 0 {
        assert(voices =~= Seq::<Voice>::empty());
        lemma_rendered_empty(adsr, rate, now);
    } else {
        let front = voices.drop_last();
        let voice = voices.last();
        assert(voices =~= front.push(voice));
        lemma_rendered_exact(front, adsr, rate, now);
        lemma_rendered_push(front, voice, adsr, rate, now);
        let before = rendered(front, adsr, rate, now);
        let after = rendered(voices, adsr, rate, now);
        assert forall|k: int| 0 <= k < after.len() implies exists|i: int|
            0 <= i < voices.len() && !(#[trigger] voices[i]).silent_at(adsr, rate, now as int)
                && (#[trigger] after[k]) == voices[i].at_tick(now) by {
            if k < before.len() {
                assert(after[k] == before[k]);
                let i = choose|i: int|
                    0 <= i < front.len() && !(#[trigger] front[i]).silent_at(
                        adsr,
                        rate,
                        now as int,
                    ) && before[k] == front[i].at_tick(now);
                assert(voices[i] == front[i]);
            } else {
                assert(after[k] == voices[voices.len() - 1].at_tick(now));
            }
        }
        assert forall|i: int|
            0 <= i < voices.len() && !(#[trigger] voices[i]).silent_at(
                adsr,
                rate,
                now as int,
            ) implies after.contains(voices[i].at_tick(now)) by {
            if i < front.len() {
                assert(voices[i] == front[i]);
                let k = choose|k: int|
                    0 <= k < before.len() && before[k] == front[i].at_tick(now);
                assert(after[k] == before[k]);
            } else {
                assert(after[after.len() - 1] == voices[i].at_tick(now));
            }
        }
    }
}

/// Rendering keeps the rule that no note has two held voices.
pub proof fn lemma_rendered_one_held(voices: Seq<Voice>, adsr: ADSR, rate: u32, now: Playhead)
    requires
        one_held_per_note(voices),
    ensures
        one_held_per_note(rendered(voices, adsr, rate, now)),
    decreases voices.len(),
{
    if voices.len() == 0 {
        assert(voices =~= Seq::<Voice>::empty());
        lemma_rendered_empty(adsr, rate, now);
    } else {
        let front = voices.drop_last();
        let voice = voices.last();
        assert(voices =~= front.push(voice));
        assert(one_held_per_note(front)) by {
            assert forall|i: int, j: int|
                0 <= i < j < front.len() && (#[trigger] front[i]).is_playing()
                    && (#[trigger] front[j]).is_playing() implies front[i].note
                != front[j].note by {
                assert(voices[i] == front[i] && voices[j] == front[j]);
            }
        }
        lemma_rendered_one_held(front, adsr, rate, now);
        lemma_rendered_exact(front, adsr, rate, now);
        lemma_rendered_push(front, voice, adsr, rate, now);
        let before = rendered(front, adsr, rate, now);
        let after = rendered(voices, adsr, rate, now);
        assert forall|k: int, l: int|
            0 <= k < l < after.len() && (#[trigger] after[k]).is_playing()
                && (#[trigger] after[l]).is_playing() implies after[k].note != after[l].note by {
            if l < before.len() {
                assert(after[k] == before[k] && after[l] == before[l]);
            } else {
                assert(after[k] == before[k]);
                let i = choose|i: int|
                    0 <= i < front.len() && !(#[trigger] front[i]).silent_at(
                        adsr,
                        rate,
                        now as int,
                    ) && before[k] == front[i].at_tick(now);
                assert(voices[i] == front[i]);
                assert(voices[voices.len() - 1] == voice);
            }
        }
    }
}

/// A note-off keeps a consistent pool consistent and reclaims nothing.
pub proof fn lemma_note_off_keeps_wf(pool: Pool, note: MidiNote)
    requires
        pool.wf(),
    ensures
        pool.note_off(note).wf(),
        pool.note_off(note).voices.len() == pool.voices.len(),
        !is_held(pool.note_off(note).voices, note),
{
    let after = pool.note_off(note).voices;
    assert forall|i: int| 0 <= i < after.len() implies (#[trigger] after[i]).wf()
        && after[i].before(pool.tick) by {
        let voice = pool.voices[i];
        assert(voice.wf() && voice.before(pool.tick));
        assert(after[i] == ended(voice, note, pool.adsr, pool.rate, pool.tick));
        lemma_attack_rises(
            pool.adsr,
            pool.rate,
            pool.tick - voice.envelope.start,
            pool.tick - voice.envelope.start,
        );
    }
    assert forall|i: int, j: int|
        0 <= i < j < after.len() && (#[trigger] after[i]).is_playing()
            && (#[trigger] after[j]).is_playing() implies after[i].note != after[j].note by {
        assert(after[i] == pool.voices[i] && after[j] == pool.voices[j]);
    }
    assert forall|i: int| 0 <= i < after.len() && (#[trigger] after[i]).is_playing() implies after[i].note
        != note by {
        assert(after[i] == ended(pool.voices[i], note, pool.adsr, pool.rate, pool.tick));
    }
}

/// A note-on keeps a consistent pool consistent and adds one voice to it:
/// a held voice for the note, which starts at the current tick.
pub proof fn lemma_note_on_keeps_wf(pool: Pool, note: MidiNote)
    requires
        pool.wf(),
    ensures
        pool.note_on(note).wf(),
        pool.note_on(note).voices.len() == pool.voices.len() + 1,
        pool.note_on(note).voices.last() == Voice::fresh(note, pool.tick),
{
    lemma_note_off_keeps_wf(pool, note);
    let ended = pool.note_off(note).voices;
    let after = pool.note_on(note).voices;
    let fresh = Voice::fresh(note, pool.tick);
    crate::pitch::lemma_freq_in_range(note);
    assert(fresh.wf() && fresh.before(pool.tick));
    assert forall|i: int| 0 <= i < after.len() implies (#[trigger] after[i]).wf()
        && after[i].before(pool.tick) by {
        if i < ended.len() {
            assert(after[i] == ended[i]);
        }
    }
    assert forall|i: int, j: int|
        0 <= i < j < after.len() && (#[trigger] after[i]).is_playing()
            && (#[trigger] after[j]).is_playing() implies after[i].note != after[j].note by {
        assert(after[i] == ended[i]);
        if j < ended.len() {
            assert(after[j] == ended[j]);
        }
    }
}

/// Rendering a tick keeps a consistent pool consistent.
pub proof fn lemma_next_keeps_wf(pool: Pool)
    requires
        pool.wf(),
    ensures
        pool.next().wf(),
        pool.next().voices.len() <= pool.voices.len(),
        forall|k: int|
            0 <= k < pool.next().voices.len() ==> (#[trigger] pool.next().voices[k]).now()
                == pool.tick,
{
    let after = pool.next().voices;
    lemma_rendered_exact(pool.voices, pool.adsr, pool.rate, pool.tick);
    lemma_rendered_one_held(pool.voices, pool.adsr, pool.rate, pool.tick);
    assert forall|k: int| 0 <= k < after.len() implies (#[trigger] after[k]).wf()
        && after[k].before(pool.next().tick) && after[k].now() == pool.tick by {
        let i = choose|i: int|
            0 <= i < pool.voices.len() && !(#[trigger] pool.voices[i]).silent_at(
                pool.adsr,
                pool.rate,
                pool.tick as int,
            ) && after[k] == pool.voices[i].at_tick(pool.tick);
        assert(pool.voices[i].wf() && pool.voices[i].before(pool.tick));
    }
}

/// A voice is on the render list of a tick exactly if it has not faded out
/// at that tick: nothing is reclaimed early and nothing late.
pub proof fn lemma_rendered_presence(
    voices: Seq<Voice>,
    adsr: ADSR,
    rate: u32,
    now: Playhead,
    i: int,
)
    requires
        0 <= i < voices.len(),
    ensures
        rendered(voices, adsr, rate, now).contains(voices[i].at_tick(now)) <==> !voices[i].silent_at(
            adsr,
            rate,
            now as int,
        ),
{
    let list = rendered(voices, adsr, rate, now);
    lemma_rendered_exact(voices, adsr, rate, now);
    if list.contains(voices[i].at_tick(now)) {
        let k = choose|k: int| 0 <= k < list.len() && list[k] == voices[i].at_tick(now);
        let j = choose|j: int|
            0 <= j < voices.len() && !(#[trigger] voices[j]).silent_at(adsr, rate, now as int)
                && list[k] == voices[j].at_tick(now);
        assert(voices[j].envelope == voices[i].envelope);
    }
}

/// While every voice is held, every voice is rendered: the list has the
/// length of the pool and holds each voice, brought to the tick, in its
/// place.
pub proof fn lemma_rendered_all_held(voices: Seq<Voice>, adsr: ADSR, rate: u32, now: Playhead)
    requires
        forall|i: int| 0 <= i < voices.len() ==> (#[trigger] voices[i]).is_playing(),
    ensures
        rendered(voices, adsr, rate, now) == voices.map_values(|voice: Voice| voice.at_tick(now)),
    decreases voices.len(),
{
    let to_tick = |voice: Voice| voice.at_tick(now);
    if voices.len() == 0 {
        assert(voices =~= Seq::<Voice>::empty());
        lemma_rendered_empty(adsr, rate, now);
        assert(voices.map_values(to_tick) =~= Seq::<Voice>::empty());
    } else {
        let front = voices.drop_last();
        let voice = voices.last();
        assert(voices =~= front.push(voice));
        assert forall|i: int| 0 <= i < front.len() implies (#[trigger] front[i]).is_playing() by {
            assert(front[i] == voices[i]);
        }
        lemma_rendered_all_held(front, adsr, rate, now);
        lemma_rendered_push(front, voice, adsr, rate, now);
        assert(voice.is_playing());
        assert(front.map_values(to_tick).push(voice.at_tick(now)) =~= voices.map_values(to_tick));
    }
}

/// A note-off for a note without a held voice changes nothing.
pub proof fn lemma_stray_note_off(pool: Pool, note: MidiNote)
    requires
        !is_held(pool.voices, note),
    ensures
        pool.note_off(note) == pool,
{
    assert forall|i: int| 0 <= i < pool.voices.len() implies ended(
        #[trigger] pool.voices[i],
        note,
        pool.adsr,
        pool.rate,
        pool.tick,
    ) == pool.voices[i] by {}
    assert(pool.note_off(note).voices =~= pool.voices);
}

/// After a note-on the note sounds from silence: the pool ends with a held
/// voice for the note whose gain at that tick is zero, and that voice is the
/// last on the list of the next tick rendered.
pub proof fn lemma_note_on_sounds(pool: Pool, note: MidiNote)
    requires
        pool.wf(),
    ensures
        pool.note_on(note).voices.last() == Voice::fresh(note, pool.tick),
        Voice::fresh(note, pool.tick).is_playing(),
        Voice::fresh(note, pool.tick).note == note,
        Voice::fresh(note, pool.tick).gain_at(pool.adsr, pool.rate, pool.tick as int) == 0,
        pool.note_on(note).next().voices.len() >= 1,
        pool.note_on(note).next().voices.last() == Voice::fresh(note, pool.tick),
{
    let fresh = Voice::fresh(note, pool.tick);
    let ended = pool.note_off(note).voices;
    crate::voice::lemma_fresh_voice_is_silent(note, pool.tick, pool.adsr, pool.rate);
    lemma_rendered_push(ended, fresh, pool.adsr, pool.rate, pool.tick);
    assert(fresh.at_tick(pool.tick) == fresh);
}

/// The pool of voices of one instrument, with its playhead, its sample rate
/// and its envelope configuration.
pub struct VoiceManager {
    voices: Vec<Voice>,
    playhead: Playhead,
    sample_rate: u32,
    adsr: ADSR,
}

impl View for VoiceManager {
    type V = Pool;

    closed spec fn view(&self) -> Pool {
        Pool {
            voices: self.voices@,
            tick: self.playhead,
            rate: self.sample_rate,
            adsr: self.adsr,
        }
    }
}

impl VoiceManager {
    /// The manager is consistent; see `Pool::wf`.
    pub open spec fn wf(&self) -> bool {
        self@.wf()
    }

    /// An empty pool at tick zero, with the default envelope and no sample
    /// rate yet.
    pub fn new() -> (manager: VoiceManager)
        ensures
            manager.wf(),
            manager@.voices == Seq::<Voice>::empty(),
            manager@.tick == 0,
            manager@.rate == 0,
            manager@.adsr == (ADSR {
                attack_time: 50_000,
                release_time: 90_000,
                attack_ratio: 750_000,
                release_ratio: 100,
            }),
    {
        VoiceManager { voices: Vec::new(), playhead: 0, sample_rate: 0, adsr: ADSR::default() }
    }

    /// The tick that is rendered next.
    pub fn playhead(&self) -> (tick: Playhead)
        ensures
            tick == self@.tick,
    {
        self.playhead
    }

    /// The render sample rate in samples per second.
    pub fn sample_rate(&self) -> (rate: u32)
        ensures
            rate == self@.rate,
    {
        self.sample_rate
    }

    /// The envelope configuration.
    pub fn envelope(&self) -> (adsr: ADSR)
        ensures
            adsr == self@.adsr,
    {
        self.adsr
    }

    /// Number of voices that have not been reclaimed.
    pub fn len(&self) -> (count: usize)
        ensures
            count == self@.voices.len(),
    {
        self.voices.len()
    }

    /// The voice at position `index` of the pool, oldest first, if there is
    /// one.
    pub fn voice(&self, index: usize) -> (voice: Option<Voice>)
        ensures
            voice == if index < self@.voices.len() {
                Some(self@.voices[index as int])
            } else {
                None
            },
    {
        if index < self.voices.len() {
            Some(self.voices[index])
        } else {
            None
        }
    }

    /// Sets the render sample rate.
    pub fn set_sample_rate(&mut self, rate: u32)
        ensures
            final(self)@ == (Pool { rate, ..old(self)@ }),
    {
        self.sample_rate = rate;
    }

    /// Sets the envelope configuration. A duration or ratio below its floor
    /// is raised to the floor.
    pub fn set_envelope(&mut self, adsr: ADSR)
        ensures
            final(self)@ == (Pool {
                adsr: ADSR {
                    attack_time: crate::envelope::floored_time(adsr.attack_time),
                    release_time: crate::envelope::floored_time(adsr.release_time),
                    attack_ratio: crate::envelope::floored_ratio(adsr.attack_ratio),
                    release_ratio: crate::envelope::floored_ratio(adsr.release_ratio),
                },
                ..old(self)@
            }),
            final(self)@.adsr.wf(),
            old(self).wf() ==> final(self).wf(),
    {
        self.adsr = ADSR::new(
            adsr.attack_time,
            adsr.release_time,
            adsr.attack_ratio,
            adsr.release_ratio,
        );
    }

    /// Ends `note`: its held voice, if there is one, starts to fade from the
    /// gain it has at the current tick. Without a held voice for `note`
    /// nothing changes.
    pub fn note_off(&mut self, note: MidiNote)
        requires
            old(self).wf(),
        ensures
            final(self).wf(),
            final(self)@ == old(self)@.note_off(note),
    {
        let count: usize = self.voices.len();
        let mut index: usize = 0;
        while index < count
            invariant
                index <= count,
                count == self.voices.len(),
                count == old(self).voices.len(),
                self.playhead == old(self).playhead,
                self.sample_rate == old(self).sample_rate,
                self.adsr == old(self).adsr,
                forall|k: int|
                    0 <= k < index ==> (#[trigger] self.voices[k]) == ended(
                        old(self).voices[k],
                        note,
                        self.adsr,
                        self.sample_rate,
                        self.playhead,
                    ),
                forall|k: int|
                    index <= k < count ==> (#[trigger] self.voices[k]) == old(self).voices[k],
            decreases count - index,
        {
            let mut voice: Voice = self.voices[index];
            if voice.note == note {
                match voice.state() {
                    VoiceState::Playing => {
                        voice.release(&self.adsr, self.sample_rate, self.playhead);
                        self.voices.set(index, voice);
                    },
                    VoiceState::Released(_) => {},
                }
            }
            index = index + 1;
        }
        proof {
            assert(self@.voices =~= old(self)@.note_off(note).voices);
            lemma_note_off_keeps_wf(old(self)@, note);
        }
    }

    /// Starts `note`: a new held voice begins at the current tick, at gain
    /// zero and phase zero. A voice of `note` that is still held is released
    /// at this tick and fades out beside the new one.
    pub fn note_on(&mut self, note: MidiNote)
        requires
            old(self).wf(),
        ensures
            final(self).wf(),
            final(self)@ == old(self)@.note_on(note),
    {
        self.note_off(note);
        let voice: Voice = Voice::new(note, self.playhead);
        self.voices.push(voice);
        proof {
            assert(self@.voices =~= old(self)@.note_on(note).voices);
            lemma_note_on_keeps_wf(old(self)@, note);
        }
    }

    /// Handles one event: starts or ends its note, or drops it if it is not
    /// supported.
    pub fn handle(&mut self, event: MidiEvent)
        requires
            old(self).wf(),
        ensures
            final(self).wf(),
            final(self)@ == old(self)@.apply(event),
    {
        match event {
            MidiEvent::NoteOn { note } => self.note_on(note),
            MidiEvent::NoteOff { note } => self.note_off(note),
            MidiEvent::Unsupported { opcode } => {},
        }
    }

    /// Renders one tick. Reclaims the voices that have faded out at the
    /// current tick, brings the others to it, and moves the playhead on.
    /// Returns the voices to render, which are those left in the pool. The
    /// pool is compacted in place, so rendering allocates nothing.
    pub fn next(&mut self) -> (list: &Vec<Voice>)
        requires
            old(self).wf(),
        ensures
            final(self).wf(),
            final(self)@ == old(self)@.next(),
            list@ == final(self)@.voices,
    {
        let now: Playhead = self.playhead;
        let count: usize = self.voices.len();
        let mut kept: usize = 0;
        let mut index: usize = 0;
        proof {
            assert(old(self).voices@.take(0) =~= Seq::<Voice>::empty());
            assert(self.voices@.take(0) =~= Seq::<Voice>::empty());
            lemma_rendered_empty(self.adsr, self.sample_rate, now);
        }
        while index < count
            invariant
                kept <= index <= count,
                count == self.voices.len(),
                count == old(self).voices.len(),
                old(self).wf(),
                self.playhead == old(self).playhead,
                self.sample_rate == old(self).sample_rate,
                self.adsr == old(self).adsr,
                now == self.playhead,
                self.voices@.take(kept as int) == rendered(
                    old(self).voices@.take(index as int),
                    self.adsr,
                    self.sample_rate,
                    now,
                ),
                forall|k: int|
                    index <= k < count ==> (#[trigger] self.voices[k]) == old(self).voices[k],
            decreases count - index,
        {
            let mut voice: Voice = self.voices[index];
            proof {
                assert(old(self).voices@.take(index + 1) =~= old(self).voices@.take(
                    index as int,
                ).push(voice));
                lemma_rendered_push(
                    old(self).voices@.take(index as int),
                    voice,
                    self.adsr,
                    self.sample_rate,
                    now,
                );
                assert(old(self)@.voices[index as int] == voice);
                assert(voice.wf() && voice.before(now));
            }
            if !voice.is_silent(&self.adsr, self.sample_rate, now) {
                voice.samples_since_start = now - voice.envelope.start;
                let ghost front = self.voices@.take(kept as int);
                self.voices.set(kept, voice);
                proof {
                    assert(self.voices@.take(kept + 1) =~= front.push(voice));
                }
                kept = kept + 1;
            }
            index = index + 1;
        }
        proof {
            assert(old(self).voices@.take(count as int) =~= old(self).voices@);
            lemma_next_keeps_wf(old(self)@);
        }
        self.voices.truncate(kept);
        if self.playhead < Playhead::MAX {
            self.playhead = self.playhead + 1;
        }
        &self.voices
    }
}

} // verus!
