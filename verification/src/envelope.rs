//! The amplitude envelope: a shaped ramp up on attack, unity while the note
//! is held, and a shaped ramp down from the gain the voice had when it was
//! released.
//!
//! Durations are configured in microseconds and turned into sample ticks
//! with the render sample rate, so that every gain is a function of tick
//! counts.

use crate::types::{Gain, Playhead, GAIN_ONE};
use vstd::arithmetic::div_mod::{
    lemma_div_by_multiple_is_strongly_ordered, lemma_div_is_ordered, lemma_div_multiples_vanish,
    lemma_fundamental_div_mod, lemma_mod_bound,
};
use vstd::prelude::*;

verus! {

/// Shortest attack or release that can be configured, in microseconds: one
/// millisecond, short enough to sound immediate and long enough not to click.
pub const MIN_TIME: u32 = 1_000;

/// Smallest curve ratio that can be configured, in millionths.
pub const MIN_RATIO: u32 = 10;

/// Gain at or below which a released voice counts as silent.
pub const SILENCE_THRESHOLD: Gain = 100;

/// Number of sample ticks in `time` microseconds at `rate` samples per
/// second, never less than one tick.
pub open spec fn ticks_in(time: int, rate: int) -> int {
    let ticks = time * rate / 1_000_000;
    if ticks < 1 {
        1
    } else {
        ticks
    }
}

/// How far `num` has come towards `den`, in millionths, rounded down.
pub open spec fn progress(num: int, den: int) -> int {
    GAIN_ONE * num / den
}

/// The ratio that shapes a ramp: a configured ratio cut off at unity.
pub open spec fn shaping(ratio: int) -> int {
    if ratio > GAIN_ONE {
        GAIN_ONE as int
    } else {
        ratio
    }
}

/// Bends a linear ramp value `lin` (in millionths) by mixing it with its
/// square. With `ratio` 0 the ramp stays linear; with `ratio` at unity it is
/// the pure square, which starts slowly and ends steeply.
pub open spec fn curve(lin: int, ratio: int) -> int {
    ((GAIN_ONE - shaping(ratio)) * lin + shaping(ratio) * (lin * lin / (GAIN_ONE as int)))
        / (GAIN_ONE as int)
}

/// Gain of a held note `elapsed` ticks after its start, for an attack of
/// `attack` ticks shaped by `ratio`.
pub open spec fn ramp_up(attack: int, ratio: int, elapsed: int) -> int {
    if elapsed >= attack {
        GAIN_ONE as int
    } else if elapsed <= 0 {
        0
    } else {
        curve(progress(elapsed, attack), ratio)
    }
}

/// Gain of a released note `elapsed` ticks after its release, for a release
/// of `release` ticks shaped by `ratio`, starting from the gain `from`.
pub open spec fn ramp_down(release: int, ratio: int, elapsed: int, from: int) -> int {
    if elapsed >= release {
        0
    } else if elapsed <= 0 {
        from
    } else {
        from * curve(progress(release - elapsed, release), ratio) / (GAIN_ONE as int)
    }
}

/// A linear ramp value lies between zero and unity, and reaches both ends.
pub proof fn lemma_progress_bounds(num: int, den: int)
    requires
        0 <= num <= den,
        0 < den,
    ensures
        0 <= progress(num, den) <= GAIN_ONE,
        num == 0 ==> progress(num, den) == 0,
        num == den ==> progress(num, den) == GAIN_ONE,
{
    let one = GAIN_ONE as int;
    assert(0 <= one * num <= one * den) by (nonlinear_arith)
        requires
            0 <= num <= den,
            one == 1_000_000,
    ;
    lemma_div_is_ordered(0, one * num, den);
    lemma_div_is_ordered(one * num, one * den, den);
    assert(one * den == den * one) by (nonlinear_arith);
    lemma_div_multiples_vanish(one, den);
    assert(0int / den == 0) by (nonlinear_arith)
        requires
            0 < den,
    ;
    assert(one * 0 == 0);
}

/// A linear ramp value never falls as its numerator grows.
pub proof fn lemma_progress_monotone(a: int, b: int, den: int)
    requires
        0 <= a <= b,
        0 < den,
    ensures
        progress(a, den) <= progress(b, den),
{
    let one = GAIN_ONE as int;
    assert(one * a <= one * b) by (nonlinear_arith)
        requires
            a <= b,
            one == 1_000_000,
    ;
    lemma_div_is_ordered(one * a, one * b, den);
}

/// A shaped ramp value lies between zero and the linear one, and keeps both
/// ends of the ramp fixed.
pub proof fn lemma_curve_bounds(lin: int, ratio: int)
    requires
        0 <= lin <= GAIN_ONE,
        0 <= ratio,
    ensures
        0 <= curve(lin, ratio) <= lin,
        curve(0, ratio) == 0,
        curve(GAIN_ONE as int, ratio) == GAIN_ONE,
{
    let one = GAIN_ONE as int;
    let r = shaping(ratio);
    let quad = lin * lin / one;
    assert(0 <= lin * lin <= lin * one) by (nonlinear_arith)
        requires
            0 <= lin <= one,
    ;
    assert(lin * one / one == lin) by (nonlinear_arith)
        requires
            one == 1_000_000,
    ;
    assert(0 <= quad <= lin);
    assert(0 <= (one - r) * lin + r * quad <= one * lin) by (nonlinear_arith)
        requires
            0 <= r <= one,
            0 <= quad <= lin,
    ;
    assert(one * lin / one == lin) by (nonlinear_arith)
        requires
            one == 1_000_000,
    ;
    assert(one * one / one == one) by (nonlinear_arith)
        requires
            one == 1_000_000,
    ;
    assert((one - r) * one + r * one == one * one) by (nonlinear_arith);
    assert((one - r) * 0int + r * (0int * 0int / one) == 0) by (nonlinear_arith)
        requires
            one == 1_000_000,
    ;
}

/// A shaped ramp value never falls as the linear one grows.
pub proof fn lemma_curve_monotone(a: int, b: int, ratio: int)
    requires
        0 <= a <= b,
        0 <= ratio,
    ensures
        curve(a, ratio) <= curve(b, ratio),
{
    let one = GAIN_ONE as int;
    let r = shaping(ratio);
    assert(a * a <= b * b) by (nonlinear_arith)
        requires
            0 <= a <= b,
    ;
    let qa = a * a / one;
    let qb = b * b / one;
    assert(qa <= qb);
    assert((one - r) * a + r * qa <= (one - r) * b + r * qb) by (nonlinear_arith)
        requires
            0 <= r <= one,
            a <= b,
            qa <= qb,
    ;
}

/// Configuration of the envelope, shared by every voice of the instrument.
#[derive(Clone, Copy, Debug, PartialEq, Eq, Structural)]
pub struct ADSR {
    /// Duration of the attack in microseconds.
    pub attack_time: u32,
    /// Duration of the release in microseconds.
    pub release_time: u32,
    /// Curve ratio of the attack in millionths.
    pub attack_ratio: u32,
    /// Curve ratio of the release in millionths.
    pub release_ratio: u32,
}

/// A configured duration, kept at or above the shortest one.
pub open spec fn floored_time(time: u32) -> u32 {
    if time < MIN_TIME {
        MIN_TIME
    } else {
        time
    }
}

/// A configured curve ratio, kept at or above the smallest one.
pub open spec fn floored_ratio(ratio: u32) -> u32 {
    if ratio < MIN_RATIO {
        MIN_RATIO
    } else {
        ratio
    }
}

/// Keeps a duration at or above the shortest one.
pub fn floor_time(time: u32) -> (floored: u32)
    ensures
        floored == floored_time(time),
{
    if time < MIN_TIME {
        MIN_TIME
    } else {
        time
    }
}

/// Keeps a curve ratio at or above the smallest one.
pub fn floor_ratio(ratio: u32) -> (floored: u32)
    ensures
        floored == floored_ratio(ratio),
{
    if ratio < MIN_RATIO {
        MIN_RATIO
    } else {
        ratio
    }
}

/// Number of ticks in `time` microseconds at `rate` samples per second, at
/// least one.
pub fn ticks(time: u32, rate: u32) -> (count: u64)
    ensures
        count == ticks_in(time as int, rate as int),
        count >= 1,
{
    assert(time * rate <= 0xFFFF_FFFF * 0xFFFF_FFFF) by (nonlinear_arith)
        requires
            0 <= time <= 0xFFFF_FFFF,
            0 <= rate <= 0xFFFF_FFFF,
    ;
    let scaled: u64 = (time as u64) * (rate as u64) / 1_000_000;
    if scaled < 1 {
        1
    } else {
        scaled
    }
}

/// The linear ramp value of `num` out of `den`, in millionths.
pub fn linear(num: u64, den: u64) -> (lin: Gain)
    requires
        num <= den,
        0 < den,
    ensures
        lin == progress(num as int, den as int),
        lin <= GAIN_ONE,
{
    proof {
        lemma_progress_bounds(num as int, den as int);
        assert(GAIN_ONE * num <= 1_000_000 * 0xFFFF_FFFF_FFFF_FFFF) by (nonlinear_arith)
            requires
                0 <= num <= 0xFFFF_FFFF_FFFF_FFFF,
                GAIN_ONE == 1_000_000,
        ;
    }
    let scaled: u128 = (GAIN_ONE as u128) * (num as u128) / (den as u128);
    scaled as u32
}

/// Bends the linear ramp value `lin` by `ratio`.
pub fn shape(lin: Gain, ratio: u32) -> (shaped: Gain)
    requires
        lin <= GAIN_ONE,
    ensures
        shaped == curve(lin as int, ratio as int),
        shaped <= lin,
{
    let r: u64 = if ratio > GAIN_ONE {
        GAIN_ONE as u64
    } else {
        ratio as u64
    };
    let one: u64 = GAIN_ONE as u64;
    let l: u64 = lin as u64;
    proof {
        lemma_curve_bounds(lin as int, ratio as int);
        assert(0 <= l * l <= 1_000_000 * 1_000_000) by (nonlinear_arith)
            requires
                0 <= l <= 1_000_000,
        ;
    }
    let quad: u64 = l * l / one;
    proof {
        assert(0 <= (one - r) * l <= 1_000_000 * 1_000_000) by (nonlinear_arith)
            requires
                0 <= r <= one,
                one == 1_000_000,
                0 <= l <= 1_000_000,
        ;
        assert(0 <= r * quad <= 1_000_000 * 1_000_000) by (nonlinear_arith)
            requires
                0 <= r <= 1_000_000,
                0 <= quad <= 1_000_000,
        ;
    }
    let mixed: u64 = ((one - r) * l + r * quad) / one;
    mixed as u32
}

impl ADSR {
    /// The configuration is usable: no duration lies below the shortest one
    /// and no ratio below the smallest one, so each is strictly positive.
    pub open spec fn wf(self) -> bool {
        &&& self.attack_time >= MIN_TIME
        &&& self.release_time >= MIN_TIME
        &&& self.attack_ratio >= MIN_RATIO
        &&& self.release_ratio >= MIN_RATIO
    }

    /// Length of the attack in ticks at `rate` samples per second.
    pub open spec fn attack_ticks(self, rate: u32) -> int {
        ticks_in(self.attack_time as int, rate as int)
    }

    /// Length of the release in ticks at `rate` samples per second.
    pub open spec fn release_ticks(self, rate: u32) -> int {
        ticks_in(self.release_time as int, rate as int)
    }

    /// Gain of a held note `elapsed` ticks after its start.
    pub open spec fn attack_gain(self, rate: u32, elapsed: int) -> int {
        ramp_up(self.attack_ticks(rate), self.attack_ratio as int, elapsed)
    }

    /// Gain of a note `elapsed` ticks after its release at gain `from`.
    pub open spec fn release_gain(self, rate: u32, elapsed: int, from: int) -> int {
        ramp_down(self.release_ticks(rate), self.release_ratio as int, elapsed, from)
    }

    /// A configuration from raw values; one that lies below its floor is
    /// raised to the floor rather than refused.
    pub fn new(attack_time: u32, release_time: u32, attack_ratio: u32, release_ratio: u32) -> (adsr:
        ADSR)
        ensures
            adsr.wf(),
            adsr.attack_time == floored_time(attack_time),
            adsr.release_time == floored_time(release_time),
            adsr.attack_ratio == floored_ratio(attack_ratio),
            adsr.release_ratio == floored_ratio(release_ratio),
    {
        ADSR {
            attack_time: floor_time(attack_time),
            release_time: floor_time(release_time),
            attack_ratio: floor_ratio(attack_ratio),
            release_ratio: floor_ratio(release_ratio),
        }
    }

    /// Gain of a held note `elapsed` ticks after its start: a shaped ramp
    /// from zero that reaches unity when the attack is over and stays there.
    pub fn gain_ratio(&self, rate: u32, elapsed: u64) -> (gain: Gain)
        ensures
            gain == self.attack_gain(rate, elapsed as int),
            gain <= GAIN_ONE,
    {
        let attack: u64 = ticks(self.attack_time, rate);
        if elapsed >= attack {
            GAIN_ONE
        } else if elapsed == 0 {
            0
        } else {
            let lin: Gain = linear(elapsed, attack);
            shape(lin, self.attack_ratio)
        }
    }

    /// Gain of a note `elapsed` ticks after it was released at gain `from`: a
    /// shaped ramp that starts at `from` and is zero once the release is over.
    pub fn release_gain_ratio(&self, rate: u32, elapsed: u64, from: Gain) -> (gain: Gain)
        ensures
            gain == self.release_gain(rate, elapsed as int, from as int),
            gain <= from,
    {
        let release: u64 = ticks(self.release_time, rate);
        if elapsed >= release {
            0
        } else if elapsed == 0 {
            from
        } else {
            let lin: Gain = linear(release - elapsed, release);
            let shaped: Gain = shape(lin, self.release_ratio);
            proof {
                lemma_scale_bounds(from as int, shaped as int);
            }
            let scaled: u64 = (from as u64) * (shaped as u64) / (GAIN_ONE as u64);
            scaled as u32
        }
    }
}

impl Default for ADSR {
    /// An attack of 50 ms and a release of 90 ms, the attack bent by three
    /// quarters and the release almost linear.
    fn default() -> (adsr: ADSR)
        ensures
            adsr.wf(),
            adsr.attack_time == 50_000,
            adsr.release_time == 90_000,
            adsr.attack_ratio == 750_000,
            adsr.release_ratio == 100,
    {
        ADSR {
            attack_time: 50_000,
            release_time: 90_000,
            attack_ratio: 750_000,
            release_ratio: 100,
        }
    }
}

/// Scaling a gain by a ramp value gives a gain no larger than the first, and
/// the same gain where the ramp value is unity.
pub proof fn lemma_scale_bounds(from: int, shaped: int)
    requires
        0 <= from,
        0 <= shaped <= GAIN_ONE,
    ensures
        0 <= from * shaped <= from * GAIN_ONE,
        0 <= from * shaped / (GAIN_ONE as int) <= from,
        shaped == GAIN_ONE ==> from * shaped / (GAIN_ONE as int) == from,
{
    let one = GAIN_ONE as int;
    assert(0 <= from * shaped <= from * one) by (nonlinear_arith)
        requires
            0 <= from,
            0 <= shaped <= one,
    ;
    assert(from * one / one == from) by (nonlinear_arith)
        requires
            one == 1_000_000,
    ;
}

/// A scaled gain never falls as the ramp value grows.
pub proof fn lemma_scale_monotone(from: int, a: int, b: int)
    requires
        0 <= from,
        0 <= a <= b,
    ensures
        from * a / (GAIN_ONE as int) <= from * b / (GAIN_ONE as int),
{
    assert(from * a <= from * b) by (nonlinear_arith)
        requires
            0 <= from,
            a <= b,
    ;
}

/// The attack ramp starts at zero, never falls, never exceeds unity, and is
/// unity from the end of the attack on.
pub proof fn lemma_ramp_up(attack: int, ratio: int, a: int, b: int)
    requires
        1 <= attack,
        0 <= ratio,
        a <= b,
    ensures
        0 <= ramp_up(attack, ratio, a) <= ramp_up(attack, ratio, b) <= GAIN_ONE,
        ramp_up(attack, ratio, 0) == 0,
        ramp_up(attack, ratio, attack) == GAIN_ONE,
{
    if 0 < a && a < attack {
        lemma_progress_bounds(a, attack);
        lemma_curve_bounds(progress(a, attack), ratio);
    }
    if 0 < b && b < attack {
        lemma_progress_bounds(b, attack);
        lemma_curve_bounds(progress(b, attack), ratio);
    }
    if 0 < a && b < attack {
        lemma_progress_monotone(a, b, attack);
        lemma_curve_monotone(progress(a, attack), progress(b, attack), ratio);
    }
}

/// The release ramp starts at the gain it was given, never rises, never
/// turns negative, and is zero from the end of the release on.
pub proof fn lemma_ramp_down(release: int, ratio: int, a: int, b: int, from: int)
    requires
        1 <= release,
        0 <= ratio,
        0 <= from,
        a <= b,
    ensures
        0 <= ramp_down(release, ratio, b, from) <= ramp_down(release, ratio, a, from) <= from,
        ramp_down(release, ratio, 0, from) == from,
        ramp_down(release, ratio, release, from) == 0,
{
    if 0 < a && a < release {
        lemma_progress_bounds(release - a, release);
        lemma_curve_bounds(progress(release - a, release), ratio);
        lemma_scale_bounds(from, curve(progress(release - a, release), ratio));
    }
    if 0 < b && b < release {
        lemma_progress_bounds(release - b, release);
        lemma_curve_bounds(progress(release - b, release), ratio);
        lemma_scale_bounds(from, curve(progress(release - b, release), ratio));
    }
    if 0 < a && b < release {
        lemma_progress_monotone(release - b, release - a, release);
        lemma_curve_monotone(
            progress(release - b, release),
            progress(release - a, release),
            ratio,
        );
        lemma_scale_monotone(
            from,
            curve(progress(release - b, release), ratio),
            curve(progress(release - a, release), ratio),
        );
    }
}

/// The most that a ramp over `ticks` ticks moves from one tick to the next:
/// about twice the step of a linear ramp, which the steepest curve reaches
/// at its end.
pub open spec fn max_step(ticks: int) -> int {
    2 * ((GAIN_ONE as int) / ticks) + 2
}

/// From one tick to the next a linear ramp value grows by one tick's share
/// of unity, rounded up, at most.
pub proof fn lemma_progress_step(num: int, den: int)
    requires
        0 <= num < den,
    ensures
        progress(num + 1, den) - progress(num, den) <= (GAIN_ONE as int) / den + 1,
{
    let one = GAIN_ONE as int;
    let x = one * num;
    lemma_fundamental_div_mod(x, den);
    lemma_fundamental_div_mod(one, den);
    lemma_mod_bound(x, den);
    lemma_mod_bound(one, den);
    let m = x / den + one / den + 2;
    assert(one * (num + 1) == x + one) by (nonlinear_arith)
        requires
            x == one * num,
    ;
    assert(x + one < m * den) by (nonlinear_arith)
        requires
            x == den * (x / den) + (x % den),
            one == den * (one / den) + (one % den),
            x % den < den,
            one % den < den,
            m == x / den + one / den + 2,
    ;
    lemma_div_by_multiple_is_strongly_ordered(x + one, m * den, m, den);
    lemma_div_multiples_vanish(m, den);
    assert(m * den == den * m) by (nonlinear_arith);
}

/// A shaped ramp value grows at most twice as fast as the linear one.
pub proof fn lemma_curve_step(a: int, b: int, ratio: int)
    requires
        0 <= a <= b <= GAIN_ONE,
        0 <= ratio,
    ensures
        curve(b, ratio) - curve(a, ratio) <= 2 * (b - a),
{
    let one = GAIN_ONE as int;
    let r = shaping(ratio);
    let d = b - a;
    let qa = a * a / one;
    let qb = b * b / one;
    assert(b * b <= a * a + one * (2 * d)) by (nonlinear_arith)
        requires
            0 <= a <= b <= one,
            d == b - a,
    ;
    assert(qb <= qa + 2 * d);
    let na = (one - r) * a + r * qa;
    let nb = (one - r) * b + r * qb;
    assert(nb <= na + one * (2 * d)) by (nonlinear_arith)
        requires
            0 <= r <= one,
            d == b - a,
            0 <= d,
            qb <= qa + 2 * d,
            na == (one - r) * a + r * qa,
            nb == (one - r) * b + r * qb,
    ;
    assert(nb / one <= na / one + 2 * d);
}

/// The attack ramp has no step: from one tick to the next it rises by
/// `max_step` at most.
pub proof fn lemma_ramp_up_is_smooth(attack: int, ratio: int, elapsed: int)
    requires
        1 <= attack,
        0 <= ratio,
    ensures
        0 <= ramp_up(attack, ratio, elapsed + 1) - ramp_up(attack, ratio, elapsed) <= max_step(
            attack,
        ),
{
    let one = GAIN_ONE as int;
    lemma_ramp_up(attack, ratio, elapsed, elapsed + 1);
    assert(0 <= one / attack) by (nonlinear_arith)
        requires
            one == 1_000_000,
            1 <= attack,
    ;
    if 0 <= elapsed < attack {
        let a = progress(elapsed, attack);
        let b = progress(elapsed + 1, attack);
        lemma_progress_bounds(elapsed, attack);
        lemma_progress_bounds(elapsed + 1, attack);
        lemma_progress_monotone(elapsed, elapsed + 1, attack);
        lemma_progress_step(elapsed, attack);
        lemma_curve_bounds(a, ratio);
        lemma_curve_bounds(b, ratio);
        lemma_curve_step(a, b, ratio);
        assert(ramp_up(attack, ratio, elapsed) == curve(a, ratio));
        assert(ramp_up(attack, ratio, elapsed + 1) == curve(b, ratio));
    }
}

/// The release ramp has no step: from one tick to the next it falls by
/// `max_step` at most.
pub proof fn lemma_ramp_down_is_smooth(release: int, ratio: int, elapsed: int, from: int)
    requires
        1 <= release,
        0 <= ratio,
        0 <= from <= GAIN_ONE,
    ensures
        0 <= ramp_down(release, ratio, elapsed, from) - ramp_down(
            release,
            ratio,
            elapsed + 1,
            from,
        ) <= max_step(release),
{
    let one = GAIN_ONE as int;
    lemma_ramp_down(release, ratio, elapsed, elapsed + 1, from);
    assert(0 <= one / release) by (nonlinear_arith)
        requires
            one == 1_000_000,
            1 <= release,
    ;
    if 0 <= elapsed < release {
        let left = release - elapsed - 1;
        let a = progress(left, release);
        let b = progress(left + 1, release);
        lemma_progress_bounds(left, release);
        lemma_progress_bounds(left + 1, release);
        lemma_progress_monotone(left, left + 1, release);
        lemma_progress_step(left, release);
        lemma_curve_bounds(a, ratio);
        lemma_curve_bounds(b, ratio);
        lemma_curve_step(a, b, ratio);
        let ca = curve(a, ratio);
        let cb = curve(b, ratio);
        let d = b - a;
        lemma_scale_bounds(from, cb);
        assert(ramp_down(release, ratio, elapsed, from) == from * cb / one);
        assert(ramp_down(release, ratio, elapsed + 1, from) == from * ca / one);
        assert(from * cb <= from * ca + one * (2 * d)) by (nonlinear_arith)
            requires
                0 <= from <= one,
                cb <= ca + 2 * d,
                0 <= d,
        ;
        assert(from * cb / one <= from * ca / one + 2 * d);
    }
}

/// Where a voice stands in its envelope.
#[derive(Clone, Copy, Debug, PartialEq, Eq, Structural)]
pub enum State {
    /// The note is held: the gain rises over the attack and then stays at
    /// unity.
    Held,
    /// The note was released at tick `at`, when its gain was `gain`.
    Released { at: Playhead, gain: Gain },
}

/// The envelope of one voice: the tick at which its note started, and its
/// release once the note has ended.
#[derive(Clone, Copy, Debug, PartialEq, Eq, Structural)]
pub struct Envelope {
    pub start: Playhead,
    pub state: State,
}

impl Envelope {
    /// The release, if any, does not precede the start, and was taken at a
    /// gain no larger than unity.
    pub open spec fn wf(self) -> bool {
        match self.state {
            State::Held => true,
            State::Released { at, gain } => self.start <= at && gain <= GAIN_ONE,
        }
    }

    /// Gain of the voice at tick `now` under the configuration `adsr`.
    pub open spec fn gain_at(self, adsr: ADSR, rate: u32, now: int) -> int {
        match self.state {
            State::Held => adsr.attack_gain(rate, now - self.start),
            State::Released { at, gain } => adsr.release_gain(rate, now - at, gain as int),
        }
    }

    /// The envelope after a release at tick `now`. A held note takes its
    /// current gain as the start of its release; a released one stays as it
    /// is.
    pub open spec fn released(self, adsr: ADSR, rate: u32, now: Playhead) -> Envelope {
        match self.state {
            State::Held => Envelope {
                start: self.start,
                state: State::Released {
                    at: now,
                    gain: adsr.attack_gain(rate, now - self.start) as Gain,
                },
            },
            State::Released { .. } => self,
        }
    }

    /// The envelope of a note that starts at tick `start`.
    pub fn new(start: Playhead) -> (envelope: Envelope)
        ensures
            envelope == (Envelope { start, state: State::Held }),
            envelope.wf(),
    {
        Envelope { start, state: State::Held }
    }

    /// Gain of the voice at tick `now`. A tick before the anchor counts as
    /// the anchor itself.
    pub fn gain(&self, adsr: &ADSR, rate: u32, now: Playhead) -> (gain: Gain)
        ensures
            gain == self.gain_at(*adsr, rate, now as int),
    {
        match self.state {
            State::Held => {
                let elapsed: u64 = if now >= self.start {
                    now - self.start
                } else {
                    0
                };
                adsr.gain_ratio(rate, elapsed)
            },
            State::Released { at, gain } => {
                let elapsed: u64 = if now >= at {
                    now - at
                } else {
                    0
                };
                adsr.release_gain_ratio(rate, elapsed, gain)
            },
        }
    }

    /// Releases the note at tick `now`, keeping the gain it has there as the
    /// start of its decay. Releasing twice changes nothing.
    pub fn release(&mut self, adsr: &ADSR, rate: u32, now: Playhead)
        ensures
            *final(self) == old(self).released(*adsr, rate, now),
    {
        match self.state {
            State::Held => {
                let gain: Gain = self.gain(adsr, rate, now);
                self.state = State::Released { at: now, gain };
            },
            State::Released { .. } => {},
        }
    }
}

/// While a note is held its gain starts at zero, never falls, and is unity
/// once a whole attack has gone by.
pub proof fn lemma_attack_rises(adsr: ADSR, rate: u32, a: int, b: int)
    requires
        a <= b,
    ensures
        0 <= adsr.attack_gain(rate, a) <= adsr.attack_gain(rate, b) <= GAIN_ONE,
        adsr.attack_gain(rate, 0) == 0,
        b >= adsr.attack_ticks(rate) ==> adsr.attack_gain(rate, b) == GAIN_ONE,
{
    lemma_ramp_up(adsr.attack_ticks(rate), adsr.attack_ratio as int, a, b);
}

/// After a release the gain starts at the gain of the release, never rises,
/// never turns negative, and is zero once a whole release has gone by.
pub proof fn lemma_release_falls(adsr: ADSR, rate: u32, a: int, b: int, from: int)
    requires
        0 <= from,
        a <= b,
    ensures
        0 <= adsr.release_gain(rate, b, from) <= adsr.release_gain(rate, a, from) <= from,
        adsr.release_gain(rate, 0, from) == from,
        b >= adsr.release_ticks(rate) ==> adsr.release_gain(rate, b, from) == 0,
{
    lemma_ramp_down(adsr.release_ticks(rate), adsr.release_ratio as int, a, b, from);
}

/// Neither the attack nor the release has a step: from one tick to the next
/// the gain moves by `max_step` of the ramp's length at most, so nothing
/// clicks.
pub proof fn lemma_gain_is_smooth(adsr: ADSR, rate: u32, elapsed: int, from: int)
    requires
        0 <= from <= GAIN_ONE,
    ensures
        0 <= adsr.attack_gain(rate, elapsed + 1) - adsr.attack_gain(rate, elapsed) <= max_step(
            adsr.attack_ticks(rate),
        ),
        0 <= adsr.release_gain(rate, elapsed, from) - adsr.release_gain(rate, elapsed + 1, from)
            <= max_step(adsr.release_ticks(rate)),
{
    lemma_ramp_up_is_smooth(adsr.attack_ticks(rate), adsr.attack_ratio as int, elapsed);
    lemma_ramp_down_is_smooth(adsr.release_ticks(rate), adsr.release_ratio as int, elapsed, from);
}

/// A release is continuous: at the tick of the release, the released
/// envelope has the gain that the held one had, so no step is heard.
pub proof fn lemma_release_is_continuous(envelope: Envelope, adsr: ADSR, rate: u32, now: Playhead)
    requires
        envelope.state == State::Held,
    ensures
        envelope.start <= now ==> envelope.released(adsr, rate, now).wf(),
        envelope.released(adsr, rate, now).gain_at(adsr, rate, now as int) == envelope.gain_at(
            adsr,
            rate,
            now as int,
        ),
{
    let elapsed = now - envelope.start;
    lemma_attack_rises(adsr, rate, elapsed, elapsed);
    lemma_release_falls(adsr, rate, 0, 0, adsr.attack_gain(rate, elapsed));
}

/// The gain of an envelope lies between zero and unity at every tick.
pub proof fn lemma_gain_in_range(envelope: Envelope, adsr: ADSR, rate: u32, now: int)
    requires
        envelope.wf(),
    ensures
        0 <= envelope.gain_at(adsr, rate, now) <= GAIN_ONE,
{
    match envelope.state {
        State::Held => {
            lemma_attack_rises(adsr, rate, now - envelope.start, now - envelope.start);
        },
        State::Released { at, gain } => {
            lemma_release_falls(adsr, rate, now - at, now - at, gain as int);
        },
    }
}

} // verus!
