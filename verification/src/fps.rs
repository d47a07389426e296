//! A frame-rate meter over the last few frames.
//!
//! The meter keeps the time points of the last `size` frames in a ring. A
//! time point is a count of nanoseconds on any clock that does not run
//! backwards. Each frame interval is taken in whole microseconds, and the
//! rate is `size - 1` frames over the sum of the intervals between the
//! oldest and the newest time point. The rate is worked out in single
//! precision: the time per frame first, then a million divided by it, each
//! step rounded to 24 significant bits, and what comes out is cut down to a
//! whole number.

use crate::single::{
    held_in_full, lemma_rounded_exponent, round, rounded, truncate, truncated,
};
use vstd::arithmetic::power2::{lemma2_to64, lemma2_to64_rest, lemma_pow2_adds, pow2};
use vstd::prelude::*;

verus! {

/// A ring of the last `size` time points, in nanoseconds.
pub struct Fps {
    size: usize,
    steps: usize,
    current: usize,
    time_points: Vec<u64>,
}

/// The whole microseconds from `earlier` to `later`, and none where `later`
/// is not the later one.
pub open spec fn elapsed(later: u64, earlier: u64) -> nat {
    if later >= earlier {
        ((later - earlier) / 1000) as nat
    } else {
        0
    }
}

/// The microseconds that the first `steps` frame intervals of the ring took,
/// starting at the slot `current`, which holds the oldest time point.
pub open spec fn ring_micros(time_points: Seq<u64>, current: int, steps: nat) -> nat
    decreases steps,
{
    if steps == 0 || time_points.len() == 0 {
        0
    } else {
        let n = time_points.len() as int;
        let first = (current + steps - 1) % n;
        let second = (current + steps) % n;
        ring_micros(time_points, current, (steps - 1) as nat) + elapsed(
            time_points[second],
            time_points[first],
        )
    }
}

/// Frames per second: `steps` frames in `micros` microseconds. Both counts
/// are rounded to single precision, then the time is divided by the frames,
/// then a million by that quotient, each quotient rounded to single
/// precision; the whole part of the result is the rate. No frames give 0;
/// frames in no time at all give the largest number there is.
pub open spec fn rate(steps: nat, micros: nat) -> nat {
    if steps == 0 {
        0
    } else if micros == 0 {
        usize::MAX as nat
    } else {
        let time = rounded(micros, 1, 0);
        let frames = rounded(steps, 1, 0);
        let frame_time = rounded(time.0, frames.0, time.1 - frames.1);
        let per_second = rounded(1_000_000, frame_time.0, -frame_time.1);
        truncated(per_second.0, per_second.1)
    }
}

/// Whatever a meter can count, single precision holds every step of the rate
/// in full: for frames that fit 64 bits and microseconds below two to the
/// power 120, no step of `rate` overflows, and none has an exponent so small
/// that bits of the significand are lost. So `rate` is what single-precision
/// arithmetic gives.
pub proof fn lemma_rate_in_single_precision(steps: nat, micros: nat)
    requires
        0 < steps <= 0xFFFF_FFFF_FFFF_FFFF,
        0 < micros < 0x100_0000_0000_0000_0000_0000_0000_0000,
    ensures
        ({
            let time = rounded(micros, 1, 0);
            let frames = rounded(steps, 1, 0);
            let frame_time = rounded(time.0, frames.0, time.1 - frames.1);
            let per_second = rounded(1_000_000, frame_time.0, -frame_time.1);
            &&& held_in_full(time)
            &&& held_in_full(frames)
            &&& held_in_full(frame_time)
            &&& held_in_full(per_second)
        }),
{
    lemma2_to64();
    lemma2_to64_rest();
    lemma_pow2_adds(64, 56);
    assert(pow2(120) == 0x100_0000_0000_0000_0000_0000_0000_0000);
    let time = rounded(micros, 1, 0);
    let frames = rounded(steps, 1, 0);
    lemma_rounded_exponent(micros, 1, 0, 0, 120, 0, 1);
    lemma_rounded_exponent(steps, 1, 0, 0, 64, 0, 1);
    let frame_time = rounded(time.0, frames.0, time.1 - frames.1);
    lemma_rounded_exponent(time.0, frames.0, time.1 - frames.1, 23, 24, 23, 24);
    lemma_rounded_exponent(1_000_000, frame_time.0, -frame_time.1, 19, 20, 23, 24);
}

/// Computes the rate of `steps` frames in `micros` microseconds.
pub fn frames_per_second(steps: usize, micros: u128) -> (frames: usize)
    requires
        micros < 0x100_0000_0000_0000_0000_0000_0000_0000,
    ensures
        frames == rate(steps as nat, micros as nat),
{
    if steps == 0 {
        0
    } else if micros == 0 {
        usize::MAX
    } else {
        let time = round(micros, 1, 0);
        let frames = round(steps as u128, 1, 0);
        let frame_time = round(
            time.significand as u128,
            frames.significand,
            time.exponent - frames.exponent,
        );
        let per_second = round(1_000_000, frame_time.significand, -frame_time.exponent);
        truncate(per_second)
    }
}

/// On a clock that does not run backwards the frame intervals add up to the
/// time between the oldest time point and the one `steps` slots after it, but
/// for the part of a microsecond that each interval may lose.
pub proof fn lemma_ring_micros_telescopes(time_points: Seq<u64>, current: int, steps: nat)
    requires
        time_points.len() > 0,
        0 <= current,
        forall|i: int|
            0 <= i < steps ==> time_points[(current + i) % (time_points.len() as int)]
                <= #[trigger] time_points[(current + i + 1) % (time_points.len() as int)],
    ensures
        ({
            let newest = time_points[(current + steps) % (time_points.len() as int)];
            let oldest = time_points[current % (time_points.len() as int)];
            &&& oldest <= newest
            &&& 1000 * ring_micros(time_points, current, steps) <= newest - oldest
            &&& newest - oldest < 1000 * (ring_micros(time_points, current, steps) + steps) || steps
                == 0
        }),
    decreases steps,
{
    if steps > 0 {
        let n = time_points.len() as int;
        lemma_ring_micros_telescopes(time_points, current, (steps - 1) as nat);
        let i = steps - 1;
        assert(time_points[(current + i) % n] <= time_points[(current + i + 1) % n]);
    }
}

impl Fps {
    /// The time points in ring order, slot by slot.
    pub closed spec fn time_points(&self) -> Seq<u64> {
        self.time_points@
    }

    /// The slot that the next time point goes to. It holds the oldest one.
    pub closed spec fn current(&self) -> int {
        self.current as int
    }

    /// The number of slots.
    pub closed spec fn size(&self) -> int {
        self.size as int
    }

    /// The number of frame intervals that the ring spans.
    pub closed spec fn steps(&self) -> int {
        self.steps as int
    }

    /// The ring has `size` slots, at least one, and `current` names one of them.
    pub open spec fn wf(&self) -> bool {
        &&& self.size() >= 1
        &&& self.steps() == self.size() - 1
        &&& self.time_points().len() == self.size()
        &&& 0 <= self.current() < self.size()
    }

    /// A meter over `size` time points, all of them `now`.
    pub fn new(size: usize, now: u64) -> (fps: Self)
        requires
            size >= 1,
        ensures
            fps.wf(),
            fps.size() == size,
            fps.current() == 0,
            fps.time_points() == Seq::new(size as nat, |i: int| now),
    {
        let fps = Self { size, steps: size - 1, current: 0, time_points: vec![now; size] };
        assert(fps.time_points@ =~= Seq::new(size as nat, |i: int| now));
        fps
    }

    /// Puts `now` in place of the oldest time point.
    pub fn add_timepoint(&mut self, now: u64)
        requires
            old(self).wf(),
        ensures
            final(self).wf(),
            final(self).size() == old(self).size(),
            final(self).time_points() == old(self).time_points().update(old(self).current(), now),
            final(self).current() == (old(self).current() + 1) % old(self).size(),
    {
        self.time_points[self.current] = now;
        self.current = (self.current + 1) % self.size;
    }

    /// The frame rate over the ring, in frames per second.
    pub fn value(&self) -> (frames: usize)
        requires
            self.wf(),
        ensures
            frames == rate(
                self.steps() as nat,
                ring_micros(self.time_points(), self.current(), self.steps() as nat),
            ),
    {
        let mut microseconds: u128 = 0;
        let mut i: usize = 0;
        while i < self.steps
            invariant
                self.wf(),
                i <= self.steps,
                microseconds == ring_micros(self.time_points@, self.current as int, i as nat),
                microseconds <= i * 0x80_0000_0000_0000,
            decreases self.steps - i,
        {
            let first = self.slot(i);
            let second = self.slot(i + 1);
            let later = self.time_points[second];
            let earlier = self.time_points[first];
            let duration: u64 = if later >= earlier {
                (later - earlier) / 1000
            } else {
                0
            };
            assert((i + 1) * 0x80_0000_0000_0000 <= 0x1_0000_0000_0000_0000 * 0x80_0000_0000_0000)
                by (nonlinear_arith)
                requires
                    i + 1 <= 0x1_0000_0000_0000_0000,
            ;
            microseconds += duration as u128;
            i += 1;
        }
        assert(i * 0x80_0000_0000_0000 <= 0xFFFF_FFFF_FFFF_FFFF * 0x80_0000_0000_0000)
            by (nonlinear_arith)
            requires
                i <= 0xFFFF_FFFF_FFFF_FFFF,
        ;
        frames_per_second(self.steps, microseconds)
    }

    /// The slot `offset` places after the oldest one, round the ring.
    fn slot(&self, offset: usize) -> (slot: usize)
        requires
            self.wf(),
            offset <= self.size,
        ensures
            slot == (self.current + offset) % (self.size as int),
            slot < self.size,
    {
        if offset >= self.size - self.current {
            let slot = offset - (self.size - self.current);
            assert(slot == (self.current + offset) % (self.size as int)) by {
                vstd::arithmetic::div_mod::lemma_fundamental_div_mod_converse(
                    self.current + offset,
                    self.size as int,
                    1,
                    slot as int,
                );
            }
            slot
        } else {
            let slot = self.current + offset;
            assert(slot == (self.current + offset) % (self.size as int)) by {
                vstd::arithmetic::div_mod::lemma_small_mod(slot as nat, self.size as nat);
            }
            slot
        }
    }
}

} // verus!
