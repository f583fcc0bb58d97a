//! The playback clock of a single animation unit.
//!
//! Time is counted in whole nanoseconds, so the clock's arithmetic is exact:
//! a completion is counted precisely when the elapsed time reaches a multiple
//! of the duration. Ratios (progress, speed) are fixed-point numbers where
//! `RATIO_ONE` stands for `1.0`.
use vstd::prelude::*;

verus! {

/// The fixed-point value that stands for the ratio `1.0`.
pub const RATIO_ONE: u64 = 1_000_000_000;

/// `RATIO_ONE` as a signed value.
pub const RATIO_ONE_I64: i64 = 1_000_000_000;

/// How close, as a fixed-point ratio, a seek must come to either end of a
/// sequence to land on that end (one hundred-thousandth).
pub const PROGRESS_TOLERANCE: i64 = 10_000;

/// How close, in nanoseconds, a seek must come to the end of a child of a
/// sequence to count as that end (ten microseconds).
pub const SEEK_TOLERANCE_NS: u64 = 10_000;

/// Fraction `elapsed / duration` as a fixed-point ratio (rounded down).
pub open spec fn ratio_of(elapsed: nat, duration: nat) -> nat
    recommends
        duration > 0,
{
    (elapsed * RATIO_ONE as nat / duration) as nat
}

/// `duration * ratio`, with `ratio` a fixed-point value (rounded down).
pub open spec fn scale(duration: nat, ratio: nat) -> nat {
    (duration * ratio / RATIO_ONE as nat) as nat
}

/// A duration scaled by a fixed-point speed, kept within `1 ..= u64::MAX` nanoseconds.
pub open spec fn scaled_duration(original: nat, speed: nat) -> nat {
    let d = scale(original, speed);
    if d == 0 {
        1
    } else if d > u64::MAX {
        u64::MAX as nat
    } else {
        d
    }
}

/// The ratio that a clock settles on when asked for `progress`: the
/// fractional part (taken modulo one) for a looping clock, the value
/// clamped to `0 ..= 1` otherwise.
pub open spec fn settle_ratio(progress: int, is_looping: bool) -> nat {
    if is_looping {
        (progress % (RATIO_ONE as int)) as nat
    } else if progress < 0 {
        0
    } else if progress > RATIO_ONE {
        RATIO_ONE as nat
    } else {
        progress as nat
    }
}

/// Elapsed and total time of one playback unit.
#[derive(Debug, Clone, Copy)]
pub(crate) struct AnimClock {
    pub(crate) elapsed: u64,
    pub(crate) duration: u64,
    pub(crate) original: u64,
    pub(crate) is_looping: bool,
}

impl AnimClock {
    pub(crate) open spec fn wf(&self) -> bool {
        &&& 0 < self.duration
        &&& self.elapsed <= self.duration
        &&& self.is_looping ==> self.elapsed < self.duration
    }

    pub(crate) open spec fn spec_progress(&self) -> nat {
        ratio_of(self.elapsed as nat, self.duration as nat)
    }

    pub(crate) open spec fn spec_completed(&self) -> bool {
        self.elapsed >= self.duration
    }

    /// Elapsed time after adding `delta`, and the number of completions counted.
    pub(crate) open spec fn ticked(&self, delta: nat) -> (AnimClock, nat) {
        let e = self.elapsed + delta;
        let d = self.duration as int;
        if e < d {
            (AnimClock { elapsed: e as u64, ..*self }, 0)
        } else if self.is_looping {
            (
                AnimClock { elapsed: (e % d) as u64, ..*self },
                (e / d) as nat,
            )
        } else {
            (AnimClock { elapsed: self.duration, ..*self }, 1)
        }
    }

    pub(crate) open spec fn with_progress(&self, progress: int) -> AnimClock {
        AnimClock {
            elapsed: scale(self.duration as nat, settle_ratio(progress, self.is_looping)) as u64,
            ..*self
        }
    }

    pub(crate) open spec fn with_speed(&self, speed: nat) -> AnimClock {
        let c = AnimClock { duration: scaled_duration(self.original as nat, speed) as u64, ..*self };
        c.with_progress(self.spec_progress() as int)
    }

    pub(crate) fn new(duration: u64, is_looping: bool) -> (r: AnimClock)
        requires
            duration > 0,
        ensures
            r.wf(),
            r == (AnimClock { elapsed: 0, duration, original: duration, is_looping }),
    {
        AnimClock { elapsed: 0, duration, original: duration, is_looping }
    }

    /// Advance by `delta`; returns how many times the end was reached
    /// (saturating at `u32::MAX`).
    pub(crate) fn tick(&mut self, delta: u64) -> (r: u32)
        requires
            old(self).wf(),
        ensures
            final(self).wf(),
            *final(self) == old(self).ticked(delta as nat).0,
            r as nat == min_u32(old(self).ticked(delta as nat).1),
    {
        let e: u128 = self.elapsed as u128 + delta as u128;
        let d: u128 = self.duration as u128;
        if e < d {
            self.elapsed = e as u64;
            0
        } else if self.is_looping {
            let n: u128 = e / d;
            proof {
                assert(e % d < d) by (nonlinear_arith)
                    requires d > 0;
            }
            self.elapsed = (e % d) as u64;
            if n > u32::MAX as u128 {
                u32::MAX
            } else {
                n as u32
            }
        } else {
            self.elapsed = self.duration;
            1
        }
    }

    /// Seek to a fixed-point ratio of the duration.
    pub(crate) fn set_progress(&mut self, progress: i64)
        requires
            old(self).wf(),
        ensures
            final(self).wf(),
            *final(self) == old(self).with_progress(progress as int),
    {
        let q: u64 = settle(progress, self.is_looping);
        let d: u128 = self.duration as u128;
        proof {
            lemma_mul_fits(d as int, q as int);
        }
        let e: u128 = d * (q as u128) / (RATIO_ONE as u128);
        proof {
            lemma_scale_le(d as int, q as int);
            if self.is_looping {
                lemma_scale_lt(d as int, q as int);
            }
        }
        self.elapsed = e as u64;
    }

    /// Fixed-point ratio `elapsed / duration`, between `0` and `RATIO_ONE`.
    pub(crate) fn progress(&self) -> (r: u64)
        requires
            self.wf(),
        ensures
            r == self.spec_progress(),
            r <= RATIO_ONE,
    {
        let e: u128 = self.elapsed as u128;
        let d: u128 = self.duration as u128;
        proof {
            lemma_ratio_le_one(e as int, d as int);
        }
        (e * (RATIO_ONE as u128) / d) as u64
    }

    pub(crate) fn completed(&self) -> (r: bool)
        ensures
            r == self.spec_completed(),
    {
        self.elapsed >= self.duration
    }

    pub(crate) fn reset(&mut self)
        requires
            old(self).wf(),
        ensures
            final(self).wf(),
            *final(self) == (AnimClock { elapsed: 0, ..*old(self) }),
    {
        self.elapsed = 0;
    }

    /// Scale the original duration by `speed` and keep the current progress ratio.
    pub(crate) fn set_speed(&mut self, speed: u64)
        requires
            old(self).wf(),
        ensures
            final(self).wf(),
            *final(self) == old(self).with_speed(speed as nat),
    {
        let p = self.progress();
        proof {
            lemma_mul_fits(self.original as int, speed as int);
        }
        let d: u128 = self.original as u128 * speed as u128 / (RATIO_ONE as u128);
        self.duration = if d == 0 {
            1
        } else if d > u64::MAX as u128 {
            u64::MAX
        } else {
            d as u64
        };
        self.elapsed = 0;
        self.set_progress(p as i64);
    }
}

/// The product of two `u64` values fits in a `u128`.
pub proof fn lemma_mul_fits(a: int, b: int)
    requires
        0 <= a <= u64::MAX,
        0 <= b <= u64::MAX,
    ensures
        0 <= a * b <= u128::MAX,
{
    assert(0 <= a * b <= u64::MAX * u64::MAX) by (nonlinear_arith)
        requires 0 <= a <= u64::MAX, 0 <= b <= u64::MAX;
}

pub(crate) proof fn lemma_scale_le(d: int, q: int)
    requires
        0 <= d,
        0 <= q <= RATIO_ONE,
    ensures
        d * q <= d * RATIO_ONE,
        d * q / (RATIO_ONE as int) <= d,
        0 <= d * q / (RATIO_ONE as int),
{
    assert(d * q <= d * RATIO_ONE) by (nonlinear_arith)
        requires 0 <= d, q <= RATIO_ONE;
    vstd::arithmetic::div_mod::lemma_div_is_ordered(d * q, d * RATIO_ONE, RATIO_ONE as int);
    vstd::arithmetic::div_mod::lemma_div_by_multiple(d, RATIO_ONE as int);
    assert(0 <= d * q) by (nonlinear_arith)
        requires 0 <= d, 0 <= q;
    vstd::arithmetic::div_mod::lemma_div_pos_is_pos(d * q, RATIO_ONE as int);
}

/// Less than the whole ratio scales a positive duration to less than itself.
pub(crate) proof fn lemma_scale_lt(d: int, q: int)
    requires
        0 < d,
        0 <= q < RATIO_ONE,
    ensures
        d * q / (RATIO_ONE as int) < d,
{
    assert(d * q < d * RATIO_ONE) by (nonlinear_arith)
        requires 0 < d, q < RATIO_ONE;
    vstd::arithmetic::div_mod::lemma_div_by_multiple(d, RATIO_ONE as int);
    vstd::arithmetic::div_mod::lemma_div_by_multiple_is_strongly_ordered(
        d * q,
        d * RATIO_ONE,
        d,
        RATIO_ONE as int,
    );
}

pub(crate) proof fn lemma_ratio_le_one(e: int, d: int)
    requires
        0 <= e <= d,
        0 < d,
    ensures
        e * RATIO_ONE / d <= RATIO_ONE,
        0 <= e * RATIO_ONE / d,
{
    assert(e * RATIO_ONE <= d * RATIO_ONE) by (nonlinear_arith)
        requires e <= d;
    vstd::arithmetic::div_mod::lemma_div_is_ordered(e * RATIO_ONE, RATIO_ONE * d, d);
    vstd::arithmetic::div_mod::lemma_div_by_multiple(RATIO_ONE as int, d);
    vstd::arithmetic::div_mod::lemma_div_pos_is_pos(e * RATIO_ONE, d);
}

/// `n` saturated to the range of `u32`.
pub open spec fn min_u32(n: nat) -> nat {
    if n > u32::MAX { u32::MAX as nat } else { n }
}

/// The fixed-point ratio that a clock settles on for `progress`.
fn settle(progress: i64, is_looping: bool) -> (r: u64)
    ensures
        r == settle_ratio(progress as int, is_looping),
        r <= RATIO_ONE,
{
    if is_looping {
        if progress >= 0 {
            (progress as u64) % RATIO_ONE
        } else {
            let a: u64 = (-(progress + 1)) as u64;
            let m: u64 = a % RATIO_ONE;
            proof {
                let p = progress as int;
                let n = RATIO_ONE as int;
                assert(p == -(a as int) - 1);
                assert(((-(a as int) - 1) % n) == n - 1 - (a as int) % n) by {
                    vstd::arithmetic::div_mod::lemma_fundamental_div_mod(a as int, n);
                    let qq = (a as int) / n;
                    let rr = (a as int) % n;
                    assert(-(a as int) - 1 == (-qq - 1) * n + (n - 1 - rr)) by (nonlinear_arith)
                        requires a as int == qq * n + rr;
                    vstd::arithmetic::div_mod::lemma_fundamental_div_mod_converse(
                        -(a as int) - 1, n, -qq - 1, n - 1 - rr);
                }
            }
            RATIO_ONE - 1 - m
        }
    } else if progress < 0 {
        0
    } else if progress > RATIO_ONE_I64 {
        RATIO_ONE
    } else {
        progress as u64
    }
}

} // verus!
