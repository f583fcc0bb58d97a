//! A pause that animates nothing, used to space out other tweenables.
use vstd::prelude::*;

use crate::clock::{AnimClock, RATIO_ONE};
use crate::tween::TweenState;

verus! {

/// A time delay that does not animate anything.
#[derive(Debug, Clone, Copy)]
pub struct Delay {
    pub(crate) timer: AnimClock,
}

impl Delay {
    pub open(crate) spec fn wf(&self) -> bool {
        self.timer.wf() && !self.timer.is_looping
    }

    pub open(crate) spec fn spec_duration(&self) -> nat {
        self.timer.duration as nat
    }

    pub open(crate) spec fn spec_elapsed(&self) -> nat {
        self.timer.elapsed as nat
    }

    pub open(crate) spec fn spec_progress(&self) -> nat {
        self.timer.spec_progress()
    }

    pub open(crate) spec fn spec_finished(&self) -> bool {
        self.timer.spec_completed()
    }

    pub open(crate) spec fn spec_times_completed(&self) -> nat {
        if self.spec_finished() { 1 } else { 0 }
    }

    pub open(crate) spec fn ticked(&self, delta: nat) -> Delay {
        Delay { timer: self.timer.ticked(delta).0 }
    }

    pub open(crate) spec fn state(&self) -> TweenState {
        if self.spec_finished() { TweenState::Completed } else { TweenState::Active }
    }

    pub open(crate) spec fn rewound(&self) -> Delay {
        Delay { timer: AnimClock { elapsed: 0, ..self.timer } }
    }

    pub open(crate) spec fn at_progress(&self, progress: int) -> Delay {
        Delay { timer: self.timer.with_progress(progress) }
    }

    pub open(crate) spec fn at_speed(&self, speed: nat) -> Delay {
        Delay { timer: self.timer.with_speed(speed) }
    }

    /// A delay of `duration` nanoseconds.
    pub fn new(duration: u64) -> (r: Delay)
        requires
            duration > 0,
        ensures
            r.wf(),
            r.spec_duration() == duration,
            r.spec_elapsed() == 0,
    {
        Delay { timer: AnimClock::new(duration, false) }
    }

    /// Length of the delay, in nanoseconds.
    pub fn duration(&self) -> (r: u64)
        ensures
            r == self.spec_duration(),
    {
        self.timer.duration
    }

    /// Time spent waiting so far, in nanoseconds.
    pub fn elapsed(&self) -> (r: u64)
        ensures
            r == self.spec_elapsed(),
    {
        self.timer.elapsed
    }

    /// Scale the original length by `speed` (fixed point), keeping the progress ratio.
    pub fn set_speed(&mut self, speed: u64)
        requires
            old(self).wf(),
        ensures
            final(self).wf(),
            *final(self) == old(self).at_speed(speed as nat),
    {
        self.timer.set_speed(speed);
    }

    /// A delay never loops.
    pub fn is_looping(&self) -> (r: bool)
        ensures
            !r,
    {
        false
    }

    /// Seek to a fixed-point ratio, clamped to `0 ..= RATIO_ONE`.
    pub fn set_progress(&mut self, progress: i64)
        requires
            old(self).wf(),
        ensures
            final(self).wf(),
            *final(self) == old(self).at_progress(progress as int),
    {
        self.timer.set_progress(progress);
    }

    /// Fixed-point ratio of the time waited.
    pub fn progress(&self) -> (r: u64)
        requires
            self.wf(),
        ensures
            r == self.spec_progress(),
            r <= RATIO_ONE,
    {
        self.timer.progress()
    }

    /// Wait `delta` nanoseconds more; completed once the whole length has passed.
    pub fn tick(&mut self, delta: u64) -> (r: TweenState)
        requires
            old(self).wf(),
        ensures
            final(self).wf(),
            *final(self) == old(self).ticked(delta as nat),
            r == final(self).state(),
    {
        self.timer.tick(delta);
        if self.timer.completed() {
            TweenState::Completed
        } else {
            TweenState::Active
        }
    }

    /// One once the delay has passed, else zero.
    pub fn times_completed(&self) -> (r: u32)
        ensures
            r == self.spec_times_completed(),
    {
        if self.timer.completed() {
            1
        } else {
            0
        }
    }

    /// Back to the start of the delay.
    pub fn rewind(&mut self)
        requires
            old(self).wf(),
        ensures
            final(self).wf(),
            *final(self) == old(self).rewound(),
    {
        self.timer.reset();
    }
}

} // verus!
