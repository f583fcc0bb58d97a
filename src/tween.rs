//! A single tweening animation: a clock, a looping policy, a direction, and
//! the handles of the easing curve, lens and completion callback that the
//! caller applies.
use vstd::prelude::*;

use crate::clock::{AnimClock, RATIO_ONE};

verus! {

/// Playback state of a tweenable, returned by each tick.
#[derive(Debug, Clone, Copy, PartialEq, Eq, Structural)]
pub enum TweenState {
    /// The tweenable did not reach its end state yet.
    Active,
    /// The tweenable reached its end state and idles at its latest time.
    Completed,
}

/// Looping policy of a tween.
#[derive(Debug, Clone, Copy, PartialEq, Eq, Structural)]
pub enum TweeningType {
    /// Run once, then complete.
    Once,
    /// Loop forever from start to end.
    Loop,
    /// Loop from start to end until completed the given number of times.
    LoopTimes(u32),
    /// Loop forever, reversing the direction at each end.
    PingPong,
    /// Reverse the direction at each end until one-way runs reach the given number.
    PingPongTimes(u32),
}

/// Direction of playback of a tween.
#[derive(Debug, Clone, Copy, PartialEq, Eq, Structural)]
pub enum TweeningDirection {
    /// From the lens' start to its end.
    Forward,
    /// From the lens' end to its start.
    Backward,
}

impl TweeningDirection {
    pub open spec fn flipped(self) -> TweeningDirection {
        match self {
            TweeningDirection::Forward => TweeningDirection::Backward,
            TweeningDirection::Backward => TweeningDirection::Forward,
        }
    }

    /// The opposite direction.
    pub fn flip(self) -> (r: TweeningDirection)
        ensures
            r == self.flipped(),
    {
        match self {
            TweeningDirection::Forward => TweeningDirection::Backward,
            TweeningDirection::Backward => TweeningDirection::Forward,
        }
    }

    pub fn is_forward(&self) -> (r: bool)
        ensures
            r == (*self == TweeningDirection::Forward),
    {
        matches!(self, TweeningDirection::Forward)
    }

    pub fn is_backward(&self) -> (r: bool)
        ensures
            r == (*self == TweeningDirection::Backward),
    {
        matches!(self, TweeningDirection::Backward)
    }
}

/// Event raised each time a tween completes one run, for a tween that was
/// asked to raise events.
#[derive(Debug, Clone, Copy, PartialEq, Eq, Structural)]
pub struct TweenCompleted {
    /// The entity the tween belongs to.
    pub entity: u64,
    /// The value given when event raising was enabled.
    pub user_data: u64,
}

/// What a tick asks the caller to do, in order.
#[derive(Debug, Clone, Copy, PartialEq, Eq, Structural)]
pub enum Effect {
    /// Sample easing curve `ease` at the fixed-point `ratio` and apply lens
    /// `lens` with the result to the target.
    Lerp { ease: usize, lens: usize, ratio: u64 },
    /// Send this completion event.
    Event(TweenCompleted),
    /// Invoke completion callback `callback` for `entity`; the tween has then
    /// completed `times_completed` times.
    Callback { callback: usize, entity: u64, times_completed: u32 },
}

/// `s` repeated `n` times.
pub open spec fn repeat(s: Seq<Effect>, n: nat) -> Seq<Effect>
    decreases n,
{
    if n == 0 {
        Seq::empty()
    } else {
        repeat(s, (n - 1) as nat) + s
    }
}

/// A single tweening animation.
///
/// The easing curve, the lens and the completion callback belong to the
/// caller; the tween holds their handles and names them in the effects that
/// `tick` returns.
#[derive(Debug, Clone, Copy)]
pub struct Tween {
    pub(crate) ease_function: usize,
    pub(crate) clock: AnimClock,
    pub(crate) times_completed: u32,
    pub(crate) tweening_type: TweeningType,
    pub(crate) direction: TweeningDirection,
    pub(crate) lens: usize,
    pub(crate) on_completed: Option<usize>,
    pub(crate) event_data: Option<u64>,
}

impl Tween {
    pub open(crate) spec fn wf(&self) -> bool {
        &&& self.clock.wf()
        &&& self.clock.is_looping == (self.tweening_type != TweeningType::Once)
    }

    pub open(crate) spec fn spec_duration(&self) -> nat {
        self.clock.duration as nat
    }

    pub open(crate) spec fn spec_elapsed(&self) -> nat {
        self.clock.elapsed as nat
    }

    pub open(crate) spec fn spec_progress(&self) -> nat {
        self.clock.spec_progress()
    }

    pub open(crate) spec fn spec_times_completed(&self) -> nat {
        self.times_completed as nat
    }

    pub open(crate) spec fn spec_direction(&self) -> TweeningDirection {
        self.direction
    }

    pub open(crate) spec fn spec_tweening_type(&self) -> TweeningType {
        self.tweening_type
    }

    pub open(crate) spec fn spec_is_looping(&self) -> bool {
        match self.tweening_type {
            TweeningType::Once => false,
            TweeningType::Loop | TweeningType::PingPong => true,
            TweeningType::LoopTimes(n) | TweeningType::PingPongTimes(n) => self.times_completed < n,
        }
    }

    pub open(crate) spec fn is_ping_pong(&self) -> bool {
        self.tweening_type is PingPong || self.tweening_type is PingPongTimes
    }

    /// The lens ratio of the current state: progress, reversed when playing backward.
    pub open(crate) spec fn factor(&self) -> nat {
        if self.direction == TweeningDirection::Backward {
            (RATIO_ONE - self.spec_progress()) as nat
        } else {
            self.spec_progress()
        }
    }

    pub open(crate) spec fn lerp_effect(&self) -> Effect {
        Effect::Lerp { ease: self.ease_function, lens: self.lens, ratio: self.factor() as u64 }
    }

    /// What one completion notifies: the event, if enabled, then the callback, if set.
    pub open(crate) spec fn notifications(&self, entity: u64) -> Seq<Effect> {
        let ev = match self.event_data {
            Some(u) => seq![Effect::Event(TweenCompleted { entity, user_data: u })],
            None => Seq::empty(),
        };
        let cb = match self.on_completed {
            Some(c) => seq![
                Effect::Callback { callback: c, entity, times_completed: self.times_completed },
            ],
            None => Seq::empty(),
        };
        ev + cb
    }

    /// Whether a tick has nothing left to do: the tween stopped looping and its clock is at the end.
    pub open(crate) spec fn is_done(&self) -> bool {
        !self.spec_is_looping() && self.clock.spec_completed()
    }

    /// New tween, resulting state and effects of a tick by `delta` nanoseconds.
    pub open(crate) spec fn tick_outcome(&self, delta: nat, entity: u64) -> (Tween, TweenState, Seq<Effect>) {
        if self.is_done() {
            (*self, TweenState::Completed, Seq::empty())
        } else {
            let (clock, n) = self.clock.ticked(delta);
            let c = crate::clock::min_u32(n);
            let t = Tween {
                clock,
                times_completed: self.times_completed.saturating_add(c as u32),
                direction: if c % 2 == 1 && self.is_ping_pong() {
                    self.direction.flipped()
                } else {
                    self.direction
                },
                ..*self
            };
            let state = if t.spec_is_looping() || t.times_completed == 0 {
                TweenState::Active
            } else {
                TweenState::Completed
            };
            (t, state, seq![t.lerp_effect()] + repeat(t.notifications(entity), c))
        }
    }

    pub open(crate) spec fn spec_original(&self) -> nat {
        self.clock.original as nat
    }

    pub open(crate) spec fn spec_ease_function(&self) -> usize {
        self.ease_function
    }

    pub open(crate) spec fn spec_lens(&self) -> usize {
        self.lens
    }

    pub open(crate) spec fn spec_on_completed(&self) -> Option<usize> {
        self.on_completed
    }

    pub open(crate) spec fn spec_event_data(&self) -> Option<u64> {
        self.event_data
    }

    pub open(crate) spec fn directed(&self, direction: TweeningDirection) -> Tween {
        Tween { direction, ..*self }
    }

    pub open(crate) spec fn with_callback(&self, on_completed: Option<usize>) -> Tween {
        Tween { on_completed, ..*self }
    }

    pub open(crate) spec fn with_event(&self, enabled: bool, user_data: u64) -> Tween {
        Tween { event_data: if enabled { Some(user_data) } else { None }, ..*self }
    }

    pub open(crate) spec fn rewound(&self) -> Tween {
        Tween { clock: AnimClock { elapsed: 0, ..self.clock }, times_completed: 0, ..*self }
    }

    pub open(crate) spec fn at_progress(&self, progress: int) -> Tween {
        Tween { clock: self.clock.with_progress(progress), ..*self }
    }

    pub open(crate) spec fn at_speed(&self, speed: nat) -> Tween {
        Tween { clock: self.clock.with_speed(speed), ..*self }
    }

    /// Create a tween of `duration` nanoseconds, playing forward, that names
    /// easing curve `ease_function` and lens `lens` in its effects.
    pub fn new(ease_function: usize, tweening_type: TweeningType, duration: u64, lens: usize) -> (r: Tween)
        requires
            duration > 0,
        ensures
            r.wf(),
            r.spec_duration() == duration,
            r.spec_elapsed() == 0,
            r.spec_times_completed() == 0,
            r.spec_tweening_type() == tweening_type,
            r.spec_direction() == TweeningDirection::Forward,
            r.spec_original() == duration,
            r.spec_ease_function() == ease_function,
            r.spec_lens() == lens,
            r.spec_on_completed() is None,
            r.spec_event_data() is None,
    {
        Tween {
            ease_function,
            clock: AnimClock::new(duration, !matches!(tweening_type, TweeningType::Once)),
            times_completed: 0,
            tweening_type,
            direction: TweeningDirection::Forward,
            lens,
            on_completed: None,
            event_data: None,
        }
    }

    /// Set the speed (fixed point, `RATIO_ONE` is normal speed) and return the tween.
    pub fn with_speed(self, speed: u64) -> (r: Tween)
        requires
            self.wf(),
        ensures
            r.wf(),
            r == self.at_speed(speed as nat),
    {
        let mut t = self;
        t.set_speed(speed);
        t
    }

    /// Enable or disable raising a completion event carrying `user_data`, and return the tween.
    pub fn with_completed_event(self, enabled: bool, user_data: u64) -> (r: Tween)
        ensures
            r == self.with_event(enabled, user_data),
    {
        let mut t = self;
        t.set_completed_event(enabled, user_data);
        t
    }

    /// Set the playback direction. The progress is not changed.
    pub fn set_direction(&mut self, direction: TweeningDirection)
        ensures
            *final(self) == old(self).directed(direction),
    {
        self.direction = direction;
    }

    /// Set the playback direction and return the tween.
    pub fn with_direction(self, direction: TweeningDirection) -> (r: Tween)
        ensures
            r == self.directed(direction),
    {
        let mut t = self;
        t.direction = direction;
        t
    }

    /// The current playback direction.
    pub fn direction(&self) -> (r: TweeningDirection)
        ensures
            r == self.spec_direction(),
    {
        self.direction
    }

    /// Set the handle of the callback invoked at each completion.
    pub fn set_completed(&mut self, callback: usize)
        ensures
            *final(self) == old(self).with_callback(Some(callback)),
    {
        self.on_completed = Some(callback);
    }

    /// Remove the completion callback.
    pub fn clear_completed(&mut self)
        ensures
            *final(self) == old(self).with_callback(None),
    {
        self.on_completed = None;
    }

    /// Enable or disable raising a completion event carrying `user_data`.
    pub fn set_completed_event(&mut self, enabled: bool, user_data: u64)
        ensures
            *final(self) == old(self).with_event(enabled, user_data),
    {
        self.event_data = if enabled { Some(user_data) } else { None };
    }

    /// The handle of the completion callback, if one is set.
    pub fn completed_callback(&self) -> (r: Option<usize>)
        ensures
            r == self.spec_on_completed(),
    {
        self.on_completed
    }

    /// The user data of completion events, if raising them is enabled.
    pub fn completed_event(&self) -> (r: Option<u64>)
        ensures
            r == self.spec_event_data(),
    {
        self.event_data
    }

    /// Duration of one run, in nanoseconds.
    pub fn duration(&self) -> (r: u64)
        ensures
            r == self.spec_duration(),
    {
        self.clock.duration
    }

    /// Time elapsed in the current run, in nanoseconds.
    pub fn elapsed(&self) -> (r: u64)
        ensures
            r == self.spec_elapsed(),
    {
        self.clock.elapsed
    }

    /// Scale the original duration by `speed` (fixed point; greater is slower),
    /// keeping the progress ratio.
    pub fn set_speed(&mut self, speed: u64)
        requires
            old(self).wf(),
        ensures
            final(self).wf(),
            *final(self) == old(self).at_speed(speed as nat),
    {
        self.clock.set_speed(speed);
    }

    /// Whether the tween still loops.
    pub fn is_looping(&self) -> (r: bool)
        ensures
            r == self.spec_is_looping(),
    {
        match self.tweening_type {
            TweeningType::Once => false,
            TweeningType::Loop | TweeningType::PingPong => true,
            TweeningType::LoopTimes(times) | TweeningType::PingPongTimes(times) => {
                self.times_completed < times
            },
        }
    }

    /// Seek to a fixed-point ratio of the duration: taken modulo one for a
    /// looping tween, clamped to `0 ..= RATIO_ONE` otherwise.
    pub fn set_progress(&mut self, progress: i64)
        requires
            old(self).wf(),
        ensures
            final(self).wf(),
            *final(self) == old(self).at_progress(progress as int),
    {
        self.clock.set_progress(progress);
    }

    /// Fixed-point progress of the current run, in `0 ..= RATIO_ONE`.
    pub fn progress(&self) -> (r: u64)
        requires
            self.wf(),
        ensures
            r == self.spec_progress(),
            r <= RATIO_ONE,
    {
        self.clock.progress()
    }

    /// Advance by `delta` nanoseconds and append to `effects` what the
    /// caller must apply: the lens at the new ratio, then one notification
    /// per completion.
    pub fn tick(&mut self, delta: u64, entity: u64, effects: &mut Vec<Effect>) -> (r: TweenState)
        requires
            old(self).wf(),
        ensures
            final(self).wf(),
            *final(self) == old(self).tick_outcome(delta as nat, entity).0,
            r == old(self).tick_outcome(delta as nat, entity).1,
            final(effects)@ == old(effects)@ + old(self).tick_outcome(delta as nat, entity).2,
    {
        if !self.is_looping() && self.clock.completed() {
            return TweenState::Completed;
        }
        let c = self.clock.tick(delta);
        self.times_completed = self.times_completed.saturating_add(c);
        if c % 2 == 1 && (matches!(self.tweening_type, TweeningType::PingPong) || matches!(
            self.tweening_type,
            TweeningType::PingPongTimes(_)
        )) {
            self.direction = self.direction.flip();
        }
        let state = if self.is_looping() || self.times_completed == 0 {
            TweenState::Active
        } else {
            TweenState::Completed
        };
        let progress = self.clock.progress();
        let factor = if self.direction.is_backward() {
            RATIO_ONE - progress
        } else {
            progress
        };
        effects.push(Effect::Lerp { ease: self.ease_function, lens: self.lens, ratio: factor });
        let ghost base = effects@;
        let mut k: u32 = 0;
        while k < c
            invariant
                k <= c,
                effects@ == base + repeat(self.notifications(entity), k as nat),
            decreases c - k,
        {
            let ghost before = effects@;
            if let Some(user_data) = self.event_data {
                effects.push(Effect::Event(TweenCompleted { entity, user_data }));
            }
            if let Some(callback) = self.on_completed {
                effects.push(
                    Effect::Callback { callback, entity, times_completed: self.times_completed },
                );
            }
            proof {
                assert(effects@ =~= before + self.notifications(entity));
                assert(repeat(self.notifications(entity), (k + 1) as nat) == repeat(
                    self.notifications(entity),
                    k as nat,
                ) + self.notifications(entity));
                assert(effects@ =~= base + repeat(self.notifications(entity), (k + 1) as nat));
            }
            k += 1;
        }
        proof {
            assert(effects@ =~= old(effects)@ + old(self).tick_outcome(delta as nat, entity).2);
        }
        state
    }

    /// Number of runs completed since creation or the last rewind.
    pub fn times_completed(&self) -> (r: u32)
        ensures
            r == self.spec_times_completed(),
    {
        self.times_completed
    }

    /// Back to the start of the current direction, with no completed run.
    pub fn rewind(&mut self)
        requires
            old(self).wf(),
        ensures
            final(self).wf(),
            *final(self) == old(self).rewound(),
    {
        self.clock.reset();
        self.times_completed = 0;
    }
}

} // verus!
