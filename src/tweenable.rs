//! Tweenables: a tween, a delay, or a group of tweenables played in sequence
//! or in parallel, nested to any depth.
use vstd::prelude::*;

use crate::clock::RATIO_ONE;
use crate::delay::Delay;
use crate::node::{min_nat, Node};
use crate::sequence::Sequence;
use crate::tracks::Tracks;
use crate::tween::{Effect, Tween, TweenState};

verus! {

/// Any animation: a leaf tween, a delay, or a group of tweenables.
#[derive(Debug)]
pub enum Tweenable {
    Tween(Tween),
    Delay(Delay),
    Sequence(Sequence),
    Tracks(Tracks),
}

/// The abstract states of a list of tweenables.
pub open(crate) spec fn views(ts: Seq<Tweenable>) -> Seq<Node>
    decreases ts,
{
    Seq::new(ts.len(), |k: int| if 0 <= k < ts.len() { ts[k].view() } else { Node::Delay(arbitrary()) })
}

/// The abstract states of a list, position by position.
pub(crate) proof fn lemma_views(ts: Seq<Tweenable>)
    ensures
        views(ts).len() == ts.len(),
        forall|k: int| 0 <= k < ts.len() ==> #[trigger] views(ts)[k] == ts[k]@,
{
}

impl Tweenable {
    pub open(crate) spec fn view(&self) -> Node
        decreases self,
    {
        match self {
            Tweenable::Tween(t) => Node::Tween(*t),
            Tweenable::Delay(d) => Node::Delay(*d),
            Tweenable::Sequence(s) => Node::Sequence {
                children: views(s.tweens@),
                index: s.index as nat,
                duration: s.duration as nat,
                elapsed: s.elapsed as nat,
            },
            Tweenable::Tracks(t) => Node::Tracks {
                children: views(t.tracks@),
                duration: t.duration as nat,
                elapsed: t.elapsed as nat,
                completed: t.completed,
            },
        }
    }
}

impl Tweenable {
    /// Length of one run, in nanoseconds.
    pub fn duration(&self) -> (r: u64)
        requires
            self@.wf(),
        ensures
            r == self@.duration(),
    {
        match self {
            Tweenable::Tween(t) => t.duration(),
            Tweenable::Delay(d) => d.duration(),
            Tweenable::Sequence(s) => s.duration,
            Tweenable::Tracks(t) => t.duration,
        }
    }

    /// Time elapsed in the current run, in nanoseconds.
    pub fn elapsed(&self) -> (r: u64)
        requires
            self@.wf(),
        ensures
            r == self@.elapsed(),
    {
        match self {
            Tweenable::Tween(t) => t.elapsed(),
            Tweenable::Delay(d) => d.elapsed(),
            Tweenable::Sequence(s) => s.elapsed,
            Tweenable::Tracks(t) => t.elapsed,
        }
    }

    /// Whether the animation loops; only a tween can.
    pub fn is_looping(&self) -> (r: bool)
        ensures
            r == self@.is_looping(),
    {
        match self {
            Tweenable::Tween(t) => t.is_looping(),
            _ => false,
        }
    }

    /// Fixed-point progress of the current run, in `0 ..= RATIO_ONE`.
    pub fn progress(&self) -> (r: u64)
        requires
            self@.wf(),
        ensures
            r == self@.progress(),
            r <= RATIO_ONE,
    {
        match self {
            Tweenable::Tween(t) => t.progress(),
            Tweenable::Delay(d) => d.progress(),
            Tweenable::Sequence(s) => s.progress(),
            Tweenable::Tracks(t) => t.progress(),
        }
    }

    /// Number of runs completed since creation or the last rewind.
    pub fn times_completed(&self) -> (r: u32)
        requires
            self@.wf(),
        ensures
            r == self@.times_completed(),
    {
        match self {
            Tweenable::Tween(t) => t.times_completed(),
            Tweenable::Delay(d) => d.times_completed(),
            Tweenable::Sequence(s) => s.times_completed(),
            Tweenable::Tracks(t) => t.times_completed(),
        }
    }

    /// Advance by `delta` nanoseconds and append to `effects`, in order,
    /// what the caller must apply to the target and notify.
    pub fn tick(&mut self, delta: u64, entity: u64, effects: &mut Vec<Effect>) -> (r: TweenState)
        requires
            old(self)@.wf(),
        ensures
            final(self)@.wf(),
            final(self)@ == old(self)@.ticked(delta as nat, entity).0,
            r == old(self)@.ticked(delta as nat, entity).1,
            final(effects)@ == old(effects)@ + old(self)@.ticked(delta as nat, entity).2,
        decreases *old(self),
    {
        match self {
            Tweenable::Tween(t) => t.tick(delta, entity, effects),
            Tweenable::Delay(d) => {
                let r = d.tick(delta);
                proof {
                    assert(effects@ =~= old(effects)@ + Seq::<Effect>::empty());
                }
                r
            },
            Tweenable::Sequence(s) => {
                proof {
                    let ghost n0 = *old(self);
                    assert(decreases_to!(n0 => n0->Sequence_0));
                }
                s.tick(delta, entity, effects)
            },
            Tweenable::Tracks(t) => {
                proof {
                    let ghost n0 = *old(self);
                    assert(decreases_to!(n0 => n0->Tracks_0));
                }
                t.tick(delta, entity, effects)
            },
        }
    }

    /// Scale every leaf's original duration by `speed` (fixed point;
    /// greater is slower), each keeping its progress ratio.
    pub fn set_speed(&mut self, speed: u64)
        requires
            old(self)@.wf(),
        ensures
            final(self)@.wf(),
            final(self)@ == old(self)@.at_speed(speed as nat),
        decreases *old(self),
    {
        match self {
            Tweenable::Tween(t) => t.set_speed(speed),
            Tweenable::Delay(d) => d.set_speed(speed),
            Tweenable::Sequence(s) => {
                proof {
                    let ghost n0 = *old(self);
                    assert(decreases_to!(n0 => n0->Sequence_0));
                }
                s.set_speed(speed)
            },
            Tweenable::Tracks(t) => {
                proof {
                    let ghost n0 = *old(self);
                    assert(decreases_to!(n0 => n0->Tracks_0));
                }
                t.set_speed(speed)
            },
        }
    }

    /// Seek to the fixed-point ratio `progress` of the duration. The target
    /// is not touched: a tick by zero applies the new state.
    pub fn set_progress(&mut self, progress: i64)
        requires
            old(self)@.wf(),
        ensures
            final(self)@.wf(),
            final(self)@ == old(self)@.at_progress(progress as int),
        decreases *old(self),
    {
        match self {
            Tweenable::Tween(t) => t.set_progress(progress),
            Tweenable::Delay(d) => d.set_progress(progress),
            Tweenable::Sequence(s) => {
                proof {
                    let ghost n0 = *old(self);
                    assert(decreases_to!(n0 => n0->Sequence_0));
                }
                s.set_progress(progress)
            },
            Tweenable::Tracks(t) => {
                proof {
                    let ghost n0 = *old(self);
                    assert(decreases_to!(n0 => n0->Tracks_0));
                }
                t.set_progress(progress)
            },
        }
    }

    /// Back to the start, with no completed run, children included.
    pub fn rewind(&mut self)
        requires
            old(self)@.wf(),
        ensures
            final(self)@.wf(),
            final(self)@ == old(self)@.rewound(),
        decreases *old(self),
    {
        match self {
            Tweenable::Tween(t) => t.rewind(),
            Tweenable::Delay(d) => d.rewind(),
            Tweenable::Sequence(s) => {
                proof {
                    let ghost n0 = *old(self);
                    assert(decreases_to!(n0 => n0->Sequence_0));
                }
                s.rewind()
            },
            Tweenable::Tracks(t) => {
                proof {
                    let ghost n0 = *old(self);
                    assert(decreases_to!(n0 => n0->Tracks_0));
                }
                t.rewind()
            },
        }
    }
}

/// Fixed-point ratio `elapsed / duration` of a group.
pub(crate) fn group_progress(elapsed: u64, duration: u64) -> (r: u64)
    requires
        0 < duration,
        elapsed <= duration,
    ensures
        r == crate::clock::ratio_of(elapsed as nat, duration as nat),
        r <= RATIO_ONE,
{
    let e: u128 = elapsed as u128;
    let d: u128 = duration as u128;
    proof {
        crate::clock::lemma_ratio_le_one(e as int, d as int);
    }
    (e * (RATIO_ONE as u128) / d) as u64
}

/// `min(a + b, cap)` without overflow.
pub(crate) fn add_capped(a: u64, b: u64, cap: u64) -> (r: u64)
    requires
        a <= cap,
    ensures
        r == min_nat((a + b) as nat, cap as nat),
{
    if b >= cap - a {
        cap
    } else {
        a + b
    }
}

impl Tween {
    /// Chain another tweenable after this tween, making a sequence of the two.
    pub fn chain(self, tween: Tweenable) -> (r: Sequence)
        requires
            self.wf(),
            tween@.wf(),
            self.spec_duration() + tween@.duration() <= u64::MAX,
        ensures
            r@.wf(),
            r@ == (Node::Sequence {
                children: seq![Node::Tween(self), tween@],
                index: 0,
                duration: self.spec_duration() + tween@.duration(),
                elapsed: 0,
            }),
    {
        let first = Tweenable::Tween(self);
        let r = Sequence::with_capacity(2).chain(first).chain(tween);
        proof {
            assert(r@->Sequence_children =~= seq![Node::Tween(self), tween@]);
        }
        r
    }
}

impl Delay {
    /// Chain another tweenable after this delay, making a sequence of the two.
    pub fn chain(self, tween: Tweenable) -> (r: Sequence)
        requires
            self.wf(),
            tween@.wf(),
            self.spec_duration() + tween@.duration() <= u64::MAX,
        ensures
            r@.wf(),
            r@ == (Node::Sequence {
                children: seq![Node::Delay(self), tween@],
                index: 0,
                duration: self.spec_duration() + tween@.duration(),
                elapsed: 0,
            }),
    {
        let first = Tweenable::Delay(self);
        let r = Sequence::with_capacity(2).chain(first).chain(tween);
        proof {
            assert(r@->Sequence_children =~= seq![Node::Delay(self), tween@]);
        }
        r
    }
}

/// Conversion of each kind of tweenable into the general one.
pub trait IntoBoxDynTweenable: Sized {
    /// The abstract state of the value.
    spec fn node(&self) -> Node;

    fn into_box_dyn(this: Self) -> (r: Tweenable)
        ensures
            r@ == this.node(),
    ;
}

impl IntoBoxDynTweenable for Tween {
    open spec fn node(&self) -> Node {
        Node::Tween(*self)
    }

    fn into_box_dyn(this: Self) -> (r: Tweenable) {
        Tweenable::Tween(this)
    }
}

impl IntoBoxDynTweenable for Delay {
    open spec fn node(&self) -> Node {
        Node::Delay(*self)
    }

    fn into_box_dyn(this: Self) -> (r: Tweenable) {
        Tweenable::Delay(this)
    }
}

impl IntoBoxDynTweenable for Sequence {
    open spec fn node(&self) -> Node {
        self.view()
    }

    fn into_box_dyn(this: Self) -> (r: Tweenable) {
        Tweenable::Sequence(this)
    }
}

impl IntoBoxDynTweenable for Tracks {
    open spec fn node(&self) -> Node {
        self.view()
    }

    fn into_box_dyn(this: Self) -> (r: Tweenable) {
        Tweenable::Tracks(this)
    }
}

impl IntoBoxDynTweenable for Tweenable {
    open spec fn node(&self) -> Node {
        self.view()
    }

    fn into_box_dyn(this: Self) -> (r: Tweenable) {
        this
    }
}

} // verus!
