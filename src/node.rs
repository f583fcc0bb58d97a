//! The abstract state of a tweenable tree and the meaning of each operation
//! on it. Children are mathematical sequences, so that the whole tree after
//! a tick, a seek, a rewind or a speed change can be stated as a value.
use vstd::prelude::*;

use crate::clock::{
    ratio_of, scale, settle_ratio, PROGRESS_TOLERANCE, RATIO_ONE, SEEK_TOLERANCE_NS,
};
use crate::delay::Delay;
use crate::tween::{Effect, Tween, TweenState};

verus! {

pub open spec fn min_nat(a: nat, b: nat) -> nat {
    if a < b { a } else { b }
}

/// Abstract state of a tweenable.
pub enum Node {
    Tween(Tween),
    Delay(Delay),
    /// Children played one after the other; `index` is the active one
    /// (`children.len()` once all completed).
    Sequence { children: Seq<Node>, index: nat, duration: nat, elapsed: nat },
    /// Children played together.
    Tracks { children: Seq<Node>, duration: nat, elapsed: nat, completed: bool },
}

/// The fixed-point ratio that a track of length `duration` is given when the
/// whole group has run for `elapsed` (it may exceed one; capped to fit `i64`).
pub open spec fn track_ratio(elapsed: nat, duration: nat) -> int {
    let r = ratio_of(elapsed, duration);
    if r > i64::MAX { i64::MAX as int } else { r as int }
}

/// Time that a child which completed during a tick took out of that tick:
/// the rest of the run it was in, plus any further full runs.
pub open spec fn spent(before: Node, after: Node) -> nat {
    let extra: nat = if after.times_completed() > before.times_completed() {
        (after.times_completed() - before.times_completed() - 1) as nat
    } else {
        0
    };
    (extra * after.duration() + (after.duration() - before.elapsed())) as nat
}

impl Node {
    pub open spec fn wf(self) -> bool
        decreases self,
    {
        match self {
            Node::Tween(t) => t.wf(),
            Node::Delay(d) => d.wf(),
            Node::Sequence { children, index, duration, elapsed } => {
                &&& 0 < children.len()
                &&& index <= children.len()
                &&& 0 < duration <= u64::MAX
                &&& elapsed <= duration
                &&& forall|k: int| 0 <= k < children.len() ==> (#[trigger] children[k]).wf()
            },
            Node::Tracks { children, duration, elapsed, completed } => {
                &&& 0 < children.len()
                &&& 0 < duration <= u64::MAX
                &&& elapsed <= duration
                &&& forall|k: int| 0 <= k < children.len() ==> (#[trigger] children[k]).wf()
            },
        }
    }

    /// Length of one run, in nanoseconds.
    pub open spec fn duration(self) -> nat {
        match self {
            Node::Tween(t) => t.spec_duration(),
            Node::Delay(d) => d.spec_duration(),
            Node::Sequence { duration, .. } => duration,
            Node::Tracks { duration, .. } => duration,
        }
    }

    /// Time elapsed in the current run, in nanoseconds.
    pub open spec fn elapsed(self) -> nat {
        match self {
            Node::Tween(t) => t.spec_elapsed(),
            Node::Delay(d) => d.spec_elapsed(),
            Node::Sequence { elapsed, .. } => elapsed,
            Node::Tracks { elapsed, .. } => elapsed,
        }
    }

    /// Fixed-point ratio of the current run that has been played.
    pub open spec fn progress(self) -> nat {
        ratio_of(self.elapsed(), self.duration())
    }

    pub open spec fn times_completed(self) -> nat {
        match self {
            Node::Tween(t) => t.spec_times_completed(),
            Node::Delay(d) => d.spec_times_completed(),
            Node::Sequence { children, index, .. } => if index == children.len() { 1 } else { 0 },
            Node::Tracks { completed, .. } => if completed { 1 } else { 0 },
        }
    }

    /// Position of a sequence's active child, at most the last one.
    pub open spec fn current_index(self) -> int {
        match self {
            Node::Sequence { children, index, .. } => if index < children.len() {
                index as int
            } else {
                children.len() - 1
            },
            _ => 0,
        }
    }

    pub open spec fn is_looping(self) -> bool {
        match self {
            Node::Tween(t) => t.spec_is_looping(),
            _ => false,
        }
    }

    /// State, resulting state and effects of a tick by `delta` nanoseconds.
    pub open spec fn ticked(self, delta: nat, entity: u64) -> (Node, TweenState, Seq<Effect>)
        decreases self, 0int,
    {
        match self {
            Node::Tween(t) => {
                let (t2, s, e) = t.tick_outcome(delta, entity);
                (Node::Tween(t2), s, e)
            },
            Node::Delay(d) => (Node::Delay(d.ticked(delta)), d.ticked(delta).state(), Seq::empty()),
            Node::Sequence { children, index, duration, elapsed } => {
                let (cs, j, s, e) = seq_steps(children, index as int, delta, entity);
                (
                    Node::Sequence {
                        children: cs,
                        index: j as nat,
                        duration,
                        elapsed: min_nat(elapsed + delta, duration),
                    },
                    s,
                    e,
                )
            },
            Node::Tracks { children, duration, elapsed, completed } => {
                let (cs, active, e) = tracks_steps(children, 0, delta, entity);
                (
                    Node::Tracks {
                        children: cs,
                        duration,
                        elapsed: min_nat(elapsed + delta, duration),
                        completed: !active,
                    },
                    if active { TweenState::Active } else { TweenState::Completed },
                    e,
                )
            },
        }
    }

    /// Back to the start, with no completed run, children included.
    pub open spec fn rewound(self) -> Node
        decreases self,
    {
        match self {
            Node::Tween(t) => Node::Tween(t.rewound()),
            Node::Delay(d) => Node::Delay(d.rewound()),
            Node::Sequence { children, index, duration, elapsed } => Node::Sequence {
                children: Seq::new(
                    children.len(),
                    |k: int|
                        if 0 <= k < children.len() {
                            children[k].rewound()
                        } else {
                            children[k]
                        },
                ),
                index: 0,
                duration,
                elapsed: 0,
            },
            Node::Tracks { children, duration, elapsed, completed } => Node::Tracks {
                children: Seq::new(
                    children.len(),
                    |k: int|
                        if 0 <= k < children.len() {
                            children[k].rewound()
                        } else {
                            children[k]
                        },
                ),
                duration,
                elapsed: 0,
                completed: false,
            },
        }
    }

    /// Every leaf's duration scaled by `speed`; a group keeps the duration it
    /// was built with.
    pub open spec fn at_speed(self, speed: nat) -> Node
        decreases self,
    {
        match self {
            Node::Tween(t) => Node::Tween(t.at_speed(speed)),
            Node::Delay(d) => Node::Delay(d.at_speed(speed)),
            Node::Sequence { children, index, duration, elapsed } => Node::Sequence {
                children: Seq::new(
                    children.len(),
                    |k: int|
                        if 0 <= k < children.len() {
                            children[k].at_speed(speed)
                        } else {
                            children[k]
                        },
                ),
                index,
                duration,
                elapsed,
            },
            Node::Tracks { children, duration, elapsed, completed } => Node::Tracks {
                children: Seq::new(
                    children.len(),
                    |k: int|
                        if 0 <= k < children.len() {
                            children[k].at_speed(speed)
                        } else {
                            children[k]
                        },
                ),
                duration,
                elapsed,
                completed,
            },
        }
    }

    /// State after seeking to the fixed-point ratio `progress`.
    pub open spec fn at_progress(self, progress: int) -> Node
        decreases self, 0int,
    {
        match self {
            Node::Tween(t) => Node::Tween(t.at_progress(progress)),
            Node::Delay(d) => Node::Delay(d.at_progress(progress)),
            Node::Sequence { children, index, duration, elapsed } => {
                if progress < PROGRESS_TOLERANCE {
                    Node::Sequence {
                        children: Seq::new(
                            children.len(),
                            |k: int|
                                if 0 <= k < children.len() {
                                    children[k].rewound()
                                } else {
                                    children[k]
                                },
                        ),
                        index: 0,
                        duration,
                        elapsed: 0,
                    }
                } else if progress > RATIO_ONE - PROGRESS_TOLERANCE {
                    Node::Sequence { children, index: children.len(), duration, elapsed: duration }
                } else {
                    let t = scale(duration, progress as nat);
                    let (cs, j) = seq_seek(children, 0, t, index as int);
                    Node::Sequence {
                        children: Seq::new(
                            cs.len(),
                            |k: int|
                                if j < k <= index && 0 <= k < cs.len() {
                                    cs[k].rewound()
                                } else {
                                    cs[k]
                                },
                        ),
                        index: j as nat,
                        duration,
                        elapsed: t,
                    }
                }
            },
            Node::Tracks { children, duration, elapsed, completed } => {
                let e = scale(duration, settle_ratio(progress, false));
                Node::Tracks {
                    children: Seq::new(
                        children.len(),
                        |k: int|
                            if 0 <= k < children.len() {
                                children[k].at_progress(track_ratio(e, children[k].duration()))
                            } else {
                                children[k]
                            },
                    ),
                    duration,
                    elapsed: e,
                    completed,
                }
            },
        }
    }
}

/// Ticking the children of a sequence from position `i` on with `delta`
/// nanoseconds: new children, new index, state and effects.
///
/// A child that completes passes the time it did not use on to the next one;
/// the last child's completion completes the sequence.
pub open spec fn seq_steps(ts: Seq<Node>, i: int, delta: nat, entity: u64) -> (
    Seq<Node>,
    int,
    TweenState,
    Seq<Effect>,
)
    decreases ts, ts.len() - i,
{
    if i < 0 || i >= ts.len() {
        (ts, i, TweenState::Completed, Seq::empty())
    } else {
        let (c, s, e) = ts[i].ticked(delta, entity);
        if s != TweenState::Completed {
            (ts.update(i, c), i, s, e)
        } else if i + 1 == ts.len() {
            (ts.update(i, c), i + 1, TweenState::Completed, e)
        } else if spent(ts[i], c) > delta {
            (ts.update(i, c), i + 1, TweenState::Active, e)
        } else {
            let (cs, j, s2, e2) = seq_steps(ts, i + 1, (delta - spent(ts[i], c)) as nat, entity);
            (cs.update(i, c), j, s2, e + e2)
        }
    }
}

/// Ticking the tracks from position `i` on, each with the same `delta`:
/// new children, whether any is still active, and effects.
pub open spec fn tracks_steps(ts: Seq<Node>, i: int, delta: nat, entity: u64) -> (
    Seq<Node>,
    bool,
    Seq<Effect>,
)
    decreases ts, ts.len() - i,
{
    if i < 0 || i >= ts.len() {
        (ts, false, Seq::empty())
    } else {
        let (c, s, e) = ts[i].ticked(delta, entity);
        let (cs, active, e2) = tracks_steps(ts, i + 1, delta, entity);
        (cs.update(i, c), s == TweenState::Active || active, e + e2)
    }
}

/// Seeking the children of a sequence to time `t`, counted from the start of
/// child `k`: new children and the new active index.
///
/// Children that end before `t` are completed (those before `old_index` are
/// already so and left alone), the child that `t` falls in is seeked inside,
/// and a child that ends within `SEEK_TOLERANCE_NS` of `t` counts as
/// completed.
pub open spec fn seq_seek(ts: Seq<Node>, k: int, t: nat, old_index: int) -> (Seq<Node>, int)
    decreases ts, ts.len() - k,
{
    if k < 0 || k >= ts.len() {
        (ts, k)
    } else {
        let d = ts[k].duration();
        if t > d + SEEK_TOLERANCE_NS {
            let (cs, j) = seq_seek(ts, k + 1, (t - d) as nat, old_index);
            (
                if k >= old_index {
                    cs.update(k, ts[k].at_progress(RATIO_ONE as int))
                } else {
                    cs
                },
                j,
            )
        } else if t + SEEK_TOLERANCE_NS < d {
            (ts.update(k, ts[k].at_progress(ratio_of(t, d) as int)), k)
        } else {
            (
                if k >= old_index {
                    ts.update(k, ts[k].at_progress(RATIO_ONE as int))
                } else {
                    ts
                },
                k + 1,
            )
        }
    }
}

} // verus!

verus! {

/// A tick keeps the duration.
pub proof fn lemma_ticked_duration(n: Node, delta: nat, entity: u64)
    ensures
        n.ticked(delta, entity).0.duration() == n.duration(),
{
}

/// Stepping a sequence from `i` leaves the children before `i` as they were.
pub proof fn lemma_seq_steps_shape(ts: Seq<Node>, i: int, delta: nat, entity: u64)
    requires
        0 <= i,
    ensures
        seq_steps(ts, i, delta, entity).0.len() == ts.len(),
        forall|k: int| 0 <= k < i && k < ts.len() ==> #[trigger] seq_steps(ts, i, delta, entity).0[k] == ts[k],
    decreases ts.len() - i,
{
    if i < ts.len() {
        let (c, s, e) = ts[i].ticked(delta, entity);
        if s == TweenState::Completed && i + 1 < ts.len() && spent(ts[i], c) <= delta {
            lemma_seq_steps_shape(ts, i + 1, (delta - spent(ts[i], c)) as nat, entity);
        }
    }
}

/// Ticking tracks from `i` leaves the tracks before `i` as they were.
pub proof fn lemma_tracks_steps_shape(ts: Seq<Node>, i: int, delta: nat, entity: u64)
    requires
        0 <= i,
    ensures
        tracks_steps(ts, i, delta, entity).0.len() == ts.len(),
        forall|k: int| 0 <= k < i && k < ts.len() ==> #[trigger] tracks_steps(ts, i, delta, entity).0[k] == ts[k],
    decreases ts.len() - i,
{
    if i < ts.len() {
        lemma_tracks_steps_shape(ts, i + 1, delta, entity);
    }
}

/// Seeking from child `k` leaves the children before `k` as they were, and
/// ends at an index no lower than `k`.
pub proof fn lemma_seq_seek_shape(ts: Seq<Node>, k: int, t: nat, old_index: int)
    requires
        0 <= k,
    ensures
        seq_seek(ts, k, t, old_index).0.len() == ts.len(),
        forall|m: int| 0 <= m < k && m < ts.len() ==> #[trigger] seq_seek(ts, k, t, old_index).0[m] == ts[m],
        k <= ts.len() ==> k <= seq_seek(ts, k, t, old_index).1 <= ts.len(),
    decreases ts.len() - k,
{
    if k < ts.len() {
        let d = ts[k].duration();
        if t > d + SEEK_TOLERANCE_NS {
            lemma_seq_seek_shape(ts, k + 1, (t - d) as nat, old_index);
        }
    }
}

/// A well-formed tweenable lasts at least a nanosecond and has not run past its end.
pub proof fn lemma_wf_duration(n: Node)
    requires
        n.wf(),
    ensures
        0 < n.duration() <= u64::MAX,
        n.elapsed() <= n.duration(),
{
}

} // verus!

verus! {

/// Total duration of a list of tweenables played one after the other.
pub open spec fn sum_durations(ns: Seq<Node>) -> nat
    decreases ns.len(),
{
    if ns.len() == 0 {
        0
    } else {
        sum_durations(ns.drop_last()) + ns.last().duration()
    }
}

/// Longest duration in a list of tweenables.
pub open spec fn max_durations(ns: Seq<Node>) -> nat
    decreases ns.len(),
{
    if ns.len() == 0 {
        0
    } else {
        let m = max_durations(ns.drop_last());
        if ns.last().duration() > m { ns.last().duration() } else { m }
    }
}

/// Whether every tweenable of the list is well formed.
pub open spec fn all_wf(ns: Seq<Node>) -> bool {
    forall|k: int| 0 <= k < ns.len() ==> (#[trigger] ns[k]).wf()
}

} // verus!
