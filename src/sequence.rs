//! Tweenables played one after the other.
use vstd::prelude::*;

use crate::clock::{PROGRESS_TOLERANCE, RATIO_ONE, RATIO_ONE_I64, SEEK_TOLERANCE_NS};
use crate::node::{
    all_wf, lemma_seq_seek_shape, lemma_seq_steps_shape, lemma_ticked_duration, min_nat, seq_seek,
    seq_steps, spent, sum_durations, Node,
};
use crate::tween::{Effect, TweenState};
use crate::tweenable::{add_capped, group_progress, lemma_views, views, Tweenable};

verus! {

/// Tweenables played back in order, one after the other.
#[derive(Debug)]
pub struct Sequence {
    pub(crate) tweens: Vec<Tweenable>,
    pub(crate) index: usize,
    pub(crate) duration: u64,
    pub(crate) elapsed: u64,
}

/// The total of the first `n` durations grows by the `n`-th.
proof fn lemma_sum_durations_prefix(vs: Seq<Node>, n: int)
    requires
        0 < n <= vs.len(),
        all_wf(vs),
    ensures
        sum_durations(vs.take(n)) == sum_durations(vs.take(n - 1)) + vs[n - 1].duration(),
        sum_durations(vs.take(n)) <= sum_durations(vs),
    decreases vs.len() - n,
{
    assert(vs.take(n).drop_last() =~= vs.take(n - 1));
    if n < vs.len() {
        lemma_sum_durations_prefix(vs, n + 1);
    } else {
        assert(vs.take(n) =~= vs);
    }
}

/// A non-empty list of well-formed tweenables lasts at least a nanosecond.
proof fn lemma_sum_durations_positive(vs: Seq<Node>)
    requires
        vs.len() > 0,
        all_wf(vs),
    ensures
        sum_durations(vs) > 0,
{
    crate::node::lemma_wf_duration(vs.last());
}

impl Sequence {
    /// A sequence with no child yet, to be filled with `chain`.
    pub open(crate) spec fn is_fresh(&self) -> bool {
        &&& self.index == 0
        &&& self.elapsed == 0
        &&& self.duration == sum_durations(views(self.tweens@))
        &&& all_wf(views(self.tweens@))
    }

    /// A sequence playing `items` in order. Panics on an empty list in
    /// other implementations; here an empty list is not accepted.
    pub fn new(items: Vec<Tweenable>) -> (r: Sequence)
        requires
            items.len() > 0,
            all_wf(views(items@)),
            sum_durations(views(items@)) <= u64::MAX,
        ensures
            r@.wf(),
            r@ == (Node::Sequence {
                children: views(items@),
                index: 0,
                duration: sum_durations(views(items@)),
                elapsed: 0,
            }),
    {
        let mut total: u64 = 0;
        let mut i: usize = 0;
        proof {
            lemma_views(items@);
        }
        while i < items.len()
            invariant
                i <= items.len(),
                all_wf(views(items@)),
                sum_durations(views(items@)) <= u64::MAX,
                total == sum_durations(views(items@).take(i as int)),
            decreases items.len() - i,
        {
            proof {
                lemma_views(items@);
                let vs = views(items@);
                assert(vs.take(i + 1).drop_last() =~= vs.take(i as int));
                lemma_sum_durations_prefix(vs, i + 1);
                assert(vs[i as int].wf());
            }
            total = total + items[i].duration();
            i += 1;
        }
        proof {
            assert(views(items@).take(items.len() as int) =~= views(items@));
            lemma_sum_durations_positive(views(items@));
        }
        Sequence { tweens: items, index: 0, duration: total, elapsed: 0 }
    }

    /// A sequence of one tweenable.
    pub fn from_single(tween: Tweenable) -> (r: Sequence)
        requires
            tween@.wf(),
        ensures
            r@.wf(),
            r@ == (Node::Sequence {
                children: seq![tween@],
                index: 0,
                duration: tween@.duration(),
                elapsed: 0,
            }),
    {
        let duration = tween.duration();
        let tweens = vec![tween];
        proof {
            lemma_views(tweens@);
            assert(views(tweens@) =~= seq![tween@]);
            crate::node::lemma_wf_duration(tween@);
        }
        Sequence { tweens, index: 0, duration, elapsed: 0 }
    }

    /// An empty sequence with room for `capacity` children, to be filled with `chain`.
    pub fn with_capacity(capacity: usize) -> (r: Sequence)
        ensures
            r.is_fresh(),
            r@ == (Node::Sequence { children: Seq::empty(), index: 0, duration: 0, elapsed: 0 }),
    {
        let r = Sequence { tweens: Vec::with_capacity(capacity), index: 0, duration: 0, elapsed: 0 };
        proof {
            assert(views(r.tweens@) =~= Seq::<Node>::empty());
        }
        r
    }

    /// Append a tweenable to a sequence that has not started yet.
    pub fn chain(self, tween: Tweenable) -> (r: Sequence)
        requires
            self.is_fresh(),
            tween@.wf(),
            self@.duration() + tween@.duration() <= u64::MAX,
        ensures
            r.is_fresh(),
            r@.wf(),
            r@ == (Node::Sequence {
                children: self@->Sequence_children.push(tween@),
                index: 0,
                duration: self@.duration() + tween@.duration(),
                elapsed: 0,
            }),
    {
        let d = tween.duration();
        let mut tweens = self.tweens;
        let ghost before = tweens@;
        tweens.push(tween);
        proof {
            lemma_views(before);
            lemma_views(tweens@);
            assert(views(tweens@) =~= views(before).push(tween@));
            assert(views(tweens@).drop_last() =~= views(before));
            crate::node::lemma_wf_duration(tween@);
        }
        Sequence { tweens, index: 0, duration: self.duration + d, elapsed: 0 }
    }

    /// Position of the active child, at most the last one.
    pub fn index(&self) -> (r: usize)
        requires
            self@.wf(),
        ensures
            r == self@.current_index(),
    {
        if self.index < self.tweens.len() {
            self.index
        } else {
            self.tweens.len() - 1
        }
    }

    /// The active child, or the last one once all completed.
    pub fn current(&self) -> (r: &Tweenable)
        requires
            self@.wf(),
        ensures
            r@ == self@->Sequence_children[self@.current_index()],
    {
        proof {
            lemma_views(self.tweens@);
        }
        &self.tweens[self.index()]
    }

    /// Total duration, in nanoseconds.
    pub fn duration(&self) -> (r: u64)
        ensures
            r == self@.duration(),
    {
        self.duration
    }

    /// A sequence does not loop.
    pub fn is_looping(&self) -> (r: bool)
        ensures
            !r,
    {
        false
    }

    /// Scale every leaf's original duration by `speed`. The group keeps the
    /// duration it was built with.
    pub fn set_speed(&mut self, speed: u64)
        requires
            old(self)@.wf(),
        ensures
            final(self)@.wf(),
            final(self)@ == old(self)@.at_speed(speed as nat),
        decreases *old(self),
    {
        let n = self.tweens.len();
        let mut i: usize = 0;
        proof {
            lemma_views(old(self).tweens@);
        }
        while i < n
            invariant
                self.tweens.len() == n,
                n == old(self).tweens.len(),
                i <= n,
                self.elapsed == old(self).elapsed,
                self.duration == old(self).duration,
                self.index == old(self).index,
                old(self)@.wf(),
                views(old(self).tweens@).len() == n,
                forall|k: int| 0 <= k < n ==> #[trigger] views(old(self).tweens@)[k] == old(self).tweens@[k]@,
                forall|k: int| 0 <= k < i ==> (#[trigger] self.tweens@[k])@ == old(self).tweens@[k]@.at_speed(speed as nat),
                forall|k: int| 0 <= k < i ==> (#[trigger] self.tweens@[k])@.wf(),
                forall|k: int| i <= k < n ==> #[trigger] self.tweens@[k] == old(self).tweens@[k],
            decreases n - i,
        {
            proof {
                let ghost s0 = *old(self);
                assert(decreases_to!(s0.tweens => s0.tweens[i as int]));
                assert(old(self)@->Sequence_children[i as int] == self.tweens@[i as int]@);
            }
            self.tweens[i].set_speed(speed);
            i += 1;
        }
        proof {
            assert(views(self.tweens@) =~= old(self)@.at_speed(speed as nat)->Sequence_children);
        }
    }

    /// Seek to the fixed-point ratio `progress` of the whole sequence: within
    /// `PROGRESS_TOLERANCE` of zero or below it rewinds, within it of one or
    /// above it completes; otherwise the
    /// children before that point are completed, the one it falls in is
    /// seeked inside, and those between the new and the former active child
    /// are rewound.
    pub fn set_progress(&mut self, progress: i64)
        requires
            old(self)@.wf(),
        ensures
            final(self)@.wf(),
            final(self)@ == old(self)@.at_progress(progress as int),
        decreases *old(self),
    {
        if progress < PROGRESS_TOLERANCE {
            self.rewind();
            proof {
                assert(views(self.tweens@) =~= old(self)@.at_progress(progress as int)->Sequence_children);
            }
            return;
        }
        if progress > RATIO_ONE_I64 - PROGRESS_TOLERANCE {
            self.elapsed = self.duration;
            self.index = self.tweens.len();
            proof {
                assert(views(self.tweens@) =~= views(old(self).tweens@));
            }
            return;
        }
        proof {
            crate::clock::lemma_mul_fits(self.duration as int, progress as int);
            crate::clock::lemma_scale_le(self.duration as int, progress as int);
        }
        let t: u64 = (self.duration as u128 * progress as u128 / (RATIO_ONE as u128)) as u64;
        self.elapsed = t;
        let old_index = self.index;
        let len = self.tweens.len();
        let ghost cs0 = views(old(self).tweens@);
        let ghost target = seq_seek(cs0, 0, t as nat, old_index as int);
        proof {
            lemma_views(old(self).tweens@);
            lemma_seq_seek_shape(cs0, 0, t as nat, old_index as int);
            assert forall|m: int| 0 <= m < len implies (#[trigger] self.tweens@[m])@.wf() by {
                assert(cs0[m] == old(self).tweens@[m]@);
            }
            assert(target.0 =~= Seq::new(
                len as nat,
                |m: int| if m < 0 { self.tweens@[m]@ } else { target.0[m] },
            ));
        }
        let mut rem: u64 = t;
        let mut k: usize = 0;
        let mut j: usize = 0;
        let mut found = false;
        while k < len && !found
            invariant
                self.tweens.len() == len,
                len == old(self).tweens.len(),
                cs0 == views(old(self).tweens@),
                target == seq_seek(cs0, 0, t as nat, old_index as int),
                old_index == old(self).index,
                self.index == old_index,
                self.duration == old(self).duration,
                self.elapsed == t,
                old(self)@.wf(),
                k <= len,
                cs0.len() == len,
                forall|m: int| 0 <= m < len ==> #[trigger] cs0[m] == old(self).tweens@[m]@,
                forall|m: int| 0 <= m < len ==> (#[trigger] self.tweens@[m])@.wf(),
                !found ==> forall|m: int| k <= m < len ==> #[trigger] self.tweens@[m] == old(self).tweens@[m],
                !found ==> ({
                    let rc = seq_seek(cs0, k as int, rem as nat, old_index as int);
                    &&& target.1 == rc.1
                    &&& rc.0.len() == len
                    &&& target.0 =~= Seq::new(
                        len as nat,
                        |m: int| if m < k { self.tweens@[m]@ } else { rc.0[m] },
                    )
                }),
                found ==> target.1 == j && j <= len && target.0 =~= views(self.tweens@),
            decreases len - k, if found { 0int } else { 1int },
        {
            let ghost rc = seq_seek(cs0, k as int, rem as nat, old_index as int);
            proof {
                let ghost s0 = *old(self);
                assert(decreases_to!(s0.tweens => s0.tweens[k as int]));
            }
            let d = self.tweens[k].duration();
            if rem > SEEK_TOLERANCE_NS && rem - SEEK_TOLERANCE_NS > d {
                if k >= old_index {
                    self.tweens[k].set_progress(RATIO_ONE_I64);
                }
                rem = rem - d;
                proof {
                    lemma_seq_seek_shape(cs0, k + 1, rem as nat, old_index as int);
                }
                k += 1;
            } else if d > SEEK_TOLERANCE_NS && rem < d - SEEK_TOLERANCE_NS {
                proof {
                    crate::clock::lemma_ratio_le_one(rem as int, d as int);
                }
                let r: u64 = (rem as u128 * (RATIO_ONE as u128) / (d as u128)) as u64;
                self.tweens[k].set_progress(r as i64);
                j = k;
                found = true;
                proof {
                    assert(target.0 =~= views(self.tweens@));
                }
            } else {
                if k >= old_index {
                    self.tweens[k].set_progress(RATIO_ONE_I64);
                }
                j = k + 1;
                found = true;
                proof {
                    assert(target.0 =~= views(self.tweens@));
                }
            }
        }
        if !found {
            j = len;
            proof {
                assert(target.0 =~= views(self.tweens@));
            }
        }
        let ghost cs = views(self.tweens@);
        proof {
            lemma_views(self.tweens@);
        }
        if j < old_index {
            let end = if old_index < len - 1 { old_index + 1 } else { len };
            let mut m: usize = j + 1;
            while m < end
                invariant
                    self.tweens.len() == len,
                    j < m <= end,
                    end <= len,
                    end == if old_index < len - 1 { old_index + 1 } else { len as int },
                    cs.len() == len,
                    cs == target.0,
                    target.1 == j,
                    target == seq_seek(cs0, 0, t as nat, old_index as int),
                    cs0 == views(old(self).tweens@),
                    old_index == old(self).index,
                    j < old_index,
                    self.index == old_index,
                    self.duration == old(self).duration,
                    self.elapsed == t,
                    forall|q: int| 0 <= q < len ==> (#[trigger] self.tweens@[q])@.wf(),
                    forall|q: int| 0 <= q < len && q < m && j < q ==> (#[trigger] self.tweens@[q])@ == cs[q].rewound(),
                    forall|q: int| 0 <= q < len && !(q < m && j < q) ==> (#[trigger] self.tweens@[q])@ == cs[q],
                decreases end - m,
            {
                self.tweens[m].rewind();
                m += 1;
            }
        }
        self.index = j;
        proof {
            let tt = crate::clock::scale(old(self).duration as nat, progress as nat);
            assert(tt == t);
            lemma_views(self.tweens@);
            let goal = old(self)@.at_progress(progress as int)->Sequence_children;
            assert(goal == Seq::new(
                target.0.len(),
                |q: int|
                    if target.1 < q <= old_index && 0 <= q < target.0.len() {
                        target.0[q].rewound()
                    } else {
                        target.0[q]
                    },
            ));
            assert forall|q: int| 0 <= q < len implies #[trigger] views(self.tweens@)[q] == goal[q] by {
                if j < old_index {
                    if j < q <= old_index {
                        assert(self.tweens@[q]@ == cs[q].rewound());
                    } else {
                        assert(self.tweens@[q]@ == cs[q]);
                    }
                } else {
                    assert(self.tweens@[q]@ == cs[q]);
                }
            }
            assert(views(self.tweens@) =~= goal);
        }
    }

    pub open(crate) spec fn view(&self) -> Node {
        Node::Sequence {
            children: views(self.tweens@),
            index: self.index as nat,
            duration: self.duration as nat,
            elapsed: self.elapsed as nat,
        }
    }

    /// Tick the active child with `delta`; each child that completes hands
    /// the time it did not use on to the next one.
    pub fn tick(&mut self, delta: u64, entity: u64, effects: &mut Vec<Effect>) -> (r: TweenState)
        requires
            old(self)@.wf(),
        ensures
            final(self)@.wf(),
            final(self)@ == old(self)@.ticked(delta as nat, entity).0,
            r == old(self)@.ticked(delta as nat, entity).1,
            final(effects)@ == old(effects)@ + old(self)@.ticked(delta as nat, entity).2,
        decreases *old(self),
    {
        let ghost cs0 = views(old(self).tweens@);
        let ghost i0 = old(self).index as int;
        let ghost d0 = delta as nat;
        let ghost target = seq_steps(cs0, i0, d0, entity);
        let ghost eff0 = old(effects)@;
        proof {
            lemma_views(old(self).tweens@);
            lemma_seq_steps_shape(cs0, i0, d0, entity);
            assert(target.0 =~= Seq::new(
                cs0.len(),
                |k: int| if k < i0 { self.tweens@[k]@ } else { target.0[k] },
            ));
        }
        proof {
            assert forall|k: int| 0 <= k < old(self).tweens@.len() implies (#[trigger] old(self).tweens@[k])@.wf() by {
                assert(cs0[k] == old(self).tweens@[k]@);
            }
        }
        self.elapsed = add_capped(self.elapsed, delta, self.duration);
        let len = self.tweens.len();
        let mut remaining = delta;
        while self.index < len
            invariant
                self.tweens.len() == len,
                len == old(self).tweens.len(),
                cs0 == views(old(self).tweens@),
                eff0 == old(effects)@,
                i0 == old(self).index,
                d0 == delta as nat,
                i0 <= self.index <= len,
                self.duration == old(self).duration,
                self.elapsed == min_nat((old(self).elapsed + d0) as nat, old(self).duration as nat),
                old(self)@.wf(),
                target == seq_steps(cs0, i0, d0, entity),
                forall|k: int| 0 <= k < len ==> (#[trigger] self.tweens@[k])@.wf(),
                forall|k: int| self.index <= k < len ==> #[trigger] self.tweens@[k] == old(self).tweens@[k],
                ({
                    let rc = seq_steps(cs0, self.index as int, remaining as nat, entity);
                    &&& target.1 == rc.1
                    &&& target.2 == rc.2
                    &&& eff0 + target.3 == effects@ + rc.3
                    &&& rc.0.len() == len
                    &&& target.0 =~= Seq::new(
                        len as nat,
                        |k: int| if k < self.index { self.tweens@[k]@ } else { rc.0[k] },
                    )
                }),
            decreases len - self.index,
        {
            let i = self.index;
            let ghost before = self.tweens@[i as int]@;
            let ghost eff1 = effects@;
            let ghost rc = seq_steps(cs0, i as int, remaining as nat, entity);
            proof {
                let ghost s0 = *old(self);
                assert(decreases_to!(s0.tweens => s0.tweens[i as int]));
                assert(before == cs0[i as int]);
                lemma_ticked_duration(before, remaining as nat, entity);
            }
            let prev_elapsed = self.tweens[i].elapsed();
            let prev_times = self.tweens[i].times_completed();
            let state = self.tweens[i].tick(remaining, entity, effects);
            let ghost c = self.tweens@[i as int]@;
            if !matches!(state, TweenState::Completed) {
                proof {
                    assert(effects@ =~= eff1 + before.ticked(remaining as nat, entity).2);
                    assert(target.0 =~= views(self.tweens@));
                }
                return state;
            }
            self.index = i + 1;
            if self.index == len {
                proof {
                    assert(effects@ =~= eff1 + before.ticked(remaining as nat, entity).2);
                    assert(target.0 =~= views(self.tweens@));
                }
                return TweenState::Completed;
            }
            let dur = self.tweens[i].duration();
            let times = self.tweens[i].times_completed();
            let extra: u128 = if times > prev_times {
                let runs: u128 = (times - prev_times - 1) as u128;
                proof {
                    assert(runs * (dur as u128) <= (u32::MAX as int) * (u64::MAX as int)) by (nonlinear_arith)
                        requires runs <= u32::MAX, dur <= u64::MAX;
                }
                runs * dur as u128
            } else {
                0
            };
            proof {
                assert(extra <= (u32::MAX as int) * (u64::MAX as int));
                assert(prev_elapsed <= dur);
            }
            let used: u128 = extra + (dur - prev_elapsed) as u128;
            proof {
                assert(used == spent(before, c));
            }
            if used > remaining as u128 {
                proof {
                    assert(effects@ =~= eff1 + before.ticked(remaining as nat, entity).2);
                    assert(target.0 =~= views(self.tweens@));
                }
                return TweenState::Active;
            }
            remaining = (remaining as u128 - used) as u64;
            proof {
                let rn = seq_steps(cs0, i + 1, remaining as nat, entity);
                lemma_seq_steps_shape(cs0, i + 1, remaining as nat, entity);
                assert(rc.0 == rn.0.update(i as int, c));
                assert(eff0 + target.3 =~= effects@ + rn.3);
            }
        }
        proof {
            assert(target.0 =~= views(self.tweens@));
        }
        TweenState::Completed
    }

    pub fn progress(&self) -> (r: u64)
        requires
            self@.wf(),
        ensures
            r == self@.progress(),
            r <= RATIO_ONE,
    {
        group_progress(self.elapsed, self.duration)
    }

    pub fn times_completed(&self) -> (r: u32)
        requires
            self@.wf(),
        ensures
            r == self@.times_completed(),
    {
        if self.index == self.tweens.len() {
            1
        } else {
            0
        }
    }

    pub fn rewind(&mut self)
        requires
            old(self)@.wf(),
        ensures
            final(self)@.wf(),
            final(self)@ == old(self)@.rewound(),
        decreases *old(self),
    {
        self.elapsed = 0;
        self.index = 0;
        let n = self.tweens.len();
        let mut i: usize = 0;
        while i < n
            invariant
                self.tweens.len() == n,
                n == old(self).tweens.len(),
                i <= n,
                self.elapsed == 0,
                self.index == 0,
                self.duration == old(self).duration,
                old(self)@.wf(),
                forall|k: int| 0 <= k < i ==> (#[trigger] self.tweens@[k])@ == old(self).tweens@[k]@.rewound(),
                forall|k: int| 0 <= k < i ==> (#[trigger] self.tweens@[k])@.wf(),
                forall|k: int| i <= k < n ==> #[trigger] self.tweens@[k] == old(self).tweens@[k],
            decreases n - i,
        {
            proof {
                let ghost s0 = *old(self);
                assert(decreases_to!(s0.tweens => s0.tweens[i as int]));
                assert(old(self)@->Sequence_children[i as int] == self.tweens@[i as int]@);
            }
            self.tweens[i].rewind();
            i += 1;
        }
        proof {
            assert(views(self.tweens@) =~= old(self)@.rewound()->Sequence_children);
        }
    }
}

} // verus!
