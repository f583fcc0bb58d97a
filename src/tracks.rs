//! Tweenables played together.
use vstd::prelude::*;

use crate::clock::{RATIO_ONE, RATIO_ONE_I64};
use crate::node::{
    all_wf, lemma_tracks_steps_shape, max_durations, min_nat, track_ratio, tracks_steps, Node,
};
use crate::tween::{Effect, TweenState};
use crate::tweenable::{add_capped, group_progress, lemma_views, views, Tweenable};

verus! {

/// Tweenables played back together.
#[derive(Debug)]
pub struct Tracks {
    pub(crate) tracks: Vec<Tweenable>,
    pub(crate) duration: u64,
    pub(crate) elapsed: u64,
    pub(crate) completed: bool,
}

/// The longest of a non-empty list of well-formed tweenables fits a `u64` and lasts at least a nanosecond.
proof fn lemma_max_durations_positive(vs: Seq<Node>)
    requires
        vs.len() > 0,
        all_wf(vs),
    ensures
        0 < max_durations(vs) <= u64::MAX,
    decreases vs.len(),
{
    crate::node::lemma_wf_duration(vs.last());
    if vs.len() > 1 {
        let p = vs.drop_last();
        assert forall|k: int| 0 <= k < p.len() implies (#[trigger] p[k]).wf() by {
            assert(p[k] == vs[k]);
        }
        lemma_max_durations_positive(p);
    } else {
        assert(vs.drop_last().len() == 0);
        assert(max_durations(vs.drop_last()) == 0);
    }
}

impl Tracks {
    /// Tracks playing `items` together. An empty list is not accepted.
    pub fn new(items: Vec<Tweenable>) -> (r: Tracks)
        requires
            items.len() > 0,
            all_wf(views(items@)),
        ensures
            r@.wf(),
            r@ == (Node::Tracks {
                children: views(items@),
                duration: max_durations(views(items@)),
                elapsed: 0,
                completed: false,
            }),
    {
        let mut longest: u64 = 0;
        let mut i: usize = 0;
        proof {
            lemma_views(items@);
        }
        while i < items.len()
            invariant
                i <= items.len(),
                all_wf(views(items@)),
                longest == max_durations(views(items@).take(i as int)),
            decreases items.len() - i,
        {
            proof {
                lemma_views(items@);
                let vs = views(items@);
                assert(vs.take(i + 1).drop_last() =~= vs.take(i as int));
                assert(vs.take(i + 1).last() == vs[i as int]);
                assert(vs[i as int].wf());
            }
            let d = items[i].duration();
            if d > longest {
                longest = d;
            }
            i += 1;
        }
        proof {
            assert(views(items@).take(items.len() as int) =~= views(items@));
            lemma_max_durations_positive(views(items@));
        }
        Tracks { tracks: items, duration: longest, elapsed: 0, completed: false }
    }

    /// Duration of the longest track, in nanoseconds.
    pub fn duration(&self) -> (r: u64)
        ensures
            r == self@.duration(),
    {
        self.duration
    }

    /// Tracks do not loop.
    pub fn is_looping(&self) -> (r: bool)
        ensures
            !r,
    {
        false
    }

    /// Scale every leaf's original duration by `speed`. The group keeps the
    /// duration it was built with.
    pub fn set_speed(&mut self, speed: u64)
        requires
            old(self)@.wf(),
        ensures
            final(self)@.wf(),
            final(self)@ == old(self)@.at_speed(speed as nat),
        decreases *old(self),
    {
        let n = self.tracks.len();
        let mut i: usize = 0;
        proof {
            lemma_views(old(self).tracks@);
        }
        while i < n
            invariant
                self.tracks.len() == n,
                n == old(self).tracks.len(),
                i <= n,
                self.elapsed == old(self).elapsed,
                self.duration == old(self).duration,
                self.completed == old(self).completed,
                old(self)@.wf(),
                views(old(self).tracks@).len() == n,
                forall|k: int| 0 <= k < n ==> #[trigger] views(old(self).tracks@)[k] == old(self).tracks@[k]@,
                forall|k: int| 0 <= k < i ==> (#[trigger] self.tracks@[k])@ == old(self).tracks@[k]@.at_speed(speed as nat),
                forall|k: int| 0 <= k < i ==> (#[trigger] self.tracks@[k])@.wf(),
                forall|k: int| i <= k < n ==> #[trigger] self.tracks@[k] == old(self).tracks@[k],
            decreases n - i,
        {
            proof {
                let ghost s0 = *old(self);
                assert(decreases_to!(s0.tracks => s0.tracks[i as int]));
                assert(old(self)@->Tracks_children[i as int] == self.tracks@[i as int]@);
            }
            self.tracks[i].set_speed(speed);
            i += 1;
        }
        proof {
            assert(views(self.tracks@) =~= old(self)@.at_speed(speed as nat)->Tracks_children);
        }
    }

    /// Seek every track to the same point in time: the ratio `progress`,
    /// clamped to `0 ..= RATIO_ONE`, of the group's duration.
    pub fn set_progress(&mut self, progress: i64)
        requires
            old(self)@.wf(),
        ensures
            final(self)@.wf(),
            final(self)@ == old(self)@.at_progress(progress as int),
        decreases *old(self),
    {
        let q: u64 = if progress < 0 {
            0
        } else if progress > RATIO_ONE_I64 {
            RATIO_ONE
        } else {
            progress as u64
        };
        proof {
            crate::clock::lemma_mul_fits(self.duration as int, q as int);
            crate::clock::lemma_scale_le(self.duration as int, q as int);
        }
        let e: u64 = (self.duration as u128 * q as u128 / (RATIO_ONE as u128)) as u64;
        self.elapsed = e;
        let n = self.tracks.len();
        let mut i: usize = 0;
        proof {
            lemma_views(old(self).tracks@);
        }
        while i < n
            invariant
                self.tracks.len() == n,
                n == old(self).tracks.len(),
                i <= n,
                self.elapsed == e,
                e == crate::clock::scale(old(self).duration as nat, crate::clock::settle_ratio(progress as int, false)),
                self.duration == old(self).duration,
                self.completed == old(self).completed,
                old(self)@.wf(),
                views(old(self).tracks@).len() == n,
                forall|k: int| 0 <= k < n ==> #[trigger] views(old(self).tracks@)[k] == old(self).tracks@[k]@,
                forall|k: int| 0 <= k < i ==> (#[trigger] self.tracks@[k])@ == old(self).tracks@[k]@.at_progress(
                    track_ratio(e as nat, old(self).tracks@[k]@.duration()),
                ),
                forall|k: int| 0 <= k < i ==> (#[trigger] self.tracks@[k])@.wf(),
                forall|k: int| i <= k < n ==> #[trigger] self.tracks@[k] == old(self).tracks@[k],
            decreases n - i,
        {
            proof {
                let ghost s0 = *old(self);
                assert(decreases_to!(s0.tracks => s0.tracks[i as int]));
                assert(old(self)@->Tracks_children[i as int] == self.tracks@[i as int]@);
            }
            let d = self.tracks[i].duration();
            proof {
                crate::node::lemma_wf_duration(self.tracks@[i as int]@);
                crate::clock::lemma_mul_fits(e as int, RATIO_ONE as int);
            }
            let r: u128 = e as u128 * (RATIO_ONE as u128) / (d as u128);
            let r: i64 = if r > i64::MAX as u128 {
                i64::MAX
            } else {
                r as i64
            };
            self.tracks[i].set_progress(r);
            i += 1;
        }
        proof {
            assert(views(self.tracks@) =~= old(self)@.at_progress(progress as int)->Tracks_children);
        }
    }

    pub open(crate) spec fn view(&self) -> Node {
        Node::Tracks {
            children: views(self.tracks@),
            duration: self.duration as nat,
            elapsed: self.elapsed as nat,
            completed: self.completed,
        }
    }

    /// Tick every track with the same `delta`; active while any track is.
    pub fn tick(&mut self, delta: u64, entity: u64, effects: &mut Vec<Effect>) -> (r: TweenState)
        requires
            old(self)@.wf(),
        ensures
            final(self)@.wf(),
            final(self)@ == old(self)@.ticked(delta as nat, entity).0,
            r == old(self)@.ticked(delta as nat, entity).1,
            final(effects)@ == old(effects)@ + old(self)@.ticked(delta as nat, entity).2,
        decreases *old(self),
    {
        let ghost cs0 = views(old(self).tracks@);
        let ghost d0 = delta as nat;
        let ghost target = tracks_steps(cs0, 0, d0, entity);
        let ghost eff0 = old(effects)@;
        proof {
            lemma_views(old(self).tracks@);
            lemma_tracks_steps_shape(cs0, 0, d0, entity);
            assert(target.0 =~= Seq::new(
                cs0.len(),
                |k: int| if k < 0 { self.tracks@[k]@ } else { target.0[k] },
            ));
            assert(eff0 + target.2 =~= effects@ + target.2);
        }
        proof {
            assert forall|k: int| 0 <= k < old(self).tracks@.len() implies (#[trigger] old(self).tracks@[k])@.wf() by {
                assert(cs0[k] == old(self).tracks@[k]@);
            }
        }
        self.elapsed = add_capped(self.elapsed, delta, self.duration);
        let n = self.tracks.len();
        let mut active = false;
        let mut i: usize = 0;
        while i < n
            invariant
                self.tracks.len() == n,
                n == old(self).tracks.len(),
                cs0 == views(old(self).tracks@),
                eff0 == old(effects)@,
                d0 == delta as nat,
                i <= n,
                self.duration == old(self).duration,
                self.elapsed == min_nat((old(self).elapsed + d0) as nat, old(self).duration as nat),
                old(self)@.wf(),
                target == tracks_steps(cs0, 0, d0, entity),
                forall|k: int| 0 <= k < n ==> (#[trigger] self.tracks@[k])@.wf(),
                forall|k: int| i <= k < n ==> #[trigger] self.tracks@[k] == old(self).tracks@[k],
                ({
                    let rc = tracks_steps(cs0, i as int, d0, entity);
                    &&& target.1 == (active || rc.1)
                    &&& eff0 + target.2 == effects@ + rc.2
                    &&& rc.0.len() == n
                    &&& target.0 =~= Seq::new(
                        n as nat,
                        |k: int| if k < i { self.tracks@[k]@ } else { rc.0[k] },
                    )
                }),
            decreases n - i,
        {
            let ghost before = self.tracks@[i as int]@;
            let ghost eff1 = effects@;
            let ghost rc = tracks_steps(cs0, i as int, d0, entity);
            proof {
                let ghost s0 = *old(self);
                assert(decreases_to!(s0.tracks => s0.tracks[i as int]));
                assert(before == cs0[i as int]);
                lemma_tracks_steps_shape(cs0, i + 1, d0, entity);
            }
            let state = self.tracks[i].tick(delta, entity, effects);
            if matches!(state, TweenState::Active) {
                active = true;
            }
            proof {
                let rn = tracks_steps(cs0, i + 1, d0, entity);
                assert(rc.0 == rn.0.update(i as int, self.tracks@[i as int]@));
                assert(eff0 + target.2 =~= effects@ + rn.2);
            }
            i += 1;
        }
        self.completed = !active;
        proof {
            assert(target.0 =~= views(self.tracks@));
        }
        if active {
            TweenState::Active
        } else {
            TweenState::Completed
        }
    }

    pub fn progress(&self) -> (r: u64)
        requires
            self@.wf(),
        ensures
            r == self@.progress(),
            r <= RATIO_ONE,
    {
        group_progress(self.elapsed, self.duration)
    }

    pub fn times_completed(&self) -> (r: u32)
        requires
            self@.wf(),
        ensures
            r == self@.times_completed(),
    {
        if self.completed {
            1
        } else {
            0
        }
    }

    pub fn rewind(&mut self)
        requires
            old(self)@.wf(),
        ensures
            final(self)@.wf(),
            final(self)@ == old(self)@.rewound(),
        decreases *old(self),
    {
        self.elapsed = 0;
        self.completed = false;
        let n = self.tracks.len();
        let mut i: usize = 0;
        while i < n
            invariant
                self.tracks.len() == n,
                n == old(self).tracks.len(),
                i <= n,
                self.elapsed == 0,
                !self.completed,
                self.duration == old(self).duration,
                old(self)@.wf(),
                forall|k: int| 0 <= k < i ==> (#[trigger] self.tracks@[k])@ == old(self).tracks@[k]@.rewound(),
                forall|k: int| 0 <= k < i ==> (#[trigger] self.tracks@[k])@.wf(),
                forall|k: int| i <= k < n ==> #[trigger] self.tracks@[k] == old(self).tracks@[k],
            decreases n - i,
        {
            proof {
                let ghost s0 = *old(self);
                assert(decreases_to!(s0.tracks => s0.tracks[i as int]));
                assert(old(self)@->Tracks_children[i as int] == self.tracks@[i as int]@);
            }
            self.tracks[i].rewind();
            i += 1;
        }
        proof {
            assert(views(self.tracks@) =~= old(self)@.rewound()->Tracks_children);
        }
    }
}

} // verus!
