//! Properties that hold of every tweenable, stated over the abstract model
//! and proved.
use vstd::arithmetic::div_mod::{
    lemma_div_by_multiple, lemma_div_is_ordered, lemma_fundamental_div_mod,
    lemma_fundamental_div_mod_converse,
};
use vstd::prelude::*;

use crate::clock::{
    min_u32, ratio_of, scale, settle_ratio, PROGRESS_TOLERANCE, RATIO_ONE, SEEK_TOLERANCE_NS,
};
use crate::node::{seq_seek, tracks_steps, Node};
use crate::tween::{repeat, Effect, Tween, TweenState, TweeningDirection, TweeningType};

verus! {

/// A tween after `n` ticks of `delta` nanoseconds each.
pub open spec fn ticked_n(t: Tween, delta: nat, n: nat, entity: u64) -> Tween
    decreases n,
{
    if n == 0 {
        t
    } else {
        ticked_n(t, delta, (n - 1) as nat, entity).tick_outcome(delta, entity).0
    }
}

proof fn lemma_ratio_monotonic(a: nat, b: nat, d: nat)
    requires
        a <= b,
        0 < d,
    ensures
        ratio_of(a, d) <= ratio_of(b, d),
{
    assert(a * RATIO_ONE <= b * RATIO_ONE) by (nonlinear_arith)
        requires a <= b;
    lemma_div_is_ordered(a * RATIO_ONE, b * RATIO_ONE, d as int);
}

proof fn lemma_ratio_full(d: nat)
    requires
        0 < d,
    ensures
        ratio_of(d, d) == RATIO_ONE,
{
    assert(d * RATIO_ONE == RATIO_ONE * d) by (nonlinear_arith);
    lemma_div_by_multiple(RATIO_ONE as int, d as int);
}

/// A tween that runs once never loses progress on a tick, which adds the
/// time played up to its duration; it is at the end,
/// and reports completion, as soon as the time played reaches its duration;
/// and once there, a tick changes nothing and asks for nothing to be applied.
pub proof fn once_tween_tick(t: Tween, delta: nat, entity: u64)
    requires
        t.wf(),
        t.spec_tweening_type() == TweeningType::Once,
    ensures
        t.tick_outcome(delta, entity).0.wf(),
        t.tick_outcome(delta, entity).0.spec_progress() >= t.spec_progress(),
        t.tick_outcome(delta, entity).0.spec_elapsed() == crate::node::min_nat(
            t.spec_elapsed() + delta,
            t.spec_duration(),
        ),
        t.spec_elapsed() + delta >= t.spec_duration() ==> {
            &&& t.tick_outcome(delta, entity).0.spec_progress() == RATIO_ONE
            &&& t.tick_outcome(delta, entity).1 == TweenState::Completed
        },
        t.spec_elapsed() == t.spec_duration() ==> {
            &&& t.tick_outcome(delta, entity).0 == t
            &&& t.tick_outcome(delta, entity).1 == TweenState::Completed
            &&& t.tick_outcome(delta, entity).2 == Seq::<Effect>::empty()
        },
{
    let d = t.spec_duration();
    let t2 = t.tick_outcome(delta, entity).0;
    if t.is_done() {
        lemma_ratio_full(d);
    } else {
        if t.spec_elapsed() + delta < d {
            lemma_ratio_monotonic(t.spec_elapsed(), t.spec_elapsed() + delta, d);
        } else {
            lemma_ratio_full(d);
            lemma_ratio_monotonic(t.spec_elapsed(), d, d);
        }
    }
}

/// Whole runs and remainder of `x + delta`, from those of `x`.
proof fn lemma_div_mod_step(x: int, delta: int, d: int)
    requires
        0 <= x,
        0 <= delta,
        0 < d,
    ensures
        (x + delta) / d == x / d + (x % d + delta) / d,
        (x + delta) % d == (x % d + delta) % d,
{
    lemma_fundamental_div_mod(x, d);
    lemma_fundamental_div_mod(x % d + delta, d);
    let q = x / d;
    let r = x % d;
    let q2 = (r + delta) / d;
    let r2 = (r + delta) % d;
    assert(x + delta == (q + q2) * d + r2) by (nonlinear_arith)
        requires x == d * q + r, r + delta == d * q2 + r2;
    lemma_fundamental_div_mod_converse(x + delta, d, q + q2, r2);
}

/// Ticking a looping tween `n` times by `delta` from the start: the
/// position and the number of completed runs follow the total time played.
proof fn lemma_looping_ticks(t: Tween, delta: nat, n: nat, entity: u64)
    requires
        t.wf(),
        t.spec_tweening_type() == TweeningType::Loop || t.spec_tweening_type()
            == TweeningType::PingPong,
        t.spec_elapsed() == 0,
        t.spec_times_completed() == 0,
    ensures
        ticked_n(t, delta, n, entity).wf(),
        ticked_n(t, delta, n, entity).spec_tweening_type() == t.spec_tweening_type(),
        ticked_n(t, delta, n, entity).spec_duration() == t.spec_duration(),
        ticked_n(t, delta, n, entity).spec_elapsed() == ((n * delta) as int) % (t.spec_duration() as int),
        ticked_n(t, delta, n, entity).spec_times_completed() == min_u32(
            (((n * delta) as int) / (t.spec_duration() as int)) as nat,
        ),
        t.spec_tweening_type() == TweeningType::Loop ==> ticked_n(t, delta, n, entity).spec_direction()
            == t.spec_direction(),
        t.spec_tweening_type() == TweeningType::PingPong && ((n * delta) as int) / (t.spec_duration() as int)
            <= u32::MAX ==> ticked_n(t, delta, n, entity).spec_direction() == if (((n * delta) as int) / (
        t.spec_duration() as int)) % 2 == 0 {
            t.spec_direction()
        } else {
            t.spec_direction().flipped()
        },
    decreases n,
{
    let d = t.spec_duration() as int;
    if n == 0 {
        assert(0 * delta == 0);
    } else {
        let m = (n - 1) as nat;
        lemma_looping_ticks(t, delta, m, entity);
        let p = ticked_n(t, delta, m, entity);
        let x: int = (m * delta) as int;
        assert((n * delta) as int == x + delta) by (nonlinear_arith)
            requires n == m + 1, x == m * delta;
        assert(x >= 0) by (nonlinear_arith)
            requires m >= 0, delta >= 0, x == m * delta;
        lemma_div_mod_step(x, delta as int, d);
        lemma_fundamental_div_mod(x + delta, d);
        vstd::arithmetic::div_mod::lemma_div_pos_is_pos(x, d);
        vstd::arithmetic::div_mod::lemma_div_pos_is_pos(x + delta, d);
        vstd::arithmetic::div_mod::lemma_div_pos_is_pos(x % d + delta, d);
        vstd::arithmetic::div_mod::lemma_mod_bound(x + delta, d);
        let e = p.spec_elapsed() + delta;
        if e < d {
            assert((x % d + delta) / d == 0) by {
                vstd::arithmetic::div_mod::lemma_basic_div(x % d + delta, d);
            }
            vstd::arithmetic::div_mod::lemma_small_mod((x % d + delta) as nat, d as nat);
        }
        if t.spec_tweening_type() == TweeningType::PingPong && ((n * delta) as int) / d <= u32::MAX {
            vstd::arithmetic::div_mod::lemma_div_is_ordered(x, x + delta, d);
        }
    }
}

/// A tween that loops forever, started at zero and ticked `n` times by
/// `delta`, is at `(n * delta) mod duration`, has completed
/// `((n * delta) as int) / duration` runs (counted up to `u32::MAX`), and stays
/// active on every tick.
pub proof fn loop_tween_ticks(t: Tween, delta: nat, n: nat, entity: u64)
    requires
        t.wf(),
        t.spec_tweening_type() == TweeningType::Loop,
        t.spec_elapsed() == 0,
        t.spec_times_completed() == 0,
    ensures
        ticked_n(t, delta, n, entity).spec_elapsed() == ((n * delta) as int) % (t.spec_duration() as int),
        ticked_n(t, delta, n, entity).spec_progress() == ratio_of(
            (((n * delta) as int) % (t.spec_duration() as int)) as nat,
            t.spec_duration(),
        ),
        ticked_n(t, delta, n, entity).spec_times_completed() == min_u32(
            (((n * delta) as int) / (t.spec_duration() as int)) as nat,
        ),
        ticked_n(t, delta, n, entity).tick_outcome(delta, entity).1 == TweenState::Active,
{
    lemma_looping_ticks(t, delta, n, entity);
}

/// A ping-pong tween started at zero and ticked `n` times by `delta` is at
/// the same point of its run as a looping one, but its direction has turned
/// once per completed run: after an odd number of runs the ratio applied to
/// the lens is the mirror image, around one half, of the looping tween's.
pub proof fn ping_pong_tween_ticks(t: Tween, delta: nat, n: nat, entity: u64)
    requires
        t.wf(),
        t.spec_tweening_type() == TweeningType::PingPong,
        t.spec_direction() == TweeningDirection::Forward,
        t.spec_elapsed() == 0,
        t.spec_times_completed() == 0,
        ((n * delta) as int) / (t.spec_duration() as int) <= u32::MAX,
    ensures
        ticked_n(t, delta, n, entity).spec_elapsed() == ((n * delta) as int) % (t.spec_duration() as int),
        ticked_n(t, delta, n, entity).spec_times_completed() == ((n * delta) as int) / (
        t.spec_duration() as int),
        ticked_n(t, delta, n, entity).factor() == if (((n * delta) as int) / (t.spec_duration() as int)) % 2
            == 0 {
            ratio_of((((n * delta) as int) % (t.spec_duration() as int)) as nat, t.spec_duration())
        } else {
            (RATIO_ONE - ratio_of(
                (((n * delta) as int) % (t.spec_duration() as int)) as nat,
                t.spec_duration(),
            )) as nat
        },
        ticked_n(t, delta, n, entity).tick_outcome(delta, entity).1 == TweenState::Active,
{
    lemma_looping_ticks(t, delta, n, entity);
}

/// Rewinding brings any tweenable back to progress zero with no completed
/// run, keeping its duration; a tween keeps its direction.
pub proof fn rewind_resets(n: Node)
    requires
        n.wf(),
    ensures
        n.rewound().progress() == 0,
        n.rewound().times_completed() == 0,
        n.rewound().duration() == n.duration(),
        n is Tween ==> n.rewound()->Tween_0.spec_direction() == n->Tween_0.spec_direction(),
{
    crate::node::lemma_wf_duration(n);
    vstd::arithmetic::div_mod::lemma_basic_div(0, n.duration() as int);
}

/// Total duration of children `k` up to, not including, `m`.
pub open spec fn span(ns: Seq<Node>, k: int, m: int) -> nat
    decreases m - k,
{
    if k >= m || k < 0 || k >= ns.len() {
        0
    } else {
        ns[k].duration() + span(ns, k + 1, m)
    }
}

/// Whether every tweenable of the list lasts longer than twice the seek tolerance.
pub open spec fn longer_than_tolerance(ns: Seq<Node>) -> bool {
    forall|m: int| 0 <= m < ns.len() ==> (#[trigger] ns[m]).duration() > 2 * SEEK_TOLERANCE_NS
}

proof fn lemma_seek_index(ts: Seq<Node>, k: int, t: nat, old_index: int)
    requires
        0 <= k <= ts.len(),
        forall|m: int| 0 <= m < ts.len() ==> (#[trigger] ts[m]).wf(),
    ensures
        k <= seq_seek(ts, k, t, old_index).1 <= ts.len(),
        forall|m: int|
            k <= m < seq_seek(ts, k, t, old_index).1 ==> #[trigger] span(ts, k, m + 1) <= t
                + SEEK_TOLERANCE_NS,
        seq_seek(ts, k, t, old_index).1 < ts.len() && longer_than_tolerance(ts) ==> span(
            ts,
            k,
            seq_seek(ts, k, t, old_index).1 + 1,
        ) > t + SEEK_TOLERANCE_NS,
    decreases ts.len() - k,
{
    if k < ts.len() {
        let d = ts[k].duration();
        let j = seq_seek(ts, k, t, old_index).1;
        crate::node::lemma_wf_duration(ts[k]);
        assert(span(ts, k + 1, k + 1) == 0);
        if t > d + SEEK_TOLERANCE_NS {
            lemma_seek_index(ts, k + 1, (t - d) as nat, old_index);
            assert forall|m: int| k <= m < j implies #[trigger] span(ts, k, m + 1) <= t
                + SEEK_TOLERANCE_NS by {
                if m > k {
                    assert(span(ts, k + 1, m + 1) <= t - d + SEEK_TOLERANCE_NS);
                }
            }
        } else if t + SEEK_TOLERANCE_NS < d {
        } else {
            if k + 1 < ts.len() && longer_than_tolerance(ts) {
                assert(ts[k + 1].duration() > 2 * SEEK_TOLERANCE_NS);
                assert(span(ts, k + 2, k + 2) == 0);
                assert(span(ts, k + 1, k + 2) == ts[k + 1].duration());
            }
        }
    }
}

proof fn lemma_at_progress_duration(n: Node, progress: int)
    ensures
        n.at_progress(progress).duration() == n.duration(),
{
}

proof fn lemma_seek_keeps_durations(ts: Seq<Node>, k: int, t: nat, old_index: int)
    requires
        0 <= k,
    ensures
        seq_seek(ts, k, t, old_index).0.len() == ts.len(),
        forall|m: int|
            0 <= m < ts.len() ==> (#[trigger] seq_seek(ts, k, t, old_index).0[m]).duration()
                == ts[m].duration(),
    decreases ts.len() - k,
{
    crate::node::lemma_seq_seek_shape(ts, k, t, old_index);
    if 0 <= k < ts.len() {
        let d = ts[k].duration();
        lemma_at_progress_duration(ts[k], RATIO_ONE as int);
        lemma_at_progress_duration(ts[k], ratio_of(t, d) as int);
        if t > d + SEEK_TOLERANCE_NS {
            lemma_seek_keeps_durations(ts, k + 1, (t - d) as nat, old_index);
        }
    }
}

/// Seeking a sequence to a ratio away from both ends makes active the first
/// child whose end lies more than `SEEK_TOLERANCE_NS` after the time sought;
/// every child before it ends no later than that, and every child keeps its
/// duration. (That no earlier child qualifies needs every child to last
/// longer than twice the tolerance.)
pub proof fn sequence_seek_index(n: Node, progress: int)
    requires
        n is Sequence,
        n.wf(),
        PROGRESS_TOLERANCE <= progress <= RATIO_ONE - PROGRESS_TOLERANCE,
    ensures
        n.at_progress(progress)->Sequence_index <= n->Sequence_children.len(),
        forall|m: int|
            0 <= m < n.at_progress(progress)->Sequence_index ==> #[trigger] span(
                n->Sequence_children,
                0,
                m + 1,
            ) <= scale(n.duration(), progress as nat) + SEEK_TOLERANCE_NS,
        n.at_progress(progress)->Sequence_children.len() == n->Sequence_children.len(),
        forall|m: int|
            0 <= m < n->Sequence_children.len() ==> (#[trigger] n.at_progress(
                progress,
            )->Sequence_children[m]).duration() == n->Sequence_children[m].duration(),
        n.at_progress(progress)->Sequence_index < n->Sequence_children.len()
            && longer_than_tolerance(n->Sequence_children) ==> span(
            n->Sequence_children,
            0,
            n.at_progress(progress)->Sequence_index as int + 1,
        ) > scale(n.duration(), progress as nat) + SEEK_TOLERANCE_NS,
{
    let cs = n->Sequence_children;
    let t = scale(n.duration(), progress as nat);
    lemma_seek_index(cs, 0, t, n->Sequence_index as int);
    lemma_seek_keeps_durations(cs, 0, t, n->Sequence_index as int);
}

proof fn lemma_tracks_active(ts: Seq<Node>, i: int, delta: nat, entity: u64)
    requires
        0 <= i <= ts.len(),
    ensures
        tracks_steps(ts, i, delta, entity).1 <==> exists|k: int|
            i <= k < ts.len() && (#[trigger] ts[k].ticked(delta, entity)).1 == TweenState::Active,
    decreases ts.len() - i,
{
    if i < ts.len() {
        lemma_tracks_active(ts, i + 1, delta, entity);
        if ts[i].ticked(delta, entity).1 == TweenState::Active {
            assert(tracks_steps(ts, i, delta, entity).1);
        } else if tracks_steps(ts, i + 1, delta, entity).1 {
            let k = choose|k: int|
                i + 1 <= k < ts.len() && (#[trigger] ts[k].ticked(delta, entity)).1
                    == TweenState::Active;
            assert(i <= k < ts.len());
        } else {
            assert forall|k: int| i <= k < ts.len() implies (#[trigger] ts[k].ticked(
                delta,
                entity,
            )).1 != TweenState::Active by {
                if k > i {
                    assert(!(i + 1 <= k < ts.len() && ts[k].ticked(delta, entity).1
                        == TweenState::Active));
                }
            }
        }
    }
}

/// A tick completes tracks, and counts their one completed run, exactly
/// when every track's own tick reports completion.
pub proof fn tracks_complete_when_all_complete(n: Node, delta: nat, entity: u64)
    requires
        n is Tracks,
        n.wf(),
    ensures
        n.ticked(delta, entity).1 == TweenState::Completed <==> forall|k: int|
            0 <= k < n->Tracks_children.len() ==> (#[trigger] n->Tracks_children[k].ticked(
                delta,
                entity,
            )).1 == TweenState::Completed,
        n.ticked(delta, entity).0.times_completed() == 1 <==> n.ticked(delta, entity).1
            == TweenState::Completed,
{
    lemma_tracks_active(n->Tracks_children, 0, delta, entity);
}

/// Seeking tracks below zero puts them at their start, and beyond one at
/// their end.
pub proof fn tracks_seek_clamps(n: Node, progress: int)
    requires
        n is Tracks,
        n.wf(),
    ensures
        progress <= 0 ==> n.at_progress(progress).progress() == 0,
        progress >= RATIO_ONE ==> n.at_progress(progress).progress() == RATIO_ONE,
{
    let d = n.duration();
    crate::node::lemma_wf_duration(n);
    if progress <= 0 {
        assert(settle_ratio(progress, false) == 0);
        assert(d * 0 == 0);
        vstd::arithmetic::div_mod::lemma_basic_div(0, RATIO_ONE as int);
        vstd::arithmetic::div_mod::lemma_basic_div(0, d as int);
    } else if progress >= RATIO_ONE {
        assert(settle_ratio(progress, false) == RATIO_ONE);
        lemma_div_by_multiple(d as int, RATIO_ONE as int);
        lemma_ratio_full(d);
    }
}

/// A tick by zero moves no clock and notifies nothing: a tween keeps its
/// state and only asks for its lens to be applied at the current ratio (or
/// for nothing once it is done), and a delay keeps its state.
pub proof fn zero_tick_repaints(n: Node, entity: u64)
    requires
        n.wf(),
        n is Tween || n is Delay,
    ensures
        n.ticked(0, entity).0 == n,
        n is Tween ==> n.ticked(0, entity).2 == if n->Tween_0.is_done() {
            Seq::<Effect>::empty()
        } else {
            seq![n->Tween_0.lerp_effect()]
        },
        n is Delay ==> n.ticked(0, entity).2 == Seq::<Effect>::empty(),
{
    if n is Tween {
        let t = n->Tween_0;
        if !t.is_done() {
            let out = t.tick_outcome(0, entity);
            assert(t.clock.ticked(0).1 == 0);
            assert(out.0 == t);
            assert(repeat(t.notifications(entity), 0) == Seq::<Effect>::empty());
            assert(out.2 =~= seq![t.lerp_effect()]);
        }
    }
}

} // verus!
