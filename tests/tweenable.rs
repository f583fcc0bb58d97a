use std::time::Duration;

use tweening::{
    Delay, Effect, Sequence, Tracks, Tween, TweenState, Tweenable, TweeningDirection,
    TweeningType, RATIO_ONE,
};

const EASE_LINEAR: usize = 0;
const POSITION_LENS: usize = 0;
const ROTATION_LENS: usize = 1;

/// Target of the lenses: a translation (the same along each axis) and a rotation about x, in degrees.
#[derive(Debug, Default, Clone, Copy, PartialEq)]
struct Transform {
    translation: f32,
    rotation_deg: f32,
}

impl Transform {
    fn from_translation(t: f32) -> Self {
        Transform { translation: t, rotation_deg: 0. }
    }
}

#[derive(Debug, Default, Clone, Copy)]
struct CallbackMonitor {
    invoke_count: u64,
    last_reported_count: u32,
}

fn nanos(secs: f32) -> u64 {
    Duration::from_secs_f32(secs).as_nanos() as u64
}

fn fixed(ratio: f32) -> i64 {
    (ratio as f64 * RATIO_ONE as f64).round() as i64
}

fn ratio(r: u64) -> f32 {
    (r as f64 / RATIO_ONE as f64) as f32
}

/// Utility to compare floating-point values with a tolerance.
fn abs_diff_eq(a: f32, b: f32, tol: f32) -> bool {
    (a - b).abs() < tol
}

/// Apply the lerp effects to the target; returns the events' (entity, user data)
/// and counts callbacks in the monitor.
fn apply(effects: &[Effect], target: &mut Transform, monitor: &mut CallbackMonitor, entity: u64) -> Vec<(u64, u64)> {
    let mut events = Vec::new();
    for e in effects {
        match *e {
            Effect::Lerp { ease, lens, ratio: r } => {
                assert_eq!(ease, EASE_LINEAR);
                let f = ratio(r);
                if lens == POSITION_LENS {
                    target.translation = f;
                } else {
                    target.rotation_deg = 90. * f;
                }
            }
            Effect::Event(ev) => events.push((ev.entity, ev.user_data)),
            Effect::Callback { entity: cb_entity, times_completed, .. } => {
                assert_eq!(cb_entity, entity);
                monitor.invoke_count += 1;
                monitor.last_reported_count = times_completed;
            }
        }
    }
    events
}

fn tick_into(t: &mut Tweenable, delta: u64, target: &mut Transform) -> TweenState {
    let mut effects = Vec::new();
    let state = t.tick(delta, 0, &mut effects);
    let mut monitor = CallbackMonitor::default();
    apply(&effects, target, &mut monitor, 0);
    state
}

fn linear(tweening_type: TweeningType, secs: f32, lens: usize) -> Tween {
    Tween::new(EASE_LINEAR, tweening_type, nanos(secs), lens)
}

/// Test ticking of a single tween in isolation.
#[test]
fn tween_tick() {
    for tweening_direction in &[TweeningDirection::Forward, TweeningDirection::Backward] {
        for tweening_type in &[
            TweeningType::Once,
            TweeningType::Loop,
            TweeningType::LoopTimes(1),
            TweeningType::PingPong,
            TweeningType::PingPongTimes(2),
        ] {
            println!("TweeningType: type={:?} dir={:?}", tweening_type, tweening_direction);

            // Create a linear tween over 1 second
            let mut tween = linear(*tweening_type, 1.0, POSITION_LENS).with_direction(*tweening_direction);
            assert_eq!(tween.direction(), *tweening_direction);
            assert!(tween.completed_callback().is_none());
            assert!(tween.completed_event().is_none());

            let dummy_entity: u64 = 42;

            // Register a callback to count completions
            let mut callback_monitor = CallbackMonitor::default();
            tween.set_completed(7);
            assert!(tween.completed_callback().is_some());
            assert!(tween.completed_event().is_none());
            assert_eq!(callback_monitor.invoke_count, 0);

            // Activate event sending
            const USER_DATA: u64 = 54789; // dummy
            tween.set_completed_event(true, USER_DATA);
            assert!(tween.completed_event().is_some());
            assert_eq!(tween.completed_event().unwrap(), USER_DATA);

            // Loop over 2.2 seconds, so greater than one ping-pong loop
            let mut transform = Transform::default();
            let tick_duration = nanos(0.2);
            for i in 1..=11 {
                // Calculate expected values
                let (progress, times_completed, mut direction, expected_state, just_completed) =
                    match tweening_type {
                        TweeningType::Once => {
                            let progress = (i as f32 * 0.2).min(1.0);
                            let times_completed = if i >= 5 { 1 } else { 0 };
                            let state = if i < 5 { TweenState::Active } else { TweenState::Completed };
                            let just_completed = i == 5;
                            (progress, times_completed, TweeningDirection::Forward, state, just_completed)
                        }
                        TweeningType::Loop | TweeningType::LoopTimes(_) => {
                            let progress = (i as f32 * 0.2).fract();
                            let times_completed = i / 5;
                            let just_completed = i % 5 == 0;
                            (
                                progress,
                                times_completed,
                                TweeningDirection::Forward,
                                if *tweening_type == TweeningType::Loop || i < 5 {
                                    TweenState::Active
                                } else {
                                    TweenState::Completed
                                },
                                just_completed,
                            )
                        }
                        TweeningType::PingPong | TweeningType::PingPongTimes(_) => {
                            let i5 = i % 5;
                            let progress = i5 as f32 * 0.2;
                            let times_completed = i / 5;
                            let i10 = i % 10;
                            let direction = if i10 >= 5 && (*tweening_type == TweeningType::PingPong || i < 10) {
                                TweeningDirection::Backward
                            } else {
                                TweeningDirection::Forward
                            };
                            let just_completed = i5 == 0;
                            (
                                progress,
                                times_completed,
                                direction,
                                if *tweening_type == TweeningType::PingPong || i < 10 {
                                    TweenState::Active
                                } else {
                                    TweenState::Completed
                                },
                                just_completed,
                            )
                        }
                    };
                let factor = if tweening_direction.is_backward() {
                    direction = direction.flip();
                    1. - progress
                } else {
                    progress
                };
                let expected_translation = if direction.is_forward() { progress } else { 1. - progress };
                println!(
                    "Expected: progress={} factor={} times_completed={} direction={:?} state={:?} just_completed={} translation={:?}",
                    progress, factor, times_completed, direction, expected_state, just_completed, expected_translation
                );

                // Tick the tween
                let mut effects = Vec::new();
                let actual_state = tween.tick(tick_duration, dummy_entity, &mut effects);
                let events = apply(&effects, &mut transform, &mut callback_monitor, dummy_entity);

                // Check actual values
                assert_eq!(tween.direction(), direction);
                assert_eq!(
                    tween.is_looping(),
                    match *tweening_type {
                        TweeningType::Once => false,
                        TweeningType::Loop | TweeningType::PingPong => true,
                        TweeningType::LoopTimes(times) | TweeningType::PingPongTimes(times) => times_completed < times,
                    }
                );
                assert_eq!(actual_state, expected_state);
                assert!(abs_diff_eq(ratio(tween.progress()), progress, 1e-5));
                assert_eq!(tween.times_completed(), times_completed);
                assert!(abs_diff_eq(transform.translation, expected_translation, 1e-5));
                assert!(abs_diff_eq(transform.rotation_deg, 0., 1e-5));
                assert_eq!(callback_monitor.invoke_count, times_completed as u64);
                assert_eq!(callback_monitor.last_reported_count, times_completed);
                let event = events.first();
                if just_completed {
                    assert!(event.is_some());
                    if let Some(event) = event {
                        assert_eq!(event.0, dummy_entity);
                        assert_eq!(event.1, USER_DATA);
                    }
                } else {
                    assert!(event.is_none());
                }
            }

            // Rewind
            tween.rewind();
            assert_eq!(tween.direction(), *tweening_direction); // does not change
            assert_eq!(tween.is_looping(), *tweening_type != TweeningType::Once);
            assert!(abs_diff_eq(ratio(tween.progress()), 0., 1e-5));
            assert_eq!(tween.times_completed(), 0);

            // Dummy tick to update target
            let mut effects = Vec::new();
            let actual_state = tween.tick(0, 0, &mut effects);
            apply(&effects, &mut transform, &mut CallbackMonitor::default(), 0);
            assert_eq!(actual_state, TweenState::Active);
            let expected_translation = if tweening_direction.is_backward() { 1. } else { 0. };
            assert!(abs_diff_eq(transform.translation, expected_translation, 1e-5));
            assert!(abs_diff_eq(transform.rotation_deg, 0., 1e-5));

            // Clear callback
            tween.clear_completed();
            assert!(tween.completed_callback().is_none());
        }
    }
}

#[test]
fn tween_dir() {
    let mut tween = linear(TweeningType::Once, 1.0, POSITION_LENS);

    // Default
    assert_eq!(tween.direction(), TweeningDirection::Forward);
    assert!(abs_diff_eq(ratio(tween.progress()), 0.0, 1e-5));

    // no-op
    tween.set_direction(TweeningDirection::Forward);
    assert_eq!(tween.direction(), TweeningDirection::Forward);
    assert!(abs_diff_eq(ratio(tween.progress()), 0.0, 1e-5));

    // Backward
    tween.set_direction(TweeningDirection::Backward);
    assert_eq!(tween.direction(), TweeningDirection::Backward);
    // progress is independent of direction
    assert!(abs_diff_eq(ratio(tween.progress()), 0.0, 1e-5));

    // Progress-invariant
    tween.set_direction(TweeningDirection::Forward);
    tween.set_progress(fixed(0.3));
    assert!(abs_diff_eq(ratio(tween.progress()), 0.3, 1e-5));
    tween.set_direction(TweeningDirection::Backward);
    // progress is independent of direction
    assert!(abs_diff_eq(ratio(tween.progress()), 0.3, 1e-5));

    // Progress always increases alongside the current direction
    let mut transform = Transform::default();
    tween.set_direction(TweeningDirection::Backward);
    assert!(abs_diff_eq(ratio(tween.progress()), 0.3, 1e-5));
    let mut effects = Vec::new();
    tween.tick(nanos(0.1), 0, &mut effects);
    apply(&effects, &mut transform, &mut CallbackMonitor::default(), 0);
    assert!(abs_diff_eq(ratio(tween.progress()), 0.4, 1e-5));
    assert!(abs_diff_eq(transform.translation, 0.6, 1e-5));
}

fn two_tween_sequence() -> Tweenable {
    let tween1 = linear(TweeningType::Once, 1.0, POSITION_LENS);
    let tween2 = linear(TweeningType::Once, 1.0, ROTATION_LENS);
    Tweenable::Sequence(tween1.chain(Tweenable::Tween(tween2)))
}

/// Test ticking a sequence of tweens.
#[test]
fn seq_tick() {
    let mut seq = two_tween_sequence();
    let mut transform = Transform::default();

    for i in 1..=16 {
        let state = tick_into(&mut seq, nanos(0.2), &mut transform);
        if i < 5 {
            assert_eq!(state, TweenState::Active);
            let r = i as f32 * 0.2;
            assert_eq!(transform, Transform::from_translation(r));
        } else if i < 10 {
            assert_eq!(state, TweenState::Active);
            let alpha_deg = (18 * (i - 5)) as f32;
            assert!(abs_diff_eq(transform.translation, 1., 1e-5));
            assert!(abs_diff_eq(transform.rotation_deg, alpha_deg, 1e-3));
        } else {
            assert_eq!(state, TweenState::Completed);
            assert!(abs_diff_eq(transform.translation, 1., 1e-5));
            assert!(abs_diff_eq(transform.rotation_deg, 90., 1e-3));
        }
    }
}

#[test]
fn sequence_deltas_across_boundaries() {
    let mut seq = two_tween_sequence();
    let mut transform = Transform::default();

    for i in 1..=16 {
        let state = tick_into(&mut seq, nanos(0.3), &mut transform);
        if i < 4 {
            assert_eq!(state, TweenState::Active);
            let r = i as f32 * 0.3;
            assert_eq!(transform, Transform::from_translation(r));
        } else if i < 7 {
            assert_eq!(state, TweenState::Active);
            let alpha_deg = (18 + 27 * (i - 4)) as f32;
            assert!(abs_diff_eq(transform.translation, 1., 1e-5));
            assert!(abs_diff_eq(transform.rotation_deg, alpha_deg, 1e-3));
        } else {
            assert_eq!(state, TweenState::Completed);
            assert!(abs_diff_eq(transform.translation, 1., 1e-5));
            assert!(abs_diff_eq(transform.rotation_deg, 90., 1e-3));
        }
    }
}

#[test]
fn sequence_delta_skips() {
    let mut seq = two_tween_sequence();
    let mut transform = Transform::default();

    for i in 1..=2 {
        let state = tick_into(&mut seq, nanos(1.3), &mut transform);
        if i < 2 {
            assert_eq!(state, TweenState::Active);
            let alpha_deg = 27f32;
            assert!(abs_diff_eq(transform.translation, 1., 1e-5));
            assert!(abs_diff_eq(transform.rotation_deg, alpha_deg, 1e-3));
        } else {
            assert_eq!(state, TweenState::Completed);
            assert!(abs_diff_eq(transform.translation, 1., 1e-5));
            assert!(abs_diff_eq(transform.rotation_deg, 90., 1e-3));
        }
    }
}

/// Sequence::new() and various Sequence-specific methods
#[test]
fn seq_iter() {
    let mut seq = Sequence::new(
        (1..5)
            .map(|i| Tweenable::Tween(linear(TweeningType::Once, 0.2 * i as f32, POSITION_LENS)))
            .collect(),
    );
    assert!(!seq.is_looping());

    let mut progress = 0.;
    for i in 1..5 {
        assert_eq!(seq.index(), i - 1);
        assert!((ratio(seq.progress()) - progress).abs() < 1e-5);
        let secs = 0.2 * i as f32;
        assert_eq!(seq.current().duration(), nanos(secs));
        progress += 0.25;
        seq.set_progress(fixed(progress));
        assert_eq!(seq.times_completed(), if i == 4 { 1 } else { 0 });
    }

    seq.rewind();
    assert_eq!(seq.progress(), 0);
    assert_eq!(seq.times_completed(), 0);
}

/// All orderings of `items`.
fn permutations(items: &[f32]) -> Vec<Vec<f32>> {
    if items.len() <= 1 {
        return vec![items.to_vec()];
    }
    let mut out = Vec::new();
    for k in 0..items.len() {
        let mut rest = items.to_vec();
        let first = rest.remove(k);
        for mut p in permutations(&rest) {
            p.insert(0, first);
            out.push(p);
        }
    }
    out
}

#[test]
fn sequence_set_progress_stress_tests() {
    let tweens: Vec<Tween> = (0..5)
        .map(|i| linear(TweeningType::Once, 0.2 * (1 << i) as f32, POSITION_LENS))
        .collect();
    let mut seq = Sequence::new(tweens.iter().map(|t| Tweenable::Tween(*t)).collect());
    let durations = tweens.iter().map(|t| t.duration()).collect::<Vec<_>>();
    let total_time = durations.iter().map(|d| Duration::from_nanos(*d)).sum::<Duration>().as_secs_f32();
    let progresses = durations
        .iter()
        .map(|d| Duration::from_nanos(*d).as_secs_f32() / total_time)
        .collect::<Vec<_>>();
    let progression = (0..progresses.len())
        .map(|index| progresses[0..=index].iter().sum())
        .collect::<Vec<f32>>();

    for progress in permutations(&[0., 0.1, 0.33, 0.5, 0.75, 0.95, 1., progression[3]]).iter().flatten() {
        seq.set_progress(fixed(*progress));
        assert!((ratio(seq.progress()) - progress).abs() < 1e-5);

        assert_eq!(
            seq.index(),
            progression
                .iter()
                .position(|p| progress < p)
                .unwrap_or(progression.len() - 1)
        );
        assert_eq!(seq.current().duration(), durations[seq.index()]);
        assert_eq!(seq.times_completed(), if *progress == 1. { 1 } else { 0 });
    }
}

/// Test ticking parallel tracks of tweens.
#[test]
fn tracks_tick() {
    let tween1 = linear(TweeningType::Once, 1., POSITION_LENS);
    let tween2 = linear(TweeningType::Once, 0.8, ROTATION_LENS); // shorter
    let tracks = Tracks::new(vec![Tweenable::Tween(tween1), Tweenable::Tween(tween2)]);
    assert_eq!(tracks.duration(), nanos(1.)); // max(1., 0.8)
    assert!(!tracks.is_looping());
    let mut tracks = Tweenable::Tracks(tracks);

    let mut transform = Transform::default();

    for i in 1..=6 {
        let state = tick_into(&mut tracks, nanos(0.2), &mut transform);
        if i < 5 {
            assert_eq!(state, TweenState::Active);
            assert_eq!(tracks.times_completed(), 0);
            let r = i as f32 * 0.2;
            assert!((ratio(tracks.progress()) - r).abs() < 1e-5);
            let alpha_deg = 22.5 * i as f32;
            assert!(abs_diff_eq(transform.translation, r, 1e-5));
            assert!(abs_diff_eq(transform.rotation_deg, alpha_deg, 1e-3));
        } else {
            assert_eq!(state, TweenState::Completed);
            assert_eq!(tracks.times_completed(), 1);
            assert!((ratio(tracks.progress()) - 1.).abs() < 1e-5);
            assert!(abs_diff_eq(transform.translation, 1., 1e-5));
            assert!(abs_diff_eq(transform.rotation_deg, 90., 1e-3));
        }
    }

    tracks.rewind();
    assert_eq!(tracks.times_completed(), 0);
    assert!(ratio(tracks.progress()).abs() < 1e-5);

    tracks.set_progress(fixed(0.9));
    assert!((ratio(tracks.progress()) - 0.9).abs() < 1e-5);
    // tick to udpate state (set_progress() does not update state)
    let state = tick_into(&mut tracks, nanos(0.), &mut transform);
    assert_eq!(state, TweenState::Active);
    assert_eq!(tracks.times_completed(), 0);

    tracks.set_progress(fixed(3.2));
    assert!((ratio(tracks.progress()) - 1.).abs() < 1e-5);
    // tick to udpate state (set_progress() does not update state)
    let state = tick_into(&mut tracks, nanos(0.), &mut transform);
    assert_eq!(state, TweenState::Completed);
    assert_eq!(tracks.times_completed(), 1); // no looping

    tracks.set_progress(fixed(-0.5));
    assert!(ratio(tracks.progress()).abs() < 1e-5);
    // tick to udpate state (set_progress() does not update state)
    let state = tick_into(&mut tracks, nanos(0.), &mut transform);
    assert_eq!(state, TweenState::Active);
    assert_eq!(tracks.times_completed(), 0); // no looping
}

/// Test ticking a delay.
#[test]
fn delay_tick() {
    let duration = nanos(1.0);
    let delay = Delay::new(duration);
    let mut delay = Tweenable::Delay(delay);
    {
        assert_eq!(delay.duration(), duration);
        assert!(!delay.is_looping());
        assert!(ratio(delay.progress()).abs() < 1e-5);
    }

    let mut transform = Transform::default();

    for i in 1..=6 {
        let mut effects = Vec::new();
        let state = delay.tick(nanos(0.2), 0, &mut effects);
        assert!(effects.is_empty());
        apply(&effects, &mut transform, &mut CallbackMonitor::default(), 0);
        if i < 5 {
            assert_eq!(state, TweenState::Active);
            let r = i as f32 * 0.2;
            assert!((ratio(delay.progress()) - r).abs() < 1e-5);
        } else {
            assert_eq!(state, TweenState::Completed);
            assert!((ratio(delay.progress()) - 1.).abs() < 1e-5);
        }
    }
    assert_eq!(transform, Transform::default());
}
