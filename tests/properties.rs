use tweening::{
    Delay, Effect, IntoBoxDynTweenable, Sequence, Tracks, Tween, TweenCompleted, TweenState,
    Tweenable, TweeningDirection, TweeningType, RATIO_ONE,
};

const SECOND: u64 = 1_000_000_000;
const EASE: usize = 3;
const POSITION: usize = 0;
const ROTATION: usize = 1;

fn lerps(effects: &[Effect]) -> Vec<(usize, u64)> {
    effects
        .iter()
        .filter_map(|e| match *e {
            Effect::Lerp { lens, ratio, .. } => Some((lens, ratio)),
            _ => None,
        })
        .collect()
}

fn tween(tweening_type: TweeningType, duration: u64, lens: usize) -> Tween {
    Tween::new(EASE, tweening_type, duration, lens)
}

fn two_step_sequence() -> Tweenable {
    let a = tween(TweeningType::Once, SECOND, POSITION);
    let b = tween(TweeningType::Once, SECOND, ROTATION);
    Tweenable::Sequence(a.chain(Tweenable::Tween(b)))
}

#[test]
fn once_tween_progress_only_grows_and_then_stays() {
    let mut t = tween(TweeningType::Once, SECOND, POSITION);
    let deltas = [0, 100_000_000, 350_000_000, 1, 299_999_999, 250_000_000, 400_000_000];
    let mut total: u64 = 0;
    let mut last = t.progress();
    for d in deltas {
        let mut effects = Vec::new();
        let state = t.tick(d, 0, &mut effects);
        total += d;
        assert!(t.progress() >= last);
        last = t.progress();
        if total >= SECOND {
            assert_eq!(t.progress(), RATIO_ONE);
            assert_eq!(state, TweenState::Completed);
        } else {
            assert_eq!(t.progress(), total * RATIO_ONE / SECOND);
            assert_eq!(state, TweenState::Active);
        }
    }
    // Once completed, a tick changes nothing and asks for nothing.
    let mut effects = Vec::new();
    assert_eq!(t.tick(SECOND, 0, &mut effects), TweenState::Completed);
    assert!(effects.is_empty());
    assert_eq!(t.times_completed(), 1);
}

#[test]
fn loop_tween_position_and_count_follow_total_time() {
    let mut t = tween(TweeningType::Loop, SECOND, POSITION);
    for i in 1..=23u64 {
        let mut effects = Vec::new();
        let state = t.tick(200_000_000, 0, &mut effects);
        assert_eq!(state, TweenState::Active);
        assert_eq!(t.progress(), (i * 200_000_000) % SECOND);
        assert_eq!(t.times_completed() as u64, i / 5);
        assert_eq!(lerps(&effects), vec![(POSITION, (i * 200_000_000) % SECOND)]);
    }
}

#[test]
fn ping_pong_mirrors_loop_when_backward() {
    let mut p = tween(TweeningType::PingPong, SECOND, POSITION);
    let mut l = tween(TweeningType::Loop, SECOND, POSITION);
    for i in 1..=21u64 {
        let mut pe = Vec::new();
        let mut le = Vec::new();
        assert_eq!(p.tick(200_000_000, 0, &mut pe), TweenState::Active);
        l.tick(200_000_000, 0, &mut le);
        let backward = (i / 5) % 2 == 1;
        let expected_dir = if backward { TweeningDirection::Backward } else { TweeningDirection::Forward };
        assert_eq!(p.direction(), expected_dir);
        let pr = lerps(&pe)[0].1;
        let lr = lerps(&le)[0].1;
        if backward {
            assert_eq!(pr, RATIO_ONE - lr);
        } else {
            assert_eq!(pr, lr);
        }
    }
}

#[test]
fn rewind_resets_progress_and_count_but_not_direction() {
    let mut t = tween(TweeningType::PingPong, SECOND, POSITION).with_direction(TweeningDirection::Backward);
    let mut effects = Vec::new();
    t.tick(1_700_000_000, 0, &mut effects);
    assert_eq!(t.times_completed(), 1);
    assert_eq!(t.direction(), TweeningDirection::Forward);
    t.rewind();
    assert_eq!(t.progress(), 0);
    assert_eq!(t.times_completed(), 0);
    assert_eq!(t.direction(), TweeningDirection::Forward);

    let mut seq = two_step_sequence();
    seq.tick(5 * SECOND, 0, &mut effects);
    assert_eq!(seq.times_completed(), 1);
    seq.rewind();
    assert_eq!(seq.progress(), 0);
    assert_eq!(seq.times_completed(), 0);

    let mut tracks = Tweenable::Tracks(Tracks::new(vec![Tweenable::Delay(Delay::new(SECOND))]));
    tracks.tick(5 * SECOND, 0, &mut effects);
    assert_eq!(tracks.times_completed(), 1);
    tracks.rewind();
    assert_eq!(tracks.progress(), 0);
    assert_eq!(tracks.times_completed(), 0);
}

#[test]
fn sequence_of_two_tweens_in_fifth_second_steps() {
    let mut seq = two_step_sequence();
    for i in 1..=12u64 {
        let mut effects = Vec::new();
        let state = seq.tick(200_000_000, 0, &mut effects);
        let l = lerps(&effects);
        if i <= 4 {
            assert_eq!(state, TweenState::Active);
            assert_eq!(l, vec![(POSITION, i * 200_000_000)]);
        } else if i == 5 {
            assert_eq!(state, TweenState::Active);
            assert_eq!(l, vec![(POSITION, RATIO_ONE), (ROTATION, 0)]);
        } else if i <= 9 {
            assert_eq!(state, TweenState::Active);
            assert_eq!(l, vec![(ROTATION, (i - 5) * 200_000_000)]);
        } else if i == 10 {
            assert_eq!(state, TweenState::Completed);
            assert_eq!(l, vec![(ROTATION, RATIO_ONE)]);
        } else {
            assert_eq!(state, TweenState::Completed);
            assert!(l.is_empty());
        }
    }
}

#[test]
fn sequence_large_delta_cascades() {
    let mut seq = two_step_sequence();
    let mut effects = Vec::new();
    assert_eq!(seq.tick(1_300_000_000, 0, &mut effects), TweenState::Active);
    // 0.3 of the rotation: 27 degrees out of 90.
    assert_eq!(lerps(&effects), vec![(POSITION, RATIO_ONE), (ROTATION, 300_000_000)]);
    let mut effects = Vec::new();
    assert_eq!(seq.tick(1_300_000_000, 0, &mut effects), TweenState::Completed);
    assert_eq!(lerps(&effects), vec![(ROTATION, RATIO_ONE)]);
}

#[test]
fn sequence_ten_second_jump_through_three_children() {
    let children: Vec<Tweenable> = [2, 2, 2, 6]
        .iter()
        .enumerate()
        .map(|(k, s)| Tweenable::Tween(tween(TweeningType::Once, s * SECOND, k)))
        .collect();
    let mut seq = Sequence::new(children);
    assert_eq!(seq.duration(), 12 * SECOND);
    let mut effects = Vec::new();
    assert_eq!(seq.tick(10 * SECOND, 0, &mut effects), TweenState::Active);
    assert_eq!(
        lerps(&effects),
        vec![(0, RATIO_ONE), (1, RATIO_ONE), (2, RATIO_ONE), (3, 666_666_666)]
    );
    assert_eq!(seq.index(), 3);
    assert_eq!(seq.progress(), 833_333_333);
}

#[test]
fn sequence_seek_lands_on_first_child_ending_after_target() {
    let secs = [0.2f64, 0.4, 0.6, 0.8, 1.0];
    let durations: Vec<u64> = secs.iter().map(|s| (s * SECOND as f64) as u64).collect();
    let total: u64 = durations.iter().sum();
    let mut seq = Sequence::new(
        durations.iter().map(|d| Tweenable::Tween(tween(TweeningType::Once, *d, POSITION))).collect(),
    );
    for step in 0..=100u64 {
        let ratio = step * RATIO_ONE / 100;
        seq.set_progress(ratio as i64);
        let target = total * step / 100;
        let mut end = 0;
        let mut expected = durations.len() - 1;
        for (k, d) in durations.iter().enumerate() {
            end += d;
            if end > target {
                expected = k;
                break;
            }
        }
        assert_eq!(seq.index(), expected, "ratio {}", ratio);
        assert_eq!(seq.current().duration(), durations[expected]);
    }
}

#[test]
fn tracks_last_as_long_as_longest_and_complete_with_it() {
    let a = tween(TweeningType::Once, SECOND, POSITION);
    let b = tween(TweeningType::Once, 800_000_000, ROTATION);
    let tracks = Tracks::new(vec![Tweenable::Tween(a), Tweenable::Tween(b)]);
    assert_eq!(tracks.duration(), SECOND);
    let mut tracks = Tweenable::Tracks(tracks);
    for i in 1..=6 {
        let mut effects = Vec::new();
        let state = tracks.tick(200_000_000, 0, &mut effects);
        if i < 5 {
            assert_eq!(state, TweenState::Active);
            assert_eq!(tracks.times_completed(), 0);
        } else {
            assert_eq!(state, TweenState::Completed);
            assert_eq!(tracks.times_completed(), 1);
        }
    }
    tracks.set_progress(2 * RATIO_ONE as i64);
    assert_eq!(tracks.progress(), RATIO_ONE);
    tracks.set_progress(-(RATIO_ONE as i64));
    assert_eq!(tracks.progress(), 0);
}

#[test]
fn one_tick_over_several_runs_notifies_each_run() {
    let mut t = tween(TweeningType::Loop, SECOND, POSITION);
    t.set_completed(9);
    t.set_completed_event(true, 77);
    let mut effects = Vec::new();
    assert_eq!(t.tick(3_500_000_000, 5, &mut effects), TweenState::Active);
    assert_eq!(t.times_completed(), 3);
    assert_eq!(t.progress(), 500_000_000);
    let event = Effect::Event(TweenCompleted { entity: 5, user_data: 77 });
    let callback = Effect::Callback { callback: 9, entity: 5, times_completed: 3 };
    assert_eq!(
        effects,
        vec![
            Effect::Lerp { ease: EASE, lens: POSITION, ratio: 500_000_000 },
            event,
            callback,
            event,
            callback,
            event,
            callback,
        ]
    );
}

#[test]
fn loop_times_completes_after_its_count() {
    let mut t = tween(TweeningType::LoopTimes(2), SECOND, POSITION);
    let mut effects = Vec::new();
    assert_eq!(t.tick(1_500_000_000, 0, &mut effects), TweenState::Active);
    assert!(t.is_looping());
    assert_eq!(t.tick(1_000_000_000, 0, &mut effects), TweenState::Completed);
    assert!(!t.is_looping());
    assert_eq!(t.times_completed(), 2);
}

#[test]
fn looping_seek_wraps_modulo_one() {
    let mut t = tween(TweeningType::Loop, SECOND, POSITION);
    t.set_progress(-250_000_000);
    assert_eq!(t.progress(), 750_000_000);
    t.set_progress(2_400_000_000);
    assert_eq!(t.progress(), 400_000_000);
    let mut once = tween(TweeningType::Once, SECOND, POSITION);
    once.set_progress(-250_000_000);
    assert_eq!(once.progress(), 0);
    once.set_progress(2_400_000_000);
    assert_eq!(once.progress(), RATIO_ONE);
}

#[test]
fn speed_change_keeps_progress() {
    let mut t = tween(TweeningType::Once, SECOND, POSITION);
    t.set_progress(500_000_000);
    t.set_speed(2 * RATIO_ONE);
    assert_eq!(t.duration(), 2 * SECOND);
    assert_eq!(t.progress(), 500_000_000);
    let mut effects = Vec::new();
    t.tick(500_000_000, 0, &mut effects);
    assert_eq!(t.progress(), 750_000_000);
    let t = tween(TweeningType::Once, SECOND, POSITION).with_speed(RATIO_ONE / 2);
    assert_eq!(t.duration(), SECOND / 2);
    let mut d = Delay::new(SECOND);
    d.set_speed(0);
    assert_eq!(d.duration(), 1);
}

#[test]
fn zero_tick_reapplies_state_after_seek() {
    let mut t = tween(TweeningType::Once, SECOND, POSITION).with_completed_event(true, 1);
    t.set_progress(300_000_000);
    let mut effects = Vec::new();
    assert_eq!(t.tick(0, 0, &mut effects), TweenState::Active);
    assert_eq!(effects, vec![Effect::Lerp { ease: EASE, lens: POSITION, ratio: 300_000_000 }]);
    t.set_direction(TweeningDirection::Backward);
    let mut effects = Vec::new();
    t.tick(0, 0, &mut effects);
    assert_eq!(effects, vec![Effect::Lerp { ease: EASE, lens: POSITION, ratio: 700_000_000 }]);
}

#[test]
fn delay_then_tween_in_sequence() {
    let d = Delay::new(500_000_000);
    let seq = d.chain(Tweenable::Tween(tween(TweeningType::Once, SECOND, POSITION)));
    assert_eq!(seq.duration(), 1_500_000_000);
    let mut seq = Tweenable::Sequence(seq);
    let mut effects = Vec::new();
    assert_eq!(seq.tick(700_000_000, 0, &mut effects), TweenState::Active);
    assert_eq!(lerps(&effects), vec![(POSITION, 200_000_000)]);
    assert_eq!(seq.progress(), 466_666_666);
}

#[test]
fn nested_sequence_inside_tracks() {
    let inner = Sequence::from_single(Tweenable::Tween(tween(TweeningType::Once, SECOND, POSITION)));
    let inner = Sequence::with_capacity(2)
        .chain(Tweenable::Sequence(inner))
        .chain(Tweenable::Delay(Delay::new(SECOND)));
    let tracks = Tracks::new(vec![
        Tweenable::Sequence(inner),
        Tweenable::Tween(tween(TweeningType::Once, 500_000_000, ROTATION)),
    ]);
    assert_eq!(tracks.duration(), 2 * SECOND);
    let mut tracks = Tweenable::Tracks(tracks);
    let mut effects = Vec::new();
    assert_eq!(tracks.tick(1_500_000_000, 0, &mut effects), TweenState::Active);
    assert_eq!(lerps(&effects), vec![(POSITION, RATIO_ONE), (ROTATION, RATIO_ONE)]);
    let mut effects = Vec::new();
    assert_eq!(tracks.tick(500_000_000, 0, &mut effects), TweenState::Completed);
    assert_eq!(tracks.times_completed(), 1);
}

#[test]
fn sequence_seek_to_ends_rewinds_or_completes() {
    let mut seq = two_step_sequence();
    seq.set_progress(RATIO_ONE as i64);
    assert_eq!(seq.times_completed(), 1);
    assert_eq!(seq.progress(), RATIO_ONE);
    seq.set_progress(-5);
    assert_eq!(seq.times_completed(), 0);
    assert_eq!(seq.progress(), 0);
    // Within the tolerance of a child's end, the child counts as completed.
    seq.set_progress(500_000_001);
    if let Tweenable::Sequence(s) = &seq {
        assert_eq!(s.index(), 1);
    } else {
        unreachable!();
    }
}

#[test]
fn boxing_keeps_the_animation() {
    let t = tween(TweeningType::Once, SECOND, POSITION);
    let mut boxed = IntoBoxDynTweenable::into_box_dyn(t);
    assert!(matches!(boxed, Tweenable::Tween(_)));
    assert_eq!(boxed.duration(), SECOND);
    let mut effects = Vec::new();
    boxed.tick(250_000_000, 0, &mut effects);
    assert_eq!(boxed.progress(), 250_000_000);
    let d = IntoBoxDynTweenable::into_box_dyn(Delay::new(SECOND));
    assert!(matches!(d, Tweenable::Delay(_)));
    let s = IntoBoxDynTweenable::into_box_dyn(Sequence::from_single(d));
    assert_eq!(s.duration(), SECOND);
    let again = IntoBoxDynTweenable::into_box_dyn(s);
    assert!(matches!(again, Tweenable::Sequence(_)));
}
