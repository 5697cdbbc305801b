use timeline::containers::KeyframeStore;
use timeline::interface::TimeLine;
use timeline::samplers::{ConstSampler, LerpSampler, StepSampler};
use timeline::timelines::{LerpBtreeTimeline, Timeline};

fn lerp_line(keys: Vec<(i64, i32)>) -> LerpBtreeTimeline<i32> {
    LerpBtreeTimeline::new(KeyframeStore::from_keyframes(keys))
}

#[test]
fn interpolation() {
    let bmap = lerp_line(vec![(15, 20), (10, 10)]);
    assert_eq!(bmap.get_sample(10), Some(10));
    assert_eq!(bmap.get_sample(15), Some(20));
    assert_eq!(bmap.get_sample(13), Some(16));
}

#[test]
fn extrapolation_future() {
    let bmap = lerp_line(vec![(15, 20), (10, 10)]);
    assert_eq!(bmap.get_sample(10), Some(10));
    assert_eq!(bmap.get_sample(15), Some(20));
    assert_eq!(bmap.get_sample(17), Some(24));
}

#[test]
fn extrapolation_past() {
    let bmap = lerp_line(vec![(15, 20), (10, 10)]);
    assert_eq!(bmap.get_sample(10), Some(10));
    assert_eq!(bmap.get_sample(15), Some(20));
    assert_eq!(bmap.get_sample(7), Some(4));
}

#[test]
fn linear_interpolation_midpoint() {
    let line = lerp_line(vec![(10, 1), (20, 3)]);
    assert_eq!(line.get_sample(15), Some(2));
}

#[test]
fn linear_extrapolation_forward() {
    let line = lerp_line(vec![(10, 1), (15, 2)]);
    assert_eq!(line.get_sample(20), Some(3));
    let single = lerp_line(vec![(10, 1)]);
    assert_eq!(single.get_sample(15), None);
}

#[test]
fn linear_extrapolation_backward() {
    let line = lerp_line(vec![(10, 1), (15, 2)]);
    assert_eq!(line.get_sample(5), Some(0));
    let single = lerp_line(vec![(10, 1)]);
    assert_eq!(single.get_sample(5), None);
}

#[test]
fn linear_exact_at_every_keyframe() {
    let keys = vec![(-7, 100), (0, -3), (4, 9), (13, 13), (50, 0)];
    let line = lerp_line(keys.clone());
    for (t, v) in keys {
        assert_eq!(line.get_sample(t), Some(v));
    }
}

#[test]
fn step_holds_the_previous_keyframe() {
    let step: Timeline<i32, StepSampler> =
        Timeline::new(KeyframeStore::from_keyframes(vec![(10, 1), (20, 2)]));
    assert_eq!(step.get_sample(15), Some(1));
    assert_eq!(step.get_sample(20), Some(1));
    assert_eq!(step.get_sample(21), Some(2));
    assert_eq!(step.get_sample(10), None);
}

#[test]
fn empty_timeline_has_no_value() {
    let step: Timeline<i32, StepSampler> = Timeline::new(KeyframeStore::new());
    let constant: Timeline<i32, ConstSampler> = Timeline::new(KeyframeStore::new());
    let linear: Timeline<i32, LerpSampler> = Timeline::new(KeyframeStore::new());
    for t in [i64::MIN, -1, 0, 1, i64::MAX] {
        assert_eq!(step.get_sample(t), None);
        assert_eq!(constant.get_sample(t), None);
        assert_eq!(linear.get_sample(t), None);
    }
}

#[test]
fn set_and_remove_keys() {
    let mut line = lerp_line(vec![(0, 0), (10, 10)]);
    line.set_key(5, 50);
    assert_eq!(line.get_sample(5), Some(50));
    assert_eq!(line.get_sample(3), Some(30));
    assert_eq!(line.remove_key(5), Some(50));
    assert_eq!(line.remove_key(5), None);
    assert_eq!(line.get_sample(3), Some(3));
}

#[test]
fn smooth_correct_commits() {
    let mut line = lerp_line(vec![(0, 0), (10, 10)]);
    let start = line.get_sample(5);
    assert_eq!(start, Some(5));
    let end = line.smooth_correct((15, 30), (5, 20));
    assert_eq!(end, Some(50));
    assert_eq!(line.get_sample(5), start);
    assert_eq!(line.keyframe(15), Some(30));
    assert_eq!(line.keyframe(20), end);
    assert_eq!(
        line.store().entries(),
        &vec![(0, 0), (5, 5), (10, 10), (15, 30), (20, 50)]
    );
}

#[test]
fn smooth_correct_rolls_back() {
    let mut step: Timeline<i32, StepSampler> =
        Timeline::new(KeyframeStore::from_keyframes(vec![(10, 1), (20, 2)]));
    assert_eq!(step.smooth_correct((8, 7), (15, 2)), None);
    assert_eq!(step.keyframe(8), None);
    assert_eq!(step.store().entries(), &vec![(10, 1), (20, 2)]);

    let mut line = lerp_line(vec![(0, 0), (10, 10)]);
    assert_eq!(line.smooth_correct((11, i32::MAX), (5, 100)), None);
    assert_eq!(line.store().entries(), &vec![(0, 0), (10, 10)]);
}

#[test]
fn smooth_correct_without_start_value_changes_nothing() {
    let mut line = lerp_line(vec![(10, 1)]);
    assert_eq!(line.smooth_correct((12, 5), (11, 20)), None);
    assert_eq!(line.store().entries(), &vec![(10, 1)]);
}
