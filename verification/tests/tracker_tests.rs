use keypredict::tracker::AccuracyTracker;
use keypredict::tracker::ScoreError;

#[test]
fn scoring_scenario_with_eviction() {
    let mut t = AccuracyTracker::new(2);
    t.record_prediction(65);
    assert_eq!(t.score_observation(65), Ok(true));
    assert_eq!(t.right_count(), 1);
    t.record_prediction(66);
    assert_eq!(t.score_observation(65), Ok(false));
    assert_eq!(t.right_count(), 1);
    assert_eq!(t.wrong_count(), 1);
    assert_eq!(t.percentage(), (100, 2));
    t.record_prediction(65);
    assert_eq!(t.score_observation(65), Ok(true));
    // Three outcomes so far; the window kept the trailing two and evicted
    // the oldest (a true one), so the counters stay consistent.
    assert_eq!(t.score_window_len(), 2);
    assert_eq!(t.right_count(), 1);
    assert_eq!(t.wrong_count(), 1);
}

#[test]
fn scoring_before_any_prediction_fails() {
    let mut t = AccuracyTracker::new(2);
    assert_eq!(t.score_observation(65), Err(ScoreError::NoPredictionRecorded));
    assert_eq!(t.score_window_len(), 0);
    assert_eq!(t.right_count(), 0);
    assert_eq!(t.wrong_count(), 0);
    assert_eq!(t.percentage(), (0, 1));
}

#[test]
fn percentage_is_zero_before_any_score() {
    let t = AccuracyTracker::new(100);
    assert_eq!(t.percentage(), (0, 1));
}

#[test]
fn percentage_is_the_exact_fraction() {
    let mut t = AccuracyTracker::new(100);
    t.record_prediction(1);
    assert_eq!(t.score_observation(1), Ok(true));
    t.record_prediction(1);
    assert_eq!(t.score_observation(2), Ok(false));
    t.record_prediction(3);
    assert_eq!(t.score_observation(3), Ok(true));
    // Two right out of three: exactly 100 * 2 / 3.
    assert_eq!(t.percentage(), (200, 3));
}

#[test]
fn window_bound_and_counter_consistency() {
    let mut t = AccuracyTracker::new(3);
    for i in 0..20u32 {
        t.record_prediction(i % 2);
        t.score_observation(i % 3).unwrap();
        assert!(t.score_window_len() <= 3);
        assert_eq!(t.right_count() + t.wrong_count(), t.score_window_len() as u64);
    }
    assert_eq!(t.score_window_len(), 3);
}

#[test]
fn zero_capacity_window_stays_empty() {
    let mut t = AccuracyTracker::new(0);
    t.record_prediction(1);
    assert_eq!(t.score_observation(1), Ok(true));
    assert_eq!(t.score_window_len(), 0);
    assert_eq!(t.right_count(), 0);
    assert_eq!(t.percentage(), (0, 1));
}

#[test]
fn last_prediction_reports_most_recent() {
    let mut t = AccuracyTracker::new(10);
    assert_eq!(t.last_prediction(), None);
    t.record_prediction(68);
    assert_eq!(t.last_prediction(), Some(68));
    t.record_prediction(70);
    assert_eq!(t.last_prediction(), Some(70));
}
