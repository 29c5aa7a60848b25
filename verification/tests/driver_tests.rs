use keypredict::driver::process_key;
use keypredict::predictor::PredictError;
use keypredict::predictor::SequencePredictor;
use keypredict::tracker::AccuracyTracker;

#[test]
fn empty_alphabet_is_invalid_argument() {
    let mut p = SequencePredictor::new(5);
    let mut t = AccuracyTracker::new(100);
    assert_eq!(
        process_key(&mut p, &mut t, &vec![], 68),
        Err(PredictError::EmptyCandidates)
    );
    assert_eq!(t.prediction_count(), 0);
    assert_eq!(p.last(), None);
}

#[test]
fn first_key_records_a_prediction_without_scoring() {
    let alphabet = vec![68u32, 70];
    let mut p = SequencePredictor::new(5);
    let mut t = AccuracyTracker::new(100);
    assert_eq!(process_key(&mut p, &mut t, &alphabet, 68), Ok(None));
    assert_eq!(t.prediction_count(), 1);
    assert_eq!(p.last(), Some(68));
    // The second key is scored against that recorded prediction.
    let guess = t.last_prediction().unwrap();
    assert_eq!(
        process_key(&mut p, &mut t, &alphabet, 68),
        Ok(Some(guess == 68))
    );
    assert_eq!(t.prediction_count(), 2);
    assert_eq!(t.score_window_len(), 1);
}

#[test]
fn keys_outside_the_alphabet_are_not_observed() {
    let alphabet = vec![68u32, 70];
    let mut p = SequencePredictor::new(5);
    let mut t = AccuracyTracker::new(100);
    assert_eq!(process_key(&mut p, &mut t, &alphabet, 99), Ok(None));
    assert_eq!(p.last(), None);
    assert_eq!(t.score_window_len(), 0);
    // A fresh prediction is still recorded, as on every delivered event.
    assert_eq!(t.prediction_count(), 1);
}

#[test]
fn alternating_pattern_is_learned() {
    // Feed a strict alternation; with order 2 the context is the previous
    // symbol, so after one full period every prediction is right.  Of the
    // 39 scored keys exactly the first is wrong.
    let alphabet = vec![68u32, 70];
    let mut p = SequencePredictor::new(2);
    let mut t = AccuracyTracker::new(100);
    for i in 0..40u32 {
        let key = if i % 2 == 0 { 68 } else { 70 };
        process_key(&mut p, &mut t, &alphabet, key).unwrap();
    }
    assert_eq!(t.right_count(), 38);
    assert_eq!(t.wrong_count(), 1);
    assert_eq!(t.percentage(), (3800, 39));
}
