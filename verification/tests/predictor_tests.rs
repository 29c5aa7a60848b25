use keypredict::predictor::PredictError;
use keypredict::predictor::SequencePredictor;

#[test]
fn ngram_counts_accumulate_over_repeats() {
    // Order 3 over the sequence A B A B A B with A = 65, B = 66.
    let a = 65u32;
    let b = 66u32;
    let mut p = SequencePredictor::new(3);
    for &s in &[a, b, a, b, a, b] {
        p.observe(s);
    }
    assert_eq!(p.ngram_count(&vec![a, b, a]), 2);
    assert_eq!(p.ngram_count(&vec![b, a, b]), 2);
    assert_eq!(p.ngram_count(&vec![a, b, b]), 0);
    assert_eq!(p.ngram_count(&vec![a, b]), 0);
}

#[test]
fn predict_prefers_most_frequent_continuation() {
    // After A B A B A B the window is [B, A, B] and the context [A, B];
    // extending it by A hits the key A B A (count 2), by B the unseen A B B.
    let a = 65u32;
    let b = 66u32;
    let mut p = SequencePredictor::new(3);
    for &s in &[a, b, a, b, a, b] {
        p.observe(s);
    }
    assert_eq!(p.predict(&vec![a, b]), Ok(a));
    assert_eq!(p.predict(&vec![b, a]), Ok(a));
}

#[test]
fn predict_empty_candidates_is_invalid_argument() {
    let p = SequencePredictor::new(3);
    assert_eq!(p.predict(&vec![]), Err(PredictError::EmptyCandidates));
}

#[test]
fn cold_start_returns_first_candidate() {
    let p = SequencePredictor::new(3);
    assert_eq!(p.predict(&vec![7, 5]), Ok(7));
    assert_eq!(p.predict(&vec![5, 7]), Ok(5));
}

#[test]
fn equal_nonzero_counts_break_ties_towards_the_earliest() {
    // After 1 2 1 4 1 the context is [1]; both 1 2 and 1 4 were seen once.
    let mut p = SequencePredictor::new(2);
    for &s in &[1u32, 2, 1, 4, 1] {
        p.observe(s);
    }
    assert_eq!(p.ngram_count(&vec![1, 2]), 1);
    assert_eq!(p.ngram_count(&vec![1, 4]), 1);
    assert_eq!(p.predict(&vec![2, 4]), Ok(2));
    assert_eq!(p.predict(&vec![4, 2]), Ok(4));
}

#[test]
fn predict_does_not_mutate_state() {
    let mut p = SequencePredictor::new(2);
    p.observe(1);
    p.observe(2);
    let count_before = p.ngram_count(&vec![1, 2]);
    let last_before = p.last();
    let window_before = p.window_len();
    let first = p.predict(&vec![1, 2]);
    let second = p.predict(&vec![1, 2]);
    assert_eq!(first, second);
    assert_eq!(p.ngram_count(&vec![1, 2]), count_before);
    assert_eq!(p.last(), last_before);
    assert_eq!(p.window_len(), window_before);
}

#[test]
fn window_never_exceeds_order() {
    let mut p = SequencePredictor::new(4);
    assert_eq!(p.order(), 4);
    for i in 0..50u32 {
        p.observe(i);
        assert!(p.window_len() <= 4);
    }
    assert_eq!(p.window_len(), 4);
}

#[test]
fn last_reports_most_recent_symbol() {
    let mut p = SequencePredictor::new(3);
    assert_eq!(p.last(), None);
    p.observe(9);
    assert_eq!(p.last(), Some(9));
    p.observe(4);
    assert_eq!(p.last(), Some(4));
}

#[test]
fn keys_are_symbol_sequences_not_digit_strings() {
    // 1,23 and 12,3 are distinct keys even though their digits read alike.
    let mut p = SequencePredictor::new(2);
    p.observe(1);
    p.observe(23);
    assert_eq!(p.ngram_count(&vec![1, 23]), 1);
    assert_eq!(p.ngram_count(&vec![12, 3]), 0);
}

#[test]
fn partial_window_records_no_counts() {
    let mut p = SequencePredictor::new(3);
    p.observe(1);
    p.observe(2);
    assert_eq!(p.window_len(), 2);
    assert_eq!(p.ngram_count(&vec![1, 2]), 0);
    assert_eq!(p.ngram_count(&vec![1, 2, 3]), 0);
}
