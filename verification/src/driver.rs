//! The per-symbol step that ties the two components together.
//!
//! An external event source delivers one symbol at a time; for each, the
//! step scores it against the previous prediction (when one exists), feeds
//! it to the model, and records the next prediction — exactly the bookkeeping
//! an event handler owning both components must do.

use crate::predictor::is_best_prediction;
use crate::predictor::PredictError;
use crate::predictor::SequencePredictor;
use crate::tracker::AccuracyTracker;
use vstd::prelude::*;

verus! {

/// Applies one inbound symbol.  When `key` belongs to `alphabet`, it is
/// scored against the most recent prediction (skipped when none exists yet)
/// and then observed by the model; either way the model's next prediction
/// over `alphabet` is recorded.  Returns whether the scored symbol matched
/// the prediction, or `None` when nothing was scored; an empty alphabet is
/// an invalid-argument error and changes nothing.
pub fn process_key(
    predictor: &mut SequencePredictor,
    tracker: &mut AccuracyTracker,
    alphabet: &Vec<u32>,
    key: u32,
) -> (r: Result<Option<bool>, PredictError>)
    requires
        old(predictor).wf(),
        old(tracker).wf(),
        old(predictor).observed().len() < u64::MAX,
    ensures
        final(predictor).wf(),
        final(tracker).wf(),
        final(predictor).n() == old(predictor).n(),
        final(tracker).window_size == old(tracker).window_size,
        alphabet@.len() == 0 ==> r == Err::<Option<bool>, PredictError>(
            PredictError::EmptyCandidates,
        ) && *final(predictor) == *old(predictor) && *final(tracker) == *old(tracker),
        alphabet@.len() > 0 ==> {
            let scored = alphabet@.contains(key) && old(tracker).predictions@.len() > 0;
            let matched = key == old(tracker).predictions@.last();
            &&& r == Ok::<Option<bool>, PredictError>(
                if scored {
                    Some(matched)
                } else {
                    None
                },
            )
            &&& final(predictor).observed() == if alphabet@.contains(key) {
                old(predictor).observed().push(key)
            } else {
                old(predictor).observed()
            }
            &&& final(tracker).observations@ == if scored {
                old(tracker).observations@.push(key)
            } else {
                old(tracker).observations@
            }
            &&& final(tracker).outcomes@ == if scored {
                old(tracker).outcomes@.push(matched)
            } else {
                old(tracker).outcomes@
            }
            &&& final(tracker).predictions@.len() == old(tracker).predictions@.len() + 1
            &&& final(tracker).predictions@.drop_last() == old(tracker).predictions@
            &&& is_best_prediction(
                *final(predictor),
                alphabet@,
                final(tracker).predictions@.last(),
            )
        },
{
    if alphabet.len() == 0 {
        return Err(PredictError::EmptyCandidates);
    }
    let mut outcome: Option<bool> = None;
    if contains_symbol(alphabet, key) {
        if tracker.prediction_count() > 0 {
            let matched = tracker.score_observation(key).unwrap();
            outcome = Some(matched);
        }
        predictor.observe(key);
    }
    let guess = match predictor.predict(alphabet) {
        Ok(g) => g,
        Err(e) => {
            return Err(e);
        },
    };
    tracker.record_prediction(guess);
    proof {
        assert(tracker.predictions@.drop_last() =~= old(tracker).predictions@);
    }
    Ok(outcome)
}

/// Whether `symbol` is one of the allowed alphabet.
fn contains_symbol(alphabet: &Vec<u32>, symbol: u32) -> (r: bool)
    ensures
        r == alphabet@.contains(symbol),
{
    let mut i: usize = 0;
    while i < alphabet.len()
        invariant
            i <= alphabet@.len(),
            forall|j: int| 0 <= j < i ==> alphabet@[j] != symbol,
        decreases alphabet@.len() - i,
    {
        if alphabet[i] == symbol {
            return true;
        }
        i = i + 1;
    }
    false
}

} // verus!
