//! The rolling prediction-accuracy tracker.
//!
//! An `AccuracyTracker` keeps append-only logs of every prediction issued
//! and every symbol scored, and a bounded FIFO window of boolean outcomes
//! (true where a scored symbol matched the prediction current at the time),
//! with right/wrong counters that always sum to the window's length.  The
//! whole outcome sequence is carried as ghost state: the window is always
//! its trailing `capacity` entries.

use crate::seqs::count_trues;
use crate::seqs::last_n;
use crate::seqs::lemma_count_trues_drop_first;
use crate::seqs::lemma_count_trues_le_len;
use crate::seqs::lemma_count_trues_push;
use crate::seqs::lemma_last_n_push;
use std::collections::VecDeque;
use vstd::prelude::*;

verus! {

/// The one precondition-violation error of the tracker: scoring needs at
/// least one recorded prediction.
#[derive(Debug, PartialEq, Eq)]
pub enum ScoreError {
    NoPredictionRecorded,
}

/// The rolling accuracy tracker.
pub struct AccuracyTracker {
    /// Every prediction ever recorded, in order; append-only.
    pub predictions: Vec<u32>,
    /// Every symbol ever scored, in order; append-only.
    pub observations: Vec<u32>,
    /// The trailing outcomes, oldest first; never more than `window_size`.
    pub score_window: VecDeque<bool>,
    /// The trailing window's capacity `W`, fixed at construction.
    pub window_size: usize,
    /// How many entries of `score_window` are true.
    pub right: u64,
    /// How many entries of `score_window` are false.
    pub wrong: u64,
    /// Every outcome ever scored, in order (ghost bookkeeping that the
    /// contracts are stated against).
    pub outcomes: Ghost<Seq<bool>>,
}

impl AccuracyTracker {
    /// The trailing window's capacity.
    pub open spec fn capacity(self) -> nat {
        self.window_size as nat
    }

    /// The current trailing window of outcomes.
    pub open spec fn window_seq(self) -> Seq<bool> {
        self.score_window@
    }

    /// Well-formedness: the window is the trailing `capacity` outcomes, the
    /// counters count exactly its true and false entries, and one outcome
    /// was scored per observation.
    pub open spec fn wf(self) -> bool {
        &&& self.window_size <= u32::MAX as usize
        &&& self.outcomes@.len() == self.observations@.len()
        &&& self.score_window@ == last_n(self.outcomes@, self.window_size as int)
        &&& self.right as nat == count_trues(self.score_window@)
        &&& self.right + self.wrong == self.score_window@.len()
    }

    /// Creates a tracker with trailing window capacity `window_size` and
    /// nothing recorded yet.  (The counters are 32-bit-bounded, so the
    /// capacity must be too.)
    pub fn new(window_size: usize) -> (r: AccuracyTracker)
        requires
            window_size <= u32::MAX as usize,
        ensures
            r.wf(),
            r.capacity() == window_size,
            r.predictions@ == Seq::<u32>::empty(),
            r.observations@ == Seq::<u32>::empty(),
            r.outcomes@ == Seq::<bool>::empty(),
    {
        let r = AccuracyTracker {
            predictions: Vec::new(),
            observations: Vec::new(),
            score_window: VecDeque::new(),
            window_size,
            right: 0,
            wrong: 0,
            outcomes: Ghost(Seq::empty()),
        };
        proof {
            assert(r.score_window@ =~= last_n(r.outcomes@, window_size as int));
            assert(count_trues(r.score_window@) == 0);
        }
        r
    }

    /// Appends `symbol` to the prediction log.  No scoring side effect.
    pub fn record_prediction(&mut self, symbol: u32)
        ensures
            final(self).predictions@ == old(self).predictions@.push(symbol),
            final(self).observations == old(self).observations,
            final(self).score_window == old(self).score_window,
            final(self).window_size == old(self).window_size,
            final(self).right == old(self).right,
            final(self).wrong == old(self).wrong,
            final(self).outcomes == old(self).outcomes,
            old(self).wf() ==> final(self).wf(),
    {
        self.predictions.push(symbol);
    }

    /// The most recently recorded prediction, or none if none was recorded.
    pub fn last_prediction(&self) -> (r: Option<u32>)
        ensures
            r == if self.predictions@.len() == 0 {
                None::<u32>
            } else {
                Some(self.predictions@.last())
            },
    {
        if self.predictions.len() == 0 {
            None
        } else {
            Some(self.predictions[self.predictions.len() - 1])
        }
    }

    /// Scores `symbol` against the most recent prediction: logs it, pushes
    /// the boolean outcome into the trailing window (evicting the oldest
    /// outcome and its counter's share once the window would exceed its
    /// capacity), and returns whether it matched.  Scoring before any
    /// prediction was recorded is a precondition-violation error and
    /// changes nothing.
    pub fn score_observation(&mut self, symbol: u32) -> (r: Result<bool, ScoreError>)
        requires
            old(self).wf(),
        ensures
            final(self).wf(),
            old(self).predictions@.len() == 0 ==> r == Err::<bool, ScoreError>(
                ScoreError::NoPredictionRecorded,
            ) && *final(self) == *old(self),
            old(self).predictions@.len() > 0 ==> {
                let matched = symbol == old(self).predictions@.last();
                &&& r == Ok::<bool, ScoreError>(matched)
                &&& final(self).observations@ == old(self).observations@.push(symbol)
                &&& final(self).outcomes@ == old(self).outcomes@.push(matched)
                &&& final(self).predictions == old(self).predictions
                &&& final(self).window_size == old(self).window_size
            },
    {
        if self.predictions.len() == 0 {
            return Err(ScoreError::NoPredictionRecorded);
        }
        let guess = self.predictions[self.predictions.len() - 1];
        let matched = symbol == guess;
        self.observations.push(symbol);
        proof {
            lemma_last_n_push(self.outcomes@, matched, self.window_size as int);
            lemma_count_trues_push(self.score_window@, matched);
            lemma_count_trues_le_len(self.score_window@);
        }
        self.outcomes = Ghost(self.outcomes@.push(matched));
        self.score_window.push_back(matched);
        if matched {
            self.right = self.right + 1;
        } else {
            self.wrong = self.wrong + 1;
        }
        if self.score_window.len() > self.window_size {
            proof {
                lemma_count_trues_drop_first(self.score_window@);
                lemma_count_trues_le_len(self.score_window@.drop_first());
            }
            let evicted = self.score_window.pop_front();
            match evicted {
                Some(b) => {
                    if b {
                        self.right = self.right - 1;
                    } else {
                        self.wrong = self.wrong - 1;
                    }
                },
                None => {},
            }
        }
        Ok(matched)
    }

    /// The accuracy over the trailing window, as the exact fraction
    /// `(numerator, denominator)`: `(0, 1)` while nothing was scored yet,
    /// and `(100 · right, right + wrong)` otherwise.  Its value is always
    /// in `[0, 100]`, and exactly 0 when no scores are recorded.
    pub fn percentage(&self) -> (r: (u64, u64))
        requires
            self.wf(),
        ensures
            r.1 >= 1,
            r.0 <= 100 * r.1,
            self.window_seq().len() == 0 ==> r == (0u64, 1u64),
            self.window_seq().len() > 0 ==> r.0 as nat == 100 * count_trues(self.window_seq())
                && r.1 as nat == self.window_seq().len(),
    {
        proof {
            lemma_count_trues_le_len(self.score_window@);
        }
        let total = self.right + self.wrong;
        if total == 0 {
            (0, 1)
        } else {
            (100 * self.right, total)
        }
    }

    /// How many predictions were recorded so far.
    pub fn prediction_count(&self) -> (r: usize)
        ensures
            r == self.predictions@.len(),
    {
        self.predictions.len()
    }

    /// How many true outcomes the trailing window currently holds.
    pub fn right_count(&self) -> (r: u64)
        ensures
            r == self.right,
    {
        self.right
    }

    /// How many false outcomes the trailing window currently holds.
    pub fn wrong_count(&self) -> (r: u64)
        ensures
            r == self.wrong,
    {
        self.wrong
    }

    /// How many outcomes the trailing window currently holds.
    pub fn score_window_len(&self) -> (r: usize)
        ensures
            r == self.window_seq().len(),
    {
        self.score_window.len()
    }
}

/// Window bound: a well-formed tracker's score window never holds more than
/// `capacity` outcomes.
pub proof fn lemma_score_window_bound(t: AccuracyTracker)
    requires
        t.wf(),
    ensures
        t.window_seq().len() <= t.capacity(),
{
}

/// Counter consistency: in a well-formed tracker the right and wrong
/// counters always sum to the score window's length.
pub proof fn lemma_counter_consistency(t: AccuracyTracker)
    requires
        t.wf(),
    ensures
        t.right as nat + t.wrong as nat == t.window_seq().len(),
{
}

/// Percentage formula over the whole run: of the outcomes scored so far the
/// window retains exactly the trailing `capacity` (all of them while fewer),
/// and the counters count exactly those — so with `k` scored outcomes the
/// reported fraction is `100 · r / min(k, W)` with `r` the number of matches
/// among the trailing `min(k, W)`.
pub proof fn lemma_percentage_formula(t: AccuracyTracker)
    requires
        t.wf(),
    ensures
        t.window_seq() == last_n(t.outcomes@, t.window_size as int),
        t.right as nat == count_trues(last_n(t.outcomes@, t.window_size as int)),
        t.right as nat + t.wrong as nat == last_n(t.outcomes@, t.window_size as int).len(),
        t.window_seq().len() == if t.outcomes@.len() <= t.capacity() {
            t.outcomes@.len()
        } else {
            t.capacity()
        },
{
}

} // verus!
