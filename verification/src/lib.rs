//! An online next-symbol prediction core.
//!
//! Two independent components, both driven one symbol at a time by a caller
//! that owns them:
//!
//! - [`predictor::SequencePredictor`] keeps a fixed-capacity sliding window of
//!   the most recently observed symbols together with occurrence counts of
//!   every complete window (an n-gram) seen so far, and proposes, from a
//!   caller-supplied candidate list, the symbol whose hypothetical
//!   continuation matches the most frequent historical n-gram.
//! - [`tracker::AccuracyTracker`] scores each prediction against the next
//!   observed symbol, keeping right/wrong counts over a bounded trailing
//!   window of outcomes and reporting a live accuracy fraction.
//!
//! [`driver::process_key`] combines the two: it applies one inbound symbol to
//! both components in the documented order and records the next prediction.

pub mod driver;
pub mod predictor;
pub mod seqs;
pub mod tracker;
