//! The sliding-window n-gram model.
//!
//! A `SequencePredictor` holds the last `n` observed symbols and an
//! occurrence count for every complete length-`n` window it has seen.  Its
//! contracts are stated against the whole observed symbol sequence, carried
//! as ghost state: the window is always the trailing `n` symbols of that
//! sequence, and each count equals the number of occurrences of its key as a
//! contiguous block of it.

use crate::seqs::last_n;
use crate::seqs::lemma_last_n_push;
use std::collections::VecDeque;
use vstd::prelude::*;

verus! {

/// The one invalid-argument error of the model: `predict` needs at least one
/// candidate.
#[derive(Debug, PartialEq, Eq)]
pub enum PredictError {
    EmptyCandidates,
}

/// How often `key` occurs as a contiguous block of `s` (at any position).
pub open spec fn occurrences(s: Seq<u32>, key: Seq<u32>) -> nat
    decreases s.len(),
{
    if key.len() == 0 || s.len() < key.len() {
        0
    } else {
        occurrences(s.drop_last(), key) + if last_n(s, key.len() as int) == key {
            1nat
        } else {
            0
        }
    }
}

/// Appending a symbol adds exactly the one block that ends at it.
proof fn lemma_occurrences_push(s: Seq<u32>, x: u32, key: Seq<u32>)
    requires
        key.len() >= 1,
    ensures
        occurrences(s.push(x), key) == occurrences(s, key) + if s.push(x).len() >= key.len()
            && last_n(s.push(x), key.len() as int) == key {
            1nat
        } else {
            0
        },
{
    assert(s.push(x).drop_last() =~= s);
}

proof fn lemma_occurrences_le_len(s: Seq<u32>, key: Seq<u32>)
    ensures
        occurrences(s, key) <= s.len(),
    decreases s.len(),
{
    if !(key.len() == 0 || s.len() < key.len()) {
        lemma_occurrences_le_len(s.drop_last(), key);
    }
}

/// The count that an association list of `(key, count)` entries records for
/// `key`: the count of the entry holding it, or zero when no entry does.
/// (Scanned from the back; the entries of a well-formed predictor have
/// pairwise distinct keys, so the direction does not matter.)
pub open spec fn assoc_count(entries: Seq<(Vec<u32>, u64)>, key: Seq<u32>) -> nat
    decreases entries.len(),
{
    if entries.len() == 0 {
        0
    } else if entries.last().0@ == key {
        entries.last().1 as nat
    } else {
        assoc_count(entries.drop_last(), key)
    }
}

proof fn lemma_assoc_count_absent(entries: Seq<(Vec<u32>, u64)>, key: Seq<u32>)
    requires
        forall|i: int| 0 <= i < entries.len() ==> (#[trigger] entries[i]).0@ != key,
    ensures
        assoc_count(entries, key) == 0,
    decreases entries.len(),
{
    if entries.len() > 0 {
        lemma_assoc_count_absent(entries.drop_last(), key);
    }
}

/// With pairwise distinct keys, the entry holding a key decides its count.
proof fn lemma_assoc_count_at(entries: Seq<(Vec<u32>, u64)>, i: int)
    requires
        0 <= i < entries.len(),
        forall|j: int| 0 <= j < entries.len() && j != i ==> (#[trigger] entries[j]).0@
            != entries[i].0@,
    ensures
        assoc_count(entries, entries[i].0@) == entries[i].1 as nat,
    decreases entries.len(),
{
    if i < entries.len() - 1 {
        assert(entries.last().0@ != entries[i].0@);
        lemma_assoc_count_at(entries.drop_last(), i);
    }
}

/// Replacing entry `i` by one with the same key changes that key's count to
/// the new entry's and no other key's count at all.
proof fn lemma_assoc_count_update(entries: Seq<(Vec<u32>, u64)>, i: int, e: (Vec<u32>, u64), key: Seq<u32>)
    requires
        0 <= i < entries.len(),
        e.0@ == entries[i].0@,
        forall|j: int| 0 <= j < entries.len() && j != i ==> (#[trigger] entries[j]).0@
            != entries[i].0@,
    ensures
        assoc_count(entries.update(i, e), key) == if key == entries[i].0@ {
            e.1 as nat
        } else {
            assoc_count(entries, key)
        },
    decreases entries.len(),
{
    let u = entries.update(i, e);
    if i == entries.len() - 1 {
        assert(u.last() == e);
        if key != entries[i].0@ {
            assert(u.drop_last() =~= entries.drop_last());
        }
    } else {
        assert(u.last() == entries.last());
        assert(u.drop_last() =~= entries.drop_last().update(i, e));
        lemma_assoc_count_update(entries.drop_last(), i, e, key);
        if key == entries[i].0@ {
            assert(entries.last().0@ != entries[i].0@);
        }
    }
}

/// The sliding-window n-gram model.
pub struct SequencePredictor {
    /// The most recent symbols, oldest first; never more than `ngram_size`.
    pub window: VecDeque<u32>,
    /// The n-gram order `n`, fixed at construction; at least 1.
    pub ngram_size: usize,
    /// One `(key, count)` entry per distinct complete window observed so
    /// far; keys are pairwise distinct, each of length `n`, each count at
    /// least 1.  Grows monotonically, never evicted.
    pub counts: Vec<(Vec<u32>, u64)>,
    /// Every symbol ever observed, in order (ghost bookkeeping that the
    /// contracts are stated against).
    pub history: Ghost<Seq<u32>>,
}

impl SequencePredictor {
    /// The n-gram order.
    pub open spec fn n(self) -> nat {
        self.ngram_size as nat
    }

    /// The whole observed symbol sequence.
    pub open spec fn observed(self) -> Seq<u32> {
        self.history@
    }

    /// The current sliding window.
    pub open spec fn window_seq(self) -> Seq<u32> {
        self.window@
    }

    /// The recorded count of an n-gram key.
    pub open spec fn count_of(self, key: Seq<u32>) -> nat {
        assoc_count(self.counts@, key)
    }

    /// The prediction context: the last `n - 1` symbols of the window (all
    /// of it while it is still shorter than that).
    pub open spec fn context(self) -> Seq<u32> {
        last_n(self.window@, self.n() as int - 1)
    }

    /// The count a candidate continuation would be scored with: how often
    /// the context extended by `c` has occurred as a complete window.
    pub open spec fn hyp_count(self, c: u32) -> nat {
        self.count_of(self.context().push(c))
    }

    /// Well-formedness: the window is the trailing `n` symbols of the
    /// observed sequence, and the counts record exactly the occurrences of
    /// every length-`n` block of it.
    pub open spec fn wf(self) -> bool {
        &&& self.ngram_size >= 1
        &&& self.window@ == last_n(self.history@, self.ngram_size as int)
        &&& forall|i: int|
            0 <= i < self.counts@.len() ==> (#[trigger] self.counts@[i]).0@.len() == self.n()
                && self.counts@[i].1 >= 1
        &&& forall|i: int, j: int|
            0 <= i < self.counts@.len() && 0 <= j < self.counts@.len() && i != j ==> (
            #[trigger] self.counts@[i]).0@ != (#[trigger] self.counts@[j]).0@
        &&& forall|key: Seq<u32>|
            #[trigger] assoc_count(self.counts@, key) == if key.len() == self.n() {
                occurrences(self.history@, key)
            } else {
                0
            }
    }

    /// Creates a predictor of order `ngram_size` with nothing observed yet.
    pub fn new(ngram_size: usize) -> (r: SequencePredictor)
        requires
            ngram_size >= 1,
        ensures
            r.wf(),
            r.n() == ngram_size,
            r.observed() == Seq::<u32>::empty(),
    {
        let r = SequencePredictor {
            window: VecDeque::new(),
            ngram_size,
            counts: Vec::new(),
            history: Ghost(Seq::empty()),
        };
        proof {
            assert(r.window@ =~= last_n(r.history@, ngram_size as int));
            assert forall|key: Seq<u32>| #[trigger] assoc_count(r.counts@, key) == if key.len()
                == r.n() {
                occurrences(r.history@, key)
            } else {
                0
            } by {
                assert(assoc_count(r.counts@, key) == 0);
                assert(occurrences(r.history@, key) == 0);
            }
        }
        r
    }

    /// The current window as a plain vector (the n-gram key once full).
    fn window_to_vec(&self) -> (key: Vec<u32>)
        ensures
            key@ == self.window@,
    {
        let mut key: Vec<u32> = Vec::new();
        let mut i: usize = 0;
        while i < self.window.len()
            invariant
                i <= self.window@.len(),
                key@ == self.window@.subrange(0, i as int),
            decreases self.window@.len() - i,
        {
            key.push(self.window[i]);
            i = i + 1;
            proof {
                assert(key@ =~= self.window@.subrange(0, i as int));
            }
        }
        proof {
            assert(key@ =~= self.window@);
        }
        key
    }

    /// Increments the count recorded for `key`, creating the entry with
    /// count 1 when it is absent.
    fn bump(&mut self, key: Vec<u32>)
        requires
            forall|i: int|
                0 <= i < old(self).counts@.len() ==> (#[trigger] old(self).counts@[i]).0@.len()
                    == old(self).n() && old(self).counts@[i].1 >= 1,
            forall|i: int, j: int|
                0 <= i < old(self).counts@.len() && 0 <= j < old(self).counts@.len() && i != j
                    ==> (#[trigger] old(self).counts@[i]).0@ != (#[trigger] old(self).counts@[j]).0@,
            key@.len() == old(self).n(),
            assoc_count(old(self).counts@, key@) < u64::MAX,
        ensures
            forall|k: Seq<u32>|
                #[trigger] assoc_count(final(self).counts@, k) == assoc_count(
                    old(self).counts@,
                    k,
                ) + if k == key@ {
                    1nat
                } else {
                    0
                },
            forall|i: int|
                0 <= i < final(self).counts@.len() ==> (#[trigger] final(self).counts@[i]).0@.len()
                    == old(self).n() && final(self).counts@[i].1 >= 1,
            forall|i: int, j: int|
                0 <= i < final(self).counts@.len() && 0 <= j < final(self).counts@.len() && i != j
                    ==> (#[trigger] final(self).counts@[i]).0@ != (#[trigger] final(self).counts@[j]).0@,
            final(self).window == old(self).window,
            final(self).ngram_size == old(self).ngram_size,
            final(self).history == old(self).history,
    {
        let ghost entries = self.counts@;
        match find_key(&self.counts, &key) {
            Some(i) => {
                proof {
                    lemma_assoc_count_at(entries, i as int);
                }
                let c = self.counts[i].1;
                let e = (key, c + 1);
                proof {
                    assert forall|k: Seq<u32>|
                        #[trigger] assoc_count(entries.update(i as int, e), k) == assoc_count(
                            entries,
                            k,
                        ) + if k == entries[i as int].0@ {
                            1nat
                        } else {
                            0
                        } by {
                        lemma_assoc_count_update(entries, i as int, e, k);
                        if k == entries[i as int].0@ {
                            lemma_assoc_count_at(entries, i as int);
                        }
                    }
                }
                self.counts[i] = e;
            },
            None => {
                proof {
                    lemma_assoc_count_absent(entries, key@);
                }
                self.counts.push((key, 1));
                proof {
                    let pushed = self.counts@;
                    assert forall|k: Seq<u32>| #[trigger] assoc_count(pushed, k) == assoc_count(
                        entries,
                        k,
                    ) + if k == key@ {
                        1nat
                    } else {
                        0
                    } by {
                        assert(pushed.last().0@ == key@);
                        assert(pushed.drop_last() =~= entries);
                    }
                }
            },
        }
    }

    /// Appends `symbol` to the window, evicting the oldest symbol once the
    /// window would exceed `n`; whenever the window is then complete, counts
    /// it as one more occurrence of that n-gram.  Never fails.
    pub fn observe(&mut self, symbol: u32)
        requires
            old(self).wf(),
            old(self).observed().len() < u64::MAX,
        ensures
            final(self).wf(),
            final(self).n() == old(self).n(),
            final(self).observed() == old(self).observed().push(symbol),
            final(self).window_seq() == last_n(final(self).observed(), old(self).n() as int),
            final(self).window_seq().len() <= old(self).n(),
    {
        let ghost pre = *self;
        proof {
            lemma_last_n_push(self.history@, symbol, self.ngram_size as int);
        }
        self.history = Ghost(self.history@.push(symbol));
        self.window.push_back(symbol);
        if self.window.len() > self.ngram_size {
            self.window.pop_front();
        }
        proof {
            assert(self.window@ =~= last_n(self.history@, self.ngram_size as int));
        }
        if self.window.len() == self.ngram_size {
            let key = self.window_to_vec();
            proof {
                lemma_occurrences_le_len(pre.history@, key@);
                assert(assoc_count(self.counts@, key@) < u64::MAX);
            }
            let ghost mid = *self;
            self.bump(key);
            proof {
                assert forall|k: Seq<u32>| #[trigger] assoc_count(self.counts@, k) == if k.len()
                    == self.n() {
                    occurrences(self.history@, k)
                } else {
                    0
                } by {
                    if k.len() == self.n() {
                        lemma_occurrences_push(pre.history@, symbol, k);
                        assert(last_n(self.history@, k.len() as int) == mid.window@);
                    }
                }
            }
        } else {
            proof {
                assert forall|k: Seq<u32>| #[trigger] assoc_count(self.counts@, k) == if k.len()
                    == self.n() {
                    occurrences(self.history@, k)
                } else {
                    0
                } by {
                    if k.len() == self.n() {
                        lemma_occurrences_push(pre.history@, symbol, k);
                        assert(self.history@.len() < k.len());
                    }
                }
            }
        }
    }

    /// The recorded count currently associated with `key`.
    fn lookup(&self, key: &Vec<u32>) -> (r: u64)
        ensures
            r as nat == assoc_count(self.counts@, key@),
    {
        let mut i: usize = self.counts.len();
        proof {
            assert(self.counts@.subrange(0, i as int) =~= self.counts@);
        }
        while i > 0
            invariant
                i <= self.counts@.len(),
                assoc_count(self.counts@, key@) == assoc_count(
                    self.counts@.subrange(0, i as int),
                    key@,
                ),
            decreases i,
        {
            i = i - 1;
            let ghost pre = self.counts@.subrange(0, i as int + 1);
            if keys_equal(&self.counts[i].0, key) {
                proof {
                    assert(pre.last() == self.counts@[i as int]);
                }
                return self.counts[i].1;
            }
            proof {
                assert(pre.last() == self.counts@[i as int]);
                assert(pre.drop_last() =~= self.counts@.subrange(0, i as int));
            }
        }
        proof {
            assert(self.counts@.subrange(0, 0) =~= Seq::<(Vec<u32>, u64)>::empty());
        }
        0
    }

    /// The context extended by candidate `c`: the key its score is read at.
    fn hyp_key(&self, c: u32) -> (key: Vec<u32>)
        requires
            self.ngram_size >= 1,
        ensures
            key@ == self.context().push(c),
    {
        let mut key: Vec<u32> = Vec::new();
        let start: usize = if self.window.len() > self.ngram_size - 1 {
            self.window.len() - (self.ngram_size - 1)
        } else {
            0
        };
        let mut i: usize = start;
        while i < self.window.len()
            invariant
                start <= i <= self.window@.len(),
                key@ == self.window@.subrange(start as int, i as int),
            decreases self.window@.len() - i,
        {
            key.push(self.window[i]);
            i = i + 1;
            proof {
                assert(key@ =~= self.window@.subrange(start as int, i as int));
            }
        }
        proof {
            assert(key@ =~= self.context());
        }
        key.push(c);
        key
    }

    /// Proposes the candidate whose hypothetical continuation — the current
    /// context followed by that candidate — has been observed most often as
    /// a complete window.  Deterministic tie-break policy: the earliest
    /// candidate (in the order given) among those with the maximal count
    /// wins; in particular, when no candidate has a recorded count, the
    /// first candidate is returned.  An empty candidate list is an
    /// invalid-argument error.
    ///
    /// Takes `&self`: prediction reads, and never changes, the window and
    /// the counts.
    pub fn predict(&self, candidates: &Vec<u32>) -> (r: Result<u32, PredictError>)
        requires
            self.wf(),
        ensures
            candidates@.len() == 0 <==> r == Err::<u32, PredictError>(
                PredictError::EmptyCandidates,
            ),
            r matches Ok(g) ==> is_best_prediction(*self, candidates@, g),
    {
        if candidates.len() == 0 {
            return Err(PredictError::EmptyCandidates);
        }
        let mut winner: u32 = candidates[0];
        let k0 = self.hyp_key(winner);
        let mut winner_count: u64 = self.lookup(&k0);
        let ghost mut wi: int = 0;
        let mut i: usize = 1;
        while i < candidates.len()
            invariant
                self.wf(),
                1 <= i <= candidates@.len(),
                0 <= wi < i,
                candidates@[wi] == winner,
                winner_count as nat == self.hyp_count(winner),
                forall|j: int|
                    0 <= j < i ==> self.hyp_count(#[trigger] candidates@[j]) <= winner_count as nat,
                forall|j: int|
                    0 <= j < wi ==> self.hyp_count(#[trigger] candidates@[j]) < winner_count as nat,
            decreases candidates@.len() - i,
        {
            let c = candidates[i];
            let k = self.hyp_key(c);
            let count = self.lookup(&k);
            if count > winner_count {
                winner = c;
                winner_count = count;
                proof {
                    wi = i as int;
                }
            }
            i = i + 1;
        }
        proof {
            assert(0 <= wi < candidates@.len() && candidates@[wi] == winner && (forall|j: int|
                0 <= j < candidates@.len() ==> self.hyp_count(#[trigger] candidates@[j])
                    <= self.hyp_count(candidates@[wi])) && (forall|j: int|
                0 <= j < wi ==> self.hyp_count(#[trigger] candidates@[j]) < self.hyp_count(
                    candidates@[wi],
                )));
        }
        Ok(winner)
    }

    /// The most recently observed symbol, or none if nothing was observed.
    pub fn last(&self) -> (r: Option<u32>)
        requires
            self.wf(),
        ensures
            r == if self.observed().len() == 0 {
                None::<u32>
            } else {
                Some(self.observed().last())
            },
    {
        if self.window.len() == 0 {
            None
        } else {
            Some(self.window[self.window.len() - 1])
        }
    }

    /// The recorded count of an n-gram: the number of occurrences of
    /// `ngram` as a contiguous block of the observed sequence when its
    /// length is exactly `n`, and zero otherwise.
    pub fn ngram_count(&self, ngram: &Vec<u32>) -> (r: u64)
        requires
            self.wf(),
        ensures
            r as nat == self.count_of(ngram@),
            r as nat == if ngram@.len() == self.n() {
                occurrences(self.observed(), ngram@)
            } else {
                0
            },
    {
        self.lookup(ngram)
    }

    /// How many symbols the window currently holds.
    pub fn window_len(&self) -> (r: usize)
        ensures
            r == self.window_seq().len(),
    {
        self.window.len()
    }

    /// The n-gram order this predictor was created with.
    pub fn order(&self) -> (r: usize)
        ensures
            r == self.n(),
    {
        self.ngram_size
    }
}

/// `g` is the prediction owed for `candidates`: some candidate whose
/// hypothetical continuation count is maximal, and strictly above every
/// earlier candidate's (so the earliest maximal candidate).
pub open spec fn is_best_prediction(p: SequencePredictor, candidates: Seq<u32>, g: u32) -> bool {
    exists|i: int|
        0 <= i < candidates.len() && #[trigger] candidates[i] == g && (forall|j: int|
            0 <= j < candidates.len() ==> p.hyp_count(#[trigger] candidates[j]) <= p.hyp_count(
                candidates[i],
            )) && (forall|j: int|
            0 <= j < i ==> p.hyp_count(#[trigger] candidates[j]) < p.hyp_count(candidates[i]))
}

fn keys_equal(a: &Vec<u32>, b: &Vec<u32>) -> (r: bool)
    ensures
        r == (a@ == b@),
{
    if a.len() != b.len() {
        return false;
    }
    let mut i: usize = 0;
    while i < a.len()
        invariant
            i <= a@.len(),
            a@.len() == b@.len(),
            forall|j: int| 0 <= j < i ==> a@[j] == b@[j],
        decreases a@.len() - i,
    {
        if a[i] != b[i] {
            return false;
        }
        i = i + 1;
    }
    proof {
        assert(a@ =~= b@);
    }
    true
}

/// The index of the entry holding `key`, if any entry does.
fn find_key(counts: &Vec<(Vec<u32>, u64)>, key: &Vec<u32>) -> (r: Option<usize>)
    ensures
        match r {
            Some(i) => i < counts@.len() && counts@[i as int].0@ == key@,
            None => forall|i: int| 0 <= i < counts@.len() ==> (#[trigger] counts@[i]).0@ != key@,
        },
{
    let mut i: usize = 0;
    while i < counts.len()
        invariant
            i <= counts@.len(),
            forall|j: int| 0 <= j < i ==> (#[trigger] counts@[j]).0@ != key@,
        decreases counts@.len() - i,
    {
        if keys_equal(&counts[i].0, key) {
            return Some(i);
        }
        i = i + 1;
    }
    None
}

/// Window bound: a well-formed predictor's window never holds more than `n`
/// symbols.
pub proof fn lemma_window_bound(p: SequencePredictor)
    requires
        p.wf(),
    ensures
        p.window_seq().len() <= p.n(),
{
}

/// N-gram accumulation: in a well-formed predictor the recorded count of
/// every key of length exactly `n` equals the number of occurrences of that
/// key as a contiguous block of the observed sequence, and keys of any other
/// length are never recorded.
pub proof fn lemma_ngram_accumulation(p: SequencePredictor, key: Seq<u32>)
    requires
        p.wf(),
    ensures
        p.count_of(key) == if key.len() == p.n() {
            occurrences(p.observed(), key)
        } else {
            0
        },
{
}

} // verus!
