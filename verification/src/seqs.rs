//! Spec functions and lemmas about sequences that both components share:
//! trailing fixed-length suffixes (the shape of every bounded window here)
//! and counting the true entries of a boolean sequence.

use vstd::prelude::*;

verus! {

/// The trailing suffix of `s` of length `k`, or all of `s` when `s` is
/// shorter than `k`.
pub open spec fn last_n<T>(s: Seq<T>, k: int) -> Seq<T> {
    if s.len() <= k {
        s
    } else {
        s.skip(s.len() - k)
    }
}

/// Pushing one element pushes it onto the length-`k` suffix as well,
/// dropping that suffix's first element once the suffix is already full.
pub proof fn lemma_last_n_push<T>(s: Seq<T>, x: T, k: int)
    requires
        k >= 0,
    ensures
        last_n(s.push(x), k) == if s.len() < k {
            last_n(s, k).push(x)
        } else {
            last_n(s, k).push(x).drop_first()
        },
{
    if s.len() < k {
        assert(last_n(s.push(x), k) =~= last_n(s, k).push(x));
    } else {
        assert(last_n(s.push(x), k) =~= last_n(s, k).push(x).drop_first());
    }
}

/// How many entries of `s` are true.
pub open spec fn count_trues(s: Seq<bool>) -> nat
    decreases s.len(),
{
    if s.len() == 0 {
        0
    } else {
        count_trues(s.drop_last()) + if s.last() {
            1nat
        } else {
            0
        }
    }
}

pub proof fn lemma_count_trues_le_len(s: Seq<bool>)
    ensures
        count_trues(s) <= s.len(),
    decreases s.len(),
{
    if s.len() > 0 {
        lemma_count_trues_le_len(s.drop_last());
    }
}

pub proof fn lemma_count_trues_push(s: Seq<bool>, b: bool)
    ensures
        count_trues(s.push(b)) == count_trues(s) + if b {
            1nat
        } else {
            0
        },
{
    assert(s.push(b).drop_last() =~= s);
}

/// Counting from the front: the first entry contributes its own truth value.
pub proof fn lemma_count_trues_drop_first(s: Seq<bool>)
    requires
        s.len() > 0,
    ensures
        count_trues(s) == count_trues(s.drop_first()) + if s[0] {
            1nat
        } else {
            0
        },
    decreases s.len(),
{
    if s.len() == 1 {
        assert(s.drop_first() =~= Seq::<bool>::empty());
        assert(s.drop_last() =~= Seq::<bool>::empty());
        assert(s.last() == s[0]);
    } else {
        lemma_count_trues_drop_first(s.drop_last());
        assert(s.drop_first().drop_last() =~= s.drop_last().drop_first());
        assert(s.drop_first().last() == s.last());
        assert(s.drop_last()[0] == s[0]);
    }
}

} // verus!
