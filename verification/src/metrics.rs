//! Driver-side helpers: classification by maximum score and one-hot-like
//! target construction.

use crate::network::Scalar;
use vstd::prelude::*;

verus! {

/// The index a linear max scan settles on: the first index holding the
/// largest key.
pub open spec fn spec_argmax(keys: Seq<u64>) -> int
    recommends
        0 < keys.len(),
    decreases keys.len(),
{
    if keys.len() <= 1 {
        0
    } else {
        let rest = spec_argmax(keys.drop_last());
        if keys.last() > keys[rest] {
            keys.len() - 1
        } else {
            rest
        }
    }
}

/// The index of the largest score, ties broken by the lowest index — the
/// natural resolution of a linear max scan, preserved so that accuracy
/// scoring is reproducible.
///
/// Scores are compared as unsigned keys; a caller whose scores are scalars
/// hands in keys whose integer order is the scores' order (for the positive
/// floating-point outputs of a sigmoid layer, the IEEE 754 bit patterns).
pub fn argmax(scores: &Vec<u64>) -> (r: usize)
    requires
        scores@.len() > 0,
    ensures
        r == spec_argmax(scores@),
        r < scores@.len(),
        forall|j: int| 0 <= j < scores@.len() ==> scores@[j] <= scores@[r as int],
        forall|j: int| 0 <= j < r ==> scores@[j] < scores@[r as int],
{
    let mut best: usize = 0;
    let mut i: usize = 1;
    proof {
        assert(spec_argmax(scores@.take(1)) == 0);
    }
    while i < scores.len()
        invariant
            best < i,
            i <= scores@.len(),
            best == spec_argmax(scores@.take(i as int)),
            forall|j: int| 0 <= j < i ==> scores@[j] <= scores@[best as int],
            forall|j: int| 0 <= j < best ==> scores@[j] < scores@[best as int],
        decreases scores@.len() - i,
    {
        proof {
            assert(scores@.take(i as int + 1).drop_last() =~= scores@.take(i as int));
            assert(scores@.take(i as int + 1).last() == scores@[i as int]);
        }
        if scores[i] > scores[best] {
            best = i;
        }
        i += 1;
    }
    proof {
        assert(scores@.take(scores@.len() as int) =~= scores@);
    }
    best
}

/// The target vector for a class label: `hot` at the label's index and `cold`
/// everywhere else (ordinarily 0.99 and 0.1, so that a sigmoid output can
/// approach every component).
pub fn make_target<S: Scalar>(label: usize, size: usize, hot: S, cold: S) -> (r: Vec<S>)
    requires
        label < size,
    ensures
        r@ == crate::network::spec_target(label as int, size as int, hot, cold),
        r@.len() == size,
        r@[label as int] == hot,
        forall|j: int| 0 <= j < size && j != label ==> r@[j] == cold,
{
    let mut r: Vec<S> = Vec::new();
    let mut j: usize = 0;
    while j < size
        invariant
            j <= size,
            r@.len() == j,
            label < size,
            r@.len() > label ==> r@[label as int] == hot,
            forall|k: int| 0 <= k < j && k != label ==> r@[k] == cold,
        decreases size - j,
    {
        if j == label {
            r.push(hot);
        } else {
            r.push(cold);
        }
        j += 1;
    }
    proof {
        assert(r@ =~= crate::network::spec_target(label as int, size as int, hot, cold));
    }
    r
}

} // verus!
