//! Counts over a pair of binary label vectors: how often a prediction and
//! the true label agree or disagree, per combination. The vectors are read
//! position by position, prediction against truth, with the positive class
//! coded as one and the negative class as zero. Ratios over these counts
//! (precision, recall and their combinations) are the caller's arithmetic.

use vstd::prelude::*;

verus! {

/// Number of positions where the true label is `a` and the prediction is `b`.
pub open spec fn count_outcomes(y_true: Seq<u64>, y_pred: Seq<u64>, a: u64, b: u64) -> nat
    decreases y_true.len(),
{
    if y_true.len() == 0 || y_pred.len() == 0 {
        0
    } else {
        count_outcomes(y_true.drop_last(), y_pred.drop_last(), a, b) + if y_true.last() == a
            && y_pred.last() == b {
            1nat
        } else {
            0nat
        }
    }
}

/// Count one (truth, prediction) combination across the two vectors.
#[verifier::loop_isolation(false)]
fn count_outcome_pairs(y_true: &Vec<u64>, y_pred: &Vec<u64>, a: u64, b: u64) -> (c: u32)
    requires
        y_true@.len() == y_pred@.len(),
        y_true@.len() <= u32::MAX,
    ensures
        c == count_outcomes(y_true@, y_pred@, a, b),
{
    let mut c: u32 = 0;
    let mut i: usize = 0;
    while i < y_true.len()
        invariant
            i <= y_true@.len(),
            c <= i,
            c == count_outcomes(y_true@.take(i as int), y_pred@.take(i as int), a, b),
        decreases y_true@.len() - i,
    {
        proof {
            assert(y_true@.take(i as int + 1).drop_last() =~= y_true@.take(i as int));
            assert(y_pred@.take(i as int + 1).drop_last() =~= y_pred@.take(i as int));
        }
        if y_true[i] == a && y_pred[i] == b {
            c = c + 1;
        }
        i = i + 1;
    }
    proof {
        assert(y_true@.take(y_true@.len() as int) =~= y_true@);
        assert(y_pred@.take(y_pred@.len() as int) =~= y_pred@);
    }
    c
}

/// Positions predicted positive that are positive.
pub fn true_positives(y_true: &Vec<u64>, y_pred: &Vec<u64>) -> (c: u32)
    requires
        y_true@.len() == y_pred@.len(),
        y_true@.len() <= u32::MAX,
    ensures
        c == count_outcomes(y_true@, y_pred@, 1, 1),
{
    count_outcome_pairs(y_true, y_pred, 1, 1)
}

/// Positions predicted positive that are negative.
pub fn false_positives(y_true: &Vec<u64>, y_pred: &Vec<u64>) -> (c: u32)
    requires
        y_true@.len() == y_pred@.len(),
        y_true@.len() <= u32::MAX,
    ensures
        c == count_outcomes(y_true@, y_pred@, 0, 1),
{
    count_outcome_pairs(y_true, y_pred, 0, 1)
}

/// Positions predicted negative that are positive.
pub fn false_negatives(y_true: &Vec<u64>, y_pred: &Vec<u64>) -> (c: u32)
    requires
        y_true@.len() == y_pred@.len(),
        y_true@.len() <= u32::MAX,
    ensures
        c == count_outcomes(y_true@, y_pred@, 1, 0),
{
    count_outcome_pairs(y_true, y_pred, 1, 0)
}

/// Positions predicted negative that are negative.
pub fn true_negatives(y_true: &Vec<u64>, y_pred: &Vec<u64>) -> (c: u32)
    requires
        y_true@.len() == y_pred@.len(),
        y_true@.len() <= u32::MAX,
    ensures
        c == count_outcomes(y_true@, y_pred@, 0, 0),
{
    count_outcome_pairs(y_true, y_pred, 0, 0)
}

} // verus!
