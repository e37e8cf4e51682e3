//! Splitting a dataset into a training part and a test part. The random
//! draws come from the caller, one per row: rows whose draw is true go to
//! the training side, the rest to the test side, each side keeping the order
//! in which the caller listed the rows.

use vstd::prelude::*;

verus! {

/// The elements of `s` whose mask entry equals `keep`, in order.
pub open spec fn mask_select<T>(s: Seq<T>, mask: Seq<bool>, keep: bool) -> Seq<T>
    decreases s.len(),
{
    if s.len() == 0 {
        Seq::empty()
    } else {
        let rest = mask_select(s.drop_last(), mask.drop_last(), keep);
        if mask[s.len() - 1] == keep {
            rest.push(s.last())
        } else {
            rest
        }
    }
}

/// Partition rows and labels into a training pair and a test pair. Row `i`
/// goes to the training side exactly when `take_train[i]` is true; both
/// sides keep the caller's row order, so the caller decides the randomness
/// (and any shuffle) by the mask it passes.
#[verifier::loop_isolation(false)]
pub fn train_test_split(x: &Vec<Vec<i64>>, y: &Vec<u64>, take_train: &Vec<bool>) -> (split: (
    Vec<Vec<i64>>,
    Vec<Vec<i64>>,
    Vec<u64>,
    Vec<u64>,
))
    requires
        x@.len() == y@.len(),
        x@.len() == take_train@.len(),
    ensures
        crate::feature_selector::mat_view(&split.0) == mask_select(
            crate::feature_selector::mat_view(x),
            take_train@,
            true,
        ),
        crate::feature_selector::mat_view(&split.1) == mask_select(
            crate::feature_selector::mat_view(x),
            take_train@,
            false,
        ),
        split.2@ == mask_select(y@, take_train@, true),
        split.3@ == mask_select(y@, take_train@, false),
{
    let ghost mx = crate::feature_selector::mat_view(x);
    let mut x_train: Vec<Vec<i64>> = Vec::new();
    let mut x_test: Vec<Vec<i64>> = Vec::new();
    let mut y_train: Vec<u64> = Vec::new();
    let mut y_test: Vec<u64> = Vec::new();
    let mut i: usize = 0;
    while i < x.len()
        invariant
            i <= x@.len(),
            crate::feature_selector::mat_view(&x_train) == mask_select(
                mx.take(i as int),
                take_train@.take(i as int),
                true,
            ),
            crate::feature_selector::mat_view(&x_test) == mask_select(
                mx.take(i as int),
                take_train@.take(i as int),
                false,
            ),
            y_train@ == mask_select(y@.take(i as int), take_train@.take(i as int), true),
            y_test@ == mask_select(y@.take(i as int), take_train@.take(i as int), false),
        decreases x@.len() - i,
    {
        let row = copy_row(&x[i]);
        proof {
            assert(row@ == mx[i as int]);
            assert(mx.take(i as int + 1).drop_last() =~= mx.take(i as int));
            assert(take_train@.take(i as int + 1).drop_last() =~= take_train@.take(i as int));
            assert(y@.take(i as int + 1).drop_last() =~= y@.take(i as int));
        }
        let ghost prev_xtr = crate::feature_selector::mat_view(&x_train);
        let ghost prev_xte = crate::feature_selector::mat_view(&x_test);
        if take_train[i] {
            x_train.push(row);
            y_train.push(y[i]);
            proof {
                assert(crate::feature_selector::mat_view(&x_train) =~= prev_xtr.push(
                    mx[i as int],
                ));
            }
        } else {
            x_test.push(row);
            y_test.push(y[i]);
            proof {
                assert(crate::feature_selector::mat_view(&x_test) =~= prev_xte.push(mx[i as int]));
            }
        }
        i = i + 1;
    }
    proof {
        assert(mx.take(x@.len() as int) =~= mx);
        assert(take_train@.take(x@.len() as int) =~= take_train@);
        assert(y@.take(x@.len() as int) =~= y@);
    }
    (x_train, x_test, y_train, y_test)
}

/// One feature row, copied element by element.
#[verifier::loop_isolation(false)]
fn copy_row(src: &Vec<i64>) -> (row: Vec<i64>)
    ensures
        row@ == src@,
{
    let mut row: Vec<i64> = Vec::new();
    let mut j: usize = 0;
    while j < src.len()
        invariant
            j <= src@.len(),
            row@ == src@.take(j as int),
        decreases src@.len() - j,
    {
        row.push(src[j]);
        proof {
            assert(row@ =~= src@.take(j as int + 1));
        }
        j = j + 1;
    }
    proof {
        assert(src@.take(src@.len() as int) =~= src@);
    }
    row
}

} // verus!
