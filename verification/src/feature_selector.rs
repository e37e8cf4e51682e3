//! Exhaustive greedy split search. Every observed feature value of every
//! column is tried as a threshold; rows go left when their value is strictly
//! below the threshold, right otherwise. Candidates are scored by the
//! injected selection measure and the best is kept under strict-greater
//! comparison, so on ties the first candidate in column-major, then
//! row-major, order wins.

use vstd::prelude::*;
use crate::measures::SelectionMeasure;
use crate::measures::EntropySelectionMeasure;
use crate::measures::SCORE_SENTINEL;
use crate::measures::indexes_within;
use crate::measures::select_labels;
use crate::measures::gain_units;
use crate::measures::entropy_units;

verus! {

/// Every row of the matrix has the width of the first row.
pub open spec fn is_rectangular(x: Seq<Seq<i64>>) -> bool {
    forall|i: int| 0 <= i < x.len() ==> #[trigger] x[i].len() == x[0].len()
}

/// The rows of a feature matrix as mathematical sequences.
pub open spec fn mat_view(x: &Vec<Vec<i64>>) -> Seq<Seq<i64>> {
    x@.map_values(|row: Vec<i64>| row@)
}

/// Column `j` of the matrix, top to bottom.
pub open spec fn column_of(x: Seq<Seq<i64>>, j: int) -> Seq<i64> {
    Seq::new(x.len(), |i: int| x[i][j])
}

/// The indexes `i < k` with `col[i] < t`, in increasing order.
pub open spec fn left_prefix(col: Seq<i64>, t: i64, k: int) -> Seq<usize>
    decreases k,
{
    if k <= 0 {
        Seq::empty()
    } else if col[k - 1] < t {
        left_prefix(col, t, k - 1).push((k - 1) as usize)
    } else {
        left_prefix(col, t, k - 1)
    }
}

/// The indexes `i < k` with `col[i] >= t`, in increasing order.
pub open spec fn right_prefix(col: Seq<i64>, t: i64, k: int) -> Seq<usize>
    decreases k,
{
    if k <= 0 {
        Seq::empty()
    } else if col[k - 1] < t {
        right_prefix(col, t, k - 1)
    } else {
        right_prefix(col, t, k - 1).push((k - 1) as usize)
    }
}

/// The indexes of a sequence are strictly increasing.
pub open spec fn strictly_increasing(s: Seq<usize>) -> bool {
    forall|a: int, b: int| 0 <= a < b < s.len() ==> s[a] < s[b]
}

/// `l` and `r` are disjoint, ordered, and together hold each row index
/// below `n` exactly once.
pub open spec fn split_partitions(l: Seq<usize>, r: Seq<usize>, n: nat) -> bool {
    &&& strictly_increasing(l)
    &&& strictly_increasing(r)
    &&& indexes_within(l, n)
    &&& indexes_within(r, n)
    &&& l.len() + r.len() == n
    &&& forall|k: usize| (k as nat) < n ==> (l.contains(k) <==> !r.contains(k))
}

/// What the two halves of a threshold split contain: membership, order and
/// the size bookkeeping that `split_partitions` asks for.
pub proof fn lemma_split_prefix_props(col: Seq<i64>, t: i64, k: int)
    requires
        0 <= k <= col.len(),
        col.len() <= usize::MAX,
    ensures
        forall|u: usize|
            #[trigger] left_prefix(col, t, k).contains(u) <==> ((u as int) < k && col[u as int]
                < t),
        forall|u: usize|
            #[trigger] right_prefix(col, t, k).contains(u) <==> ((u as int) < k && !(col[u as int]
                < t)),
        strictly_increasing(left_prefix(col, t, k)),
        strictly_increasing(right_prefix(col, t, k)),
        indexes_within(left_prefix(col, t, k), k as nat),
        indexes_within(right_prefix(col, t, k), k as nat),
        left_prefix(col, t, k).len() + right_prefix(col, t, k).len() == k,
    decreases k,
{
    if k > 0 {
        lemma_split_prefix_props(col, t, k - 1);
        let lp = left_prefix(col, t, k - 1);
        let rp = right_prefix(col, t, k - 1);
        if col[k - 1] < t {
            assert forall|u: usize| #[trigger]
                left_prefix(col, t, k).contains(u) <==> ((u as int) < k && col[u as int] < t) by {
                vstd::seq_lib::lemma_seq_contains_after_push(lp, (k - 1) as usize, u);
            }
        } else {
            assert forall|u: usize| #[trigger]
                right_prefix(col, t, k).contains(u) <==> ((u as int) < k && !(col[u as int]
                    < t)) by {
                vstd::seq_lib::lemma_seq_contains_after_push(rp, (k - 1) as usize, u);
            }
        }
    }
}

/// A full-length threshold split is a partition of all row indexes.
pub proof fn lemma_split_is_partition(col: Seq<i64>, t: i64)
    requires
        col.len() <= usize::MAX,
    ensures
        split_partitions(
            left_prefix(col, t, col.len() as int),
            right_prefix(col, t, col.len() as int),
            col.len(),
        ),
{
    lemma_split_prefix_props(col, t, col.len() as int);
}

/// One candidate of the exhaustive search: the split of column `j` at the
/// threshold read from row `i`, with its score.
pub open spec fn greedy_candidate<SM: SelectionMeasure>(
    sm: SM,
    x: Seq<Seq<i64>>,
    y: Seq<u64>,
    j: int,
    i: int,
) -> (Seq<usize>, Seq<usize>, i64, usize, int) {
    let col = column_of(x, j);
    let t = col[i];
    let l = left_prefix(col, t, col.len() as int);
    let r = right_prefix(col, t, col.len() as int);
    (l, r, t, j as usize, sm.score_spec(y, l, r))
}

/// The running best over the first `k` candidates in column-major order,
/// starting from the sentinel and replacing only on a strictly higher score.
pub open spec fn greedy_best<SM: SelectionMeasure>(
    sm: SM,
    x: Seq<Seq<i64>>,
    y: Seq<u64>,
    k: int,
) -> (Seq<usize>, Seq<usize>, i64, usize, int)
    decreases k,
{
    if k <= 0 {
        (Seq::<usize>::empty(), Seq::<usize>::empty(), 0i64, 0usize, SCORE_SENTINEL as int)
    } else {
        let prev = greedy_best(sm, x, y, k - 1);
        let n = x.len() as int;
        let c = greedy_candidate(sm, x, y, (k - 1) / n, (k - 1) % n);
        if c.4 > prev.4 {
            c
        } else {
            prev
        }
    }
}

/// The winning score is at least the score of every candidate searched.
pub proof fn lemma_greedy_best_ge_candidate<SM: SelectionMeasure>(
    sm: SM,
    x: Seq<Seq<i64>>,
    y: Seq<u64>,
    k: int,
    c: int,
)
    requires
        0 <= c < k,
    ensures
        greedy_best(sm, x, y, k).4 >= greedy_candidate(
            sm,
            x,
            y,
            c / x.len() as int,
            c % x.len() as int,
        ).4,
    decreases k,
{
    if c < k - 1 {
        lemma_greedy_best_ge_candidate(sm, x, y, k - 1, c);
    }
}

/// A winner that beat the sentinel is one of the candidates, and its stored
/// score is the score of its own split.
pub proof fn lemma_greedy_best_consistent<SM: SelectionMeasure>(
    sm: SM,
    x: Seq<Seq<i64>>,
    y: Seq<u64>,
    k: int,
)
    requires
        x.len() >= 1,
        x.len() <= usize::MAX,
    ensures
        ({
            let b = greedy_best(sm, x, y, k);
            b.4 > SCORE_SENTINEL as int ==> b.4 == sm.score_spec(y, b.0, b.1)
                && split_partitions(b.0, b.1, x.len()) && exists|j: int, i: int|
                0 <= j && 0 <= i < x.len() && j * x.len() + i < k && b
                    == #[trigger] greedy_candidate(sm, x, y, j, i)
        }),
    decreases k,
{
    if k > 0 {
        lemma_greedy_best_consistent(sm, x, y, k - 1);
        let n = x.len() as int;
        let j = (k - 1) / n;
        let i = (k - 1) % n;
        let c = greedy_candidate(sm, x, y, j, i);
        let prev = greedy_best(sm, x, y, k - 1);
        if c.4 > prev.4 {
            vstd::arithmetic::div_mod::lemma_mod_bound(k - 1, n);
            vstd::arithmetic::div_mod::lemma_div_pos_is_pos(k - 1, n);
            vstd::arithmetic::div_mod::lemma_fundamental_div_mod(k - 1, n);
            lemma_split_is_partition(column_of(x, j), column_of(x, j)[i]);
            assert(j * n + i == k - 1);
            assert(0 <= j && 0 <= i < x.len() && j * x.len() + i < k && c == greedy_candidate(
                sm,
                x,
                y,
                j,
                i,
            ));
        }
    }
}

/// Index of the smallest value among the first `k` entries (first occurrence).
pub open spec fn min_index(col: Seq<i64>, k: int) -> int
    decreases k,
{
    if k <= 1 {
        0
    } else {
        let p = min_index(col, k - 1);
        if col[k - 1] < col[p] {
            k - 1
        } else {
            p
        }
    }
}

/// The minimum index points below `k` at a value no larger than any other.
pub proof fn lemma_min_index_props(col: Seq<i64>, k: int)
    requires
        1 <= k <= col.len(),
    ensures
        0 <= min_index(col, k) < k,
        forall|u: int| 0 <= u < k ==> #[trigger] col[u] >= col[min_index(col, k)],
    decreases k,
{
    if k > 1 {
        lemma_min_index_props(col, k - 1);
    }
}

/// Splitting at the column minimum sends no row left and every row right.
pub proof fn lemma_min_split_degenerate(col: Seq<i64>, t: i64, k: int)
    requires
        0 <= k <= col.len(),
        col.len() <= usize::MAX,
        forall|u: int| 0 <= u < col.len() ==> #[trigger] col[u] >= t,
    ensures
        left_prefix(col, t, k) =~= Seq::<usize>::empty(),
        right_prefix(col, t, k) =~= Seq::new(k as nat, |u: int| u as usize),
    decreases k,
{
    if k > 0 {
        lemma_min_split_degenerate(col, t, k - 1);
        assert(right_prefix(col, t, k) =~= Seq::new(k as nat, |u: int| u as usize));
    }
}

/// Type of a single row index.
pub type IndexSelector = usize;

/// A list of row indexes.
pub type IndexSelectors = Vec<IndexSelector>;

/// What a feature selector hands back: left rows, right rows, the threshold,
/// and the column it applies to.
pub type SplitResult = (IndexSelectors, IndexSelectors, i64, usize);

/// Chooses a split of a node's rows from the feature matrix and the labels.
pub trait FeatureSelector: Sized {
    /// The split that `apply` returns, as a mathematical function of the
    /// matrix and the labels.
    spec fn select_spec(&self, x: Seq<Seq<i64>>, y: Seq<u64>) -> (
        Seq<usize>,
        Seq<usize>,
        i64,
        usize,
    );

    /// Search the matrix for the best split of its rows.
    fn apply(&self, x: &Vec<Vec<i64>>, y: &Vec<u64>) -> (r: SplitResult)
        requires
            x@.len() == y@.len(),
            x@.len() >= 1,
            is_rectangular(mat_view(x)),
            mat_view(x)[0].len() >= 1,
        ensures
            (r.0@, r.1@, r.2, r.3) == self.select_spec(mat_view(x), y@),
            split_partitions(r.0@, r.1@, y@.len()),
            (r.3 as int) < mat_view(x)[0].len(),
    ;
}

/// The exhaustive selector of the training algorithm: tries every observed
/// value of every column as a threshold and keeps the best-scoring split.
#[derive(Debug)]
pub struct GreedyFeatureSelector<SM> {
    /// The measure that scores each candidate partition.
    pub selection_measure: SM,
}

impl<SM: SelectionMeasure> GreedyFeatureSelector<SM> {
    /// A greedy selector driven by the given measure.
    pub fn new(selection_measure: SM) -> (s: GreedyFeatureSelector<SM>)
        ensures
            s.selection_measure == selection_measure,
    {
        GreedyFeatureSelector { selection_measure }
    }

    /// Partition all rows of one column by `value`: strictly smaller goes
    /// left, the rest go right.
    #[verifier::loop_isolation(false)]
    fn split_by_value(&self, col: &Vec<i64>, value: i64) -> (lr: (Vec<usize>, Vec<usize>))
        ensures
            lr.0@ == left_prefix(col@, value, col@.len() as int),
            lr.1@ == right_prefix(col@, value, col@.len() as int),
    {
        let mut left: Vec<usize> = Vec::new();
        let mut right: Vec<usize> = Vec::new();
        let mut i: usize = 0;
        while i < col.len()
            invariant
                i <= col@.len(),
                left@ == left_prefix(col@, value, i as int),
                right@ == right_prefix(col@, value, i as int),
            decreases col@.len() - i,
        {
            if col[i] < value {
                left.push(i);
            } else {
                right.push(i);
            }
            i = i + 1;
        }
        (left, right)
    }
}

/// Column `j` of the matrix as an owned vector.
#[verifier::loop_isolation(false)]
fn column_vec(x: &Vec<Vec<i64>>, j: usize) -> (col: Vec<i64>)
    requires
        forall|i: int| 0 <= i < mat_view(x).len() ==> (j as int) < #[trigger] mat_view(x)[i].len(),
    ensures
        col@ == column_of(mat_view(x), j as int),
{
    let mut col: Vec<i64> = Vec::new();
    let mut i: usize = 0;
    while i < x.len()
        invariant
            i <= x@.len(),
            col@ == column_of(mat_view(x), j as int).take(i as int),
        decreases x@.len() - i,
    {
        let row = &x[i];
        assert(row@ == mat_view(x)[i as int]);
        col.push(row[j]);
        proof {
            assert(col@ =~= column_of(mat_view(x), j as int).take(i + 1));
        }
        i = i + 1;
    }
    proof {
        assert(column_of(mat_view(x), j as int).take(x@.len() as int) =~= column_of(
            mat_view(x),
            j as int,
        ));
    }
    col
}

impl<SM: SelectionMeasure> FeatureSelector for GreedyFeatureSelector<SM> {
    open spec fn select_spec(&self, x: Seq<Seq<i64>>, y: Seq<u64>) -> (
        Seq<usize>,
        Seq<usize>,
        i64,
        usize,
    ) {
        let b = greedy_best(
            self.selection_measure,
            x,
            y,
            x.len() as int * x[0].len() as int,
        );
        (b.0, b.1, b.2, b.3)
    }

    #[verifier::loop_isolation(false)]
    fn apply(&self, x: &Vec<Vec<i64>>, y: &Vec<u64>) -> (r: SplitResult) {
        let rows = x.len();
        let cols = x[0].len();
        let ghost mx = mat_view(x);
        let mut best_score: i128 = SCORE_SENTINEL;
        let mut best_split_value: i64 = 0;
        let mut best_split_column: usize = 0;
        let mut best_left_indexes: Vec<usize> = Vec::new();
        let mut best_right_indexes: Vec<usize> = Vec::new();
        let mut column_index: usize = 0;
        while column_index < cols
            invariant
                column_index <= cols,
                (
                    best_left_indexes@,
                    best_right_indexes@,
                    best_split_value,
                    best_split_column,
                    best_score as int,
                ) == greedy_best(
                    self.selection_measure,
                    mx,
                    y@,
                    column_index as int * rows as int,
                ),
                column_index > 0 ==> split_partitions(
                    best_left_indexes@,
                    best_right_indexes@,
                    y@.len(),
                ) && (best_split_column as int) < cols as int,
            decreases cols - column_index,
        {
            let columns = column_vec(x, column_index);
            assert(columns@ == column_of(mx, column_index as int));
            let mut row_index: usize = 0;
            while row_index < rows
                invariant
                    row_index <= rows,
                    (
                        best_left_indexes@,
                        best_right_indexes@,
                        best_split_value,
                        best_split_column,
                        best_score as int,
                    ) == greedy_best(
                        self.selection_measure,
                        mx,
                        y@,
                        column_index as int * rows as int + row_index as int,
                    ),
                    column_index > 0 || row_index > 0 ==> split_partitions(
                        best_left_indexes@,
                        best_right_indexes@,
                        y@.len(),
                    ) && (best_split_column as int) < cols as int,
                decreases rows - row_index,
            {
                let split_value = columns[row_index];
                let (left_indexes, right_indexes) = self.split_by_value(&columns, split_value);
                proof {
                    lemma_split_is_partition(columns@, split_value);
                }
                let score = self.selection_measure.apply(y, &left_indexes, &right_indexes);
                proof {
                    let k = column_index as int * rows as int + row_index as int;
                    vstd::arithmetic::div_mod::lemma_fundamental_div_mod_converse_div(
                        k,
                        rows as int,
                        column_index as int,
                        row_index as int,
                    );
                    vstd::arithmetic::div_mod::lemma_fundamental_div_mod_converse_mod(
                        k,
                        rows as int,
                        column_index as int,
                        row_index as int,
                    );
                    assert(greedy_candidate(
                        self.selection_measure,
                        mx,
                        y@,
                        column_index as int,
                        row_index as int,
                    ) == (
                        left_indexes@,
                        right_indexes@,
                        split_value,
                        column_index,
                        score as int,
                    ));
                }
                if score > best_score {
                    best_split_value = split_value;
                    best_split_column = column_index;
                    best_score = score;
                    best_left_indexes = left_indexes;
                    best_right_indexes = right_indexes;
                }
                row_index = row_index + 1;
            }
            proof {
                assert(column_index as int * rows as int + rows as int == (column_index + 1)
                    * rows as int) by {
                    vstd::arithmetic::mul::lemma_mul_is_distributive_add_other_way(
                        rows as int,
                        column_index as int,
                        1,
                    );
                }
            }
            column_index = column_index + 1;
        }
        proof {
            vstd::arithmetic::mul::lemma_mul_is_commutative(cols as int, rows as int);
        }
        (best_left_indexes, best_right_indexes, best_split_value, best_split_column)
    }
}

/// The winning split of the entropy-driven greedy search partitions the
/// node's rows — the two index lists are disjoint and together hold every
/// row exactly once — and never loses information: its gain is
/// non-negative. The search always scores the degenerate split at the
/// minimum of the first column, whose gain is exactly zero, and the winner
/// scores at least as well.
pub proof fn lemma_greedy_gain_nonneg(x: Seq<Seq<i64>>, y: Seq<u64>)
    requires
        x.len() == y.len(),
        1 <= x.len() <= usize::MAX,
        is_rectangular(x),
        x[0].len() >= 1,
    ensures
        ({
            let s = GreedyFeatureSelector {
                selection_measure: EntropySelectionMeasure {  },
            };
            let b = s.select_spec(x, y);
            gain_units(y, b.0, b.1) >= 0 && split_partitions(b.0, b.1, y.len())
        }),
{
    let sm = EntropySelectionMeasure {  };
    let n = x.len() as int;
    let m = x[0].len() as int;
    let col = column_of(x, 0);
    let p = min_index(col, n);
    lemma_min_index_props(col, n);
    let t = col[p];
    lemma_min_split_degenerate(col, t, n);
    let l0 = left_prefix(col, t, n);
    let r0 = right_prefix(col, t, n);
    assert(select_labels(y, l0) =~= Seq::<u64>::empty());
    assert(select_labels(y, r0) =~= y);
    assert(entropy_units(Seq::<u64>::empty()) == 0);
    assert(gain_units(y, l0, r0) == 0);
    // the degenerate candidate sits at linear position p (column 0, row p)
    vstd::arithmetic::div_mod::lemma_fundamental_div_mod_converse_div(p, n, 0, p);
    vstd::arithmetic::div_mod::lemma_fundamental_div_mod_converse_mod(p, n, 0, p);
    assert(greedy_candidate(sm, x, y, 0, p).4 == 0);
    assert(n <= n * m) by {
        vstd::arithmetic::mul::lemma_mul_inequality(1, m, n);
        vstd::arithmetic::mul::lemma_mul_is_commutative(n, m);
    }
    lemma_greedy_best_ge_candidate(sm, x, y, n * m, p);
    let b = greedy_best(sm, x, y, n * m);
    assert(b.4 >= 0);
    lemma_greedy_best_consistent(sm, x, y, n * m);
    assert(SCORE_SENTINEL < 0);
    assert(b.4 == sm.score_spec(y, b.0, b.1));
}

} // verus!
