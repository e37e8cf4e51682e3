//! The decision-tree classifier: recursive construction driven by an
//! injected feature selector, with explicit stopping rules, a deterministic
//! majority vote (ties go to the smallest label), and a fallback to a leaf
//! whenever the chosen split would leave one side empty.

use vstd::prelude::*;
use crate::feature_selector::FeatureSelector;
use crate::feature_selector::GreedyFeatureSelector;
use crate::feature_selector::mat_view;
use crate::feature_selector::is_rectangular;
use crate::feature_selector::column_of;
use crate::feature_selector::greedy_best;
use crate::feature_selector::greedy_candidate;
use crate::feature_selector::lemma_min_split_degenerate;
use crate::feature_selector::lemma_greedy_best_ge_candidate;
use crate::feature_selector::lemma_greedy_best_consistent;
use crate::measures::EntropySelectionMeasure;
use crate::measures::SCORE_SENTINEL;
use crate::measures::count_eq;
use crate::measures::count_label;
use crate::measures::select_labels;
use crate::measures::select_label_rows;
use crate::measures::gain_units;
use crate::measures::lemma_entropy_units_bounds;

verus! {

/// Errors surfaced by training.
#[derive(Debug, Clone, Copy, PartialEq, Eq, Structural)]
pub enum TreeError {
    /// No training rows, mismatched row and label counts, a ragged feature
    /// matrix, or rows without any feature.
    InvalidInput,
}

/// A fitted tree: either a terminal prediction or a threshold test on one
/// feature with two exclusively-owned subtrees.
#[derive(Debug, PartialEq, Eq)]
pub enum DecisionTreeNode {
    /// Routes a row left when its value in `feature` is strictly below
    /// `threshold`, right otherwise.
    Interior { feature: usize, threshold: i64, left: Box<DecisionTreeNode>, right: Box<
        DecisionTreeNode,
    > },
    /// Predicts a single label for every row that reaches it.
    Leaf { label: u64 },
}

/// Every interior node of the tree tests a feature index below `m`.
pub open spec fn node_wf(node: DecisionTreeNode, m: nat) -> bool
    decreases node,
{
    match node {
        DecisionTreeNode::Interior { feature, threshold, left, right } => {
            (feature as nat) < m && node_wf(*left, m) && node_wf(*right, m)
        },
        DecisionTreeNode::Leaf { label } => true,
    }
}

/// The label a tree assigns to one feature row.
pub open spec fn predict_row_spec(node: DecisionTreeNode, row: Seq<i64>) -> u64
    decreases node,
{
    match node {
        DecisionTreeNode::Interior { feature, threshold, left, right } => {
            if row[feature as int] < threshold {
                predict_row_spec(*left, row)
            } else {
                predict_row_spec(*right, row)
            }
        },
        DecisionTreeNode::Leaf { label } => label,
    }
}

/// The labels a tree assigns to each row of a matrix, in row order.
pub open spec fn predict_all_spec(node: DecisionTreeNode, x: Seq<Seq<i64>>) -> Seq<u64> {
    Seq::new(x.len(), |i: int| predict_row_spec(node, x[i]))
}

/// All labels equal the first one: the node is pure and its entropy is zero.
pub open spec fn is_pure(s: Seq<u64>) -> bool {
    forall|i: int| 0 <= i < s.len() ==> #[trigger] s[i] == s[0]
}

/// The winner of a left-to-right scan over the first `k` labels: a label
/// with a strictly higher count replaces the running winner, and so does an
/// equal count with a smaller label.
pub open spec fn best_label_upto(s: Seq<u64>, k: int) -> u64
    decreases k,
{
    if k <= 1 {
        s[0]
    } else {
        let prev = best_label_upto(s, k - 1);
        let cur = s[k - 1];
        if count_eq(s, cur) > count_eq(s, prev) || (count_eq(s, cur) == count_eq(s, prev) && cur
            < prev) {
            cur
        } else {
            prev
        }
    }
}

/// The majority label of `s`: the most frequent label, ties broken towards
/// the smallest label.
pub open spec fn majority_spec(s: Seq<u64>) -> u64 {
    best_label_upto(s, s.len() as int)
}

proof fn lemma_best_label_upto_props(s: Seq<u64>, k: int)
    requires
        1 <= k <= s.len(),
    ensures
        exists|i: int| 0 <= i < k && s[i] == best_label_upto(s, k),
        forall|u: int|
            0 <= u < k ==> count_eq(s, #[trigger] s[u]) <= count_eq(s, best_label_upto(s, k)),
        forall|u: int|
            0 <= u < k && count_eq(s, #[trigger] s[u]) == count_eq(s, best_label_upto(s, k))
                ==> best_label_upto(s, k) <= s[u],
    decreases k,
{
    if k == 1 {
        assert(s[0] == best_label_upto(s, k));
    } else {
        lemma_best_label_upto_props(s, k - 1);
        let prev = best_label_upto(s, k - 1);
        if best_label_upto(s, k) == s[k - 1] {
            assert(s[k - 1] == best_label_upto(s, k));
        } else {
            let w = choose|i: int| 0 <= i < k - 1 && s[i] == prev;
            assert(s[w] == best_label_upto(s, k));
        }
    }
}

/// What the majority vote returns: a label of `s`, with the highest count,
/// and the smallest label among those with that count.
pub proof fn lemma_majority_props(s: Seq<u64>)
    requires
        s.len() >= 1,
    ensures
        exists|i: int| 0 <= i < s.len() && s[i] == majority_spec(s),
        forall|u: int|
            0 <= u < s.len() ==> count_eq(s, #[trigger] s[u]) <= count_eq(s, majority_spec(s)),
        forall|u: int|
            0 <= u < s.len() && count_eq(s, #[trigger] s[u]) == count_eq(s, majority_spec(s))
                ==> majority_spec(s) <= s[u],
{
    lemma_best_label_upto_props(s, s.len() as int);
}

/// Whether all labels of `y` are equal; a pure node becomes a leaf.
#[verifier::loop_isolation(false)]
fn labels_pure(y: &Vec<u64>) -> (b: bool)
    requires
        y@.len() >= 1,
    ensures
        b == is_pure(y@),
{
    let first = y[0];
    let mut i: usize = 1;
    while i < y.len()
        invariant
            1 <= i <= y@.len(),
            forall|j: int| 0 <= j < i ==> #[trigger] y@[j] == y@[0],
        decreases y@.len() - i,
    {
        if y[i] != first {
            return false;
        }
        i = i + 1;
    }
    true
}

/// The majority label of `y` under the deterministic tie-break: the most
/// frequent label, and the smallest such label on equal counts.
#[verifier::loop_isolation(false)]
pub fn majority_label(y: &Vec<u64>) -> (label: u64)
    requires
        y@.len() >= 1,
    ensures
        label == majority_spec(y@),
{
    let mut best: u64 = y[0];
    let mut best_count: usize = count_label(y, best);
    let mut i: usize = 1;
    while i < y.len()
        invariant
            1 <= i <= y@.len(),
            best == best_label_upto(y@, i as int),
            best_count == count_eq(y@, best),
        decreases y@.len() - i,
    {
        let cur = y[i];
        let cur_count = count_label(y, cur);
        if cur_count > best_count || (cur_count == best_count && cur < best) {
            best = cur;
            best_count = cur_count;
        }
        i = i + 1;
    }
    best
}

impl DecisionTreeNode {
    /// An interior node routing rows between two subtrees.
    pub fn new_interior(
        feature: usize,
        threshold: i64,
        left: DecisionTreeNode,
        right: DecisionTreeNode,
    ) -> (node: DecisionTreeNode)
        ensures
            node == (DecisionTreeNode::Interior {
                feature,
                threshold,
                left: Box::new(left),
                right: Box::new(right),
            }),
    {
        DecisionTreeNode::Interior { feature, threshold, left: Box::new(left), right: Box::new(
            right,
        ) }
    }

    /// A leaf holding the majority label of the rows routed to it.
    pub fn new_leaf_node(y: &Vec<u64>) -> (node: DecisionTreeNode)
        requires
            y@.len() >= 1,
        ensures
            node == (DecisionTreeNode::Leaf { label: majority_spec(y@) }),
    {
        DecisionTreeNode::Leaf { label: majority_label(y) }
    }

    /// Walk one feature row down the tree to its prediction.
    pub fn predict(&self, row: &Vec<i64>) -> (label: u64)
        requires
            node_wf(*self, row@.len()),
        ensures
            label == predict_row_spec(*self, row@),
        decreases *self,
    {
        match self {
            DecisionTreeNode::Interior { feature, threshold, left, right } => {
                if row[*feature] < *threshold {
                    left.predict(row)
                } else {
                    right.predict(row)
                }
            },
            DecisionTreeNode::Leaf { label } => *label,
        }
    }
}

/// The rows of `x` selected by `idx`, in order.
pub open spec fn select_rows(x: Seq<Seq<i64>>, idx: Seq<usize>) -> Seq<Seq<i64>> {
    Seq::new(idx.len(), |i: int| x[idx[i] as int])
}

/// The rows of the matrix `x` selected by `idx`, as owned vectors.
#[verifier::loop_isolation(false)]
fn select_matrix_rows(x: &Vec<Vec<i64>>, idx: &Vec<usize>) -> (out: Vec<Vec<i64>>)
    requires
        forall|i: int| 0 <= i < idx@.len() ==> (idx@[i] as int) < mat_view(x).len(),
    ensures
        mat_view(&out) == select_rows(mat_view(x), idx@),
{
    let mut out: Vec<Vec<i64>> = Vec::new();
    let mut i: usize = 0;
    while i < idx.len()
        invariant
            i <= idx@.len(),
            out@.len() == i,
            forall|w: int| 0 <= w < i ==> #[trigger] out@[w]@ == mat_view(x)[idx@[w] as int],
        decreases idx@.len() - i,
    {
        let src = &x[idx[i]];
        assert(src@ == mat_view(x)[idx@[i as int] as int]);
        let mut row: Vec<i64> = Vec::new();
        let mut j: usize = 0;
        while j < src.len()
            invariant
                j <= src@.len(),
                row@ == src@.take(j as int),
            decreases src@.len() - j,
        {
            row.push(src[j]);
            proof {
                assert(row@ =~= src@.take(j + 1));
            }
            j = j + 1;
        }
        proof {
            assert(src@.take(src@.len() as int) =~= src@);
        }
        out.push(row);
        i = i + 1;
    }
    proof {
        assert(mat_view(&out) =~= select_rows(mat_view(x), idx@));
    }
    out
}

/// The training input is usable: at least one row, one label per row, a
/// rectangular matrix, and at least one feature column.
pub open spec fn fit_input_ok(x: Seq<Seq<i64>>, y: Seq<u64>) -> bool {
    &&& x.len() == y.len()
    &&& x.len() >= 1
    &&& is_rectangular(x)
    &&& x[0].len() >= 1
}

/// The immutable training configuration: stopping limits and the injected
/// split-search strategy. One classifier can fit many independent models.
#[derive(Debug)]
pub struct DecisionTreeClassifier<FS> {
    /// Depth at which nodes are no longer split; a node at this depth
    /// becomes a leaf, so the root is a leaf when this is zero.
    pub max_depth: u32,
    /// Nodes with at most this many rows become leaves.
    pub min_size: usize,
    /// The split-search strategy.
    pub feature_selector: FS,
}

/// A fitted, immutable decision tree; routes feature rows to predictions.
#[derive(Debug, PartialEq, Eq)]
pub struct DecisionTreeModel {
    /// The root of the fitted tree.
    pub tree: DecisionTreeNode,
}

impl<FS: FeatureSelector> DecisionTreeClassifier<FS> {
    /// A classifier with the given stopping limits and feature selector.
    pub fn new(max_depth: u32, min_size: usize, feature_selector: FS) -> (c:
        DecisionTreeClassifier<FS>)
        ensures
            c == (DecisionTreeClassifier { max_depth, min_size, feature_selector }),
    {
        DecisionTreeClassifier { max_depth, min_size, feature_selector }
    }

    /// The tree that training grows from the rows `x` with labels `y` at
    /// recursion depth `depth`: a leaf once the node is small, deep or pure,
    /// or once the chosen split is degenerate; otherwise an interior node
    /// over the best split, with the two sides built one level deeper.
    pub open spec fn build_spec(&self, x: Seq<Seq<i64>>, y: Seq<u64>, depth: u32) -> DecisionTreeNode
        decreases self.max_depth - depth,
    {
        if y.len() <= self.min_size || depth >= self.max_depth || is_pure(y) {
            DecisionTreeNode::Leaf { label: majority_spec(y) }
        } else {
            let s = self.feature_selector.select_spec(x, y);
            if s.0.len() == 0 || s.1.len() == 0 {
                DecisionTreeNode::Leaf { label: majority_spec(y) }
            } else {
                DecisionTreeNode::Interior {
                    feature: s.3,
                    threshold: s.2,
                    left: Box::new(
                        self.build_spec(
                            select_rows(x, s.0),
                            select_labels(y, s.0),
                            (depth + 1) as u32,
                        ),
                    ),
                    right: Box::new(
                        self.build_spec(
                            select_rows(x, s.1),
                            select_labels(y, s.1),
                            (depth + 1) as u32,
                        ),
                    ),
                }
            }
        }
    }

    /// Grow the tree for one node of the recursion.
    #[verifier::loop_isolation(false)]
    fn build_tree(&self, x: &Vec<Vec<i64>>, y: &Vec<u64>, depth: u32) -> (node: DecisionTreeNode)
        requires
            fit_input_ok(mat_view(x), y@),
        ensures
            node == self.build_spec(mat_view(x), y@, depth),
            node_wf(node, mat_view(x)[0].len() as nat),
        decreases self.max_depth - depth,
    {
        let pure = labels_pure(y);
        if y.len() <= self.min_size || depth >= self.max_depth || pure {
            return DecisionTreeNode::new_leaf_node(y);
        }
        let (left_indexes, right_indexes, threshold, feature) = self.feature_selector.apply(x, y);
        if left_indexes.len() == 0 || right_indexes.len() == 0 {
            return DecisionTreeNode::new_leaf_node(y);
        }
        let left_x = select_matrix_rows(x, &left_indexes);
        let left_y = select_label_rows(y, &left_indexes);
        proof {
            lemma_selected_input_ok(mat_view(x), y@, left_indexes@);
        }
        let left = self.build_tree(&left_x, &left_y, depth + 1);
        let right_x = select_matrix_rows(x, &right_indexes);
        let right_y = select_label_rows(y, &right_indexes);
        proof {
            lemma_selected_input_ok(mat_view(x), y@, right_indexes@);
        }
        let right = self.build_tree(&right_x, &right_y, depth + 1);
        DecisionTreeNode::new_interior(feature, threshold, left, right)
    }

    /// Train a model. Fails with `InvalidInput` exactly when the input is
    /// empty, mismatched, ragged or has no feature column; otherwise the
    /// fitted tree is the one `build_spec` describes, grown from depth zero.
    pub fn fit(&self, x: &Vec<Vec<i64>>, y: &Vec<u64>) -> (r: Result<
        DecisionTreeModel,
        TreeError,
    >)
        ensures
            match r {
                Ok(model) => fit_input_ok(mat_view(x), y@) && model.tree == self.build_spec(
                    mat_view(x),
                    y@,
                    0,
                ) && node_wf(model.tree, mat_view(x)[0].len() as nat),
                Err(e) => !fit_input_ok(mat_view(x), y@) && e == TreeError::InvalidInput,
            },
    {
        if x.len() == 0 || x.len() != y.len() {
            return Err(TreeError::InvalidInput);
        }
        if x[0].len() == 0 {
            return Err(TreeError::InvalidInput);
        }
        let width = x[0].len();
        let mut i: usize = 1;
        while i < x.len()
            invariant
                1 <= i <= x@.len(),
                forall|j: int| 0 <= j < i ==> #[trigger] mat_view(x)[j].len() == width as nat,
            decreases x@.len() - i,
        {
            let row = &x[i];
            assert(row@ == mat_view(x)[i as int]);
            if row.len() != width {
                assert(mat_view(x)[i as int].len() != width as nat);
                assert(!is_rectangular(mat_view(x)));
                return Err(TreeError::InvalidInput);
            }
            i = i + 1;
        }
        assert(is_rectangular(mat_view(x)));
        Ok(DecisionTreeModel { tree: self.build_tree(x, y, 0) })
    }
}

/// Selecting a non-empty list of rows out of a valid training input gives a
/// valid training input of the same width.
proof fn lemma_selected_input_ok(x: Seq<Seq<i64>>, y: Seq<u64>, idx: Seq<usize>)
    requires
        fit_input_ok(x, y),
        idx.len() >= 1,
        forall|i: int| 0 <= i < idx.len() ==> (idx[i] as nat) < x.len(),
    ensures
        fit_input_ok(select_rows(x, idx), select_labels(y, idx)),
        select_rows(x, idx)[0].len() == x[0].len(),
{
    assert(forall|i: int|
        0 <= i < idx.len() ==> #[trigger] select_rows(x, idx)[i].len() == x[0].len());
}

impl DecisionTreeModel {
    /// Predict one label per input row, in input row order.
    #[verifier::loop_isolation(false)]
    pub fn predict(&self, x: &Vec<Vec<i64>>) -> (out: Vec<u64>)
        requires
            forall|i: int|
                0 <= i < mat_view(x).len() ==> node_wf(self.tree, #[trigger] mat_view(x)[i].len()),
        ensures
            out@ == predict_all_spec(self.tree, mat_view(x)),
    {
        let mut out: Vec<u64> = Vec::new();
        let mut i: usize = 0;
        while i < x.len()
            invariant
                i <= x@.len(),
                out@ == predict_all_spec(self.tree, mat_view(x)).take(i as int),
            decreases x@.len() - i,
        {
            let row = &x[i];
            assert(row@ == mat_view(x)[i as int]);
            let label = self.tree.predict(row);
            out.push(label);
            proof {
                assert(out@ =~= predict_all_spec(self.tree, mat_view(x)).take(i + 1));
            }
            i = i + 1;
        }
        proof {
            assert(predict_all_spec(self.tree, mat_view(x)).take(x@.len() as int)
                =~= predict_all_spec(self.tree, mat_view(x)));
        }
        out
    }
}

/// With `max_depth` zero the recursion stops at once: the fitted tree is a
/// single leaf holding the majority label of the full training label vector.
pub proof fn lemma_max_depth_zero_gives_majority_leaf<FS: FeatureSelector>(
    c: DecisionTreeClassifier<FS>,
    x: Seq<Seq<i64>>,
    y: Seq<u64>,
)
    requires
        c.max_depth == 0,
    ensures
        c.build_spec(x, y, 0) == (DecisionTreeNode::Leaf { label: majority_spec(y) }),
{
}

/// Prediction is a pure function of the fitted tree and the input rows: two
/// results for the same model and matrix are identical.
pub proof fn lemma_predict_deterministic(
    tree: DecisionTreeNode,
    x: Seq<Seq<i64>>,
    r1: Seq<u64>,
    r2: Seq<u64>,
)
    requires
        r1 == predict_all_spec(tree, x),
        r2 == predict_all_spec(tree, x),
    ensures
        r1 == r2,
{
}

/// Any information gain over labels that fit in memory lies strictly above
/// the search sentinel.
proof fn lemma_gain_above_sentinel(y: Seq<u64>, l: Seq<usize>, r: Seq<usize>)
    requires
        y.len() <= usize::MAX,
        l.len() <= usize::MAX,
        r.len() <= usize::MAX,
    ensures
        gain_units(y, l, r) > SCORE_SENTINEL as int,
{
    lemma_entropy_units_bounds(y);
    lemma_entropy_units_bounds(select_labels(y, l));
    lemma_entropy_units_bounds(select_labels(y, r));
    assert(select_labels(y, l).len() as int * 0x40_0000 < 0x80_0000_0000_0000_0000_0000) by {
        vstd::arithmetic::mul::lemma_mul_inequality(
            select_labels(y, l).len() as int,
            0x1_0000_0000_0000_0000,
            0x40_0000,
        );
    }
    assert(select_labels(y, r).len() as int * 0x40_0000 < 0x80_0000_0000_0000_0000_0000) by {
        vstd::arithmetic::mul::lemma_mul_inequality(
            select_labels(y, r).len() as int,
            0x1_0000_0000_0000_0000,
            0x40_0000,
        );
    }
}

/// On a degenerate dataset whose feature rows are all identical, every
/// candidate threshold routes all rows right, so training never recurses: at
/// any depth the entropy-driven greedy classifier grows a single leaf with
/// the majority label, whatever the labels are.
pub proof fn lemma_identical_rows_give_majority_leaf(
    c: DecisionTreeClassifier<GreedyFeatureSelector<EntropySelectionMeasure>>,
    x: Seq<Seq<i64>>,
    y: Seq<u64>,
    depth: u32,
)
    requires
        fit_input_ok(x, y),
        x.len() <= usize::MAX,
        forall|i: int, j: int|
            0 <= i < x.len() && 0 <= j < x[i].len() ==> #[trigger] x[i][j] == x[0][0],
    ensures
        c.build_spec(x, y, depth) == (DecisionTreeNode::Leaf { label: majority_spec(y) }),
{
    if y.len() <= c.min_size || depth >= c.max_depth || is_pure(y) {
    } else {
        let sm = EntropySelectionMeasure {  };
        let n = x.len() as int;
        let m = x[0].len() as int;
        let total = n * m;
        assert(total >= 1) by {
            vstd::arithmetic::mul::lemma_mul_strictly_positive(n, m);
        }
        // the first candidate scores above the sentinel, so the winner does too
        vstd::arithmetic::div_mod::lemma_fundamental_div_mod_converse_div(0, n, 0, 0);
        vstd::arithmetic::div_mod::lemma_fundamental_div_mod_converse_mod(0, n, 0, 0);
        let c0 = greedy_candidate(sm, x, y, 0, 0);
        crate::feature_selector::lemma_split_is_partition(column_of(x, 0), column_of(x, 0)[0]);
        lemma_gain_above_sentinel(y, c0.0, c0.1);
        lemma_greedy_best_ge_candidate(sm, x, y, total, 0);
        let b = greedy_best(sm, x, y, total);
        assert(b.4 >= c0.4);
        lemma_greedy_best_consistent(sm, x, y, total);
        let (j, i): (int, int) = choose|j: int, i: int|
            0 <= j && 0 <= i < x.len() && j * x.len() + i < total && b
                == #[trigger] greedy_candidate(sm, x, y, j, i);
        assert(j < m) by {
            if j >= m {
                vstd::arithmetic::mul::lemma_mul_inequality(m, j, n);
                vstd::arithmetic::mul::lemma_mul_is_commutative(n, m);
            }
        }
        // every value of the chosen column equals the threshold, so the
        // left side is empty
        let col = column_of(x, j);
        let t = col[i];
        assert(x[i as int][j] == x[0][0]);
        assert forall|u: int| 0 <= u < col.len() implies #[trigger] col[u] >= t by {
            assert(x[u][j] == x[0][0]);
        }
        lemma_min_split_degenerate(col, t, n);
        assert(b.0.len() == 0);
    }
}

} // verus!
