//! Label-impurity measures. Entropy is kept in exact integer form: for a
//! label set `s` of length `n`, `entropy_units(s)` is the binary entropy of
//! the label distribution multiplied by `n` and by `2^16`. The factor `n`
//! cancels the per-class probability denominators, so the whole quantity is
//! a sum of `count * (log2(n) - log2(count))` terms in Q16 fixed point and
//! needs no rounding beyond the logarithm itself.

use vstd::prelude::*;
use crate::fixedlog::log2_q16;
use crate::fixedlog::log2_q16_spec;
use crate::fixedlog::lemma_log2_mono;
use crate::fixedlog::lemma_log2_upper;
use crate::fixedlog::lemma_log2_pow2;

verus! {

/// A score below anything a selection measure can produce, used by the
/// greedy search so that the first candidate always becomes the running best.
pub const SCORE_SENTINEL: i128 = -0x10_0000_0000_0000_0000_0000_0000;

/// Number of positions in `s` holding the label `v`.
pub open spec fn count_eq(s: Seq<u64>, v: u64) -> nat
    decreases s.len(),
{
    if s.len() == 0 {
        0
    } else {
        count_eq(s.drop_last(), v) + if s.last() == v {
            1nat
        } else {
            0nat
        }
    }
}

/// Sum of the first `k` entropy terms of `s`: position `i` contributes
/// `log2(n) - log2(count of s[i])` in Q16.
pub open spec fn ent_sum(s: Seq<u64>, k: int) -> int
    decreases k,
{
    if k <= 0 {
        0
    } else {
        ent_sum(s, k - 1) + log2_q16_spec(s.len()) - log2_q16_spec(count_eq(s, s[k - 1]))
    }
}

/// Binary entropy of the label distribution of `s`, scaled by `s.len()` and
/// by `2^16`.
pub open spec fn entropy_units(s: Seq<u64>) -> int {
    ent_sum(s, s.len() as int)
}

/// Binary entropy of the label distribution of `s` in Q16 fixed point
/// (rounded down); an empty label set has entropy zero by convention.
pub open spec fn entropy_q16(s: Seq<u64>) -> int {
    if s.len() == 0 {
        0
    } else {
        entropy_units(s) / s.len() as int
    }
}

/// The labels of `y` at the positions listed in `idx`, in list order.
pub open spec fn select_labels(y: Seq<u64>, idx: Seq<usize>) -> Seq<u64> {
    Seq::new(idx.len(), |i: int| y[idx[i] as int])
}

/// All indexes in `idx` fall below `n`.
pub open spec fn indexes_within(idx: Seq<usize>, n: nat) -> bool {
    forall|i: int| 0 <= i < idx.len() ==> (idx[i] as nat) < n
}

/// Information gain of splitting the labels `y` into the rows `l` and the
/// rows `r`, in the same scaled units as `entropy_units(y)`.
pub open spec fn gain_units(y: Seq<u64>, l: Seq<usize>, r: Seq<usize>) -> int {
    entropy_units(y) - entropy_units(select_labels(y, l)) - entropy_units(select_labels(y, r))
}

/// A count never exceeds the length.
pub proof fn lemma_count_le_len(s: Seq<u64>, v: u64)
    ensures
        count_eq(s, v) <= s.len(),
    decreases s.len(),
{
    if s.len() > 0 {
        lemma_count_le_len(s.drop_last(), v);
    }
}

/// A label read out of the sequence is counted at least once.
pub proof fn lemma_count_pos(s: Seq<u64>, i: int)
    requires
        0 <= i < s.len(),
    ensures
        count_eq(s, s[i]) >= 1,
    decreases s.len(),
{
    if i == s.len() - 1 {
    } else {
        lemma_count_pos(s.drop_last(), i);
        assert(s.drop_last()[i] == s[i]);
    }
}

/// Every entropy term is non-negative and below `2^22`, so the scaled
/// entropy of `s` lies between `0` and `s.len() * 2^22`.
pub proof fn lemma_ent_sum_bounds(s: Seq<u64>, k: int)
    requires
        0 <= k <= s.len(),
        s.len() < 0x1_0000_0000_0000_0000,
    ensures
        0 <= ent_sum(s, k) <= k * 0x40_0000,
    decreases k,
{
    if k > 0 {
        lemma_ent_sum_bounds(s, k - 1);
        let n = s.len();
        let c = count_eq(s, s[k - 1]);
        lemma_count_pos(s, k - 1);
        lemma_count_le_len(s, s[k - 1]);
        lemma_log2_mono(c, n);
        lemma_log2_upper(n);
        assert((k - 1) * 0x40_0000 + 0x40_0000 == k * 0x40_0000) by {
            vstd::arithmetic::mul::lemma_mul_is_distributive_add_other_way(0x40_0000, k - 1, 1);
        }
    }
}

/// Bounds for the full scaled entropy.
pub proof fn lemma_entropy_units_bounds(s: Seq<u64>)
    requires
        s.len() < 0x1_0000_0000_0000_0000,
    ensures
        0 <= entropy_units(s) <= s.len() * 0x40_0000,
{
    lemma_ent_sum_bounds(s, s.len() as int);
}

proof fn lemma_count_all_equal(s: Seq<u64>, v: u64)
    requires
        forall|i: int| 0 <= i < s.len() ==> #[trigger] s[i] == v,
    ensures
        count_eq(s, v) == s.len(),
    decreases s.len(),
{
    if s.len() > 0 {
        lemma_count_all_equal(s.drop_last(), v);
    }
}

proof fn lemma_ent_sum_pure(s: Seq<u64>, k: int)
    requires
        0 <= k <= s.len(),
        forall|i: int| 0 <= i < s.len() ==> #[trigger] s[i] == s[0],
    ensures
        ent_sum(s, k) == 0,
    decreases k,
{
    if k > 0 {
        lemma_ent_sum_pure(s, k - 1);
        lemma_count_all_equal(s, s[0]);
    }
}

/// A single-class label set has entropy zero.
pub proof fn lemma_entropy_single_class(s: Seq<u64>)
    requires
        forall|i: int| 0 <= i < s.len() ==> #[trigger] s[i] == s[0],
    ensures
        entropy_units(s) == 0,
        s.len() >= 1 ==> entropy_q16(s) == 0,
{
    lemma_ent_sum_pure(s, s.len() as int);
}

proof fn lemma_ent_sum_uniform(s: Seq<u64>, m: nat, k: int)
    requires
        0 <= k <= s.len(),
        forall|i: int| 0 <= i < s.len() ==> count_eq(s, #[trigger] s[i]) == m,
    ensures
        ent_sum(s, k) == k * (log2_q16_spec(s.len()) - log2_q16_spec(m)),
    decreases k,
{
    if k <= 0 {
        vstd::arithmetic::mul::lemma_mul_basics(log2_q16_spec(s.len()) - log2_q16_spec(m));
    } else {
        lemma_ent_sum_uniform(s, m, k - 1);
        assert(count_eq(s, s[k - 1]) == m);
        let t = log2_q16_spec(s.len()) - log2_q16_spec(m);
        assert(ent_sum(s, k) == ent_sum(s, k - 1) + log2_q16_spec(s.len()) - log2_q16_spec(
            count_eq(s, s[k - 1]),
        ));
        assert(ent_sum(s, k) == (k - 1) * t + t);
        assert((k - 1) * t + t == k * t) by {
            vstd::arithmetic::mul::lemma_mul_is_distributive_add_other_way(t, k - 1, 1);
        }
    }
}

/// When every label of `s` occurs exactly `m` times — that is, the classes
/// are equally probable — the scaled entropy is exactly
/// `n * (log2(n) - log2(m))` in Q16; with `m == 1` and `k = n` classes, the
/// per-row entropy is exactly the fixed-point `log2(k)`.
pub proof fn lemma_entropy_equally_probable(s: Seq<u64>, m: nat)
    requires
        s.len() >= 1,
        s.len() < 0x1_0000_0000_0000_0000,
        forall|i: int| 0 <= i < s.len() ==> count_eq(s, #[trigger] s[i]) == m,
    ensures
        entropy_units(s) == s.len() * (log2_q16_spec(s.len()) - log2_q16_spec(m)),
        m == 1 ==> entropy_q16(s) == log2_q16_spec(s.len()),
{
    lemma_ent_sum_uniform(s, m, s.len() as int);
    if m == 1 {
        assert(log2_q16_spec(1) == 0) by {
            lemma_log2_pow2(0);
            vstd::arithmetic::power2::lemma2_to64();
        }
        let n = s.len() as int;
        let t = log2_q16_spec(s.len()) - 0;
        assert((n * t) / n == t) by {
            vstd::arithmetic::div_mod::lemma_div_multiples_vanish(t, n);
        }
    }
}

/// Number of rows of `y` holding the label `v`.
#[verifier::loop_isolation(false)]
pub fn count_label(y: &Vec<u64>, v: u64) -> (c: usize)
    ensures
        c == count_eq(y@, v),
{
    let mut c: usize = 0;
    let mut i: usize = 0;
    while i < y.len()
        invariant
            i <= y.len(),
            c <= i,
            c == count_eq(y@.take(i as int), v),
        decreases y.len() - i,
    {
        proof {
            assert(y@.take(i + 1).drop_last() =~= y@.take(i as int));
            assert(y@.take(i + 1).last() == y@[i as int]);
        }
        if y[i] == v {
            c = c + 1;
        }
        i = i + 1;
    }
    proof {
        assert(y@.take(y@.len() as int) =~= y@);
    }
    c
}

/// Scaled entropy of a label vector: entropy times length, in Q16.
#[verifier::loop_isolation(false)]
pub fn entropy_units_vec(y: &Vec<u64>) -> (e: u128)
    ensures
        e as int == entropy_units(y@),
{
    let n = y.len();
    if n == 0 {
        return 0;
    }
    let ln = log2_q16(n as u64);
    let mut e: u128 = 0;
    let mut i: usize = 0;
    while i < n
        invariant
            i <= n,
            e as int == ent_sum(y@, i as int),
            e <= (i as u128) * 0x40_0000,
        decreases n - i,
    {
        let c = count_label(y, y[i]);
        proof {
            lemma_count_pos(y@, i as int);
            lemma_count_le_len(y@, y@[i as int]);
            lemma_log2_mono(count_eq(y@, y@[i as int]), y@.len());
            lemma_log2_upper(y@.len());
            assert((i as int) * 0x40_0000 + 0x40_0000 == (i + 1) * 0x40_0000) by {
                vstd::arithmetic::mul::lemma_mul_is_distributive_add_other_way(
                    0x40_0000,
                    i as int,
                    1,
                );
            }
            assert((i + 1) as u128 * 0x40_0000 <= (n as u128) * 0x40_0000) by {
                vstd::arithmetic::mul::lemma_mul_inequality(
                    (i + 1) as int,
                    n as int,
                    0x40_0000,
                );
            }
        }
        let lc = log2_q16(c as u64);
        e = e + ((ln - lc) as u128);
        i = i + 1;
    }
    e
}

/// Entropy of a label vector in Q16 fixed point, rounded down; an empty
/// vector has entropy zero by convention.
#[verifier::loop_isolation(false)]
pub fn entropy(y: &Vec<u64>) -> (e: u64)
    ensures
        e as int == entropy_q16(y@),
        e <= 0x40_0000,
{
    if y.len() == 0 {
        return 0;
    }
    let units = entropy_units_vec(y);
    proof {
        assert(y.len() == y@.len());
        lemma_entropy_units_bounds(y@);
        vstd::arithmetic::div_mod::lemma_div_is_ordered(
            units as int,
            y@.len() as int * 0x40_0000,
            y@.len() as int,
        );
        assert((y@.len() * 0x40_0000) as int / y@.len() as int == 0x40_0000) by {
            vstd::arithmetic::div_mod::lemma_div_by_multiple(0x40_0000, y@.len() as int);
            vstd::arithmetic::mul::lemma_mul_is_commutative(y@.len() as int, 0x40_0000);
        }
        vstd::arithmetic::div_mod::lemma_div_pos_is_pos(units as int, y@.len() as int);
    }
    (units / (y.len() as u128)) as u64
}

/// The rows of `y` selected by `idx`, in order.
#[verifier::loop_isolation(false)]
pub fn select_label_rows(y: &Vec<u64>, idx: &Vec<usize>) -> (out: Vec<u64>)
    requires
        indexes_within(idx@, y@.len()),
    ensures
        out@ == select_labels(y@, idx@),
{
    let mut out: Vec<u64> = Vec::new();
    let mut i: usize = 0;
    while i < idx.len()
        invariant
            i <= idx.len(),
            out@ == select_labels(y@, idx@.take(i as int)),
        decreases idx.len() - i,
    {
        out.push(y[idx[i]]);
        proof {
            assert(out@ =~= select_labels(y@, idx@.take(i + 1)));
        }
        i = i + 1;
    }
    proof {
        assert(idx@.take(idx@.len() as int) =~= idx@);
    }
    out
}

/// Scores a candidate binary partition of a node's labels; larger is better.
pub trait SelectionMeasure: Sized {
    /// The score that `apply` returns, as a mathematical function of the
    /// labels and the two index lists.
    spec fn score_spec(&self, y: Seq<u64>, l: Seq<usize>, r: Seq<usize>) -> int;

    /// Score the partition of `y` given by the index lists `left_indexes`
    /// and `right_indexes`.
    fn apply(&self, y: &Vec<u64>, left_indexes: &Vec<usize>, right_indexes: &Vec<usize>) -> (score: i128)
        requires
            indexes_within(left_indexes@, y@.len()),
            indexes_within(right_indexes@, y@.len()),
        ensures
            score as int == self.score_spec(y@, left_indexes@, right_indexes@),
            SCORE_SENTINEL < score,
    ;
}

/// Scores a partition by its information gain: the entropy of the whole
/// label set minus the size-weighted entropies of the two sides, everything
/// in the scaled units of `entropy_units`.
#[derive(Debug)]
pub struct EntropySelectionMeasure {}

impl EntropySelectionMeasure {
    /// An entropy-gain measure.
    pub fn new() -> (m: EntropySelectionMeasure)
        ensures
            m == (EntropySelectionMeasure {  }),
    {
        EntropySelectionMeasure {  }
    }
}

impl SelectionMeasure for EntropySelectionMeasure {
    open spec fn score_spec(&self, y: Seq<u64>, l: Seq<usize>, r: Seq<usize>) -> int {
        gain_units(y, l, r)
    }

    fn apply(&self, y: &Vec<u64>, left_indexes: &Vec<usize>, right_indexes: &Vec<usize>) -> (score: i128) {
        let yl = select_label_rows(y, left_indexes);
        let yr = select_label_rows(y, right_indexes);
        let total = entropy_units_vec(y);
        let el = entropy_units_vec(&yl);
        let er = entropy_units_vec(&yr);
        proof {
            assert(y.len() == y@.len());
            assert(yl.len() == yl@.len());
            assert(yr.len() == yr@.len());
            lemma_entropy_units_bounds(y@);
            lemma_entropy_units_bounds(yl@);
            lemma_entropy_units_bounds(yr@);
            lemma_units_cap(y@);
            lemma_units_cap(yl@);
            lemma_units_cap(yr@);
        }
        total as i128 - el as i128 - er as i128
    }
}

/// The scaled entropy of any label vector fits far below `2^87`.
proof fn lemma_units_cap(s: Seq<u64>)
    requires
        s.len() < 0x1_0000_0000_0000_0000,
    ensures
        0 <= entropy_units(s) < 0x80_0000_0000_0000_0000_0000,
{
    lemma_entropy_units_bounds(s);
    assert(s.len() * 0x40_0000 < 0x1_0000_0000_0000_0000 * 0x40_0000) by {
        vstd::arithmetic::mul::lemma_mul_strict_inequality(
            s.len() as int,
            0x1_0000_0000_0000_0000,
            0x40_0000,
        );
    }
}

} // verus!
