//! Label histograms: the distinct labels of a vector in order of first
//! occurrence, each with the number of times it occurs.

use vstd::prelude::*;
use crate::measures::count_eq;
use crate::measures::count_label;

verus! {

/// The distinct labels of `s`, in order of first occurrence.
pub open spec fn distinct_labels(s: Seq<u64>) -> Seq<u64>
    decreases s.len(),
{
    if s.len() == 0 {
        Seq::empty()
    } else {
        let rest = distinct_labels(s.drop_last());
        if rest.contains(s.last()) {
            rest
        } else {
            rest.push(s.last())
        }
    }
}

/// Whether `keys` holds the label `v`.
#[verifier::loop_isolation(false)]
fn contains_label(keys: &Vec<u64>, v: u64) -> (b: bool)
    ensures
        b == keys@.contains(v),
{
    let mut g: usize = 0;
    while g < keys.len()
        invariant
            g <= keys@.len(),
            forall|w: int| 0 <= w < g ==> keys@[w] != v,
        decreases keys@.len() - g,
    {
        if keys[g] == v {
            return true;
        }
        g = g + 1;
    }
    proof {
        if keys@.contains(v) {
            let w = choose|w: int| 0 <= w < keys@.len() && keys@[w] == v;
        }
    }
    false
}

/// The frequency histogram of a label vector: each distinct label in order
/// of first occurrence, paired with the number of rows holding it.
#[verifier::loop_isolation(false)]
pub fn histogram(ds: &Vec<u64>) -> (h: Vec<(u64, usize)>)
    ensures
        h@.len() == distinct_labels(ds@).len(),
        forall|g: int|
            0 <= g < h@.len() ==> #[trigger] h@[g].0 == distinct_labels(ds@)[g] && h@[g].1
                == count_eq(ds@, h@[g].0),
{
    let mut keys: Vec<u64> = Vec::new();
    let mut i: usize = 0;
    proof {
        assert(keys@ =~= distinct_labels(ds@.take(0)));
    }
    while i < ds.len()
        invariant
            i <= ds@.len(),
            keys@ == distinct_labels(ds@.take(i as int)),
        decreases ds@.len() - i,
    {
        let v = ds[i];
        proof {
            assert(ds@.take(i as int + 1).drop_last() =~= ds@.take(i as int));
            assert(ds@.take(i as int + 1).last() == v);
        }
        if !contains_label(&keys, v) {
            keys.push(v);
        }
        i = i + 1;
    }
    proof {
        assert(ds@.take(ds@.len() as int) =~= ds@);
    }
    let mut h: Vec<(u64, usize)> = Vec::new();
    let mut g: usize = 0;
    while g < keys.len()
        invariant
            g <= keys@.len(),
            h@.len() == g,
            keys@ == distinct_labels(ds@),
            forall|w: int|
                0 <= w < g ==> #[trigger] h@[w].0 == distinct_labels(ds@)[w] && h@[w].1 == count_eq(
                    ds@,
                    h@[w].0,
                ),
        decreases keys@.len() - g,
    {
        let key = keys[g];
        let count = count_label(ds, key);
        h.push((key, count));
        g = g + 1;
    }
    h
}

} // verus!
