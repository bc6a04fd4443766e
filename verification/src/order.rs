//! A stable insertion sort, generic over the ordering each result-row type
//! declares. Stability means rows that compare equal keep their first-seen
//! order, which makes every catalog ordering deterministic.
use vstd::prelude::*;
use crate::seqsum::{seq_sum_by, lemma_seq_sum_by_remove, lemma_seq_sum_by_insert};

verus! {

/// An ordering a row type sorts by: a total, transitive `le_spec`, with an
/// executable test agreeing with it.
pub trait SortKey: Sized {
    /// "May come at or before": the intended (non-strict) order.
    spec fn le_spec(self, other: Self) -> bool;

    /// The order is total.
    proof fn lemma_total(a: Self, b: Self)
        ensures
            a.le_spec(b) || b.le_spec(a),
    ;

    /// The order is transitive.
    proof fn lemma_trans(a: Self, b: Self, c: Self)
        requires
            a.le_spec(b),
            b.le_spec(c),
        ensures
            a.le_spec(c),
    ;

    /// Executable comparison agreeing with `le_spec`.
    fn le(&self, other: &Self) -> (r: bool)
        ensures
            r == self.le_spec(*other),
    ;
}

/// Every element comes at or before every later one.
pub open spec fn sorted_by_key<T: SortKey>(s: Seq<T>) -> bool {
    forall|i: int, j: int| 0 <= i < j < s.len() ==> #[trigger] s[i].le_spec(s[j])
}

/// Stable insertion sort. The result is ordered by `le_spec`, and every
/// function summed over the rows is unchanged (the result is a permutation
/// of the input).
pub fn sort_by_key<T: SortKey>(v: &mut Vec<T>)
    ensures
        final(v)@.len() == old(v)@.len(),
        sorted_by_key(final(v)@),
        forall|f: spec_fn(T) -> int|
            #[trigger] seq_sum_by(final(v)@, f) == seq_sum_by(old(v)@, f),
{
    let ghost orig = v@;
    if v.len() < 2 {
        return ;
    }
    let mut i: usize = 1;
    while i < v.len()
        invariant
            1 <= i <= v@.len(),
            v@.len() == orig.len(),
            sorted_by_key(v@.subrange(0, i as int)),
            forall|f: spec_fn(T) -> int|
                #[trigger] seq_sum_by(v@, f) == seq_sum_by(orig, f),
        decreases v@.len() - i,
    {
        let ghost before = v@;
        let x = v.remove(i);
        let ghost removed = v@;
        let mut j: usize = 0;
        while j < i && v[j].le(&x)
            invariant
                0 <= j <= i,
                i < before.len(),
                v@ == removed,
                removed == before.remove(i as int),
                x == before[i as int],
                forall|k: int| 0 <= k < j ==> (#[trigger] removed[k]).le_spec(x),
            decreases i - j,
        {
            j += 1;
        }
        proof {
            if j < i {
                T::lemma_total(before[j as int], x);
            }
        }
        v.insert(j, x);
        proof {
            let t = v@;
            let jj = j as int;
            let ii = i as int;
            assert forall|p: int, q: int| 0 <= p < q < ii + 1 implies #[trigger] t[p].le_spec(
                t[q],
            ) by {
                // Elements of t in the sorted prefix: t[k] == before[k] for
                // k < jj, t[jj] == x, and t[k] == before[k - 1] for jj < k <= ii.
                if q < jj {
                    assert(t[p] == before[p] && t[q] == before[q]);
                } else if q == jj {
                    assert(t[p] == before[p]);
                } else if p < jj {
                    assert(t[p] == before[p] && t[q] == before[q - 1]);
                } else if p == jj {
                    assert(t[q] == before[q - 1]);
                    assert(x.le_spec(before[jj]));
                    if q - 1 > jj {
                        T::lemma_trans(x, before[jj], before[q - 1]);
                    }
                } else {
                    assert(t[p] == before[p - 1] && t[q] == before[q - 1]);
                }
            }
            assert(sorted_by_key(t.subrange(0, ii + 1))) by {
                assert(forall|k: int|
                    0 <= k < ii + 1 ==> t.subrange(0, ii + 1)[k] == #[trigger] t[k]);
            }
            assert forall|f: spec_fn(T) -> int|
                #[trigger] seq_sum_by(t, f) == seq_sum_by(orig, f) by {
                lemma_seq_sum_by_remove(before, f, ii);
                lemma_seq_sum_by_insert(removed, f, jj, x);
            }
        }
        i += 1;
    }
    proof {
        assert(v@.subrange(0, v@.len() as int) =~= v@);
    }
}

} // verus!
