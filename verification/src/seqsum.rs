//! Summing a function over a sequence, and how such sums behave under the
//! edits (push, update, remove, insert) that the grouping and sorting code
//! performs. A permutation can then be characterized by "every such sum is
//! unchanged", which carries counts, totals and key multiplicities through
//! a sort in one statement.
use vstd::prelude::*;
use vstd::multiset::Multiset;

verus! {

/// The sum of `f` over all elements of `s`.
pub open spec fn seq_sum_by<A>(s: Seq<A>, f: spec_fn(A) -> int) -> int
    decreases s.len(),
{
    if s.len() == 0 {
        0
    } else {
        seq_sum_by(s.drop_last(), f) + f(s.last())
    }
}

/// Pushing an element adds its contribution.
pub proof fn lemma_seq_sum_by_push<A>(s: Seq<A>, f: spec_fn(A) -> int, x: A)
    ensures
        seq_sum_by(s.push(x), f) == seq_sum_by(s, f) + f(x),
{
    assert(s.push(x).drop_last() =~= s);
}

/// Removing the element at `i` subtracts its contribution.
pub proof fn lemma_seq_sum_by_remove<A>(s: Seq<A>, f: spec_fn(A) -> int, i: int)
    requires
        0 <= i < s.len(),
    ensures
        seq_sum_by(s.remove(i), f) == seq_sum_by(s, f) - f(s[i]),
    decreases s.len(),
{
    if i == s.len() - 1 {
        assert(s.remove(i) =~= s.drop_last());
    } else {
        assert(s.remove(i).drop_last() =~= s.drop_last().remove(i));
        assert(s.remove(i).last() == s.last());
        lemma_seq_sum_by_remove(s.drop_last(), f, i);
    }
}

/// Inserting `x` at `j` adds its contribution.
pub proof fn lemma_seq_sum_by_insert<A>(s: Seq<A>, f: spec_fn(A) -> int, j: int, x: A)
    requires
        0 <= j <= s.len(),
    ensures
        seq_sum_by(s.insert(j, x), f) == seq_sum_by(s, f) + f(x),
    decreases s.len(),
{
    if j == s.len() {
        assert(s.insert(j, x) =~= s.push(x));
        lemma_seq_sum_by_push(s, f, x);
    } else {
        assert(s.insert(j, x).drop_last() =~= s.drop_last().insert(j, x));
        assert(s.insert(j, x).last() == s.last());
        lemma_seq_sum_by_insert(s.drop_last(), f, j, x);
    }
}

/// Replacing the element at `i` swaps its contribution.
pub proof fn lemma_seq_sum_by_update<A>(s: Seq<A>, f: spec_fn(A) -> int, i: int, x: A)
    requires
        0 <= i < s.len(),
    ensures
        seq_sum_by(s.update(i, x), f) == seq_sum_by(s, f) - f(s[i]) + f(x),
    decreases s.len(),
{
    if i == s.len() - 1 {
        assert(s.update(i, x).drop_last() =~= s.drop_last());
        assert(s.update(i, x).last() == x);
    } else {
        assert(s.update(i, x).drop_last() =~= s.drop_last().update(i, x));
        assert(s.update(i, x).last() == s.last());
        lemma_seq_sum_by_update(s.drop_last(), f, i, x);
    }
}

/// A value's multiplicity in a sequence is the sum of its indicator function.
pub proof fn lemma_seq_sum_by_count<A>(s: Seq<A>, x: A)
    ensures
        s.to_multiset().count(x) == seq_sum_by(s, |y: A| if y == x { 1int } else { 0int }),
    decreases s.len(),
{
    broadcast use vstd::seq_lib::group_to_multiset_ensures;

    let f = |y: A| if y == x { 1int } else { 0int };
    if s.len() == 0 {
        assert(s.to_multiset() =~= Multiset::<A>::empty());
        assert(s.to_multiset().count(x) == 0);
    } else {
        lemma_seq_sum_by_count(s.drop_last(), x);
        assert(s =~= s.drop_last().push(s.last()));
        assert(s.to_multiset() =~= s.drop_last().to_multiset().insert(s.last()));
    }
}

/// Two sequences whose every function-sum agrees hold the same elements with
/// the same multiplicities.
pub proof fn lemma_sums_equal_multisets_equal<A>(s: Seq<A>, t: Seq<A>)
    requires
        forall|f: spec_fn(A) -> int| #[trigger] seq_sum_by(s, f) == seq_sum_by(t, f),
    ensures
        s.to_multiset() == t.to_multiset(),
{
    assert forall|x: A| s.to_multiset().count(x) == t.to_multiset().count(x) by {
        lemma_seq_sum_by_count(s, x);
        lemma_seq_sum_by_count(t, x);
        let f = |y: A| if y == x { 1int } else { 0int };
        assert(seq_sum_by(s, f) == seq_sum_by(t, f));
    }
    assert(s.to_multiset() =~= t.to_multiset());
}

/// A sum of a pointwise nonnegative function is nonnegative, and is positive
/// exactly when some element contributes.
pub proof fn lemma_seq_sum_by_nonneg<A>(s: Seq<A>, f: spec_fn(A) -> int)
    requires
        forall|i: int| 0 <= i < s.len() ==> #[trigger] f(s[i]) >= 0,
    ensures
        seq_sum_by(s, f) >= 0,
        seq_sum_by(s, f) > 0 <==> exists|i: int| 0 <= i < s.len() && #[trigger] f(s[i]) > 0,
    decreases s.len(),
{
    if s.len() > 0 {
        lemma_seq_sum_by_nonneg(s.drop_last(), f);
        if f(s.last()) > 0 {
            assert(f(s[s.len() - 1]) > 0);
        } else if seq_sum_by(s.drop_last(), f) > 0 {
            let i = choose|i: int|
                0 <= i < s.drop_last().len() && #[trigger] f(s.drop_last()[i]) > 0;
            assert(f(s[i]) > 0);
        } else {
            assert(forall|i: int| 0 <= i < s.len() ==> #[trigger] f(s[i]) <= 0) by {
                assert(forall|i: int|
                    0 <= i < s.len() - 1 ==> f(#[trigger] s[i]) == f(s.drop_last()[i]));
            }
        }
    }
}

/// A sum of a pointwise 0/1 function over a sequence in which no two
/// positions both contribute is at most one.
pub proof fn lemma_seq_sum_by_at_most_one<A>(s: Seq<A>, f: spec_fn(A) -> int)
    requires
        forall|i: int| 0 <= i < s.len() ==> 0 <= #[trigger] f(s[i]) <= 1,
        forall|i: int, j: int|
            0 <= i < j < s.len() ==> !(#[trigger] f(s[i]) > 0 && #[trigger] f(s[j]) > 0),
    ensures
        seq_sum_by(s, f) <= 1,
    decreases s.len(),
{
    if s.len() > 0 {
        assert(forall|i: int|
            0 <= i < s.len() - 1 ==> f(#[trigger] s.drop_last()[i]) == f(s[i]));
        lemma_seq_sum_by_at_most_one(s.drop_last(), f);
        if f(s.last()) > 0 {
            assert(forall|i: int| 0 <= i < s.len() - 1 ==> #[trigger] f(s[i]) <= 0);
            lemma_seq_sum_by_nonneg(s.drop_last(), f);
        }
    }
}

/// Two positions that both contribute at least one make the sum of a
/// pointwise nonnegative function at least two.
pub proof fn lemma_seq_sum_by_at_least_two<A>(s: Seq<A>, f: spec_fn(A) -> int, i: int, j: int)
    requires
        forall|k: int| 0 <= k < s.len() ==> #[trigger] f(s[k]) >= 0,
        0 <= i < j < s.len(),
        f(s[i]) >= 1,
        f(s[j]) >= 1,
    ensures
        seq_sum_by(s, f) >= 2,
    decreases s.len(),
{
    assert(forall|k: int| 0 <= k < s.len() - 1 ==> f(#[trigger] s.drop_last()[k]) == f(s[k]));
    if j == s.len() - 1 {
        lemma_seq_sum_by_nonneg(s.drop_last(), f);
        assert(f(s.drop_last()[i]) > 0);
        assert(seq_sum_by(s.drop_last(), f) > 0);
    } else {
        lemma_seq_sum_by_at_least_two(s.drop_last(), f, i, j);
        assert(f(s.last()) >= 0);
    }
}

/// A pointwise property of every element survives any edit that keeps all
/// function-sums (such as sorting).
pub proof fn lemma_all_preserved<A>(s: Seq<A>, t: Seq<A>, p: spec_fn(A) -> bool)
    requires
        forall|f: spec_fn(A) -> int| #[trigger] seq_sum_by(t, f) == seq_sum_by(s, f),
        forall|i: int| 0 <= i < s.len() ==> p(#[trigger] s[i]),
    ensures
        forall|i: int| 0 <= i < t.len() ==> p(#[trigger] t[i]),
{
    let f = |x: A| if p(x) { 0int } else { 1int };
    lemma_seq_sum_by_nonneg(s, f);
    lemma_seq_sum_by_nonneg(t, f);
    assert(seq_sum_by(t, f) == seq_sum_by(s, f));
    assert forall|i: int| 0 <= i < t.len() implies p(#[trigger] t[i]) by {
        if !p(t[i]) {
            assert(f(t[i]) > 0);
            assert(seq_sum_by(t, f) > 0);
            assert(exists|k: int| 0 <= k < s.len() && #[trigger] f(s[k]) > 0);
        }
    }
}

/// An element with a given property survives any edit that keeps all
/// function-sums.
pub proof fn lemma_exists_preserved<A>(s: Seq<A>, t: Seq<A>, p: spec_fn(A) -> bool)
    requires
        forall|f: spec_fn(A) -> int| #[trigger] seq_sum_by(t, f) == seq_sum_by(s, f),
        exists|i: int| 0 <= i < s.len() && p(#[trigger] s[i]),
    ensures
        exists|i: int| 0 <= i < t.len() && p(#[trigger] t[i]),
{
    let f = |x: A| if p(x) { 1int } else { 0int };
    lemma_seq_sum_by_nonneg(s, f);
    lemma_seq_sum_by_nonneg(t, f);
    let i = choose|i: int| 0 <= i < s.len() && p(#[trigger] s[i]);
    assert(f(s[i]) > 0);
    assert(seq_sum_by(t, f) > 0);
    let k = choose|k: int| 0 <= k < t.len() && #[trigger] f(t[k]) > 0;
    assert(p(t[k]));
}

/// Pairwise distinctness of a key survives any edit that keeps all
/// function-sums.
pub proof fn lemma_distinct_preserved<A, K>(s: Seq<A>, t: Seq<A>, keyf: spec_fn(A) -> K)
    requires
        forall|f: spec_fn(A) -> int| #[trigger] seq_sum_by(t, f) == seq_sum_by(s, f),
        forall|i: int, j: int|
            0 <= i < j < s.len() ==> keyf(#[trigger] s[i]) != keyf(#[trigger] s[j]),
    ensures
        forall|i: int, j: int|
            0 <= i < j < t.len() ==> keyf(#[trigger] t[i]) != keyf(#[trigger] t[j]),
{
    assert forall|i: int, j: int|
        0 <= i < j < t.len() implies keyf(#[trigger] t[i]) != keyf(#[trigger] t[j]) by {
        if keyf(t[i]) == keyf(t[j]) {
            let k = keyf(t[i]);
            let f = |x: A| if keyf(x) == k { 1int } else { 0int };
            lemma_seq_sum_by_at_least_two(t, f, i, j);
            lemma_seq_sum_by_at_most_one(s, f);
            assert(seq_sum_by(t, f) == seq_sum_by(s, f));
        }
    }
}

} // verus!
