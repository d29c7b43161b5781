//! Sums and products of integer sequences, and their independence from the
//! order of the terms.

use vstd::prelude::*;

verus! {

/// Sum of the terms of `s`; the empty sum is 0.
pub open spec fn seq_sum(s: Seq<int>) -> int
    decreases s.len(),
{
    if s.len() == 0 {
        0
    } else {
        seq_sum(s.drop_last()) + s.last()
    }
}

/// Product of the terms of `s`; the empty product is 1.
pub open spec fn seq_prod(s: Seq<int>) -> int
    decreases s.len(),
{
    if s.len() == 0 {
        1
    } else {
        seq_prod(s.drop_last()) * s.last()
    }
}

/// With every term at least 1, the product of a prefix is at most the
/// product of the whole sequence.
pub proof fn lemma_prefix_prod_le(s: Seq<int>, i: int)
    requires
        0 <= i <= s.len(),
        forall|k: int| 0 <= k < s.len() ==> #[trigger] s[k] >= 1,
    ensures
        1 <= seq_prod(s.subrange(0, i)) <= seq_prod(s),
    decreases s.len(),
{
    if i == s.len() {
        assert(s.subrange(0, i) =~= s);
        lemma_prod_positive(s);
    } else {
        let t = s.drop_last();
        assert(s.subrange(0, i) =~= t.subrange(0, i));
        lemma_prefix_prod_le(t, i);
        let a = seq_prod(t);
        let b = s.last();
        assert(a <= a * b) by (nonlinear_arith)
            requires
                a >= 1,
                b >= 1,
        ;
    }
}

/// With every term at least 1, the product is at least 1.
pub proof fn lemma_prod_positive(s: Seq<int>)
    requires
        forall|k: int| 0 <= k < s.len() ==> #[trigger] s[k] >= 1,
    ensures
        seq_prod(s) >= 1,
    decreases s.len(),
{
    if s.len() > 0 {
        let t = s.drop_last();
        lemma_prod_positive(t);
        let a = seq_prod(t);
        let b = s.last();
        assert(a * b >= 1) by (nonlinear_arith)
            requires
                a >= 1,
                b >= 1,
        ;
    }
}

/// With every term non-negative, the product is non-negative.
pub proof fn lemma_prod_nonneg(s: Seq<int>)
    requires
        forall|k: int| 0 <= k < s.len() ==> #[trigger] s[k] >= 0,
    ensures
        seq_prod(s) >= 0,
    decreases s.len(),
{
    if s.len() > 0 {
        let t = s.drop_last();
        lemma_prod_nonneg(t);
        let a = seq_prod(t);
        let b = s.last();
        assert(a * b >= 0) by (nonlinear_arith)
            requires
                a >= 0,
                b >= 0,
        ;
    }
}

/// Taking out the term at `j` takes it out of the sum.
pub proof fn lemma_sum_remove(s: Seq<int>, j: int)
    requires
        0 <= j < s.len(),
    ensures
        seq_sum(s) == seq_sum(s.remove(j)) + s[j],
    decreases s.len(),
{
    if j == s.len() - 1 {
        assert(s.remove(j) =~= s.drop_last());
    } else {
        assert(s.remove(j).drop_last() =~= s.drop_last().remove(j));
        lemma_sum_remove(s.drop_last(), j);
    }
}

/// Taking out the term at `j` divides it out of the product.
pub proof fn lemma_prod_remove(s: Seq<int>, j: int)
    requires
        0 <= j < s.len(),
    ensures
        seq_prod(s) == seq_prod(s.remove(j)) * s[j],
    decreases s.len(),
{
    if j == s.len() - 1 {
        assert(s.remove(j) =~= s.drop_last());
    } else {
        let t = s.drop_last();
        assert(s.remove(j).drop_last() =~= t.remove(j));
        lemma_prod_remove(t, j);
        let a = seq_prod(t.remove(j));
        let x = s[j];
        let l = s.last();
        assert((a * x) * l == (a * l) * x) by (nonlinear_arith);
    }
}

/// A sequence `t` with the same terms as a non-empty `s` holds the last
/// term of `s` at some index, and what remains of `t` without it has the
/// terms of `s` without its last.
proof fn lemma_match_last(s: Seq<int>, t: Seq<int>) -> (j: int)
    requires
        s.len() > 0,
        s.to_multiset() == t.to_multiset(),
    ensures
        0 <= j < t.len(),
        t[j] == s.last(),
        t.remove(j).to_multiset() == s.drop_last().to_multiset(),
{
    broadcast use vstd::seq_lib::group_to_multiset_ensures;
    broadcast use vstd::multiset::group_multiset_axioms;

    let x = s.last();
    assert(s =~= s.drop_last().push(x));
    assert(t.to_multiset().count(x) > 0);
    assert(t.contains(x));
    let j = choose|j: int| 0 <= j < t.len() && t[j] == x;
    assert(t.remove(j).to_multiset() =~= s.drop_last().to_multiset());
    j
}

/// The sum does not depend on the order of the terms: two sequences with
/// the same terms, each as often, have the same sum.
pub proof fn lemma_sum_permutation(s: Seq<int>, t: Seq<int>)
    requires
        s.to_multiset() == t.to_multiset(),
    ensures
        seq_sum(s) == seq_sum(t),
    decreases s.len(),
{
    broadcast use vstd::seq_lib::group_to_multiset_ensures;

    if s.len() == 0 {
        assert(t.len() == t.to_multiset().len());
    } else {
        let j = lemma_match_last(s, t);
        lemma_sum_permutation(s.drop_last(), t.remove(j));
        lemma_sum_remove(t, j);
    }
}

/// The product does not depend on the order of the factors: two sequences
/// with the same terms, each as often, have the same product.
pub proof fn lemma_prod_permutation(s: Seq<int>, t: Seq<int>)
    requires
        s.to_multiset() == t.to_multiset(),
    ensures
        seq_prod(s) == seq_prod(t),
    decreases s.len(),
{
    broadcast use vstd::seq_lib::group_to_multiset_ensures;

    if s.len() == 0 {
        assert(t.len() == t.to_multiset().len());
    } else {
        let j = lemma_match_last(s, t);
        lemma_prod_permutation(s.drop_last(), t.remove(j));
        lemma_prod_remove(t, j);
    }
}

} // verus!
