//! Sums of integer sequences, used to reason about accumulated row widths.

use vstd::prelude::*;

verus! {

/// The sum of all elements of an integer sequence.
pub open spec fn sum_seq(s: Seq<int>) -> int
    decreases s.len(),
{
    if s.len() == 0 {
        0
    } else {
        s[0] + sum_seq(s.drop_first())
    }
}

/// Appending one element adds its value to the sum.
pub proof fn lemma_sum_push(s: Seq<int>, x: int)
    ensures
        sum_seq(s.push(x)) == sum_seq(s) + x,
    decreases s.len(),
{
    if s.len() == 0 {
        assert(s.push(x)[0] == x);
        assert(s.push(x).drop_first() =~= Seq::<int>::empty());
        assert(sum_seq(s.push(x)) == x + sum_seq(Seq::<int>::empty()));
    } else {
        assert(s.push(x)[0] == s[0]);
        assert(s.push(x).drop_first() =~= s.drop_first().push(x));
        lemma_sum_push(s.drop_first(), x);
        assert(sum_seq(s.push(x)) == s[0] + sum_seq(s.drop_first().push(x)));
    }
}

/// The sum of a one-element sequence is that element.
pub proof fn lemma_sum_singleton(x: int)
    ensures
        sum_seq(seq![x]) == x,
{
    assert(seq![x] =~= Seq::<int>::empty().push(x));
    lemma_sum_push(Seq::<int>::empty(), x);
}

/// The sum of a concatenation is the sum of the parts.
pub proof fn lemma_sum_concat(a: Seq<int>, b: Seq<int>)
    ensures
        sum_seq(a + b) == sum_seq(a) + sum_seq(b),
    decreases a.len(),
{
    if a.len() == 0 {
        assert(a + b =~= b);
    } else {
        assert((a + b).drop_first() =~= a.drop_first() + b);
        lemma_sum_concat(a.drop_first(), b);
    }
}

/// A sequence of non-negative elements has a non-negative sum.
pub proof fn lemma_sum_nonneg(s: Seq<int>)
    requires
        forall|i: int| 0 <= i < s.len() ==> s[i] >= 0,
    ensures
        sum_seq(s) >= 0,
    decreases s.len(),
{
    if s.len() > 0 {
        lemma_sum_nonneg(s.drop_first());
    }
}

/// Extending a subrange by one element on the right adds that element.
pub proof fn lemma_sum_subrange_extend(s: Seq<int>, a: int, b: int)
    requires
        0 <= a <= b < s.len(),
    ensures
        sum_seq(s.subrange(a, b + 1)) == sum_seq(s.subrange(a, b)) + s[b],
{
    assert(s.subrange(a, b + 1) =~= s.subrange(a, b).push(s[b]));
    lemma_sum_push(s.subrange(a, b), s[b]);
}

/// Splitting a subrange at a midpoint splits its sum.
pub proof fn lemma_sum_subrange_split(s: Seq<int>, a: int, m: int, b: int)
    requires
        0 <= a <= m <= b <= s.len(),
    ensures
        sum_seq(s.subrange(a, b)) == sum_seq(s.subrange(a, m)) + sum_seq(s.subrange(m, b)),
{
    assert(s.subrange(a, b) =~= s.subrange(a, m) + s.subrange(m, b));
    lemma_sum_concat(s.subrange(a, m), s.subrange(m, b));
}

/// For non-negative elements, the sum of any subrange is bounded by the
/// sum of the whole sequence.
pub proof fn lemma_sum_subrange_bound(s: Seq<int>, a: int, b: int)
    requires
        0 <= a <= b <= s.len(),
        forall|i: int| 0 <= i < s.len() ==> s[i] >= 0,
    ensures
        0 <= sum_seq(s.subrange(a, b)) <= sum_seq(s),
{
    lemma_sum_subrange_split(s, 0, a, b);
    lemma_sum_subrange_split(s, 0, b, s.len() as int);
    assert(s.subrange(0, s.len() as int) =~= s);
    assert(forall|i: int| 0 <= i < s.subrange(0, a).len() ==> s.subrange(0, a)[i] >= 0);
    lemma_sum_nonneg(s.subrange(0, a));
    assert(forall|i: int| 0 <= i < s.subrange(a, b).len() ==> s.subrange(a, b)[i] >= 0);
    lemma_sum_nonneg(s.subrange(a, b));
    assert(forall|i: int| 0 <= i < s.subrange(b, s.len() as int).len()
        ==> s.subrange(b, s.len() as int)[i] >= 0);
    lemma_sum_nonneg(s.subrange(b, s.len() as int));
}

} // verus!
