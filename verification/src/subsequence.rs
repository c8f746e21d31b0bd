use vstd::prelude::*;

verus! {

/// Whether `a` can be obtained from `b` by deleting elements, keeping the
/// relative order of the rest.
pub open spec fn is_subsequence_of<T>(a: Seq<T>, b: Seq<T>) -> bool
    decreases a.len() + b.len(),
{
    if a.len() == 0 {
        true
    } else if b.len() == 0 {
        false
    } else if a.last() == b.last() {
        is_subsequence_of(a.drop_last(), b.drop_last())
    } else {
        is_subsequence_of(a, b.drop_last())
    }
}

/// Dropping the last element of a subsequence leaves a subsequence.
pub proof fn lemma_subseq_drop_last<T>(a: Seq<T>, b: Seq<T>)
    requires
        is_subsequence_of(a, b),
        a.len() > 0,
    ensures
        is_subsequence_of(a.drop_last(), b),
    decreases b.len(),
{
    if b.len() == 0 {
        assert(false);
    } else if a.last() == b.last() {
        if a.drop_last().len() == 0 {
        } else if a.drop_last().last() == b.last() {
            lemma_subseq_drop_last(a.drop_last(), b.drop_last());
        }
    } else {
        lemma_subseq_drop_last(a, b.drop_last());
        if a.drop_last().len() == 0 {
        } else if a.drop_last().last() == b.last() {
            lemma_subseq_drop_last(a.drop_last(), b.drop_last());
        }
    }
}

/// Extending the containing sequence on the right preserves subsequences.
pub proof fn lemma_subseq_extend<T>(a: Seq<T>, b: Seq<T>, y: T)
    requires
        is_subsequence_of(a, b),
    ensures
        is_subsequence_of(a, b.push(y)),
{
    assert((b.push(y)).drop_last() =~= b);
    if a.len() == 0 {
    } else if a.last() == y {
        lemma_subseq_drop_last(a, b);
    }
}

} // verus!
