use vstd::prelude::*;

verus! {

/// The sum of a sequence of counts.
pub open spec fn sum(counts: Seq<nat>) -> nat
    decreases counts.len(),
{
    if counts.len() == 0 {
        0
    } else {
        sum(counts.drop_last()) + counts.last()
    }
}

pub proof fn lemma_sum_push(counts: Seq<nat>, count: nat)
    ensures
        sum(counts.push(count)) == sum(counts) + count,
{
    assert(counts.push(count).drop_last() =~= counts);
}

/// No count exceeds the sum.
pub proof fn lemma_sum_bounds(counts: Seq<nat>, i: int)
    requires
        0 <= i < counts.len(),
    ensures
        counts[i] <= sum(counts),
    decreases counts.len(),
{
    if i < counts.len() - 1 {
        lemma_sum_bounds(counts.drop_last(), i);
    }
}

/// Replacing one count changes the sum by the difference.
pub proof fn lemma_sum_update(counts: Seq<nat>, i: int, count: nat)
    requires
        0 <= i < counts.len(),
    ensures
        sum(counts.update(i, count)) + counts[i] == sum(counts) + count,
    decreases counts.len(),
{
    if i < counts.len() - 1 {
        lemma_sum_update(counts.drop_last(), i, count);
        assert(counts.update(i, count).drop_last() =~= counts.drop_last().update(i, count));
    } else {
        assert(counts.update(i, count).drop_last() =~= counts.drop_last());
    }
}

/// The sum of the first `n + 1` counts is that of the first `n` plus the next one.
pub proof fn lemma_sum_take(counts: Seq<nat>, n: int)
    requires
        0 <= n < counts.len(),
    ensures
        sum(counts.take(n + 1)) == sum(counts.take(n)) + counts[n],
{
    assert(counts.take(n + 1).drop_last() =~= counts.take(n));
}

/// The sum of the first counts does not exceed the sum of all.
pub proof fn lemma_sum_take_bounds(counts: Seq<nat>, n: int)
    requires
        0 <= n <= counts.len(),
    ensures
        sum(counts.take(n)) <= sum(counts),
    decreases counts.len() - n,
{
    if n < counts.len() {
        lemma_sum_take(counts, n);
        lemma_sum_take_bounds(counts, n + 1);
    } else {
        assert(counts.take(n) =~= counts);
    }
}

} // verus!
