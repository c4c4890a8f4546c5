//! The mathematical values behind sequences of wallet data, and sums over them.

use vstd::prelude::*;

verus! {

/// The views of the items of a sequence, one for one.
pub open spec fn views<T: View>(items: Seq<T>) -> Seq<T::V> {
    Seq::new(items.len(), |i: int| items[i]@)
}

/// The sum of a sequence of values.
pub open spec fn sum(values: Seq<nat>) -> nat
    decreases values.len(),
{
    if values.len() == 0 {
        0
    } else {
        sum(values.drop_last()) + values.last()
    }
}

/// The sum of a sequence with one more value at its end.
pub proof fn lemma_sum_push(values: Seq<nat>, v: nat)
    ensures
        sum(values.push(v)) == sum(values) + v,
{
    assert(values.push(v).drop_last() =~= values);
}

/// The sum of two sequences, one behind the other.
pub proof fn lemma_sum_concat(a: Seq<nat>, b: Seq<nat>)
    ensures
        sum(a + b) == sum(a) + sum(b),
    decreases b.len(),
{
    if b.len() == 0 {
        assert(a + b =~= a);
    } else {
        lemma_sum_concat(a, b.drop_last());
        assert((a + b).drop_last() =~= a + b.drop_last());
    }
}

/// A running total grows by the next value.
pub proof fn lemma_sum_take_next(values: Seq<nat>, k: int)
    requires
        0 <= k < values.len(),
    ensures
        sum(values.take(k + 1)) == sum(values.take(k)) + values[k],
{
    assert(values.take(k + 1).drop_last() =~= values.take(k));
}

/// A running total never exceeds the sum of all values.
pub proof fn lemma_sum_take_le(values: Seq<nat>, k: int)
    requires
        0 <= k <= values.len(),
    ensures
        sum(values.take(k)) <= sum(values),
    decreases values.len() - k,
{
    if k == values.len() {
        assert(values.take(k) =~= values);
    } else {
        lemma_sum_take_next(values, k);
        lemma_sum_take_le(values, k + 1);
    }
}

/// A sum of zeros is zero.
pub proof fn lemma_sum_zeros(values: Seq<nat>)
    requires
        forall|i: int| 0 <= i < values.len() ==> values[i] == 0,
    ensures
        sum(values) == 0,
    decreases values.len(),
{
    if values.len() > 0 {
        lemma_sum_zeros(values.drop_last());
    }
}

} // verus!
