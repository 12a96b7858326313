//! Sums built from a caller-supplied addition: what a running total of
//! values is, when the values are of a type the library does not know.
use vstd::prelude::*;

verus! {

/// `partial` holds the running sums of `vals`: it starts at `zero`, and each
/// next entry combines the previous one with the next value through `combine`.
pub open spec fn running_sums<V, G: Fn(V, V) -> V>(combine: G, zero: V, vals: Seq<V>, partial: Seq<V>) -> bool {
    &&& partial.len() == vals.len() + 1
    &&& partial[0] == zero
    &&& forall|i: int| 0 <= i < vals.len() ==> call_ensures(combine, (partial[i], vals[i]), #[trigger] partial[i + 1])
}

/// `r` is `zero` combined, left to right, with each of `vals` through `combine`.
pub open spec fn sum_chain<V, G: Fn(V, V) -> V>(combine: G, zero: V, vals: Seq<V>, r: V) -> bool {
    exists|partial: Seq<V>| #[trigger] running_sums(combine, zero, vals, partial) && partial.last() == r
}

/// One more value extends a chain of sums.
pub proof fn lemma_sum_chain_push<V, G: Fn(V, V) -> V>(combine: G, zero: V, vals: Seq<V>, m: V, x: V, r: V)
    requires
        sum_chain(combine, zero, vals, m),
        call_ensures(combine, (m, x), r),
    ensures
        sum_chain(combine, zero, vals.push(x), r),
{
    let partial = choose|partial: Seq<V>| #[trigger] running_sums(combine, zero, vals, partial) && partial.last() == m;
    let next = partial.push(r);
    assert forall|i: int| 0 <= i < vals.push(x).len() implies call_ensures(combine, (next[i], vals.push(x)[i]), #[trigger] next[i + 1]) by {
        if i < vals.len() {
            assert(next[i] == partial[i] && next[i + 1] == partial[i + 1]);
        }
    }
    assert(running_sums(combine, zero, vals.push(x), next));
}

/// The empty chain sums to `zero`.
pub proof fn lemma_sum_chain_empty<V, G: Fn(V, V) -> V>(combine: G, zero: V)
    ensures
        sum_chain(combine, zero, Seq::<V>::empty(), zero),
{
    assert(running_sums(combine, zero, Seq::<V>::empty(), seq![zero]));
}

/// The integer sum of the values.
pub open spec fn int_total(vals: Seq<i64>) -> int
    decreases vals.len(),
{
    if vals.len() == 0 {
        0
    } else {
        int_total(vals.drop_last()) + vals.last()
    }
}

/// One more value adds it to the integer sum.
pub proof fn lemma_int_total_push(vals: Seq<i64>, x: i64)
    ensures
        int_total(vals.push(x)) == int_total(vals) + x,
{
    assert(vals.push(x).drop_last() =~= vals);
}

proof fn lemma_running_sums_exact<A: Fn(i64, i64) -> i64>(plus: A, vals: Seq<i64>, partial: Seq<i64>, i: int)
    requires
        forall|a: i64, b: i64, c: i64| #[trigger] call_ensures(plus, (a, b), c) ==> c == a + b,
        running_sums(plus, 0i64, vals, partial),
        0 <= i <= vals.len(),
    ensures
        partial[i] == int_total(vals.take(i)),
    decreases i,
{
    if i > 0 {
        lemma_running_sums_exact(plus, vals, partial, i - 1);
        let j = i - 1;
        assert(call_ensures(plus, (partial[j], vals[j]), partial[j + 1]));
        assert(vals.take(i).drop_last() =~= vals.take(i - 1));
    } else {
        assert(vals.take(0) =~= Seq::<i64>::empty());
    }
}

/// With exact addition a chain of sums is the integer sum.
pub proof fn lemma_sum_chain_exact<A: Fn(i64, i64) -> i64>(plus: A, vals: Seq<i64>, r: i64)
    requires
        forall|a: i64, b: i64, c: i64| #[trigger] call_ensures(plus, (a, b), c) ==> c == a + b,
        sum_chain(plus, 0i64, vals, r),
    ensures
        r == int_total(vals),
{
    let partial = choose|partial: Seq<i64>| #[trigger] running_sums(plus, 0i64, vals, partial) && partial.last() == r;
    lemma_running_sums_exact(plus, vals, partial, vals.len() as int);
    assert(vals.take(vals.len() as int) =~= vals);
}

} // verus!
