//! Seasonality weights: checking a custom profile, scaling weights to a total
//! of one, and placing them on the months of a fiscal year. Weights are of the
//! caller's type; the operations on them are passed in.
use vstd::prelude::*;
use vstd::arithmetic::div_mod::lemma_add_mod_noop;

use crate::arith::{lemma_sum_chain_empty, lemma_sum_chain_push, sum_chain};

verus! {

/// The weights reordered so that position `i` holds the weight at
/// `(i + fiscal_year_end_month) % 12`; a December year end keeps them as they
/// are.
pub open spec fn rotate_spec<T>(weights: Seq<T>, fiscal_year_end_month: int) -> Seq<T> {
    if fiscal_year_end_month == 12 {
        weights
    } else {
        Seq::new(12, |i: int| weights[(i + fiscal_year_end_month) % 12])
    }
}

/// Rotates twelve monthly weights by the fiscal year end month (no rotation
/// for a December year end).
pub fn rotate_weights_for_fiscal_year<T: Copy>(weights: &[T], fiscal_year_end_month: u32) -> (r: Vec<T>)
    requires
        fiscal_year_end_month == 12 || weights@.len() >= 12,
    ensures
        r@ == rotate_spec(weights@, fiscal_year_end_month as int),
{
    if fiscal_year_end_month == 12 {
        let mut same: Vec<T> = Vec::new();
        for i in 0..weights.len()
            invariant
                same@ == weights@.take(i as int),
        {
            same.push(weights[i]);
            proof {
                assert(weights@.take(i + 1) == weights@.take(i as int).push(weights@[i as int]));
            }
        }
        proof {
            assert(weights@.take(weights@.len() as int) == weights@);
        }
        return same;
    }
    let rotation = (fiscal_year_end_month % 12) as usize;
    let mut rotated: Vec<T> = Vec::with_capacity(12);
    for i in 0..12
        invariant
            rotation == fiscal_year_end_month % 12,
            fiscal_year_end_month != 12,
            weights@.len() >= 12,
            rotated@.len() == i,
            forall|k: int| 0 <= k < i ==> #[trigger] rotated@[k] == weights@[(k + fiscal_year_end_month) % 12],
    {
        let idx = (i + rotation) % 12;
        proof {
            lemma_add_mod_noop(i as int, fiscal_year_end_month as int, 12);
            assert((i as int) % 12 == i);
        }
        rotated.push(weights[idx]);
    }
    proof {
        assert(rotated@ =~= rotate_spec(weights@, fiscal_year_end_month as int));
    }
    rotated
}

/// What is wrong with the weights of a custom profile.
pub enum WeightsProblem<V> {
    /// There are not twelve weights; the count is given.
    Count(usize),
    /// Some weight is negative.
    Negative,
    /// The weights add up to the given total, which is too far from one.
    Sum(V),
}

/// Sums `weights` left to right from `zero` through `plus`.
fn sum_weights<V: Copy, P: Fn(V, V) -> V>(weights: &Vec<V>, plus: &P, zero: V) -> (r: V)
    requires
        forall|a: V, b: V| call_requires(*plus, (a, b)),
    ensures
        sum_chain(*plus, zero, weights@, r),
{
    let mut total = zero;
    proof {
        lemma_sum_chain_empty(*plus, zero);
        assert(weights@.take(0) =~= Seq::<V>::empty());
    }
    for i in 0..weights.len()
        invariant
            forall|a: V, b: V| call_requires(*plus, (a, b)),
            sum_chain(*plus, zero, weights@.take(i as int), total),
    {
        let n = plus(total, weights[i]);
        proof {
            lemma_sum_chain_push(*plus, zero, weights@.take(i as int), total, weights@[i as int], n);
            assert(weights@.take(i + 1) =~= weights@.take(i as int).push(weights@[i as int]));
        }
        total = n;
    }
    proof {
        assert(weights@.take(weights@.len() as int) =~= weights@);
    }
    total
}

/// Checks the weights of a custom profile, in this order: there are twelve of
/// them; none is negative (`is_negative` asked of each in turn until one
/// answers yes); their sum, from `zero` through `plus`, is close enough to one
/// (`sum_is_off` answers no).
pub fn validate_custom_weights<V: Copy, P, N, O>(
    weights: &Vec<V>,
    plus: &P,
    zero: V,
    is_negative: &N,
    sum_is_off: &O,
) -> (r: Result<(), WeightsProblem<V>>) where
    P: Fn(V, V) -> V,
    N: Fn(V) -> bool,
    O: Fn(V) -> bool,

    requires
        forall|a: V, b: V| call_requires(*plus, (a, b)),
        forall|a: V| call_requires(*is_negative, (a,)),
        forall|a: V| call_requires(*sum_is_off, (a,)),
    ensures
        (r matches Err(WeightsProblem::Count(n))) <==> weights@.len() != 12,
        r matches Err(WeightsProblem::Count(n)) ==> n == weights@.len(),
        r matches Err(WeightsProblem::Negative) ==> weights@.len() == 12
            && exists|i: int| 0 <= i < 12 && #[trigger] call_ensures(*is_negative, (weights@[i],), true),
        r matches Err(WeightsProblem::Sum(s)) ==> weights@.len() == 12
            && (forall|i: int| 0 <= i < 12 ==> #[trigger] call_ensures(*is_negative, (weights@[i],), false))
            && sum_chain(*plus, zero, weights@, s)
            && call_ensures(*sum_is_off, (s,), true),
        r is Ok ==> weights@.len() == 12
            && (forall|i: int| 0 <= i < 12 ==> #[trigger] call_ensures(*is_negative, (weights@[i],), false))
            && exists|s: V| #[trigger] sum_chain(*plus, zero, weights@, s) && call_ensures(*sum_is_off, (s,), false),
{
    if weights.len() != 12 {
        return Err(WeightsProblem::Count(weights.len()));
    }
    for i in 0..12
        invariant
            weights@.len() == 12,
            forall|a: V| call_requires(*is_negative, (a,)),
            forall|m: int| 0 <= m < i ==> #[trigger] call_ensures(*is_negative, (weights@[m],), false),
    {
        if is_negative(weights[i]) {
            return Err(WeightsProblem::Negative);
        }
    }
    let sum = sum_weights(weights, plus, zero);
    if sum_is_off(sum) {
        return Err(WeightsProblem::Sum(sum));
    }
    Ok(())
}

/// The weights divided by their sum (from `zero` through `plus`), or as they
/// are when `is_zero` says the sum is zero.
pub fn normalize_weights<V: Copy, P, Z, D>(weights: &Vec<V>, plus: &P, zero: V, is_zero: &Z, divide: &D) -> (r: Vec<V>) where
    P: Fn(V, V) -> V,
    Z: Fn(V) -> bool,
    D: Fn(V, V) -> V,

    requires
        forall|a: V, b: V| call_requires(*plus, (a, b)),
        forall|a: V| call_requires(*is_zero, (a,)),
        forall|a: V, b: V| call_requires(*divide, (a, b)),
    ensures
        exists|s: V, z: bool| {
            &&& #[trigger] sum_chain(*plus, zero, weights@, s)
            &&& #[trigger] call_ensures(*is_zero, (s,), z)
            &&& z ==> r@ == weights@
            &&& !z ==> r@.len() == weights@.len()
                && forall|i: int| 0 <= i < weights@.len() ==> call_ensures(*divide, (weights@[i], s), #[trigger] r@[i])
        },
{
    let sum = sum_weights(weights, plus, zero);
    let z = is_zero(sum);
    let mut r: Vec<V> = Vec::new();
    if z {
        for i in 0..weights.len()
            invariant
                r@ =~= weights@.take(i as int),
        {
            r.push(weights[i]);
        }
        proof {
            assert(weights@.take(weights@.len() as int) =~= weights@);
        }
    } else {
        for i in 0..weights.len()
            invariant
                forall|a: V, b: V| call_requires(*divide, (a, b)),
                r@.len() == i,
                forall|m: int| 0 <= m < i ==> call_ensures(*divide, (weights@[m], sum), #[trigger] r@[m]),
        {
            let q = divide(weights[i], sum);
            r.push(q);
        }
    }
    proof {
        assert(sum_chain(*plus, zero, weights@, sum) && call_ensures(*is_zero, (sum,), z));
    }
    r
}

} // verus!
