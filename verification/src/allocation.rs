//! Filling the months of an income statement account from its plan: each
//! step takes what is left of its constraint's value after the months already
//! filled, shares it among its open months by weight, lets the caller perturb
//! each share, and rescales the shares so that they add up to what was left.
//!
//! Amounts are of the caller's type; the operations on them are passed in.
use vstd::prelude::*;

use crate::arith::{int_total, lemma_int_total_push, lemma_sum_chain_empty, lemma_sum_chain_exact, lemma_sum_chain_push, sum_chain};
use crate::date::{month_end_at, parsed_period, period_ok, range_end_message, Date};
use crate::engine::{
    earliest_start, income_plan_spec, law_each_month_filled_once, opened_before, reads_enumerable, step_wf,
    AllocationStep, BalancePlan, Densifier, IncomePlan,
};
use crate::error::FinancialHistoryError;
use crate::schema::{BalanceSheetSnapshot, DataOrigin, IncomeStatementAccount, PeriodConstraint};

verus! {

/// The values of `grid` at the months `idx`, in that order.
pub open spec fn values_at<V>(grid: Seq<V>, idx: Seq<usize>) -> Seq<V> {
    idx.map_values(|k: usize| grid[k as int])
}

/// What one step computed: the sum of the filled months, what is left of the
/// constraint's value, the total weight of the open months and whether it is
/// zero, each open month's relative weight and perturbed share, the sum of
/// the shares and whether it is zero, the rescaling factor and the final
/// figures.
pub struct StepTrace<V> {
    pub locked_sum: V,
    pub remaining: V,
    pub total_weight: V,
    pub weight_is_zero: bool,
    pub relative: Seq<V>,
    pub shares: Seq<V>,
    pub share_sum: V,
    pub shares_are_zero: bool,
    pub correction: V,
    pub finals: Seq<V>,
}

/// The step `step`, with constraint value `target`, turns `before` into
/// `after` as `trace` records.
pub open spec fn step_ok<V, P, M, T, D, Z, H, N>(
    plus: P,
    minus: M,
    times: T,
    divide: D,
    is_zero: Z,
    share_of: H,
    perturb: N,
    zero: V,
    weights: Seq<V>,
    target: V,
    step: AllocationStep,
    before: Seq<V>,
    after: Seq<V>,
    trace: StepTrace<V>,
) -> bool where
    P: Fn(V, V) -> V,
    M: Fn(V, V) -> V,
    T: Fn(V, V) -> V,
    D: Fn(V, V) -> V,
    Z: Fn(V) -> bool,
    H: Fn(usize) -> V,
    N: Fn(V) -> V,
 {
    let open = step.open@;
    let n = open.len();
    &&& sum_chain(plus, zero, values_at(before, step.locked@), trace.locked_sum)
    &&& call_ensures(minus, (target, trace.locked_sum), trace.remaining)
    &&& sum_chain(plus, zero, values_at(weights, open), trace.total_weight)
    &&& call_ensures(is_zero, (trace.total_weight,), trace.weight_is_zero)
    &&& trace.relative.len() == n && trace.shares.len() == n && trace.finals.len() == n
    &&& forall|i: int| 0 <= i < n ==> {
        &&& (trace.weight_is_zero ==> call_ensures(share_of, (n as usize,), #[trigger] trace.relative[i]))
        &&& (!trace.weight_is_zero ==> call_ensures(divide, (weights[open[i] as int], trace.total_weight), trace.relative[i]))
        &&& exists|base: V| #[trigger] call_ensures(times, (trace.remaining, trace.relative[i]), base)
            && call_ensures(perturb, (base,), trace.shares[i])
    }
    &&& sum_chain(plus, zero, trace.shares, trace.share_sum)
    &&& call_ensures(is_zero, (trace.share_sum,), trace.shares_are_zero)
    &&& (!trace.shares_are_zero ==> call_ensures(divide, (trace.remaining, trace.share_sum), trace.correction))
    &&& (trace.shares_are_zero ==> trace.correction == zero)
    &&& forall|i: int| 0 <= i < n ==> call_ensures(times, (trace.shares[i], trace.correction), #[trigger] trace.finals[i])
    &&& after.len() == before.len()
    &&& forall|i: int| 0 <= i < n ==> after[#[trigger] open[i] as int] == trace.finals[i]
    &&& forall|k: int| 0 <= k < before.len() && !open.contains(k as usize) ==> #[trigger] after[k] == before[k]
}

/// `grids` runs through the steps from all months at `zero`: each grid is the
/// one before it with the next step applied.
pub open spec fn allocation_ok<V, P, M, T, D, Z, H, N>(
    plus: P,
    minus: M,
    times: T,
    divide: D,
    is_zero: Z,
    share_of: H,
    perturb: N,
    zero: V,
    weights: Seq<V>,
    targets: Seq<V>,
    steps: Seq<AllocationStep>,
    grids: Seq<Seq<V>>,
) -> bool where
    P: Fn(V, V) -> V,
    M: Fn(V, V) -> V,
    T: Fn(V, V) -> V,
    D: Fn(V, V) -> V,
    Z: Fn(V) -> bool,
    H: Fn(usize) -> V,
    N: Fn(V) -> V,
 {
    &&& grids.len() == steps.len() + 1
    &&& grids[0] == Seq::new(weights.len(), |_k: int| zero)
    &&& forall|j: int| 0 <= j < steps.len() ==> #[trigger] step_applied(plus, minus, times, divide, is_zero, share_of, perturb, zero, weights, targets, steps, grids, j)
}

/// Step `j` turns grid `j` into grid `j + 1`.
pub open spec fn step_applied<V, P, M, T, D, Z, H, N>(
    plus: P,
    minus: M,
    times: T,
    divide: D,
    is_zero: Z,
    share_of: H,
    perturb: N,
    zero: V,
    weights: Seq<V>,
    targets: Seq<V>,
    steps: Seq<AllocationStep>,
    grids: Seq<Seq<V>>,
    j: int,
) -> bool where
    P: Fn(V, V) -> V,
    M: Fn(V, V) -> V,
    T: Fn(V, V) -> V,
    D: Fn(V, V) -> V,
    Z: Fn(V) -> bool,
    H: Fn(usize) -> V,
    N: Fn(V) -> V,
 {
    exists|trace: StepTrace<V>| #[trigger] step_ok(
        plus,
        minus,
        times,
        divide,
        is_zero,
        share_of,
        perturb,
        zero,
        weights,
        targets[steps[j].constraint as int],
        steps[j],
        grids[j],
        grids[j + 1],
        trace,
    )
}

/// A step indexes an existing constraint and existing months, and lists its
/// open months in increasing order.
pub open spec fn step_indices_ok(st: AllocationStep, n_targets: nat, n_months: nat) -> bool {
    &&& (st.constraint as int) < n_targets
    &&& forall|i: int| 0 <= i < st.locked@.len() ==> (#[trigger] st.locked@[i] as int) < n_months
    &&& forall|i: int| 0 <= i < st.open@.len() ==> (#[trigger] st.open@[i] as int) < n_months
    &&& forall|a: int, b: int| 0 <= a < b < st.open@.len() ==> #[trigger] st.open@[a] < #[trigger] st.open@[b]
}

/// Every step of the plan indexes existing constraints and months.
pub open spec fn plan_indices_ok(plan: IncomePlan, n_targets: nat, n_months: nat) -> bool {
    forall|j: int| 0 <= j < plan.steps@.len() ==> step_indices_ok(#[trigger] plan.steps@[j], n_targets, n_months)
}

/// The sum of the grid's values at the months `idx`, in that order.
fn sum_at<V: Copy, P: Fn(V, V) -> V>(grid: &Vec<V>, idx: &Vec<usize>, plus: &P, zero: V) -> (r: V)
    requires
        forall|i: int| 0 <= i < idx@.len() ==> (#[trigger] idx@[i] as int) < grid@.len(),
        forall|a: V, b: V| call_requires(*plus, (a, b)),
    ensures
        sum_chain(*plus, zero, values_at(grid@, idx@), r),
{
    let mut total = zero;
    proof {
        lemma_sum_chain_empty(*plus, zero);
        assert(values_at(grid@, idx@.take(0)) =~= Seq::<V>::empty());
    }
    for i in 0..idx.len()
        invariant
            forall|m: int| 0 <= m < idx@.len() ==> (#[trigger] idx@[m] as int) < grid@.len(),
            forall|a: V, b: V| call_requires(*plus, (a, b)),
            sum_chain(*plus, zero, values_at(grid@, idx@.take(i as int)), total),
    {
        let v = grid[idx[i]];
        let n = plus(total, v);
        proof {
            lemma_sum_chain_push(*plus, zero, values_at(grid@, idx@.take(i as int)), total, v, n);
            assert(values_at(grid@, idx@.take(i + 1)) =~= values_at(grid@, idx@.take(i as int)).push(v));
        }
        total = n;
    }
    proof {
        assert(idx@.take(idx@.len() as int) =~= idx@);
    }
    total
}

/// Applies one step to the grid.
fn run_step<V: Copy, P, M, T, D, Z, H, N>(
    grid: &mut Vec<V>,
    weights: &Vec<V>,
    target: V,
    step: &AllocationStep,
    plus: &P,
    minus: &M,
    times: &T,
    divide: &D,
    is_zero: &Z,
    share_of: &H,
    perturb: &N,
    zero: V,
) where
    P: Fn(V, V) -> V,
    M: Fn(V, V) -> V,
    T: Fn(V, V) -> V,
    D: Fn(V, V) -> V,
    Z: Fn(V) -> bool,
    H: Fn(usize) -> V,
    N: Fn(V) -> V,

    requires
        old(grid)@.len() == weights@.len(),
        forall|i: int| 0 <= i < step.locked@.len() ==> (#[trigger] step.locked@[i] as int) < weights@.len(),
        forall|i: int| 0 <= i < step.open@.len() ==> (#[trigger] step.open@[i] as int) < weights@.len(),
        forall|a: int, b: int| 0 <= a < b < step.open@.len() ==> #[trigger] step.open@[a] < #[trigger] step.open@[b],
        forall|a: V, b: V| call_requires(*plus, (a, b)),
        forall|a: V, b: V| call_requires(*minus, (a, b)),
        forall|a: V, b: V| call_requires(*times, (a, b)),
        forall|a: V, b: V| call_requires(*divide, (a, b)),
        forall|a: V| call_requires(*is_zero, (a,)),
        forall|n: usize| call_requires(*share_of, (n,)),
        forall|a: V| call_requires(*perturb, (a,)),
    ensures
        exists|trace: StepTrace<V>| #[trigger] step_ok(
            *plus,
            *minus,
            *times,
            *divide,
            *is_zero,
            *share_of,
            *perturb,
            zero,
            weights@,
            target,
            *step,
            old(grid)@,
            final(grid)@,
            trace,
        ),
{
    let ghost before = grid@;
    let locked_sum = sum_at(grid, &step.locked, plus, zero);
    let remaining = minus(target, locked_sum);
    let total_weight = sum_at(weights, &step.open, plus, zero);
    let weight_is_zero = is_zero(total_weight);
    let n = step.open.len();
    let mut relative: Vec<V> = Vec::new();
    let mut shares: Vec<V> = Vec::new();
    let mut share_sum = zero;
    proof {
        lemma_sum_chain_empty(*plus, zero);
    }
    for i in 0..n
        invariant
            n == step.open@.len(),
            forall|m: int| 0 <= m < step.open@.len() ==> (#[trigger] step.open@[m] as int) < weights@.len(),
            forall|a: V, b: V| call_requires(*plus, (a, b)),
            forall|a: V, b: V| call_requires(*times, (a, b)),
            forall|a: V, b: V| call_requires(*divide, (a, b)),
            forall|k: usize| call_requires(*share_of, (k,)),
            forall|a: V| call_requires(*perturb, (a,)),
            relative@.len() == i,
            shares@.len() == i,
            sum_chain(*plus, zero, shares@, share_sum),
            forall|m: int| 0 <= m < i ==> {
                &&& (weight_is_zero ==> call_ensures(*share_of, (n,), #[trigger] relative@[m]))
                &&& (!weight_is_zero ==> call_ensures(*divide, (weights@[step.open@[m] as int], total_weight), relative@[m]))
                &&& exists|base: V| #[trigger] call_ensures(*times, (remaining, relative@[m]), base)
                    && call_ensures(*perturb, (base,), shares@[m])
            },
    {
        let rel = if weight_is_zero { share_of(n) } else { divide(weights[step.open[i]], total_weight) };
        let base = times(remaining, rel);
        let v = perturb(base);
        let next = plus(share_sum, v);
        proof {
            lemma_sum_chain_push(*plus, zero, shares@, share_sum, v, next);
        }
        let ghost old_rel = relative@;
        let ghost old_shares = shares@;
        relative.push(rel);
        shares.push(v);
        share_sum = next;
        proof {
            assert forall|m: int| 0 <= m < i + 1 implies {
                &&& (weight_is_zero ==> call_ensures(*share_of, (n,), #[trigger] relative@[m]))
                &&& (!weight_is_zero ==> call_ensures(*divide, (weights@[step.open@[m] as int], total_weight), relative@[m]))
                &&& exists|b: V| #[trigger] call_ensures(*times, (remaining, relative@[m]), b)
                    && call_ensures(*perturb, (b,), shares@[m])
            } by {
                if m < i {
                    assert(relative@[m] == old_rel[m] && shares@[m] == old_shares[m]);
                } else {
                    assert(relative@[m] == rel && shares@[m] == v);
                    assert(call_ensures(*times, (remaining, rel), base));
                }
            }
        }
    }
    let shares_are_zero = is_zero(share_sum);
    let correction = if !shares_are_zero { divide(remaining, share_sum) } else { zero };
    let mut finals: Vec<V> = Vec::new();
    for i in 0..n
        invariant
            n == step.open@.len(),
            shares@.len() == n,
            forall|a: V, b: V| call_requires(*times, (a, b)),
            finals@.len() == i,
            forall|m: int| 0 <= m < i ==> call_ensures(*times, (shares@[m], correction), #[trigger] finals@[m]),
    {
        let f = times(shares[i], correction);
        finals.push(f);
    }
    for i in 0..n
        invariant
            n == step.open@.len(),
            finals@.len() == n,
            grid@.len() == before.len(),
            forall|m: int| 0 <= m < step.open@.len() ==> (#[trigger] step.open@[m] as int) < weights@.len(),
            before.len() == weights@.len(),
            forall|a: int, b: int| 0 <= a < b < step.open@.len() ==> #[trigger] step.open@[a] < #[trigger] step.open@[b],
            forall|m: int| 0 <= m < i ==> grid@[#[trigger] step.open@[m] as int] == finals@[m],
            forall|k: int| 0 <= k < before.len() && !step.open@.take(i as int).contains(k as usize) ==> #[trigger] grid@[k] == before[k],
    {
        let k = step.open[i];
        let ghost g0 = grid@;
        grid.set(k, finals[i]);
        proof {
            assert forall|m: int| 0 <= m < i + 1 implies grid@[#[trigger] step.open@[m] as int] == finals@[m] by {
                if m < i {
                    assert(step.open@[m] < step.open@[i as int]);
                }
            }
            assert forall|q: int| 0 <= q < before.len() && !step.open@.take(i + 1).contains(q as usize) implies #[trigger] grid@[q] == before[q] by {
                if step.open@.take(i as int).contains(q as usize) {
                    let t = choose|t: int| 0 <= t < step.open@.take(i as int).len() && step.open@.take(i as int)[t] == q as usize;
                    assert(step.open@.take(i + 1)[t] == q as usize);
                }
                if q == k as int {
                    assert(step.open@.take(i + 1)[i as int] == k);
                }
            }
        }
    }
    proof {
        assert(step.open@.take(n as int) =~= step.open@);
        let trace = StepTrace {
            locked_sum,
            remaining,
            total_weight,
            weight_is_zero,
            relative: relative@,
            shares: shares@,
            share_sum,
            shares_are_zero,
            correction,
            finals: finals@,
        };
        let open = step.open@;
        let nn = open.len();
        assert(sum_chain(*plus, zero, values_at(before, step.locked@), trace.locked_sum));
        assert(call_ensures(*minus, (target, trace.locked_sum), trace.remaining));
        assert(sum_chain(*plus, zero, values_at(weights@, open), trace.total_weight));
        assert(call_ensures(*is_zero, (trace.total_weight,), trace.weight_is_zero));
        assert(forall|i: int| 0 <= i < nn ==> {
            &&& (trace.weight_is_zero ==> call_ensures(*share_of, (nn as usize,), #[trigger] trace.relative[i]))
            &&& (!trace.weight_is_zero ==> call_ensures(*divide, (weights@[open[i] as int], trace.total_weight), trace.relative[i]))
            &&& exists|base: V| #[trigger] call_ensures(*times, (trace.remaining, trace.relative[i]), base)
                && call_ensures(*perturb, (base,), trace.shares[i])
        });
        assert(sum_chain(*plus, zero, trace.shares, trace.share_sum));
        assert(forall|i: int| 0 <= i < nn ==> call_ensures(*times, (trace.shares[i], trace.correction), #[trigger] trace.finals[i]));
        assert(forall|i: int| 0 <= i < nn ==> grid@[#[trigger] open[i] as int] == trace.finals[i]);
        assert(forall|k: int| 0 <= k < before.len() && !open.contains(k as usize) ==> #[trigger] grid@[k] == before[k]);
        assert(step_ok(*plus, *minus, *times, *divide, *is_zero, *share_of, *perturb, zero, weights@, target, *step, before, grid@, trace));
    }
}

/// Fills the months of an income statement account by its plan: starting from
/// every month at `zero`, each step of the plan, in order, applies to the
/// months it lists (see `step_ok`). `targets` holds the constraints' values,
/// `weights` the weight of each month of the plan.
pub fn allocate_income<V: Copy, P, M, T, D, Z, H, N>(
    plan: &IncomePlan,
    targets: &Vec<V>,
    weights: &Vec<V>,
    plus: &P,
    minus: &M,
    times: &T,
    divide: &D,
    is_zero: &Z,
    share_of: &H,
    perturb: &N,
    zero: V,
) -> (r: Vec<V>) where
    P: Fn(V, V) -> V,
    M: Fn(V, V) -> V,
    T: Fn(V, V) -> V,
    D: Fn(V, V) -> V,
    Z: Fn(V) -> bool,
    H: Fn(usize) -> V,
    N: Fn(V) -> V,

    requires
        plan_indices_ok(*plan, targets@.len(), weights@.len()),
        forall|a: V, b: V| call_requires(*plus, (a, b)),
        forall|a: V, b: V| call_requires(*minus, (a, b)),
        forall|a: V, b: V| call_requires(*times, (a, b)),
        forall|a: V, b: V| call_requires(*divide, (a, b)),
        forall|a: V| call_requires(*is_zero, (a,)),
        forall|n: usize| call_requires(*share_of, (n,)),
        forall|a: V| call_requires(*perturb, (a,)),
    ensures
        exists|grids: Seq<Seq<V>>| #[trigger] allocation_ok(
            *plus, *minus, *times, *divide, *is_zero, *share_of, *perturb, zero, weights@, targets@, plan.steps@, grids,
        ) && grids.last() == r@,
{
    let mut grid: Vec<V> = Vec::new();
    for k in 0..weights.len()
        invariant
            grid@ == Seq::new(k as nat, |_k: int| zero),
    {
        grid.push(zero);
        proof {
            assert(grid@ =~= Seq::new((k + 1) as nat, |_k: int| zero));
        }
    }
    let ghost mut grids: Seq<Seq<V>> = seq![grid@];
    for j in 0..plan.steps.len()
        invariant
            plan_indices_ok(*plan, targets@.len(), weights@.len()),
            forall|a: V, b: V| call_requires(*plus, (a, b)),
            forall|a: V, b: V| call_requires(*minus, (a, b)),
            forall|a: V, b: V| call_requires(*times, (a, b)),
            forall|a: V, b: V| call_requires(*divide, (a, b)),
            forall|a: V| call_requires(*is_zero, (a,)),
            forall|n: usize| call_requires(*share_of, (n,)),
            forall|a: V| call_requires(*perturb, (a,)),
            grid@.len() == weights@.len(),
            grids.len() == j + 1,
            grids[0] == Seq::new(weights@.len(), |_k: int| zero),
            grids.last() == grid@,
            forall|i: int| 0 <= i < j ==> #[trigger] step_applied(
                *plus, *minus, *times, *divide, *is_zero, *share_of, *perturb, zero, weights@, targets@, plan.steps@, grids, i,
            ),
    {
        let step = &plan.steps[j];
        proof {
            assert(plan_indices_ok(*plan, targets@.len(), weights@.len()));
            let st = plan.steps@[j as int];
            assert(step_indices_ok(st, targets@.len(), weights@.len()));
        }
        let target = targets[step.constraint];
        let ghost before = grid@;
        run_step(&mut grid, weights, target, step, plus, minus, times, divide, is_zero, share_of, perturb, zero);
        proof {
            let old_grids = grids;
            grids = grids.push(grid@);
            assert forall|i: int| 0 <= i < j + 1 implies #[trigger] step_applied(
                *plus, *minus, *times, *divide, *is_zero, *share_of, *perturb, zero, weights@, targets@, plan.steps@, grids, i,
            ) by {
                assert(grids[i] == old_grids[i] || i == j + 1);
                if i < j {
                    assert(step_applied(*plus, *minus, *times, *divide, *is_zero, *share_of, *perturb, zero, weights@, targets@, plan.steps@, old_grids, i));
                    assert(grids[i] == old_grids[i] && grids[i + 1] == old_grids[i + 1]);
                } else {
                    assert(grids[i] == before && grids[i + 1] == grid@);
                }
            }
        }
    }
    proof {
        assert(allocation_ok(*plus, *minus, *times, *divide, *is_zero, *share_of, *perturb, zero, weights@, targets@, plan.steps@, grids));
    }
    grid
}

/// The weight of each month: the calendar weight of its month of the year.
pub open spec fn month_weights<V>(months: Seq<Date>, calendar: Seq<V>) -> Seq<V> {
    Seq::new(months.len(), |k: int| calendar[months[k].month - 1])
}

/// The values of the constraints, in list order.
pub open spec fn constraint_values<V>(constraints: Seq<PeriodConstraint<V>>) -> Seq<V> {
    Seq::new(constraints.len(), |i: int| constraints[i].value)
}

/// A plan as `plan_income_statement` makes it indexes existing constraints and
/// months, and its months are month ends.
proof fn lemma_income_plan_indices<V>(constraints: Seq<PeriodConstraint<V>>, plan: IncomePlan)
    requires
        income_plan_spec(constraints, plan),
    ensures
        plan_indices_ok(plan, constraints.len(), plan.months@.len()),
        forall|k: int| 0 <= k < plan.months@.len() ==> 1 <= (#[trigger] plan.months@[k]).month <= 12,
{
    let months = plan.months@;
    assert forall|j: int| 0 <= j < plan.steps@.len() implies step_indices_ok(
        #[trigger] plan.steps@[j],
        constraints.len(),
        months.len(),
    ) by {
        assert(step_wf(months, plan.periods@, plan.order@, plan.steps@, j));
        let st = plan.steps@[j];
        assert forall|i: int| 0 <= i < st.open@.len() implies (#[trigger] st.open@[i] as int) < months.len() by {
            assert(st.open@.contains(st.open@[i]));
        }
        assert forall|i: int| 0 <= i < st.locked@.len() implies (#[trigger] st.locked@[i] as int) < months.len() by {
            assert(st.locked@.contains(st.locked@[i]));
        }
    }
    assert forall|k: int| 0 <= k < months.len() implies 1 <= (#[trigger] months[k]).month <= 12 by {
        let m = earliest_start(plan.periods@).month_index() + k;
        assert(months[k] == month_end_at(m));
        assert(0 <= m % 12 < 12);
    }
}

/// The calendar weight of each month.
fn weights_of_months<V: Copy>(months: &Vec<Date>, calendar: &Vec<V>) -> (r: Vec<V>)
    requires
        calendar@.len() == 12,
        forall|k: int| 0 <= k < months@.len() ==> 1 <= (#[trigger] months@[k]).month <= 12,
    ensures
        r@ == month_weights(months@, calendar@),
{
    let mut r: Vec<V> = Vec::new();
    for k in 0..months.len()
        invariant
            calendar@.len() == 12,
            forall|q: int| 0 <= q < months@.len() ==> 1 <= (#[trigger] months@[q]).month <= 12,
            r@ =~= month_weights(months@, calendar@).take(k as int),
    {
        let m = months[k].month;
        r.push(calendar[(m - 1) as usize]);
    }
    proof {
        assert(month_weights(months@, calendar@).take(months@.len() as int) =~= month_weights(months@, calendar@));
    }
    r
}

/// The values of the constraints, in list order.
fn values_of_constraints<V: Copy>(constraints: &Vec<PeriodConstraint<V>>) -> (r: Vec<V>)
    ensures
        r@ == constraint_values(constraints@),
{
    let mut r: Vec<V> = Vec::new();
    for i in 0..constraints.len()
        invariant
            r@ =~= constraint_values(constraints@).take(i as int),
    {
        r.push(constraints[i].value);
    }
    proof {
        assert(constraint_values(constraints@).take(constraints@.len() as int) =~= constraint_values(constraints@));
    }
    r
}

impl Densifier {
    /// The monthly figures of an income statement account: its plan (see
    /// `plan_income_statement`), and the amount of each of the plan's months,
    /// got by filling the months step by step (see `allocate_income`), each
    /// month weighted by `calendar_weights` at its month of the year and each
    /// step sharing out its constraint's value. Fails as the plan does: on the
    /// first period that does not read, else on a period whose months cannot be
    /// enumerated.
    pub fn densify_income_statement<V: Copy, P, M, T, D, Z, H, N>(
        &self,
        account: &IncomeStatementAccount<V>,
        calendar_weights: &Vec<V>,
        plus: &P,
        minus: &M,
        times: &T,
        divide: &D,
        is_zero: &Z,
        share_of: &H,
        perturb: &N,
        zero: V,
    ) -> (r: Result<(IncomePlan, Vec<V>), FinancialHistoryError>) where
        P: Fn(V, V) -> V,
        M: Fn(V, V) -> V,
        T: Fn(V, V) -> V,
        D: Fn(V, V) -> V,
        Z: Fn(V) -> bool,
        H: Fn(usize) -> V,
        N: Fn(V) -> V,

        requires
            calendar_weights@.len() == 12,
            forall|a: V, b: V| call_requires(*plus, (a, b)),
            forall|a: V, b: V| call_requires(*minus, (a, b)),
            forall|a: V, b: V| call_requires(*times, (a, b)),
            forall|a: V, b: V| call_requires(*divide, (a, b)),
            forall|a: V| call_requires(*is_zero, (a,)),
            forall|n: usize| call_requires(*share_of, (n,)),
            forall|a: V| call_requires(*perturb, (a,)),
        ensures
            r is Ok <==> forall|i: int| 0 <= i < account.constraints@.len() ==> #[trigger] reads_enumerable(account.constraints@[i].period@),
            r matches Err(e) ==> (exists|i: int| 0 <= i < account.constraints@.len()
                && #[trigger] period_ok(account.constraints@[i].period@, Err::<(Date, Date), FinancialHistoryError>(e)))
                || (e matches FinancialHistoryError::DateError(m) && m@ == range_end_message()),
            ((forall|i: int| 0 <= i < account.constraints@.len() ==> (#[trigger] parsed_period(account.constraints@[i].period@)) is Some)
                && r is Err) ==> (r matches Err(FinancialHistoryError::DateError(m)) && m@ == range_end_message()),
            r matches Ok((plan, values)) ==> {
                &&& income_plan_spec(account.constraints@, plan)
                &&& values@.len() == plan.months@.len()
                &&& exists|grids: Seq<Seq<V>>| #[trigger] allocation_ok(
                    *plus, *minus, *times, *divide, *is_zero, *share_of, *perturb, zero,
                    month_weights(plan.months@, calendar_weights@),
                    constraint_values(account.constraints@),
                    plan.steps@,
                    grids,
                ) && grids.last() == values@
            },
    {
        let plan = match self.plan_income_statement(account) {
            Ok(p) => p,
            Err(e) => return Err(e),
        };
        proof {
            lemma_income_plan_indices(account.constraints@, plan);
        }
        let weights = weights_of_months(&plan.months, calendar_weights);
        let targets = values_of_constraints(&account.constraints);
        let values = allocate_income(&plan, &targets, &weights, plus, minus, times, divide, is_zero, share_of, perturb, zero);
        proof {
            let grids = choose|grids: Seq<Seq<V>>| #[trigger] allocation_ok(
                *plus, *minus, *times, *divide, *is_zero, *share_of, *perturb, zero, weights@, targets@, plan.steps@, grids,
            ) && grids.last() == values@;
            assert(grids[0].len() == weights@.len());
            assert(values@.len() == plan.months@.len()) by {
                lemma_grids_keep_length(*plus, *minus, *times, *divide, *is_zero, *share_of, *perturb, zero, weights@, targets@, plan.steps@, grids, plan.steps@.len() as int);
            }
        }
        Ok((plan, values))
    }
}

/// Every grid of an allocation has one value per month.
proof fn lemma_grids_keep_length<V, P, M, T, D, Z, H, N>(
    plus: P,
    minus: M,
    times: T,
    divide: D,
    is_zero: Z,
    share_of: H,
    perturb: N,
    zero: V,
    weights: Seq<V>,
    targets: Seq<V>,
    steps: Seq<AllocationStep>,
    grids: Seq<Seq<V>>,
    j: int,
) where
    P: Fn(V, V) -> V,
    M: Fn(V, V) -> V,
    T: Fn(V, V) -> V,
    D: Fn(V, V) -> V,
    Z: Fn(V) -> bool,
    H: Fn(usize) -> V,
    N: Fn(V) -> V,

    requires
        allocation_ok(plus, minus, times, divide, is_zero, share_of, perturb, zero, weights, targets, steps, grids),
        0 <= j <= steps.len(),
    ensures
        grids[j].len() == weights.len(),
    decreases j,
{
    if j > 0 {
        lemma_grids_keep_length(plus, minus, times, divide, is_zero, share_of, perturb, zero, weights, targets, steps, grids, j - 1);
        assert(step_applied(plus, minus, times, divide, is_zero, share_of, perturb, zero, weights, targets, steps, grids, j - 1));
    }
}

/// A month that no step from `a` up to `b` fills keeps, in grid `b`, the value
/// it has in grid `a`.
proof fn lemma_unfilled_month_kept<V, P, M, T, D, Z, H, N>(
    plus: P,
    minus: M,
    times: T,
    divide: D,
    is_zero: Z,
    share_of: H,
    perturb: N,
    zero: V,
    weights: Seq<V>,
    targets: Seq<V>,
    steps: Seq<AllocationStep>,
    grids: Seq<Seq<V>>,
    a: int,
    b: int,
    k: usize,
) where
    P: Fn(V, V) -> V,
    M: Fn(V, V) -> V,
    T: Fn(V, V) -> V,
    D: Fn(V, V) -> V,
    Z: Fn(V) -> bool,
    H: Fn(usize) -> V,
    N: Fn(V) -> V,

    requires
        allocation_ok(plus, minus, times, divide, is_zero, share_of, perturb, zero, weights, targets, steps, grids),
        0 <= a <= b <= steps.len(),
        k < weights.len(),
        forall|t: int| a <= t < b ==> !(#[trigger] steps[t].open@.contains(k)),
    ensures
        grids[b][k as int] == grids[a][k as int],
    decreases b - a,
{
    if a < b {
        lemma_unfilled_month_kept(plus, minus, times, divide, is_zero, share_of, perturb, zero, weights, targets, steps, grids, a, b - 1, k);
        lemma_grids_keep_length(plus, minus, times, divide, is_zero, share_of, perturb, zero, weights, targets, steps, grids, b - 1);
        assert(step_applied(plus, minus, times, divide, is_zero, share_of, perturb, zero, weights, targets, steps, grids, b - 1));
        let trace = choose|trace: StepTrace<V>| #[trigger] step_ok(
            plus, minus, times, divide, is_zero, share_of, perturb, zero, weights,
            targets[steps[b - 1].constraint as int], steps[b - 1], grids[b - 1], grids[b], trace,
        );
        assert(!steps[b - 1].open@.contains(k));
        assert(grids[b][k as int] == grids[b - 1][k as int]);
    }
}

/// Locking, over a whole allocation by a plan from `plan_income_statement`: a
/// month keeps, to the end, the value the step that fills it gives it; the
/// months a step counts as already filled hold, when that step runs, their
/// final values; and a month that no step fills stays at `zero`.
pub proof fn law_filled_months_stay_locked<V, P, M, T, D, Z, H, N>(
    constraints: Seq<PeriodConstraint<V>>,
    plan: IncomePlan,
    plus: P,
    minus: M,
    times: T,
    divide: D,
    is_zero: Z,
    share_of: H,
    perturb: N,
    zero: V,
    weights: Seq<V>,
    targets: Seq<V>,
    grids: Seq<Seq<V>>,
) where
    P: Fn(V, V) -> V,
    M: Fn(V, V) -> V,
    T: Fn(V, V) -> V,
    D: Fn(V, V) -> V,
    Z: Fn(V) -> bool,
    H: Fn(usize) -> V,
    N: Fn(V) -> V,

    requires
        income_plan_spec(constraints, plan),
        weights.len() == plan.months@.len(),
        allocation_ok(plus, minus, times, divide, is_zero, share_of, perturb, zero, weights, targets, plan.steps@, grids),
    ensures
        forall|j: int, k: usize| 0 <= j < plan.steps@.len() && #[trigger] plan.steps@[j].open@.contains(k) ==>
            grids.last()[k as int] == grids[j + 1][k as int],
        forall|j: int, k: usize| 0 <= j < plan.steps@.len() && #[trigger] plan.steps@[j].locked@.contains(k) ==>
            grids[j][k as int] == grids.last()[k as int],
        forall|k: usize| k < weights.len() && (forall|j: int| 0 <= j < plan.steps@.len() ==> !(#[trigger] plan.steps@[j].open@.contains(k))) ==>
            #[trigger] grids.last()[k as int] == zero,
{
    let steps = plan.steps@;
    let n = steps.len() as int;
    if n > 0 {
        assert(step_wf(plan.months@, plan.periods@, plan.order@, steps, 0));
        law_each_month_filled_once(constraints, plan);
    }
    assert forall|j: int, k: usize| 0 <= j < n && #[trigger] steps[j].open@.contains(k) implies
        grids.last()[k as int] == grids[j + 1][k as int] by {
        assert(step_wf(plan.months@, plan.periods@, plan.order@, steps, j));
        assert forall|t: int| j + 1 <= t < n implies !(#[trigger] steps[t].open@.contains(k)) by {
            if steps[t].open@.contains(k) {
                assert(!(steps[j].open@.contains(k) && steps[t].open@.contains(k)));
            }
        }
        lemma_unfilled_month_kept(plus, minus, times, divide, is_zero, share_of, perturb, zero, weights, targets, steps, grids, j + 1, n, k);
    }
    assert forall|j: int, k: usize| 0 <= j < n && #[trigger] steps[j].locked@.contains(k) implies
        grids[j][k as int] == grids.last()[k as int] by {
        assert(step_wf(plan.months@, plan.periods@, plan.order@, steps, j));
        assert(opened_before(steps, j, k));
        let i = choose|i: int| 0 <= i < j && #[trigger] steps[i].open@.contains(k);
        assert(step_wf(plan.months@, plan.periods@, plan.order@, steps, i));
        assert forall|t: int| i + 1 <= t < n implies !(#[trigger] steps[t].open@.contains(k)) by {
            if steps[t].open@.contains(k) {
                assert(!(steps[i].open@.contains(k) && steps[t].open@.contains(k)));
            }
        }
        lemma_unfilled_month_kept(plus, minus, times, divide, is_zero, share_of, perturb, zero, weights, targets, steps, grids, i + 1, j, k);
        lemma_unfilled_month_kept(plus, minus, times, divide, is_zero, share_of, perturb, zero, weights, targets, steps, grids, i + 1, n, k);
    }
    assert forall|k: usize| k < weights.len() && (forall|j: int| 0 <= j < n ==> !(#[trigger] steps[j].open@.contains(k))) implies
        #[trigger] grids.last()[k as int] == zero by {
        lemma_unfilled_month_kept(plus, minus, times, divide, is_zero, share_of, perturb, zero, weights, targets, steps, grids, 0, n, k);
    }
}

/// Where the figure of one month comes from: its origin and the constraint
/// (or snapshot) it was taken from, if any.
#[derive(Debug, Clone, Copy, PartialEq, Eq, Structural)]
pub struct MonthLabel {
    pub origin: DataOrigin,
    pub source: Option<usize>,
}

/// `label` describes month `k` of a plan with these steps: a month no step
/// fills is interpolated (an implied zero) and has no source; a month a step
/// fills comes from that step's constraint, as an anchor when the
/// constraint's period is a single month and as an allocated share otherwise.
pub open spec fn income_label_spec(steps: Seq<AllocationStep>, k: usize, label: MonthLabel) -> bool {
    match label.source {
        None => label.origin == DataOrigin::Interpolated
            && forall|j: int| 0 <= j < steps.len() ==> !(#[trigger] steps[j].open@.contains(k)),
        Some(c) => exists|j: int| 0 <= j < steps.len() && #[trigger] steps[j].open@.contains(k)
            && steps[j].constraint == c
            && label.origin == (if steps[j].single_month { DataOrigin::Anchor } else { DataOrigin::Allocated }),
    }
}

/// The label of each month of an income statement plan (see
/// `income_label_spec`).
pub fn income_month_labels(plan: &IncomePlan) -> (r: Vec<MonthLabel>)
    requires
        forall|j: int, i: int| 0 <= j < plan.steps@.len() && 0 <= i < plan.steps@[j].open@.len()
            ==> (#[trigger] plan.steps@[j].open@[i] as int) < plan.months@.len(),
    ensures
        r@.len() == plan.months@.len(),
        forall|k: int| 0 <= k < r@.len() ==> income_label_spec(plan.steps@, k as usize, #[trigger] r@[k]),
{
    let n = plan.months.len();
    let mut r: Vec<MonthLabel> = Vec::new();
    for k in 0..n
        invariant
            r@.len() == k,
            forall|m: int| 0 <= m < k ==> #[trigger] r@[m] == (MonthLabel { origin: DataOrigin::Interpolated, source: None }),
    {
        r.push(MonthLabel { origin: DataOrigin::Interpolated, source: None });
    }
    let steps = &plan.steps;
    for j in 0..steps.len()
        invariant
            n == plan.months@.len(),
            steps == &plan.steps,
            r@.len() == n,
            forall|jj: int, i: int| 0 <= jj < steps@.len() && 0 <= i < steps@[jj].open@.len()
                ==> (#[trigger] steps@[jj].open@[i] as int) < n,
            forall|k: int| 0 <= k < n ==> income_label_spec(steps@.take(j as int), k as usize, #[trigger] r@[k]),
    {
        let st = &steps[j];
        let label = MonthLabel {
            origin: if st.single_month { DataOrigin::Anchor } else { DataOrigin::Allocated },
            source: Some(st.constraint),
        };
        let ghost before = r@;
        for i in 0..st.open.len()
            invariant
                n == plan.months@.len(),
                steps == &plan.steps,
                j < steps@.len(),
                *st == steps@[j as int],
                r@.len() == n,
                forall|jj: int, ii: int| 0 <= jj < steps@.len() && 0 <= ii < steps@[jj].open@.len()
                    ==> (#[trigger] steps@[jj].open@[ii] as int) < n,
                forall|k: int| 0 <= k < n ==> income_label_spec(steps@.take(j as int), k as usize, #[trigger] before[k]),
                forall|k: int| 0 <= k < n ==> (#[trigger] r@[k] == label && st.open@.take(i as int).contains(k as usize))
                    || (r@[k] == before[k] && !st.open@.take(i as int).contains(k as usize)),
        {
            let k = st.open[i];
            proof {
                assert(steps@[j as int].open@[i as int] == k);
                assert((steps@[j as int].open@[i as int] as int) < n);
            }
            r.set(k, label);
            proof {
                assert forall|q: int| 0 <= q < n implies (#[trigger] r@[q] == label && st.open@.take(i + 1).contains(q as usize))
                    || (r@[q] == before[q] && !st.open@.take(i + 1).contains(q as usize)) by {
                    if q == k as int {
                        assert(st.open@.take(i + 1)[i as int] == k);
                    } else if st.open@.take(i + 1).contains(q as usize) {
                        let t = choose|t: int| 0 <= t < st.open@.take(i + 1).len() && #[trigger] st.open@.take(i + 1)[t] == q as usize;
                        assert(st.open@.take(i as int)[t] == q as usize);
                    } else if st.open@.take(i as int).contains(q as usize) {
                        let t = choose|t: int| 0 <= t < st.open@.take(i as int).len() && #[trigger] st.open@.take(i as int)[t] == q as usize;
                        assert(st.open@.take(i + 1)[t] == q as usize);
                    }
                }
            }
        }
        proof {
            assert(st.open@.take(st.open@.len() as int) =~= st.open@);
            let sj = steps@.take(j + 1);
            assert forall|k: int| 0 <= k < n implies income_label_spec(sj, k as usize, #[trigger] r@[k]) by {
                assert(sj[j as int] == *st);
                if st.open@.contains(k as usize) {
                    assert(r@[k] == label);
                    assert(sj[j as int].open@.contains(k as usize));
                } else {
                    assert(r@[k] == before[k]);
                    assert(income_label_spec(steps@.take(j as int), k as usize, before[k]));
                    match before[k].source {
                        None => {
                            assert forall|jj: int| 0 <= jj < sj.len() implies !(#[trigger] sj[jj].open@.contains(k as usize)) by {
                                if jj < j {
                                    assert(sj[jj] == steps@.take(j as int)[jj]);
                                }
                            }
                        },
                        Some(c) => {
                            let jj = choose|jj: int| 0 <= jj < steps@.take(j as int).len()
                                && #[trigger] steps@.take(j as int)[jj].open@.contains(k as usize)
                                && steps@.take(j as int)[jj].constraint == c
                                && before[k].origin == (if steps@.take(j as int)[jj].single_month { DataOrigin::Anchor } else { DataOrigin::Allocated });
                            assert(sj[jj] == steps@.take(j as int)[jj]);
                        },
                    }
                }
            }
        }
    }
    proof {
        assert(steps@.take(steps@.len() as int) =~= steps@);
    }
    r
}

/// The label of each month of a balance sheet plan: an anchored month comes
/// from its snapshot, as an anchor; any other month is interpolated and has
/// no source.
pub fn balance_month_labels(plan: &BalancePlan) -> (r: Vec<MonthLabel>)
    ensures
        r@.len() == plan.anchors@.len(),
        forall|k: int| 0 <= k < r@.len() ==> #[trigger] r@[k] == (match plan.anchors@[k] {
            Some(i) => MonthLabel { origin: DataOrigin::Anchor, source: Some(i) },
            None => MonthLabel { origin: DataOrigin::Interpolated, source: None },
        }),
{
    let mut r: Vec<MonthLabel> = Vec::new();
    for k in 0..plan.anchors.len()
        invariant
            r@.len() == k,
            forall|m: int| 0 <= m < k ==> #[trigger] r@[m] == (match plan.anchors@[m] {
                Some(i) => MonthLabel { origin: DataOrigin::Anchor, source: Some(i) },
                None => MonthLabel { origin: DataOrigin::Interpolated, source: None },
            }),
    {
        let label = match plan.anchors[k] {
            Some(i) => MonthLabel { origin: DataOrigin::Anchor, source: Some(i) },
            None => MonthLabel { origin: DataOrigin::Interpolated, source: None },
        };
        r.push(label);
    }
    r
}

/// Scaling every value by `c` scales the integer sum by `c`.
proof fn lemma_int_total_scaled(xs: Seq<i64>, ys: Seq<i64>, c: int)
    requires
        xs.len() == ys.len(),
        forall|i: int| 0 <= i < xs.len() ==> #[trigger] ys[i] == xs[i] * c,
    ensures
        int_total(ys) == int_total(xs) * c,
    decreases xs.len(),
{
    if xs.len() > 0 {
        let n = xs.len() - 1;
        lemma_int_total_scaled(xs.drop_last(), ys.drop_last(), c);
        assert(ys[n] == xs[n] * c);
        assert(int_total(xs.drop_last()) * c + xs[n] * c == (int_total(xs.drop_last()) + xs[n]) * c) by (nonlinear_arith);
    }
}

/// The rescaling of a step makes it meet its constraint: with exact integer
/// addition, subtraction and multiplication, when the shares do not sum to
/// zero and the rescaling factor divides what was left exactly, the months
/// the step fills add up to its constraint's value less the months already
/// filled.
pub proof fn law_step_meets_its_constraint<P, M, T, D, Z, H, N>(
    plus: P,
    minus: M,
    times: T,
    divide: D,
    is_zero: Z,
    share_of: H,
    perturb: N,
    weights: Seq<i64>,
    target: i64,
    step: AllocationStep,
    before: Seq<i64>,
    after: Seq<i64>,
    trace: StepTrace<i64>,
) where
    P: Fn(i64, i64) -> i64,
    M: Fn(i64, i64) -> i64,
    T: Fn(i64, i64) -> i64,
    D: Fn(i64, i64) -> i64,
    Z: Fn(i64) -> bool,
    H: Fn(usize) -> i64,
    N: Fn(i64) -> i64,

    requires
        forall|a: i64, b: i64, r: i64| #[trigger] call_ensures(plus, (a, b), r) ==> r == a + b,
        forall|a: i64, b: i64, r: i64| #[trigger] call_ensures(minus, (a, b), r) ==> r == a - b,
        forall|a: i64, b: i64, r: i64| #[trigger] call_ensures(times, (a, b), r) ==> r == a * b,
        step_ok(plus, minus, times, divide, is_zero, share_of, perturb, 0i64, weights, target, step, before, after, trace),
        !trace.shares_are_zero,
        trace.correction * trace.share_sum == trace.remaining,
    ensures
        int_total(values_at(after, step.open@)) == trace.remaining,
        int_total(values_at(before, step.locked@)) + int_total(values_at(after, step.open@)) == target,
{
    let open = step.open@;
    lemma_sum_chain_exact(plus, trace.shares, trace.share_sum);
    lemma_sum_chain_exact(plus, values_at(before, step.locked@), trace.locked_sum);
    assert(values_at(after, open) =~= trace.finals);
    assert forall|i: int| 0 <= i < trace.shares.len() implies #[trigger] trace.finals[i] == trace.shares[i] * trace.correction by {
        assert(call_ensures(times, (trace.shares[i], trace.correction), trace.finals[i]));
    }
    lemma_int_total_scaled(trace.shares, trace.finals, trace.correction as int);
    assert(int_total(trace.shares) * trace.correction == trace.correction * trace.share_sum) by (nonlinear_arith)
        requires
            int_total(trace.shares) == trace.share_sum;
}

} // verus!
