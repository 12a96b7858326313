//! The densifier: decides, month by month, where every figure of a dense
//! series comes from.
//!
//! For an income statement account it orders the period constraints from the
//! shortest to the longest and, for each, splits the months of its period into
//! those already fixed by shorter constraints and those it fills now. For a
//! balance sheet account it lists the month ends between the first and the
//! last snapshot and tells which of them are anchored by a snapshot.
use vstd::prelude::*;

use crate::date::{
    chrono_days_from_ce, chrono_ordinal, day_number, day_of_year, fiscal_start_month,
    get_month_ends_in_period, in_last_month, before_enumeration_limit, lemma_month_end_at, lemma_month_end_of_index,
    month_end_at, range_end_message, MAX_YEAR,
    parsed_period, period_ok, year_in_range, Date,
};
use crate::error::FinancialHistoryError;
use crate::schema::{
    BalanceSheetAccount, BalanceSheetSnapshot, IncomeStatementAccount, PeriodConstraint, SeasonalityModel, SeasonalityProfileId,
};
use crate::seasonality::{rotate_spec, rotate_weights_for_fiscal_year};
use crate::sort::{law_sort_indices, sort_indices_by_key, sort_indices_spec};

verus! {

/// Turns sparse account data into monthly plans for a fiscal year that ends
/// in a given month.
pub struct Densifier {
    fiscal_year_end_month: u32,
}

/// Twelve calendar-month slots filled from weights given in fiscal order: the
/// weight at fiscal position `i` lands on calendar slot
/// `(start_month - 1 + i) % 12`, later positions overwriting earlier ones.
pub open spec fn align_spec<T>(fy_weights: Seq<T>, start_month: int, fill: T) -> Seq<T>
    decreases fy_weights.len(),
{
    if fy_weights.len() == 0 {
        Seq::new(12, |_i: int| fill)
    } else {
        align_spec(fy_weights.drop_last(), start_month, fill).update(
            (start_month - 1 + fy_weights.len() - 1) % 12,
            fy_weights.last(),
        )
    }
}

impl Densifier {
    /// The month in which the fiscal year ends.
    pub closed spec fn fiscal_year_end(self) -> u32 {
        self.fiscal_year_end_month
    }

    pub fn new(fiscal_year_end_month: u32) -> (r: Densifier)
        ensures
            r.fiscal_year_end() == fiscal_year_end_month,
    {
        Densifier { fiscal_year_end_month }
    }

    /// The month in which the fiscal year ends.
    pub fn fiscal_year_end_month(&self) -> (r: u32)
        ensures
            r == self.fiscal_year_end(),
    {
        self.fiscal_year_end_month
    }

    /// Places weights given in fiscal-year order on calendar months
    /// (January first); slots no weight reaches hold `fill`.
    pub fn align_weights_to_calendar<T: Copy>(&self, fy_weights: &[T], fill: T) -> (r: Vec<T>)
        requires
            self.fiscal_year_end() < u32::MAX,
            fiscal_start_month(self.fiscal_year_end() as int) - 1 + fy_weights@.len() <= usize::MAX,
        ensures
            r@ == align_spec(fy_weights@, fiscal_start_month(self.fiscal_year_end() as int), fill),
            r@.len() == 12,
    {
        let mut calendar: Vec<T> = Vec::new();
        for _k in 0..12
            invariant
                calendar@ == Seq::new(_k as nat, |_i: int| fill),
        {
            calendar.push(fill);
            proof {
                assert(calendar@ =~= Seq::new((_k + 1) as nat, |_i: int| fill));
            }
        }
        let fy_start_month = if self.fiscal_year_end_month == 12 { 1 } else { self.fiscal_year_end_month + 1 };
        proof {
            assert(fy_weights@.take(0) =~= Seq::<T>::empty());
            assert(calendar@ =~= align_spec(fy_weights@.take(0), fy_start_month as int, fill));
        }
        for fy_idx in 0..fy_weights.len()
            invariant
                fy_start_month as int == fiscal_start_month(self.fiscal_year_end() as int),
                1 <= fy_start_month,
                fy_start_month - 1 + fy_weights@.len() <= usize::MAX,
                calendar@ == align_spec(fy_weights@.take(fy_idx as int), fy_start_month as int, fill),
                calendar@.len() == 12,
        {
            let cal_idx = (fy_start_month as usize - 1 + fy_idx) % 12;
            proof {
                assert(fy_weights@.take(fy_idx + 1).drop_last() =~= fy_weights@.take(fy_idx as int));
                assert(fy_weights@.take(fy_idx + 1).last() == fy_weights@[fy_idx as int]);
            }
            calendar.set(cal_idx, fy_weights[fy_idx]);
        }
        proof {
            assert(fy_weights@.take(fy_weights@.len() as int) =~= fy_weights@);
        }
        calendar
    }
}

/// After `len` weights of a twelve-weight list have been placed, a slot holds
/// the weight whose fiscal position lands on it, if that position has been
/// placed yet.
proof fn lemma_align_prefix<T>(w: Seq<T>, start: int, fill: T, len: int)
    requires
        w.len() == 12,
        0 <= len <= 12,
        1 <= start <= 12,
    ensures
        align_spec(w.take(len), start, fill).len() == 12,
        forall|c: int| 0 <= c < 12 ==> #[trigger] align_spec(w.take(len), start, fill)[c] == (if (c - start + 1 + 12) % 12 < len {
            w[(c - start + 1 + 12) % 12]
        } else {
            fill
        }),
    decreases len,
{
    if len > 0 {
        lemma_align_prefix(w, start, fill, len - 1);
        assert(w.take(len).drop_last() =~= w.take(len - 1));
        assert(w.take(len).last() == w[len - 1]);
        let a = align_spec(w.take(len), start, fill);
        assert forall|c: int| 0 <= c < 12 implies #[trigger] a[c] == (if (c - start + 1 + 12) % 12 < len {
            w[(c - start + 1 + 12) % 12]
        } else {
            fill
        }) by {
            let j = (c - start + 1 + 12) % 12;
            let slot = (start - 1 + len - 1) % 12;
            if c == slot {
                assert(j == len - 1);
            } else {
                assert(j != len - 1);
            }
        }
    }
}

/// Profiles whose weights are listed in fiscal order, month 1 being the first
/// month after the fiscal year end: the custom profile and SaaS growth (which
/// grows over the fiscal year). The others list January first.
pub open spec fn lists_fiscal_order<V>(p: SeasonalityModel<V>) -> bool {
    p is Custom || p is SaasGrowth
}

impl Densifier {
    /// The weight of each calendar month, January first, for a profile whose
    /// twelve weights are `weights`: weights listed in fiscal order go to the
    /// calendar months from the one after the fiscal year end on; weights
    /// listed January first stay on their own months. (Weights listed January
    /// first are rotated into fiscal order and then placed; for a year end
    /// outside 1 to 12 that composition is what is stated.)
    pub fn get_calendar_weights<V: Copy>(&self, profile: &SeasonalityProfileId<V>, weights: &Vec<V>) -> (r: Vec<V>)
        requires
            self.fiscal_year_end() < u32::MAX,
            fiscal_start_month(self.fiscal_year_end() as int) - 1 + 12 <= usize::MAX,
            weights@.len() == 12,
        ensures
            r@.len() == 12,
            lists_fiscal_order(profile@) ==> r@ == align_spec(weights@, fiscal_start_month(self.fiscal_year_end() as int), weights@[0]),
            !lists_fiscal_order(profile@) ==> r@ == align_spec(
                rotate_spec(weights@, self.fiscal_year_end() as int),
                fiscal_start_month(self.fiscal_year_end() as int),
                weights@[0],
            ),
            1 <= self.fiscal_year_end() <= 12 && lists_fiscal_order(profile@) ==> forall|c: int| 0 <= c < 12 ==> #[trigger] r@[c]
                == weights@[(c - fiscal_start_month(self.fiscal_year_end() as int) + 1 + 12) % 12],
            1 <= self.fiscal_year_end() <= 12 && !lists_fiscal_order(profile@) ==> r@ == weights@,
    {
        let fiscal = match profile {
            SeasonalityProfileId::Custom(_) | SeasonalityProfileId::SaasGrowth => true,
            _ => false,
        };
        let fill = weights[0];
        let ghost start = fiscal_start_month(self.fiscal_year_end() as int);
        if fiscal {
            let r = self.align_weights_to_calendar(weights.as_slice(), fill);
            proof {
                if 1 <= self.fiscal_year_end() <= 12 {
                    lemma_align_prefix(weights@, start, fill, 12);
                    assert(weights@.take(12) =~= weights@);
                }
            }
            r
        } else {
            let fy = rotate_weights_for_fiscal_year(weights.as_slice(), self.fiscal_year_end_month());
            let r = self.align_weights_to_calendar(fy.as_slice(), fill);
            proof {
                if 1 <= self.fiscal_year_end() <= 12 {
                    law_calendar_weights(weights@, self.fiscal_year_end() as int, fill);
                }
            }
            r
        }
    }
}

/// Rotating twelve weights by the fiscal year end and placing the result on
/// calendar months gives back the weights as they were: the calendar weight of
/// a month is the weight listed at that month's calendar position, whatever
/// the fiscal year end.
pub proof fn law_calendar_weights<T>(w: Seq<T>, fiscal_year_end_month: int, fill: T)
    requires
        w.len() == 12,
        1 <= fiscal_year_end_month <= 12,
    ensures
        align_spec(rotate_spec(w, fiscal_year_end_month), fiscal_start_month(fiscal_year_end_month), fill) == w,
{
    let r = rotate_spec(w, fiscal_year_end_month);
    let start = fiscal_start_month(fiscal_year_end_month);
    lemma_align_prefix(r, start, fill, 12);
    assert(r.take(12) =~= r);
    let a = align_spec(r, start, fill);
    assert forall|c: int| 0 <= c < 12 implies #[trigger] a[c] == w[c] by {
        let j = (c - start + 1 + 12) % 12;
        if fiscal_year_end_month != 12 {
            assert((j + fiscal_year_end_month) % 12 == c);
        } else {
            assert(j == c);
        }
    }
    assert(a =~= w);
}

/// The day `d` lies in the period `p` (both ends included).
pub open spec fn in_period(d: Date, p: (Date, Date)) -> bool {
    p.0.key() <= d.key() && d.key() <= p.1.key()
}

/// The earliest first day among the periods.
pub open spec fn earliest_start(p: Seq<(Date, Date)>) -> Date
    decreases p.len(),
{
    if p.len() <= 1 {
        p[0].0
    } else {
        let r = earliest_start(p.drop_last());
        if p.last().0.key() < r.key() {
            p.last().0
        } else {
            r
        }
    }
}

/// The latest last day among the periods.
pub open spec fn latest_end(p: Seq<(Date, Date)>) -> Date
    decreases p.len(),
{
    if p.len() <= 1 {
        p[0].1
    } else {
        let r = latest_end(p.drop_last());
        if r.key() < p.last().1.key() {
            p.last().1
        } else {
            r
        }
    }
}

/// Whether a period counts as annual when its figures are described: the day
/// of the year of its last day exceeds that of its first day by more than 360
/// (a last day earlier in the year than the first counts as annual, as the
/// unsigned difference of the two wraps around).
pub open spec fn annual_spec(p: (Date, Date)) -> bool {
    let a = day_of_year(p.0);
    let b = day_of_year(p.1);
    if a <= b {
        b - a > 360
    } else {
        true
    }
}

/// The number of days from the first to the last day of the period.
pub open spec fn span_days(p: (Date, Date)) -> int {
    day_number(p.1) - day_number(p.0)
}

/// One constraint's share of the months of an income statement account.
pub struct AllocationStep {
    /// Index of the constraint in the account's list.
    pub constraint: usize,
    /// Position of the constraint in the solving order.
    pub order_position: usize,
    /// Months of the period already fixed by earlier steps (indices into the
    /// plan's months, ascending): their sum is taken off the constraint's value.
    pub locked: Vec<usize>,
    /// Months of the period that this step fills (ascending): they share what
    /// is left of the constraint's value.
    pub open: Vec<usize>,
    /// The period is a single month: its months are anchors.
    pub single_month: bool,
    /// The period counts as annual when its figures are described.
    pub annual: bool,
}

/// How an income statement account is filled month by month.
pub struct IncomePlan {
    /// Every month end from the earliest constraint start to the latest end.
    pub months: Vec<Date>,
    /// The first and last day of each constraint's period.
    pub periods: Vec<(Date, Date)>,
    /// Constraint indices from the shortest period to the longest (ties keep
    /// their list order).
    pub order: Vec<usize>,
    /// The constraints that fill months, in solving order.
    pub steps: Vec<AllocationStep>,
}

pub open spec fn strictly_increasing(s: Seq<usize>) -> bool {
    forall|i: int, j: int| 0 <= i < j < s.len() ==> #[trigger] s[i] < #[trigger] s[j]
}

/// Month `k` is filled by one of the first `j` steps.
pub open spec fn opened_before(steps: Seq<AllocationStep>, j: int, k: usize) -> bool {
    exists|i: int| 0 <= i < j && #[trigger] steps[i].open@.contains(k)
}

/// Step `j` splits the months of its constraint's period into those filled by
/// earlier steps and those it fills itself.
pub open spec fn step_wf(months: Seq<Date>, periods: Seq<(Date, Date)>, order: Seq<usize>, steps: Seq<AllocationStep>, j: int) -> bool {
    let st = steps[j];
    let p = periods[st.constraint as int];
    &&& st.constraint < periods.len()
    &&& st.order_position < order.len()
    &&& order[st.order_position as int] == st.constraint
    &&& strictly_increasing(st.open@)
    &&& strictly_increasing(st.locked@)
    &&& st.open@.len() > 0
    &&& forall|k: usize| #[trigger] st.open@.contains(k) <==> (k < months.len() && in_period(months[k as int], p) && !opened_before(steps, j, k))
    &&& forall|k: usize| #[trigger] st.locked@.contains(k) <==> (k < months.len() && in_period(months[k as int], p) && opened_before(steps, j, k))
    &&& st.single_month == (p.0.year == p.1.year && p.0.month == p.1.month)
    &&& st.annual == annual_spec(p)
}

/// The steps follow the solving order, and a constraint gets no step only
/// when every month of its period was filled by a constraint before it.
pub open spec fn steps_follow_order(months: Seq<Date>, periods: Seq<(Date, Date)>, order: Seq<usize>, steps: Seq<AllocationStep>, upto: int) -> bool {
    &&& forall|i: int, j: int| 0 <= i < j < steps.len() ==> #[trigger] steps[i].order_position < #[trigger] steps[j].order_position
    &&& forall|j: int| 0 <= j < steps.len() ==> #[trigger] steps[j].order_position < upto
    &&& forall|q: int| 0 <= q < upto && !#[trigger] position_taken(steps, q) ==>
        forall|k: usize| k < months.len() && in_period(months[k as int], periods[order[q] as int]) ==>
            #[trigger] filled_earlier(steps, q, k)
}

/// Some step comes from the constraint at position `q` of the solving order.
pub open spec fn position_taken(steps: Seq<AllocationStep>, q: int) -> bool {
    exists|j: int| 0 <= j < steps.len() && #[trigger] steps[j].order_position == q
}

/// Month `k` is filled by a step of a constraint before position `q`.
pub open spec fn filled_earlier(steps: Seq<AllocationStep>, q: int, k: usize) -> bool {
    exists|i: int| 0 <= i < steps.len() && steps[i].order_position < q && #[trigger] steps[i].open@.contains(k)
}

/// Splits the months of period `p` into those already filled and those still
/// free.
fn split_months(months: &Vec<Date>, filled: &Vec<bool>, p: (Date, Date)) -> (r: (Vec<usize>, Vec<usize>))
    requires
        filled.len() == months.len(),
        forall|k: int| 0 <= k < months.len() ==> (#[trigger] months@[k]).wf(),
        p.0.wf(),
        p.1.wf(),
    ensures
        strictly_increasing(r.0@),
        strictly_increasing(r.1@),
        forall|k: usize| #[trigger] r.0@.contains(k) <==> (k < months.len() && in_period(months@[k as int], p) && filled@[k as int]),
        forall|k: usize| #[trigger] r.1@.contains(k) <==> (k < months.len() && in_period(months@[k as int], p) && !filled@[k as int]),
{
    let mut locked: Vec<usize> = Vec::new();
    let mut open: Vec<usize> = Vec::new();
    for k in 0..months.len()
        invariant
            filled.len() == months.len(),
            forall|m: int| 0 <= m < months.len() ==> (#[trigger] months@[m]).wf(),
            p.0.wf(),
            p.1.wf(),
            strictly_increasing(locked@),
            strictly_increasing(open@),
            forall|m: int| 0 <= m < locked.len() ==> #[trigger] locked@[m] < k,
            forall|m: int| 0 <= m < open.len() ==> #[trigger] open@[m] < k,
            forall|m: usize| #[trigger] locked@.contains(m) <==> (m < k && in_period(months@[m as int], p) && filled@[m as int]),
            forall|m: usize| #[trigger] open@.contains(m) <==> (m < k && in_period(months@[m as int], p) && !filled@[m as int]),
    {
        let d = months[k];
        let inside = !d.before(&p.0) && !p.1.before(&d);
        assert(inside == in_period(months@[k as int], p));
        if inside {
            if filled[k] {
                let ghost old_locked = locked@;
                locked.push(k);
                proof {
                    assert(locked@ == old_locked.push(k));
                    assert forall|m: usize| #[trigger] locked@.contains(m) <==> (m < k + 1 && in_period(months@[m as int], p) && filled@[m as int]) by {
                        if locked@.contains(m) && m != k {
                            let t = choose|t: int| 0 <= t < locked@.len() && locked@[t] == m;
                            assert(t < old_locked.len());
                            assert(old_locked[t] == m);
                            assert(old_locked.contains(m));
                        }
                        if m < k && in_period(months@[m as int], p) && filled@[m as int] {
                            assert(old_locked.contains(m));
                            let t = choose|t: int| 0 <= t < old_locked.len() && old_locked[t] == m;
                            assert(locked@[t] == m);
                        }
                        if m == k {
                            assert(locked@[locked@.len() - 1] == k);
                        }
                    }
                }
            } else {
                let ghost old_open = open@;
                open.push(k);
                proof {
                    assert(open@ == old_open.push(k));
                    assert forall|m: usize| #[trigger] open@.contains(m) <==> (m < k + 1 && in_period(months@[m as int], p) && !filled@[m as int]) by {
                        if open@.contains(m) && m != k {
                            let t = choose|t: int| 0 <= t < open@.len() && open@[t] == m;
                            assert(t < old_open.len());
                            assert(old_open[t] == m);
                            assert(old_open.contains(m));
                        }
                        if m < k && in_period(months@[m as int], p) && !filled@[m as int] {
                            assert(old_open.contains(m));
                            let t = choose|t: int| 0 <= t < old_open.len() && old_open[t] == m;
                            assert(open@[t] == m);
                        }
                        if m == k {
                            assert(open@[open@.len() - 1] == k);
                        }
                    }
                }
            }
        }
    }
    (locked, open)
}

/// The span keys by which constraints are ordered.
pub open spec fn span_keys(periods: Seq<(Date, Date)>) -> Seq<i64> {
    Seq::new(periods.len(), |i: int| span_days(periods[i]) as i64)
}

/// What `plan_income_statement` promises for a successful plan of an account
/// with constraints `constraints`.
pub open spec fn income_plan_spec<V>(constraints: Seq<PeriodConstraint<V>>, plan: IncomePlan) -> bool {
    let n = constraints.len();
    let months = plan.months@;
    let periods = plan.periods@;
    let order = plan.order@;
    let steps = plan.steps@;
    &&& periods.len() == n
    &&& forall|i: int| 0 <= i < n ==> Some(#[trigger] periods[i]) == parsed_period(constraints[i].period@)
    &&& n == 0 ==> months.len() == 0 && order.len() == 0 && steps.len() == 0
    &&& n > 0 ==> {
        &&& forall|i: int| 0 <= i < months.len() ==> #[trigger] months[i] == month_end_at(earliest_start(periods).month_index() + i)
        &&& forall|i: int| 0 <= i < months.len() ==> earliest_start(periods).key() <= #[trigger] months[i].key() <= latest_end(periods).key()
        &&& month_end_at(earliest_start(periods).month_index() + months.len()).key() > latest_end(periods).key()
        &&& order == sort_indices_spec(n, span_keys(periods))
        &&& forall|j: int| 0 <= j < steps.len() ==> step_wf(months, periods, order, steps, j)
        &&& steps_follow_order(months, periods, order, steps, order.len() as int)
    }
}

proof fn lemma_bounds_of_periods(p: Seq<(Date, Date)>)
    requires
        p.len() > 0,
    ensures
        exists|i: int| 0 <= i < p.len() && earliest_start(p) == #[trigger] p[i].0,
        exists|i: int| 0 <= i < p.len() && latest_end(p) == #[trigger] p[i].1,
        forall|i: int| 0 <= i < p.len() ==> earliest_start(p).key() <= (#[trigger] p[i]).0.key(),
        forall|i: int| 0 <= i < p.len() ==> (#[trigger] p[i]).1.key() <= latest_end(p).key(),
    decreases p.len(),
{
    if p.len() > 1 {
        lemma_bounds_of_periods(p.drop_last());
        let q = p.drop_last();
        let a = choose|i: int| 0 <= i < q.len() && earliest_start(q) == #[trigger] q[i].0;
        let b = choose|i: int| 0 <= i < q.len() && latest_end(q) == #[trigger] q[i].1;
        assert(p[a] == q[a]);
        assert(p[b] == q[b]);
        assert(p[p.len() - 1] == p.last());
        assert forall|i: int| 0 <= i < p.len() implies earliest_start(p).key() <= (#[trigger] p[i]).0.key() by {
            if i < p.len() - 1 {
                assert(p[i] == q[i]);
            }
        }
        assert forall|i: int| 0 <= i < p.len() implies (#[trigger] p[i]).1.key() <= latest_end(p).key() by {
            if i < p.len() - 1 {
                assert(p[i] == q[i]);
            }
        }
    } else {
        assert(earliest_start(p) == p[0].0);
        assert(latest_end(p) == p[0].1);
    }
}

proof fn lemma_opened_before_push(steps: Seq<AllocationStep>, st: AllocationStep, j: int, k: usize)
    requires
        0 <= j <= steps.len(),
    ensures
        opened_before(steps.push(st), j, k) == opened_before(steps, j, k),
{
    let s2 = steps.push(st);
    if opened_before(s2, j, k) {
        let i = choose|i: int| 0 <= i < j && #[trigger] s2[i].open@.contains(k);
        assert(steps[i] == s2[i]);
    }
    if opened_before(steps, j, k) {
        let i = choose|i: int| 0 <= i < j && #[trigger] steps[i].open@.contains(k);
        assert(steps[i] == s2[i]);
    }
}

/// The months of the period can be enumerated: it does not start in the last
/// month of the supported range, and it ends before November 30 of that year.
pub open spec fn period_enumerable(p: (Date, Date)) -> bool {
    !in_last_month(p.0) && before_enumeration_limit(p.1)
}

/// The period reads, and its months can be enumerated.
pub open spec fn reads_enumerable(period: Seq<char>) -> bool {
    match parsed_period(period) {
        Some(p) => period_enumerable(p),
        None => false,
    }
}

/// The solving plan for constraints with the given (read) periods.
fn plan_from_periods(periods: Vec<(Date, Date)>) -> (r: IncomePlan)
    requires
        periods.len() > 0,
        forall|m: int| 0 <= m < periods.len() ==> (#[trigger] periods@[m]).0.wf() && periods@[m].1.wf()
            && period_enumerable(periods@[m]),
    ensures
        r.periods@ == periods@,
        ({
            let months = r.months@;
            let order = r.order@;
            let steps = r.steps@;
            &&& forall|i: int| 0 <= i < months.len() ==> #[trigger] months[i] == month_end_at(earliest_start(periods@).month_index() + i)
            &&& forall|i: int| 0 <= i < months.len() ==> earliest_start(periods@).key() <= #[trigger] months[i].key() <= latest_end(periods@).key()
            &&& month_end_at(earliest_start(periods@).month_index() + months.len()).key() > latest_end(periods@).key()
            &&& order == sort_indices_spec(periods@.len() as nat, span_keys(periods@))
            &&& forall|j: int| 0 <= j < steps.len() ==> step_wf(months, periods@, order, steps, j)
            &&& steps_follow_order(months, periods@, order, steps, order.len() as int)
        }),
{
    let n = periods.len();
        let mut gs = periods[0].0;
        let mut ge = periods[0].1;
        for i in 1..n
            invariant
                n == periods.len(),
                forall|m: int| 0 <= m < n ==> (#[trigger] periods@[m]).0.wf() && periods@[m].1.wf(),
                gs == earliest_start(periods@.take(i as int)),
                ge == latest_end(periods@.take(i as int)),
                gs.wf(),
                ge.wf(),
        {
            proof {
                assert(periods@.take(i + 1).drop_last() =~= periods@.take(i as int));
            }
            if periods[i].0.before(&gs) {
                gs = periods[i].0;
            }
            if ge.before(&periods[i].1) {
                ge = periods[i].1;
            }
        }
        proof {
            assert(periods@.take(n as int) =~= periods@);
            lemma_bounds_of_periods(periods@);
            let a = choose|i: int| 0 <= i < periods@.len() && earliest_start(periods@) == #[trigger] periods@[i].0;
            let b = choose|i: int| 0 <= i < periods@.len() && latest_end(periods@) == #[trigger] periods@[i].1;
            assert(period_enumerable(periods@[a]) && period_enumerable(periods@[b]));
        }
        let months = get_month_ends_in_period(gs, ge);
        proof {
        }
        let mut keys: Vec<i64> = Vec::new();
        for i in 0..n
            invariant
                n == periods.len(),
                forall|m: int| 0 <= m < n ==> (#[trigger] periods@[m]).0.wf() && periods@[m].1.wf(),
                keys@ == span_keys(periods@).take(i as int),
        {
            let first = chrono_days_from_ce(periods[i].0);
            let last = chrono_days_from_ce(periods[i].1);
            keys.push(last as i64 - first as i64);
            proof {
                assert(keys@ =~= span_keys(periods@).take(i + 1));
            }
        }
        proof {
            assert(keys@ =~= span_keys(periods@));
        }
        let order = sort_indices_by_key(&keys);
        proof {
            law_sort_indices(n as nat, keys@);
            assert forall|q: int| 0 <= q < n implies (#[trigger] order@[q]) < n by {
                assert(order@.contains(order@[q]));
            }
        }
        let mut filled: Vec<bool> = Vec::new();
        for k in 0..months.len()
            invariant
                filled@ == Seq::new(k as nat, |_i: int| false),
        {
            filled.push(false);
            proof {
                assert(filled@ =~= Seq::new((k + 1) as nat, |_i: int| false));
            }
        }
        let mut steps: Vec<AllocationStep> = Vec::new();
        for q in 0..n
            invariant
                n == periods.len(),
                n == order.len(),
                forall|m: int| 0 <= m < n ==> (#[trigger] order@[m]) < n,
                forall|m: int| 0 <= m < n ==> (#[trigger] periods@[m]).0.wf() && periods@[m].1.wf(),
                forall|m: int| 0 <= m < months.len() ==> (#[trigger] months@[m]).wf(),
                filled.len() == months.len(),
                forall|k: usize| k < months.len() ==> (filled@[k as int] <==> #[trigger] opened_before(steps@, steps@.len() as int, k)),
                forall|j: int| 0 <= j < steps.len() ==> step_wf(months@, periods@, order@, steps@, j),
                steps_follow_order(months@, periods@, order@, steps@, q as int),
        {
            let c = order[q];
            let p = periods[c];
            let (locked, open) = split_months(&months, &filled, p);
            if open.len() > 0 {
                let ghost filled0 = filled@;
                for t in 0..open.len()
                    invariant
                        filled.len() == months.len(),
                        filled0.len() == months.len(),
                        strictly_increasing(open@),
                        forall|k: usize| #[trigger] open@.contains(k) ==> k < months.len(),
                        forall|k: int| 0 <= k < months.len() ==> (#[trigger] filled@[k] <==> (filled0[k]
                            || exists|u: int| 0 <= u < t && open@[u] == k)),
                {
                    proof {
                        assert(open@.contains(open@[t as int]));
                    }
                    filled.set(open[t], true);
                }
                let single_month = p.0.year == p.1.year && p.0.month == p.1.month;
                let day_first = chrono_ordinal(p.0);
                let day_last = chrono_ordinal(p.1);
                let annual = if day_first <= day_last { day_last - day_first > 360 } else { true };
                let step = AllocationStep { constraint: c, order_position: q, locked, open, single_month, annual };
                let ghost old_steps = steps@;
                let ghost new_step = step;
                steps.push(step);
                proof {
                    let s2 = steps@;
                    let m = old_steps.len() as int;
                    assert(s2 == old_steps.push(new_step));
                    assert(s2[m] == new_step);
                    assert forall|k: int| 0 <= k < months.len() implies (#[trigger] filled@[k] <==> (filled0[k] || new_step.open@.contains(k as usize))) by {
                        if new_step.open@.contains(k as usize) {
                            let u = choose|u: int| 0 <= u < new_step.open@.len() && new_step.open@[u] == k as usize;
                            assert(exists|u: int| 0 <= u < new_step.open@.len() && new_step.open@[u] == k);
                        }
                        if exists|u: int| 0 <= u < new_step.open@.len() && new_step.open@[u] == k {
                            let u = choose|u: int| 0 <= u < new_step.open@.len() && new_step.open@[u] == k;
                            assert(new_step.open@[u] == k as usize);
                        }
                    }
                    assert forall|k: usize| k < months.len() implies (filled@[k as int] <==> #[trigger] opened_before(s2, s2.len() as int, k)) by {
                        lemma_opened_before_push(old_steps, new_step, m, k);
                        if opened_before(s2, m + 1, k) {
                            let i = choose|i: int| 0 <= i < m + 1 && #[trigger] s2[i].open@.contains(k);
                            if i < m {
                                assert(s2[i] == old_steps[i]);
                                assert(opened_before(old_steps, m, k));
                            }
                        }
                        if filled@[k as int] {
                            if filled0[k as int] {
                                assert(opened_before(old_steps, m, k));
                                let i = choose|i: int| 0 <= i < m && #[trigger] old_steps[i].open@.contains(k);
                                assert(s2[i] == old_steps[i]);
                            } else {
                                assert(s2[m].open@.contains(k));
                            }
                        }
                    }
                    assert forall|j: int| 0 <= j < s2.len() implies step_wf(months@, periods@, order@, s2, j) by {
                        assert forall|k: usize| opened_before(s2, j, k) == opened_before(old_steps, j, k) by {
                            if j <= m {
                                lemma_opened_before_push(old_steps, new_step, j, k);
                            }
                        }
                        if j < m {
                            assert(s2[j] == old_steps[j]);
                            assert(step_wf(months@, periods@, order@, old_steps, j));
                        } else {
                            assert forall|k: usize| k < months.len() implies (opened_before(old_steps, m, k) == filled0[k as int]) by {
                            }
                        }
                    }
                    assert forall|q2: int| 0 <= q2 < q + 1 && !#[trigger] position_taken(s2, q2) implies
                        forall|k: usize| k < months.len() && in_period(months@[k as int], periods@[order@[q2] as int]) ==>
                            #[trigger] filled_earlier(s2, q2, k) by {
                        if q2 < q {
                            if position_taken(old_steps, q2) {
                                let j = choose|j: int| 0 <= j < old_steps.len() && #[trigger] old_steps[j].order_position == q2;
                                assert(s2[j] == old_steps[j]);
                            }
                            assert forall|k: usize| k < months.len() && in_period(months@[k as int], periods@[order@[q2] as int]) implies
                                #[trigger] filled_earlier(s2, q2, k) by {
                                assert(filled_earlier(old_steps, q2, k));
                                let i = choose|i: int| 0 <= i < old_steps.len() && old_steps[i].order_position < q2 && #[trigger] old_steps[i].open@.contains(k);
                                assert(s2[i] == old_steps[i]);
                            }
                        } else {
                            assert(s2[m].order_position == q);
                        }
                    }
                    assert forall|i: int, j: int| 0 <= i < j < s2.len() implies #[trigger] s2[i].order_position < #[trigger] s2[j].order_position by {
                        if j < m {
                            assert(s2[i] == old_steps[i] && s2[j] == old_steps[j]);
                        } else {
                            assert(s2[i] == old_steps[i]);
                        }
                    }
                    assert forall|j: int| 0 <= j < s2.len() implies #[trigger] s2[j].order_position < q + 1 by {
                        if j < m {
                            assert(s2[j] == old_steps[j]);
                        }
                    }
                }
            } else {
                proof {
                    assert forall|q2: int| 0 <= q2 < q + 1 && !#[trigger] position_taken(steps@, q2) implies
                        forall|k: usize| k < months.len() && in_period(months@[k as int], periods@[order@[q2] as int]) ==>
                            #[trigger] filled_earlier(steps@, q2, k) by {
                        if q2 == q {
                            assert forall|k: usize| k < months.len() && in_period(months@[k as int], periods@[order@[q2] as int]) implies
                                #[trigger] filled_earlier(steps@, q2, k) by {
                                if !filled@[k as int] {
                                    assert(open@.contains(k));
                                    assert(open@.len() > 0);
                                }
                                assert(opened_before(steps@, steps@.len() as int, k));
                                let i = choose|i: int| 0 <= i < steps@.len() && #[trigger] steps@[i].open@.contains(k);
                                assert(steps@[i].order_position < q);
                            }
                        }
                    }
                }
            }
        }
        IncomePlan { months, periods, order, steps }
}

impl Densifier {
    /// Plans how an income statement account is filled. Every constraint's
    /// period is read first (the first one that does not read is the error);
    /// then a period that starts in December of `MAX_YEAR` or ends on or after
    /// November 30 of that year is a date error, as its months cannot be
    /// enumerated. The months run from the earliest start to the latest end. Constraints
    /// are taken from the shortest period to the longest; each takes the months
    /// of its period that no earlier constraint filled, and subtracts those that
    /// were. A constraint all of whose months are already filled leaves no step.
    pub fn plan_income_statement<V>(&self, account: &IncomeStatementAccount<V>) -> (r: Result<IncomePlan, FinancialHistoryError>)
        ensures
            r is Ok <==> forall|i: int| 0 <= i < account.constraints@.len() ==> #[trigger] reads_enumerable(account.constraints@[i].period@),
            r matches Err(e) ==> (exists|i: int| 0 <= i < account.constraints@.len()
                && #[trigger] period_ok(account.constraints@[i].period@, Err::<(Date, Date), FinancialHistoryError>(e)))
                || (e matches FinancialHistoryError::DateError(m) && m@ == range_end_message()),
            ((forall|i: int| 0 <= i < account.constraints@.len() ==> (#[trigger] parsed_period(account.constraints@[i].period@)) is Some)
                && r is Err) ==> (r matches Err(FinancialHistoryError::DateError(m)) && m@ == range_end_message()),
            r matches Ok(plan) ==> income_plan_spec(account.constraints@, plan),
    {
        let n = account.constraints.len();
        let mut periods: Vec<(Date, Date)> = Vec::new();
        for i in 0..n
            invariant
                n == account.constraints@.len(),
                periods.len() == i,
                forall|m: int| 0 <= m < i ==> Some(#[trigger] periods@[m]) == parsed_period(account.constraints@[m].period@),
                forall|m: int| 0 <= m < i ==> (#[trigger] periods@[m]).0.wf() && periods@[m].1.wf(),
        {
            match account.constraints[i].resolve_dates() {
                Ok(p) => periods.push(p),
                Err(e) => {
                    proof {
                        assert(period_ok(account.constraints@[i as int].period@, Err::<(Date, Date), FinancialHistoryError>(e)));
                        assert(parsed_period(account.constraints@[i as int].period@) is None);
                        assert(!reads_enumerable(account.constraints@[i as int].period@));
                    }
                    return Err(e);
                },
            }
        }
        proof {
            assert forall|i: int| 0 <= i < n implies (#[trigger] parsed_period(account.constraints@[i].period@)) is Some by {
                assert(Some(periods@[i]) == parsed_period(account.constraints@[i].period@));
            }
        }
        for i in 0..n
            invariant
                n == account.constraints@.len(),
                periods.len() == n,
                forall|m: int| 0 <= m < n ==> Some(#[trigger] periods@[m]) == parsed_period(account.constraints@[m].period@),
                forall|m: int| 0 <= m < n ==> (#[trigger] periods@[m]).0.wf() && periods@[m].1.wf(),
                forall|m: int| 0 <= m < i ==> period_enumerable(#[trigger] periods@[m]),
        {
            let (s, e) = periods[i];
            let enumerable = !(s.year == MAX_YEAR && s.month == 12)
                && (e.year < MAX_YEAR || e.month < 11 || (e.month == 11 && e.day < 30));
            if !enumerable {
                let m = String::from_str("Period ends beyond the supported date range");
                proof {
                    reveal_strlit("Period ends beyond the supported date range");
                    assert(parsed_period(account.constraints@[i as int].period@) == Some(periods@[i as int]));
                    assert(!period_enumerable(periods@[i as int]));
                    assert(!reads_enumerable(account.constraints@[i as int].period@));
                }
                return Err(FinancialHistoryError::DateError(m));
            }
        }
        proof {
            assert forall|i: int| 0 <= i < n implies #[trigger] reads_enumerable(account.constraints@[i].period@) by {
                assert(Some(periods@[i]) == parsed_period(account.constraints@[i].period@));
            }
        }
        if n == 0 {
            return Ok(IncomePlan { months: Vec::new(), periods, order: Vec::new(), steps: Vec::new() });
        }
        let plan = plan_from_periods(periods);
        Ok(plan)
    }
}

/// In an income statement plan every month that some constraint covers is
/// filled by exactly one step: no two steps fill the same month, and each month
/// of every constraint's period is filled by some step (by the constraint
/// itself or by a shorter one solved before it).
pub proof fn law_each_month_filled_once<V>(constraints: Seq<PeriodConstraint<V>>, plan: IncomePlan)
    requires
        income_plan_spec(constraints, plan),
        constraints.len() > 0,
    ensures
        forall|i: int, j: int, k: usize| 0 <= i < j < plan.steps@.len() ==>
            !(#[trigger] plan.steps@[i].open@.contains(k) && #[trigger] plan.steps@[j].open@.contains(k)),
        forall|c: int, k: usize| 0 <= c < constraints.len() && k < plan.months@.len()
            && #[trigger] in_period(plan.months@[k as int], plan.periods@[c]) ==>
            exists|j: int| 0 <= j < plan.steps@.len() && #[trigger] plan.steps@[j].open@.contains(k),
{
    let months = plan.months@;
    let periods = plan.periods@;
    let order = plan.order@;
    let steps = plan.steps@;
    let n = constraints.len();
    assert forall|i: int, j: int, k: usize| 0 <= i < j < steps.len() implies
        !(#[trigger] steps[i].open@.contains(k) && #[trigger] steps[j].open@.contains(k)) by {
        assert(step_wf(months, periods, order, steps, j));
        if steps[i].open@.contains(k) && steps[j].open@.contains(k) {
            assert(opened_before(steps, j, k));
        }
    }
    assert forall|c: int, k: usize| 0 <= c < n && k < months.len() && #[trigger] in_period(months[k as int], periods[c]) implies
        exists|j: int| 0 <= j < steps.len() && #[trigger] steps[j].open@.contains(k) by {
        assert(periods.len() == plan.periods.len());
        law_sort_indices(n, span_keys(periods));
        assert(order.contains(c as usize));
        let q = choose|q: int| 0 <= q < order.len() && order[q] == c as usize;
        if position_taken(steps, q) {
            let j = choose|j: int| 0 <= j < steps.len() && #[trigger] steps[j].order_position == q;
            assert(step_wf(months, periods, order, steps, j));
            if opened_before(steps, j, k) {
                let i = choose|i: int| 0 <= i < j && #[trigger] steps[i].open@.contains(k);
            } else {
                assert(steps[j].constraint == order[q]);
                assert(steps[j].constraint == c);
                assert(steps[j].open@.contains(k));
            }
        } else {
            assert(filled_earlier(steps, q, k));
            let i = choose|i: int| 0 <= i < steps.len() && steps[i].order_position < q && #[trigger] steps[i].open@.contains(k);
        }
    }
}

/// The number that orders dates, computed.
pub fn date_key(d: &Date) -> (r: i64)
    requires
        d.wf(),
    ensures
        r == d.key(),
{
    (d.year as i64 * 12 + d.month as i64 - 1) * 32 + d.day as i64
}

/// How a balance sheet account is filled month by month.
pub struct BalancePlan {
    /// Snapshot indices in date order (ties keep their list order).
    pub order: Vec<usize>,
    /// Every month end from the first snapshot to the last.
    pub months: Vec<Date>,
    /// For each month, the snapshot that anchors it: the first one, in date
    /// order, dated on that month end. Months without one are interpolated.
    pub anchors: Vec<Option<usize>>,
}

/// The date keys of the snapshots.
pub open spec fn snapshot_keys<V>(snaps: Seq<BalanceSheetSnapshot<V>>) -> Seq<i64> {
    Seq::new(snaps.len(), |i: int| snaps[i].date.key() as i64)
}

/// The first snapshot, taken in `order`, dated `d`.
pub open spec fn first_anchor<V>(order: Seq<usize>, snaps: Seq<BalanceSheetSnapshot<V>>, d: Date) -> Option<usize>
    decreases order.len(),
{
    if order.len() == 0 {
        None
    } else if snaps[order[0] as int].date == d {
        Some(order[0])
    } else {
        first_anchor(order.drop_first(), snaps, d)
    }
}

/// What `plan_balance_sheet` promises.
pub open spec fn balance_plan_spec<V>(snaps: Seq<BalanceSheetSnapshot<V>>, plan: BalancePlan) -> bool {
    let n = snaps.len();
    let order = plan.order@;
    let months = plan.months@;
    &&& n == 0 ==> order.len() == 0 && months.len() == 0 && plan.anchors@.len() == 0
    &&& n > 0 ==> {
        let first = snaps[order[0] as int].date;
        let last = snaps[order[n - 1] as int].date;
        &&& order == sort_indices_spec(n, snapshot_keys(snaps))
        &&& forall|i: int| 0 <= i < months.len() ==> #[trigger] months[i] == month_end_at(first.month_index() + i)
        &&& forall|i: int| 0 <= i < months.len() ==> first.key() <= #[trigger] months[i].key() <= last.key()
        &&& month_end_at(first.month_index() + months.len()).key() > last.key()
        &&& plan.anchors@.len() == months.len()
        &&& forall|k: int| 0 <= k < months.len() ==> #[trigger] plan.anchors@[k] == first_anchor(order, snaps, months[k])
    }
}

impl Densifier {
    /// Plans how a balance sheet account is filled: snapshots in date order,
    /// every month end from the first snapshot to the last, and for each month
    /// the snapshot (if any) dated on it. The snapshots must come before
    /// November 30 of `MAX_YEAR`, up to which month ends can be enumerated.
    pub fn plan_balance_sheet<V>(&self, account: &BalanceSheetAccount<V>) -> (r: BalancePlan)
        requires
            forall|i: int| 0 <= i < account.snapshots@.len() ==> (#[trigger] account.snapshots@[i]).date.wf()
                && before_enumeration_limit(account.snapshots@[i].date),
        ensures
            balance_plan_spec(account.snapshots@, r),
    {
        let snaps = &account.snapshots;
        let n = snaps.len();
        if n == 0 {
            return BalancePlan { order: Vec::new(), months: Vec::new(), anchors: Vec::new() };
        }
        let mut keys: Vec<i64> = Vec::new();
        for i in 0..n
            invariant
                n == snaps@.len(),
                forall|m: int| 0 <= m < n ==> (#[trigger] snaps@[m]).date.wf(),
                keys@ == snapshot_keys(snaps@).take(i as int),
        {
            keys.push(date_key(&snaps[i].date));
            proof {
                assert(keys@ =~= snapshot_keys(snaps@).take(i + 1));
            }
        }
        proof {
            assert(keys@ =~= snapshot_keys(snaps@));
            law_sort_indices(n as nat, keys@);
        }
        let order = sort_indices_by_key(&keys);
        proof {
            assert(order@.len() == n);
            assert forall|q: int| 0 <= q < n implies (#[trigger] order@[q]) < n by {
                assert(order@.contains(order@[q]));
            }
        }
        let first = snaps[order[0]].date;
        let last = snaps[order[n - 1]].date;
        let months = get_month_ends_in_period(first, last);
        let mut anchors: Vec<Option<usize>> = Vec::new();
        for k in 0..months.len()
            invariant
                n == snaps@.len(),
                n == order@.len(),
                forall|q: int| 0 <= q < n ==> (#[trigger] order@[q]) < n,
                anchors@.len() == k,
                forall|m: int| 0 <= m < k ==> #[trigger] anchors@[m] == first_anchor(order@, snaps@, months@[m]),
        {
            let d = months[k];
            let mut found: Option<usize> = None;
            let mut t: usize = 0;
            proof {
                assert(order@.skip(0) =~= order@);
            }
            while t < n
                invariant_except_break
                    found is None,
                    first_anchor(order@, snaps@, d) == first_anchor(order@.skip(t as int), snaps@, d),
                invariant
                    n == snaps@.len(),
                    n == order@.len(),
                    forall|q: int| 0 <= q < n ==> (#[trigger] order@[q]) < n,
                    t <= n,
                ensures
                    found == first_anchor(order@, snaps@, d),
                decreases n - t,
            {
                proof {
                    assert(order@.skip(t as int).drop_first() =~= order@.skip(t + 1));
                    assert(order@.skip(t as int)[0] == order@[t as int]);
                }
                if snaps[order[t]].date == d {
                    found = Some(order[t]);
                    break;
                }
                t = t + 1;
            }
            anchors.push(found);
        }
        BalancePlan { order, months, anchors }
    }
}

/// The snapshot found first is one of those listed in `order`.
proof fn lemma_first_anchor_listed<V>(order: Seq<usize>, snaps: Seq<BalanceSheetSnapshot<V>>, d: Date)
    ensures
        first_anchor(order, snaps, d) matches Some(i) ==> order.contains(i),
    decreases order.len(),
{
    if order.len() > 0 && snaps[order[0] as int].date != d {
        lemma_first_anchor_listed(order.drop_first(), snaps, d);
        if let Some(i) = first_anchor(order.drop_first(), snaps, d) {
            let q = choose|q: int| 0 <= q < order.drop_first().len() && order.drop_first()[q] == i;
            assert(order[q + 1] == i);
        }
    } else if order.len() > 0 {
        assert(order[0] == order[0]);
    }
}

impl Densifier {
    /// The monthly balances of a balance sheet account: its plan (see
    /// `plan_balance_sheet`) and a value for each of the plan's months, the
    /// value of the snapshot that anchors the month, or else what
    /// `interpolate` gives for the month.
    pub fn densify_balance_sheet<V: Copy, F: Fn(Date) -> V>(&self, account: &BalanceSheetAccount<V>, interpolate: &F) -> (r: (BalancePlan, Vec<V>))
        requires
            forall|i: int| 0 <= i < account.snapshots@.len() ==> (#[trigger] account.snapshots@[i]).date.wf()
                && before_enumeration_limit(account.snapshots@[i].date),
            forall|d: Date| call_requires(*interpolate, (d,)),
        ensures
            balance_plan_spec(account.snapshots@, r.0),
            r.1@.len() == r.0.months@.len(),
            forall|k: int| 0 <= k < r.1@.len() ==> match #[trigger] r.0.anchors@[k] {
                Some(i) => i < account.snapshots@.len() && r.1@[k] == account.snapshots@[i as int].value,
                None => call_ensures(*interpolate, (r.0.months@[k],), r.1@[k]),
            },
    {
        let plan = self.plan_balance_sheet(account);
        let n = account.snapshots.len();
        proof {
            if n > 0 {
                law_sort_indices(n as nat, snapshot_keys(account.snapshots@));
            }
        }
        let mut values: Vec<V> = Vec::new();
        for k in 0..plan.months.len()
            invariant
                n == account.snapshots@.len(),
                balance_plan_spec(account.snapshots@, plan),
                n > 0 ==> forall|v: usize| #[trigger] plan.order@.contains(v) <==> v < n,
                forall|d: Date| call_requires(*interpolate, (d,)),
                values@.len() == k,
                forall|m: int| 0 <= m < k ==> match #[trigger] plan.anchors@[m] {
                    Some(i) => i < n && values@[m] == account.snapshots@[i as int].value,
                    None => call_ensures(*interpolate, (plan.months@[m],), values@[m]),
                },
        {
            let v = match plan.anchors[k] {
                Some(i) => {
                    proof {
                        lemma_first_anchor_listed(plan.order@, account.snapshots@, plan.months@[k as int]);
                        assert(plan.order@.contains(i));
                    }
                    account.snapshots[i].value
                },
                None => interpolate(plan.months[k]),
            };
            values.push(v);
        }
        (plan, values)
    }
}

proof fn lemma_first_anchor_found<V>(order: Seq<usize>, snaps: Seq<BalanceSheetSnapshot<V>>, d: Date, t: int)
    requires
        0 <= t < order.len(),
        snaps[order[t] as int].date == d,
    ensures
        first_anchor(order, snaps, d) is Some,
        snaps[first_anchor(order, snaps, d)->0 as int].date == d,
    decreases order.len(),
{
    if snaps[order[0] as int].date != d {
        assert(order.drop_first()[t - 1] == order[t]);
        lemma_first_anchor_found(order.drop_first(), snaps, d, t - 1);
    }
}

proof fn lemma_month_end_key_monotone(a: int, b: int)
    requires
        a <= b,
        year_in_range(a / 12),
        year_in_range(b / 12),
    ensures
        month_end_at(a).key() <= month_end_at(b).key(),
        a < b ==> month_end_at(a).key() < month_end_at(b).key(),
{
    lemma_month_end_at(a);
    lemma_month_end_at(b);
}

/// A balance sheet plan passes through its snapshots: every snapshot dated on
/// a month end falls on one of the plan's months, and that month is anchored
/// by a snapshot of the same date.
pub proof fn law_snapshots_are_anchors<V>(snaps: Seq<BalanceSheetSnapshot<V>>, plan: BalancePlan)
    requires
        balance_plan_spec(snaps, plan),
        snaps.len() <= usize::MAX,
        forall|i: int| 0 <= i < snaps.len() ==> (#[trigger] snaps[i]).date.wf(),
    ensures
        forall|i: int| 0 <= i < snaps.len() && (#[trigger] snaps[i]).date.is_month_end() ==>
            exists|k: int| 0 <= k < plan.months@.len() && #[trigger] plan.months@[k] == snaps[i].date
                && plan.anchors@[k] is Some && snaps[plan.anchors@[k]->0 as int].date == snaps[i].date,
{
    let n = snaps.len();
    let order = plan.order@;
    let months = plan.months@;
    assert forall|i: int| 0 <= i < n && (#[trigger] snaps[i]).date.is_month_end() implies
        exists|k: int| 0 <= k < months.len() && #[trigger] months[k] == snaps[i].date
            && plan.anchors@[k] is Some && snaps[plan.anchors@[k]->0 as int].date == snaps[i].date by {
        law_sort_indices(n, snapshot_keys(snaps));
        let keys = snapshot_keys(snaps);
        assert(order.contains(i as usize));
        let t = choose|t: int| 0 <= t < order.len() && order[t] == i as usize;
        assert(order.contains(order[0]));
        assert(order.contains(order[n - 1]));
        let first = snaps[order[0] as int].date;
        let last = snaps[order[n - 1] as int].date;
        let d = snaps[i].date;
        assert(first.key() <= d.key()) by {
            if t > 0 {
                assert(keys[order[0] as int] <= keys[order[t] as int]);
            }
        }
        assert(d.key() <= last.key()) by {
            if t < n - 1 {
                assert(keys[order[t] as int] <= keys[order[n - 1] as int]);
            }
        }
        let k = d.month_index() - first.month_index();
        assert(0 <= k) by {
            if k < 0 {
                assert(d.key() < first.key());
            }
        }
        lemma_month_end_of_index(d.year as int, d.month as int);
        assert(month_end_at(first.month_index() + k) == d);
        assert(k < months.len()) by {
            if k >= months.len() {
                lemma_month_end_of_index(first.year as int, first.month as int);
                lemma_month_end_of_index(last.year as int, last.month as int);
                lemma_month_end_key_monotone(first.month_index() + months.len(), first.month_index() + k);
            }
        }
        assert(months[k] == d);
        lemma_first_anchor_found(order, snaps, d, t);
    }
}

/// A densified balance sheet series passes through its snapshots: when no two
/// snapshots of a date disagree, the month of every snapshot dated on a month
/// end holds exactly that snapshot's value.
pub proof fn law_series_passes_through_snapshots<V>(snaps: Seq<BalanceSheetSnapshot<V>>, plan: BalancePlan, values: Seq<V>)
    requires
        balance_plan_spec(snaps, plan),
        snaps.len() <= usize::MAX,
        forall|i: int| 0 <= i < snaps.len() ==> (#[trigger] snaps[i]).date.wf(),
        values.len() == plan.months@.len(),
        forall|k: int| 0 <= k < values.len() ==> match #[trigger] plan.anchors@[k] {
            Some(i) => i < snaps.len() && values[k] == snaps[i as int].value,
            None => true,
        },
        forall|i: int, j: int| 0 <= i < snaps.len() && 0 <= j < snaps.len() && (#[trigger] snaps[i]).date == (#[trigger] snaps[j]).date
            ==> snaps[i].value == snaps[j].value,
    ensures
        forall|i: int| 0 <= i < snaps.len() && (#[trigger] snaps[i]).date.is_month_end() ==>
            exists|k: int| 0 <= k < values.len() && #[trigger] plan.months@[k] == snaps[i].date && values[k] == snaps[i].value,
{
    law_snapshots_are_anchors(snaps, plan);
    assert forall|i: int| 0 <= i < snaps.len() && (#[trigger] snaps[i]).date.is_month_end() implies
        exists|k: int| 0 <= k < values.len() && #[trigger] plan.months@[k] == snaps[i].date && values[k] == snaps[i].value by {
        let k = choose|k: int| 0 <= k < plan.months@.len() && #[trigger] plan.months@[k] == snaps[i].date
            && plan.anchors@[k] is Some && snaps[plan.anchors@[k]->0 as int].date == snaps[i].date;
        let a = plan.anchors@[k]->0 as int;
        assert(values[k] == snaps[a].value);
        assert(snaps[a].date == snaps[i].date);
    }
}

} // verus!
