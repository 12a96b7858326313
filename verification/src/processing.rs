//! Checks a configuration must pass before it is processed.
use vstd::prelude::*;

use crate::date::{date_text, parsed_period, period_error_text, push_date, validate_fiscal_year_end_month, Date};
use crate::error::FinancialHistoryError;
use crate::balancer::str_eq;
use crate::schema::{
    BalanceSheetAccount, BalanceSheetSnapshot, FinancialHistoryConfig, IncomeStatementAccount, PeriodConstraint, SourceMetadata,
};
use crate::text::{concat2, decimal_text, push_decimal};
use crate::overrides::date_lex_lt;

verus! {

/// Entry point of the processing pipeline (validation, densification,
/// balancing).
#[derive(Debug)]
pub struct FinancialHistoryProcessor;

/// What is wrong with the constraint at position `idx` of its account, if
/// anything: a period that does not read, or one that ends before it starts.
pub open spec fn constraint_problem<V>(c: PeriodConstraint<V>, idx: int) -> Option<Seq<char>> {
    let head = "Constraint #"@ + decimal_text(idx as nat);
    match period_error_text(c.period@) {
        Some(m) => Some(head + " has invalid period format '"@ + c.period@ + "': "@ + "Date calculation error: "@ + m),
        None => {
            let p = parsed_period(c.period@)->0;
            if p.1.key() < p.0.key() {
                Some(head + " period '"@ + c.period@ + "' results in end_date "@ + date_text(p.1) + " before start_date "@
                    + date_text(p.0) + "."@)
            } else {
                None
            }
        },
    }
}

/// The problem of the first faulty constraint among the first `n`.
pub open spec fn first_constraint_problem<V>(cons: Seq<PeriodConstraint<V>>, n: int) -> Option<Seq<char>>
    decreases n,
{
    if n <= 0 {
        None
    } else {
        match first_constraint_problem(cons, n - 1) {
            Some(x) => Some(x),
            None => constraint_problem(cons[n - 1], n - 1),
        }
    }
}

/// The name of the first of the first `n` accounts with a faulty constraint,
/// and the problem of its first faulty constraint.
pub open spec fn first_account_problem<V>(accs: Seq<IncomeStatementAccount<V>>, n: int) -> Option<(Seq<char>, Seq<char>)>
    decreases n,
{
    if n <= 0 {
        None
    } else {
        match first_account_problem(accs, n - 1) {
            Some(x) => Some(x),
            None => match first_constraint_problem(accs[n - 1].constraints@, accs[n - 1].constraints@.len() as int) {
                Some(d) => Some((accs[n - 1].name@, d)),
                None => None,
            },
        }
    }
}

/// The problem of one constraint, computed.
fn check_constraint<V>(c: &PeriodConstraint<V>, idx: usize) -> (r: Option<String>)
    ensures
        r is Some <==> constraint_problem(*c, idx as int) is Some,
        r matches Some(s) ==> constraint_problem(*c, idx as int) == Some(s@),
{
    match c.resolve_dates() {
        Err(e) => {
            let mut s = String::from_str("Constraint #");
            push_decimal(&mut s, idx as u64);
            s.append(" has invalid period format '");
            s.append(c.period.as_str());
            s.append("': ");
            let m = e.message();
            s.append(m.as_str());
            proof {
                reveal_strlit("Constraint #");
                reveal_strlit(" has invalid period format '");
                reveal_strlit("': ");
                assert(s@ =~= constraint_problem(*c, idx as int)->0);
            }
            Some(s)
        },
        Ok((start, end)) => {
            if end.before(&start) {
                let mut s = String::from_str("Constraint #");
                push_decimal(&mut s, idx as u64);
                s.append(" period '");
                s.append(c.period.as_str());
                s.append("' results in end_date ");
                push_date(&mut s, &end);
                s.append(" before start_date ");
                push_date(&mut s, &start);
                s.append(".");
                proof {
                    reveal_strlit("Constraint #");
                    reveal_strlit(" period '");
                    reveal_strlit("' results in end_date ");
                    reveal_strlit(" before start_date ");
                    reveal_strlit(".");
                    assert(s@ =~= constraint_problem(*c, idx as int)->0);
                }
                Some(s)
            } else {
                None
            }
        },
    }
}

/// Every income statement constraint must carry a period that reads and does
/// not end before it starts; the first that does not is reported, with its
/// account.
pub fn validate_constraint_periods<V>(config: &FinancialHistoryConfig<V>) -> (r: Result<(), FinancialHistoryError>)
    ensures
        match first_account_problem(config.income_statement@, config.income_statement@.len() as int) {
            None => r is Ok,
            Some((a, d)) => r matches Err(FinancialHistoryError::ValidationError { account, details })
                && account@ == a && details@ == d,
        },
{
    let accs = &config.income_statement;
    for i in 0..accs.len()
        invariant
            accs == &config.income_statement,
            first_account_problem(accs@, i as int) is None,
    {
        let cons = &accs[i].constraints;
        for j in 0..cons.len()
            invariant
                accs == &config.income_statement,
                i < accs@.len(),
                first_account_problem(accs@, i as int) is None,
                cons == &accs@[i as int].constraints,
                first_constraint_problem(cons@, j as int) is None,
        {
            match check_constraint(&cons[j], j) {
                Some(details) => {
                    proof {
                        assert(first_constraint_problem(cons@, (j + 1) as int) == Some(details@));
                        let n = cons@.len() as int;
                        assert forall|k: int| j + 1 <= k <= n implies #[trigger] first_constraint_problem(cons@, k) == Some(details@) by {
                            lemma_first_problem_stays(cons@, j + 1, k);
                        }
                        assert(first_account_problem(accs@, (i + 1) as int) == Some((accs@[i as int].name@, details@)));
                        assert forall|k: int| i + 1 <= k <= accs@.len() implies #[trigger] first_account_problem(accs@, k) == Some((accs@[i as int].name@, details@)) by {
                            lemma_first_account_problem_stays(accs@, i + 1, k);
                        }
                    }
                    return Err(FinancialHistoryError::ValidationError { account: accs[i].name.clone(), details });
                },
                None => {},
            }
        }
    }
    Ok(())
}

/// Once a constraint problem is found, later prefixes report the same one.
proof fn lemma_first_problem_stays<V>(cons: Seq<PeriodConstraint<V>>, a: int, b: int)
    requires
        0 <= a <= b,
        first_constraint_problem(cons, a) is Some,
    ensures
        first_constraint_problem(cons, b) == first_constraint_problem(cons, a),
    decreases b - a,
{
    if a < b {
        lemma_first_problem_stays(cons, a, b - 1);
    }
}

/// Once an account problem is found, later prefixes report the same one.
proof fn lemma_first_account_problem_stays<V>(accs: Seq<IncomeStatementAccount<V>>, a: int, b: int)
    requires
        0 <= a <= b,
        first_account_problem(accs, a) is Some,
    ensures
        first_account_problem(accs, b) == first_account_problem(accs, a),
    decreases b - a,
{
    if a < b {
        lemma_first_account_problem_stays(accs, a, b - 1);
    }
}

/// The period reads as a first and a last day, both existing days, and the
/// last day does not come before the first in the calendar.
pub open spec fn runs_forward(period: Seq<char>) -> bool {
    parsed_period(period) matches Some((first, last)) && first.wf() && last.wf() && !date_lex_lt(last, first)
}

/// Of two existing days, the one with the smaller key comes first in the
/// calendar (earlier year, then earlier month, then earlier day).
proof fn lemma_key_orders_days(a: Date, b: Date)
    requires
        a.wf(),
        b.wf(),
    ensures
        a.key() < b.key() <==> date_lex_lt(a, b),
{
}

/// A constraint whose period reads is reported exactly when the period's last
/// day comes before its first day in the calendar: in an earlier year, or in
/// the same year and an earlier month, or in the same month and on an earlier
/// day. A period that runs forward across a year end passes.
pub proof fn law_only_backward_periods_are_reported<V>(c: PeriodConstraint<V>, idx: int, first: Date, last: Date)
    requires
        parsed_period(c.period@) == Some((first, last)),
        first.wf(),
        last.wf(),
    ensures
        constraint_problem(c, idx) is Some <==> date_lex_lt(last, first),
{
    lemma_key_orders_days(last, first);
}

/// No constraint among the first `n` is reported when every one of them runs
/// forward.
proof fn lemma_forward_constraints_pass<V>(cons: Seq<PeriodConstraint<V>>, n: int)
    requires
        n <= cons.len(),
        forall|j: int| 0 <= j < cons.len() ==> runs_forward(#[trigger] cons[j].period@),
    ensures
        first_constraint_problem(cons, n) is None,
    decreases n,
{
    if n > 0 {
        lemma_forward_constraints_pass(cons, n - 1);
        assert(runs_forward(cons[n - 1].period@));
        let p = parsed_period(cons[n - 1].period@)->0;
        law_only_backward_periods_are_reported(cons[n - 1], n - 1, p.0, p.1);
    }
}

/// No account among the first `n` is reported when all their constraints run
/// forward.
proof fn lemma_forward_accounts_pass<V>(accs: Seq<IncomeStatementAccount<V>>, n: int)
    requires
        n <= accs.len(),
        forall|i: int, j: int| 0 <= i < accs.len() && 0 <= j < accs[i].constraints@.len()
            ==> runs_forward(#[trigger] accs[i].constraints@[j].period@),
    ensures
        first_account_problem(accs, n) is None,
    decreases n,
{
    if n > 0 {
        lemma_forward_accounts_pass(accs, n - 1);
        let cons = accs[n - 1].constraints@;
        assert forall|j: int| 0 <= j < cons.len() implies runs_forward(#[trigger] cons[j].period@) by {
            assert(runs_forward(accs[n - 1].constraints@[j].period@));
        }
        lemma_forward_constraints_pass(cons, cons.len() as int);
    }
}

/// A configuration whose income statement periods all read and run forward
/// (none ends before it starts, wherever its months fall in the year) passes
/// the period check: `validate_constraint_periods` returns `Ok`.
pub proof fn law_forward_periods_pass<V>(config: FinancialHistoryConfig<V>)
    requires
        forall|i: int, j: int| 0 <= i < config.income_statement@.len() && 0 <= j < config.income_statement@[i].constraints@.len()
            ==> runs_forward(#[trigger] config.income_statement@[i].constraints@[j].period@),
    ensures
        period_problem(config) is None,
{
    lemma_forward_accounts_pass(config.income_statement@, config.income_statement@.len() as int);
}

/// Position of the first item without a value among the first `n`.
pub open spec fn first_none<T>(s: Seq<Option<T>>, n: int) -> Option<int>
    decreases n,
{
    if n <= 0 {
        None
    } else {
        match first_none(s, n - 1) {
            Some(x) => Some(x),
            None => if s[n - 1] is None { Some(n - 1) } else { None },
        }
    }
}

/// The first of the first `n` lists that has an item without a value: its
/// position and the position of that item.
pub open spec fn first_missing<T>(s: Seq<Seq<Option<T>>>, n: int) -> Option<(int, int)>
    decreases n,
{
    if n <= 0 {
        None
    } else {
        match first_missing(s, n - 1) {
            Some(x) => Some(x),
            None => match first_none(s[n - 1], s[n - 1].len() as int) {
                Some(i) => Some((n - 1, i)),
                None => None,
            },
        }
    }
}

/// Position of the first of the first `n` names that an earlier name repeats.
pub open spec fn first_repeat(names: Seq<Seq<char>>, n: int) -> Option<int>
    decreases n,
{
    if n <= 0 {
        None
    } else {
        match first_repeat(names, n - 1) {
            Some(x) => Some(x),
            None => if exists|k: int| 0 <= k < n - 1 && #[trigger] names[k] == names[n - 1] { Some(n - 1) } else { None },
        }
    }
}

/// Sources of the snapshots of each balance sheet account.
pub open spec fn bs_sources<V>(accs: Seq<BalanceSheetAccount<V>>) -> Seq<Seq<Option<SourceMetadata>>> {
    accs.map_values(|a: BalanceSheetAccount<V>| a.snapshots@.map_values(|s: BalanceSheetSnapshot<V>| s.source))
}

/// Sources of the constraints of each income statement account.
pub open spec fn is_sources<V>(accs: Seq<IncomeStatementAccount<V>>) -> Seq<Seq<Option<SourceMetadata>>> {
    accs.map_values(|a: IncomeStatementAccount<V>| a.constraints@.map_values(|c: PeriodConstraint<V>| c.source))
}

/// Names of the balance sheet accounts.
pub open spec fn bs_names<V>(accs: Seq<BalanceSheetAccount<V>>) -> Seq<Seq<char>> {
    accs.map_values(|a: BalanceSheetAccount<V>| a.name@)
}

/// Names of the income statement accounts.
pub open spec fn is_names<V>(accs: Seq<IncomeStatementAccount<V>>) -> Seq<Seq<char>> {
    accs.map_values(|a: IncomeStatementAccount<V>| a.name@)
}

/// The first structural problem of a configuration extracted from documents:
/// a figure without a source (balance sheet first), then an account name used
/// twice within a statement (balance sheet first).
pub open spec fn structure_problem<V>(cfg: FinancialHistoryConfig<V>) -> Option<Seq<char>> {
    let bs = cfg.balance_sheet@;
    let is = cfg.income_statement@;
    match first_missing(bs_sources(bs), bs.len() as int) {
        Some((a, i)) => Some("Balance Sheet '"@ + bs[a].name@ + "' snapshot #"@ + decimal_text(i as nat) + " missing `source`."@),
        None => match first_missing(is_sources(is), is.len() as int) {
            Some((a, i)) => Some("Income Statement '"@ + is[a].name@ + "' constraint #"@ + decimal_text(i as nat)
                + " missing `source`."@),
            None => match first_repeat(bs_names(bs), bs.len() as int) {
                Some(k) => Some("Duplicate Balance Sheet account detected: '"@ + bs[k].name@
                    + "'. Account names must be unique."@),
                None => match first_repeat(is_names(is), is.len() as int) {
                    Some(k) => Some("Duplicate Income Statement account detected: '"@ + is[k].name@
                        + "'. Account names must be unique."@),
                    None => None,
                },
            },
        },
    }
}

/// Once found, the first missing item stays the first for longer prefixes.
proof fn lemma_first_none_stays<T>(s: Seq<Option<T>>, a: int, b: int)
    requires
        0 <= a <= b,
        first_none(s, a) is Some,
    ensures
        first_none(s, b) == first_none(s, a),
    decreases b - a,
{
    if a < b {
        lemma_first_none_stays(s, a, b - 1);
    }
}

proof fn lemma_first_missing_stays<T>(s: Seq<Seq<Option<T>>>, a: int, b: int)
    requires
        0 <= a <= b,
        first_missing(s, a) is Some,
    ensures
        first_missing(s, b) == first_missing(s, a),
    decreases b - a,
{
    if a < b {
        lemma_first_missing_stays(s, a, b - 1);
    }
}

proof fn lemma_first_repeat_stays(s: Seq<Seq<char>>, a: int, b: int)
    requires
        0 <= a <= b,
        first_repeat(s, a) is Some,
    ensures
        first_repeat(s, b) == first_repeat(s, a),
    decreases b - a,
{
    if a < b {
        lemma_first_repeat_stays(s, a, b - 1);
    }
}

/// The first balance sheet snapshot without a source: account and snapshot
/// positions.
fn find_missing_bs_source<V>(accs: &Vec<BalanceSheetAccount<V>>) -> (r: Option<(usize, usize)>)
    ensures
        r is Some <==> first_missing(bs_sources(accs@), accs@.len() as int) is Some,
        r matches Some((a, i)) ==> first_missing(bs_sources(accs@), accs@.len() as int) == Some((a as int, i as int)),
{
    let ghost srcs = bs_sources(accs@);
    for a in 0..accs.len()
        invariant
            srcs == bs_sources(accs@),
            first_missing(srcs, a as int) is None,
    {
        let snaps = &accs[a].snapshots;
        let ghost row = srcs[a as int];
        proof {
            assert(row == snaps@.map_values(|s: BalanceSheetSnapshot<V>| s.source));
        }
        for i in 0..snaps.len()
            invariant
                srcs == bs_sources(accs@),
                a < accs@.len(),
                first_missing(srcs, a as int) is None,
                snaps == &accs@[a as int].snapshots,
                row == srcs[a as int],
                row == snaps@.map_values(|s: BalanceSheetSnapshot<V>| s.source),
                first_none(row, i as int) is None,
        {
            if snaps[i].source.is_none() {
                proof {
                    assert(first_none(row, i + 1) == Some(i as int));
                    lemma_first_none_stays(row, i + 1, row.len() as int);
                    assert(first_missing(srcs, a + 1) == Some((a as int, i as int)));
                    lemma_first_missing_stays(srcs, a + 1, srcs.len() as int);
                }
                return Some((a, i));
            }
        }
    }
    None
}

/// The first income statement constraint without a source: account and
/// constraint positions.
fn find_missing_is_source<V>(accs: &Vec<IncomeStatementAccount<V>>) -> (r: Option<(usize, usize)>)
    ensures
        r is Some <==> first_missing(is_sources(accs@), accs@.len() as int) is Some,
        r matches Some((a, i)) ==> first_missing(is_sources(accs@), accs@.len() as int) == Some((a as int, i as int)),
{
    let ghost srcs = is_sources(accs@);
    for a in 0..accs.len()
        invariant
            srcs == is_sources(accs@),
            first_missing(srcs, a as int) is None,
    {
        let cons = &accs[a].constraints;
        let ghost row = srcs[a as int];
        proof {
            assert(row == cons@.map_values(|c: PeriodConstraint<V>| c.source));
        }
        for i in 0..cons.len()
            invariant
                srcs == is_sources(accs@),
                a < accs@.len(),
                first_missing(srcs, a as int) is None,
                cons == &accs@[a as int].constraints,
                row == srcs[a as int],
                row == cons@.map_values(|c: PeriodConstraint<V>| c.source),
                first_none(row, i as int) is None,
        {
            if cons[i].source.is_none() {
                proof {
                    assert(first_none(row, i + 1) == Some(i as int));
                    lemma_first_none_stays(row, i + 1, row.len() as int);
                    assert(first_missing(srcs, a + 1) == Some((a as int, i as int)));
                    lemma_first_missing_stays(srcs, a + 1, srcs.len() as int);
                }
                return Some((a, i));
            }
        }
    }
    None
}

/// Position of the first balance sheet account whose name an earlier one
/// already carries.
fn find_repeated_bs_name<V>(accs: &Vec<BalanceSheetAccount<V>>) -> (r: Option<usize>)
    ensures
        r is Some <==> first_repeat(bs_names(accs@), accs@.len() as int) is Some,
        r matches Some(k) ==> first_repeat(bs_names(accs@), accs@.len() as int) == Some(k as int),
{
    let ghost names = bs_names(accs@);
    for i in 0..accs.len()
        invariant
            names == bs_names(accs@),
            first_repeat(names, i as int) is None,
    {
        for k in 0..i
            invariant
                names == bs_names(accs@),
                i < accs@.len(),
                first_repeat(names, i as int) is None,
                forall|q: int| 0 <= q < k ==> names[q] != names[i as int],
        {
            if str_eq(accs[k].name.as_str(), accs[i].name.as_str()) {
                proof {
                    assert(names[k as int] == names[i as int]);
                    assert(first_repeat(names, i + 1) == Some(i as int));
                    lemma_first_repeat_stays(names, i + 1, names.len() as int);
                }
                return Some(i);
            }
        }
    }
    None
}

/// Position of the first income statement account whose name an earlier one
/// already carries.
fn find_repeated_is_name<V>(accs: &Vec<IncomeStatementAccount<V>>) -> (r: Option<usize>)
    ensures
        r is Some <==> first_repeat(is_names(accs@), accs@.len() as int) is Some,
        r matches Some(k) ==> first_repeat(is_names(accs@), accs@.len() as int) == Some(k as int),
{
    let ghost names = is_names(accs@);
    for i in 0..accs.len()
        invariant
            names == is_names(accs@),
            first_repeat(names, i as int) is None,
    {
        for k in 0..i
            invariant
                names == is_names(accs@),
                i < accs@.len(),
                first_repeat(names, i as int) is None,
                forall|q: int| 0 <= q < k ==> names[q] != names[i as int],
        {
            if str_eq(accs[k].name.as_str(), accs[i].name.as_str()) {
                proof {
                    assert(names[k as int] == names[i as int]);
                    assert(first_repeat(names, i + 1) == Some(i as int));
                    lemma_first_repeat_stays(names, i + 1, names.len() as int);
                }
                return Some(i);
            }
        }
    }
    None
}

/// Positions reported as missing lie within range.
proof fn lemma_first_none_range<T>(s: Seq<Option<T>>, n: int)
    requires
        n <= s.len(),
    ensures
        first_none(s, n) matches Some(i) ==> 0 <= i < n,
    decreases n,
{
    if n > 0 {
        lemma_first_none_range(s, n - 1);
    }
}

proof fn lemma_first_missing_range<T>(s: Seq<Seq<Option<T>>>, n: int)
    requires
        n <= s.len(),
    ensures
        first_missing(s, n) matches Some((a, i)) ==> 0 <= a < n && 0 <= i < s[a].len(),
    decreases n,
{
    if n > 0 {
        lemma_first_missing_range(s, n - 1);
        lemma_first_none_range(s[n - 1], s[n - 1].len() as int);
    }
}

proof fn lemma_first_repeat_range(s: Seq<Seq<char>>, n: int)
    ensures
        first_repeat(s, n) matches Some(k) ==> 0 <= k < n,
    decreases n,
{
    if n > 0 {
        lemma_first_repeat_range(s, n - 1);
    }
}

/// The structural checks on a configuration extracted from documents: every
/// figure names its source, and no statement uses an account name twice. The
/// first problem found is reported as text.
pub fn check_config_structure<V>(cfg: &FinancialHistoryConfig<V>) -> (r: Result<(), String>)
    ensures
        match structure_problem(*cfg) {
            None => r is Ok,
            Some(m) => r matches Err(s) && s@ == m,
        },
{
    proof {
        reveal_strlit("' snapshot #");
        reveal_strlit("' constraint #");
        reveal_strlit(" missing `source`.");
        reveal_strlit("Balance Sheet '");
        reveal_strlit("Income Statement '");
        reveal_strlit("Duplicate Balance Sheet account detected: '");
        reveal_strlit("Duplicate Income Statement account detected: '");
        reveal_strlit("'. Account names must be unique.");
        lemma_first_missing_range(bs_sources(cfg.balance_sheet@), cfg.balance_sheet@.len() as int);
        lemma_first_missing_range(is_sources(cfg.income_statement@), cfg.income_statement@.len() as int);
        lemma_first_repeat_range(bs_names(cfg.balance_sheet@), cfg.balance_sheet@.len() as int);
        lemma_first_repeat_range(is_names(cfg.income_statement@), cfg.income_statement@.len() as int);
    }
    match find_missing_bs_source(&cfg.balance_sheet) {
        Some((a, i)) => {
            let mut s = String::from_str("Balance Sheet '");
            s.append(cfg.balance_sheet[a].name.as_str());
            s.append("' snapshot #");
            push_decimal(&mut s, i as u64);
            s.append(" missing `source`.");
            proof {
                assert(s@ =~= structure_problem(*cfg)->0);
            }
            return Err(s);
        },
        None => {},
    }
    match find_missing_is_source(&cfg.income_statement) {
        Some((a, i)) => {
            let mut s = String::from_str("Income Statement '");
            s.append(cfg.income_statement[a].name.as_str());
            s.append("' constraint #");
            push_decimal(&mut s, i as u64);
            s.append(" missing `source`.");
            proof {
                assert(s@ =~= structure_problem(*cfg)->0);
            }
            return Err(s);
        },
        None => {},
    }
    match find_repeated_bs_name(&cfg.balance_sheet) {
        Some(k) => {
            let mut s = String::from_str("Duplicate Balance Sheet account detected: '");
            s.append(cfg.balance_sheet[k].name.as_str());
            s.append("'. Account names must be unique.");
            proof {
                assert(s@ =~= structure_problem(*cfg)->0);
            }
            return Err(s);
        },
        None => {},
    }
    match find_repeated_is_name(&cfg.income_statement) {
        Some(k) => {
            let mut s = String::from_str("Duplicate Income Statement account detected: '");
            s.append(cfg.income_statement[k].name.as_str());
            s.append("'. Account names must be unique.");
            proof {
                assert(s@ =~= structure_problem(*cfg)->0);
            }
            return Err(s);
        },
        None => {},
    }
    Ok(())
}

/// Why a configuration cannot be processed: a check of the library failed, or
/// the given noise factor is out of range.
#[derive(Debug)]
pub enum ConfigProblem<V> {
    Invalid(FinancialHistoryError),
    NoiseFactor(V),
}

/// The noise factors of the balance sheet accounts, then of the income
/// statement accounts, in order.
pub open spec fn noise_factors<V>(config: FinancialHistoryConfig<V>) -> Seq<V> {
    Seq::new(config.balance_sheet@.len(), |i: int| config.balance_sheet@[i].noise_factor)
        + Seq::new(config.income_statement@.len(), |i: int| config.income_statement@[i].noise_factor)
}

/// The first problem of the configuration's periods, if any.
pub open spec fn period_problem<V>(config: FinancialHistoryConfig<V>) -> Option<(Seq<char>, Seq<char>)> {
    first_account_problem(config.income_statement@, config.income_statement@.len() as int)
}

/// The integrity checks of a configuration, in this order: every income
/// statement constraint's period reads and does not end before it starts
/// (see `validate_constraint_periods`); then every noise factor is in range,
/// `noise_in_range` asked of the balance sheet accounts' factors and then of
/// the income statement accounts' (see `noise_factors`) until one is not.
pub fn validate_config_integrity<V: Copy, Q: Fn(V) -> bool>(config: &FinancialHistoryConfig<V>, noise_in_range: &Q) -> (r: Result<(), ConfigProblem<V>>)
    requires
        forall|x: V| call_requires(*noise_in_range, (x,)),
    ensures
        period_problem(*config) matches Some((a, d)) ==>
            (r matches Err(ConfigProblem::Invalid(FinancialHistoryError::ValidationError { account, details }))
                && account@ == a && details@ == d),
        r matches Err(ConfigProblem::Invalid(e)) ==> (e matches FinancialHistoryError::ValidationError { account, details }
            && period_problem(*config) == Some((account@, details@))),
        r matches Err(ConfigProblem::NoiseFactor(x)) ==> period_problem(*config) is None
            && exists|i: int| 0 <= i < noise_factors(*config).len() && noise_factors(*config)[i] == x
                && #[trigger] call_ensures(*noise_in_range, (noise_factors(*config)[i],), false)
                && forall|j: int| 0 <= j < i ==> #[trigger] call_ensures(*noise_in_range, (noise_factors(*config)[j],), true),
        r is Ok ==> period_problem(*config) is None
            && forall|i: int| 0 <= i < noise_factors(*config).len() ==> #[trigger] call_ensures(*noise_in_range, (noise_factors(*config)[i],), true),
        period_problem(*config) is None ==> (r is Ok || r matches Err(ConfigProblem::NoiseFactor(_))),
{
    match validate_constraint_periods(config) {
        Ok(()) => {},
        Err(e) => return Err(ConfigProblem::Invalid(e)),
    }
    let ghost noises = noise_factors(*config);
    let nb = config.balance_sheet.len();
    for i in 0..nb
        invariant
            nb == config.balance_sheet@.len(),
            noises == noise_factors(*config),
            period_problem(*config) is None,
            forall|x: V| call_requires(*noise_in_range, (x,)),
            forall|j: int| 0 <= j < i ==> #[trigger] call_ensures(*noise_in_range, (noises[j],), true),
    {
        let x = config.balance_sheet[i].noise_factor;
        proof {
            assert(noises[i as int] == x);
        }
        if !noise_in_range(x) {
            proof {
                assert(call_ensures(*noise_in_range, (noises[i as int],), false));
            }
            return Err(ConfigProblem::NoiseFactor(x));
        }
    }
    let ni = config.income_statement.len();
    for i in 0..ni
        invariant
            nb == config.balance_sheet@.len(),
            ni == config.income_statement@.len(),
            noises == noise_factors(*config),
            noises.len() == nb + ni,
            period_problem(*config) is None,
            forall|x: V| call_requires(*noise_in_range, (x,)),
            forall|j: int| 0 <= j < nb + i ==> #[trigger] call_ensures(*noise_in_range, (noises[j],), true),
    {
        let x = config.income_statement[i].noise_factor;
        proof {
            assert(noises[nb + i] == x);
        }
        if !noise_in_range(x) {
            proof {
                assert(call_ensures(*noise_in_range, (noises[nb + i],), false));
            }
            return Err(ConfigProblem::NoiseFactor(x));
        }
    }
    Ok(())
}

impl FinancialHistoryProcessor {
    /// The checks run before a configuration is processed: its integrity (see
    /// `validate_config_integrity`), then the fiscal year end month.
    pub fn check_before_processing<V: Copy, Q: Fn(V) -> bool>(config: &FinancialHistoryConfig<V>, noise_in_range: &Q) -> (r: Result<(), ConfigProblem<V>>)
        requires
            forall|x: V| call_requires(*noise_in_range, (x,)),
        ensures
            period_problem(*config) matches Some((a, d)) ==>
                (r matches Err(ConfigProblem::Invalid(FinancialHistoryError::ValidationError { account, details }))
                    && account@ == a && details@ == d),
            r matches Err(ConfigProblem::Invalid(FinancialHistoryError::ValidationError { account, details })) ==>
                period_problem(*config) == Some((account@, details@)),
            r matches Err(ConfigProblem::Invalid(e)) ==> e is ValidationError || e is InvalidFiscalYearEndMonth,
            r matches Err(ConfigProblem::NoiseFactor(x)) ==> period_problem(*config) is None
                && exists|i: int| 0 <= i < noise_factors(*config).len() && noise_factors(*config)[i] == x
                    && #[trigger] call_ensures(*noise_in_range, (noise_factors(*config)[i],), false)
                    && forall|j: int| 0 <= j < i ==> #[trigger] call_ensures(*noise_in_range, (noise_factors(*config)[j],), true),
            r is Ok || (r matches Err(ConfigProblem::Invalid(FinancialHistoryError::InvalidFiscalYearEndMonth(_)))) ==> {
                &&& period_problem(*config) is None
                &&& forall|i: int| 0 <= i < noise_factors(*config).len() ==> #[trigger] call_ensures(*noise_in_range, (noise_factors(*config)[i],), true)
            },
            r is Ok ==> 1 <= config.fiscal_year_end_month <= 12,
            r matches Err(ConfigProblem::Invalid(FinancialHistoryError::InvalidFiscalYearEndMonth(m))) ==> m == config.fiscal_year_end_month
                && !(1 <= m <= 12),
            (period_problem(*config) is None && 1 <= config.fiscal_year_end_month <= 12) ==> (r is Ok || r matches Err(ConfigProblem::NoiseFactor(_))),
    {
        match validate_config_integrity(config, noise_in_range) {
            Ok(()) => {},
            Err(e) => return Err(e),
        }
        match validate_fiscal_year_end_month(config.fiscal_year_end_month) {
            Ok(()) => Ok(()),
            Err(e) => Err(ConfigProblem::Invalid(e)),
        }
    }
}

/// Why a structurally sound configuration was still refused: processing it
/// failed, or the processed figures break the accounting equation. Each
/// carries the text of the underlying error.
#[derive(Debug)]
pub enum ProcessingFailure {
    Processing(String),
    Equation(String),
}

/// The text a processing failure is reported as.
pub open spec fn failure_text(f: ProcessingFailure) -> Seq<char> {
    match f {
        ProcessingFailure::Processing(m) => "Processing Engine Error: "@ + m@,
        ProcessingFailure::Equation(m) => "Accounting Equation Violation: "@ + m@,
    }
}

/// Validates a configuration extracted from documents: the structural checks
/// (see `check_config_structure`) and, only when they pass, processing the
/// configuration and checking the accounting equation, which
/// `process_and_verify` does; its failure is reported as text.
pub fn validate_financial_history_config<V, F: Fn() -> Result<(), ProcessingFailure>>(
    cfg: &FinancialHistoryConfig<V>,
    process_and_verify: &F,
) -> (r: Result<(), String>)
    requires
        call_requires(*process_and_verify, ()),
    ensures
        structure_problem(*cfg) matches Some(m) ==> r matches Err(s) && s@ == m,
        structure_problem(*cfg) is None ==> exists|o: Result<(), ProcessingFailure>| #[trigger] call_ensures(*process_and_verify, (), o)
            && match o {
                Ok(()) => r is Ok,
                Err(f) => r matches Err(s) && s@ == failure_text(f),
            },
{
    match check_config_structure(cfg) {
        Ok(()) => {},
        Err(s) => return Err(s),
    }
    let o = process_and_verify();
    match o {
        Ok(()) => Ok(()),
        Err(ProcessingFailure::Processing(m)) => {
            proof {
                reveal_strlit("Processing Engine Error: ");
            }
            Err(concat2("Processing Engine Error: ", m.as_str()))
        },
        Err(ProcessingFailure::Equation(m)) => {
            proof {
                reveal_strlit("Accounting Equation Violation: ");
            }
            Err(concat2("Accounting Equation Violation: ", m.as_str()))
        },
    }
}

} // verus!
