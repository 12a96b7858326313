//! Strategic adjustments to a configuration: new accounts and an ordered list
//! of modifications (rename, merge, retype, delete, rescale, set a value).
use vstd::prelude::*;

use crate::date::{chrono_parse_ymd, chrono_parsed_ymd, ymd_date, Date};
use crate::arith::{lemma_sum_chain_empty, lemma_sum_chain_push, sum_chain};
use crate::balancer::str_eq;
use crate::schema::{
    bs_view, duplicate_opt_string, is_view, opt_string_view, AccountType, BalanceSheetAccount,
    BalanceSheetAccountModel, BalanceSheetSnapshot, FinancialHistoryConfig, FinancialHistoryConfigModel,
    IncomeStatementAccount, IncomeStatementAccountModel, PeriodConstraint,
};

verus! {

/// Accounts to combine to a configuration and modifications to apply after them.
#[derive(Debug)]
pub struct FinancialHistoryOverrides<V> {
    pub new_balance_sheet_accounts: Vec<BalanceSheetAccount<V>>,
    pub new_income_statement_accounts: Vec<IncomeStatementAccount<V>>,
    pub modifications: Vec<AccountModification<V>>,
}

/// One change to the accounts of a configuration.
#[derive(Debug)]
pub enum AccountModification<V> {
    /// Gives the account named `target` the name `new_name`.
    Rename { target: String, new_name: String },
    /// Replaces the accounts named in `sources` (and `target_name`) by one
    /// account named `target_name`: balance sheet snapshots are summed per
    /// date, income statement constraints are collected.
    Merge { sources: Vec<String>, target_name: String },
    /// Changes the category and/or the type of an account.
    UpdateMetadata { target: String, new_category: Option<String>, new_type: Option<AccountType> },
    /// Removes every account named `target`.
    Delete { target: String },
    /// Multiplies every value of an account by `factor`.
    ScaleValues { target: String, factor: V },
    /// Sets a balance sheet snapshot (date `YYYY-MM-DD`) or adds an income
    /// statement constraint (period) with `value`.
    SetValue { target: String, date_or_period: String, value: V },
}

/// Index of the first balance sheet account named `name`.
pub open spec fn first_bs_named<V>(s: Seq<BalanceSheetAccountModel<V>>, name: Seq<char>) -> Option<int>
    decreases s.len(),
{
    if s.len() == 0 {
        None
    } else if s[0].name == name {
        Some(0)
    } else {
        match first_bs_named(s.drop_first(), name) {
            Some(i) => Some(i + 1),
            None => None,
        }
    }
}

/// Index of the first income statement account named `name`.
pub open spec fn first_is_named<V>(s: Seq<IncomeStatementAccountModel<V>>, name: Seq<char>) -> Option<int>
    decreases s.len(),
{
    if s.len() == 0 {
        None
    } else if s[0].name == name {
        Some(0)
    } else {
        match first_is_named(s.drop_first(), name) {
            Some(i) => Some(i + 1),
            None => None,
        }
    }
}

proof fn lemma_first_bs_named<V>(s: Seq<BalanceSheetAccountModel<V>>, name: Seq<char>)
    ensures
        first_bs_named(s, name) matches Some(i) ==> 0 <= i < s.len() && s[i].name == name
            && forall|k: int| 0 <= k < i ==> (#[trigger] s[k]).name != name,
        first_bs_named(s, name) is None ==> forall|k: int| 0 <= k < s.len() ==> (#[trigger] s[k]).name != name,
    decreases s.len(),
{
    if s.len() > 0 {
        lemma_first_bs_named(s.drop_first(), name);
        assert forall|k: int| 0 < k < s.len() implies s[k] == s.drop_first()[k - 1] by {}
    }
}

proof fn lemma_first_is_named<V>(s: Seq<IncomeStatementAccountModel<V>>, name: Seq<char>)
    ensures
        first_is_named(s, name) matches Some(i) ==> 0 <= i < s.len() && s[i].name == name
            && forall|k: int| 0 <= k < i ==> (#[trigger] s[k]).name != name,
        first_is_named(s, name) is None ==> forall|k: int| 0 <= k < s.len() ==> (#[trigger] s[k]).name != name,
    decreases s.len(),
{
    if s.len() > 0 {
        lemma_first_is_named(s.drop_first(), name);
        assert forall|k: int| 0 < k < s.len() implies s[k] == s.drop_first()[k - 1] by {}
    }
}

/// Balance sheet accounts other than those named `name`, in order.
pub open spec fn bs_without<V>(s: Seq<BalanceSheetAccountModel<V>>, name: Seq<char>) -> Seq<BalanceSheetAccountModel<V>>
    decreases s.len(),
{
    if s.len() == 0 {
        s
    } else {
        let r = bs_without(s.drop_last(), name);
        if s.last().name == name { r } else { r.push(s.last()) }
    }
}

/// Income statement accounts other than those named `name`, in order.
pub open spec fn is_without<V>(s: Seq<IncomeStatementAccountModel<V>>, name: Seq<char>) -> Seq<IncomeStatementAccountModel<V>>
    decreases s.len(),
{
    if s.len() == 0 {
        s
    } else {
        let r = is_without(s.drop_last(), name);
        if s.last().name == name { r } else { r.push(s.last()) }
    }
}

/// Snapshots other than those dated `d`, in order.
pub open spec fn snapshots_without<V>(s: Seq<BalanceSheetSnapshot<V>>, d: Date) -> Seq<BalanceSheetSnapshot<V>>
    decreases s.len(),
{
    if s.len() == 0 {
        s
    } else {
        let r = snapshots_without(s.drop_last(), d);
        if s.last().date == d { r } else { r.push(s.last()) }
    }
}

/// `new` is `old` with every value multiplied by `factor` through `scale`.
pub open spec fn scaled_snapshots<V, F: Fn(V, V) -> V>(old: Seq<BalanceSheetSnapshot<V>>, new: Seq<BalanceSheetSnapshot<V>>, factor: V, scale: F) -> bool {
    &&& new.len() == old.len()
    &&& forall|k: int| 0 <= k < old.len() ==> (#[trigger] new[k]).date == old[k].date && new[k].source == old[k].source
        && call_ensures(scale, (old[k].value, factor), new[k].value)
}

/// `new` is `old` with every value multiplied by `factor` through `scale`.
pub open spec fn scaled_constraints<V, F: Fn(V, V) -> V>(old: Seq<PeriodConstraint<V>>, new: Seq<PeriodConstraint<V>>, factor: V, scale: F) -> bool {
    &&& new.len() == old.len()
    &&& forall|k: int| 0 <= k < old.len() ==> (#[trigger] new[k]).period == old[k].period && new[k].source == old[k].source
        && call_ensures(scale, (old[k].value, factor), new[k].value)
}

/// `name` is one of `sources`.
pub open spec fn listed(sources: Seq<String>, name: Seq<char>) -> bool {
    exists|k: int| 0 <= k < sources.len() && (#[trigger] sources[k])@ == name
}

/// An account with this name takes part in a merge into `target`.
pub open spec fn merges_into(sources: Seq<String>, target: Seq<char>, name: Seq<char>) -> bool {
    listed(sources, name) || name == target
}

/// Date `a` comes strictly before date `b` (by year, then month, then day).
pub open spec fn date_lex_lt(a: Date, b: Date) -> bool {
    a.year < b.year || (a.year == b.year && (a.month < b.month || (a.month == b.month && a.day < b.day)))
}

/// The values of the snapshots dated `d`, in order.
pub open spec fn values_on<V>(s: Seq<BalanceSheetSnapshot<V>>, d: Date) -> Seq<V>
    decreases s.len(),
{
    if s.len() == 0 {
        Seq::<V>::empty()
    } else {
        let r = values_on(s.drop_last(), d);
        if s.last().date == d { r.push(s.last().value) } else { r }
    }
}

/// Some snapshot of `s` is dated `d`.
pub open spec fn has_date<V>(s: Seq<BalanceSheetSnapshot<V>>, d: Date) -> bool {
    exists|k: int| 0 <= k < s.len() && (#[trigger] s[k]).date == d
}

/// `merged` holds one snapshot per date of `collected`, in date order, whose
/// value sums that date's values through `combine` starting from `zero`, with
/// no source.
pub open spec fn summed_by_date<V, G: Fn(V, V) -> V>(collected: Seq<BalanceSheetSnapshot<V>>, merged: Seq<BalanceSheetSnapshot<V>>, combine: G, zero: V) -> bool {
    &&& forall|i: int, j: int| 0 <= i < j < merged.len() ==> date_lex_lt(#[trigger] merged[i].date, #[trigger] merged[j].date)
    &&& forall|d: Date| #[trigger] has_date(merged, d) <==> has_date(collected, d)
    &&& forall|k: int| 0 <= k < merged.len() ==> (#[trigger] merged[k]).source is None
        && sum_chain(combine, zero, values_on(collected, merged[k].date), merged[k].value)
}

/// Snapshots of the balance sheet accounts that take part in the merge, account
/// after account.
pub open spec fn bs_collected<V>(s: Seq<BalanceSheetAccountModel<V>>, sources: Seq<String>, target: Seq<char>) -> Seq<BalanceSheetSnapshot<V>>
    decreases s.len(),
{
    if s.len() == 0 {
        Seq::<BalanceSheetSnapshot<V>>::empty()
    } else {
        let r = bs_collected(s.drop_last(), sources, target);
        if merges_into(sources, target, s.last().name) { r + s.last().snapshots } else { r }
    }
}

/// Constraints of the income statement accounts that take part in the merge,
/// account after account.
pub open spec fn is_collected<V>(s: Seq<IncomeStatementAccountModel<V>>, sources: Seq<String>, target: Seq<char>) -> Seq<PeriodConstraint<V>>
    decreases s.len(),
{
    if s.len() == 0 {
        Seq::<PeriodConstraint<V>>::empty()
    } else {
        let r = is_collected(s.drop_last(), sources, target);
        if merges_into(sources, target, s.last().name) { r + s.last().constraints } else { r }
    }
}

/// Balance sheet accounts that do not take part in the merge.
pub open spec fn bs_not_merged<V>(s: Seq<BalanceSheetAccountModel<V>>, sources: Seq<String>, target: Seq<char>) -> Seq<BalanceSheetAccountModel<V>>
    decreases s.len(),
{
    if s.len() == 0 {
        s
    } else {
        let r = bs_not_merged(s.drop_last(), sources, target);
        if merges_into(sources, target, s.last().name) { r } else { r.push(s.last()) }
    }
}

/// Income statement accounts that do not take part in the merge.
pub open spec fn is_not_merged<V>(s: Seq<IncomeStatementAccountModel<V>>, sources: Seq<String>, target: Seq<char>) -> Seq<IncomeStatementAccountModel<V>>
    decreases s.len(),
{
    if s.len() == 0 {
        s
    } else {
        let r = is_not_merged(s.drop_last(), sources, target);
        if merges_into(sources, target, s.last().name) { r } else { r.push(s.last()) }
    }
}

/// The first balance sheet account that takes part in the merge.
pub open spec fn bs_template<V>(s: Seq<BalanceSheetAccountModel<V>>, sources: Seq<String>, target: Seq<char>) -> Option<BalanceSheetAccountModel<V>>
    decreases s.len(),
{
    if s.len() == 0 {
        None
    } else {
        let r = bs_template(s.drop_last(), sources, target);
        if r is None && merges_into(sources, target, s.last().name) { Some(s.last()) } else { r }
    }
}

/// The first income statement account that takes part in the merge.
pub open spec fn is_template<V>(s: Seq<IncomeStatementAccountModel<V>>, sources: Seq<String>, target: Seq<char>) -> Option<IncomeStatementAccountModel<V>>
    decreases s.len(),
{
    if s.len() == 0 {
        None
    } else {
        let r = is_template(s.drop_last(), sources, target);
        if r is None && merges_into(sources, target, s.last().name) { Some(s.last()) } else { r }
    }
}

/// The merge of the accounts named in `sources` (or `target`) into one
/// account named `target`: on the balance sheet when one of the sources is a
/// balance sheet account, else on the income statement. The merged account
/// takes its other properties from the first merged account and goes last.
pub open spec fn merge_spec<V, G: Fn(V, V) -> V>(
    old: FinancialHistoryConfigModel<V>,
    sources: Seq<String>,
    target: Seq<char>,
    new: FinancialHistoryConfigModel<V>,
    combine: G,
    zero: V,
) -> bool {
    if exists|i: int| 0 <= i < old.balance_sheet.len() && listed(sources, (#[trigger] old.balance_sheet[i]).name) {
        &&& new.income_statement == old.income_statement
        &&& match bs_template(old.balance_sheet, sources, target) {
            Some(t) => {
                let last = new.balance_sheet.last();
                &&& new.balance_sheet.len() > 0
                &&& new.balance_sheet.drop_last() == bs_not_merged(old.balance_sheet, sources, target)
                &&& last == (BalanceSheetAccountModel { name: target, snapshots: last.snapshots, ..t })
                &&& summed_by_date(bs_collected(old.balance_sheet, sources, target), last.snapshots, combine, zero)
            },
            None => new.balance_sheet == bs_not_merged(old.balance_sheet, sources, target),
        }
    } else {
        &&& new.balance_sheet == old.balance_sheet
        &&& new.income_statement == match is_template(old.income_statement, sources, target) {
            Some(t) => is_not_merged(old.income_statement, sources, target).push(IncomeStatementAccountModel {
                name: target,
                constraints: is_collected(old.income_statement, sources, target),
                ..t
            }),
            None => is_not_merged(old.income_statement, sources, target),
        }
    }
}

/// The configuration `new` is `old` with the modification applied; `scale`
/// scales values, merges sum values through `combine` starting from `zero`.
pub open spec fn modification_spec<V, F: Fn(V, V) -> V, G: Fn(V, V) -> V>(
    old: FinancialHistoryConfigModel<V>,
    m: AccountModification<V>,
    new: FinancialHistoryConfigModel<V>,
    scale: F,
    combine: G,
    zero: V,
) -> bool {
    &&& new.organization_name == old.organization_name
    &&& new.fiscal_year_end_month == old.fiscal_year_end_month
    &&& match m {
        AccountModification::Rename { target, new_name } => match first_bs_named(old.balance_sheet, target@) {
            Some(i) => new.balance_sheet == old.balance_sheet.update(i, BalanceSheetAccountModel { name: new_name@, ..old.balance_sheet[i] })
                && new.income_statement == old.income_statement,
            None => match first_is_named(old.income_statement, target@) {
                Some(i) => new.income_statement == old.income_statement.update(i, IncomeStatementAccountModel { name: new_name@, ..old.income_statement[i] })
                    && new.balance_sheet == old.balance_sheet,
                None => new.balance_sheet == old.balance_sheet && new.income_statement == old.income_statement,
            },
        },
        AccountModification::Delete { target } => new.balance_sheet == bs_without(old.balance_sheet, target@)
            && new.income_statement == is_without(old.income_statement, target@),
        AccountModification::UpdateMetadata { target, new_category, new_type } => match first_bs_named(old.balance_sheet, target@) {
            Some(i) => new.income_statement == old.income_statement && new.balance_sheet == old.balance_sheet.update(i, BalanceSheetAccountModel {
                category: if new_category is Some { opt_string_view(new_category) } else { old.balance_sheet[i].category },
                account_type: if new_type is Some { new_type->0 } else { old.balance_sheet[i].account_type },
                ..old.balance_sheet[i]
            }),
            None => new.balance_sheet == old.balance_sheet && match first_is_named(old.income_statement, target@) {
                Some(i) => new.income_statement == old.income_statement.update(i, IncomeStatementAccountModel {
                    account_type: if new_type is Some { new_type->0 } else { old.income_statement[i].account_type },
                    ..old.income_statement[i]
                }),
                None => new.income_statement == old.income_statement,
            },
        },
        AccountModification::ScaleValues { target, factor } => match first_bs_named(old.balance_sheet, target@) {
            Some(i) => new.income_statement == old.income_statement && new.balance_sheet.len() == old.balance_sheet.len()
                && (forall|k: int| 0 <= k < old.balance_sheet.len() && k != i ==> #[trigger] new.balance_sheet[k] == old.balance_sheet[k])
                && new.balance_sheet[i] == (BalanceSheetAccountModel { snapshots: new.balance_sheet[i].snapshots, ..old.balance_sheet[i] })
                && scaled_snapshots(old.balance_sheet[i].snapshots, new.balance_sheet[i].snapshots, factor, scale),
            None => new.balance_sheet == old.balance_sheet && match first_is_named(old.income_statement, target@) {
                Some(i) => new.income_statement.len() == old.income_statement.len()
                    && (forall|k: int| 0 <= k < old.income_statement.len() && k != i ==> #[trigger] new.income_statement[k] == old.income_statement[k])
                    && new.income_statement[i] == (IncomeStatementAccountModel { constraints: new.income_statement[i].constraints, ..old.income_statement[i] })
                    && scaled_constraints(old.income_statement[i].constraints, new.income_statement[i].constraints, factor, scale),
                None => new.income_statement == old.income_statement,
            },
        },
        AccountModification::SetValue { target, date_or_period, value } => match first_bs_named(old.balance_sheet, target@) {
            Some(i) => new.income_statement == old.income_statement && match chrono_parsed_ymd(date_or_period@) {
                Some(t) => new.balance_sheet == old.balance_sheet.update(i, BalanceSheetAccountModel {
                    snapshots: snapshots_without(old.balance_sheet[i].snapshots, ymd_date(t)).push(
                        BalanceSheetSnapshot { date: ymd_date(t), value, source: None },
                    ),
                    ..old.balance_sheet[i]
                }),
                None => new.balance_sheet == old.balance_sheet,
            },
            None => new.balance_sheet == old.balance_sheet && match first_is_named(old.income_statement, target@) {
                Some(i) => new.income_statement == old.income_statement.update(i, IncomeStatementAccountModel {
                    constraints: old.income_statement[i].constraints.push(PeriodConstraint { period: date_or_period, value, source: None }),
                    ..old.income_statement[i]
                }),
                None => new.income_statement == old.income_statement,
            },
        },
        AccountModification::Merge { sources, target_name } => merge_spec(old, sources@, target_name@, new, combine, zero),
    }
}

/// `states` walks through `mods` one modification at a time: each state is
/// the one before it with the next modification applied.
pub open spec fn modification_chain<V, F: Fn(V, V) -> V, G: Fn(V, V) -> V>(
    states: Seq<FinancialHistoryConfigModel<V>>,
    mods: Seq<AccountModification<V>>,
    scale: F,
    combine: G,
    zero: V,
) -> bool {
    &&& states.len() == mods.len() + 1
    &&& forall|i: int| 0 <= i < mods.len() ==> #[trigger] modification_spec(states[i], mods[i], states[i + 1], scale, combine, zero)
}

/// The configuration `base` with the new accounts appended to each statement.
pub open spec fn with_new_accounts<V>(
    base: FinancialHistoryConfigModel<V>,
    new_bs: Seq<BalanceSheetAccountModel<V>>,
    new_is: Seq<IncomeStatementAccountModel<V>>,
) -> FinancialHistoryConfigModel<V> {
    FinancialHistoryConfigModel {
        balance_sheet: base.balance_sheet + new_bs,
        income_statement: base.income_statement + new_is,
        ..base
    }
}

/// `end` is `start` with `mods` applied in order.
pub open spec fn modifications_applied<V, F: Fn(V, V) -> V, G: Fn(V, V) -> V>(
    start: FinancialHistoryConfigModel<V>,
    mods: Seq<AccountModification<V>>,
    end: FinancialHistoryConfigModel<V>,
    scale: F,
    combine: G,
    zero: V,
) -> bool {
    exists|states: Seq<FinancialHistoryConfigModel<V>>| #[trigger] modification_chain(states, mods, scale, combine, zero)
        && states[0] == start && states.last() == end
}

impl<V: Copy> FinancialHistoryOverrides<V> {
    /// The base configuration with the new accounts appended and then each
    /// modification applied in order; `scale` multiplies values, and merges
    /// sum values through `combine` starting from `zero`. The base is left
    /// untouched.
    pub fn apply<F: Fn(V, V) -> V, G: Fn(V, V) -> V>(
        &self,
        base_config: &FinancialHistoryConfig<V>,
        scale: &F,
        combine: &G,
        zero: V,
    ) -> (r: FinancialHistoryConfig<V>)
        requires
            forall|a: V, b: V| call_requires(*scale, (a, b)),
            forall|a: V, b: V| call_requires(*combine, (a, b)),
        ensures
            modifications_applied(
                with_new_accounts(base_config@, bs_view(self.new_balance_sheet_accounts@), is_view(self.new_income_statement_accounts@)),
                self.modifications@,
                r@,
                *scale,
                *combine,
                zero,
            ),
    {
        let mut config = base_config.duplicate();
        let mut new_bs = crate::schema::duplicate_bs_accounts(&self.new_balance_sheet_accounts);
        let mut new_is = crate::schema::duplicate_is_accounts(&self.new_income_statement_accounts);
        let ghost bs0 = config.balance_sheet@;
        let ghost is0 = config.income_statement@;
        let ghost nb = new_bs@;
        let ghost ni = new_is@;
        config.balance_sheet.append(&mut new_bs);
        config.income_statement.append(&mut new_is);
        let ghost start = config@;
        proof {
            assert(bs_view(bs0 + nb) =~= bs_view(bs0) + bs_view(nb));
            assert(is_view(is0 + ni) =~= is_view(is0) + is_view(ni));
            assert(start == with_new_accounts(base_config@, bs_view(self.new_balance_sheet_accounts@), is_view(self.new_income_statement_accounts@)));
        }
        let mods = &self.modifications;
        let ghost mut states: Seq<FinancialHistoryConfigModel<V>> = seq![start];
        for k in 0..mods.len()
            invariant
                forall|a: V, b: V| call_requires(*scale, (a, b)),
                forall|a: V, b: V| call_requires(*combine, (a, b)),
                states.len() == k + 1,
                states[0] == start,
                states[k as int] == config@,
                forall|i: int| 0 <= i < k ==> #[trigger] modification_spec(states[i], mods@[i], states[i + 1], *scale, *combine, zero),
        {
            apply_single_modification(&mut config, &mods[k], scale, combine, zero);
            proof {
                let prev = states;
                states = states.push(config@);
                assert forall|i: int| 0 <= i < k + 1 implies #[trigger] modification_spec(states[i], mods@[i], states[i + 1], *scale, *combine, zero) by {
                    if i < k {
                        assert(states[i] == prev[i] && states[i + 1] == prev[i + 1]);
                    }
                }
            }
        }
        proof {
            assert(modification_chain(states, self.modifications@, *scale, *combine, zero));
        }
        config
    }
}

/// Index of the first balance sheet account named `name`.
fn find_bs<V>(config: &FinancialHistoryConfig<V>, name: &str) -> (r: Option<usize>)
    ensures
        r is Some <==> first_bs_named(config@.balance_sheet, name@) is Some,
        r matches Some(i) ==> first_bs_named(config@.balance_sheet, name@) == Some(i as int) && i < config.balance_sheet.len(),
{
    let bs = &config.balance_sheet;
    let ghost m = config@.balance_sheet;
    proof {
        lemma_first_bs_named(m, name@);
    }
    let mut i: usize = 0;
    while i < bs.len()
        invariant
            bs == &config.balance_sheet,
            m == config@.balance_sheet,
            i <= bs.len(),
            forall|k: int| 0 <= k < i ==> (#[trigger] m[k]).name != name@,
            first_bs_named(m, name@) matches Some(j) ==> 0 <= j < m.len() && m[j].name == name@
                && forall|k: int| 0 <= k < j ==> (#[trigger] m[k]).name != name@,
            first_bs_named(m, name@) is None ==> forall|k: int| 0 <= k < m.len() ==> (#[trigger] m[k]).name != name@,
        decreases bs.len() - i,
    {
        proof {
            assert(m[i as int] == bs@[i as int]@);
        }
        if str_eq(bs[i].name.as_str(), name) {
            proof {
                if let Some(j) = first_bs_named(m, name@) {
                    if j > i {
                        assert(m[i as int].name != name@);
                    }
                }
            }
            return Some(i);
        }
        i = i + 1;
    }
    None
}

/// Index of the first income statement account named `name`.
fn find_is<V>(config: &FinancialHistoryConfig<V>, name: &str) -> (r: Option<usize>)
    ensures
        r is Some <==> first_is_named(config@.income_statement, name@) is Some,
        r matches Some(i) ==> first_is_named(config@.income_statement, name@) == Some(i as int) && i < config.income_statement.len(),
{
    let is = &config.income_statement;
    let ghost m = config@.income_statement;
    proof {
        lemma_first_is_named(m, name@);
    }
    let mut i: usize = 0;
    while i < is.len()
        invariant
            is == &config.income_statement,
            m == config@.income_statement,
            i <= is.len(),
            forall|k: int| 0 <= k < i ==> (#[trigger] m[k]).name != name@,
            first_is_named(m, name@) matches Some(j) ==> 0 <= j < m.len() && m[j].name == name@
                && forall|k: int| 0 <= k < j ==> (#[trigger] m[k]).name != name@,
            first_is_named(m, name@) is None ==> forall|k: int| 0 <= k < m.len() ==> (#[trigger] m[k]).name != name@,
        decreases is.len() - i,
    {
        proof {
            assert(m[i as int] == is@[i as int]@);
        }
        if str_eq(is[i].name.as_str(), name) {
            proof {
                if let Some(j) = first_is_named(m, name@) {
                    if j > i {
                        assert(m[i as int].name != name@);
                    }
                }
            }
            return Some(i);
        }
        i = i + 1;
    }
    None
}

/// Puts `acc` in place of the balance sheet account at `i`.
fn replace_bs<V>(config: &mut FinancialHistoryConfig<V>, i: usize, acc: BalanceSheetAccount<V>)
    requires
        i < old(config).balance_sheet.len(),
    ensures
        final(config)@ == (FinancialHistoryConfigModel { balance_sheet: old(config)@.balance_sheet.update(i as int, acc@), ..old(config)@ }),
{
    let _ = config.balance_sheet.remove(i);
    config.balance_sheet.insert(i, acc);
    proof {
        assert(bs_view(config.balance_sheet@) =~= bs_view(old(config).balance_sheet@).update(i as int, acc@));
    }
}

/// Puts `acc` in place of the income statement account at `i`.
fn replace_is<V>(config: &mut FinancialHistoryConfig<V>, i: usize, acc: IncomeStatementAccount<V>)
    requires
        i < old(config).income_statement.len(),
    ensures
        final(config)@ == (FinancialHistoryConfigModel { income_statement: old(config)@.income_statement.update(i as int, acc@), ..old(config)@ }),
{
    let _ = config.income_statement.remove(i);
    config.income_statement.insert(i, acc);
    proof {
        assert(is_view(config.income_statement@) =~= is_view(old(config).income_statement@).update(i as int, acc@));
    }
}

/// Takes the balance sheet account at `i` out of the configuration, leaving
/// an empty placeholder there.
fn take_bs<V: Copy>(config: &mut FinancialHistoryConfig<V>, i: usize) -> (r: BalanceSheetAccount<V>)
    requires
        i < old(config).balance_sheet.len(),
    ensures
        r == old(config).balance_sheet@[i as int],
        final(config).balance_sheet@.len() == old(config).balance_sheet@.len(),
        forall|k: int| 0 <= k < old(config).balance_sheet@.len() && k != i ==> #[trigger] final(config).balance_sheet@[k] == old(config).balance_sheet@[k],
        final(config).organization_name == old(config).organization_name,
        final(config).fiscal_year_end_month == old(config).fiscal_year_end_month,
        final(config).income_statement == old(config).income_statement,
{
    let placeholder = BalanceSheetAccount {
        name: String::new(),
        category: None,
        account_type: AccountType::Asset,
        method: crate::schema::InterpolationMethod::Linear,
        snapshots: Vec::new(),
        is_balancing_account: false,
        noise_factor: config.balance_sheet[i].noise_factor,
    };
    let acc = config.balance_sheet.remove(i);
    config.balance_sheet.insert(i, placeholder);
    acc
}

/// Takes the income statement account at `i` out of the configuration,
/// leaving an empty placeholder there.
fn take_is<V: Copy>(config: &mut FinancialHistoryConfig<V>, i: usize) -> (r: IncomeStatementAccount<V>)
    requires
        i < old(config).income_statement.len(),
    ensures
        r == old(config).income_statement@[i as int],
        final(config).income_statement@.len() == old(config).income_statement@.len(),
        forall|k: int| 0 <= k < old(config).income_statement@.len() && k != i ==> #[trigger] final(config).income_statement@[k] == old(config).income_statement@[k],
        final(config).organization_name == old(config).organization_name,
        final(config).fiscal_year_end_month == old(config).fiscal_year_end_month,
        final(config).balance_sheet == old(config).balance_sheet,
{
    let placeholder = IncomeStatementAccount {
        name: String::new(),
        account_type: AccountType::Revenue,
        seasonality_profile: crate::schema::SeasonalityProfileId::Flat,
        constraints: Vec::new(),
        noise_factor: config.income_statement[i].noise_factor,
    };
    let acc = config.income_statement.remove(i);
    config.income_statement.insert(i, placeholder);
    acc
}

/// Puts `acc` back at `i` after `take_bs`: the configuration is the starting
/// one with `acc` in place of the account at `i`.
proof fn lemma_take_replace_bs<V>(orig: FinancialHistoryConfig<V>, mid: FinancialHistoryConfig<V>, i: int, acc: BalanceSheetAccountModel<V>)
    requires
        0 <= i < orig.balance_sheet@.len(),
        mid.balance_sheet@.len() == orig.balance_sheet@.len(),
        forall|k: int| 0 <= k < orig.balance_sheet@.len() && k != i ==> #[trigger] mid.balance_sheet@[k] == orig.balance_sheet@[k],
        mid.organization_name == orig.organization_name,
        mid.fiscal_year_end_month == orig.fiscal_year_end_month,
        mid.income_statement == orig.income_statement,
    ensures
        (FinancialHistoryConfigModel { balance_sheet: mid@.balance_sheet.update(i, acc), ..mid@ })
            == (FinancialHistoryConfigModel { balance_sheet: orig@.balance_sheet.update(i, acc), ..orig@ }),
{
    assert(mid@.balance_sheet.update(i, acc) =~= orig@.balance_sheet.update(i, acc));
}

proof fn lemma_take_replace_is<V>(orig: FinancialHistoryConfig<V>, mid: FinancialHistoryConfig<V>, i: int, acc: IncomeStatementAccountModel<V>)
    requires
        0 <= i < orig.income_statement@.len(),
        mid.income_statement@.len() == orig.income_statement@.len(),
        forall|k: int| 0 <= k < orig.income_statement@.len() && k != i ==> #[trigger] mid.income_statement@[k] == orig.income_statement@[k],
        mid.organization_name == orig.organization_name,
        mid.fiscal_year_end_month == orig.fiscal_year_end_month,
        mid.balance_sheet == orig.balance_sheet,
    ensures
        (FinancialHistoryConfigModel { income_statement: mid@.income_statement.update(i, acc), ..mid@ })
            == (FinancialHistoryConfigModel { income_statement: orig@.income_statement.update(i, acc), ..orig@ }),
{
    assert(mid@.income_statement.update(i, acc) =~= orig@.income_statement.update(i, acc));
}

/// Removes every account named `target` from both statements.
fn delete_accounts<V>(config: &mut FinancialHistoryConfig<V>, target: &str)
    ensures
        final(config)@ == (FinancialHistoryConfigModel {
            balance_sheet: bs_without(old(config)@.balance_sheet, target@),
            income_statement: is_without(old(config)@.income_statement, target@),
            ..old(config)@
        }),
{
    let mut old_bs: Vec<BalanceSheetAccount<V>> = Vec::new();
    std::mem::swap(&mut old_bs, &mut config.balance_sheet);
    let ghost orig = old_bs@;
    let n = old_bs.len();
    let mut kept: Vec<BalanceSheetAccount<V>> = Vec::new();
    proof {
        assert(orig.skip(0) =~= orig);
        assert(bs_view(orig.take(0)) =~= Seq::<BalanceSheetAccountModel<V>>::empty());
        assert(bs_view(kept@) =~= Seq::<BalanceSheetAccountModel<V>>::empty());
    }
    for k in 0..n
        invariant
            n == orig.len(),
            old_bs@ == orig.skip(k as int),
            bs_view(kept@) == bs_without(bs_view(orig.take(k as int)), target@),
    {
        let acc = old_bs.remove(0);
        proof {
            assert(acc == orig[k as int]);
            assert(bs_view(orig.take(k + 1)).drop_last() =~= bs_view(orig.take(k as int)));
            assert(bs_view(orig.take(k + 1)).last() == acc@);
            assert(old_bs@ =~= orig.skip(k + 1));
        }
        if !str_eq(acc.name.as_str(), target) {
            let ghost before = kept@;
            kept.push(acc);
            proof {
                assert(bs_view(kept@) =~= bs_view(before).push(acc@));
            }
        }
    }
    proof {
        assert(orig.take(n as int) =~= orig);
    }
    config.balance_sheet = kept;

    let mut old_is: Vec<IncomeStatementAccount<V>> = Vec::new();
    std::mem::swap(&mut old_is, &mut config.income_statement);
    let ghost orig2 = old_is@;
    let n2 = old_is.len();
    let mut kept2: Vec<IncomeStatementAccount<V>> = Vec::new();
    proof {
        assert(orig2.skip(0) =~= orig2);
        assert(is_view(orig2.take(0)) =~= Seq::<IncomeStatementAccountModel<V>>::empty());
        assert(is_view(kept2@) =~= Seq::<IncomeStatementAccountModel<V>>::empty());
    }
    for k in 0..n2
        invariant
            n2 == orig2.len(),
            old_is@ == orig2.skip(k as int),
            is_view(kept2@) == is_without(is_view(orig2.take(k as int)), target@),
    {
        let acc = old_is.remove(0);
        proof {
            assert(acc == orig2[k as int]);
            assert(is_view(orig2.take(k + 1)).drop_last() =~= is_view(orig2.take(k as int)));
            assert(is_view(orig2.take(k + 1)).last() == acc@);
            assert(old_is@ =~= orig2.skip(k + 1));
        }
        if !str_eq(acc.name.as_str(), target) {
            let ghost before = kept2@;
            kept2.push(acc);
            proof {
                assert(is_view(kept2@) =~= is_view(before).push(acc@));
            }
        }
    }
    proof {
        assert(orig2.take(n2 as int) =~= orig2);
    }
    config.income_statement = kept2;
}

/// The snapshots with every value multiplied by `factor`.
fn scale_snapshots<V: Copy, F: Fn(V, V) -> V>(snaps: &Vec<BalanceSheetSnapshot<V>>, factor: V, scale: &F) -> (r: Vec<BalanceSheetSnapshot<V>>)
    requires
        forall|a: V, b: V| call_requires(*scale, (a, b)),
    ensures
        scaled_snapshots(snaps@, r@, factor, *scale),
{
    let mut r: Vec<BalanceSheetSnapshot<V>> = Vec::new();
    for k in 0..snaps.len()
        invariant
            forall|a: V, b: V| call_requires(*scale, (a, b)),
            r@.len() == k,
            forall|m: int| 0 <= m < k ==> (#[trigger] r@[m]).date == snaps@[m].date && r@[m].source == snaps@[m].source
                && call_ensures(*scale, (snaps@[m].value, factor), r@[m].value),
    {
        let s = &snaps[k];
        let v = scale(s.value, factor);
        r.push(BalanceSheetSnapshot { date: s.date, value: v, source: crate::schema::duplicate_source(&s.source) });
    }
    r
}

/// The constraints with every value multiplied by `factor`.
fn scale_constraints<V: Copy, F: Fn(V, V) -> V>(cons: &Vec<PeriodConstraint<V>>, factor: V, scale: &F) -> (r: Vec<PeriodConstraint<V>>)
    requires
        forall|a: V, b: V| call_requires(*scale, (a, b)),
    ensures
        scaled_constraints(cons@, r@, factor, *scale),
{
    let mut r: Vec<PeriodConstraint<V>> = Vec::new();
    for k in 0..cons.len()
        invariant
            forall|a: V, b: V| call_requires(*scale, (a, b)),
            r@.len() == k,
            forall|m: int| 0 <= m < k ==> (#[trigger] r@[m]).period == cons@[m].period && r@[m].source == cons@[m].source
                && call_ensures(*scale, (cons@[m].value, factor), r@[m].value),
    {
        let c = &cons[k];
        let v = scale(c.value, factor);
        r.push(PeriodConstraint { period: c.period.clone(), value: v, source: crate::schema::duplicate_source(&c.source) });
    }
    r
}

/// The snapshots other than those dated `d`.
fn retain_other_dates<V>(snaps: Vec<BalanceSheetSnapshot<V>>, d: Date) -> (r: Vec<BalanceSheetSnapshot<V>>)
    ensures
        r@ == snapshots_without(snaps@, d),
{
    let mut snaps = snaps;
    let ghost orig = snaps@;
    let n = snaps.len();
    let mut kept: Vec<BalanceSheetSnapshot<V>> = Vec::new();
    proof {
        assert(orig.skip(0) =~= orig);
        assert(orig.take(0) =~= Seq::<BalanceSheetSnapshot<V>>::empty());
    }
    for k in 0..n
        invariant
            n == orig.len(),
            snaps@ == orig.skip(k as int),
            kept@ == snapshots_without(orig.take(k as int), d),
    {
        let s = snaps.remove(0);
        proof {
            assert(s == orig[k as int]);
            assert(orig.take(k + 1).drop_last() =~= orig.take(k as int));
            assert(snaps@ =~= orig.skip(k + 1));
        }
        if s.date != d {
            kept.push(s);
        }
    }
    proof {
        assert(orig.take(n as int) =~= orig);
    }
    kept
}

/// Whether `name` is one of `sources`.
fn is_listed(sources: &Vec<String>, name: &str) -> (r: bool)
    ensures
        r == listed(sources@, name@),
{
    let mut k: usize = 0;
    while k < sources.len()
        invariant
            k <= sources.len(),
            forall|j: int| 0 <= j < k ==> (#[trigger] sources@[j])@ != name@,
        decreases sources.len() - k,
    {
        if str_eq(sources[k].as_str(), name) {
            return true;
        }
        k = k + 1;
    }
    false
}

/// Whether one of the balance sheet accounts is named in `sources`.
fn any_bs_listed<V>(bs: &Vec<BalanceSheetAccount<V>>, sources: &Vec<String>) -> (r: bool)
    ensures
        r == exists|i: int| 0 <= i < bs_view(bs@).len() && listed(sources@, (#[trigger] bs_view(bs@)[i]).name),
{
    let mut k: usize = 0;
    while k < bs.len()
        invariant
            k <= bs.len(),
            forall|j: int| 0 <= j < k ==> !listed(sources@, (#[trigger] bs_view(bs@)[j]).name),
        decreases bs.len() - k,
    {
        if is_listed(sources, bs[k].name.as_str()) {
            proof {
                assert(bs_view(bs@)[k as int] == bs@[k as int]@);
            }
            return true;
        }
        proof {
            assert(bs_view(bs@)[k as int] == bs@[k as int]@);
        }
        k = k + 1;
    }
    false
}

/// Date `a` comes strictly before date `b`.
fn date_before(a: &Date, b: &Date) -> (r: bool)
    ensures
        r == date_lex_lt(*a, *b),
{
    a.year < b.year || (a.year == b.year && (a.month < b.month || (a.month == b.month && a.day < b.day)))
}

/// With no snapshot dated `d`, there is no value on `d`.
proof fn lemma_values_on_absent<V>(s: Seq<BalanceSheetSnapshot<V>>, d: Date)
    requires
        !has_date(s, d),
    ensures
        values_on(s, d) == Seq::<V>::empty(),
    decreases s.len(),
{
    if s.len() > 0 {
        assert(!has_date(s.drop_last(), d)) by {
            if has_date(s.drop_last(), d) {
                let k = choose|k: int| 0 <= k < s.drop_last().len() && (#[trigger] s.drop_last()[k]).date == d;
                assert(s[k] == s.drop_last()[k]);
            }
        }
        assert(s[s.len() - 1].date != d);
        lemma_values_on_absent(s.drop_last(), d);
    }
}

/// Sums the values of `collected` per date, one snapshot per date in date
/// order.
fn sum_by_date<V: Copy, G: Fn(V, V) -> V>(collected: &Vec<BalanceSheetSnapshot<V>>, combine: &G, zero: V) -> (r: Vec<BalanceSheetSnapshot<V>>)
    requires
        forall|a: V, b: V| call_requires(*combine, (a, b)),
    ensures
        summed_by_date(collected@, r@, *combine, zero),
{
    let mut r: Vec<BalanceSheetSnapshot<V>> = Vec::new();
    proof {
        assert(collected@.take(0) =~= Seq::<BalanceSheetSnapshot<V>>::empty());
        assert forall|d: Date| #[trigger] has_date(r@, d) <==> has_date(collected@.take(0), d) by {}
    }
    for k in 0..collected.len()
        invariant
            forall|a: V, b: V| call_requires(*combine, (a, b)),
            summed_by_date(collected@.take(k as int), r@, *combine, zero),
    {
        let s = &collected[k];
        let ghost pre = collected@.take(k as int);
        let ghost post = collected@.take(k + 1);
        let ghost old_r = r@;
        proof {
            assert(post =~= pre.push(*s));
            assert(post.drop_last() =~= pre);
            assert forall|d: Date| #[trigger] values_on(post, d) == (if d == s.date { values_on(pre, d).push(s.value) } else { values_on(pre, d) }) by {
                assert(post.last() == *s);
            }
            assert forall|d: Date| #[trigger] has_date(post, d) <==> (has_date(pre, d) || d == s.date) by {
                if has_date(pre, d) {
                    let j = choose|j: int| 0 <= j < pre.len() && (#[trigger] pre[j]).date == d;
                    assert(post[j] == pre[j]);
                }
                if d == s.date {
                    assert(post[k as int] == *s);
                }
                if has_date(post, d) {
                    let j = choose|j: int| 0 <= j < post.len() && (#[trigger] post[j]).date == d;
                    if j < k {
                        assert(pre[j] == post[j]);
                    }
                }
            }
        }
        let mut j: usize = 0;
        while j < r.len() && date_before(&r[j].date, &s.date)
            invariant
                r@ == old_r,
                j <= r.len(),
                forall|i: int| 0 <= i < j ==> date_lex_lt(#[trigger] r@[i].date, s.date),
            decreases r.len() - j,
        {
            j = j + 1;
        }
        if j < r.len() && r[j].date == s.date {
            let cur = r[j].value;
            let v = combine(cur, s.value);
            let snap = BalanceSheetSnapshot { date: s.date, value: v, source: None };
            r.set(j, snap);
            proof {
                let vals = values_on(pre, s.date);
                lemma_sum_chain_push(*combine, zero, vals, cur, s.value, v);
                assert forall|d: Date| #[trigger] has_date(r@, d) <==> has_date(post, d) by {
                    if has_date(r@, d) {
                        let i = choose|i: int| 0 <= i < r@.len() && (#[trigger] r@[i]).date == d;
                        assert(old_r[i].date == d);
                        assert(has_date(old_r, d));
                    }
                    if has_date(old_r, d) {
                        let i = choose|i: int| 0 <= i < old_r.len() && (#[trigger] old_r[i]).date == d;
                        assert(r@[i].date == d);
                    }
                    assert(has_date(old_r, s.date)) by {
                        assert(old_r[j as int].date == s.date);
                    }
                }
                assert forall|i: int| 0 <= i < r@.len() implies (#[trigger] r@[i]).source is None
                    && sum_chain(*combine, zero, values_on(post, r@[i].date), r@[i].value) by {
                    if i != j {
                        assert(r@[i] == old_r[i]);
                        assert(old_r[i].date != s.date) by {
                            if i < j {
                                assert(date_lex_lt(old_r[i].date, old_r[j as int].date));
                            } else {
                                assert(date_lex_lt(old_r[j as int].date, old_r[i].date));
                            }
                        }
                    }
                }
            }
        } else {
            let v = combine(zero, s.value);
            let snap = BalanceSheetSnapshot { date: s.date, value: v, source: None };
            r.insert(j, snap);
            proof {
                assert(!has_date(old_r, s.date)) by {
                    if has_date(old_r, s.date) {
                        let i = choose|i: int| 0 <= i < old_r.len() && (#[trigger] old_r[i]).date == s.date;
                        if i < j {
                            assert(date_lex_lt(old_r[i].date, s.date));
                        } else {
                            assert(!date_lex_lt(old_r[j as int].date, s.date));
                            assert(old_r[j as int].date != s.date);
                            if i > j {
                                assert(date_lex_lt(old_r[j as int].date, old_r[i].date));
                            }
                        }
                    }
                }
                assert(!has_date(pre, s.date));
                lemma_values_on_absent(pre, s.date);
                let vals = values_on(post, s.date);
                assert(vals =~= seq![s.value]);
                assert(Seq::<V>::empty().push(s.value) =~= vals);
                lemma_sum_chain_empty(*combine, zero);
                lemma_sum_chain_push(*combine, zero, Seq::<V>::empty(), zero, s.value, v);
                assert(j < old_r.len() ==> date_lex_lt(s.date, old_r[j as int].date));
                assert forall|a: int, b: int| 0 <= a < b < r@.len() implies date_lex_lt(#[trigger] r@[a].date, #[trigger] r@[b].date) by {
                    if b < j {
                        assert(r@[a] == old_r[a] && r@[b] == old_r[b]);
                    } else if b == j {
                        assert(r@[a] == old_r[a]);
                    } else if a < j {
                        assert(r@[a] == old_r[a] && r@[b] == old_r[b - 1]);
                    } else if a == j {
                        assert(r@[b] == old_r[b - 1]);
                        if b - 1 > j {
                            assert(date_lex_lt(old_r[j as int].date, old_r[b - 1].date));
                        }
                    } else {
                        assert(r@[a] == old_r[a - 1] && r@[b] == old_r[b - 1]);
                    }
                }
                assert forall|d: Date| #[trigger] has_date(r@, d) <==> has_date(post, d) by {
                    if has_date(r@, d) {
                        let i = choose|i: int| 0 <= i < r@.len() && (#[trigger] r@[i]).date == d;
                        if i < j {
                            assert(old_r[i] == r@[i]);
                            assert(has_date(old_r, d));
                        } else if i > j {
                            assert(old_r[i - 1] == r@[i]);
                            assert(has_date(old_r, d));
                        }
                    }
                    if has_date(old_r, d) {
                        let i = choose|i: int| 0 <= i < old_r.len() && (#[trigger] old_r[i]).date == d;
                        if i < j {
                            assert(r@[i] == old_r[i]);
                        } else {
                            assert(r@[i + 1] == old_r[i]);
                        }
                    }
                    if d == s.date {
                        assert(r@[j as int].date == d);
                    }
                }
                assert forall|i: int| 0 <= i < r@.len() implies (#[trigger] r@[i]).source is None
                    && sum_chain(*combine, zero, values_on(post, r@[i].date), r@[i].value) by {
                    if i < j {
                        assert(r@[i] == old_r[i]);
                        assert(old_r[i].date != s.date);
                    } else if i > j {
                        assert(r@[i] == old_r[i - 1]);
                        assert(old_r[i - 1].date != s.date) by {
                            assert(has_date(old_r, old_r[i - 1].date));
                        }
                    }
                }
            }
        }
    }
    proof {
        assert(collected@.take(collected@.len() as int) =~= collected@);
    }
    r
}

/// The model of an optional balance sheet account.
pub open spec fn opt_bs_view<V>(o: Option<BalanceSheetAccount<V>>) -> Option<BalanceSheetAccountModel<V>> {
    match o {
        Some(a) => Some(a@),
        None => None,
    }
}

/// The model of an optional income statement account.
pub open spec fn opt_is_view<V>(o: Option<IncomeStatementAccount<V>>) -> Option<IncomeStatementAccountModel<V>> {
    match o {
        Some(a) => Some(a@),
        None => None,
    }
}

/// Merges the balance sheet accounts named in `sources` (or `target`) into
/// one account named `target`, placed last, whose snapshots sum the merged
/// accounts' snapshots per date.
fn merge_balance_sheet<V: Copy, G: Fn(V, V) -> V>(
    config: &mut FinancialHistoryConfig<V>,
    sources: &Vec<String>,
    target: &String,
    combine: &G,
    zero: V,
)
    requires
        forall|a: V, b: V| call_requires(*combine, (a, b)),
    ensures
        final(config)@.income_statement == old(config)@.income_statement,
        final(config)@.organization_name == old(config)@.organization_name,
        final(config)@.fiscal_year_end_month == old(config)@.fiscal_year_end_month,
        match bs_template(old(config)@.balance_sheet, sources@, target@) {
            Some(t) => {
                let last = final(config)@.balance_sheet.last();
                &&& final(config)@.balance_sheet.len() > 0
                &&& final(config)@.balance_sheet.drop_last() == bs_not_merged(old(config)@.balance_sheet, sources@, target@)
                &&& last == (BalanceSheetAccountModel { name: target@, snapshots: last.snapshots, ..t })
                &&& summed_by_date(bs_collected(old(config)@.balance_sheet, sources@, target@), last.snapshots, *combine, zero)
            },
            None => final(config)@.balance_sheet == bs_not_merged(old(config)@.balance_sheet, sources@, target@),
        },
{
    let mut old_bs: Vec<BalanceSheetAccount<V>> = Vec::new();
    std::mem::swap(&mut old_bs, &mut config.balance_sheet);
    let ghost orig = old_bs@;
    let ghost src = sources@;
    let ghost tgt = target@;
    let n = old_bs.len();
    let mut kept: Vec<BalanceSheetAccount<V>> = Vec::new();
    let mut collected: Vec<BalanceSheetSnapshot<V>> = Vec::new();
    let mut template: Option<BalanceSheetAccount<V>> = None;
    proof {
        assert(orig.skip(0) =~= orig);
        assert(bs_view(orig.take(0)) =~= Seq::<BalanceSheetAccountModel<V>>::empty());
        assert(bs_view(kept@) =~= Seq::<BalanceSheetAccountModel<V>>::empty());
    }
    for k in 0..n
        invariant
            n == orig.len(),
            src == sources@,
            tgt == target@,
            old_bs@ == orig.skip(k as int),
            bs_view(kept@) == bs_not_merged(bs_view(orig.take(k as int)), src, tgt),
            collected@ == bs_collected(bs_view(orig.take(k as int)), src, tgt),
            opt_bs_view(template) == bs_template(bs_view(orig.take(k as int)), src, tgt),
    {
        let mut acc = old_bs.remove(0);
        let ghost prefix = bs_view(orig.take(k as int));
        proof {
            assert(acc == orig[k as int]);
            assert(bs_view(orig.take(k + 1)).drop_last() =~= prefix);
            assert(bs_view(orig.take(k + 1)).last() == acc@);
            assert(old_bs@ =~= orig.skip(k + 1));
        }
        let merging = is_listed(sources, acc.name.as_str()) || str_eq(acc.name.as_str(), target.as_str());
        if merging {
            if template.is_none() {
                template = Some(acc.duplicate());
            }
            let ghost before = collected@;
            collected.append(&mut acc.snapshots);
        } else {
            let ghost before = kept@;
            kept.push(acc);
            proof {
                assert(bs_view(kept@) =~= bs_view(before).push(acc@));
            }
        }
    }
    proof {
        assert(orig.take(n as int) =~= orig);
    }
    match template {
        Some(mut t) => {
            t.name = String::from_str(target.as_str());
            t.snapshots = sum_by_date(&collected, combine, zero);
            let ghost before = kept@;
            kept.push(t);
            proof {
                assert(bs_view(kept@) =~= bs_view(before).push(t@));
                assert(bs_view(kept@).drop_last() =~= bs_view(before));
            }
        },
        None => {},
    }
    config.balance_sheet = kept;
}

/// Merges the income statement accounts named in `sources` (or `target`)
/// into one account named `target`, placed last, which holds the merged
/// accounts' constraints in order.
fn merge_income_statement<V: Copy>(config: &mut FinancialHistoryConfig<V>, sources: &Vec<String>, target: &String)
    ensures
        final(config)@ == (FinancialHistoryConfigModel {
            income_statement: match is_template(old(config)@.income_statement, sources@, target@) {
                Some(t) => is_not_merged(old(config)@.income_statement, sources@, target@).push(IncomeStatementAccountModel {
                    name: target@,
                    constraints: is_collected(old(config)@.income_statement, sources@, target@),
                    ..t
                }),
                None => is_not_merged(old(config)@.income_statement, sources@, target@),
            },
            ..old(config)@
        }),
{
    let mut old_is: Vec<IncomeStatementAccount<V>> = Vec::new();
    std::mem::swap(&mut old_is, &mut config.income_statement);
    let ghost orig = old_is@;
    let ghost src = sources@;
    let ghost tgt = target@;
    let n = old_is.len();
    let mut kept: Vec<IncomeStatementAccount<V>> = Vec::new();
    let mut collected: Vec<PeriodConstraint<V>> = Vec::new();
    let mut template: Option<IncomeStatementAccount<V>> = None;
    proof {
        assert(orig.skip(0) =~= orig);
        assert(is_view(orig.take(0)) =~= Seq::<IncomeStatementAccountModel<V>>::empty());
        assert(is_view(kept@) =~= Seq::<IncomeStatementAccountModel<V>>::empty());
    }
    for k in 0..n
        invariant
            n == orig.len(),
            src == sources@,
            tgt == target@,
            old_is@ == orig.skip(k as int),
            is_view(kept@) == is_not_merged(is_view(orig.take(k as int)), src, tgt),
            collected@ == is_collected(is_view(orig.take(k as int)), src, tgt),
            opt_is_view(template) == is_template(is_view(orig.take(k as int)), src, tgt),
    {
        let mut acc = old_is.remove(0);
        let ghost prefix = is_view(orig.take(k as int));
        proof {
            assert(acc == orig[k as int]);
            assert(is_view(orig.take(k + 1)).drop_last() =~= prefix);
            assert(is_view(orig.take(k + 1)).last() == acc@);
            assert(old_is@ =~= orig.skip(k + 1));
        }
        let merging = is_listed(sources, acc.name.as_str()) || str_eq(acc.name.as_str(), target.as_str());
        if merging {
            if template.is_none() {
                template = Some(acc.duplicate());
            }
            collected.append(&mut acc.constraints);
        } else {
            let ghost before = kept@;
            kept.push(acc);
            proof {
                assert(is_view(kept@) =~= is_view(before).push(acc@));
            }
        }
    }
    proof {
        assert(orig.take(n as int) =~= orig);
    }
    match template {
        Some(mut t) => {
            t.name = String::from_str(target.as_str());
            t.constraints = collected;
            let ghost before = kept@;
            kept.push(t);
            proof {
                assert(is_view(kept@) =~= is_view(before).push(t@));
            }
        },
        None => {},
    }
    config.income_statement = kept;
}

/// Applies one modification to `config`.
fn apply_single_modification<V: Copy, F: Fn(V, V) -> V, G: Fn(V, V) -> V>(
    config: &mut FinancialHistoryConfig<V>,
    modification: &AccountModification<V>,
    scale: &F,
    combine: &G,
    zero: V,
)
    requires
        forall|a: V, b: V| call_requires(*scale, (a, b)),
        forall|a: V, b: V| call_requires(*combine, (a, b)),
    ensures
        modification_spec(old(config)@, *modification, final(config)@, *scale, *combine, zero),
{
    let ghost orig = *config;
    match modification {
        AccountModification::Rename { target, new_name } => {
            if let Some(i) = find_bs(config, target.as_str()) {
                let mut acc = take_bs(config, i);
                acc.name = new_name.clone();
                let ghost mid = *config;
                let ghost am = acc@;
                replace_bs(config, i, acc);
                proof {
                    lemma_take_replace_bs(orig, mid, i as int, am);
                }
            } else if let Some(i) = find_is(config, target.as_str()) {
                let mut acc = take_is(config, i);
                acc.name = new_name.clone();
                let ghost mid = *config;
                let ghost am = acc@;
                replace_is(config, i, acc);
                proof {
                    lemma_take_replace_is(orig, mid, i as int, am);
                }
            }
        },
        AccountModification::Delete { target } => {
            delete_accounts(config, target.as_str());
        },
        AccountModification::UpdateMetadata { target, new_category, new_type } => {
            if let Some(i) = find_bs(config, target.as_str()) {
                let mut acc = take_bs(config, i);
                if new_category.is_some() {
                    acc.category = duplicate_opt_string(new_category);
                }
                match new_type {
                    Some(t) => { acc.account_type = *t; },
                    None => {},
                }
                let ghost mid = *config;
                let ghost am = acc@;
                replace_bs(config, i, acc);
                proof {
                    lemma_take_replace_bs(orig, mid, i as int, am);
                }
            } else if let Some(i) = find_is(config, target.as_str()) {
                let mut acc = take_is(config, i);
                match new_type {
                    Some(t) => { acc.account_type = *t; },
                    None => {},
                }
                let ghost mid = *config;
                let ghost am = acc@;
                replace_is(config, i, acc);
                proof {
                    lemma_take_replace_is(orig, mid, i as int, am);
                }
            }
        },
        AccountModification::ScaleValues { target, factor } => {
            if let Some(i) = find_bs(config, target.as_str()) {
                let mut acc = take_bs(config, i);
                let scaled = scale_snapshots(&acc.snapshots, *factor, scale);
                acc.snapshots = scaled;
                let ghost mid = *config;
                let ghost am = acc@;
                replace_bs(config, i, acc);
                proof {
                    lemma_take_replace_bs(orig, mid, i as int, am);
                }
            } else if let Some(i) = find_is(config, target.as_str()) {
                let mut acc = take_is(config, i);
                let scaled = scale_constraints(&acc.constraints, *factor, scale);
                acc.constraints = scaled;
                let ghost mid = *config;
                let ghost am = acc@;
                replace_is(config, i, acc);
                proof {
                    lemma_take_replace_is(orig, mid, i as int, am);
                }
            }
        },
        AccountModification::SetValue { target, date_or_period, value } => {
            if let Some(i) = find_bs(config, target.as_str()) {
                if let Some(date) = chrono_parse_ymd(date_or_period.as_str()) {
                    let mut acc = take_bs(config, i);
                    let mut snaps: Vec<BalanceSheetSnapshot<V>> = Vec::new();
                    std::mem::swap(&mut snaps, &mut acc.snapshots);
                    let mut kept = retain_other_dates(snaps, date);
                    kept.push(BalanceSheetSnapshot { date, value: *value, source: None });
                    acc.snapshots = kept;
                    let ghost mid = *config;
                    let ghost am = acc@;
                    replace_bs(config, i, acc);
                    proof {
                        lemma_take_replace_bs(orig, mid, i as int, am);
                    }
                }
            } else if let Some(i) = find_is(config, target.as_str()) {
                let mut acc = take_is(config, i);
                acc.constraints.push(PeriodConstraint { period: date_or_period.clone(), value: *value, source: None });
                let ghost mid = *config;
                let ghost am = acc@;
                replace_is(config, i, acc);
                proof {
                    lemma_take_replace_is(orig, mid, i as int, am);
                }
            }
        },
        AccountModification::Merge { sources, target_name } => {
            if any_bs_listed(&config.balance_sheet, sources) {
                merge_balance_sheet(config, sources, target_name, combine, zero);
            } else {
                merge_income_statement(config, sources, target_name);
            }
        },
    }
}

/// Overrides with no new accounts and no modifications give back the base
/// configuration.
pub proof fn law_empty_overrides_keep_config<V, F: Fn(V, V) -> V, G: Fn(V, V) -> V>(
    base: FinancialHistoryConfigModel<V>,
    end: FinancialHistoryConfigModel<V>,
    scale: F,
    combine: G,
    zero: V,
)
    requires
        modifications_applied(
            with_new_accounts(base, Seq::<BalanceSheetAccountModel<V>>::empty(), Seq::<IncomeStatementAccountModel<V>>::empty()),
            Seq::<AccountModification<V>>::empty(),
            end,
            scale,
            combine,
            zero,
        ),
    ensures
        end == base,
{
    let states = choose|states: Seq<FinancialHistoryConfigModel<V>>| #[trigger] modification_chain(states, Seq::<AccountModification<V>>::empty(), scale, combine, zero)
        && states[0] == with_new_accounts(base, Seq::<BalanceSheetAccountModel<V>>::empty(), Seq::<IncomeStatementAccountModel<V>>::empty())
        && states.last() == end;
    assert(base.balance_sheet + Seq::<BalanceSheetAccountModel<V>>::empty() =~= base.balance_sheet);
    assert(base.income_statement + Seq::<IncomeStatementAccountModel<V>>::empty() =~= base.income_statement);
}

/// Scaling a name that no balance sheet account carries, where the income
/// statement account at `i` is the first to carry it, multiplies each of that
/// account's constraint values by the factor through `scale`, keeps each
/// constraint's period and source and the account's other fields, and leaves
/// every other account of both statements as it was.
pub proof fn law_scaling_reaches_income_statement<V, F: Fn(V, V) -> V, G: Fn(V, V) -> V>(
    old: FinancialHistoryConfigModel<V>,
    target: String,
    factor: V,
    new: FinancialHistoryConfigModel<V>,
    scale: F,
    combine: G,
    zero: V,
    i: int,
)
    requires
        modification_spec(old, AccountModification::ScaleValues { target, factor }, new, scale, combine, zero),
        forall|k: int| 0 <= k < old.balance_sheet.len() ==> (#[trigger] old.balance_sheet[k]).name != target@,
        0 <= i < old.income_statement.len(),
        old.income_statement[i].name == target@,
        forall|k: int| 0 <= k < i ==> (#[trigger] old.income_statement[k]).name != target@,
    ensures
        new.balance_sheet == old.balance_sheet,
        new.income_statement.len() == old.income_statement.len(),
        forall|k: int| 0 <= k < old.income_statement.len() && k != i ==> #[trigger] new.income_statement[k] == old.income_statement[k],
        new.income_statement[i].name == old.income_statement[i].name,
        new.income_statement[i].account_type == old.income_statement[i].account_type,
        new.income_statement[i].seasonality_profile == old.income_statement[i].seasonality_profile,
        new.income_statement[i].noise_factor == old.income_statement[i].noise_factor,
        new.income_statement[i].constraints.len() == old.income_statement[i].constraints.len(),
        forall|j: int| 0 <= j < old.income_statement[i].constraints.len() ==> {
            let was = old.income_statement[i].constraints[j];
            let now = #[trigger] new.income_statement[i].constraints[j];
            &&& now.period == was.period
            &&& now.source == was.source
            &&& call_ensures(scale, (was.value, factor), now.value)
        },
{
    lemma_first_bs_named(old.balance_sheet, target@);
    lemma_first_is_named(old.income_statement, target@);
    if first_bs_named(old.balance_sheet, target@) is Some {
        let b = first_bs_named(old.balance_sheet, target@)->0;
        assert(old.balance_sheet[b].name == target@);
    }
    let f = first_is_named(old.income_statement, target@);
    if f is None {
        assert(old.income_statement[i].name != target@);
    }
    let fi = f->0;
    if fi < i {
        assert(old.income_statement[fi].name != target@);
    }
    if fi > i {
        assert(old.income_statement[i].name != target@);
    }
}

/// Deleting an account name leaves no balance sheet account of that name and
/// keeps every other account.
pub proof fn law_delete_removes_only_that_name<V>(s: Seq<BalanceSheetAccountModel<V>>, name: Seq<char>)
    ensures
        forall|k: int| 0 <= k < bs_without(s, name).len() ==> (#[trigger] bs_without(s, name)[k]).name != name,
        forall|k: int| 0 <= k < s.len() && (#[trigger] s[k]).name != name ==> bs_without(s, name).contains(s[k]),
        bs_without(s, name).len() <= s.len(),
    decreases s.len(),
{
    if s.len() > 0 {
        law_delete_removes_only_that_name(s.drop_last(), name);
        let r = bs_without(s.drop_last(), name);
        assert forall|k: int| 0 <= k < s.len() && (#[trigger] s[k]).name != name implies bs_without(s, name).contains(s[k]) by {
            if k < s.len() - 1 {
                assert(s[k] == s.drop_last()[k]);
                assert(r.contains(s[k]));
                let j = choose|j: int| 0 <= j < r.len() && r[j] == s[k];
                if s.last().name != name {
                    assert(r.push(s.last())[j] == s[k]);
                }
            } else {
                assert(r.push(s.last())[r.len() as int] == s[k]);
            }
        }
        if s.last().name != name {
            assert forall|k: int| 0 <= k < bs_without(s, name).len() implies (#[trigger] bs_without(s, name)[k]).name != name by {
                if k < r.len() {
                    assert(r.push(s.last())[k] == r[k]);
                }
            }
        }
    }
}

/// Deleting an account name leaves no income statement account of that name
/// and keeps every other account.
pub proof fn law_delete_removes_only_that_name_is<V>(s: Seq<IncomeStatementAccountModel<V>>, name: Seq<char>)
    ensures
        forall|k: int| 0 <= k < is_without(s, name).len() ==> (#[trigger] is_without(s, name)[k]).name != name,
        forall|k: int| 0 <= k < s.len() && (#[trigger] s[k]).name != name ==> is_without(s, name).contains(s[k]),
        is_without(s, name).len() <= s.len(),
    decreases s.len(),
{
    if s.len() > 0 {
        law_delete_removes_only_that_name_is(s.drop_last(), name);
        let r = is_without(s.drop_last(), name);
        assert forall|k: int| 0 <= k < s.len() && (#[trigger] s[k]).name != name implies is_without(s, name).contains(s[k]) by {
            if k < s.len() - 1 {
                assert(s[k] == s.drop_last()[k]);
                assert(r.contains(s[k]));
                let j = choose|j: int| 0 <= j < r.len() && r[j] == s[k];
                if s.last().name != name {
                    assert(r.push(s.last())[j] == s[k]);
                }
            } else {
                assert(r.push(s.last())[r.len() as int] == s[k]);
            }
        }
        if s.last().name != name {
            assert forall|k: int| 0 <= k < is_without(s, name).len() implies (#[trigger] is_without(s, name)[k]).name != name by {
                if k < r.len() {
                    assert(r.push(s.last())[k] == r[k]);
                }
            }
        }
    }
}

} // verus!
