//! The accounting equation: which account absorbs the difference between
//! assets and liabilities plus equity, and which side each account counts on.
use vstd::prelude::*;

use crate::arith::{int_total, lemma_int_total_push, lemma_sum_chain_empty, lemma_sum_chain_exact, lemma_sum_chain_push, sum_chain};
use crate::date::Date;
use crate::engine::date_key;
use crate::sort::{law_sort_indices, sort_indices_by_key, sort_indices_spec};
use crate::schema::{AccountType, BalanceSheetAccount, DataOrigin, FinancialHistoryConfig, IncomeStatementAccount};
use crate::text::{lowercase, seq_contains, str_contains, to_lower};

verus! {

/// The first item of `s` that satisfies `p`.
pub open spec fn first_match<T>(s: Seq<T>, p: spec_fn(T) -> bool) -> Option<T>
    decreases s.len(),
{
    if s.len() == 0 {
        None
    } else if p(s[0]) {
        Some(s[0])
    } else {
        first_match(s.drop_first(), p)
    }
}

pub proof fn lemma_first_match_skip<T>(s: Seq<T>, p: spec_fn(T) -> bool, i: int)
    requires
        0 <= i < s.len(),
        !p(s[i]),
    ensures
        first_match(s.skip(i), p) == first_match(s.skip(i + 1), p),
{
    assert(s.skip(i).drop_first() =~= s.skip(i + 1));
}

/// The account is the designated balancing account.
pub open spec fn is_designated<V>() -> spec_fn(BalanceSheetAccount<V>) -> bool {
    |a: BalanceSheetAccount<V>| a.is_balancing_account
}

/// The account is an equity account named like an adjusting account.
pub open spec fn is_adjusting_equity<V>() -> spec_fn(BalanceSheetAccount<V>) -> bool {
    |a: BalanceSheetAccount<V>| a.account_type == AccountType::Equity && is_adjusting_equity_name(a.name@)
}

/// The account is an equity account.
pub open spec fn is_equity<V>() -> spec_fn(BalanceSheetAccount<V>) -> bool {
    |a: BalanceSheetAccount<V>| a.account_type == AccountType::Equity
}

/// The name mentions equity.
pub open spec fn names_equity() -> spec_fn(String) -> bool {
    |n: String| seq_contains(lowercase(n@), "equity"@)
}

/// The account carries the name `name`.
pub open spec fn has_name<V>(name: Seq<char>) -> spec_fn(BalanceSheetAccount<V>) -> bool {
    |a: BalanceSheetAccount<V>| a.name@ == name
}

/// The account's name mentions retained earnings.
pub open spec fn is_retained_earnings<V>() -> spec_fn(BalanceSheetAccount<V>) -> bool {
    |a: BalanceSheetAccount<V>| seq_contains(lowercase(a.name@), "retained earnings"@)
}

/// A name that suggests an equity account made to absorb differences.
pub open spec fn is_adjusting_equity_name(name: Seq<char>) -> bool {
    seq_contains(lowercase(name), "retained"@) || seq_contains(lowercase(name), "adjustment"@)
}

/// A name that suggests an equity account.
pub open spec fn is_equity_like_name(name: Seq<char>) -> bool {
    ||| seq_contains(lowercase(name), "equity"@)
    ||| seq_contains(lowercase(name), "capital"@)
    ||| seq_contains(lowercase(name), "retained"@)
    ||| seq_contains(lowercase(name), "adjustment"@)
}

/// The account that absorbs the accounting difference: the designated
/// balancing account; else the first equity account whose name mentions
/// "retained" or "adjustment"; else the first equity account; else the first
/// processed account whose name mentions "equity"; else a new account named
/// "Balancing Equity Adjustment".
pub open spec fn plug_account_spec<V>(config: FinancialHistoryConfig<V>, names: Seq<String>) -> Seq<char> {
    let bs = config.balance_sheet@;
    match first_match(bs, is_designated()) {
        Some(a) => a.name@,
        None => match first_match(bs, is_adjusting_equity()) {
            Some(a) => a.name@,
            None => match first_match(bs, is_equity()) {
                Some(a) => a.name@,
                None => match first_match(names, names_equity()) {
                    Some(n) => n@,
                    None => "Balancing Equity Adjustment"@,
                },
            },
        },
    }
}

/// The balance sheet account named `name`, if any (the first one).
pub open spec fn bs_account_named<V>(config: FinancialHistoryConfig<V>, name: Seq<char>) -> Option<BalanceSheetAccount<V>> {
    first_match(config.balance_sheet@, has_name(name))
}

/// The side of the equation on which the account named `name` counts, when
/// the account named `plug` is left out: a configured balance sheet account
/// counts by its type; an account the configuration does not hold counts as
/// equity when its name suggests equity; anything else does not count.
pub open spec fn bucket_spec<V>(config: FinancialHistoryConfig<V>, name: Seq<char>, plug: Seq<char>) -> Option<AccountType> {
    if name == plug {
        None
    } else {
        match bs_account_named(config, name) {
            Some(a) => if a.account_type.is_balance_sheet_type() { Some(a.account_type) } else { None },
            None => if is_equity_like_name(name) { Some(AccountType::Equity) } else { None },
        }
    }
}

/// How an income statement account enters net income: revenue and other
/// income add, every expense kind subtracts, balance sheet kinds do not count.
pub open spec fn net_income_sign_spec(t: AccountType) -> int {
    match t {
        AccountType::Revenue | AccountType::OtherIncome => 1,
        AccountType::Asset | AccountType::Liability | AccountType::Equity => 0,
        _ => -1,
    }
}

/// The sign with which an account of type `t` enters net income.
pub fn net_income_sign(t: AccountType) -> (r: i8)
    ensures
        r as int == net_income_sign_spec(t),
{
    match t {
        AccountType::Revenue | AccountType::OtherIncome => 1,
        AccountType::Asset | AccountType::Liability | AccountType::Equity => 0,
        _ => -1,
    }
}

/// Decides how the accounting equation is enforced for one configuration.
pub struct AccountingBalancer<'a, V> {
    config: &'a FinancialHistoryConfig<V>,
}

impl<'a, V> AccountingBalancer<'a, V> {
    /// The configuration the balancer works on.
    pub closed spec fn config(&self) -> FinancialHistoryConfig<V> {
        *self.config
    }

    pub fn new(config: &'a FinancialHistoryConfig<V>) -> (r: Self)
        ensures
            r.config() == *config,
    {
        AccountingBalancer { config }
    }

    /// The name of the account that absorbs the accounting difference, given
    /// the names of the processed accounts in order.
    pub fn find_or_create_plug_account(&self, dense_account_names: &Vec<String>) -> (r: String)
        ensures
            r@ == plug_account_spec(self.config(), dense_account_names@),
    {
        let bs = &self.config.balance_sheet;
        proof {
            assert(bs@.skip(0) =~= bs@);
            assert(dense_account_names@.skip(0) =~= dense_account_names@);
        }
        let mut i: usize = 0;
        while i < bs.len()
            invariant
                bs == &self.config.balance_sheet,
                i <= bs.len(),
                first_match(bs@, is_designated::<V>()) == first_match(bs@.skip(i as int), is_designated::<V>()),
            decreases bs.len() - i,
        {
            if bs[i].is_balancing_account {
                proof {
                    assert(bs@.skip(i as int)[0] == bs@[i as int]);
                    assert(is_designated::<V>()(bs@[i as int]));
                    assert(first_match(bs@.skip(i as int), is_designated::<V>()) == Some(bs@[i as int]));
                }
                return bs[i].name.clone();
            }
            proof {
                lemma_first_match_skip(bs@, is_designated::<V>(), i as int);
            }
            i = i + 1;
        }
        let mut i: usize = 0;
        while i < bs.len()
            invariant
                bs == &self.config.balance_sheet,
                i <= bs.len(),
                first_match(bs@, is_designated::<V>()) is None,
                first_match(bs@, is_adjusting_equity::<V>()) == first_match(bs@.skip(i as int), is_adjusting_equity::<V>()),
            decreases bs.len() - i,
        {
            if bs[i].account_type == AccountType::Equity {
                let lower = to_lower(bs[i].name.as_str());
                if str_contains(lower.as_str(), "retained") || str_contains(lower.as_str(), "adjustment") {
                    proof {
                        assert(bs@.skip(i as int)[0] == bs@[i as int]);
                    assert(is_adjusting_equity::<V>()(bs@[i as int]));
                    assert(first_match(bs@.skip(i as int), is_adjusting_equity::<V>()) == Some(bs@[i as int]));
                    }
                    return bs[i].name.clone();
                }
            }
            proof {
                lemma_first_match_skip(bs@, is_adjusting_equity::<V>(), i as int);
            }
            i = i + 1;
        }
        let mut i: usize = 0;
        while i < bs.len()
            invariant
                bs == &self.config.balance_sheet,
                i <= bs.len(),
                first_match(bs@, is_designated::<V>()) is None,
                first_match(bs@, is_adjusting_equity::<V>()) is None,
                first_match(bs@, is_equity::<V>()) == first_match(bs@.skip(i as int), is_equity::<V>()),
            decreases bs.len() - i,
        {
            if bs[i].account_type == AccountType::Equity {
                proof {
                    assert(bs@.skip(i as int)[0] == bs@[i as int]);
                    assert(is_equity::<V>()(bs@[i as int]));
                    assert(first_match(bs@.skip(i as int), is_equity::<V>()) == Some(bs@[i as int]));
                }
                return bs[i].name.clone();
            }
            proof {
                lemma_first_match_skip(bs@, is_equity::<V>(), i as int);
            }
            i = i + 1;
        }
        let names = dense_account_names;
        let mut i: usize = 0;
        while i < names.len()
            invariant
                names == dense_account_names,
                bs == &self.config.balance_sheet,
                i <= names.len(),
                first_match(bs@, is_designated::<V>()) is None,
                first_match(bs@, is_adjusting_equity::<V>()) is None,
                first_match(bs@, is_equity::<V>()) is None,
                first_match(names@, names_equity()) == first_match(names@.skip(i as int), names_equity()),
            decreases names.len() - i,
        {
            let lower = to_lower(names[i].as_str());
            if str_contains(lower.as_str(), "equity") {
                proof {
                    assert(names@.skip(i as int)[0] == names@[i as int]);
                    assert(names_equity()(names@[i as int]));
                    assert(first_match(names@.skip(i as int), names_equity()) == Some(names@[i as int]));
                }
                return names[i].clone();
            }
            proof {
                lemma_first_match_skip(names@, names_equity(), i as int);
            }
            i = i + 1;
        }
        String::from_str("Balancing Equity Adjustment")
    }

    /// The type of the balance sheet account named `name`; equity for an
    /// account the configuration does not hold.
    pub fn get_account_type(&self, name: &str) -> (r: AccountType)
        ensures
            r == (match bs_account_named(self.config(), name@) {
                Some(a) => a.account_type,
                None => AccountType::Equity,
            }),
    {
        match self.find_bs_account(name) {
            Some(i) => self.config.balance_sheet[i].account_type,
            None => AccountType::Equity,
        }
    }

    /// Index of the first balance sheet account named `name`.
    pub fn find_bs_account(&self, name: &str) -> (r: Option<usize>)
        ensures
            r is Some <==> bs_account_named(self.config(), name@) is Some,
            r matches Some(i) ==> i < self.config().balance_sheet@.len()
                && bs_account_named(self.config(), name@) == Some(self.config().balance_sheet@[i as int]),
    {
        let bs = &self.config.balance_sheet;
        proof {
            assert(bs@.skip(0) =~= bs@);
        }
        let mut i: usize = 0;
        while i < bs.len()
            invariant
                bs == &self.config.balance_sheet,
                i <= bs.len(),
                first_match(bs@, has_name::<V>(name@)) == first_match(bs@.skip(i as int), has_name::<V>(name@)),
            decreases bs.len() - i,
        {
            if str_eq(bs[i].name.as_str(), name) {
                proof {
                    assert(bs@.skip(i as int)[0] == bs@[i as int]);
                    assert(has_name::<V>(name@)(bs@[i as int]));
                    assert(first_match(bs@.skip(i as int), has_name::<V>(name@)) == Some(bs@[i as int]));
                }
                return Some(i);
            }
            proof {
                lemma_first_match_skip(bs@, has_name::<V>(name@), i as int);
            }
            i = i + 1;
        }
        None
    }

    /// The side of the equation on which the account named `name` counts when
    /// the account named `plug_account_name` is left out (`None`: it does not
    /// count).
    pub fn balance_bucket(&self, name: &str, plug_account_name: &str) -> (r: Option<AccountType>)
        ensures
            r == bucket_spec(self.config(), name@, plug_account_name@),
    {
        if str_eq(name, plug_account_name) {
            return None;
        }
        match self.find_bs_account(name) {
            Some(i) => {
                let t = self.config.balance_sheet[i].account_type;
                match t {
                    AccountType::Asset | AccountType::Liability | AccountType::Equity => Some(t),
                    _ => None,
                }
            },
            None => {
                let lower = to_lower(name);
                if str_contains(lower.as_str(), "equity") || str_contains(lower.as_str(), "capital")
                    || str_contains(lower.as_str(), "retained") || str_contains(lower.as_str(), "adjustment") {
                    Some(AccountType::Equity)
                } else {
                    None
                }
            },
        }
    }

    /// Index of the retained earnings account: the first balance sheet account
    /// whose name mentions "retained earnings".
    pub fn retained_earnings_account(&self) -> (r: Option<usize>)
        ensures
            r is Some <==> first_match(self.config().balance_sheet@, is_retained_earnings()) is Some,
            r matches Some(i) ==> i < self.config().balance_sheet@.len()
                && first_match(self.config().balance_sheet@, is_retained_earnings())
                == Some(self.config().balance_sheet@[i as int]),
    {
        let bs = &self.config.balance_sheet;
        proof {
            assert(bs@.skip(0) =~= bs@);
        }
        let mut i: usize = 0;
        while i < bs.len()
            invariant
                bs == &self.config.balance_sheet,
                i <= bs.len(),
                first_match(bs@, is_retained_earnings::<V>()) == first_match(bs@.skip(i as int), is_retained_earnings::<V>()),
            decreases bs.len() - i,
        {
            let lower = to_lower(bs[i].name.as_str());
            if str_contains(lower.as_str(), "retained earnings") {
                proof {
                    assert(bs@.skip(i as int)[0] == bs@[i as int]);
                    assert(is_retained_earnings::<V>()(bs@[i as int]));
                    assert(first_match(bs@.skip(i as int), is_retained_earnings::<V>()) == Some(bs@[i as int]));
                }
                return Some(i);
            }
            proof {
                lemma_first_match_skip(bs@, is_retained_earnings::<V>(), i as int);
            }
            i = i + 1;
        }
        None
    }
}

/// Whether two texts are equal.
pub fn str_eq(a: &str, b: &str) -> (r: bool)
    ensures
        r == (a@ == b@),
{
    let la = a.unicode_len();
    let lb = b.unicode_len();
    if la != lb {
        return false;
    }
    let mut i: usize = 0;
    while i < la
        invariant
            la == a@.len(),
            lb == b@.len(),
            la == lb,
            i <= la,
            forall|k: int| 0 <= k < i ==> a@[k] == b@[k],
        decreases la - i,
    {
        if a.get_char(i) != b.get_char(i) {
            return false;
        }
        i = i + 1;
    }
    proof {
        assert(a@ =~= b@);
    }
    true
}

/// Whether `s` holds `d`.
pub open spec fn holds_date(s: Seq<Date>, d: Date) -> bool {
    exists|k: int| 0 <= k < s.len() && #[trigger] s[k] == d
}

/// Dates listed strictly in key order.
pub open spec fn keys_increase(ds: Seq<Date>) -> bool {
    forall|i: int, j: int| 0 <= i < j < ds.len() ==> (#[trigger] ds[i]).key() < (#[trigger] ds[j]).key()
}

/// Two lists of dates in strict key order that hold the same dates are the
/// same list.
pub proof fn lemma_sorted_dates_unique(a: Seq<Date>, b: Seq<Date>)
    requires
        keys_increase(a),
        keys_increase(b),
        forall|d: Date| #![trigger holds_date(a, d)] #![trigger holds_date(b, d)] holds_date(a, d) <==> holds_date(b, d),
    ensures
        a == b,
    decreases a.len(),
{
    if a.len() == 0 {
        if b.len() > 0 {
            assert(holds_date(b, b[0]));
        }
        assert(a =~= b);
    } else {
        assert(holds_date(a, a[0]));
        let j = choose|j: int| 0 <= j < b.len() && b[j] == a[0];
        assert(holds_date(b, b[0]));
        let i = choose|i: int| 0 <= i < a.len() && a[i] == b[0];
        if j > 0 {
            assert(b[0].key() < b[j].key());
            if i > 0 {
                assert(a[0].key() < a[i].key());
            }
        }
        assert(j == 0);
        let a1 = a.drop_first();
        let b1 = b.drop_first();
        assert forall|d: Date| #![trigger holds_date(a1, d)] #![trigger holds_date(b1, d)] holds_date(a1, d) <==> holds_date(b1, d) by {
            if holds_date(a1, d) {
                let k = choose|k: int| 0 <= k < a1.len() && a1[k] == d;
                assert(a[k + 1] == d);
                assert(a[0].key() < a[k + 1].key());
                assert(holds_date(a, d));
                let m = choose|m: int| 0 <= m < b.len() && b[m] == d;
                assert(m != 0);
                assert(b1[m - 1] == d);
            }
            if holds_date(b1, d) {
                let k = choose|k: int| 0 <= k < b1.len() && b1[k] == d;
                assert(b[k + 1] == d);
                assert(b[0].key() < b[k + 1].key());
                assert(holds_date(b, d));
                let m = choose|m: int| 0 <= m < a.len() && a[m] == d;
                assert(m != 0);
                assert(a1[m - 1] == d);
            }
        }
        lemma_sorted_dates_unique(a1, b1);
        assert(a =~= seq![a[0]] + a1);
        assert(b =~= seq![b[0]] + b1);
    }
}

/// Every date of every series, once each, in chronological order.
pub fn collect_all_dates(series_dates: &Vec<Vec<Date>>) -> (r: Vec<Date>)
    requires
        forall|i: int, k: int| 0 <= i < series_dates@.len() && 0 <= k < series_dates@[i]@.len() ==> (#[trigger] series_dates@[i]@[k]).wf(),
    ensures
        forall|i: int, j: int| 0 <= i < j < r@.len() ==> (#[trigger] r@[i]).key() < (#[trigger] r@[j]).key(),
        forall|d: Date| #[trigger] holds_date(r@, d) <==> exists|i: int| 0 <= i < series_dates@.len() && #[trigger] holds_date(series_dates@[i]@, d),
{
    let mut dates: Vec<Date> = Vec::new();
    for i in 0..series_dates.len()
        invariant
            forall|a: int, k: int| 0 <= a < series_dates@.len() && 0 <= k < series_dates@[a]@.len() ==> (#[trigger] series_dates@[a]@[k]).wf(),
            forall|a: int| 0 <= a < dates@.len() ==> (#[trigger] dates@[a]).wf(),
            forall|a: int, b: int| 0 <= a < b < dates@.len() ==> (#[trigger] dates@[a]).key() < (#[trigger] dates@[b]).key(),
            forall|d: Date| #[trigger] holds_date(dates@, d) <==> exists|a: int| 0 <= a < i && #[trigger] holds_date(series_dates@[a]@, d),
    {
        let series = &series_dates[i];
        let ghost before = dates@;
        for k in 0..series.len()
            invariant
                series == &series_dates@[i as int],
                forall|a: int| 0 <= a < series@.len() ==> (#[trigger] series@[a]).wf(),
                forall|a: int| 0 <= a < dates@.len() ==> (#[trigger] dates@[a]).wf(),
                forall|a: int, b: int| 0 <= a < b < dates@.len() ==> (#[trigger] dates@[a]).key() < (#[trigger] dates@[b]).key(),
                forall|d: Date| #[trigger] holds_date(dates@, d) <==> (holds_date(before, d) || exists|m: int| 0 <= m < k && #[trigger] series@[m] == d),
        {
            let d = series[k];
            let ghost prev = dates@;
            let mut p: usize = 0;
            while p < dates.len() && dates[p].before(&d)
                invariant
                    p <= dates@.len(),
                    d.wf(),
                    forall|a: int| 0 <= a < dates@.len() ==> (#[trigger] dates@[a]).wf(),
                    forall|a: int| 0 <= a < p ==> (#[trigger] dates@[a]).key() < d.key(),
                decreases dates@.len() - p,
            {
                p = p + 1;
            }
            if p < dates.len() && dates[p] == d {
            } else {
                dates.insert(p, d);
                proof {
                    assert forall|a: int, b: int| 0 <= a < b < dates@.len() implies (#[trigger] dates@[a]).key() < (#[trigger] dates@[b]).key() by {
                        if b < p {
                            assert(dates@[a] == prev[a] && dates@[b] == prev[b]);
                        } else if b == p {
                            assert(dates@[a] == prev[a]);
                        } else if a < p {
                            assert(dates@[a] == prev[a] && dates@[b] == prev[b - 1]);
                            assert(prev[a].key() < prev[p as int].key() || a == p);
                        } else if a == p {
                            assert(dates@[b] == prev[b - 1]);
                            if prev[p as int].key() == d.key() {
                                lemma_key_injective(prev[p as int], d);
                            }
                            assert(d.key() < prev[p as int].key());
                            if b - 1 > p {
                                assert(prev[p as int].key() < prev[b - 1].key());
                            }
                        } else {
                            assert(dates@[a] == prev[a - 1] && dates@[b] == prev[b - 1]);
                        }
                    }
                }
            }
            proof {
                assert forall|e: Date| #[trigger] holds_date(dates@, e) <==> (holds_date(before, e) || exists|m: int| 0 <= m < k + 1 && #[trigger] series@[m] == e) by {
                    if e == d {
                        if holds_date(dates@, e) {
                        }
                        assert(series@[k as int] == e);
                        if p < prev.len() && prev[p as int] == d {
                            assert(holds_date(prev, d));
                        } else {
                            assert(dates@[p as int] == d);
                        }
                    } else {
                        if holds_date(dates@, e) && !(p < prev.len() && prev[p as int] == d) {
                            let t = choose|t: int| 0 <= t < dates@.len() && dates@[t] == e;
                            if t < p {
                                assert(prev[t] == e);
                            } else {
                                assert(t != p);
                                assert(prev[t - 1] == e);
                            }
                            assert(holds_date(prev, e));
                        }
                        if holds_date(prev, e) && !(p < prev.len() && prev[p as int] == d) {
                            let t = choose|t: int| 0 <= t < prev.len() && prev[t] == e;
                            if t < p {
                                assert(dates@[t] == e);
                            } else {
                                assert(dates@[t + 1] == e);
                            }
                        }
                    }
                }
            }
        }
        proof {
            assert forall|e: Date| #[trigger] holds_date(dates@, e) <==> exists|a: int| 0 <= a < i + 1 && #[trigger] holds_date(series_dates@[a]@, e) by {
                if exists|m: int| 0 <= m < series@.len() && #[trigger] series@[m] == e {
                    assert(holds_date(series_dates@[i as int]@, e));
                }
                if holds_date(series_dates@[i as int]@, e) {
                    let m = choose|m: int| 0 <= m < series@.len() && series@[m] == e;
                    assert(series@[m] == e);
                }
            }
        }
    }
    dates
}

/// Dates with the same ordering key are the same date.
pub proof fn lemma_key_injective(a: Date, b: Date)
    requires
        a.wf(),
        b.wf(),
        a.key() == b.key(),
    ensures
        a == b,
{
}

/// What enforcing the accounting equation needs to know: the account that
/// absorbs the difference and its type, every date of the series in order,
/// and the side of the equation on which each series counts.
#[derive(Debug)]
pub struct BalancingPlan {
    pub plug_account: String,
    pub plug_type: AccountType,
    pub dates: Vec<Date>,
    pub buckets: Vec<Option<AccountType>>,
}

impl<'a, V> AccountingBalancer<'a, V> {
    /// Plans the balancing of the series named `names` whose dates are
    /// `series_dates` (one list per series): the plug account, its type, every
    /// date once in order, and for each series the side on which it counts
    /// (the plug account itself does not count).
    pub fn plan_balancing(&self, names: &Vec<String>, series_dates: &Vec<Vec<Date>>) -> (r: BalancingPlan)
        requires
            forall|i: int, k: int| 0 <= i < series_dates@.len() && 0 <= k < series_dates@[i]@.len() ==> (#[trigger] series_dates@[i]@[k]).wf(),
        ensures
            r.plug_account@ == plug_account_spec(self.config(), names@),
            r.plug_type == (match bs_account_named(self.config(), r.plug_account@) {
                Some(a) => a.account_type,
                None => AccountType::Equity,
            }),
            forall|i: int, j: int| 0 <= i < j < r.dates@.len() ==> (#[trigger] r.dates@[i]).key() < (#[trigger] r.dates@[j]).key(),
            forall|d: Date| #[trigger] holds_date(r.dates@, d) <==> exists|i: int| 0 <= i < series_dates@.len() && #[trigger] holds_date(series_dates@[i]@, d),
            r.buckets@.len() == names@.len(),
            forall|k: int| 0 <= k < names@.len() ==> #[trigger] r.buckets@[k] == bucket_spec(self.config(), names@[k]@, r.plug_account@),
    {
        let plug_account = self.find_or_create_plug_account(names);
        let plug_type = self.get_account_type(plug_account.as_str());
        let dates = collect_all_dates(series_dates);
        let mut buckets: Vec<Option<AccountType>> = Vec::new();
        for k in 0..names.len()
            invariant
                buckets@.len() == k,
                forall|m: int| 0 <= m < k ==> #[trigger] buckets@[m] == bucket_spec(self.config(), names@[m]@, plug_account@),
        {
            buckets.push(self.balance_bucket(names[k].as_str(), plug_account.as_str()));
        }
        BalancingPlan { plug_account, plug_type, dates, buckets }
    }
}

/// The figures of one dense series: the account it belongs to and a value per
/// date.
#[derive(Debug)]
pub struct SeriesValues<V> {
    pub name: String,
    pub points: Vec<(Date, V)>,
}

/// The value of the first point dated `d`.
pub open spec fn value_at<V>(points: Seq<(Date, V)>, d: Date) -> Option<V>
    decreases points.len(),
{
    if points.len() == 0 {
        None
    } else if points[0].0 == d {
        Some(points[0].1)
    } else {
        value_at(points.drop_first(), d)
    }
}

/// The values at `d` of those of the first `n` series that count on side `t`,
/// in series order.
pub open spec fn side_values<V>(dense: Seq<SeriesValues<V>>, buckets: Seq<Option<AccountType>>, d: Date, t: AccountType, n: int) -> Seq<V>
    decreases n,
{
    if n <= 0 {
        Seq::<V>::empty()
    } else {
        let r = side_values(dense, buckets, d, t, n - 1);
        if buckets[n - 1] == Some(t) && value_at(dense[n - 1].points@, d) is Some {
            r.push(value_at(dense[n - 1].points@, d)->0)
        } else {
            r
        }
    }
}

/// `totals` (assets, liabilities, equity) sum, through `plus` from `zero` and
/// in series order, the values at `d` of the series on each side.
pub open spec fn totals_at<V, A: Fn(V, V) -> V>(
    plus: A,
    zero: V,
    dense: Seq<SeriesValues<V>>,
    buckets: Seq<Option<AccountType>>,
    d: Date,
    totals: (V, V, V),
) -> bool {
    &&& sum_chain(plus, zero, side_values(dense, buckets, d, AccountType::Asset, dense.len() as int), totals.0)
    &&& sum_chain(plus, zero, side_values(dense, buckets, d, AccountType::Liability, dense.len() as int), totals.1)
    &&& sum_chain(plus, zero, side_values(dense, buckets, d, AccountType::Equity, dense.len() as int), totals.2)
}

/// The value of the first point dated `d`, computed.
fn value_on<V: Copy>(points: &Vec<(Date, V)>, d: &Date) -> (r: Option<V>)
    ensures
        r == value_at(points@, *d),
{
    let mut i: usize = 0;
    proof {
        assert(points@.skip(0) =~= points@);
    }
    while i < points.len()
        invariant
            i <= points@.len(),
            value_at(points@, *d) == value_at(points@.skip(i as int), *d),
        decreases points@.len() - i,
    {
        proof {
            assert(points@.skip(i as int).drop_first() =~= points@.skip(i + 1));
            assert(points@.skip(i as int)[0] == points@[i as int]);
        }
        if points[i].0 == *d {
            return Some(points[i].1);
        }
        i = i + 1;
    }
    proof {
        assert(points@.skip(i as int) =~= Seq::<(Date, V)>::empty());
    }
    None
}

/// Assets, liabilities and equity at `date`: the values at that date of the
/// series counting on each side (by `buckets`), summed through `plus` from
/// `zero` in series order.
pub fn calculate_balances<V: Copy, A: Fn(V, V) -> V>(
    dense: &Vec<SeriesValues<V>>,
    buckets: &Vec<Option<AccountType>>,
    date: Date,
    plus: &A,
    zero: V,
) -> (r: (V, V, V))
    requires
        dense_wf(dense@),
        buckets@.len() == dense@.len(),
        forall|a: V, b: V| call_requires(*plus, (a, b)),
    ensures
        totals_at(*plus, zero, dense@, buckets@, date, r),
{
    let mut assets = zero;
    let mut liabilities = zero;
    let mut equity = zero;
    proof {
        lemma_sum_chain_empty(*plus, zero);
    }
    for k in 0..dense.len()
        invariant
            buckets@.len() == dense@.len(),
            forall|a: V, b: V| call_requires(*plus, (a, b)),
            sum_chain(*plus, zero, side_values(dense@, buckets@, date, AccountType::Asset, k as int), assets),
            sum_chain(*plus, zero, side_values(dense@, buckets@, date, AccountType::Liability, k as int), liabilities),
            sum_chain(*plus, zero, side_values(dense@, buckets@, date, AccountType::Equity, k as int), equity),
    {
        match value_on(&dense[k].points, &date) {
            Some(v) => match buckets[k] {
                Some(AccountType::Asset) => {
                    let n = plus(assets, v);
                    proof {
                        lemma_sum_chain_push(*plus, zero, side_values(dense@, buckets@, date, AccountType::Asset, k as int), assets, v, n);
                    }
                    assets = n;
                },
                Some(AccountType::Liability) => {
                    let n = plus(liabilities, v);
                    proof {
                        lemma_sum_chain_push(*plus, zero, side_values(dense@, buckets@, date, AccountType::Liability, k as int), liabilities, v, n);
                    }
                    liabilities = n;
                },
                Some(AccountType::Equity) => {
                    let n = plus(equity, v);
                    proof {
                        lemma_sum_chain_push(*plus, zero, side_values(dense@, buckets@, date, AccountType::Equity, k as int), equity, v, n);
                    }
                    equity = n;
                },
                _ => {},
            },
            None => {},
        }
    }
    (assets, liabilities, equity)
}

/// The account names of the series.
pub open spec fn series_names<V>(dense: Seq<SeriesValues<V>>) -> Seq<String> {
    dense.map_values(|s: SeriesValues<V>| s.name)
}

/// The dates of the points.
pub open spec fn point_dates<V>(points: Seq<(Date, V)>) -> Seq<Date> {
    points.map_values(|p: (Date, V)| p.0)
}

/// The series hold dense data as a map from account name to a map from date
/// to value holds it: no two series carry the same name, and each series
/// lists its points in strictly increasing date order.
pub open spec fn dense_wf<V>(dense: Seq<SeriesValues<V>>) -> bool {
    &&& forall|k: int, j: int| 0 <= k < j < dense.len() ==> (#[trigger] dense[k]).name@ != (#[trigger] dense[j]).name@
    &&& forall|k: int| 0 <= k < dense.len() ==> keys_increase(point_dates((#[trigger] dense[k]).points@))
}

/// `ds` lists every date of every series once, in chronological order.
pub open spec fn dense_dates_in_order<V>(dense: Seq<SeriesValues<V>>, ds: Seq<Date>) -> bool {
    &&& keys_increase(ds)
    &&& forall|d: Date| #[trigger] holds_date(ds, d) <==> exists|k: int| 0 <= k < dense.len() && #[trigger] holds_date(point_dates(dense[k].points@), d)
}

/// The type of the plug account: that of the balance sheet account of that
/// name, equity when there is none.
pub open spec fn plug_type_spec<V>(config: FinancialHistoryConfig<V>, plug: Seq<char>) -> AccountType {
    match bs_account_named(config, plug) {
        Some(a) => a.account_type,
        None => AccountType::Equity,
    }
}

/// The side on which each series counts when `plug` is the plug account.
pub open spec fn plug_buckets<V>(config: FinancialHistoryConfig<V>, dense: Seq<SeriesValues<V>>, plug: Seq<char>) -> Seq<Option<AccountType>> {
    Seq::new(dense.len(), |k: int| bucket_spec(config, dense[k].name@, plug))
}

/// `plug` is what the plug account must hold for the equation to balance:
/// liabilities plus equity minus assets for an asset account, assets minus
/// liabilities minus equity otherwise (in that order of operations).
pub open spec fn plug_value<V, A: Fn(V, V) -> V, S: Fn(V, V) -> V>(plus: A, minus: S, plug_type: AccountType, totals: (V, V, V), plug: V) -> bool {
    if plug_type == AccountType::Asset {
        exists|m: V| #[trigger] call_ensures(plus, (totals.1, totals.2), m) && call_ensures(minus, (m, totals.0), plug)
    } else {
        exists|m: V| #[trigger] call_ensures(minus, (totals.0, totals.1), m) && call_ensures(minus, (m, totals.2), plug)
    }
}

/// The plug figure at one date, with the totals it balances.
#[derive(Debug)]
pub struct PlugRow<V> {
    /// How the plug figure came about: always a balancing plug.
    pub origin: DataOrigin,
    pub date: Date,
    pub assets: V,
    pub liabilities: V,
    pub equity: V,
    pub plug: V,
}

/// The plug account and its figure at every date.
#[derive(Debug)]
pub struct PlugFigures<V> {
    pub plug_account: String,
    pub rows: Vec<PlugRow<V>>,
}

/// The dates of the rows.
pub open spec fn row_dates<V>(rows: Seq<PlugRow<V>>) -> Seq<Date> {
    rows.map_values(|x: PlugRow<V>| x.date)
}

/// The plug account's points: each row's date with its plug figure.
pub open spec fn plug_points<V>(rows: Seq<PlugRow<V>>) -> Seq<(Date, V)> {
    rows.map_values(|x: PlugRow<V>| (x.date, x.plug))
}

/// `after` is `before` with the plug account's points set to the plug figures:
/// the first series named `plug` gets them in place of its points, or, when no
/// series is named so, a series of that name holding them comes last.
pub open spec fn plugged<V>(before: Seq<SeriesValues<V>>, after: Seq<SeriesValues<V>>, plug: Seq<char>, rows: Seq<PlugRow<V>>) -> bool {
    match series_named(before, plug) {
        Some(i) => {
            &&& after.len() == before.len()
            &&& after[i].name == before[i].name
            &&& after[i].points@ == plug_points(rows)
            &&& forall|k: int| 0 <= k < before.len() && k != i ==> #[trigger] after[k] == before[k]
        },
        None => {
            &&& after.len() == before.len() + 1
            &&& after.last().name@ == plug
            &&& after.last().points@ == plug_points(rows)
            &&& forall|k: int| 0 <= k < before.len() ==> #[trigger] after[k] == before[k]
        },
    }
}

/// The names and point dates of the series, computed.
fn names_and_dates<V>(dense: &Vec<SeriesValues<V>>) -> (r: (Vec<String>, Vec<Vec<Date>>))
    ensures
        r.0@ == series_names(dense@),
        r.1@.len() == dense@.len(),
        forall|k: int| 0 <= k < dense@.len() ==> (#[trigger] r.1@[k])@ == point_dates(dense@[k].points@),
{
    let mut names: Vec<String> = Vec::new();
    let mut dates: Vec<Vec<Date>> = Vec::new();
    for k in 0..dense.len()
        invariant
            names@ == series_names(dense@).take(k as int),
            dates@.len() == k,
            forall|j: int| 0 <= j < k ==> (#[trigger] dates@[j])@ == point_dates(dense@[j].points@),
    {
        names.push(dense[k].name.clone());
        let points = &dense[k].points;
        let mut ds: Vec<Date> = Vec::new();
        for j in 0..points.len()
            invariant
                points == &dense@[k as int].points,
                ds@ == point_dates(points@).take(j as int),
        {
            ds.push(points[j].0);
            proof {
                assert(point_dates(points@).take(j + 1) =~= point_dates(points@).take(j as int).push(points@[j as int].0));
            }
        }
        proof {
            assert(point_dates(points@).take(points@.len() as int) =~= point_dates(points@));
            assert(series_names(dense@).take(k + 1) =~= series_names(dense@).take(k as int).push(dense@[k as int].name));
        }
        dates.push(ds);
    }
    proof {
        assert(series_names(dense@).take(dense@.len() as int) =~= series_names(dense@));
    }
    (names, dates)
}

impl<'a, V: Copy> AccountingBalancer<'a, V> {
    /// The plug account (chosen among the configuration's accounts and the
    /// series names) and, at every date of the series in order, the totals of
    /// the other series on each side and the figure the plug account must hold
    /// for assets to equal liabilities plus equity.
    pub fn enforce_accounting_equation<A: Fn(V, V) -> V, S: Fn(V, V) -> V>(
        &self,
        dense: &mut Vec<SeriesValues<V>>,
        plus: &A,
        minus: &S,
        zero: V,
    ) -> (r: PlugFigures<V>)
        requires
            dense_wf(old(dense)@),
            forall|k: int, j: int| 0 <= k < old(dense)@.len() && 0 <= j < old(dense)@[k].points@.len() ==> (#[trigger] old(dense)@[k].points@[j]).0.wf(),
            forall|a: V, b: V| call_requires(*plus, (a, b)),
            forall|a: V, b: V| call_requires(*minus, (a, b)),
        ensures
            r.plug_account@ == plug_account_spec(self.config(), series_names(old(dense)@)),
            dense_dates_in_order(old(dense)@, row_dates(r.rows@)),
            forall|t: int| 0 <= t < r.rows@.len() ==> {
                let row = #[trigger] r.rows@[t];
                &&& totals_at(*plus, zero, old(dense)@, plug_buckets(self.config(), old(dense)@, r.plug_account@), row.date,
                    (row.assets, row.liabilities, row.equity))
                &&& plug_value(*plus, *minus, plug_type_spec(self.config(), r.plug_account@), (row.assets, row.liabilities, row.equity), row.plug)
            },
            plugged(old(dense)@, final(dense)@, r.plug_account@, r.rows@),
            forall|t: int| 0 <= t < r.rows@.len() ==> (#[trigger] r.rows@[t]).origin == DataOrigin::BalancingPlug,
            dense_wf(final(dense)@),
    {
        let ghost before = dense@;
        let (names, dates) = names_and_dates(dense);
        proof {
            assert forall|i: int, k: int| 0 <= i < dates@.len() && 0 <= k < dates@[i]@.len() implies (#[trigger] dates@[i]@[k]).wf() by {
                assert(dates@[i]@[k] == dense@[i].points@[k].0);
            }
        }
        let plan = self.plan_balancing(&names, &dates);
        let ghost buckets = plug_buckets(self.config(), dense@, plan.plug_account@);
        proof {
            assert(plan.buckets@ =~= buckets) by {
                assert forall|k: int| 0 <= k < dense@.len() implies plan.buckets@[k] == buckets[k] by {
                    assert(names@[k] == dense@[k].name);
                }
            }
        }
        let mut rows: Vec<PlugRow<V>> = Vec::new();
        for t in 0..plan.dates.len()
            invariant
                dense_wf(dense@),
                forall|a: V, b: V| call_requires(*plus, (a, b)),
                forall|a: V, b: V| call_requires(*minus, (a, b)),
                plan.buckets@ == buckets,
                plan.buckets@.len() == dense@.len(),
                rows@.len() == t,
                forall|i: int| 0 <= i < t ==> (#[trigger] rows@[i]).date == plan.dates@[i] && rows@[i].origin == DataOrigin::BalancingPlug,
                forall|i: int| 0 <= i < t ==> {
                    let row = #[trigger] rows@[i];
                    &&& totals_at(*plus, zero, dense@, buckets, row.date, (row.assets, row.liabilities, row.equity))
                    &&& plug_value(*plus, *minus, plan.plug_type, (row.assets, row.liabilities, row.equity), row.plug)
                },
        {
            let date = plan.dates[t];
            let (assets, liabilities, equity) = calculate_balances(dense, &plan.buckets, date, plus, zero);
            let plug = match plan.plug_type {
                AccountType::Asset => {
                    let m = plus(liabilities, equity);
                    minus(m, assets)
                },
                _ => {
                    let m = minus(assets, liabilities);
                    minus(m, equity)
                },
            };
            rows.push(PlugRow { origin: DataOrigin::BalancingPlug, date, assets, liabilities, equity, plug });
        }
        proof {
            assert(row_dates(rows@) =~= plan.dates@);
            assert forall|d: Date| #[trigger] holds_date(row_dates(rows@), d) <==> exists|k: int| 0 <= k < dense@.len() && #[trigger] holds_date(point_dates(dense@[k].points@), d) by {
                if holds_date(plan.dates@, d) {
                    let i = choose|i: int| 0 <= i < dates@.len() && #[trigger] holds_date(dates@[i]@, d);
                    assert(holds_date(point_dates(dense@[i].points@), d));
                }
                if exists|k: int| 0 <= k < dense@.len() && #[trigger] holds_date(point_dates(dense@[k].points@), d) {
                    let k = choose|k: int| 0 <= k < dense@.len() && #[trigger] holds_date(point_dates(dense@[k].points@), d);
                    assert(holds_date(dates@[k]@, d));
                }
            }
        }
        let mut points: Vec<(Date, V)> = Vec::new();
        for t in 0..rows.len()
            invariant
                points@ =~= plug_points(rows@).take(t as int),
        {
            points.push((rows[t].date, rows[t].plug));
        }
        proof {
            assert(plug_points(rows@).take(rows@.len() as int) =~= plug_points(rows@));
            lemma_series_named_range(before, plan.plug_account@);
        }
        proof {
            assert(point_dates(plug_points(rows@)) =~= row_dates(rows@));
            lemma_series_named_none(before, plan.plug_account@);
        }
        match find_series_named(dense, plan.plug_account.as_str()) {
            Some(i) => {
                let name = dense[i].name.clone();
                dense.set(i, SeriesValues { name, points });
                proof {
                    assert forall|k: int| 0 <= k < dense@.len() implies keys_increase(point_dates((#[trigger] dense@[k]).points@)) by {
                        if k != i {
                            assert(dense@[k] == before[k]);
                        }
                    }
                    assert forall|k: int, j: int| 0 <= k < j < dense@.len() implies (#[trigger] dense@[k]).name@ != (#[trigger] dense@[j]).name@ by {
                        assert(dense@[k].name == before[k].name && dense@[j].name == before[j].name);
                    }
                }
            },
            None => {
                dense.push(SeriesValues { name: plan.plug_account.clone(), points });
                proof {
                    let m = before.len() as int;
                    assert forall|k: int| 0 <= k < dense@.len() implies keys_increase(point_dates((#[trigger] dense@[k]).points@)) by {
                        if k < m {
                            assert(dense@[k] == before[k]);
                        }
                    }
                    assert forall|k: int, j: int| 0 <= k < j < dense@.len() implies (#[trigger] dense@[k]).name@ != (#[trigger] dense@[j]).name@ by {
                        assert(dense@[k] == before[k]);
                        if j < m {
                            assert(dense@[j] == before[j]);
                        } else {
                            assert(dense@[j].name@ == plan.plug_account@);
                            assert(before[k].name@ != plan.plug_account@);
                        }
                    }
                }
            },
        }
        PlugFigures { plug_account: plan.plug_account, rows }
    }
}

/// Every date of every series once, in chronological order.
pub open spec fn dense_dates<V>(dense: Seq<SeriesValues<V>>) -> Seq<Date> {
    choose|ds: Seq<Date>| dense_dates_in_order(dense, ds)
}

/// At date `d` the totals were computed and the check of assets against
/// liabilities plus equity found no excess.
pub open spec fn balanced_at<V, A: Fn(V, V) -> V, C: Fn(V, V) -> bool>(
    plus: A,
    exceeds: C,
    zero: V,
    dense: Seq<SeriesValues<V>>,
    buckets: Seq<Option<AccountType>>,
    d: Date,
) -> bool {
    exists|totals: (V, V, V), m: V|
        #[trigger] totals_at(plus, zero, dense, buckets, d, totals) && #[trigger] call_ensures(plus, (totals.1, totals.2), m)
            && call_ensures(exceeds, (totals.0, m), false)
}

/// The dates of the series in order, computed, with the proof that they are
/// the ones `dense_dates` names.
fn ordered_dense_dates<V>(dense: &Vec<SeriesValues<V>>, dates: &Vec<Vec<Date>>) -> (r: Vec<Date>)
    requires
        dates@.len() == dense@.len(),
        forall|k: int| 0 <= k < dense@.len() ==> (#[trigger] dates@[k])@ == point_dates(dense@[k].points@),
        forall|k: int, j: int| 0 <= k < dense@.len() && 0 <= j < dense@[k].points@.len() ==> (#[trigger] dense@[k].points@[j]).0.wf(),
    ensures
        r@ == dense_dates(dense@),
        dense_dates_in_order(dense@, r@),
{
    proof {
        assert forall|i: int, k: int| 0 <= i < dates@.len() && 0 <= k < dates@[i]@.len() implies (#[trigger] dates@[i]@[k]).wf() by {
            assert(dates@[i]@[k] == dense@[i].points@[k].0);
        }
    }
    let ds = collect_all_dates(dates);
    proof {
        assert forall|d: Date| #[trigger] holds_date(ds@, d) <==> exists|k: int| 0 <= k < dense@.len() && #[trigger] holds_date(point_dates(dense@[k].points@), d) by {
            if holds_date(ds@, d) {
                let i = choose|i: int| 0 <= i < dates@.len() && #[trigger] holds_date(dates@[i]@, d);
                assert(holds_date(point_dates(dense@[i].points@), d));
            }
            if exists|k: int| 0 <= k < dense@.len() && #[trigger] holds_date(point_dates(dense@[k].points@), d) {
                let k = choose|k: int| 0 <= k < dense@.len() && #[trigger] holds_date(point_dates(dense@[k].points@), d);
                assert(holds_date(dates@[k]@, d));
            }
        }
        assert(dense_dates_in_order(dense@, ds@));
        let chosen = dense_dates(dense@);
        assert(dense_dates_in_order(dense@, chosen));
        assert forall|d: Date| #![trigger holds_date(chosen, d)] #![trigger holds_date(ds@, d)] holds_date(chosen, d) <==> holds_date(ds@, d) by {}
        lemma_sorted_dates_unique(chosen, ds@);
    }
    ds
}

impl<'a, V: Copy> AccountingBalancer<'a, V> {
    /// Checks, date by date in order, that assets equal liabilities plus equity
    /// (no account left out): the first date at which `exceeds` (given assets
    /// and liabilities plus equity) reports a difference comes back with its
    /// totals; `None` when there is none.
    pub fn verify_accounting_equation<A: Fn(V, V) -> V, C: Fn(V, V) -> bool>(
        &self,
        dense: &Vec<SeriesValues<V>>,
        plus: &A,
        exceeds: &C,
        zero: V,
    ) -> (r: Option<(Date, V, V, V)>)
        requires
            dense_wf(dense@),
            forall|k: int, j: int| 0 <= k < dense@.len() && 0 <= j < dense@[k].points@.len() ==> (#[trigger] dense@[k].points@[j]).0.wf(),
            forall|a: V, b: V| call_requires(*plus, (a, b)),
            forall|a: V, b: V| call_requires(*exceeds, (a, b)),
        ensures
            r is None ==> forall|t: int| 0 <= t < dense_dates(dense@).len()
                ==> #[trigger] balanced_at(*plus, *exceeds, zero, dense@, plug_buckets(self.config(), dense@, ""@), dense_dates(dense@)[t]),
            r matches Some((d, a, l, e)) ==> exists|t: int| {
                &&& 0 <= t < dense_dates(dense@).len()
                &&& #[trigger] dense_dates(dense@)[t] == d
                &&& forall|u: int| 0 <= u < t ==> #[trigger] balanced_at(*plus, *exceeds, zero, dense@,
                    plug_buckets(self.config(), dense@, ""@), dense_dates(dense@)[u])
                &&& totals_at(*plus, zero, dense@, plug_buckets(self.config(), dense@, ""@), d, (a, l, e))
                &&& exists|m: V| #[trigger] call_ensures(*plus, (l, e), m) && call_ensures(*exceeds, (a, m), true)
            },
    {
        let (names, dates) = names_and_dates(dense);
        let ds = ordered_dense_dates(dense, &dates);
        let ghost buckets_spec = plug_buckets(self.config(), dense@, ""@);
        let mut buckets: Vec<Option<AccountType>> = Vec::new();
        proof {
            reveal_strlit("");
        }
        for k in 0..names.len()
            invariant
                names@ == series_names(dense@),
                buckets@ == buckets_spec.take(k as int),
                buckets_spec == plug_buckets(self.config(), dense@, ""@),
        {
            buckets.push(self.balance_bucket(names[k].as_str(), ""));
            proof {
                reveal_strlit("");
                assert(buckets@ =~= buckets_spec.take(k + 1));
            }
        }
        proof {
            assert(buckets@ =~= buckets_spec);
        }
        for t in 0..ds.len()
            invariant
                dense_wf(dense@),
                forall|a: V, b: V| call_requires(*plus, (a, b)),
                forall|a: V, b: V| call_requires(*exceeds, (a, b)),
                buckets@ == buckets_spec,
                buckets_spec == plug_buckets(self.config(), dense@, ""@),
                buckets@.len() == dense@.len(),
                ds@ == dense_dates(dense@),
                forall|u: int| 0 <= u < t ==> #[trigger] balanced_at(*plus, *exceeds, zero, dense@, buckets_spec, ds@[u]),
        {
            let date = ds[t];
            let (assets, liabilities, equity) = calculate_balances(dense, &buckets, date, plus, zero);
            let right = plus(liabilities, equity);
            if exceeds(assets, right) {
                proof {
                    let dd = dense_dates(dense@);
                    assert(dd[t as int] == date);
                    assert(forall|u: int| 0 <= u < t ==> #[trigger] balanced_at(*plus, *exceeds, zero, dense@, buckets_spec, dd[u]));
                    assert(call_ensures(*plus, (liabilities, equity), right) && call_ensures(*exceeds, (assets, right), true));
                }
                return Some((date, assets, liabilities, equity));
            }
            proof {
                assert(balanced_at(*plus, *exceeds, zero, dense@, buckets_spec, ds@[t as int]));
            }
        }
        None
    }
}

/// Position of the first series named `name`.
pub open spec fn series_named<V>(dense: Seq<SeriesValues<V>>, name: Seq<char>) -> Option<int>
    decreases dense.len(),
{
    if dense.len() == 0 {
        None
    } else if dense[0].name@ == name {
        Some(0)
    } else {
        match series_named(dense.drop_first(), name) {
            Some(i) => Some(i + 1),
            None => None,
        }
    }
}

/// The value at `d` of the series of the account named `name`, if any.
pub open spec fn account_value_at<V>(dense: Seq<SeriesValues<V>>, name: Seq<char>, d: Date) -> Option<V> {
    match series_named(dense, name) {
        Some(i) => value_at(dense[i].points@, d),
        None => None,
    }
}

/// The values at `d` of those of the first `n` income statement accounts that
/// are of type `t`, in account order.
pub open spec fn type_values<V>(accs: Seq<IncomeStatementAccount<V>>, dense: Seq<SeriesValues<V>>, d: Date, t: AccountType, n: int) -> Seq<V>
    decreases n,
{
    if n <= 0 {
        Seq::<V>::empty()
    } else {
        let r = type_values(accs, dense, d, t, n - 1);
        if accs[n - 1].account_type == t && account_value_at(dense, accs[n - 1].name@, d) is Some {
            r.push(account_value_at(dense, accs[n - 1].name@, d)->0)
        } else {
            r
        }
    }
}

/// The account types that make up net income, in the order they are combined:
/// the two incomes, then the six expenses.
pub open spec fn net_income_type(i: int) -> AccountType {
    if i == 0 {
        AccountType::Revenue
    } else if i == 1 {
        AccountType::OtherIncome
    } else if i == 2 {
        AccountType::CostOfSales
    } else if i == 3 {
        AccountType::OperatingExpense
    } else if i == 4 {
        AccountType::Interest
    } else if i == 5 {
        AccountType::Depreciation
    } else if i == 6 {
        AccountType::ShareholderSalaries
    } else {
        AccountType::IncomeTax
    }
}

/// `r` is revenue plus other income minus each expense total in turn.
pub open spec fn net_combination<V, A: Fn(V, V) -> V, S: Fn(V, V) -> V>(plus: A, minus: S, sums: Seq<V>, r: V) -> bool {
    exists|p: Seq<V>| {
        &&& #[trigger] p.len() == 8
        &&& p[0] == sums[0]
        &&& call_ensures(plus, (p[0], sums[1]), p[1])
        &&& forall|i: int| 2 <= i < 8 ==> call_ensures(minus, (p[i - 1], sums[i]), #[trigger] p[i])
        &&& r == p[7]
    }
}

/// `r` is the net income at `d`: the totals, per type and in account order, of
/// the income statement accounts' values at `d`, combined as incomes minus
/// expenses.
pub open spec fn net_income_at<V, A: Fn(V, V) -> V, S: Fn(V, V) -> V>(
    plus: A,
    minus: S,
    zero: V,
    accs: Seq<IncomeStatementAccount<V>>,
    dense: Seq<SeriesValues<V>>,
    d: Date,
    r: V,
) -> bool {
    exists|sums: Seq<V>| {
        &&& #[trigger] sums.len() == 8
        &&& forall|i: int| 0 <= i < 8 ==> sum_chain(plus, zero, type_values(accs, dense, d, net_income_type(i), accs.len() as int), #[trigger] sums[i])
        &&& net_combination(plus, minus, sums, r)
    }
}

/// Position of the first series named `name`.
fn find_series_named<V>(dense: &Vec<SeriesValues<V>>, name: &str) -> (r: Option<usize>)
    ensures
        r is Some <==> series_named(dense@, name@) is Some,
        r matches Some(i) ==> series_named(dense@, name@) == Some(i as int) && i < dense@.len(),
{
    let mut i: usize = 0;
    proof {
        assert(dense@.skip(0) =~= dense@);
    }
    while i < dense.len()
        invariant
            i <= dense@.len(),
            series_named(dense@, name@) == (match series_named(dense@.skip(i as int), name@) {
                Some(j) => Some(j + i),
                None => None::<int>,
            }),
        decreases dense@.len() - i,
    {
        proof {
            assert(dense@.skip(i as int).drop_first() =~= dense@.skip(i + 1));
            assert(dense@.skip(i as int)[0] == dense@[i as int]);
        }
        if str_eq(dense[i].name.as_str(), name) {
            return Some(i);
        }
        i = i + 1;
    }
    proof {
        assert(dense@.skip(i as int) =~= Seq::<SeriesValues<V>>::empty());
    }
    None
}

/// The value at `d` of the series of the account named `name`, computed.
fn account_value_on<V: Copy>(dense: &Vec<SeriesValues<V>>, name: &str, d: &Date) -> (r: Option<V>)
    ensures
        r == account_value_at(dense@, name@, *d),
{
    match find_series_named(dense, name) {
        Some(i) => value_on(&dense[i].points, d),
        None => None,
    }
}

/// The total, through `plus` from `zero` in account order, of the values at
/// `d` of the income statement accounts of type `t`.
fn type_total<V: Copy, A: Fn(V, V) -> V>(
    accs: &Vec<IncomeStatementAccount<V>>,
    dense: &Vec<SeriesValues<V>>,
    d: Date,
    t: AccountType,
    plus: &A,
    zero: V,
) -> (r: V)
    requires
        forall|a: V, b: V| call_requires(*plus, (a, b)),
    ensures
        sum_chain(*plus, zero, type_values(accs@, dense@, d, t, accs@.len() as int), r),
{
    let mut total = zero;
    proof {
        lemma_sum_chain_empty(*plus, zero);
    }
    for k in 0..accs.len()
        invariant
            forall|a: V, b: V| call_requires(*plus, (a, b)),
            sum_chain(*plus, zero, type_values(accs@, dense@, d, t, k as int), total),
    {
        if accs[k].account_type == t {
            match account_value_on(dense, accs[k].name.as_str(), &d) {
                Some(v) => {
                    let n = plus(total, v);
                    proof {
                        lemma_sum_chain_push(*plus, zero, type_values(accs@, dense@, d, t, k as int), total, v, n);
                    }
                    total = n;
                },
                None => {},
            }
        }
    }
    total
}

impl<'a, V: Copy> AccountingBalancer<'a, V> {
    /// Net income at `date`: revenue plus other income, minus cost of sales,
    /// operating expenses, interest, depreciation, shareholder salaries and
    /// income tax, each the total of its accounts' values at that date.
    pub fn calculate_net_income<A: Fn(V, V) -> V, S: Fn(V, V) -> V>(
        &self,
        dense: &Vec<SeriesValues<V>>,
        date: Date,
        plus: &A,
        minus: &S,
        zero: V,
    ) -> (r: V)
        requires
            dense_wf(dense@),
            forall|a: V, b: V| call_requires(*plus, (a, b)),
            forall|a: V, b: V| call_requires(*minus, (a, b)),
        ensures
            net_income_at(*plus, *minus, zero, self.config().income_statement@, dense@, date, r),
    {
        let accs = &self.config.income_statement;
        let revenue = type_total(accs, dense, date, AccountType::Revenue, plus, zero);
        let other_income = type_total(accs, dense, date, AccountType::OtherIncome, plus, zero);
        let cost_of_sales = type_total(accs, dense, date, AccountType::CostOfSales, plus, zero);
        let operating_expense = type_total(accs, dense, date, AccountType::OperatingExpense, plus, zero);
        let interest = type_total(accs, dense, date, AccountType::Interest, plus, zero);
        let depreciation = type_total(accs, dense, date, AccountType::Depreciation, plus, zero);
        let shareholder_salaries = type_total(accs, dense, date, AccountType::ShareholderSalaries, plus, zero);
        let income_tax = type_total(accs, dense, date, AccountType::IncomeTax, plus, zero);
        let p1 = plus(revenue, other_income);
        let p2 = minus(p1, cost_of_sales);
        let p3 = minus(p2, operating_expense);
        let p4 = minus(p3, interest);
        let p5 = minus(p4, depreciation);
        let p6 = minus(p5, shareholder_salaries);
        let p7 = minus(p6, income_tax);
        proof {
            let sums = seq![revenue, other_income, cost_of_sales, operating_expense, interest, depreciation, shareholder_salaries, income_tax];
            let p = seq![revenue, p1, p2, p3, p4, p5, p6, p7];
            assert(p.len() == 8);
            assert forall|i: int| 2 <= i < 8 implies call_ensures(*minus, (p[i - 1], sums[i]), #[trigger] p[i]) by {
                if i == 2 {
                } else if i == 3 {
                } else if i == 4 {
                } else if i == 5 {
                } else if i == 6 {
                } else {
                }
            }
            assert(net_combination(*plus, *minus, sums, p7));
            assert(sums.len() == 8);
            assert forall|i: int| 0 <= i < 8 implies sum_chain(*plus, zero, type_values(accs@, dense@, date, net_income_type(i), accs@.len() as int), #[trigger] sums[i]) by {
                if i == 0 {
                } else if i == 1 {
                } else if i == 2 {
                } else if i == 3 {
                } else if i == 4 {
                } else if i == 5 {
                } else if i == 6 {
                } else {
                }
            }
        }
        p7
    }
}

/// The ordering keys of the points' dates.
pub open spec fn point_keys<V>(points: Seq<(Date, V)>) -> Seq<i64> {
    Seq::new(points.len(), |i: int| points[i].0.key() as i64)
}

/// The dates of the points in chronological order (a stable sort).
pub open spec fn sorted_point_dates<V>(points: Seq<(Date, V)>) -> Seq<Date> {
    let order = sort_indices_spec(points.len(), point_keys(points));
    Seq::new(points.len(), |k: int| points[order[k] as int].0)
}

/// The mismatches among the first `n` consecutive date pairs: for pair `w`,
/// its later date, the change of the balance and the net income, kept when
/// `flags[w]` is set.
pub open spec fn flagged_pairs<V>(ds: Seq<Date>, changes: Seq<V>, incomes: Seq<V>, flags: Seq<bool>, n: int) -> Seq<(Date, V, V)>
    decreases n,
{
    if n <= 0 {
        Seq::<(Date, V, V)>::empty()
    } else {
        let r = flagged_pairs(ds, changes, incomes, flags, n - 1);
        if flags[n - 1] { r.push((ds[n], changes[n - 1], incomes[n - 1])) } else { r }
    }
}

/// `r` lists, in date order, the consecutive dates of the retained earnings
/// series at which the change of its balance (the later value minus the
/// earlier one) and the net income at the later date were found by `exceeds`
/// to differ.
pub open spec fn rollforward_mismatches<V, A: Fn(V, V) -> V, S: Fn(V, V) -> V, C: Fn(V, V) -> bool>(
    plus: A,
    minus: S,
    exceeds: C,
    zero: V,
    accs: Seq<IncomeStatementAccount<V>>,
    dense: Seq<SeriesValues<V>>,
    points: Seq<(Date, V)>,
    r: Seq<(Date, V, V)>,
) -> bool {
    let ds = sorted_point_dates(points);
    let m = pair_count(ds);
    exists|changes: Seq<V>, incomes: Seq<V>, flags: Seq<bool>| {
        &&& #[trigger] flagged_pairs(ds, changes, incomes, flags, m) == r
        &&& changes.len() == m && incomes.len() == m && flags.len() == m
        &&& forall|w: int| 0 <= w < m ==> {
            &&& call_ensures(minus, (value_at(points, ds[w + 1])->0, value_at(points, ds[w])->0), #[trigger] changes[w])
            &&& net_income_at(plus, minus, zero, accs, dense, ds[w + 1], incomes[w])
            &&& call_ensures(exceeds, (changes[w], incomes[w]), flags[w])
        }
    }
}

/// The number of consecutive pairs among the dates.
pub open spec fn pair_count(ds: Seq<Date>) -> int {
    if ds.len() > 0 { ds.len() - 1 } else { 0 }
}

/// The series of the retained earnings account, if there are both.
pub open spec fn retained_series<V>(config: FinancialHistoryConfig<V>, dense: Seq<SeriesValues<V>>) -> Option<int> {
    match first_match(config.balance_sheet@, is_retained_earnings()) {
        Some(a) => series_named(dense, a.name@),
        None => None,
    }
}

/// A point's date has a value.
proof fn lemma_value_at_found<V>(points: Seq<(Date, V)>, k: int)
    requires
        0 <= k < points.len(),
    ensures
        value_at(points, points[k].0) is Some,
    decreases k,
{
    if k > 0 && points[0].0 != points[k].0 {
        assert(points.drop_first()[k - 1] == points[k]);
        lemma_value_at_found(points.drop_first(), k - 1);
    }
}

/// The dates of the points in chronological order, computed.
fn sorted_dates_of<V>(points: &Vec<(Date, V)>) -> (r: Vec<Date>)
    requires
        forall|j: int| 0 <= j < points@.len() ==> (#[trigger] points@[j]).0.wf(),
    ensures
        r@ == sorted_point_dates(points@),
        forall|k: int| 0 <= k < r@.len() ==> value_at(points@, #[trigger] r@[k]) is Some,
{
    let mut keys: Vec<i64> = Vec::new();
    for j in 0..points.len()
        invariant
            forall|i: int| 0 <= i < points@.len() ==> (#[trigger] points@[i]).0.wf(),
            keys@ == point_keys(points@).take(j as int),
    {
        let k = date_key(&points[j].0);
        keys.push(k);
        proof {
            assert(keys@ =~= point_keys(points@).take(j + 1));
        }
    }
    proof {
        assert(keys@ =~= point_keys(points@));
        law_sort_indices(points@.len(), point_keys(points@));
    }
    let order = sort_indices_by_key(&keys);
    let mut r: Vec<Date> = Vec::new();
    for k in 0..order.len()
        invariant
            order@ == sort_indices_spec(points@.len(), point_keys(points@)),
            order@.len() == points@.len(),
            forall|v: usize| #[trigger] order@.contains(v) <==> v < points@.len(),
            r@.len() == k,
            forall|i: int| 0 <= i < k ==> #[trigger] r@[i] == points@[order@[i] as int].0,
            forall|i: int| 0 <= i < k ==> value_at(points@, #[trigger] r@[i]) is Some,
    {
        let i = order[k];
        proof {
            assert(order@.contains(i));
            lemma_value_at_found(points@, i as int);
        }
        r.push(points[i].0);
    }
    proof {
        assert(r@ =~= sorted_point_dates(points@));
    }
    r
}

impl<'a, V: Copy> AccountingBalancer<'a, V> {
    /// Checks that the retained earnings account moves with net income: for
    /// each pair of consecutive dates of its series (in date order), the change
    /// of its balance and the net income at the later date are handed to
    /// `exceeds`; the pairs it flags come back as (later date, change, net
    /// income). Nothing is checked without a retained earnings account or its
    /// series.
    pub fn check_retained_earnings_rollforward<A: Fn(V, V) -> V, S: Fn(V, V) -> V, C: Fn(V, V) -> bool>(
        &self,
        dense: &Vec<SeriesValues<V>>,
        plus: &A,
        minus: &S,
        exceeds: &C,
        zero: V,
    ) -> (r: Vec<(Date, V, V)>)
        requires
            dense_wf(dense@),
            forall|k: int, j: int| 0 <= k < dense@.len() && 0 <= j < dense@[k].points@.len() ==> (#[trigger] dense@[k].points@[j]).0.wf(),
            forall|a: V, b: V| call_requires(*plus, (a, b)),
            forall|a: V, b: V| call_requires(*minus, (a, b)),
            forall|a: V, b: V| call_requires(*exceeds, (a, b)),
        ensures
            retained_series(self.config(), dense@) is None ==> r@.len() == 0,
            retained_series(self.config(), dense@) matches Some(j) ==> rollforward_mismatches(
                *plus, *minus, *exceeds, zero, self.config().income_statement@, dense@, dense@[j].points@, r@),
    {
        let mut r: Vec<(Date, V, V)> = Vec::new();
        let a = match self.retained_earnings_account() {
            Some(a) => a,
            None => return r,
        };
        let j = match find_series_named(dense, self.config.balance_sheet[a].name.as_str()) {
            Some(j) => j,
            None => return r,
        };
        let points = &dense[j].points;
        proof {
            lemma_series_named_range(dense@, self.config.balance_sheet@[a as int].name@);
        }
        let ds = sorted_dates_of(points);
        let n = ds.len();
        if n == 0 {
            proof {
                let e = Seq::<V>::empty();
                let f = Seq::<bool>::empty();
                assert(flagged_pairs(ds@, e, e, f, pair_count(ds@)) == r@);
            }
            return r;
        }
        let ghost mut changes: Seq<V> = Seq::<V>::empty();
        let ghost mut incomes: Seq<V> = Seq::<V>::empty();
        let ghost mut flags: Seq<bool> = Seq::<bool>::empty();
        for w in 0..n - 1
            invariant
                dense_wf(dense@),
                forall|x: V, y: V| call_requires(*plus, (x, y)),
                forall|x: V, y: V| call_requires(*minus, (x, y)),
                forall|x: V, y: V| call_requires(*exceeds, (x, y)),
                n == ds@.len(),
                n > 0,
                points == &dense@[j as int].points,
                ds@ == sorted_point_dates(points@),
                forall|k: int| 0 <= k < ds@.len() ==> value_at(points@, #[trigger] ds@[k]) is Some,
                changes.len() == w && incomes.len() == w && flags.len() == w,
                r@ == flagged_pairs(ds@, changes, incomes, flags, w as int),
                forall|u: int| 0 <= u < w ==> {
                    &&& call_ensures(*minus, (value_at(points@, ds@[u + 1])->0, value_at(points@, ds@[u])->0), #[trigger] changes[u])
                    &&& net_income_at(*plus, *minus, zero, self.config().income_statement@, dense@, ds@[u + 1], incomes[u])
                    &&& call_ensures(*exceeds, (changes[u], incomes[u]), flags[u])
                },
        {
            let prev = ds[w];
            let current = ds[w + 1];
            proof {
                assert(value_at(points@, ds@[w as int]) is Some);
                assert(value_at(points@, ds@[w + 1]) is Some);
            }
            let prev_value = match value_on(points, &prev) {
                Some(v) => v,
                None => zero,
            };
            let current_value = match value_on(points, &current) {
                Some(v) => v,
                None => zero,
            };
            let change = minus(current_value, prev_value);
            let income = self.calculate_net_income(dense, current, plus, minus, zero);
            let flag = exceeds(change, income);
            if flag {
                r.push((current, change, income));
            }
            proof {
                let old_changes = changes;
                let old_incomes = incomes;
                let old_flags = flags;
                changes = changes.push(change);
                incomes = incomes.push(income);
                flags = flags.push(flag);
                assert forall|u: int| 0 <= u < w + 1 implies {
                    &&& call_ensures(*minus, (value_at(points@, ds@[u + 1])->0, value_at(points@, ds@[u])->0), #[trigger] changes[u])
                    &&& net_income_at(*plus, *minus, zero, self.config().income_statement@, dense@, ds@[u + 1], incomes[u])
                    &&& call_ensures(*exceeds, (changes[u], incomes[u]), flags[u])
                } by {
                    if u < w {
                        assert(changes[u] == old_changes[u] && incomes[u] == old_incomes[u] && flags[u] == old_flags[u]);
                    }
                }
                lemma_flagged_pairs_prefix(ds@, old_changes, old_incomes, old_flags, changes, incomes, flags, w as int);
            }
        }
        proof {
            assert(pair_count(ds@) == n - 1);
            assert(flagged_pairs(ds@, changes, incomes, flags, pair_count(ds@)) == r@);
        }
        r
    }
}

/// Extending the flag sequences leaves the earlier mismatches as they were.
proof fn lemma_flagged_pairs_prefix<V>(
    ds: Seq<Date>,
    c0: Seq<V>,
    i0: Seq<V>,
    f0: Seq<bool>,
    c1: Seq<V>,
    i1: Seq<V>,
    f1: Seq<bool>,
    n: int,
)
    requires
        0 <= n,
        c0.len() >= n && i0.len() >= n && f0.len() >= n,
        c1.len() >= n && i1.len() >= n && f1.len() >= n,
        forall|u: int| #![trigger c0[u]] #![trigger c1[u]] 0 <= u < n ==> c0[u] == c1[u] && i0[u] == i1[u] && f0[u] == f1[u],
    ensures
        flagged_pairs(ds, c0, i0, f0, n) == flagged_pairs(ds, c1, i1, f1, n),
    decreases n,
{
    if n > 0 {
        assert(c0[n - 1] == c1[n - 1]);
        lemma_flagged_pairs_prefix(ds, c0, i0, f0, c1, i1, f1, n - 1);
    }
}

/// A reported series position lies within range and carries the name.
proof fn lemma_series_named_range<V>(dense: Seq<SeriesValues<V>>, name: Seq<char>)
    ensures
        series_named(dense, name) matches Some(i) ==> 0 <= i < dense.len() && dense[i].name@ == name,
    decreases dense.len(),
{
    if dense.len() > 0 {
        lemma_series_named_range(dense.drop_first(), name);
    }
}

/// With exact addition and subtraction, the plug figure balances the
/// equation: added to assets for an asset plug, and otherwise to the side of
/// liabilities and equity, it makes assets equal liabilities plus equity.
pub proof fn law_plug_balances<A: Fn(i64, i64) -> i64, S: Fn(i64, i64) -> i64>(
    plus: A,
    minus: S,
    plug_type: AccountType,
    totals: (i64, i64, i64),
    plug: i64,
)
    requires
        forall|a: i64, b: i64, r: i64| #[trigger] call_ensures(plus, (a, b), r) ==> r == a + b,
        forall|a: i64, b: i64, r: i64| #[trigger] call_ensures(minus, (a, b), r) ==> r == a - b,
        plug_value(plus, minus, plug_type, totals, plug),
    ensures
        plug_type == AccountType::Asset ==> totals.0 + plug == totals.1 + totals.2,
        plug_type != AccountType::Asset ==> totals.0 == totals.1 + totals.2 + plug,
{
}

/// A point found at `d` is a point dated `d`.
proof fn lemma_value_at_held<V>(points: Seq<(Date, V)>, d: Date)
    ensures
        value_at(points, d) is Some ==> holds_date(point_dates(points), d),
    decreases points.len(),
{
    if points.len() > 0 {
        if points[0].0 == d {
            assert(point_dates(points)[0] == d);
        } else {
            let rest = points.drop_first();
            lemma_value_at_held(rest, d);
            if value_at(rest, d) is Some {
                let k = choose|k: int| 0 <= k < point_dates(rest).len() && #[trigger] point_dates(rest)[k] == d;
                assert(point_dates(points)[k + 1] == d);
            }
        }
    }
}

/// The plug account's value at a row's date is that row's figure; at any
/// other date it has none.
proof fn lemma_value_at_plug_points<V>(rows: Seq<PlugRow<V>>, d: Date)
    requires
        keys_increase(row_dates(rows)),
    ensures
        forall|t: int| 0 <= t < rows.len() && #[trigger] rows[t].date == d ==> value_at(plug_points(rows), d) == Some(rows[t].plug),
        !holds_date(row_dates(rows), d) ==> value_at(plug_points(rows), d) is None,
    decreases rows.len(),
{
    if rows.len() > 0 {
        let rest = rows.drop_first();
        assert(plug_points(rows).drop_first() =~= plug_points(rest));
        assert(plug_points(rows)[0] == (rows[0].date, rows[0].plug));
        assert forall|i: int, j: int| 0 <= i < j < row_dates(rest).len() implies
            (#[trigger] row_dates(rest)[i]).key() < (#[trigger] row_dates(rest)[j]).key() by {
            assert(row_dates(rest)[i] == row_dates(rows)[i + 1]);
            assert(row_dates(rest)[j] == row_dates(rows)[j + 1]);
        }
        lemma_value_at_plug_points(rest, d);
        assert forall|t: int| 0 <= t < rows.len() && #[trigger] rows[t].date == d implies value_at(plug_points(rows), d) == Some(rows[t].plug) by {
            if t > 0 {
                assert(row_dates(rows)[0].key() < row_dates(rows)[t].key());
                assert(rest[t - 1] == rows[t]);
            }
        }
        if !holds_date(row_dates(rows), d) {
            assert(row_dates(rows)[0] != d);
            if holds_date(row_dates(rest), d) {
                let k = choose|k: int| 0 <= k < row_dates(rest).len() && #[trigger] row_dates(rest)[k] == d;
                assert(row_dates(rows)[k + 1] == d);
            }
        }
    }
}

/// No series named `name` means every series carries another name.
proof fn lemma_series_named_none<V>(dense: Seq<SeriesValues<V>>, name: Seq<char>)
    ensures
        series_named(dense, name) is None ==> forall|k: int| 0 <= k < dense.len() ==> (#[trigger] dense[k]).name@ != name,
    decreases dense.len(),
{
    if dense.len() > 0 {
        lemma_series_named_none(dense.drop_first(), name);
        assert forall|k: int| 0 < k < dense.len() implies dense.drop_first()[k - 1] == #[trigger] dense[k] by {}
    }
}

/// With no value at `d` in the first `m` series, no side holds a value.
proof fn lemma_side_values_without_points<V>(dense: Seq<SeriesValues<V>>, buckets: Seq<Option<AccountType>>, d: Date, x: AccountType, m: int)
    requires
        forall|k: int| 0 <= k < m ==> value_at((#[trigger] dense[k]).points@, d) is None,
    ensures
        side_values(dense, buckets, d, x, m).len() == 0,
    decreases m,
{
    if m > 0 {
        lemma_side_values_without_points(dense, buckets, d, x, m - 1);
        assert(value_at(dense[m - 1].points@, d) is None);
    }
}

/// Over the first `m` series, each side's integer total after plugging is the
/// one before, plus the plug account's value at `d` on its own side once its
/// series is among them.
proof fn lemma_plugged_sides(
    config: FinancialHistoryConfig<i64>,
    before: Seq<SeriesValues<i64>>,
    after: Seq<SeriesValues<i64>>,
    plug: Seq<char>,
    rows: Seq<PlugRow<i64>>,
    d: Date,
    pt: AccountType,
    x: AccountType,
    m: int,
)
    requires
        plugged(before, after, plug, rows),
        forall|k: int, j: int| 0 <= k < j < before.len() ==> (#[trigger] before[k]).name@ != (#[trigger] before[j]).name@,
        forall|k: int| 0 <= k < before.len() ==> (#[trigger] before[k]).name@ != ""@,
        plug != ""@,
        bucket_spec(config, plug, ""@) == Some(pt),
        0 <= m <= before.len(),
    ensures
        int_total(side_values(after, plug_buckets(config, after, ""@), d, x, m)) == int_total(
            side_values(before, plug_buckets(config, before, plug), d, x, m),
        ) + (if series_named(before, plug) matches Some(i) && i < m && x == pt && value_at(plug_points(rows), d) is Some {
            value_at(plug_points(rows), d)->0 as int
        } else {
            0int
        }),
    decreases m,
{
    if m > 0 {
        let k = m - 1;
        lemma_plugged_sides(config, before, after, plug, rows, d, pt, x, k);
        lemma_series_named_range(before, plug);
        lemma_series_named_none(before, plug);
        let e = plug_buckets(config, after, ""@);
        let p = plug_buckets(config, before, plug);
        let sa = side_values(after, e, d, x, k);
        let sb = side_values(before, p, d, x, k);
        if series_named(before, plug) == Some(k) {
            assert(after[k].name == before[k].name);
            assert(before[k].name@ == plug);
            assert(p[k] == None::<AccountType>);
            assert(e[k] == Some(pt));
            assert(after[k].points@ == plug_points(rows));
            if x == pt && value_at(plug_points(rows), d) is Some {
                lemma_int_total_push(sa, value_at(plug_points(rows), d)->0);
                assert(side_values(after, e, d, x, m) == sa.push(value_at(plug_points(rows), d)->0));
            } else {
                assert(side_values(after, e, d, x, m) == sa);
            }
            assert(side_values(before, p, d, x, m) == sb);
        } else {
            assert(after[k] == before[k]);
            assert(before[k].name@ != plug) by {
                if let Some(i) = series_named(before, plug) {
                    assert(before[i].name@ == plug);
                    if i < k {
                        assert(before[i].name@ != before[k].name@);
                    } else {
                        assert(before[k].name@ != before[i].name@);
                    }
                }
            }
            assert(before[k].name@ != ""@);
            assert(e[k] == p[k]);
            if p[k] == Some(x) && value_at(before[k].points@, d) is Some {
                lemma_int_total_push(sa, value_at(before[k].points@, d)->0);
                lemma_int_total_push(sb, value_at(before[k].points@, d)->0);
                assert(side_values(after, e, d, x, m) == sa.push(value_at(before[k].points@, d)->0));
                assert(side_values(before, p, d, x, m) == sb.push(value_at(before[k].points@, d)->0));
            } else {
                assert(side_values(after, e, d, x, m) == sa);
                assert(side_values(before, p, d, x, m) == sb);
            }
        }
    } else {
        lemma_series_named_range(before, plug);
        assert(side_values(after, plug_buckets(config, after, ""@), d, x, 0) =~= Seq::<i64>::empty());
        assert(side_values(before, plug_buckets(config, before, plug), d, x, 0) =~= Seq::<i64>::empty());
    }
}

/// Enforcing the accounting equation balances it: with exact integer addition
/// and subtraction, once the plug account holds the plug figures (as
/// `enforce_accounting_equation` leaves the series), whatever totals the check
/// of `verify_accounting_equation` computes at any date, assets equal
/// liabilities plus equity. The account names must differ from each other and
/// from the empty name the check leaves out, and the plug account must count
/// on the side of its own type when every account is checked.
pub proof fn law_enforced_equation_holds<A: Fn(i64, i64) -> i64, S: Fn(i64, i64) -> i64>(
    config: FinancialHistoryConfig<i64>,
    plus: A,
    minus: S,
    before: Seq<SeriesValues<i64>>,
    after: Seq<SeriesValues<i64>>,
    plug: Seq<char>,
    rows: Seq<PlugRow<i64>>,
    d: Date,
    totals: (i64, i64, i64),
    m: i64,
)
    requires
        forall|a: i64, b: i64, r: i64| #[trigger] call_ensures(plus, (a, b), r) ==> r == a + b,
        forall|a: i64, b: i64, r: i64| #[trigger] call_ensures(minus, (a, b), r) ==> r == a - b,
        dense_dates_in_order(before, row_dates(rows)),
        forall|t: int| 0 <= t < rows.len() ==> {
            let row = #[trigger] rows[t];
            &&& totals_at(plus, 0i64, before, plug_buckets(config, before, plug), row.date, (row.assets, row.liabilities, row.equity))
            &&& plug_value(plus, minus, plug_type_spec(config, plug), (row.assets, row.liabilities, row.equity), row.plug)
        },
        plugged(before, after, plug, rows),
        forall|k: int, j: int| 0 <= k < j < before.len() ==> (#[trigger] before[k]).name@ != (#[trigger] before[j]).name@,
        forall|k: int| 0 <= k < before.len() ==> (#[trigger] before[k]).name@ != ""@,
        plug != ""@,
        plug_type_spec(config, plug).is_balance_sheet_type(),
        bs_account_named(config, plug) is Some || is_equity_like_name(plug),
        totals_at(plus, 0i64, after, plug_buckets(config, after, ""@), d, totals),
        call_ensures(plus, (totals.1, totals.2), m),
    ensures
        totals.0 == m,
{
    let pt = plug_type_spec(config, plug);
    let n = before.len() as int;
    let e = plug_buckets(config, after, ""@);
    let p = plug_buckets(config, before, plug);
    let v = value_at(plug_points(rows), d);
    assert(bucket_spec(config, plug, ""@) == Some(pt));
    lemma_series_named_range(before, plug);
    lemma_sum_chain_exact(plus, side_values(after, e, d, AccountType::Asset, after.len() as int), totals.0);
    lemma_sum_chain_exact(plus, side_values(after, e, d, AccountType::Liability, after.len() as int), totals.1);
    lemma_sum_chain_exact(plus, side_values(after, e, d, AccountType::Equity, after.len() as int), totals.2);
    let xs = seq![AccountType::Asset, AccountType::Liability, AccountType::Equity];
    assert forall|q: int| 0 <= q < 3 implies #[trigger] int_total(side_values(after, e, d, xs[q], after.len() as int))
        == int_total(side_values(before, p, d, xs[q], n)) + (if xs[q] == pt && v is Some { v->0 as int } else { 0int }) by {
        let x = xs[q];
        lemma_plugged_sides(config, before, after, plug, rows, d, pt, x, n);
        if series_named(before, plug) is None {
            let sa = side_values(after, e, d, x, n);
            assert(after.last().name@ == plug);
            assert(e[n] == Some(pt));
            if x == pt && v is Some {
                lemma_int_total_push(sa, v->0);
            }
        }
    }
    assert(int_total(side_values(after, e, d, xs[0], after.len() as int)) == int_total(side_values(before, p, d, xs[0], n)) + (if xs[0] == pt && v is Some { v->0 as int } else { 0int }));
    assert(int_total(side_values(after, e, d, xs[1], after.len() as int)) == int_total(side_values(before, p, d, xs[1], n)) + (if xs[1] == pt && v is Some { v->0 as int } else { 0int }));
    assert(int_total(side_values(after, e, d, xs[2], after.len() as int)) == int_total(side_values(before, p, d, xs[2], n)) + (if xs[2] == pt && v is Some { v->0 as int } else { 0int }));
    lemma_value_at_plug_points(rows, d);
    if holds_date(row_dates(rows), d) {
        let t = choose|t: int| 0 <= t < row_dates(rows).len() && #[trigger] row_dates(rows)[t] == d;
        let row = rows[t];
        assert(row.date == d);
        assert(v == Some(row.plug));
        lemma_sum_chain_exact(plus, side_values(before, p, d, AccountType::Asset, n), row.assets);
        lemma_sum_chain_exact(plus, side_values(before, p, d, AccountType::Liability, n), row.liabilities);
        lemma_sum_chain_exact(plus, side_values(before, p, d, AccountType::Equity, n), row.equity);
    } else {
        assert forall|k: int| 0 <= k < n implies value_at((#[trigger] before[k]).points@, d) is None by {
            lemma_value_at_held(before[k].points@, d);
            if value_at(before[k].points@, d) is Some {
                assert(holds_date(point_dates(before[k].points@), d));
            }
        }
        lemma_side_values_without_points(before, p, d, AccountType::Asset, n);
        lemma_side_values_without_points(before, p, d, AccountType::Liability, n);
        lemma_side_values_without_points(before, p, d, AccountType::Equity, n);
    }
}

} // verus!
