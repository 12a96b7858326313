//! The configuration that describes an organisation's sparse financial data.
//!
//! Amounts are of a type `V` chosen by the caller (for instance `f64`).
use vstd::prelude::*;

use crate::date::{in_last_month, parse_period_string, parsed_period, period_error_text, period_ok, Date};
use crate::error::FinancialHistoryError;

verus! {

/// Where a figure was found: a document and, optionally, the text around it.
#[derive(Debug)]
pub struct SourceMetadata {
    pub document_name: String,
    pub original_text: Option<String>,
}

impl SourceMetadata {
    /// A copy of this source reference.
    pub fn duplicate(&self) -> (r: SourceMetadata)
        ensures
            r == *self,
    {
        SourceMetadata {
            document_name: self.document_name.clone(),
            original_text: match &self.original_text {
                Some(t) => Some(t.clone()),
                None => None,
            },
        }
    }
}

/// A copy of an optional source reference.
pub fn duplicate_source(s: &Option<SourceMetadata>) -> (r: Option<SourceMetadata>)
    ensures
        r == *s,
{
    match s {
        Some(m) => Some(m.duplicate()),
        None => None,
    }
}

/// The kind of an account: income statement kinds first, then balance sheet
/// kinds.
#[derive(Debug, Clone, Copy, PartialEq, Eq, Structural)]
pub enum AccountType {
    Revenue,
    CostOfSales,
    OperatingExpense,
    OtherIncome,
    Interest,
    Depreciation,
    ShareholderSalaries,
    IncomeTax,
    Asset,
    Liability,
    Equity,
}

impl AccountType {
    /// Asset, liability or equity.
    pub open spec fn is_balance_sheet_type(self) -> bool {
        self == AccountType::Asset || self == AccountType::Liability || self == AccountType::Equity
    }

    /// The variant's name, as `{:?}` prints it.
    pub open spec fn name_spec(self) -> Seq<char> {
        match self {
            AccountType::Revenue => "Revenue"@,
            AccountType::CostOfSales => "CostOfSales"@,
            AccountType::OperatingExpense => "OperatingExpense"@,
            AccountType::OtherIncome => "OtherIncome"@,
            AccountType::Interest => "Interest"@,
            AccountType::Depreciation => "Depreciation"@,
            AccountType::ShareholderSalaries => "ShareholderSalaries"@,
            AccountType::IncomeTax => "IncomeTax"@,
            AccountType::Asset => "Asset"@,
            AccountType::Liability => "Liability"@,
            AccountType::Equity => "Equity"@,
        }
    }

    /// The variant's name.
    pub fn name(&self) -> (r: &'static str)
        ensures
            r@ == self.name_spec(),
    {
        match self {
            AccountType::Revenue => "Revenue",
            AccountType::CostOfSales => "CostOfSales",
            AccountType::OperatingExpense => "OperatingExpense",
            AccountType::OtherIncome => "OtherIncome",
            AccountType::Interest => "Interest",
            AccountType::Depreciation => "Depreciation",
            AccountType::ShareholderSalaries => "ShareholderSalaries",
            AccountType::IncomeTax => "IncomeTax",
            AccountType::Asset => "Asset",
            AccountType::Liability => "Liability",
            AccountType::Equity => "Equity",
        }
    }
}

/// Each kind of account prints under a name of its own: two kinds print alike
/// only when they are the same kind, so the type column of an exported chart
/// tells every kind apart. The balance sheet kinds print as `Asset`,
/// `Liability` and `Equity`.
pub proof fn law_type_names_tell_kinds_apart(a: AccountType, b: AccountType)
    ensures
        a.name_spec() == b.name_spec() ==> a == b,
        AccountType::Asset.name_spec() == "Asset"@,
        AccountType::Liability.name_spec() == "Liability"@,
        AccountType::Equity.name_spec() == "Equity"@,
{
    reveal_strlit("Revenue");
    reveal_strlit("CostOfSales");
    reveal_strlit("OperatingExpense");
    reveal_strlit("OtherIncome");
    reveal_strlit("Interest");
    reveal_strlit("Depreciation");
    reveal_strlit("ShareholderSalaries");
    reveal_strlit("IncomeTax");
    reveal_strlit("Asset");
    reveal_strlit("Liability");
    reveal_strlit("Equity");
    if a.name_spec() == b.name_spec() {
        assert(a.name_spec().len() == b.name_spec().len());
        assert(a.name_spec()[0] == b.name_spec()[0]);
    }
}

/// How an income statement total spreads over the months of a fiscal year.
#[derive(Debug)]
pub enum SeasonalityProfileId<V> {
    Flat,
    RetailPeak,
    SummerHigh,
    SaasGrowth,
    Custom(Vec<V>),
}

/// The mathematical content of a seasonality profile.
pub enum SeasonalityModel<V> {
    Flat,
    RetailPeak,
    SummerHigh,
    SaasGrowth,
    Custom(Seq<V>),
}

impl<V> View for SeasonalityProfileId<V> {
    type V = SeasonalityModel<V>;

    open spec fn view(&self) -> SeasonalityModel<V> {
        match self {
            SeasonalityProfileId::Flat => SeasonalityModel::Flat,
            SeasonalityProfileId::RetailPeak => SeasonalityModel::RetailPeak,
            SeasonalityProfileId::SummerHigh => SeasonalityModel::SummerHigh,
            SeasonalityProfileId::SaasGrowth => SeasonalityModel::SaasGrowth,
            SeasonalityProfileId::Custom(w) => SeasonalityModel::Custom(w@),
        }
    }
}

impl<V: Copy> SeasonalityProfileId<V> {
    /// A copy of this profile.
    pub fn duplicate(&self) -> (r: Self)
        ensures
            r@ == self@,
    {
        match self {
            SeasonalityProfileId::Flat => SeasonalityProfileId::Flat,
            SeasonalityProfileId::RetailPeak => SeasonalityProfileId::RetailPeak,
            SeasonalityProfileId::SummerHigh => SeasonalityProfileId::SummerHigh,
            SeasonalityProfileId::SaasGrowth => SeasonalityProfileId::SaasGrowth,
            SeasonalityProfileId::Custom(w) => SeasonalityProfileId::Custom(copy_vec(w)),
        }
    }
}

/// A copy of a vector of copyable items.
pub fn copy_vec<T: Copy>(v: &Vec<T>) -> (r: Vec<T>)
    ensures
        r@ == v@,
{
    let mut r: Vec<T> = Vec::new();
    for i in 0..v.len()
        invariant
            r@ == v@.take(i as int),
    {
        r.push(v[i]);
        proof {
            assert(v@.take(i + 1) == v@.take(i as int).push(v@[i as int]));
        }
    }
    proof {
        assert(v@.take(v.len() as int) == v@);
    }
    r
}

/// A point-in-time balance of a balance sheet account.
#[derive(Debug)]
pub struct BalanceSheetSnapshot<V> {
    pub date: Date,
    pub value: V,
    pub source: Option<SourceMetadata>,
}

impl<V: Copy> BalanceSheetSnapshot<V> {
    /// A copy of this snapshot.
    pub fn duplicate(&self) -> (r: Self)
        ensures
            r == *self,
    {
        BalanceSheetSnapshot { date: self.date, value: self.value, source: duplicate_source(&self.source) }
    }
}

/// How monthly balances are drawn between two snapshots.
#[derive(Debug, Clone, Copy, PartialEq, Eq, Structural)]
pub enum InterpolationMethod {
    Linear,
    Step,
    Curve,
}

/// An asset, liability or equity account with its known balances.
#[derive(Debug)]
pub struct BalanceSheetAccount<V> {
    pub name: String,
    pub category: Option<String>,
    pub account_type: AccountType,
    pub method: InterpolationMethod,
    pub snapshots: Vec<BalanceSheetSnapshot<V>>,
    pub is_balancing_account: bool,
    pub noise_factor: V,
}

/// The mathematical content of a balance sheet account.
pub struct BalanceSheetAccountModel<V> {
    pub name: Seq<char>,
    pub category: Option<Seq<char>>,
    pub account_type: AccountType,
    pub method: InterpolationMethod,
    pub snapshots: Seq<BalanceSheetSnapshot<V>>,
    pub is_balancing_account: bool,
    pub noise_factor: V,
}

pub open spec fn opt_string_view(s: Option<String>) -> Option<Seq<char>> {
    match s {
        Some(t) => Some(t@),
        None => None,
    }
}

/// A copy of an optional string.
pub fn duplicate_opt_string(s: &Option<String>) -> (r: Option<String>)
    ensures
        r == *s,
{
    match s {
        Some(t) => Some(t.clone()),
        None => None,
    }
}

impl<V> View for BalanceSheetAccount<V> {
    type V = BalanceSheetAccountModel<V>;

    open spec fn view(&self) -> BalanceSheetAccountModel<V> {
        BalanceSheetAccountModel {
            name: self.name@,
            category: opt_string_view(self.category),
            account_type: self.account_type,
            method: self.method,
            snapshots: self.snapshots@,
            is_balancing_account: self.is_balancing_account,
            noise_factor: self.noise_factor,
        }
    }
}

/// A copy of a list of snapshots.
pub fn duplicate_snapshots<V: Copy>(v: &Vec<BalanceSheetSnapshot<V>>) -> (r: Vec<BalanceSheetSnapshot<V>>)
    ensures
        r@ == v@,
{
    let mut r: Vec<BalanceSheetSnapshot<V>> = Vec::new();
    for i in 0..v.len()
        invariant
            r@ == v@.take(i as int),
    {
        r.push(v[i].duplicate());
        proof {
            assert(v@.take(i + 1) == v@.take(i as int).push(v@[i as int]));
        }
    }
    proof {
        assert(v@.take(v.len() as int) == v@);
    }
    r
}

impl<V: Copy> BalanceSheetAccount<V> {
    /// A copy of this account.
    pub fn duplicate(&self) -> (r: Self)
        ensures
            r@ == self@,
    {
        BalanceSheetAccount {
            name: self.name.clone(),
            category: duplicate_opt_string(&self.category),
            account_type: self.account_type,
            method: self.method,
            snapshots: duplicate_snapshots(&self.snapshots),
            is_balancing_account: self.is_balancing_account,
            noise_factor: self.noise_factor,
        }
    }
}

/// A known total of an income statement account over a period written
/// `YYYY-MM` or `YYYY-MM:YYYY-MM`.
#[derive(Debug)]
pub struct PeriodConstraint<V> {
    pub period: String,
    pub value: V,
    pub source: Option<SourceMetadata>,
}

impl<V> PeriodConstraint<V> {
    /// The first and last day of the constraint's period.
    pub fn resolve_dates(&self) -> (r: Result<(Date, Date), FinancialHistoryError>)
        ensures
            period_ok(self.period@, r),
            r is Ok <==> parsed_period(self.period@) is Some,
            r matches Ok(p) ==> parsed_period(self.period@) == Some(p),
            r matches Ok((s, e)) ==> s.wf() && e.wf() && e.is_month_end() && !in_last_month(e),
            r is Ok <==> period_error_text(self.period@) is None,
            r matches Err(err) ==> err matches FinancialHistoryError::DateError(m) && period_error_text(self.period@) == Some(m@),
    {
        parse_period_string(self.period.as_str())
    }
}

impl<V: Copy> PeriodConstraint<V> {
    /// A copy of this constraint.
    pub fn duplicate(&self) -> (r: Self)
        ensures
            r == *self,
    {
        PeriodConstraint { period: self.period.clone(), value: self.value, source: duplicate_source(&self.source) }
    }
}

/// A copy of a list of constraints.
pub fn duplicate_constraints<V: Copy>(v: &Vec<PeriodConstraint<V>>) -> (r: Vec<PeriodConstraint<V>>)
    ensures
        r@ == v@,
{
    let mut r: Vec<PeriodConstraint<V>> = Vec::new();
    for i in 0..v.len()
        invariant
            r@ == v@.take(i as int),
    {
        r.push(v[i].duplicate());
        proof {
            assert(v@.take(i + 1) == v@.take(i as int).push(v@[i as int]));
        }
    }
    proof {
        assert(v@.take(v.len() as int) == v@);
    }
    r
}

/// A revenue or expense account with its known period totals.
#[derive(Debug)]
pub struct IncomeStatementAccount<V> {
    pub name: String,
    pub account_type: AccountType,
    pub seasonality_profile: SeasonalityProfileId<V>,
    pub constraints: Vec<PeriodConstraint<V>>,
    pub noise_factor: V,
}

/// The mathematical content of an income statement account.
pub struct IncomeStatementAccountModel<V> {
    pub name: Seq<char>,
    pub account_type: AccountType,
    pub seasonality_profile: SeasonalityModel<V>,
    pub constraints: Seq<PeriodConstraint<V>>,
    pub noise_factor: V,
}

impl<V> View for IncomeStatementAccount<V> {
    type V = IncomeStatementAccountModel<V>;

    open spec fn view(&self) -> IncomeStatementAccountModel<V> {
        IncomeStatementAccountModel {
            name: self.name@,
            account_type: self.account_type,
            seasonality_profile: self.seasonality_profile@,
            constraints: self.constraints@,
            noise_factor: self.noise_factor,
        }
    }
}

impl<V: Copy> IncomeStatementAccount<V> {
    /// A copy of this account.
    pub fn duplicate(&self) -> (r: Self)
        ensures
            r@ == self@,
    {
        IncomeStatementAccount {
            name: self.name.clone(),
            account_type: self.account_type,
            seasonality_profile: self.seasonality_profile.duplicate(),
            constraints: duplicate_constraints(&self.constraints),
            noise_factor: self.noise_factor,
        }
    }
}

/// What the first extraction pass learns about a set of documents.
#[derive(Debug)]
pub struct DiscoveryResponse {
    pub organization_name: String,
    pub fiscal_year_end_month: u32,
    pub forecast_start_date: Option<Date>,
    pub forecast_end_date: Option<Date>,
    pub balance_sheet_account_names: Vec<String>,
    pub income_statement_account_names: Vec<String>,
}

/// Balance sheet accounts extracted from documents.
#[derive(Debug)]
pub struct BalanceSheetExtractionResponse<V> {
    pub balance_sheet: Vec<BalanceSheetAccount<V>>,
}

/// Income statement accounts extracted from documents.
#[derive(Debug)]
pub struct IncomeStatementExtractionResponse<V> {
    pub income_statement: Vec<IncomeStatementAccount<V>>,
}

/// The sparse financial history of one organisation.
#[derive(Debug)]
pub struct FinancialHistoryConfig<V> {
    pub organization_name: String,
    pub fiscal_year_end_month: u32,
    pub balance_sheet: Vec<BalanceSheetAccount<V>>,
    pub income_statement: Vec<IncomeStatementAccount<V>>,
}

/// The mathematical content of a configuration.
pub struct FinancialHistoryConfigModel<V> {
    pub organization_name: Seq<char>,
    pub fiscal_year_end_month: u32,
    pub balance_sheet: Seq<BalanceSheetAccountModel<V>>,
    pub income_statement: Seq<IncomeStatementAccountModel<V>>,
}

pub open spec fn bs_view<V>(v: Seq<BalanceSheetAccount<V>>) -> Seq<BalanceSheetAccountModel<V>> {
    v.map_values(|a: BalanceSheetAccount<V>| a@)
}

pub open spec fn is_view<V>(v: Seq<IncomeStatementAccount<V>>) -> Seq<IncomeStatementAccountModel<V>> {
    v.map_values(|a: IncomeStatementAccount<V>| a@)
}

impl<V> View for FinancialHistoryConfig<V> {
    type V = FinancialHistoryConfigModel<V>;

    open spec fn view(&self) -> FinancialHistoryConfigModel<V> {
        FinancialHistoryConfigModel {
            organization_name: self.organization_name@,
            fiscal_year_end_month: self.fiscal_year_end_month,
            balance_sheet: bs_view(self.balance_sheet@),
            income_statement: is_view(self.income_statement@),
        }
    }
}

/// Copies of balance sheet accounts.
pub fn duplicate_bs_accounts<V: Copy>(v: &Vec<BalanceSheetAccount<V>>) -> (r: Vec<BalanceSheetAccount<V>>)
    ensures
        bs_view(r@) == bs_view(v@),
{
    let mut r: Vec<BalanceSheetAccount<V>> = Vec::new();
    for i in 0..v.len()
        invariant
            bs_view(r@) == bs_view(v@.take(i as int)),
    {
        let ghost before = r@;
        r.push(v[i].duplicate());
        proof {
            assert(bs_view(r@) =~= bs_view(before).push(v@[i as int]@));
            assert(bs_view(v@.take(i + 1)) =~= bs_view(v@.take(i as int)).push(v@[i as int]@));
        }
    }
    proof {
        assert(v@.take(v.len() as int) == v@);
    }
    r
}

/// Copies of income statement accounts.
pub fn duplicate_is_accounts<V: Copy>(v: &Vec<IncomeStatementAccount<V>>) -> (r: Vec<IncomeStatementAccount<V>>)
    ensures
        is_view(r@) == is_view(v@),
{
    let mut r: Vec<IncomeStatementAccount<V>> = Vec::new();
    for i in 0..v.len()
        invariant
            is_view(r@) == is_view(v@.take(i as int)),
    {
        let ghost before = r@;
        r.push(v[i].duplicate());
        proof {
            assert(is_view(r@) =~= is_view(before).push(v@[i as int]@));
            assert(is_view(v@.take(i + 1)) =~= is_view(v@.take(i as int)).push(v@[i as int]@));
        }
    }
    proof {
        assert(v@.take(v.len() as int) == v@);
    }
    r
}

impl<V: Copy> FinancialHistoryConfig<V> {
    /// A copy of this configuration.
    pub fn duplicate(&self) -> (r: Self)
        ensures
            r@ == self@,
    {
        FinancialHistoryConfig {
            organization_name: self.organization_name.clone(),
            fiscal_year_end_month: self.fiscal_year_end_month,
            balance_sheet: duplicate_bs_accounts(&self.balance_sheet),
            income_statement: duplicate_is_accounts(&self.income_statement),
        }
    }
}

/// How a figure of a dense monthly series came about.
#[derive(Debug, Clone, Copy, PartialEq, Eq, Structural)]
pub enum DataOrigin {
    /// Taken as it stands from a source document.
    Anchor,
    /// Drawn between known balance sheet snapshots.
    Interpolated,
    /// Spread from a period total over its months.
    Allocated,
    /// Set so that assets equal liabilities plus equity.
    BalancingPlug,
}

/// Findings of a balancing pass that do not stop processing.
#[derive(Debug)]
pub struct VerificationResult {
    pub warnings: Vec<String>,
}

} // verus!
