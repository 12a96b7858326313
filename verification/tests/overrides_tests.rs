use financial_history_builder::date::Date;
use financial_history_builder::overrides::{AccountModification, FinancialHistoryOverrides};
use financial_history_builder::schema::{
    AccountType, BalanceSheetAccount, BalanceSheetSnapshot, FinancialHistoryConfig, IncomeStatementAccount,
    InterpolationMethod, PeriodConstraint, SeasonalityProfileId, SourceMetadata,
};

fn ymd(year: i32, month: u32, day: u32) -> Date {
    Date { year, month, day }
}

fn snap(d: Date, value: f64) -> BalanceSheetSnapshot<f64> {
    BalanceSheetSnapshot {
        date: d,
        value,
        source: Some(SourceMetadata { document_name: "0".to_string(), original_text: None }),
    }
}

fn bs(name: &str, t: AccountType, snapshots: Vec<BalanceSheetSnapshot<f64>>) -> BalanceSheetAccount<f64> {
    BalanceSheetAccount {
        name: name.to_string(),
        category: Some("Current".to_string()),
        account_type: t,
        method: InterpolationMethod::Linear,
        snapshots,
        is_balancing_account: false,
        noise_factor: 0.0,
    }
}

fn is(name: &str, periods: &[(&str, f64)]) -> IncomeStatementAccount<f64> {
    IncomeStatementAccount {
        name: name.to_string(),
        account_type: AccountType::OperatingExpense,
        seasonality_profile: SeasonalityProfileId::Flat,
        constraints: periods
            .iter()
            .map(|(p, v)| PeriodConstraint { period: p.to_string(), value: *v, source: None })
            .collect(),
        noise_factor: 0.0,
    }
}

fn base() -> FinancialHistoryConfig<f64> {
    FinancialHistoryConfig {
        organization_name: "Base Co".to_string(),
        fiscal_year_end_month: 12,
        balance_sheet: vec![
            bs("Cash", AccountType::Asset, vec![snap(ymd(2023, 12, 31), 100.0)]),
            bs("Chair", AccountType::Asset, vec![snap(ymd(2023, 6, 30), 10.0), snap(ymd(2023, 12, 31), 20.0)]),
            bs("Desk", AccountType::Asset, vec![snap(ymd(2023, 12, 31), 5.0)]),
        ],
        income_statement: vec![is("Telco", &[("2023-01:2023-12", 1200.0)]), is("Phones", &[("2023-03", 50.0)])],
    }
}

fn run(overrides: &FinancialHistoryOverrides<f64>, config: &FinancialHistoryConfig<f64>) -> FinancialHistoryConfig<f64> {
    let scale = |a: f64, b: f64| a * b;
    let sum = |a: f64, b: f64| a + b;
    overrides.apply(config, &scale, &sum, 0.0)
}

fn mods(m: Vec<AccountModification<f64>>) -> FinancialHistoryOverrides<f64> {
    FinancialHistoryOverrides { new_balance_sheet_accounts: vec![], new_income_statement_accounts: vec![], modifications: m }
}

#[test]
fn rename_changes_the_first_matching_account() {
    let out = run(&mods(vec![AccountModification::Rename { target: "Telco".to_string(), new_name: "Telephone".to_string() }]), &base());
    assert_eq!(out.income_statement[0].name, "Telephone");
    assert_eq!(out.income_statement[1].name, "Phones");
    assert_eq!(out.balance_sheet.len(), 3);
}

#[test]
fn merge_sums_balance_sheet_snapshots_by_date() {
    let m = AccountModification::Merge { sources: vec!["Chair".to_string(), "Desk".to_string()], target_name: "Furniture".to_string() };
    let out = run(&mods(vec![m]), &base());
    let names: Vec<&str> = out.balance_sheet.iter().map(|a| a.name.as_str()).collect();
    assert_eq!(names, vec!["Cash", "Furniture"]);
    let furniture = &out.balance_sheet[1];
    assert_eq!(furniture.category, Some("Current".to_string()));
    assert_eq!(furniture.snapshots.len(), 2);
    assert_eq!(furniture.snapshots[0].date, ymd(2023, 6, 30));
    assert_eq!(furniture.snapshots[0].value, 10.0);
    assert_eq!(furniture.snapshots[1].date, ymd(2023, 12, 31));
    assert_eq!(furniture.snapshots[1].value, 25.0);
    assert!(furniture.snapshots.iter().all(|s| s.source.is_none()));
}

#[test]
fn merge_collects_income_statement_constraints() {
    let m = AccountModification::Merge { sources: vec!["Telco".to_string(), "Phones".to_string()], target_name: "Communications".to_string() };
    let out = run(&mods(vec![m]), &base());
    assert_eq!(out.income_statement.len(), 1);
    let c = &out.income_statement[0];
    assert_eq!(c.name, "Communications");
    let periods: Vec<&str> = c.constraints.iter().map(|k| k.period.as_str()).collect();
    assert_eq!(periods, vec!["2023-01:2023-12", "2023-03"]);
    assert_eq!(out.balance_sheet.len(), 3);
}

#[test]
fn merge_into_unknown_names_removes_nothing() {
    let m = AccountModification::Merge { sources: vec!["Nothing".to_string()], target_name: "Else".to_string() };
    let out = run(&mods(vec![m]), &base());
    assert_eq!(out.balance_sheet.len(), 3);
    assert_eq!(out.income_statement.len(), 2);
}

#[test]
fn delete_scale_and_set_value() {
    let out = run(
        &mods(vec![
            AccountModification::Delete { target: "Desk".to_string() },
            AccountModification::ScaleValues { target: "Cash".to_string(), factor: -1.0 },
            AccountModification::SetValue { target: "Chair".to_string(), date_or_period: "2023-12-31".to_string(), value: 42.0 },
            AccountModification::SetValue { target: "Phones".to_string(), date_or_period: "2023-04".to_string(), value: 7.0 },
        ]),
        &base(),
    );
    assert_eq!(out.balance_sheet.len(), 2);
    assert_eq!(out.balance_sheet[0].snapshots[0].value, -100.0);
    let chair = &out.balance_sheet[1];
    assert_eq!(chair.snapshots.len(), 2);
    assert_eq!(chair.snapshots[1].date, ymd(2023, 12, 31));
    assert_eq!(chair.snapshots[1].value, 42.0);
    assert!(chair.snapshots[1].source.is_none());
    let phones = &out.income_statement[1];
    assert_eq!(phones.constraints.len(), 2);
    assert_eq!(phones.constraints[1].period, "2023-04");
    assert_eq!(phones.constraints[1].value, 7.0);
}

#[test]
fn set_value_with_a_bad_date_changes_nothing() {
    let out = run(
        &mods(vec![AccountModification::SetValue { target: "Cash".to_string(), date_or_period: "2023-02-30".to_string(), value: 1.0 }]),
        &base(),
    );
    assert_eq!(out.balance_sheet[0].snapshots.len(), 1);
    assert_eq!(out.balance_sheet[0].snapshots[0].value, 100.0);
}

#[test]
fn update_metadata_and_new_accounts_come_first() {
    let overrides = FinancialHistoryOverrides {
        new_balance_sheet_accounts: vec![bs("GST Payable", AccountType::Liability, vec![snap(ymd(2023, 12, 31), 3.0)])],
        new_income_statement_accounts: vec![],
        modifications: vec![AccountModification::UpdateMetadata {
            target: "GST Payable".to_string(),
            new_category: Some("Tax".to_string()),
            new_type: Some(AccountType::Equity),
        }],
    };
    let starting = base();
    let out = run(&overrides, &starting);
    assert_eq!(starting.balance_sheet.len(), 3);
    assert_eq!(out.balance_sheet.len(), 4);
    let gst = &out.balance_sheet[3];
    assert_eq!(gst.category, Some("Tax".to_string()));
    assert_eq!(gst.account_type, AccountType::Equity);
}
