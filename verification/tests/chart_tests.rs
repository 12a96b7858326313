use financial_history_builder::chart_of_accounts::ChartOfAccounts;
use financial_history_builder::date::Date;
use financial_history_builder::schema::{
    AccountType, BalanceSheetAccount, BalanceSheetSnapshot, FinancialHistoryConfig, IncomeStatementAccount,
    InterpolationMethod, PeriodConstraint, SeasonalityProfileId,
};

fn cash_account() -> BalanceSheetAccount<f64> {
    BalanceSheetAccount {
        name: "Cash".to_string(),
        category: None,
        account_type: AccountType::Asset,
        method: InterpolationMethod::Linear,
        snapshots: vec![BalanceSheetSnapshot { date: Date { year: 2023, month: 12, day: 31 }, value: 10000.0, source: None }],
        is_balancing_account: true,
        noise_factor: 0.0,
    }
}

#[test]
fn test_chart_of_accounts_creation() {
    let config = FinancialHistoryConfig {
        organization_name: "Test Corp".to_string(),
        fiscal_year_end_month: 12,
        balance_sheet: vec![cash_account()],
        income_statement: vec![IncomeStatementAccount {
            name: "Revenue".to_string(),
            account_type: AccountType::Revenue,
            seasonality_profile: SeasonalityProfileId::Flat,
            constraints: vec![PeriodConstraint { period: "2023-01:2023-12".to_string(), value: 100000.0, source: None }],
            noise_factor: 0.0,
        }],
    };

    let chart = ChartOfAccounts::from_config(&config);

    assert_eq!(chart.assets.len(), 1);
    assert_eq!(chart.revenue.len(), 1);
    assert_eq!(chart.total_accounts(), 2);
    assert_eq!(chart.organization_name, "Test Corp");

    let balancing = chart.get_balancing_account();
    assert!(balancing.is_some());
    assert_eq!(balancing.unwrap().name, "Cash");
}

#[test]
fn test_chart_to_markdown() {
    let config = FinancialHistoryConfig {
        organization_name: "Test Corp".to_string(),
        fiscal_year_end_month: 12,
        balance_sheet: vec![cash_account()],
        income_statement: vec![],
    };

    let chart = ChartOfAccounts::from_config(&config);
    let markdown = chart.to_markdown();

    assert!(markdown.contains("# Chart of Accounts - Test Corp"));
    assert!(markdown.contains("Cash"));
    assert!(markdown.contains("[BALANCING]"));
}

#[test]
fn test_chart_to_csv() {
    let config = FinancialHistoryConfig {
        organization_name: "Test Corp".to_string(),
        fiscal_year_end_month: 12,
        balance_sheet: vec![cash_account()],
        income_statement: vec![],
    };

    let chart = ChartOfAccounts::from_config(&config);
    let csv = chart.to_csv();

    assert!(csv.contains("Section,Account Name"));
    assert!(csv.contains("Assets,Cash"));
    assert!(csv.contains("true"));
}

fn named(name: &str, account_type: AccountType, balancing: bool) -> BalanceSheetAccount<f64> {
    BalanceSheetAccount {
        name: name.to_string(),
        category: None,
        account_type,
        method: InterpolationMethod::Step,
        snapshots: vec![],
        is_balancing_account: balancing,
        noise_factor: 0.0,
    }
}

#[test]
fn chart_sections_are_sorted_and_exported_exactly() {
    let config = FinancialHistoryConfig {
        organization_name: "Acme".to_string(),
        fiscal_year_end_month: 6,
        balance_sheet: vec![
            named("Loan", AccountType::Liability, false),
            named("Inventory", AccountType::Asset, false),
            named("Cash", AccountType::Asset, true),
        ],
        income_statement: vec![],
    };
    let chart = ChartOfAccounts::from_config(&config);
    let names: Vec<&str> = chart.assets.iter().map(|e| e.name.as_str()).collect();
    assert_eq!(names, vec!["Cash", "Inventory"]);
    assert_eq!(
        chart.to_csv(),
        "Section,Account Name,Account Type,Is Balancing Account\n\
         Assets,Cash,Asset,true\n\
         Assets,Inventory,Asset,false\n\
         Liabilities,Loan,Liability,false\n"
    );
    let md = chart.to_markdown();
    assert!(md.starts_with("# Chart of Accounts - Acme\n\n**Fiscal Year End:** Month 6\n\n"));
    assert!(md.contains("### Assets\n\n- Cash 🔄 **[BALANCING]**\n- Inventory\n\n"));
    assert!(md.contains("### Liabilities\n\n- Loan\n\n"));
}

#[test]
fn dense_chart_adds_generated_equity_accounts() {
    let config = FinancialHistoryConfig {
        organization_name: "Acme".to_string(),
        fiscal_year_end_month: 12,
        balance_sheet: vec![named("Cash", AccountType::Asset, false)],
        income_statement: vec![],
    };
    let names = vec!["Cash".to_string(), "Balancing Equity Adjustment".to_string()];
    let chart = ChartOfAccounts::from_dense_data(&config, &names);
    assert_eq!(chart.equity.len(), 1);
    assert_eq!(chart.equity[0].name, "Balancing Equity Adjustment");
    assert_eq!(chart.equity[0].account_type, AccountType::Equity);
    assert!(chart.equity[0].is_balancing_account);
    assert_eq!(chart.total_accounts(), 2);
}

#[test]
fn chart_counts_typed_accounts_and_extra_series() {
    let mut odd = cash_account();
    odd.name = "Deferred".to_string();
    odd.account_type = AccountType::Revenue;
    odd.is_balancing_account = false;
    let config = FinancialHistoryConfig {
        organization_name: "Count Co".to_string(),
        fiscal_year_end_month: 12,
        balance_sheet: vec![cash_account(), odd],
        income_statement: vec![IncomeStatementAccount {
            name: "Sales".to_string(),
            account_type: AccountType::Revenue,
            seasonality_profile: SeasonalityProfileId::Flat,
            constraints: vec![],
            noise_factor: 0.0,
        }],
    };
    let names = vec!["Cash".to_string(), "Sales".to_string(), "Owner Equity".to_string()];
    let chart = ChartOfAccounts::from_dense_data(&config, &names);
    // Cash, Sales and the extra series; the balance sheet account typed as
    // revenue has no section.
    assert_eq!(chart.total_accounts(), 3);
}
