use financial_history_builder::date::Date;
use financial_history_builder::ingestion::{convert_tb_to_config, TrialBalanceRow};
use financial_history_builder::schema::{AccountType, SeasonalityProfileId};

fn row(name: &str, t: AccountType, year: i32, month: u32, day: u32, v: f64) -> TrialBalanceRow<f64> {
    TrialBalanceRow {
        account_name: name.to_string(),
        account_type: t,
        date: Date { year, month, day },
        ytd_value: v,
        source_doc: format!("tb_{}_{}.csv", year, month),
    }
}

#[test]
fn trial_balance_rows_group_into_sorted_accounts() {
    let rows = vec![
        row("Sales", AccountType::Revenue, 2023, 3, 31, 300.0),
        row("Cash", AccountType::Asset, 2023, 3, 31, 50.0),
        row("Bank Loan", AccountType::Liability, 2023, 3, 31, 20.0),
        row("Sales", AccountType::Revenue, 2023, 6, 30, 650.0),
        row("Cash", AccountType::Asset, 2023, 6, 30, 70.0),
        row("Advertising", AccountType::OperatingExpense, 2023, 6, 30, 15.0),
    ];
    let config = convert_tb_to_config(&rows, "TB Co".to_string(), 12, 0.0);
    assert_eq!(config.organization_name, "TB Co");
    assert_eq!(config.fiscal_year_end_month, 12);

    let bs: Vec<&str> = config.balance_sheet.iter().map(|a| a.name.as_str()).collect();
    assert_eq!(bs, vec!["Bank Loan", "Cash"]);
    let cash = &config.balance_sheet[1];
    assert_eq!(cash.account_type, AccountType::Asset);
    assert_eq!(cash.snapshots.len(), 2);
    assert_eq!(cash.snapshots[0].date, Date { year: 2023, month: 3, day: 31 });
    assert_eq!(cash.snapshots[1].value, 70.0);
    assert_eq!(cash.snapshots[1].source.as_ref().unwrap().document_name, "tb_2023_6.csv");
    assert!(!cash.is_balancing_account);

    let is: Vec<&str> = config.income_statement.iter().map(|a| a.name.as_str()).collect();
    assert_eq!(is, vec!["Advertising", "Sales"]);
    let sales = &config.income_statement[1];
    assert!(matches!(sales.seasonality_profile, SeasonalityProfileId::Flat));
    let periods: Vec<&str> = sales.constraints.iter().map(|c| c.period.as_str()).collect();
    assert_eq!(periods, vec!["2023-01:2023-03", "2023-01:2023-06"]);
    assert_eq!(sales.constraints[1].value, 650.0);
}

#[test]
fn a_name_on_both_statements_makes_two_accounts() {
    let rows = vec![row("Misc", AccountType::Equity, 2023, 1, 31, 1.0), row("Misc", AccountType::OtherIncome, 2023, 1, 31, 2.0)];
    let config = convert_tb_to_config(&rows, "X".to_string(), 6, 0.0);
    assert_eq!(config.balance_sheet.len(), 1);
    assert_eq!(config.income_statement.len(), 1);
    assert_eq!(config.income_statement[0].constraints[0].period, "2023-01:2023-01");
}

#[test]
fn first_row_decides_the_account_type() {
    let rows = vec![row("Mixed", AccountType::Liability, 2023, 1, 31, 1.0), row("Mixed", AccountType::Asset, 2023, 2, 28, 2.0)];
    let config = convert_tb_to_config(&rows, "X".to_string(), 12, 0.0);
    assert_eq!(config.balance_sheet.len(), 1);
    assert_eq!(config.balance_sheet[0].account_type, AccountType::Liability);
    assert_eq!(config.balance_sheet[0].snapshots.len(), 2);
}

#[test]
fn no_rows_give_an_empty_configuration() {
    let config = convert_tb_to_config::<f64>(&vec![], "Empty".to_string(), 3, 0.0);
    assert!(config.balance_sheet.is_empty());
    assert!(config.income_statement.is_empty());
}
