use financial_history_builder::balancer::{collect_all_dates, net_income_sign, AccountingBalancer, SeriesValues};
use financial_history_builder::date::Date;
use financial_history_builder::schema::{
    AccountType, BalanceSheetAccount, BalanceSheetSnapshot, FinancialHistoryConfig, IncomeStatementAccount, InterpolationMethod,
    SeasonalityProfileId,
};

fn acc(name: &str, t: AccountType, balancing: bool) -> BalanceSheetAccount<f64> {
    BalanceSheetAccount {
        name: name.to_string(),
        category: None,
        account_type: t,
        method: InterpolationMethod::Linear,
        snapshots: vec![],
        is_balancing_account: balancing,
        noise_factor: 0.0,
    }
}

fn config(accounts: Vec<BalanceSheetAccount<f64>>) -> FinancialHistoryConfig<f64> {
    FinancialHistoryConfig {
        organization_name: "Test Corp".to_string(),
        fiscal_year_end_month: 12,
        balance_sheet: accounts,
        income_statement: vec![],
    }
}

#[test]
fn designated_balancing_account_wins() {
    let c = config(vec![
        acc("Retained Earnings", AccountType::Equity, false),
        acc("Cash at Bank", AccountType::Asset, true),
    ]);
    let b = AccountingBalancer::new(&c);
    assert_eq!(b.find_or_create_plug_account(&vec![]), "Cash at Bank");
    assert_eq!(b.get_account_type("Cash at Bank"), AccountType::Asset);
}

#[test]
fn plug_account_fallbacks_in_order() {
    let c = config(vec![acc("Share Capital", AccountType::Equity, false), acc("Retained Earnings", AccountType::Equity, false)]);
    assert_eq!(AccountingBalancer::new(&c).find_or_create_plug_account(&vec![]), "Retained Earnings");

    let c = config(vec![acc("Cash", AccountType::Asset, false), acc("Share Capital", AccountType::Equity, false)]);
    assert_eq!(AccountingBalancer::new(&c).find_or_create_plug_account(&vec![]), "Share Capital");

    let c = config(vec![acc("Cash", AccountType::Asset, false)]);
    let names = vec!["Cash".to_string(), "Owner EQUITY".to_string()];
    assert_eq!(AccountingBalancer::new(&c).find_or_create_plug_account(&names), "Owner EQUITY");
    assert_eq!(AccountingBalancer::new(&c).find_or_create_plug_account(&vec!["Cash".to_string()]), "Balancing Equity Adjustment");
}

#[test]
fn unknown_accounts_count_as_equity() {
    let c = config(vec![acc("Cash", AccountType::Asset, false), acc("Loan", AccountType::Liability, false)]);
    let b = AccountingBalancer::new(&c);
    assert_eq!(b.get_account_type("Anything"), AccountType::Equity);
    assert_eq!(b.balance_bucket("Cash", "Plug"), Some(AccountType::Asset));
    assert_eq!(b.balance_bucket("Loan", "Plug"), Some(AccountType::Liability));
    assert_eq!(b.balance_bucket("Plug", "Plug"), None);
    assert_eq!(b.balance_bucket("Paid-in Capital", "Plug"), Some(AccountType::Equity));
    assert_eq!(b.balance_bucket("Revenue", "Plug"), None);
}

#[test]
fn retained_earnings_is_found_by_name() {
    let c = config(vec![acc("Cash", AccountType::Asset, false), acc("RETAINED EARNINGS (prior)", AccountType::Equity, false)]);
    assert_eq!(AccountingBalancer::new(&c).retained_earnings_account(), Some(1));
    let c = config(vec![acc("Cash", AccountType::Asset, false)]);
    assert_eq!(AccountingBalancer::new(&c).retained_earnings_account(), None);
}

#[test]
fn net_income_signs() {
    assert_eq!(net_income_sign(AccountType::Revenue), 1);
    assert_eq!(net_income_sign(AccountType::OtherIncome), 1);
    assert_eq!(net_income_sign(AccountType::IncomeTax), -1);
    assert_eq!(net_income_sign(AccountType::CostOfSales), -1);
    assert_eq!(net_income_sign(AccountType::Equity), 0);
}

#[test]
fn all_dates_are_collected_once_in_order() {
    let d = |y: i32, m: u32, day: u32| Date { year: y, month: m, day };
    let series = vec![vec![d(2023, 3, 31), d(2023, 1, 31)], vec![d(2023, 2, 28), d(2023, 3, 31)], vec![]];
    assert_eq!(collect_all_dates(&series), vec![d(2023, 1, 31), d(2023, 2, 28), d(2023, 3, 31)]);
}

fn series(name: &str, points: &[((i32, u32, u32), f64)]) -> SeriesValues<f64> {
    SeriesValues {
        name: name.to_string(),
        points: points.iter().map(|((y, m, d), v)| (Date { year: *y, month: *m, day: *d }, *v)).collect(),
    }
}

fn add(a: f64, b: f64) -> f64 {
    a + b
}

fn sub(a: f64, b: f64) -> f64 {
    a - b
}

#[test]
fn plug_figures_balance_each_date() {
    let c = config(vec![
        acc("Cash", AccountType::Asset, true),
        acc("Loan", AccountType::Liability, false),
        acc("Retained Earnings", AccountType::Equity, false),
    ]);
    let mut dense = vec![
        series("Cash", &[((2023, 1, 31), 1.0)]),
        series("Loan", &[((2023, 1, 31), 3000.0), ((2023, 2, 28), 2000.0)]),
        series("Retained Earnings", &[((2023, 1, 31), 10000.0), ((2023, 2, 28), 10500.0)]),
    ];
    let b = AccountingBalancer::new(&c);
    let figures = b.enforce_accounting_equation(&mut dense, &add, &sub, 0.0);
    assert_eq!(figures.plug_account, "Cash");
    assert_eq!(figures.rows.len(), 2);
    assert_eq!(figures.rows[0].date, Date { year: 2023, month: 1, day: 31 });
    assert_eq!(figures.rows[0].assets, 0.0);
    assert_eq!(figures.rows[0].plug, 13000.0);
    assert_eq!(figures.rows[1].plug, 12500.0);
}

#[test]
fn equity_plug_takes_the_difference() {
    let c = config(vec![acc("Cash", AccountType::Asset, false), acc("Loan", AccountType::Liability, false)]);
    let mut dense = vec![series("Cash", &[((2023, 1, 31), 10000.0)]), series("Loan", &[((2023, 1, 31), 4000.0)])];
    let figures = AccountingBalancer::new(&c).enforce_accounting_equation(&mut dense, &add, &sub, 0.0);
    assert_eq!(figures.plug_account, "Balancing Equity Adjustment");
    assert_eq!(figures.rows[0].plug, 6000.0);
}

#[test]
fn verification_reports_the_first_unbalanced_date() {
    let c = config(vec![acc("Cash", AccountType::Asset, false), acc("Loan", AccountType::Liability, false)]);
    let dense = vec![
        series("Cash", &[((2023, 1, 31), 10000.0), ((2023, 2, 28), 10000.0)]),
        series("Loan", &[((2023, 1, 31), 10000.0), ((2023, 2, 28), 3000.0)]),
    ];
    let exceeds = |a: f64, b: f64| (a - b).abs() > 10.0;
    let r = AccountingBalancer::new(&c).verify_accounting_equation(&dense, &add, &exceeds, 0.0);
    assert_eq!(r, Some((Date { year: 2023, month: 2, day: 28 }, 10000.0, 3000.0, 0.0)));
}

#[test]
fn net_income_is_income_minus_expenses() {
    let mut c = config(vec![]);
    for (name, t) in [("Sales", AccountType::Revenue), ("Rent", AccountType::OperatingExpense), ("Tax", AccountType::IncomeTax)] {
        c.income_statement.push(IncomeStatementAccount {
            name: name.to_string(),
            account_type: t,
            seasonality_profile: SeasonalityProfileId::Flat,
            constraints: vec![],
            noise_factor: 0.0,
        });
    }
    let dense = vec![
        series("Sales", &[((2023, 1, 31), 100.0)]),
        series("Rent", &[((2023, 1, 31), 30.0)]),
        series("Tax", &[((2023, 1, 31), 5.0)]),
    ];
    let ni = AccountingBalancer::new(&c).calculate_net_income(&dense, Date { year: 2023, month: 1, day: 31 }, &add, &sub, 0.0);
    assert_eq!(ni, 65.0);
}

#[test]
fn retained_earnings_must_follow_net_income() {
    let mut c = config(vec![acc("Retained Earnings", AccountType::Equity, false)]);
    c.income_statement.push(IncomeStatementAccount {
        name: "Revenue".to_string(),
        account_type: AccountType::Revenue,
        seasonality_profile: SeasonalityProfileId::Flat,
        constraints: vec![],
        noise_factor: 0.0,
    });
    let dense = vec![
        series("Retained Earnings", &[((2023, 3, 31), 120.0), ((2023, 1, 31), 100.0), ((2023, 2, 28), 110.0)]),
        series("Revenue", &[((2023, 2, 28), 10.0), ((2023, 3, 31), 500.0)]),
    ];
    let exceeds = |a: f64, b: f64| (a - b).abs() > 1.0;
    let r = AccountingBalancer::new(&c).check_retained_earnings_rollforward(&dense, &add, &sub, &exceeds, 0.0);
    assert_eq!(r, vec![(Date { year: 2023, month: 3, day: 31 }, 10.0, 500.0)]);
}

fn snapshot_account(name: &str, t: AccountType, value: Option<f64>) -> BalanceSheetAccount<f64> {
    let mut a = acc(name, t, false);
    if let Some(v) = value {
        a.snapshots.push(BalanceSheetSnapshot {
            date: Date { year: 2023, month: 12, day: 31 },
            value: v,
            source: None,
        });
    }
    a
}

#[test]
fn test_enforce_accounting_equation() {
    let c = config(vec![
        snapshot_account("Cash", AccountType::Asset, Some(10000.0)),
        snapshot_account("Loan", AccountType::Liability, Some(5000.0)),
        snapshot_account("Retained Earnings", AccountType::Equity, None),
    ]);
    let mut dense = vec![
        series("Cash", &[((2023, 12, 31), 10000.0)]),
        series("Loan", &[((2023, 12, 31), 5000.0)]),
    ];
    let b = AccountingBalancer::new(&c);
    let figures = b.enforce_accounting_equation(&mut dense, &add, &sub, 0.0);
    let exceeds_re = |change: f64, income: f64| (change - income).abs() > 1.0;
    let warnings = b.check_retained_earnings_rollforward(&dense, &add, &sub, &exceeds_re, 0.0);
    assert!(warnings.is_empty());
    assert_eq!(figures.plug_account, "Retained Earnings");

    let exceeds = |left: f64, right: f64| (left - right).abs() > 0.01;
    let result = b.verify_accounting_equation(&dense, &add, &exceeds, 0.0);
    assert!(result.is_none());
}

#[test]
fn test_accounting_equation_violation() {
    let c = config(vec![acc("Cash", AccountType::Asset, false), acc("Loan", AccountType::Liability, false)]);
    let dense = vec![series("Cash", &[((2023, 12, 31), 10000.0)]), series("Loan", &[((2023, 12, 31), 3000.0)])];
    let exceeds = |left: f64, right: f64| (left - right).abs() > 0.01;
    let result = AccountingBalancer::new(&c).verify_accounting_equation(&dense, &add, &exceeds, 0.0);
    assert!(result.is_some());
}

#[test]
fn enforced_series_pass_the_check_with_integers() {
    let mut c = config(vec![
        acc("Cash", AccountType::Asset, true),
        acc("Receivables", AccountType::Asset, false),
        acc("Loan", AccountType::Liability, false),
        acc("Share Capital", AccountType::Equity, false),
    ]);
    c.balance_sheet.push(BalanceSheetAccount {
        name: "Revenue Accrual".to_string(),
        category: None,
        account_type: AccountType::Liability,
        method: InterpolationMethod::Step,
        snapshots: vec![],
        is_balancing_account: false,
        noise_factor: 0.0,
    });
    let config_i: FinancialHistoryConfig<i64> = FinancialHistoryConfig {
        organization_name: c.organization_name.clone(),
        fiscal_year_end_month: 12,
        balance_sheet: c
            .balance_sheet
            .iter()
            .map(|a| BalanceSheetAccount {
                name: a.name.clone(),
                category: None,
                account_type: a.account_type,
                method: a.method,
                snapshots: vec![],
                is_balancing_account: a.is_balancing_account,
                noise_factor: 0,
            })
            .collect(),
        income_statement: vec![],
    };
    let pts = |v: &[((i32, u32, u32), i64)]| -> Vec<(Date, i64)> {
        v.iter().map(|((y, m, d), x)| (Date { year: *y, month: *m, day: *d }, *x)).collect()
    };
    let mut dense = vec![
        SeriesValues { name: "Cash".to_string(), points: pts(&[((2023, 1, 31), 7)]) },
        SeriesValues { name: "Receivables".to_string(), points: pts(&[((2023, 1, 31), 300), ((2023, 2, 28), 450)]) },
        SeriesValues { name: "Loan".to_string(), points: pts(&[((2023, 2, 28), 1000)]) },
        SeriesValues { name: "Share Capital".to_string(), points: pts(&[((2023, 1, 31), 200), ((2023, 3, 31), 200)]) },
    ];
    let b = AccountingBalancer::new(&config_i);
    let figures = b.enforce_accounting_equation(&mut dense, &|a: i64, b: i64| a + b, &|a: i64, b: i64| a - b, 0);
    assert_eq!(figures.plug_account, "Cash");
    let cash: Vec<i64> = dense[0].points.iter().map(|p| p.1).collect();
    assert_eq!(cash, vec![-100, 550, 200]);
    let r = b.verify_accounting_equation(&dense, &|a: i64, b: i64| a + b, &|l: i64, r: i64| l != r, 0);
    assert_eq!(r, None);
}

#[test]
fn a_missing_plug_account_is_added() {
    let c = config(vec![acc("Cash", AccountType::Asset, false), acc("Loan", AccountType::Liability, false)]);
    let mut dense = vec![series("Cash", &[((2023, 1, 31), 10000.0)]), series("Loan", &[((2023, 1, 31), 4000.0)])];
    let b = AccountingBalancer::new(&c);
    let figures = b.enforce_accounting_equation(&mut dense, &add, &sub, 0.0);
    assert_eq!(dense.len(), 3);
    assert_eq!(dense[2].name, figures.plug_account);
    assert_eq!(dense[2].points, vec![(Date { year: 2023, month: 1, day: 31 }, 6000.0)]);
    let exceeds = |left: f64, right: f64| left != right;
    assert!(b.verify_accounting_equation(&dense, &add, &exceeds, 0.0).is_none());
}
