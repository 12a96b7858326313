use financial_history_builder::allocation::{balance_month_labels, income_month_labels, MonthLabel};
use financial_history_builder::balancer::{AccountingBalancer, SeriesValues};
use financial_history_builder::date::Date;
use financial_history_builder::engine::{Densifier, IncomePlan};
use financial_history_builder::error::FinancialHistoryError;
use financial_history_builder::schema::{
    AccountType, BalanceSheetAccount, BalanceSheetSnapshot, DataOrigin, FinancialHistoryConfig, IncomeStatementAccount, InterpolationMethod,
    PeriodConstraint, SeasonalityProfileId,
};

fn ymd(year: i32, month: u32, day: u32) -> Date {
    Date { year, month, day }
}

fn revenue(periods: &[(&str, f64)]) -> IncomeStatementAccount<f64> {
    IncomeStatementAccount {
        name: "Revenue".to_string(),
        account_type: AccountType::Revenue,
        seasonality_profile: SeasonalityProfileId::Flat,
        constraints: periods
            .iter()
            .map(|(p, v)| PeriodConstraint { period: p.to_string(), value: *v, source: None })
            .collect(),
        noise_factor: 0.0,
    }
}

#[test]
fn shorter_periods_are_solved_first() {
    let account = revenue(&[("2023-02", 5000.0), ("2023-01:2023-03", 13000.0), ("2023-01:2023-12", 50000.0)]);
    let plan = Densifier::new(12).plan_income_statement(&account).unwrap();
    assert_eq!(plan.months.len(), 12);
    assert_eq!(plan.months[0], ymd(2023, 1, 31));
    assert_eq!(plan.months[1], ymd(2023, 2, 28));
    assert_eq!(plan.months[11], ymd(2023, 12, 31));
    assert_eq!(plan.order, vec![0, 1, 2]);
    assert_eq!(plan.steps.len(), 3);

    let feb = &plan.steps[0];
    assert_eq!(feb.constraint, 0);
    assert!(feb.locked.is_empty());
    assert_eq!(feb.open, vec![1]);
    assert!(feb.single_month);

    let q1 = &plan.steps[1];
    assert_eq!(q1.constraint, 1);
    assert_eq!(q1.locked, vec![1]);
    assert_eq!(q1.open, vec![0, 2]);
    assert!(!q1.single_month);
    assert!(!q1.annual);

    let year = &plan.steps[2];
    assert_eq!(year.locked, vec![0, 1, 2]);
    assert_eq!(year.open, (3..12).collect::<Vec<usize>>());
    assert!(year.annual);
}

#[test]
fn fully_covered_constraints_leave_no_step() {
    let account = revenue(&[("2023-01", 1.0), ("2023-01:2023-01", 2.0)]);
    let plan = Densifier::new(12).plan_income_statement(&account).unwrap();
    assert_eq!(plan.months, vec![ymd(2023, 1, 31)]);
    assert_eq!(plan.steps.len(), 1);
    assert_eq!(plan.steps[0].constraint, 0);
}

#[test]
fn a_period_that_does_not_read_stops_the_plan() {
    let account = revenue(&[("2023-01", 1.0), ("January", 2.0)]);
    let r = Densifier::new(12).plan_income_statement(&account);
    assert!(matches!(r, Err(FinancialHistoryError::DateError(_))));
}

#[test]
fn balance_sheet_plan_anchors_snapshot_months() {
    let account = BalanceSheetAccount {
        name: "Cash".to_string(),
        category: None,
        account_type: AccountType::Asset,
        method: InterpolationMethod::Linear,
        snapshots: vec![
            BalanceSheetSnapshot { date: ymd(2023, 12, 31), value: 200000.0, source: None },
            BalanceSheetSnapshot { date: ymd(2023, 1, 31), value: 100000.0, source: None },
        ],
        is_balancing_account: true,
        noise_factor: 0.0,
    };
    let plan = Densifier::new(12).plan_balance_sheet(&account);
    assert_eq!(plan.order, vec![1, 0]);
    assert_eq!(plan.months.len(), 12);
    assert_eq!(plan.anchors[0], Some(1));
    assert_eq!(plan.anchors[11], Some(0));
    assert!(plan.anchors[1..11].iter().all(|a| a.is_none()));
}

#[test]
fn balance_sheet_plan_of_no_snapshots_is_empty() {
    let account: BalanceSheetAccount<f64> = BalanceSheetAccount {
        name: "Empty".to_string(),
        category: None,
        account_type: AccountType::Asset,
        method: InterpolationMethod::Step,
        snapshots: vec![],
        is_balancing_account: false,
        noise_factor: 0.0,
    };
    let plan = Densifier::new(12).plan_balance_sheet(&account);
    assert!(plan.order.is_empty() && plan.months.is_empty() && plan.anchors.is_empty());
}

fn densify_flat(account: &IncomeStatementAccount<f64>) -> (IncomePlan, Vec<f64>) {
    densify_with_noise(account, &|v: f64| v)
}

fn densify_with_noise(account: &IncomeStatementAccount<f64>, perturb: &dyn Fn(f64) -> f64) -> (IncomePlan, Vec<f64>) {
    let calendar = vec![1.0 / 12.0; 12];
    Densifier::new(12)
        .densify_income_statement(
            account,
            &calendar,
            &|a: f64, b: f64| a + b,
            &|a: f64, b: f64| a - b,
            &|a: f64, b: f64| a * b,
            &|a: f64, b: f64| a / b,
            &|a: f64| a == 0.0,
            &|n: usize| 1.0 / n as f64,
            &|v: f64| perturb(v),
            0.0,
        )
        .unwrap()
}

fn value_at(plan: &IncomePlan, values: &[f64], d: Date) -> f64 {
    let k = plan.months.iter().position(|m| *m == d).unwrap();
    values[k]
}

fn period_range(start_year: i32, start_month: u32, end_year: i32, end_month: u32) -> String {
    if start_year == end_year && start_month == end_month {
        format!("{:04}-{:02}", start_year, start_month)
    } else {
        format!("{:04}-{:02}:{:04}-{:02}", start_year, start_month, end_year, end_month)
    }
}

#[test]
fn test_hierarchical_constraint_solving() {
    let account = revenue(&[("2023-02", 5000.0), ("2023-01:2023-03", 13000.0), ("2023-01:2023-12", 50000.0)]);
    let (plan, values) = densify_flat(&account);

    let feb_val = value_at(&plan, &values, ymd(2023, 2, 28));
    assert!((feb_val - 5000.0).abs() < 0.01, "Feb should be exactly 5000");

    let jan_val = value_at(&plan, &values, ymd(2023, 1, 31));
    let mar_val = value_at(&plan, &values, ymd(2023, 3, 31));
    let q1_sum = jan_val + feb_val + mar_val;
    assert!((q1_sum - 13000.0).abs() < 0.01, "Q1 should sum to 13000, got {}", q1_sum);

    let year_sum: f64 = values.iter().sum();
    assert!((year_sum - 50000.0).abs() < 0.01, "Year should sum to 50000, got {}", year_sum);

    let apr_dec_sum: f64 = plan.months.iter().zip(values.iter()).filter(|(d, _)| d.month >= 4).map(|(_, v)| *v).sum();
    let expected_apr_dec = 50000.0 - 13000.0;
    assert!((apr_dec_sum - expected_apr_dec).abs() < 0.01, "Apr-Dec should be 37000, got {}", apr_dec_sum);
}

#[test]
fn lib_test_hierarchical_constraints() {
    let account = revenue(&[("2023-02", 5000.0), ("2023-01:2023-03", 13000.0), ("2023-01:2023-12", 50000.0)]);
    let (plan, values) = densify_flat(&account);
    assert_eq!(values.len(), plan.months.len());

    let total: f64 = values.iter().sum();
    assert!((total - 50000.0).abs() < 0.01, "Total should be 50000, got {}", total);

    let feb = value_at(&plan, &values, ymd(2023, 2, 28));
    assert!((feb - 5000.0).abs() < 0.01, "Feb should be 5000, got {}", feb);
}

#[test]
fn integration_tests_test_hierarchical_constraints() {
    let mut account = revenue(&[]);
    account.name = "Sales".to_string();
    account.constraints = vec![
        PeriodConstraint { period: period_range(2023, 1, 2023, 1), value: 10_000.0, source: None },
        PeriodConstraint { period: period_range(2023, 2, 2023, 2), value: 0.0, source: None },
        PeriodConstraint { period: period_range(2023, 1, 2023, 3), value: 25_000.0, source: None },
    ];
    let (plan, values) = densify_flat(&account);

    let jan = value_at(&plan, &values, ymd(2023, 1, 31));
    assert!((jan - 10_000.0).abs() < 0.01, "Jan should be $10k, got {}", jan);

    let feb = value_at(&plan, &values, ymd(2023, 2, 28));
    assert_eq!(feb, 0.0, "Feb should be exactly $0");

    let mar = value_at(&plan, &values, ymd(2023, 3, 31));
    assert!((mar - 15_000.0).abs() < 0.01, "Mar should be $15k, got {}", mar);
}

#[test]
fn test_quarterly_constraints() {
    let mut account = revenue(&[]);
    account.name = "Sales A".to_string();
    account.constraints = vec![
        PeriodConstraint { period: period_range(2023, 1, 2023, 6), value: 50_000.0, source: None },
        PeriodConstraint { period: period_range(2023, 7, 2023, 9), value: 15_000.0, source: None },
    ];
    let (plan, values) = densify_flat(&account);

    let jul = value_at(&plan, &values, ymd(2023, 7, 31));
    let aug = value_at(&plan, &values, ymd(2023, 8, 31));
    let sep = value_at(&plan, &values, ymd(2023, 9, 30));
    assert!((jul - 5000.0).abs() < 0.1, "Jul should be ~$5k, got {}", jul);
    assert!((aug - 5000.0).abs() < 0.1, "Aug should be ~$5k, got {}", aug);
    assert!((sep - 5000.0).abs() < 0.1, "Sep should be ~$5k, got {}", sep);
}

#[test]
fn noisy_shares_are_rescaled_to_the_constraint() {
    let account = revenue(&[("2023-01:2023-04", 1000.0)]);
    // A deterministic perturbation that doubles the first share it sees.
    let seen = std::cell::Cell::new(false);
    let perturb = |v: f64| {
        if seen.get() {
            v
        } else {
            seen.set(true);
            v * 2.0
        }
    };
    let (_plan, values) = densify_with_noise(&account, &perturb);
    assert_eq!(values.len(), 4);
    let total: f64 = values.iter().sum();
    assert!((total - 1000.0).abs() < 1e-9);
    assert!((values[0] - 400.0).abs() < 1e-9);
    assert!((values[1] - 200.0).abs() < 1e-9);
}

#[test]
fn exact_fixed_point_allocation() {
    // Amounts in thousandths, so that shares of a period come out exact.
    let account = IncomeStatementAccount {
        name: "Revenue".to_string(),
        account_type: AccountType::Revenue,
        seasonality_profile: SeasonalityProfileId::Flat,
        constraints: vec![
            PeriodConstraint { period: "2023-02".to_string(), value: 500_000i64, source: None },
            PeriodConstraint { period: "2023-01:2023-03".to_string(), value: 1_300_000i64, source: None },
        ],
        noise_factor: 0i64,
    };
    let calendar = vec![1000i64; 12];
    let (plan, values) = Densifier::new(12)
        .densify_income_statement(
            &account,
            &calendar,
            &|a: i64, b: i64| a + b,
            &|a: i64, b: i64| a - b,
            &|a: i64, b: i64| a * b / 1000,
            &|a: i64, b: i64| if b == 0 { 0 } else { a * 1000 / b },
            &|a: i64| a == 0,
            &|n: usize| 1000 / n as i64,
            &|v: i64| v,
            0i64,
        )
        .unwrap();
    assert_eq!(plan.months.len(), 3);
    // February alone takes its figure; January and March share what is left.
    assert_eq!(values, vec![400_000, 500_000, 400_000]);
}

#[test]
fn densify_reports_a_bad_period() {
    let account = revenue(&[("2023-13", 1.0)]);
    let calendar = vec![1.0; 12];
    let r = Densifier::new(12).densify_income_statement(
        &account,
        &calendar,
        &|a: f64, b: f64| a + b,
        &|a: f64, b: f64| a - b,
        &|a: f64, b: f64| a * b,
        &|a: f64, b: f64| a / b,
        &|a: f64| a == 0.0,
        &|n: usize| 1.0 / n as f64,
        &|v: f64| v,
        0.0,
    );
    assert!(matches!(r, Err(FinancialHistoryError::DateError(_))));
}

fn bs_account(name: &str, t: AccountType, method: InterpolationMethod, snaps: &[(Date, f64)], balancing: bool) -> BalanceSheetAccount<f64> {
    BalanceSheetAccount {
        name: name.to_string(),
        category: None,
        account_type: t,
        method,
        snapshots: snaps.iter().map(|(d, v)| BalanceSheetSnapshot { date: *d, value: *v, source: None }).collect(),
        is_balancing_account: balancing,
        noise_factor: 0.0,
    }
}

/// The months of a balance sheet plan with the anchored ones set to their
/// snapshot values (the others left out).
fn anchored_points(account: &BalanceSheetAccount<f64>) -> Vec<(Date, f64)> {
    let plan = Densifier::new(12).plan_balance_sheet(account);
    plan.months
        .iter()
        .zip(plan.anchors.iter())
        .filter_map(|(m, a)| a.map(|i| (*m, account.snapshots[i].value)))
        .collect()
}

#[test]
fn test_balance_sheet_interpolation() {
    let account = bs_account(
        "Cash",
        AccountType::Asset,
        InterpolationMethod::Linear,
        &[(ymd(2023, 1, 31), 100000.0), (ymd(2023, 12, 31), 200000.0)],
        false,
    );
    let densifier = Densifier::new(12);
    // The months between snapshots are interpolated by the caller; a straight
    // line over the month index stands in for it here.
    let line = |d: Date| 100000.0 + (d.month as f64 - 1.0) * 100000.0 / 11.0;
    let (plan, series) = densifier.densify_balance_sheet(&account, &line);

    assert_eq!(series.len(), 12);
    assert_eq!(plan.months[0], ymd(2023, 1, 31));
    assert_eq!(plan.months[11], ymd(2023, 12, 31));

    let first = series[0];
    assert!((first - 100000.0).abs() < 0.01);

    let last = series[11];
    assert!((last - 200000.0).abs() < 0.01);
}

#[test]
fn test_process_config() {
    let cash = bs_account(
        "Cash",
        AccountType::Asset,
        InterpolationMethod::Linear,
        &[(ymd(2023, 1, 31), 50000.0), (ymd(2023, 12, 31), 75000.0)],
        true,
    );
    let (_cash_plan, cash_values) = Densifier::new(12).densify_balance_sheet(&cash, &|_d: Date| 60000.0);
    assert!(!cash_values.is_empty());

    let account = revenue(&[("2023-01:2023-12", 120000.0)]);
    let (plan, values) = densify_flat(&account);
    assert!(!plan.months.is_empty());
    let revenue_sum: f64 = values.iter().sum();
    assert!((revenue_sum - 120000.0).abs() < 0.01);
}

#[test]
fn test_revenue_flow_account() {
    let mut account = revenue(&[("2023-01:2023-12", 1_200_000.0)]);
    account.name = "Sales".to_string();
    account.seasonality_profile = SeasonalityProfileId::RetailPeak;
    let retail_peak = vec![0.045, 0.045, 0.045, 0.055, 0.055, 0.060, 0.065, 0.070, 0.075, 0.080, 0.105, 0.300];
    let densifier = Densifier::new(12);
    let calendar = densifier.get_calendar_weights(&SeasonalityProfileId::RetailPeak, &retail_peak);
    let (plan, sales) = densifier
        .densify_income_statement(
            &account,
            &calendar,
            &|a: f64, b: f64| a + b,
            &|a: f64, b: f64| a - b,
            &|a: f64, b: f64| a * b,
            &|a: f64, b: f64| a / b,
            &|a: f64| a == 0.0,
            &|n: usize| 1.0 / n as f64,
            &|v: f64| v,
            0.0,
        )
        .unwrap();

    let total: f64 = sales.iter().sum();
    assert!((total - 1_200_000.0).abs() < 0.01);

    assert_eq!(sales.len(), 12);
    assert_eq!(plan.months.len(), 12);
    assert!(sales[11] > 0.25 * 1_200_000.0);
}

#[test]
fn test_retained_earnings_integrity_check() {
    let cash = bs_account(
        "Cash",
        AccountType::Asset,
        InterpolationMethod::Linear,
        &[(ymd(2023, 1, 31), 100_000.0), (ymd(2023, 2, 28), 100_000.0)],
        true,
    );
    let retained = bs_account(
        "Retained Earnings",
        AccountType::Equity,
        InterpolationMethod::Step,
        &[(ymd(2023, 1, 31), 500_000.0), (ymd(2023, 2, 28), 500_000.0)],
        false,
    );
    let mut sales = revenue(&[("2023-02", 100_000.0)]);
    sales.name = "Revenue".to_string();
    let (plan, values) = densify_flat(&sales);

    let mut dense = vec![
        SeriesValues { name: "Cash".to_string(), points: anchored_points(&cash) },
        SeriesValues { name: "Retained Earnings".to_string(), points: anchored_points(&retained) },
        SeriesValues { name: "Revenue".to_string(), points: plan.months.iter().copied().zip(values.iter().copied()).collect() },
    ];
    let config = FinancialHistoryConfig {
        organization_name: "Integrity Check Co".to_string(),
        fiscal_year_end_month: 12,
        balance_sheet: vec![cash, retained],
        income_statement: vec![sales],
    };
    let balancer = AccountingBalancer::new(&config);
    let add = |a: f64, b: f64| a + b;
    let sub = |a: f64, b: f64| a - b;
    balancer.enforce_accounting_equation(&mut dense, &add, &sub, 0.0);
    let exceeds = |change: f64, income: f64| (change - income).abs() > 1.0;
    let warnings = balancer.check_retained_earnings_rollforward(&dense, &add, &sub, &exceeds, 0.0);

    assert!(
        warnings.iter().any(|(d, change, income)| *d == ymd(2023, 2, 28) && *change == 0.0 && *income == 100_000.0),
        "Expected retained earnings roll-forward warning"
    );
}

#[test]
fn balance_sheet_months_take_snapshots_or_interpolation() {
    let account = bs_account(
        "Loan",
        AccountType::Liability,
        InterpolationMethod::Linear,
        &[(ymd(2023, 4, 30), 400.0), (ymd(2023, 1, 31), 100.0)],
        false,
    );
    // Stand-in interpolation: the month number.
    let (plan, values) = Densifier::new(12).densify_balance_sheet(&account, &|d: Date| d.month as f64);
    assert_eq!(plan.months.len(), 4);
    assert_eq!(values, vec![100.0, 2.0, 3.0, 400.0]);
}

#[test]
fn plans_at_the_end_of_the_range() {
    let account = revenue(&[("+262142-11:+262142-10", 1.0)]);
    let plan = Densifier::new(12).plan_income_statement(&account).unwrap();
    assert!(plan.months.is_empty());
    assert!(plan.steps.is_empty());

    let account = revenue(&[("+262142-10", 5.0), ("+262142-11:+262142-10", 1.0)]);
    let (plan, values) = densify_flat(&account);
    assert_eq!(plan.months, vec![ymd(262142, 10, 31)]);
    assert_eq!(plan.steps.len(), 1);
    assert!(plan.steps[0].single_month);
    assert_eq!(values, vec![5.0]);

    let account = revenue(&[("+262142-11", 1.0)]);
    assert!(matches!(
        Densifier::new(12).plan_income_statement(&account),
        Err(FinancialHistoryError::DateError(_))
    ));
}

#[test]
fn balance_sheet_snapshots_in_the_last_november() {
    let account = bs_account(
        "Cash",
        AccountType::Asset,
        InterpolationMethod::Linear,
        &[(ymd(262142, 10, 31), 7.0), (ymd(262142, 11, 15), 9.0)],
        false,
    );
    let (plan, values) = Densifier::new(12).densify_balance_sheet(&account, &|_d: Date| 0.0);
    assert_eq!(plan.months, vec![ymd(262142, 10, 31)]);
    assert_eq!(values, vec![7.0]);
}

#[test]
fn custom_weights_start_after_the_fiscal_year_end() {
    let weights: Vec<u32> = (1..=12).collect();
    let densifier = Densifier::new(6);
    let calendar = densifier.get_calendar_weights(&SeasonalityProfileId::Custom(weights.clone()), &weights);
    // July, the first month of the fiscal year, takes the first weight.
    assert_eq!(calendar, vec![7, 8, 9, 10, 11, 12, 1, 2, 3, 4, 5, 6]);
    let calendar = densifier.get_calendar_weights(&SeasonalityProfileId::SummerHigh, &weights);
    assert_eq!(calendar, weights);
}

#[test]
fn months_are_labelled_by_the_step_that_fills_them() {
    let account = revenue(&[("2023-02", 5000.0), ("2023-01:2023-03", 13000.0), ("2023-06", 1.0)]);
    let plan = Densifier::new(12).plan_income_statement(&account).unwrap();
    let labels = income_month_labels(&plan);
    assert_eq!(labels.len(), 6);
    assert_eq!(labels[1], MonthLabel { origin: DataOrigin::Anchor, source: Some(0) });
    assert_eq!(labels[0], MonthLabel { origin: DataOrigin::Allocated, source: Some(1) });
    assert_eq!(labels[2], MonthLabel { origin: DataOrigin::Allocated, source: Some(1) });
    assert_eq!(labels[3], MonthLabel { origin: DataOrigin::Interpolated, source: None });
    assert_eq!(labels[5], MonthLabel { origin: DataOrigin::Anchor, source: Some(2) });

    let cash = bs_account(
        "Cash",
        AccountType::Asset,
        InterpolationMethod::Linear,
        &[(ymd(2023, 1, 31), 1.0), (ymd(2023, 3, 31), 3.0)],
        false,
    );
    let bs_plan = Densifier::new(12).plan_balance_sheet(&cash);
    let labels = balance_month_labels(&bs_plan);
    assert_eq!(labels[0], MonthLabel { origin: DataOrigin::Anchor, source: Some(0) });
    assert_eq!(labels[1], MonthLabel { origin: DataOrigin::Interpolated, source: None });
}

#[test]
fn annual_label_follows_days_of_the_year() {
    let account = revenue(&[("2022-01:2023-03", 1.0), ("2023-01:2023-12", 1.0), ("2023-07:2024-03", 1.0)]);
    let plan = Densifier::new(12).plan_income_statement(&account).unwrap();
    let step = |c: usize| plan.steps.iter().find(|s| s.constraint == c).unwrap();
    // January 1st to March 31st: 89 days of the year apart.
    assert!(!step(0).annual);
    assert!(step(1).annual);
    // The last day comes earlier in the year than the first: the difference wraps.
    assert!(step(2).annual);
}

#[test]
fn exact_integer_step_meets_its_constraint() {
    let account = IncomeStatementAccount {
        name: "Revenue".to_string(),
        account_type: AccountType::Revenue,
        seasonality_profile: SeasonalityProfileId::Flat,
        constraints: vec![
            PeriodConstraint { period: "2023-02".to_string(), value: 4i64, source: None },
            PeriodConstraint { period: "2023-01:2023-03".to_string(), value: 10i64, source: None },
        ],
        noise_factor: 0i64,
    };
    let mut calendar = vec![0i64; 12];
    calendar[0] = 3;
    calendar[1] = 1;
    let (_plan, values) = Densifier::new(12)
        .densify_income_statement(
            &account,
            &calendar,
            &|a: i64, b: i64| a + b,
            &|a: i64, b: i64| a - b,
            &|a: i64, b: i64| a * b,
            &|a: i64, b: i64| if b == 0 { 0 } else { a / b },
            &|a: i64| a == 0,
            &|_n: usize| 1i64,
            &|v: i64| v,
            0i64,
        )
        .unwrap();
    // February keeps 4; January (weight 3) takes the 6 left, March (weight 0) none.
    assert_eq!(values, vec![6, 4, 0]);
    assert_eq!(values.iter().sum::<i64>(), 10);
}
