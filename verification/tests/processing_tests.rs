use financial_history_builder::date::Date;
use financial_history_builder::error::FinancialHistoryError;
use financial_history_builder::processing::{
    check_config_structure, validate_config_integrity, validate_constraint_periods, validate_financial_history_config,
    ConfigProblem, FinancialHistoryProcessor, ProcessingFailure,
};
use financial_history_builder::schema::{
    AccountType, BalanceSheetAccount, BalanceSheetSnapshot, FinancialHistoryConfig, IncomeStatementAccount,
    InterpolationMethod, PeriodConstraint, SeasonalityProfileId, SourceMetadata,
};

fn src() -> Option<SourceMetadata> {
    Some(SourceMetadata { document_name: "0".to_string(), original_text: None })
}

fn is(name: &str, periods: &[&str]) -> IncomeStatementAccount<f64> {
    IncomeStatementAccount {
        name: name.to_string(),
        account_type: AccountType::Revenue,
        seasonality_profile: SeasonalityProfileId::Flat,
        constraints: periods.iter().map(|p| PeriodConstraint { period: p.to_string(), value: 1.0, source: src() }).collect(),
        noise_factor: 0.0,
    }
}

fn bs(name: &str, with_source: bool) -> BalanceSheetAccount<f64> {
    BalanceSheetAccount {
        name: name.to_string(),
        category: None,
        account_type: AccountType::Asset,
        method: InterpolationMethod::Linear,
        snapshots: vec![BalanceSheetSnapshot {
            date: Date { year: 2023, month: 12, day: 31 },
            value: 1.0,
            source: if with_source { src() } else { None },
        }],
        is_balancing_account: false,
        noise_factor: 0.0,
    }
}

fn config(b: Vec<BalanceSheetAccount<f64>>, i: Vec<IncomeStatementAccount<f64>>) -> FinancialHistoryConfig<f64> {
    FinancialHistoryConfig { organization_name: "P".to_string(), fiscal_year_end_month: 12, balance_sheet: b, income_statement: i }
}

#[test]
fn well_formed_periods_pass() {
    assert_eq!(validate_constraint_periods(&config(vec![], vec![is("Sales", &["2023-01", "2023-01:2023-12"])])), Ok(()));
}

#[test]
fn unreadable_period_is_reported_with_its_position() {
    let r = validate_constraint_periods(&config(vec![], vec![is("Sales", &["2023-01", "2023-1x"])]));
    assert_eq!(
        r,
        Err(FinancialHistoryError::ValidationError {
            account: "Sales".to_string(),
            details: "Constraint #1 has invalid period format '2023-1x': Date calculation error: Invalid date format in period: 2023-1x. Expected YYYY-MM".to_string(),
        })
    );
}

#[test]
fn reversed_period_is_reported() {
    let r = validate_constraint_periods(&config(vec![], vec![is("Ok", &["2023-02"]), is("Sales", &["2023-05:2023-01"])]));
    assert_eq!(
        r,
        Err(FinancialHistoryError::ValidationError {
            account: "Sales".to_string(),
            details: "Constraint #0 period '2023-05:2023-01' results in end_date 2023-01-31 before start_date 2023-05-01.".to_string(),
        })
    );
}

#[test]
fn missing_sources_and_duplicates_are_reported_in_order() {
    let r = check_config_structure(&config(vec![bs("Cash", true), bs("Loan", false)], vec![]));
    assert_eq!(r, Err("Balance Sheet 'Loan' snapshot #0 missing `source`.".to_string()));

    let mut bad_is = is("Sales", &["2023-01"]);
    bad_is.constraints[0].source = None;
    let r = check_config_structure(&config(vec![bs("Cash", true), bs("Cash", true)], vec![bad_is]));
    assert_eq!(r, Err("Income Statement 'Sales' constraint #0 missing `source`.".to_string()));

    let r = check_config_structure(&config(vec![bs("Cash", true), bs("Cash", true)], vec![is("Sales", &["2023-01"])]));
    assert_eq!(r, Err("Duplicate Balance Sheet account detected: 'Cash'. Account names must be unique.".to_string()));

    let r = check_config_structure(&config(vec![bs("Cash", true)], vec![is("Sales", &[]), is("Sales", &[])]));
    assert_eq!(r, Err("Duplicate Income Statement account detected: 'Sales'. Account names must be unique.".to_string()));

    assert_eq!(check_config_structure(&config(vec![bs("Cash", true)], vec![is("Sales", &["2023-01"])])), Ok(()));
}

#[test]
fn error_messages_read_like_the_error() {
    assert_eq!(
        FinancialHistoryError::InvalidFiscalYearEndMonth(13).message(),
        "Invalid fiscal year end month 13: must be between 1 and 12"
    );
    assert_eq!(FinancialHistoryError::DateError("x".to_string()).message(), "Date calculation error: x");
    assert_eq!(FinancialHistoryError::NoAnchors("Cash".to_string()).message(), "No anchors provided for account: Cash");
}

#[test]
fn a_period_in_the_last_november_passes() {
    assert_eq!(validate_constraint_periods(&config(vec![], vec![is("Sales", &["+262142-11"])])), Ok(()));
}

#[test]
fn checks_before_processing_come_in_order() {
    let in_range = |x: f64| !(x < 0.0 || x > 1.0);
    let mut noisy = bs("Cash", true);
    noisy.noise_factor = 2.0;
    let mut c = config(vec![noisy], vec![is("Sales", &["2023-1x"])]);
    assert!(matches!(
        FinancialHistoryProcessor::check_before_processing(&c, &in_range),
        Err(ConfigProblem::Invalid(FinancialHistoryError::ValidationError { .. }))
    ));
    c.income_statement = vec![is("Sales", &["2023-01"])];
    assert!(matches!(
        FinancialHistoryProcessor::check_before_processing(&c, &in_range),
        Err(ConfigProblem::NoiseFactor(x)) if x == 2.0
    ));
    c.balance_sheet[0].noise_factor = 0.5;
    c.fiscal_year_end_month = 13;
    assert!(matches!(
        FinancialHistoryProcessor::check_before_processing(&c, &in_range),
        Err(ConfigProblem::Invalid(FinancialHistoryError::InvalidFiscalYearEndMonth(13)))
    ));
    c.fiscal_year_end_month = 6;
    assert!(FinancialHistoryProcessor::check_before_processing(&c, &in_range).is_ok());
}

#[test]
fn integrity_checks_periods_then_noise() {
    let in_range = |x: f64| !(x < 0.0 || x > 1.0);
    let mut noisy = bs("Cash", true);
    noisy.noise_factor = 2.0;
    let c = config(vec![noisy], vec![]);
    assert!(matches!(validate_config_integrity(&c, &in_range), Err(ConfigProblem::NoiseFactor(x)) if x == 2.0));
    let mut quiet_is = is("Sales", &["2023-01"]);
    quiet_is.noise_factor = -1.0;
    let c = config(vec![bs("Cash", true)], vec![quiet_is]);
    assert!(matches!(validate_config_integrity(&c, &in_range), Err(ConfigProblem::NoiseFactor(x)) if x == -1.0));
    let c = config(vec![bs("Cash", true)], vec![is("Sales", &["2023-01"])]);
    assert!(validate_config_integrity(&c, &in_range).is_ok());
}

#[test]
fn extracted_configuration_is_checked_then_processed() {
    let good = config(vec![bs("Cash", true)], vec![is("Sales", &["2023-01"])]);
    let ok = || Ok(());
    assert_eq!(validate_financial_history_config(&good, &ok), Ok(()));
    let failing = || Err(ProcessingFailure::Equation("off by 3".to_string()));
    assert_eq!(
        validate_financial_history_config(&good, &failing),
        Err("Accounting Equation Violation: off by 3".to_string())
    );
    let broken = || Err(ProcessingFailure::Processing("no data".to_string()));
    assert_eq!(
        validate_financial_history_config(&good, &broken),
        Err("Processing Engine Error: no data".to_string())
    );
    let missing = config(vec![bs("Cash", false)], vec![]);
    assert_eq!(
        validate_financial_history_config(&missing, &broken),
        Err("Balance Sheet 'Cash' snapshot #0 missing `source`.".to_string())
    );
}
