use financial_history_builder::date::{
    fiscal_year_start, get_fiscal_month_index, get_fiscal_year_end_date, get_fiscal_year_end_for_date,
    get_month_ends_in_period, last_day_of_month, months_between, next_month_end, parse_period_string, prev_month_end,
    push_date, validate_fiscal_year_end_month, Date,
};
use financial_history_builder::error::FinancialHistoryError;

fn ymd(year: i32, month: u32, day: u32) -> Date {
    Date { year, month, day }
}

#[test]
fn test_next_month_end() {
    let date = ymd(2023, 1, 31);
    let next = next_month_end(date);
    assert_eq!(next, ymd(2023, 2, 28));

    let date = ymd(2023, 12, 31);
    let next = next_month_end(date);
    assert_eq!(next, ymd(2024, 1, 31));
}

#[test]
fn test_prev_month_end() {
    let date = ymd(2023, 2, 28);
    let prev = prev_month_end(date);
    assert_eq!(prev, ymd(2023, 1, 31));

    let date = ymd(2023, 1, 31);
    let prev = prev_month_end(date);
    assert_eq!(prev, ymd(2022, 12, 31));
}

#[test]
fn test_last_day_of_month() {
    assert_eq!(last_day_of_month(2023, 2), ymd(2023, 2, 28));
    assert_eq!(last_day_of_month(2024, 2), ymd(2024, 2, 29));
    assert_eq!(last_day_of_month(2023, 4), ymd(2023, 4, 30));
}

#[test]
fn test_fiscal_year_start() {
    let fy_end = ymd(2023, 12, 31);
    let fy_start = fiscal_year_start(fy_end);
    assert_eq!(fy_start, ymd(2023, 1, 31));

    let fy_end = ymd(2023, 6, 30);
    let fy_start = fiscal_year_start(fy_end);
    assert_eq!(fy_start, ymd(2022, 7, 31));
}

#[test]
fn test_fiscal_month_index() {
    // Standard calendar year (Ends Dec)
    assert_eq!(get_fiscal_month_index(1, 12), 0); // Jan
    assert_eq!(get_fiscal_month_index(6, 12), 5); // June
    assert_eq!(get_fiscal_month_index(12, 12), 11); // Dec

    // US Gov Year (Ends Sept / Month 9). Start Oct (10).
    assert_eq!(get_fiscal_month_index(10, 9), 0); // Oct is month 0
    assert_eq!(get_fiscal_month_index(1, 9), 3); // Jan is month 3
    assert_eq!(get_fiscal_month_index(9, 9), 11); // Sept is month 11

    // June year end (FY starts July)
    assert_eq!(get_fiscal_month_index(7, 6), 0); // July is month 0
    assert_eq!(get_fiscal_month_index(12, 6), 5); // Dec is month 5
    assert_eq!(get_fiscal_month_index(6, 6), 11); // June is month 11
}

#[test]
fn test_parse_period_string_month_and_range() {
    let (start, end) = parse_period_string("2023-02").unwrap();
    assert_eq!(start, ymd(2023, 2, 1));
    assert_eq!(end, ymd(2023, 2, 28));

    let (start, end) = parse_period_string("2023-01:2023-03").unwrap();
    assert_eq!(start, ymd(2023, 1, 1));
    assert_eq!(end, ymd(2023, 3, 31));
}

#[test]
fn parse_period_accepts_spaces_around_parts() {
    let (start, end) = parse_period_string(" 2024-02 : 2024-02 ").unwrap();
    assert_eq!(start, ymd(2024, 2, 1));
    assert_eq!(end, ymd(2024, 2, 29));
}

#[test]
fn parse_period_reports_each_malformed_part() {
    assert_eq!(
        parse_period_string("2023-13"),
        Err(FinancialHistoryError::DateError("Invalid date format in period: 2023-13. Expected YYYY-MM".to_string()))
    );
    assert_eq!(
        parse_period_string("x:2023-01"),
        Err(FinancialHistoryError::DateError("Invalid start date format in period: x. Expected YYYY-MM".to_string()))
    );
    assert_eq!(
        parse_period_string("2023-01:2023-1x"),
        Err(FinancialHistoryError::DateError(
            "Invalid end date format in period: 2023-1x. Expected YYYY-MM".to_string()
        ))
    );
    assert_eq!(
        parse_period_string("2023-01:2023-02:2023-03"),
        Err(FinancialHistoryError::DateError(
            "Invalid period format: 2023-01:2023-02:2023-03. Expected 'YYYY-MM' or 'YYYY-MM:YYYY-MM'".to_string()
        ))
    );
}

#[test]
fn parse_period_keeps_reversed_ranges() {
    let (start, end) = parse_period_string("2023-05:2023-01").unwrap();
    assert_eq!(start, ymd(2023, 5, 1));
    assert_eq!(end, ymd(2023, 1, 31));
}

#[test]
fn month_ends_cover_the_period() {
    let months = get_month_ends_in_period(ymd(2023, 11, 15), ymd(2024, 2, 29));
    assert_eq!(months, vec![ymd(2023, 11, 30), ymd(2023, 12, 31), ymd(2024, 1, 31), ymd(2024, 2, 29)]);
    let none = get_month_ends_in_period(ymd(2023, 3, 1), ymd(2023, 3, 30));
    assert!(none.is_empty());
}

#[test]
fn months_between_counts_calendar_months() {
    assert_eq!(months_between(ymd(2023, 1, 31), ymd(2023, 12, 1)), 11);
    assert_eq!(months_between(ymd(2023, 12, 31), ymd(2023, 1, 1)), -11);
    assert_eq!(months_between(ymd(2022, 12, 31), next_month_end(ymd(2022, 12, 31))), 1);
}

#[test]
fn fiscal_year_end_dates() {
    assert_eq!(get_fiscal_year_end_date(2023, 6), ymd(2023, 6, 30));
    assert_eq!(get_fiscal_year_end_for_date(ymd(2023, 5, 10), 6), ymd(2023, 6, 30));
    assert_eq!(get_fiscal_year_end_for_date(ymd(2023, 7, 1), 6), ymd(2024, 6, 30));
    assert_eq!(get_fiscal_year_end_for_date(ymd(2024, 2, 29), 2), ymd(2024, 2, 29));
}

#[test]
fn fiscal_year_end_month_is_checked() {
    assert!(validate_fiscal_year_end_month(1).is_ok());
    assert!(validate_fiscal_year_end_month(12).is_ok());
    assert_eq!(validate_fiscal_year_end_month(0), Err(FinancialHistoryError::InvalidFiscalYearEndMonth(0)));
    assert_eq!(validate_fiscal_year_end_month(13), Err(FinancialHistoryError::InvalidFiscalYearEndMonth(13)));
}

#[test]
fn next_and_previous_month_ends_undo_each_other() {
    let d = ymd(2024, 3, 31);
    assert_eq!(prev_month_end(next_month_end(d)), d);
    assert_eq!(next_month_end(prev_month_end(d)), d);
}

#[test]
fn dates_print_as_chrono_does() {
    let mut s = String::new();
    push_date(&mut s, &ymd(2023, 2, 5));
    assert_eq!(s, "2023-02-05");
    let mut s = String::new();
    push_date(&mut s, &ymd(-5, 12, 31));
    assert_eq!(s, "-0005-12-31");
    let mut s = String::new();
    push_date(&mut s, &ymd(12345, 1, 1));
    assert_eq!(s, "+12345-01-01");
}

#[test]
fn periods_at_the_end_of_the_range() {
    assert_eq!(parse_period_string("+262142-11"), Ok((ymd(262142, 11, 1), ymd(262142, 11, 30))));
    assert_eq!(
        parse_period_string("+262142-12:+262142-10"),
        Ok((ymd(262142, 12, 1), ymd(262142, 10, 31)))
    );
    assert!(matches!(parse_period_string("+262142-12"), Err(FinancialHistoryError::DateError(_))));
    assert!(matches!(parse_period_string("2023-01:+262142-12"), Err(FinancialHistoryError::DateError(_))));
}

#[test]
fn month_ends_up_to_the_enumeration_limit() {
    let r = get_month_ends_in_period(ymd(262142, 10, 1), ymd(262142, 11, 29));
    assert_eq!(r, vec![ymd(262142, 10, 31)]);
}
