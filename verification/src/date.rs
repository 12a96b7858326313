//! Calendar dates and the month arithmetic that the engine relies on.
use vstd::prelude::*;

use chrono::{Datelike, Days, NaiveDate};
use vstd::arithmetic::div_mod::{
    lemma_fundamental_div_mod_converse_div, lemma_fundamental_div_mod_converse_mod,
    lemma_mod_multiples_vanish,
};

use crate::error::FinancialHistoryError;
use crate::text::{
    concat2, concat3, padded_decimal, push_padded_decimal, push_year, split_on_char, split_spec, trim_spec, trim_text,
    year_text,
};

verus! {

/// Smallest year a calendar date may carry (the range of `chrono::NaiveDate`).
pub const MIN_YEAR: i32 = -262143;

/// Largest year a calendar date may carry (the range of `chrono::NaiveDate`).
pub const MAX_YEAR: i32 = 262142;

/// Leap years of the proleptic Gregorian calendar.
pub open spec fn is_leap_year(y: int) -> bool {
    y % 4 == 0 && (y % 100 != 0 || y % 400 == 0)
}

/// Number of days of month `m` (1..=12) in year `y`.
pub open spec fn days_in_month(y: int, m: int) -> int {
    if m == 2 {
        if is_leap_year(y) { 29 } else { 28 }
    } else if m == 4 || m == 6 || m == 9 || m == 11 {
        30
    } else {
        31
    }
}

pub open spec fn year_in_range(y: int) -> bool {
    MIN_YEAR <= y <= MAX_YEAR
}

/// A calendar day in the proleptic Gregorian calendar.
#[derive(Debug, Clone, Copy, PartialEq, Eq, Structural)]
pub struct Date {
    pub year: i32,
    pub month: u32,
    pub day: u32,
}

impl Date {
    /// The date names an existing day within the supported year range.
    pub open spec fn wf(self) -> bool {
        &&& year_in_range(self.year as int)
        &&& 1 <= self.month <= 12
        &&& 1 <= self.day <= days_in_month(self.year as int, self.month as int)
    }

    /// Months elapsed since January of year 0 (negative before it).
    pub open spec fn month_index(self) -> int {
        self.year * 12 + self.month - 1
    }

    /// A number that orders dates chronologically.
    pub open spec fn key(self) -> int {
        self.month_index() * 32 + self.day
    }

    /// The date is the last day of its month.
    pub open spec fn is_month_end(self) -> bool {
        self.day == days_in_month(self.year as int, self.month as int)
    }

    /// Builds the date `year-month-day` when it exists.
    pub fn from_ymd(year: i32, month: u32, day: u32) -> (r: Option<Date>)
        ensures
            r is Some <==> (Date { year, month, day }).wf(),
            r matches Some(d) ==> d == (Date { year, month, day }),
    {
        if year < MIN_YEAR || year > MAX_YEAR || month < 1 || month > 12 || day < 1 {
            return None;
        }
        if day <= days_in_month_exec(year, month) {
            Some(Date { year, month, day })
        } else {
            None
        }
    }

    /// Strictly earlier than `other`.
    pub fn before(&self, other: &Date) -> (r: bool)
        requires
            1 <= self.month <= 12,
            1 <= other.month <= 12,
            self.day <= 31,
            other.day <= 31,
        ensures
            r == (self.key() < other.key()),
    {
        if self.year != other.year {
            self.year < other.year
        } else if self.month != other.month {
            self.month < other.month
        } else {
            self.day < other.day
        }
    }
}

/// Number of days of a month, computed.
pub fn days_in_month_exec(year: i32, month: u32) -> (r: u32)
    requires
        1 <= month <= 12,
        year_in_range(year as int),
    ensures
        r as int == days_in_month(year as int, month as int),
{
    if month == 2 {
        // Shifting by whole 400-year cycles keeps the leap-year rule and
        // makes the year positive.
        let shifted: u32 = (year + 262400) as u32;
        proof {
            let y = year as int;
            lemma_mod_multiples_vanish(65600, y, 4);
            lemma_mod_multiples_vanish(2624, y, 100);
            lemma_mod_multiples_vanish(656, y, 400);
            assert(shifted as int == 4 * 65600 + y);
            assert(shifted as int == 100 * 2624 + y);
            assert(shifted as int == 400 * 656 + y);
        }
        if shifted % 4 == 0 && (shifted % 100 != 0 || shifted % 400 == 0) {
            29
        } else {
            28
        }
    } else if month == 4 || month == 6 || month == 9 || month == 11 {
        30
    } else {
        31
    }
}

/// The last day of month `m` (1..=12) of year `y`.
pub open spec fn month_end_date(y: int, m: int) -> Date {
    Date { year: y as i32, month: m as u32, day: days_in_month(y, m) as u32 }
}

/// The last day of the month with index `k` (see `Date::month_index`).
pub open spec fn month_end_at(k: int) -> Date {
    month_end_date(k / 12, k % 12 + 1)
}

/// What `last_day_of_month(y, m)` returns: month 0 stands for December of
/// the year before.
pub open spec fn last_day_spec(y: int, m: int) -> Date {
    if m == 0 {
        month_end_date(y - 1, 12)
    } else {
        month_end_date(y, m)
    }
}

/// The inputs on which `last_day_of_month` has an answer within the date range.
pub open spec fn last_day_defined(y: int, m: int) -> bool {
    &&& m <= 12
    &&& if m == 0 {
        MIN_YEAR < y <= MAX_YEAR
    } else if m == 12 {
        MIN_YEAR <= y < MAX_YEAR
    } else {
        year_in_range(y)
    }
}

/// The day before the first day of month `m` of year `y`.
pub open spec fn day_before_first(y: int, m: int) -> Date {
    if m == 1 {
        month_end_date(y - 1, 12)
    } else {
        month_end_date(y, m - 1)
    }
}

/// `chrono::NaiveDate::from_ymd_opt(year, month, 1)` followed by
/// `checked_sub_days(Days::new(1))`: the contract claims chrono's Gregorian
/// answer, the last day of the month before `month`.
#[verifier::external_body]
fn chrono_day_before_first(year: i32, month: u32) -> (r: Date)
    requires
        1 <= month <= 12,
        year_in_range(year as int),
        !(month == 1 && year == MIN_YEAR),
    ensures
        r == day_before_first(year as int, month as int),
{
    let d = NaiveDate::from_ymd_opt(year, month, 1).unwrap().checked_sub_days(Days::new(1)).unwrap();
    Date { year: d.year(), month: d.month(), day: d.day() }
}

/// Facts on the month with index `k`.
pub proof fn lemma_month_end_at(k: int)
    requires
        year_in_range(k / 12),
    ensures
        month_end_at(k).month_index() == k,
        month_end_at(k).wf(),
        month_end_at(k).is_month_end(),
        month_end_at(k).year == k / 12,
        month_end_at(k).month == k % 12 + 1,
{
}

/// The month index names the month end.
pub proof fn lemma_month_end_of_index(y: int, m: int)
    requires
        1 <= m <= 12,
        year_in_range(y),
    ensures
        month_end_at(y * 12 + m - 1) == month_end_date(y, m),
        (y * 12 + m - 1) / 12 == y,
        (y * 12 + m - 1) % 12 == m - 1,
{
    lemma_fundamental_div_mod_converse_div(y * 12 + m - 1, 12, y, m - 1);
    lemma_fundamental_div_mod_converse_mod(y * 12 + m - 1, 12, y, m - 1);
}

/// The last day of `month` in `year`; month 0 gives 31 December of the year
/// before.
pub fn last_day_of_month(year: i32, month: u32) -> (r: Date)
    requires
        last_day_defined(year as int, month as int),
    ensures
        r == last_day_spec(year as int, month as int),
        r.wf(),
        r.is_month_end(),
{
    let next_month = if month == 12 { 1 } else { month + 1 };
    let next_year = if month == 12 { year + 1 } else { year };
    chrono_day_before_first(next_year, next_month)
}

/// The last day of the month after the month of `date`.
pub fn next_month_end(date: Date) -> (r: Date)
    requires
        date.wf(),
        date.month >= 11 ==> date.year < MAX_YEAR,
    ensures
        r == month_end_at(date.month_index() + 1),
        r.month_index() == date.month_index() + 1,
        r.wf(),
        r.is_month_end(),
{
    let year = if date.month == 12 { date.year + 1 } else { date.year };
    let month = if date.month == 12 { 1 } else { date.month + 1 };
    let r = last_day_of_month(year, month);
    proof {
        lemma_month_end_of_index(year as int, month as int);
    }
    r
}

/// The last day of the month before the month of `date`.
pub fn prev_month_end(date: Date) -> (r: Date)
    requires
        date.wf(),
        date.month == 1 ==> date.year > MIN_YEAR,
    ensures
        r == month_end_at(date.month_index() - 1),
        r.month_index() == date.month_index() - 1,
        r.wf(),
        r.is_month_end(),
{
    let year = if date.month == 1 { date.year - 1 } else { date.year };
    let month = if date.month == 1 { 12 } else { date.month - 1 };
    let r = last_day_of_month(year, month);
    proof {
        lemma_month_end_of_index(year as int, month as int);
    }
    r
}

/// The last day of the first month of the fiscal year that ends on
/// `fiscal_year_end`.
pub fn fiscal_year_start(fiscal_year_end: Date) -> (r: Date)
    requires
        fiscal_year_end.wf(),
        fiscal_year_end.month != 12 ==> fiscal_year_end.year > MIN_YEAR,
    ensures
        r == month_end_at(fiscal_year_end.month_index() - 11),
        r.month_index() == fiscal_year_end.month_index() - 11,
        r.wf(),
        r.is_month_end(),
{
    let year = fiscal_year_end.year - 1;
    let month = fiscal_year_end.month;
    let start_month = if month == 12 { 1 } else { month + 1 };
    let start_year = if month == 12 { year + 1 } else { year };
    let r = last_day_of_month(start_year, start_month);
    proof {
        lemma_month_end_of_index(start_year as int, start_month as int);
    }
    r
}

/// Every month end from the month of `start` up to `end`, in order.
pub fn get_month_ends_in_period(start: Date, end: Date) -> (r: Vec<Date>)
    requires
        start.wf(),
        end.wf(),
        !in_last_month(start),
        before_enumeration_limit(end),
    ensures
        forall|i: int| 0 <= i < r.len() ==> #[trigger] r@[i] == month_end_at(start.month_index() + i),
        forall|i: int| 0 <= i < r.len() ==> start.key() <= #[trigger] r@[i].key() <= end.key(),
        forall|i: int| 0 <= i < r.len() ==> (#[trigger] r@[i]).wf() && r@[i].is_month_end(),
        month_end_at(start.month_index() + r.len()).key() > end.key(),
{
    let mut dates: Vec<Date> = Vec::new();
    let start_month_end = last_day_of_month(start.year, start.month);
    proof {
        lemma_month_end_of_index(start.year as int, start.month as int);
    }
    let mut current = start_month_end;
    while !end.before(&current)
        invariant
            current == month_end_at(start.month_index() + dates.len()),
            current.wf(),
            current.is_month_end(),
            current.month_index() == start.month_index() + dates.len(),
            start.key() <= current.key(),
            start.wf(),
            end.wf(),
            before_enumeration_limit(end),
            forall|i: int| 0 <= i < dates.len() ==> #[trigger] dates@[i] == month_end_at(start.month_index() + i),
            forall|i: int| 0 <= i < dates.len() ==> start.key() <= #[trigger] dates@[i].key() <= end.key(),
            forall|i: int| 0 <= i < dates.len() ==> (#[trigger] dates@[i]).wf() && dates@[i].is_month_end(),
        decreases end.key() - current.key() + 64,
    {
        if !current.before(&start) {
            dates.push(current);
        }
        current = next_month_end(current);
    }
    dates
}

/// Accepts the months 1 to 12 as the month in which a fiscal year ends.
pub fn validate_fiscal_year_end_month(month: u32) -> (r: Result<(), FinancialHistoryError>)
    ensures
        r is Ok <==> 1 <= month <= 12,
        r is Err ==> r == Err::<(), FinancialHistoryError>(FinancialHistoryError::InvalidFiscalYearEndMonth(month)),
{
    if month < 1 || month > 12 {
        return Err(FinancialHistoryError::InvalidFiscalYearEndMonth(month));
    }
    Ok(())
}

/// The day on which the fiscal year that ends in `year` closes.
pub fn get_fiscal_year_end_date(year: i32, fiscal_month: u32) -> (r: Date)
    requires
        last_day_defined(year as int, fiscal_month as int),
    ensures
        r == last_day_spec(year as int, fiscal_month as int),
{
    last_day_of_month(year, fiscal_month)
}

/// Whole calendar months from the month of `start` to the month of `end`.
pub fn months_between(start: Date, end: Date) -> (r: i32)
    requires
        start.wf(),
        end.wf(),
    ensures
        r == end.month_index() - start.month_index(),
{
    let year_diff = end.year - start.year;
    let month_diff = end.month as i32 - start.month as i32;
    year_diff * 12 + month_diff
}

/// The close of the fiscal year (ending in `fiscal_month`) that holds `date`.
pub fn get_fiscal_year_end_for_date(date: Date, fiscal_month: u32) -> (r: Date)
    requires
        date.wf(),
        fiscal_month <= 12,
        date.month <= fiscal_month ==> last_day_defined(date.year as int, fiscal_month as int),
        date.month > fiscal_month ==> last_day_defined(date.year + 1, fiscal_month as int),
    ensures
        r == (if date.month <= fiscal_month {
            last_day_spec(date.year as int, fiscal_month as int)
        } else {
            last_day_spec(date.year + 1, fiscal_month as int)
        }),
        1 <= fiscal_month ==> r.month == fiscal_month,
        1 <= fiscal_month ==> date.key() <= r.key(),
        1 <= fiscal_month ==> 0 <= r.month_index() - date.month_index() < 12,
{
    let current_month = date.month;
    let current_year = date.year;
    if current_month <= fiscal_month {
        last_day_of_month(current_year, fiscal_month)
    } else {
        last_day_of_month(current_year + 1, fiscal_month)
    }
}

/// First calendar month of a fiscal year that ends in `fiscal_year_end_month`.
pub open spec fn fiscal_start_month(fiscal_year_end_month: int) -> int {
    if fiscal_year_end_month == 12 { 1 } else { fiscal_year_end_month + 1 }
}

/// Position (0-based) of `calendar_month` within the fiscal year.
pub open spec fn fiscal_month_index_spec(calendar_month: int, fiscal_year_end_month: int) -> int {
    let start = fiscal_start_month(fiscal_year_end_month);
    if calendar_month >= start {
        calendar_month - start
    } else {
        calendar_month + 12 - start
    }
}

/// The 0-based index of `calendar_month` within the fiscal year that ends in
/// `fiscal_year_end_month`: with a December year end January is 0; with a June
/// year end July is 0 and June is 11.
pub fn get_fiscal_month_index(calendar_month: u32, fiscal_year_end_month: u32) -> (r: usize)
    requires
        fiscal_year_end_month < u32::MAX,
        calendar_month < fiscal_start_month(fiscal_year_end_month as int) ==>
            fiscal_start_month(fiscal_year_end_month as int) <= calendar_month + 12 <= u32::MAX,
    ensures
        r == fiscal_month_index_spec(calendar_month as int, fiscal_year_end_month as int),
        1 <= calendar_month <= 12 && 1 <= fiscal_year_end_month <= 12 ==> r < 12,
{
    let fy_start_month = if fiscal_year_end_month == 12 { 1 } else { fiscal_year_end_month + 1 };
    if calendar_month >= fy_start_month {
        (calendar_month - fy_start_month) as usize
    } else {
        (calendar_month + 12 - fy_start_month) as usize
    }
}

/// chrono's reading of `text` with the format `"%Y-%m-%d"`: year, month and
/// day of the date it yields, if it yields one.
pub uninterp spec fn chrono_parsed_ymd(text: Seq<char>) -> Option<(i32, u32, u32)>;

/// `chrono::NaiveDate::parse_from_str(text, "%Y-%m-%d")`, taken apart into
/// year, month and day. Claims that a date comes back exactly when chrono
/// parses one, and that it is a day chrono can represent.
#[verifier::external_body]
pub(crate) fn chrono_parse_ymd(text: &str) -> (r: Option<Date>)
    ensures
        r is Some <==> chrono_parsed_ymd(text@) is Some,
        r matches Some(d) ==> chrono_parsed_ymd(text@) == Some((d.year, d.month, d.day)) && d.wf(),
{
    match NaiveDate::parse_from_str(text, "%Y-%m-%d") {
        Ok(d) => Some(Date { year: d.year(), month: d.month(), day: d.day() }),
        Err(_) => None,
    }
}

pub open spec fn ymd_date(t: (i32, u32, u32)) -> Date {
    Date { year: t.0, month: t.1, day: t.2 }
}

/// The first day of the month written `YYYY-MM` in `part` (surrounding white
/// space ignored), as chrono reads `"YYYY-MM-01"`.
pub open spec fn month_start_spec(part: Seq<char>) -> Option<(i32, u32, u32)> {
    chrono_parsed_ymd(trim_spec(part) + "-01"@)
}

/// Reads the first day of the month written `YYYY-MM` in `part`.
pub fn parse_month_start(part: &str) -> (r: Option<Date>)
    ensures
        r is Some <==> month_start_spec(part@) is Some,
        r matches Some(d) ==> month_start_spec(part@) == Some((d.year, d.month, d.day)) && d.wf(),
{
    let trimmed = trim_text(part);
    let text = concat2(trimmed, "-01");
    chrono_parse_ymd(text.as_str())
}

/// The text of the date error for a period past the supported range.
pub open spec fn range_end_message() -> Seq<char> {
    "Period ends beyond the supported date range"@
}

/// December of `MAX_YEAR`, the last month of the supported range: no month
/// follows it, so its last day cannot be found as the day before the next
/// month's first.
pub open spec fn in_last_month(d: Date) -> bool {
    d.year == MAX_YEAR && d.month == 12
}

/// The date comes before November 30 of `MAX_YEAR`, the last month end whose
/// next month end can be represented: month ends can be enumerated up to it.
pub open spec fn before_enumeration_limit(d: Date) -> bool {
    d.year < MAX_YEAR || d.month < 11 || (d.month == 11 && d.day < 30)
}

/// The period from `first` to the end of the month of `last`. A period whose
/// last month is the last month of the supported range is reported as a date
/// error, since the end of that month cannot be found.
pub fn month_period(first: Date, last: Date) -> (r: Result<(Date, Date), FinancialHistoryError>)
    requires
        first.wf(),
        last.wf(),
    ensures
        in_last_month(last) ==> (r matches Err(FinancialHistoryError::DateError(m)) && m@ == range_end_message()),
        !in_last_month(last) ==> r == Ok::<(Date, Date), FinancialHistoryError>(
            (first, month_end_date(last.year as int, last.month as int)),
        ),
{
    if last.year == MAX_YEAR && last.month == 12 {
        let m = String::from_str("Period ends beyond the supported date range");
        proof {
            reveal_strlit("Period ends beyond the supported date range");
        }
        return Err(FinancialHistoryError::DateError(m));
    }
    Ok((first, last_day_of_month(last.year, last.month)))
}

/// The first and last day of the period written in `period`, when it reads
/// as one.
pub open spec fn parsed_period(period: Seq<char>) -> Option<(Date, Date)> {
    let parts = split_spec(period, ':');
    if parts.len() == 1 {
        match month_start_spec(parts[0]) {
            Some(s) => bounded_period(ymd_date(s), ymd_date(s)),
            None => None,
        }
    } else if parts.len() == 2 {
        match (month_start_spec(parts[0]), month_start_spec(parts[1])) {
            (Some(s), Some(e)) => bounded_period(ymd_date(s), ymd_date(e)),
            _ => None,
        }
    } else {
        None
    }
}

/// The period from `first` to the end of the month of `last`, unless `last`
/// is in the last month of the supported range.
pub open spec fn bounded_period(first: Date, last: Date) -> Option<(Date, Date)> {
    if in_last_month(last) {
        None
    } else {
        Some((first, month_end_date(last.year as int, last.month as int)))
    }
}

/// The result promised for `parse_period_string(period)` when the period's
/// last month has a representable successor.
pub open spec fn period_ok(period: Seq<char>, r: Result<(Date, Date), FinancialHistoryError>) -> bool {
    let parts = split_spec(period, ':');
    if parts.len() == 1 {
        match month_start_spec(parts[0]) {
            None => r matches Err(FinancialHistoryError::DateError(m))
                && m@ == "Invalid date format in period: "@ + parts[0] + ". Expected YYYY-MM"@,
            Some(s) => month_period_spec(ymd_date(s), ymd_date(s), r),
        }
    } else if parts.len() == 2 {
        match (month_start_spec(parts[0]), month_start_spec(parts[1])) {
            (None, _) => r matches Err(FinancialHistoryError::DateError(m))
                && m@ == "Invalid start date format in period: "@ + parts[0] + ". Expected YYYY-MM"@,
            (Some(_), None) => r matches Err(FinancialHistoryError::DateError(m))
                && m@ == "Invalid end date format in period: "@ + parts[1] + ". Expected YYYY-MM"@,
            (Some(s), Some(e)) => month_period_spec(ymd_date(s), ymd_date(e), r),
        }
    } else {
        r matches Err(FinancialHistoryError::DateError(m))
            && m@ == "Invalid period format: "@ + period + ". Expected 'YYYY-MM' or 'YYYY-MM:YYYY-MM'"@
    }
}

/// What `month_period(first, last)` returns.
pub open spec fn month_period_spec(first: Date, last: Date, r: Result<(Date, Date), FinancialHistoryError>) -> bool {
    if in_last_month(last) {
        r matches Err(FinancialHistoryError::DateError(m)) && m@ == range_end_message()
    } else {
        r == Ok::<(Date, Date), FinancialHistoryError>((first, month_end_date(last.year as int, last.month as int)))
    }
}

/// The text of the date error that reading `period` gives, if any.
pub open spec fn period_error_text(period: Seq<char>) -> Option<Seq<char>> {
    let parts = split_spec(period, ':');
    if parts.len() == 1 {
        match month_start_spec(parts[0]) {
            None => Some("Invalid date format in period: "@ + parts[0] + ". Expected YYYY-MM"@),
            Some(s) => if in_last_month(ymd_date(s)) { Some(range_end_message()) } else { None },
        }
    } else if parts.len() == 2 {
        match (month_start_spec(parts[0]), month_start_spec(parts[1])) {
            (None, _) => Some("Invalid start date format in period: "@ + parts[0] + ". Expected YYYY-MM"@),
            (Some(_), None) => Some("Invalid end date format in period: "@ + parts[1] + ". Expected YYYY-MM"@),
            (Some(_), Some(e)) => if in_last_month(ymd_date(e)) {
                Some(range_end_message())
            } else {
                None
            },
        }
    } else {
        Some("Invalid period format: "@ + period + ". Expected 'YYYY-MM' or 'YYYY-MM:YYYY-MM'"@)
    }
}

/// Reads a period written `YYYY-MM` (one month) or `YYYY-MM:YYYY-MM` (an
/// inclusive range of months): the first day of the first month and the last
/// day of the last month.
pub fn parse_period_string(period: &str) -> (r: Result<(Date, Date), FinancialHistoryError>)
    ensures
        period_ok(period@, r),
        r is Ok <==> parsed_period(period@) is Some,
        r matches Ok(p) ==> parsed_period(period@) == Some(p),
        r matches Ok((s, e)) ==> s.wf() && e.wf() && e.is_month_end() && !in_last_month(e),
        r is Ok <==> period_error_text(period@) is None,
        r matches Err(err) ==> err matches FinancialHistoryError::DateError(m) && period_error_text(period@) == Some(m@),
{
    let parts = split_on_char(period, ':');
    proof {
        assert(parts@.len() == split_spec(period@, ':').len());
        assert(forall|i: int| 0 <= i < parts@.len() ==> parts@[i]@ == #[trigger] split_spec(period@, ':')[i]);
    }
    if parts.len() == 1 {
        match parse_month_start(parts[0].as_str()) {
            None => Err(FinancialHistoryError::DateError(
                concat3("Invalid date format in period: ", parts[0].as_str(), ". Expected YYYY-MM"),
            )),
            Some(start) => month_period(start, start),
        }
    } else if parts.len() == 2 {
        match parse_month_start(parts[0].as_str()) {
            None => Err(FinancialHistoryError::DateError(
                concat3("Invalid start date format in period: ", parts[0].as_str(), ". Expected YYYY-MM"),
            )),
            Some(start) => match parse_month_start(parts[1].as_str()) {
                None => Err(FinancialHistoryError::DateError(
                    concat3("Invalid end date format in period: ", parts[1].as_str(), ". Expected YYYY-MM"),
                )),
                Some(end_ref) => month_period(start, end_ref),
            },
        }
    } else {
        Err(FinancialHistoryError::DateError(
            concat3("Invalid period format: ", period, ". Expected 'YYYY-MM' or 'YYYY-MM:YYYY-MM'"),
        ))
    }
}

/// Days of year `y` before the first day of month `m`.
pub open spec fn days_before_month(y: int, m: int) -> int
    decreases m,
{
    if m <= 1 {
        0
    } else {
        days_before_month(y, m - 1) + days_in_month(y, m - 1)
    }
}

/// The day of the year (1 for January 1st).
pub open spec fn day_of_year(d: Date) -> int {
    days_before_month(d.year as int, d.month as int) + d.day
}

/// Days from January 1st of year 1 (day 1) to `d`, in the proleptic Gregorian
/// calendar.
pub open spec fn day_number(d: Date) -> int {
    let p = d.year - 1;
    365 * p + p / 4 - p / 100 + p / 400 + day_of_year(d)
}

/// `chrono::Datelike::ordinal` of the date: its day of the year.
#[verifier::external_body]
pub(crate) fn chrono_ordinal(d: Date) -> (r: u32)
    requires
        d.wf(),
    ensures
        r == day_of_year(d),
{
    NaiveDate::from_ymd_opt(d.year, d.month, d.day).unwrap().ordinal()
}

/// `chrono::Datelike::num_days_from_ce` of the date: its day number counted
/// from January 1st of year 1.
#[verifier::external_body]
pub(crate) fn chrono_days_from_ce(d: Date) -> (r: i32)
    requires
        d.wf(),
    ensures
        r == day_number(d),
{
    NaiveDate::from_ymd_opt(d.year, d.month, d.day).unwrap().num_days_from_ce()
}

/// A date as `chrono::NaiveDate` displays it (`%Y-%m-%d`).
pub open spec fn date_text(d: Date) -> Seq<char> {
    year_text(d.year as int) + "-"@ + padded_decimal(d.month as nat, 2) + "-"@ + padded_decimal(d.day as nat, 2)
}

/// Appends `d` as `date_text` writes it.
pub fn push_date(out: &mut String, d: &Date)
    ensures
        final(out)@ == old(out)@ + date_text(*d),
{
    let ghost start = out@;
    push_year(out, d.year);
    out.append("-");
    push_padded_decimal(out, d.month as u64, 2);
    out.append("-");
    push_padded_decimal(out, d.day as u64, 2);
    proof {
        reveal_strlit("-");
        assert(out@ =~= start + date_text(*d));
    }
}

/// Stepping from a month end to the next month end and back gives the month
/// end one started from.
pub proof fn law_prev_undoes_next(d: Date)
    requires
        d.wf(),
        d.is_month_end(),
        d.month >= 11 ==> d.year < MAX_YEAR,
    ensures
        month_end_at(month_end_at(d.month_index() + 1).month_index() - 1) == d,
{
    lemma_month_end_of_index(d.year as int, d.month as int);
    lemma_month_end_at(d.month_index() + 1);
}

/// Stepping from a month end to the previous month end and forward again
/// gives the month end one started from.
pub proof fn law_next_undoes_prev(d: Date)
    requires
        d.wf(),
        d.is_month_end(),
        d.month == 1 ==> d.year > MIN_YEAR,
    ensures
        month_end_at(month_end_at(d.month_index() - 1).month_index() + 1) == d,
{
    lemma_month_end_of_index(d.year as int, d.month as int);
    lemma_month_end_at(d.month_index() - 1);
}

/// The next month end lies exactly one calendar month after any date of the
/// month before it.
pub proof fn law_next_month_end_is_one_month_later(d: Date)
    requires
        d.wf(),
        d.month >= 11 ==> d.year < MAX_YEAR,
    ensures
        month_end_at(d.month_index() + 1).month_index() - d.month_index() == 1,
        d.key() < month_end_at(d.month_index() + 1).key(),
{
    lemma_month_end_at(d.month_index() + 1);
}

/// With a fiscal year ending in month `fye` (1 to 12), the fiscal positions of
/// the twelve calendar months are 0 to 11, each used once: the first month of
/// the fiscal year is 0 and `fye` itself is 11.
pub proof fn law_fiscal_month_positions(fye: int)
    requires
        1 <= fye <= 12,
    ensures
        fiscal_month_index_spec(fiscal_start_month(fye), fye) == 0,
        fiscal_month_index_spec(fye, fye) == 11,
        forall|m: int| 1 <= m <= 12 ==> 0 <= #[trigger] fiscal_month_index_spec(m, fye) < 12,
        forall|m1: int, m2: int|
            1 <= m1 <= 12 && 1 <= m2 <= 12 && #[trigger] fiscal_month_index_spec(m1, fye) == #[trigger] fiscal_month_index_spec(m2, fye)
            ==> m1 == m2,
{
}

/// The close of the fiscal year that holds a date falls in the fiscal
/// year-end month, on or after the date and less than twelve months later.
pub proof fn law_fiscal_year_end_holds_date(d: Date, fiscal_month: int)
    requires
        d.wf(),
        1 <= fiscal_month <= 12,
        d.month <= fiscal_month ==> last_day_defined(d.year as int, fiscal_month),
        d.month > fiscal_month ==> last_day_defined(d.year + 1, fiscal_month),
    ensures
        ({
            let r = if d.month <= fiscal_month {
                last_day_spec(d.year as int, fiscal_month)
            } else {
                last_day_spec(d.year + 1, fiscal_month)
            };
            &&& r.month == fiscal_month
            &&& r.is_month_end()
            &&& d.key() <= r.key()
            &&& r.month_index() - d.month_index() < 12
        }),
{
}

} // verus!
