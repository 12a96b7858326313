//! The errors the library reports, and the text each one reads as.
use vstd::prelude::*;

use crate::text::{concat2, decimal_text, push_decimal};

verus! {

/// Errors that the library reports.
#[derive(Debug, Clone, PartialEq, Eq)]
pub enum FinancialHistoryError {
    InvalidAnchor(String),
    NoAnchors(String),
    InvalidFiscalYearEndMonth(u32),
    InvalidSeasonalityWeights(String),
    InterpolationError(String),
    DateError(String),
    ValidationError { account: String, details: String },
}

impl FinancialHistoryError {
    /// The text the error reads as.
    pub open spec fn message_text(&self) -> Seq<char> {
        match self {
            FinancialHistoryError::InvalidAnchor(s) => "Invalid anchor point: "@ + s@,
            FinancialHistoryError::NoAnchors(s) => "No anchors provided for account: "@ + s@,
            FinancialHistoryError::InvalidFiscalYearEndMonth(m) => "Invalid fiscal year end month "@
                + decimal_text(*m as nat) + ": must be between 1 and 12"@,
            FinancialHistoryError::InvalidSeasonalityWeights(s) => "Custom seasonality profile has invalid weights: "@ + s@,
            FinancialHistoryError::InterpolationError(s) => "Interpolation error: "@ + s@,
            FinancialHistoryError::DateError(s) => "Date calculation error: "@ + s@,
            FinancialHistoryError::ValidationError { account, details } => "Validation error in account '"@ + account@
                + "': "@ + details@,
        }
    }

    /// The text the error reads as.
    pub fn message(&self) -> (r: String)
        ensures
            r@ == self.message_text(),
    {
        match self {
            FinancialHistoryError::InvalidAnchor(s) => concat2("Invalid anchor point: ", s.as_str()),
            FinancialHistoryError::NoAnchors(s) => concat2("No anchors provided for account: ", s.as_str()),
            FinancialHistoryError::InvalidFiscalYearEndMonth(m) => {
                let mut r = String::from_str("Invalid fiscal year end month ");
                push_decimal(&mut r, *m as u64);
                r.append(": must be between 1 and 12");
                proof {
                    reveal_strlit("Invalid fiscal year end month ");
                    reveal_strlit(": must be between 1 and 12");
                }
                r
            },
            FinancialHistoryError::InvalidSeasonalityWeights(s) => concat2(
                "Custom seasonality profile has invalid weights: ",
                s.as_str(),
            ),
            FinancialHistoryError::InterpolationError(s) => concat2("Interpolation error: ", s.as_str()),
            FinancialHistoryError::DateError(s) => concat2("Date calculation error: ", s.as_str()),
            FinancialHistoryError::ValidationError { account, details } => {
                let mut r = String::from_str("Validation error in account '");
                r.append(account.as_str());
                r.append("': ");
                r.append(details.as_str());
                proof {
                    reveal_strlit("Validation error in account '");
                    reveal_strlit("': ");
                }
                r
            },
        }
    }
}

} // verus!
