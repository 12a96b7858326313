//! Turns sparse financial data (annual totals, period totals, point-in-time
//! balances) into dense monthly series that respect the source figures.
//!
//! Money amounts are kept generic (`V`): the library decides which months,
//! accounts and constraints take part in every step, and the caller supplies
//! the number type.

pub mod arith;
pub mod error;
pub mod date;
pub mod text;
pub mod schema;
pub mod sort;
pub mod chart_of_accounts;
pub mod seasonality;
pub mod engine;
pub mod allocation;
pub mod balancer;
pub mod overrides;
pub mod ingestion;
pub mod processing;
pub mod extraction;
pub mod replies;
