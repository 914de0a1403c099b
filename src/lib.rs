//! A ledger of client accounts driven by a stream of transaction records:
//! deposits, withdrawals and the dispute / resolve / chargeback life cycle.
//! Amounts are fixed-point numbers with four fractional digits, held as
//! integers counted in ten-thousandths.
pub mod account;
pub mod engine;
pub mod error;
pub mod report;
pub mod transaction;
pub mod utils;
