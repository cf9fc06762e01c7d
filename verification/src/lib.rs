//! Parsers that turn the text of bank statements into structured,
//! arithmetically checked records.
//!
//! A statement is read from the bytes of its text by a grammar of small
//! parsers. Each parser has a specification, a function from the text to
//! what the text denotes, and is proved to compute exactly that. A
//! statement is accepted only where the totals it declares agree with the
//! amounts that were read; there is no partial result.
//!
//! - [`error`]: the failure a parser reports.
//! - [`scan`]: bytes, runs, phrases, numbers.
//! - [`date`]: calendar dates and month names, checked against `chrono`.
//! - [`totals`]: sums of amounts and the checks made with them.
//! - [`common_parsers`]: dates, amounts and phrases that all formats share.
//! - [`statement_format`]: what every format offers.
//! - [`bank_of_america_credit_statement`], [`bank_of_america_debit_statement`],
//!   [`bank_of_america_statement`], [`chase_credit_statement`]: the formats.
//! - [`canonical`], [`credit_synthesis`], [`debit_synthesis`]: how amounts,
//!   dates, sections and statements are written out, and the proofs that
//!   what is written out is read back.

pub mod error;
pub mod scan;
pub mod date;
pub mod totals;
pub mod common_parsers;
pub mod statement_format;
pub mod bank_of_america_credit_statement;
pub mod bank_of_america_debit_statement;
pub mod bank_of_america_statement;
pub mod chase_credit_statement;
pub mod canonical;
pub mod credit_synthesis;
pub mod debit_synthesis;
