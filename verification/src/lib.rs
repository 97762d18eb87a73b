//! Balance aggregation: the newest balance of each account, a ledger of them
//! with a running total, category labels joined on, and subtotals per category.
//!
//! A run starts from the text of a manifest, which lists the files of the
//! accounts ([`manifest`]), and the text of each file ([`loader`], on the
//! delimited text of [`csv`]). Of each account the newest balance is kept
//! ([`record`]). The balances, in the order of the manifest, make the ledger
//! ([`ledger`]); the category lookup labels its rows ([`classify`]); the
//! amounts of each category are summed ([`subtotal`]). The tables are written
//! as delimited text and drawn for a console ([`report`], [`tables`]);
//! [`pipeline`] runs all of it.
//!
//! Amounts are whole hundredths of the currency unit throughout, so every sum
//! in this crate is exact.

pub mod amount;
pub mod classify;
pub mod csv;
pub mod date;
pub mod ledger;
pub mod loader;
pub mod manifest;
pub mod paths;
pub mod pipeline;
pub mod record;
pub mod report;
pub mod subtotal;
pub mod tables;
pub mod text;
