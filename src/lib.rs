//! Per-block token balances of a wallet, accumulated from its UTXO records.
//!
//! `record` holds the typed input, errors and report; `ledger` states what a
//! request means; `balances` computes it; `report` renders it as decimal
//! text; `decimal` reads balance literals; `laws` proves properties of the
//! model.
pub mod decimal;
pub mod record;
pub mod ledger;
pub mod balances;
pub mod laws;
pub mod report;
