//! Household finance core: an in-memory model of the relational store behind
//! a personal finance tracker, with a verified ledger-consistency engine,
//! a recurring-payment scheduler, and a full-graph backup/restore path.

pub mod accounts;
pub mod backup;
pub mod banks;
pub mod categories;
pub mod date;
pub mod error;
pub mod financial_goals;
pub mod flows;
pub mod goals;
pub mod household;
pub mod ledger;
pub mod reports;
pub mod scheduler;
pub mod store;
pub mod transactions;
pub mod types;
pub mod users;
