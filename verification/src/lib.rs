//! A personal ledger: accounts on a physical and a virtual axis, the
//! transactions between them, and the rules that keep every balance from
//! falling below zero.

pub mod account;
pub mod amount;
pub mod amounts;
pub mod command;
pub mod currency;
pub mod error;
pub mod export;
pub mod id;
pub mod ledger;
pub mod order;
pub mod repl;
pub mod report;
pub mod repository;
pub mod rules;
pub mod text;
pub mod transaction;
pub mod types;
