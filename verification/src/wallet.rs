//! Account balances and transaction application.

pub mod balance;
