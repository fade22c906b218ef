//! A minimal token ledger: integer balances per account identity, with
//! verified transfer and self-credit operations.
//!
//! The [`ledger::Ledger`] type owns one mapping from identity to balance and a
//! designated owner identity. All balance mutation goes through its methods,
//! whose contracts pin down the resulting balances exactly; the general laws
//! the ledger obeys are stated and proved in [`laws`].

pub mod account;
pub mod laws;
pub mod ledger;
