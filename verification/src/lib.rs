//! Core of an online bookstore backend: the order lifecycle state machine,
//! the inventory and loyalty ledgers, and the catalog rules, all verified
//! against an explicit storage model.
#![verifier::loop_isolation(false)]

pub mod admin;
pub mod catalog;
pub mod checkout;
pub mod clock;
pub mod email;
pub mod errors;
pub mod lifecycle;
pub mod queries;
pub mod status;
pub mod store;
pub mod upload;
