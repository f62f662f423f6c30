//! A small donation ledger: named fundraising projects, each with an
//! immutable funding goal and a balance that donations raise and the
//! admin's withdrawals lower, never below zero and never above the goal.

pub mod errors;
pub mod ledger;
