//! A single-pass ledger simulator: it replays a chronologically ordered
//! sequence of transaction events (deposits, withdrawals, disputes, resolves,
//! chargebacks) against a set of per-client accounts and reports the final
//! balance state of every client touched.
//!
//! Monetary amounts are fixed-point decimals with four fractional digits,
//! held as counts of 1/10_000 units, so no precision is lost to binary
//! floating point. Account balances are signed, since a dispute raised after
//! a withdrawal can drive the available balance below zero.

pub mod engine;
pub mod history;
pub mod laws;
pub mod processors;
pub mod types;
