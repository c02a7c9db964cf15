//! A replay engine for per-client payment accounts.
//!
//! An ordered stream of transactions (deposits, withdrawals, disputes,
//! resolves, chargebacks) is applied one at a time against a set of client
//! accounts. Every account tracks an available balance, a held balance, a
//! lock flag, and a log of its money movements with their dispute status.
//! The rules of that state machine, the invariants it maintains, and the
//! laws it obeys are stated and proved in the modules below.

pub mod domain;
pub mod laws;
pub mod sums;
