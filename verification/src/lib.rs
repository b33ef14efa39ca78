//! A minimal in-memory ledger: a per-account balance ("points") together
//! with two per-account append-only logs of text entries ("tasks" and
//! "activities"), and operations to credit an account and to move balance
//! between two accounts while recording an entry in each side's activity log.
//!
//! The ledger lives in memory, so reads and writes cannot fail; an
//! operation that is rejected returns an error and leaves the ledger
//! exactly as it was.

pub mod ledger;
pub mod u256;
