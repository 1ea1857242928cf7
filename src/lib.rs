//! Replays a stream of client transactions into per-client account balances.
//!
//! Monetary amounts are fixed-point integers counted in ten-thousandths of a unit.

pub mod account;
pub mod ledger;
pub mod transaction;
pub mod laws;
pub mod record;
