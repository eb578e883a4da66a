//! A batch payments engine: it consumes a finite stream of transaction
//! records (deposits, withdrawals, disputes, resolves, chargebacks) and
//! derives, per client account, a final balance state (available funds,
//! held funds, lock status).
//!
//! The core is verified: the per-account transaction state machine
//! ([`account`]), the per-lane account engine ([`engine`]), the
//! partitioning and buffer-sizing rules of the concurrent pipeline
//! ([`partition`]), the lemmas that justify sharding work by client id
//! ([`pipeline`]), and the aggregation of per-lane results
//! ([`aggregate`]). Reading the input format and driving the async
//! runtime are thin unverified shims around this library.
//!
//! Monetary amounts are fixed-point decimals held in `i64` ten-thousandths
//! of a unit, matching the four fractional digits of the output format.

pub mod account;
pub mod aggregate;
pub mod engine;
pub mod partition;
pub mod pipeline;
pub mod record;
