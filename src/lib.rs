//! A time-bounded commitment escrow: a ledger of commitments with rule-based
//! violation detection, settlement and early exit, and a compliance engine that
//! records attestations and fees and derives a bounded compliance score.
//!
//! Everything that touches the host (storage, token transfers, authorization,
//! the clock, events) is left to the caller: the operations here take the
//! current time and the relevant balances as plain values and hand back what
//! has to be transferred.

pub mod types;
pub mod ledger;
pub mod engine;
pub mod laws;
