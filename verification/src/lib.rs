//! A verified value-transfer ledger: it records incoming deposits from many
//! callers, deducts a fixed fee from each, accumulates a running per-caller
//! balance, and reports the net amount owed to a single designated recipient.
//!
//! The ledger itself is pure state and arithmetic; the execution host that
//! supplies caller identity and attached value, persists the state, and
//! settles transfers hands this library plain values and acts on what it
//! returns.

pub mod boundary;
pub mod laws;
pub mod ledger;
pub mod model;
