//! A pooled-wager prediction-market settlement engine.
//!
//! Users open binary-outcome markets, stake value into one of two pools, an
//! authorized resolver fixes the outcome, and winners withdraw a proportional,
//! fee-adjusted share of the combined pool exactly once.  The engine is a
//! sequential state machine: every operation is an atomic step against the
//! market, ledger and claim state, and the host is responsible for feeding it
//! the authenticated caller and the current wall-clock time.

pub mod agent;
pub mod bonus;
pub mod ledger;
pub mod market;
pub mod oracle;
pub mod settlement;
pub mod types;
