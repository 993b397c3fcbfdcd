//! Calibrated worker-backlog admission for an inference gateway, independent of
//! its routing policy.
//!
//! - [`rounding`], [`binary64`] and [`order`]: double-precision arithmetic on
//!   bit patterns, and its laws.
//! - [`expected_wait`]: the wait formula.
//! - [`load`] and [`worker`]: what the guard reads of reports and workers.
//! - [`config`]: the configuration, and the estimate that it makes of a report.
//! - [`formula_laws`], [`error_laws`], [`wait_laws`], [`report_laws`] and
//!   [`validation_laws`]: what holds of the formula, the estimates and the
//!   configuration, exactly and up to rounding.
//! - [`clock`] and [`metric`]: moments, and observations to be recorded.
//! - [`ledger`]: the state of the guard and its transitions, mathematically.
//! - [`clock_laws`], [`transition_laws`] and [`ledger_laws`]: what ages are, what
//!   each operation does, and what holds over any number of operations.
//! - [`admission`]: the guard itself.

pub mod admission;
pub mod binary64;
pub mod clock;
pub mod clock_laws;
pub mod config;
pub mod error_laws;
pub mod expected_wait;
pub mod formula_laws;
pub mod ledger;
pub mod ledger_laws;
pub mod load;
pub mod metric;
pub mod order;
pub mod report_laws;
pub mod rounding;
pub mod transition_laws;
pub mod validation_laws;
pub mod wait_laws;
pub mod worker;
