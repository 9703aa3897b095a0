//! Per-owner process telemetry: aggregation of a process snapshot by owner
//! and reconciliation of the published gauges against the previous cycle.
pub mod aggregate;
pub mod cycle;
pub mod gauges;
pub mod laws;
pub mod publish;
