//! Deterministic, read-only diagnostics for the launcher pipeline.
pub mod checks;
pub mod diagnose;
pub mod laws;
pub mod meaning;
pub mod report;
