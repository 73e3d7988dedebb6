//! Launching managed applications on the efficiency cores.
pub mod error;
pub mod policy;
pub mod plan;
pub mod acknowledgement;
pub mod execution;
pub mod helper;
pub mod laws;
pub mod meaning;
