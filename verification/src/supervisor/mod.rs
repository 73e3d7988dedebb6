//! Keeping the process trees of launched applications on their CPUs.
pub mod affinity;
pub mod coverage;
pub mod enroll;
pub mod laws;
pub mod meaning;
pub mod poll;
pub mod procfs;
pub mod session;
pub mod types;
pub mod walk;
