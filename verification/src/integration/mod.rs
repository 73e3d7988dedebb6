//! Startup at login, and the suppression of duplicate autostart entries.
pub mod autostart;
pub mod error;
pub mod files;
pub mod laws;
pub mod meaning;
pub mod paths;
pub mod round_trip;
pub mod startup;
pub mod suppression;
pub mod write;
