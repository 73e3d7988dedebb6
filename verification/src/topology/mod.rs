//! CPU topology: what the kernel reports about the processors, and which of
//! them are efficiency cores.
pub mod classes;
pub mod corroboration;
pub mod detector;
pub mod evidence;
pub mod grouping;
pub mod laws;
pub mod lists;
pub mod meaning;
pub mod notes;
pub mod observed;
pub mod parser;
pub mod sysfs;
pub mod types;
