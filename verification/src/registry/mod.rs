//! The applications that the user has chosen to manage.
pub mod config_path;
pub mod error;
pub mod laws;
pub mod meaning;
pub mod model;
pub mod operations;
pub mod store;
pub mod validation;
