//! Desktop applications: which are installed, and how each is started.
pub mod commands;
pub mod desktop_entry;
pub mod environment;
pub mod exec_parser;
pub mod entries;
pub mod laws;
pub mod meaning;
pub mod probe;
pub mod reasons;
pub mod resolver;
pub mod scanner;
pub mod types;
