//! The decisions of the command line and of the terminal interface.
pub mod adjust;
pub mod meaning;
pub mod present;
pub mod reports;
pub mod screen;
pub mod select;
pub mod tui;
