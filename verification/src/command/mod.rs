//! The command line: options, configuration and what is printed.
pub mod config;
pub mod config_laws;
pub mod dispatch;
pub mod display;
