//! Setting up the packages that a registry file names.

pub mod args;
pub mod command;
pub mod error;
pub mod package;
