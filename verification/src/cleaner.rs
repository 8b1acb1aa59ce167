//! Cleaning: removing what a rule file excludes.

pub mod args;
pub mod command;
pub mod error;
pub mod lines;
pub mod rules;
