//! Finding an engine installation and driving its tools.

pub mod args;
pub mod command;
pub mod error;
pub mod replay;
pub mod resolution;
pub mod unreal_installation;
pub mod unreal_project;
