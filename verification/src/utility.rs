//! Helpers on paths, on texts and on what a search is given.

pub mod path_utility;
pub mod search;
pub mod text;
