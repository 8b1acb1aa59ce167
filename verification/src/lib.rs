//! Verified core of a directory-scanning tool: a bounded-depth tree walker
//! driven as a work queue, a first-match locator over several roots, a
//! streaming collector with an outcome ledger, and the rules for cleaning,
//! engine installations and packages that are built on them.

pub mod cleaner;
pub mod packages;
pub mod scan;
pub mod unreal_engine;
pub mod utility;
