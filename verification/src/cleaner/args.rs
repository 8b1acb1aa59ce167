//! What the clean command is given.

use vstd::prelude::*;

verus! {

/// Where the rule file is.
#[derive(Clone, Debug, PartialEq, Eq)]
pub struct IgnoreOptions {
    pub ignore_path: String,
}

/// The arguments of the clean command.
#[derive(Clone, Debug, PartialEq, Eq)]
pub struct CleanArgs {
    pub ignore_settings: IgnoreOptions,
}

} // verus!
