//! What the setup command is given.

use vstd::prelude::*;

verus! {

/// The arguments of the setup command.
#[derive(Clone, Debug, PartialEq, Eq)]
pub struct PackagesArgs {
    /// The file that names the packages.
    pub config_path: String,
}

} // verus!
