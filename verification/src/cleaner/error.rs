//! How the clean command fails before any scan starts.

use vstd::prelude::*;
use vstd::string::StringExecFns;

verus! {

/// A failure of the clean command. Failures of single items are no such
/// failure: they are lines of the ledger.
#[derive(Clone, Debug, PartialEq, Eq)]
pub enum CleanError {
    /// There is no rule file.
    IgnoreFileNotFound,
    /// A line of the rule file is no rule; lines count from 1. `None`
    /// where the rules could not be put together as a whole.
    InvalidRule { line: Option<usize>, reason: String },
    /// Reading failed.
    IoError { error: String },
}

impl CleanError {
    /// The text shown for the failure.
    pub open spec fn spec_message(&self) -> Seq<char> {
        match self {
            CleanError::IgnoreFileNotFound => "Ignore file not found."@,
            CleanError::InvalidRule { reason, .. } => reason@,
            CleanError::IoError { error } => error@,
        }
    }

    /// The text shown for the failure.
    pub fn message(&self) -> (text: String)
        ensures
            text@ == self.spec_message(),
    {
        match self {
            CleanError::IgnoreFileNotFound => String::from_str("Ignore file not found."),
            CleanError::InvalidRule { reason, .. } => reason.clone(),
            CleanError::IoError { error } => error.clone(),
        }
    }
}

} // verus!
