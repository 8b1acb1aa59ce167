//! How the engine commands fail.

use vstd::prelude::*;
use vstd::string::StringExecFns;

verus! {

/// A failure of an engine command.
#[derive(Clone, Debug, PartialEq, Eq)]
pub enum UnrealError {
    /// No root holds an installation of the wanted version.
    EngineNotFound,
    /// There is no project to work on.
    ProjectNotFound,
    /// The tool ran and reported failure; `status` is its exit status as
    /// the system words it.
    FailedExitStatus { status: String },
    /// Reading or starting failed.
    IoError { error: String },
}

impl UnrealError {
    /// The text shown for the failure.
    pub open spec fn spec_message(&self) -> Seq<char> {
        match self {
            UnrealError::EngineNotFound => "Failed to find Unreal Engine Path."@,
            UnrealError::ProjectNotFound => "Failed to find Unreal Engine Project."@,
            UnrealError::FailedExitStatus { status } => "Failed exit status : "@ + status@,
            UnrealError::IoError { error } => error@,
        }
    }

    /// A copy of this failure.
    pub fn duplicate(&self) -> (copy: UnrealError)
        ensures
            copy == *self,
    {
        match self {
            UnrealError::EngineNotFound => UnrealError::EngineNotFound,
            UnrealError::ProjectNotFound => UnrealError::ProjectNotFound,
            UnrealError::FailedExitStatus { status } => UnrealError::FailedExitStatus {
                status: status.clone(),
            },
            UnrealError::IoError { error } => UnrealError::IoError { error: error.clone() },
        }
    }

    /// The text shown for the failure.
    pub fn message(&self) -> (text: String)
        ensures
            text@ == self.spec_message(),
    {
        match self {
            UnrealError::EngineNotFound => String::from_str("Failed to find Unreal Engine Path."),
            UnrealError::ProjectNotFound => String::from_str(
                "Failed to find Unreal Engine Project.",
            ),
            UnrealError::FailedExitStatus { status } => String::from_str(
                "Failed exit status : ",
            ).concat(status.as_str()),
            UnrealError::IoError { error } => error.clone(),
        }
    }
}

} // verus!
