//! How setting up packages fails.

use vstd::prelude::*;
use vstd::string::StringExecFns;

verus! {

/// A failure to read the registry of packages.
#[derive(Clone, Debug, PartialEq, Eq)]
pub enum PackageError {
    /// The registry file could not be read.
    Io { error: String },
    /// The registry file is no registry.
    Parsing { error: String },
}

/// A failure of the setup command or of the setup of one package.
#[derive(Clone, Debug, PartialEq, Eq)]
pub enum SetupError {
    Package(PackageError),
    Io { error: String },
    /// The download failed.
    ReqwestError,
    /// What was downloaded is no archive, or could not be unpacked.
    ZipError { error: String },
}

impl PackageError {
    /// The text shown for the failure.
    pub open spec fn spec_message(&self) -> Seq<char> {
        match self {
            PackageError::Io { error } => "Io Error : "@ + error@,
            PackageError::Parsing { .. } => "Failed to Parse the Package."@,
        }
    }

    /// The text shown for the failure.
    pub fn message(&self) -> (text: String)
        ensures
            text@ == self.spec_message(),
    {
        match self {
            PackageError::Io { error } => String::from_str("Io Error : ").concat(error.as_str()),
            PackageError::Parsing { .. } => String::from_str("Failed to Parse the Package."),
        }
    }
}

impl SetupError {
    /// The text shown for the failure.
    pub open spec fn spec_message(&self) -> Seq<char> {
        match self {
            SetupError::Package(inner) => "Package Error : "@ + inner.spec_message(),
            SetupError::Io { error } => "Io Error : "@ + error@,
            SetupError::ReqwestError => "Reqwest Error"@,
            SetupError::ZipError { error } => "Zip Error : "@ + error@,
        }
    }

    /// The text shown for the failure.
    pub fn message(&self) -> (text: String)
        ensures
            text@ == self.spec_message(),
    {
        match self {
            SetupError::Package(inner) => {
                let detail = inner.message();
                String::from_str("Package Error : ").concat(detail.as_str())
            },
            SetupError::Io { error } => String::from_str("Io Error : ").concat(error.as_str()),
            SetupError::ReqwestError => String::from_str("Reqwest Error"),
            SetupError::ZipError { error } => String::from_str("Zip Error : ").concat(
                error.as_str(),
            ),
        }
    }
}

/// How many failures stand at the head of some results, before the first
/// success.
pub open spec fn leading_failures(results: Seq<Result<(), SetupError>>) -> int
    decreases results.len(),
{
    if results.len() == 0 {
        0
    } else if results[0] is Ok {
        0
    } else {
        1 + leading_failures(results.drop_first())
    }
}

/// Counts the failures that the setup command shows: those that stand
/// before the first success.
pub fn failures_to_show(results: &Vec<Result<(), SetupError>>) -> (count: usize)
    ensures
        count == leading_failures(results@),
        count <= results.len(),
        count < results.len() ==> results[count as int] is Ok,
        forall|i: int| 0 <= i < count ==> results[i] is Err,
{
    let mut index: usize = 0;
    assert(results@.skip(0) =~= results@);
    while index < results.len()
        invariant
            index <= results.len(),
            leading_failures(results@) == index + leading_failures(results@.skip(index as int)),
            forall|i: int| 0 <= i < index ==> results[i] is Err,
        decreases results.len() - index,
    {
        assert(results@.skip(index as int)[0] == results@[index as int]);
        if results[index].is_ok() {
            return index;
        }
        assert(results@.skip(index as int).drop_first() =~= results@.skip(index + 1));
        index = index + 1;
    }
    assert(results@.skip(index as int).len() == 0);
    index
}

} // verus!
