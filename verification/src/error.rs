//! The ways in which reading an os-release document can fail.

use vstd::prelude::*;
use vstd::std_specs::cmp::PartialEqSpecImpl;
use vstd::std_specs::convert::FromSpecImpl;

verus! {

/// The standard library's I/O error, carried through unopened.
#[verifier::external_type_specification]
#[verifier::external_body]
pub struct ExIoError(std::io::Error);

/// Why no document could be produced.
#[derive(Debug)]
pub enum OsReleaseError {
    /// The file could not be opened; the operating system's error is kept.
    Io(std::io::Error),
    /// None of the standard locations yielded a document.
    NoFile,
    /// A line that is neither blank nor a comment has no `=`.
    ParseError,
}

impl OsReleaseError {
    /// Whether `self` and `other` are failures of the same kind. Two I/O
    /// failures are of the same kind whatever the operating system reported.
    pub open spec fn same_kind(&self, other: &Self) -> bool {
        match (self, other) {
            (OsReleaseError::Io(_), OsReleaseError::Io(_)) => true,
            (OsReleaseError::NoFile, OsReleaseError::NoFile) => true,
            (OsReleaseError::ParseError, OsReleaseError::ParseError) => true,
            _ => false,
        }
    }

    /// The operating system's error behind this failure, if there is one.
    pub fn cause(&self) -> (r: Option<&std::io::Error>)
        ensures
            match self {
                OsReleaseError::Io(inner) => r == Some(inner),
                _ => r is None,
            },
    {
        match self {
            OsReleaseError::Io(inner) => Some(inner),
            OsReleaseError::NoFile | OsReleaseError::ParseError => None,
        }
    }

    /// A sentence that describes the failure. For an I/O failure it is the
    /// operating system's own description.
    pub fn message(&self) -> (text: String)
        ensures
            self is NoFile ==> text@ == "Failed to find os-release file"@,
            self is ParseError ==> text@ == "File is malformed"@,
    {
        match self {
            OsReleaseError::Io(inner) => describe(inner),
            OsReleaseError::NoFile => "Failed to find os-release file".to_owned(),
            OsReleaseError::ParseError => "File is malformed".to_owned(),
        }
    }
}

/// Calls `to_string` of the standard library on an I/O error, which gives
/// the text of its `Display`. That text depends on the platform, so nothing
/// is claimed of it.
#[verifier::external_body]
fn describe(inner: &std::io::Error) -> String {
    inner.to_string()
}

impl PartialEq for OsReleaseError {
    fn eq(&self, other: &Self) -> (r: bool) {
        match (self, other) {
            (OsReleaseError::Io(_), OsReleaseError::Io(_)) => true,
            (OsReleaseError::NoFile, OsReleaseError::NoFile) => true,
            (OsReleaseError::ParseError, OsReleaseError::ParseError) => true,
            _ => false,
        }
    }
}

impl PartialEqSpecImpl for OsReleaseError {
    open spec fn obeys_eq_spec() -> bool {
        true
    }

    open spec fn eq_spec(&self, other: &Self) -> bool {
        self.same_kind(other)
    }
}

impl From<std::io::Error> for OsReleaseError {
    fn from(err: std::io::Error) -> (r: Self) {
        OsReleaseError::Io(err)
    }
}

impl FromSpecImpl<std::io::Error> for OsReleaseError {
    open spec fn obeys_from_spec() -> bool {
        true
    }

    open spec fn from_spec(err: std::io::Error) -> Self {
        OsReleaseError::Io(err)
    }
}

} // verus!
