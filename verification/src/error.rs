//! Error taxonomy of the pipeline.
//!
//! Failures while discovering the batch (a path that does not exist) or while
//! setting up a backend abort the whole run; failures inside a single file's
//! content never surface here, they degrade to an empty result instead.

use vstd::prelude::*;
use vstd::string::StringExecFns;

verus! {

/// An error of the pipeline.  `Io` carries the text of an operating-system
/// error, `Invalid` a rejected argument, `Other` anything else.
#[derive(Debug)]
pub enum ClapetyError {
    Io(String),
    Invalid(String),
    Other(String),
}

impl ClapetyError {
    /// The human-readable description of this error.
    pub fn message(&self) -> (msg: String)
        ensures
            msg@ == match self {
                ClapetyError::Io(s) => "IO error: "@ + s@,
                ClapetyError::Invalid(s) => "Invalid argument: "@ + s@,
                ClapetyError::Other(s) => "Other: "@ + s@,
            },
    {
        match self {
            ClapetyError::Io(s) => String::from_str("IO error: ").concat(s.as_str()),
            ClapetyError::Invalid(s) => String::from_str("Invalid argument: ").concat(s.as_str()),
            ClapetyError::Other(s) => String::from_str("Other: ").concat(s.as_str()),
        }
    }
}

/// The error reported when a user-supplied input path names neither an
/// existing file nor an existing directory.
pub fn invalid_path_error(path: &str) -> (e: ClapetyError)
    ensures
        e matches ClapetyError::Invalid(m) && m@ == "Path not found: "@ + path@,
{
    ClapetyError::Invalid(String::from_str("Path not found: ").concat(path))
}

} // verus!
