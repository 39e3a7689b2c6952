//! Error values returned by the version-directory operations.

use vstd::prelude::*;
use vstd::string::StringExecFns;

verus! {

/// What went wrong in a version-directory operation.
///
/// Every failure a caller can be handed is one of these; the
/// [`VdError::message`] method renders the human-readable text that the
/// command surface reports.
#[derive(Debug)]
pub enum VdError {
    /// The named path (or version id) does not exist.
    NotFound(String),
    /// The named path (or version id) is already present.
    AlreadyExists(String),
    /// A parent directory was required but the path has none.
    NoParent,
    /// The application configuration directory could not be determined.
    NoConfigDir,
}

impl VdError {
    /// The exact text that `message` returns.
    pub open spec fn message_spec(&self) -> Seq<char> {
        match self {
            VdError::NotFound(p) => "not found: "@ + p@,
            VdError::AlreadyExists(p) => "already exists: "@ + p@,
            VdError::NoParent => "failed to get parent directory"@,
            VdError::NoConfigDir => "failed to get app config directory"@,
        }
    }

    /// Render the error as human-readable text, embedding the path involved.
    pub fn message(&self) -> (r: String)
        ensures
            r@ == self.message_spec(),
    {
        match self {
            VdError::NotFound(p) => {
                let mut s = String::from_str("not found: ");
                s.append(p.as_str());
                s
            },
            VdError::AlreadyExists(p) => {
                let mut s = String::from_str("already exists: ");
                s.append(p.as_str());
                s
            },
            VdError::NoParent => String::from_str("failed to get parent directory"),
            VdError::NoConfigDir => String::from_str("failed to get app config directory"),
        }
    }
}

} // verus!
