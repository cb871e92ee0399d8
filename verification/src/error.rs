//! The failures that the multiplexer and its backends report.

use vstd::prelude::*;

verus! {

/// Why an operation on the mount table, on a node or inside a backend failed.
#[derive(Debug)]
pub enum VFSError {
    /// No mount covers the path, or the backend holds no such entry.
    NotFound,
    /// Raised by backends that control access; never by the multiplexer itself.
    PermissionDenied,
    /// The operation does not apply to a node of this type.
    InvalidOperation,
    /// Raised by backends that refuse to create what is already there.
    AlreadyExists,
    /// Any other failure of a backend, with a description for people.
    Other(String),
}

impl VFSError {
    /// The text that describes this error.
    pub open spec fn message_spec(&self) -> Seq<char> {
        match self {
            VFSError::NotFound => "Not Found"@,
            VFSError::PermissionDenied => "Permission Denied"@,
            VFSError::InvalidOperation => "Invalid Operation"@,
            VFSError::AlreadyExists => "Already Exists"@,
            VFSError::Other(detail) => "Error: "@ + detail@,
        }
    }

    /// Renders the error for people.
    pub fn message(&self) -> (text: String)
        ensures
            text@ == self.message_spec(),
    {
        match self {
            VFSError::NotFound => "Not Found".to_owned(),
            VFSError::PermissionDenied => "Permission Denied".to_owned(),
            VFSError::InvalidOperation => "Invalid Operation".to_owned(),
            VFSError::AlreadyExists => "Already Exists".to_owned(),
            VFSError::Other(detail) => "Error: ".to_owned().concat(detail.as_str()),
        }
    }
}

} // verus!
