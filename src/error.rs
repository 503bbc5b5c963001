use vstd::prelude::*;

verus! {

/// The failures that navigation and rename operations report.
#[derive(Clone, Copy, Debug, PartialEq, Eq, Structural)]
pub enum NavError {
    /// The path or directory does not exist.
    NotFound,
    /// The path exists but is not a directory.
    NotADirectory,
    /// The operating system refused access.
    PermissionDenied,
    /// A rename target already exists.
    NameCollision,
    /// An entry name that cannot be represented or used.
    InvalidName,
    /// Any other input/output failure.
    IOOther,
}

} // verus!
