//! The failures that navigation reports.

use vstd::prelude::*;

verus! {

/// Why an operation left the browser where it was.
#[derive(Clone, Copy, Debug, PartialEq, Eq, Structural)]
pub enum NavError {
    /// The location does not exist.
    NotFound,
    /// The location exists and is not a directory.
    NotADirectory,
    /// The host refused to enumerate the location.
    PermissionDenied,
    /// There is no parent above a volume root.
    AtRoot,
    /// The host has no folder configured for the known location.
    Unavailable,
    /// The default application could not be started.
    LaunchFailed,
    /// Any other failure of the platform.
    Io,
    /// A child name was empty, a dot name, or held a separator.
    InvalidName,
    /// A path text was not absolute and normalized.
    InvalidPath,
}

} // verus!
