use vstd::prelude::*;

verus! {

/// The failures a registry or switch operation can report.
#[derive(Clone, Copy, Debug, PartialEq, Eq, Structural)]
pub enum ConfigError {
    /// An entry with the same name is already registered.
    DuplicateName,
    /// A capability filter outside the known set was requested.
    UnknownCapability,
    /// The persisted registry text could not be parsed.
    CorruptState,
    /// A read, write, create or remove on the filesystem failed.
    IoFailure,
    /// The platform refused to create the symbolic link.
    PermissionDenied,
    /// No registered runtime matches the request.
    NoMatch,
}

} // verus!
