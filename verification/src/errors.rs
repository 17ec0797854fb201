use vstd::prelude::*;

verus! {

/// What can go wrong when editing the connection table.
#[derive(Clone, Copy, PartialEq, Eq, Structural, Debug)]
pub enum ConfigError {
    /// A connection cannot be stored under an empty name.
    EmptyName,
}

/// The failure taxonomy of the symbolication pipeline.  Every variant is
/// terminal for the command that produced it; "no marker matched" is a
/// normal outcome and deliberately has no variant here.
#[derive(Debug)]
pub enum DebugError {
    /// The artifact could not be opened or a read failed while scanning.
    IoError { path: String },
    /// The resolver could not locate the toolchain executable, neither under
    /// the configured root directory nor on the search path.
    ToolchainNotFound { name: String, expected_location: String },
    /// The symbolication target does not exist or is not a regular file.
    InvalidTarget { path: String },
    /// No addresses were supplied, so there is nothing to symbolicate.
    NoAddresses,
    /// The external symbolication process could not be spawned.
    SpawnFailure { name: String },
}

} // verus!
