//! The ways in which loading a catalog or answering a request can fail.

use vstd::prelude::*;

verus! {

/// Why a catalog could not be loaded.
#[derive(Clone, Copy, Debug, PartialEq, Eq, Structural)]
pub enum CatalogError {
    /// The catalog source could not be read at all.
    Unreadable,
    /// The source was read, but an entry is not well formed or two entries
    /// install the same version.
    Malformed,
}

/// Why a request could not be answered.
#[derive(Clone, Copy, Debug, PartialEq, Eq, Structural)]
pub enum RequestError {
    /// A version reported by the device is not a semantic version.
    InvalidVersion,
    /// No stored binary goes by the requested name.
    ArtifactNotFound,
}

} // verus!
