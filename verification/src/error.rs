//! The one error kind enumeration, surfaced uniformly on every platform.

use vstd::prelude::*;

verus! {

/// Everything that can go wrong while detecting the topology or placing
/// a thread on it.
#[derive(Debug, Clone, PartialEq, Eq)]
pub enum Error {
    /// Discovery failed structurally: a required source was absent or
    /// reported nothing usable.
    Detection(String),
    /// A logical-processor ID outside the representable range for the
    /// chosen OS call.
    InvalidCoreId(usize),
    /// No core of the requested class exists.
    NoCoreOfType(String),
    /// The kernel refused the affinity request, or the request was empty.
    Affinity(String),
    /// The operation is not available on this platform or architecture.
    Unsupported(String),
    /// The operation needs privileges the caller does not hold.
    PermissionDenied(String),
    /// An underlying input/output failure.
    Io(String),
    /// A system call failed in a way the other variants do not cover.
    SystemCall(String),
    /// A requested resource or key was not found.
    NotFound(String),
    /// A parameter failed validation.
    InvalidParameter(String),
    /// The operation is not implemented.
    NotImplemented,
}

} // verus!
