//! CPU vendor identification and the string tables that map platform
//! identifiers to vendors.

use vstd::prelude::*;

verus! {

/// The manufacturer of a CPU.
#[derive(Debug, Clone, PartialEq, Eq)]
pub enum Vendor {
    /// Intel Corporation.
    Intel,
    /// Advanced Micro Devices.
    Amd,
    /// Arm Holdings, or a licensee reported only as Arm.
    Arm,
    /// Apple Silicon.
    Apple,
    /// The vendor could not be determined.
    Unknown,
    /// A vendor outside the named ones; holds the raw identifier.
    Other(String),
}

impl Vendor {
    /// Vendors known to ship parts whose unclassed cores may be promoted
    /// to performance cores by heuristic.
    pub open spec fn known(self) -> bool {
        self is Intel || self is Amd || self is Arm || self is Apple
    }

    /// Whether two vendor values are the same constructor with the same
    /// payload characters.
    pub open spec fn equals(self, other: Vendor) -> bool {
        match (self, other) {
            (Vendor::Intel, Vendor::Intel) => true,
            (Vendor::Amd, Vendor::Amd) => true,
            (Vendor::Arm, Vendor::Arm) => true,
            (Vendor::Apple, Vendor::Apple) => true,
            (Vendor::Unknown, Vendor::Unknown) => true,
            (Vendor::Other(a), Vendor::Other(b)) => a@ == b@,
            _ => false,
        }
    }
}

} // verus!
