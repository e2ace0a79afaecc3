//! Cache descriptors: level, kind, size and line size of one CPU cache.

use vstd::prelude::*;

verus! {

/// The hierarchical level of a CPU cache.
#[derive(Debug, Clone, Copy, PartialEq, Eq, Hash, Structural)]
pub enum CacheLevel {
    /// Level 1, closest to the core.
    L1,
    /// Level 2.
    L2,
    /// Level 3, usually shared by a socket.
    L3,
    /// Level 4, rare.
    L4,
    /// A level the platform did not report as 1 through 4.
    Unknown,
}

/// What `CacheLevel` a raw platform level number maps to.
pub open spec fn spec_cache_level_from(level: u32) -> CacheLevel {
    if level == 1 {
        CacheLevel::L1
    } else if level == 2 {
        CacheLevel::L2
    } else if level == 3 {
        CacheLevel::L3
    } else if level == 4 {
        CacheLevel::L4
    } else {
        CacheLevel::Unknown
    }
}

impl From<u32> for CacheLevel {
    /// Maps a raw level number; anything outside 1 through 4 widens to
    /// `Unknown`.
    fn from(level: u32) -> (r: CacheLevel) {
        match level {
            1 => CacheLevel::L1,
            2 => CacheLevel::L2,
            3 => CacheLevel::L3,
            4 => CacheLevel::L4,
            _ => CacheLevel::Unknown,
        }
    }
}

impl vstd::std_specs::convert::FromSpecImpl<u32> for CacheLevel {
    open spec fn obeys_from_spec() -> bool {
        true
    }

    open spec fn from_spec(v: u32) -> CacheLevel {
        spec_cache_level_from(v)
    }
}

/// What a CPU cache holds: data, instructions, both, or decoded traces.
#[derive(Debug, Clone, Copy, PartialEq, Eq, Hash, Structural)]
pub enum CacheType {
    /// Holds both instructions and data.
    Unified,
    /// Holds executable instructions only.
    Instruction,
    /// Holds program data only.
    Data,
    /// Holds decoded micro-operations.
    Trace,
    /// A kind the platform did not report as one of the above.
    Unknown,
}

/// What `CacheType` a raw platform kind number maps to.
pub open spec fn spec_cache_type_from(kind: u32) -> CacheType {
    if kind == 0 {
        CacheType::Unified
    } else if kind == 1 {
        CacheType::Instruction
    } else if kind == 2 {
        CacheType::Data
    } else if kind == 3 {
        CacheType::Trace
    } else {
        CacheType::Unknown
    }
}

impl From<u32> for CacheType {
    /// Maps a raw kind number; anything outside 0 through 3 widens to
    /// `Unknown`.
    fn from(kind: u32) -> (r: CacheType) {
        match kind {
            0 => CacheType::Unified,
            1 => CacheType::Instruction,
            2 => CacheType::Data,
            3 => CacheType::Trace,
            _ => CacheType::Unknown,
        }
    }
}

impl vstd::std_specs::convert::FromSpecImpl<u32> for CacheType {
    open spec fn obeys_from_spec() -> bool {
        true
    }

    open spec fn from_spec(v: u32) -> CacheType {
        spec_cache_type_from(v)
    }
}

/// One CPU cache: its level, kind, total size and line size.
#[derive(Debug, Clone, Copy, PartialEq, Eq, Structural)]
pub struct CacheInfo {
    /// Where the cache sits in the hierarchy.
    pub level: CacheLevel,
    /// What the cache holds.
    pub cache_type: CacheType,
    /// Total size in bytes.
    pub size_bytes: u64,
    /// Size of one cache line in bytes.
    pub line_size_bytes: usize,
}

impl CacheInfo {
    /// Every cache the model keeps has a positive size and line size;
    /// descriptors failing this are discarded at discovery time.
    pub open spec fn valid(self) -> bool {
        self.size_bytes > 0 && self.line_size_bytes > 0
    }
}

} // verus!
