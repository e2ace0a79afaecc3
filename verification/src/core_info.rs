//! One physical core: its identity, class, logical processors, and the
//! caches it owns.

use vstd::prelude::*;

use crate::cache::CacheInfo;
use crate::mask::strictly_increasing;

verus! {

/// The class of a physical core in a hybrid design.
#[derive(Debug, Clone, Copy, PartialEq, Eq, Hash, Structural)]
pub enum CoreType {
    /// A performance core.
    Performance,
    /// An efficiency core.
    Efficiency,
    /// The platform refused to report a class and no heuristic applied.
    Unknown,
}

/// One physical core.
#[derive(Debug, Clone)]
pub struct CoreInfo {
    /// Dense, zero-based identifier across the whole machine.
    pub id: usize,
    /// The `id` of the socket holding this core.
    pub socket_id: usize,
    /// The core's class.
    pub core_type: CoreType,
    /// OS-native logical-processor identifiers hosted on this core,
    /// strictly ascending; they need not be dense.
    pub logical_processor_ids: Vec<usize>,
    /// The L1 instruction cache, if detected.
    pub l1_instruction_cache: Option<CacheInfo>,
    /// The L1 data cache, if detected.
    pub l1_data_cache: Option<CacheInfo>,
    /// The L2 cache, if detected.
    pub l2_cache: Option<CacheInfo>,
}

impl CoreInfo {
    /// A core hosts at least one logical processor, lists them strictly
    /// ascending, and keeps only caches with positive sizes.
    pub open spec fn wf(self) -> bool {
        &&& self.logical_processor_ids@.len() > 0
        &&& strictly_increasing(self.logical_processor_ids@)
        &&& (self.l1_instruction_cache matches Some(c) ==> c.valid())
        &&& (self.l1_data_cache matches Some(c) ==> c.valid())
        &&& (self.l2_cache matches Some(c) ==> c.valid())
    }
}

} // verus!
