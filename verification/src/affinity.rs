//! Thread placement plans: the verified decisions behind pinning the
//! current thread to one logical processor and behind applying an
//! affinity mask, stated per platform. The runtime performs the chosen
//! OS call and this module says which call that is and when the request
//! must be refused instead.

use vstd::prelude::*;

use crate::error::Error;
use crate::mask::AffinityMask;
use crate::policy::{Arch, Platform};

verus! {

/// The OS action that realises a pin or affinity request.
#[derive(Debug, Clone, PartialEq, Eq)]
pub enum PlacementAction {
    /// Build a Linux CPU set holding the given OS processor IDs and
    /// apply it to the current thread.
    LinuxCpuSet {
        /// The OS processor IDs to set, ascending.
        cpus: Vec<usize>,
    },
    /// Apply the given 64-bit affinity word to the current thread.
    WindowsAffinityMask {
        /// The raw mask, one bit per logical processor.
        mask: u64,
    },
    /// Apply the given macOS affinity tag to the current thread; the
    /// kernel treats it as advisory.
    MacAffinityTag {
        /// The non-zero affinity tag.
        tag: i32,
    },
}

/// Decides how to pin the current thread to one logical processor.
/// Pinning is refused as unsupported on Apple Silicon, where the
/// kernel does not honour affinity; on Windows only the first 64
/// logical processors can be addressed; on Linux the ID must fit the
/// fixed CPU-set width.
pub fn pin_thread_plan(
    platform: Platform,
    arch: Arch,
    logical_core_id: usize,
    cpu_setsize: usize,
) -> (r: Result<PlacementAction, Error>)
    ensures
        platform is MacOs && arch is Aarch64 ==> (r matches Err(e) && e is Unsupported),
        platform is Windows ==> (if logical_core_id >= 64 {
            r matches Err(e) && e matches Error::InvalidCoreId(id) && id == logical_core_id
        } else {
            r matches Ok(a) && a == (PlacementAction::WindowsAffinityMask {
                mask: 1u64 << (logical_core_id as u64),
            })
        }),
        platform is Linux ==> (if logical_core_id >= cpu_setsize {
            r matches Err(e) && e matches Error::InvalidCoreId(id) && id == logical_core_id
        } else {
            r matches Ok(a) && a matches PlacementAction::LinuxCpuSet { cpus } && cpus@ == seq![
                logical_core_id,
            ]
        }),
        platform is MacOs && arch is X86_64 ==> (if logical_core_id < i32::MAX {
            r matches Ok(a) && a matches PlacementAction::MacAffinityTag { tag } && tag
                == logical_core_id + 1
        } else {
            r matches Err(e) && e matches Error::InvalidCoreId(id) && id == logical_core_id
        }),
{
    match platform {
        Platform::Linux => {
            if logical_core_id >= cpu_setsize {
                Err(Error::InvalidCoreId(logical_core_id))
            } else {
                let mut cpus: Vec<usize> = Vec::new();
                cpus.push(logical_core_id);
                proof {
                    assert(cpus@ =~= seq![logical_core_id]);
                }
                Ok(PlacementAction::LinuxCpuSet { cpus })
            }
        },
        Platform::Windows => {
            if logical_core_id >= 64 {
                Err(Error::InvalidCoreId(logical_core_id))
            } else {
                Ok(
                    PlacementAction::WindowsAffinityMask {
                        mask: 1u64 << (logical_core_id as u64),
                    },
                )
            }
        },
        Platform::MacOs => {
            match arch {
                Arch::Aarch64 => Err(
                    Error::Unsupported(
                        "the kernel does not honour thread affinity on Apple Silicon; use a priority or QoS class instead".to_owned(),
                    ),
                ),
                Arch::X86_64 => {
                    if logical_core_id < (i32::MAX as usize) {
                        Ok(PlacementAction::MacAffinityTag { tag: (logical_core_id + 1) as i32 })
                    } else {
                        Err(Error::InvalidCoreId(logical_core_id))
                    }
                },
            }
        },
    }
}

/// Whether some entry of the list at an index the mask holds equals
/// `os_id` and fits the CPU-set width.
pub open spec fn linux_affinity_selects(
    mask: AffinityMask,
    lps: Seq<usize>,
    cpu_setsize: usize,
    os_id: usize,
) -> bool {
    exists|idx: usize|
        #![trigger mask.has(idx)]
        mask.has(idx) && idx < lps.len() && lps[idx as int] == os_id && os_id < cpu_setsize
}

/// Decides how to apply an affinity mask to the current thread. An
/// empty mask is always refused as an affinity error. On macOS the
/// operation is unsupported. On Windows the low word of the mask is
/// applied, and a mask whose IDs all lie at 64 or above is refused.
/// On Linux the mask indexes the machine's logical-processor list;
/// entries outside the list or past the CPU-set width are dropped, and
/// a mask selecting nothing is refused.
pub fn thread_affinity_plan(
    platform: Platform,
    mask: &AffinityMask,
    logical_processor_ids: &Vec<usize>,
    cpu_setsize: usize,
) -> (r: Result<PlacementAction, Error>)
    ensures
        (forall|id: usize| !mask.has(id)) ==> (r matches Err(e) && e is Affinity),
        platform is MacOs && (exists|id: usize| mask.has(id)) ==> (r matches Err(e)
            && e is Unsupported),
        platform is Windows && (exists|id: usize| mask.has(id)) ==> (if mask.word_at(0) != 0 {
            r matches Ok(a) && a == (PlacementAction::WindowsAffinityMask { mask: mask.word_at(0) })
        } else {
            r matches Err(e) && e is Affinity
        }),
        platform is Linux && (exists|id: usize| mask.has(id)) ==> (if (exists|os_id: usize|
            linux_affinity_selects(*mask, logical_processor_ids@, cpu_setsize, os_id)) {
            r matches Ok(a) && a matches PlacementAction::LinuxCpuSet { cpus } && cpus@.len() > 0
                && (forall|os_id: usize|
                cpus@.contains(os_id) == linux_affinity_selects(
                    *mask,
                    logical_processor_ids@,
                    cpu_setsize,
                    os_id,
                ))
        } else {
            r matches Err(e) && e is Affinity
        }),
{
    if mask.is_empty() {
        return Err(Error::Affinity("cannot set thread affinity with an empty mask".to_owned()));
    }
    match platform {
        Platform::MacOs => Err(
            Error::Unsupported("mask affinity is not available on macOS".to_owned()),
        ),
        Platform::Windows => {
            let raw = mask.as_raw_u64();
            if raw == 0 {
                Err(
                    Error::Affinity(
                        "the mask holds no logical processor below 64".to_owned(),
                    ),
                )
            } else {
                Ok(PlacementAction::WindowsAffinityMask { mask: raw })
            }
        },
        Platform::Linux => {
            let idxs = mask.iter();
            let mut cpus: Vec<usize> = Vec::new();
            let n = idxs.len();
            for i in 0..n
                invariant
                    n == idxs@.len(),
                    forall|id: usize| idxs@.contains(id) == mask.has(id),
                    forall|os_id: usize|
                        #![trigger cpus@.contains(os_id)]
                        cpus@.contains(os_id) == (exists|j: int|
                            0 <= j < i && idxs@[j] < logical_processor_ids@.len()
                                && logical_processor_ids@[idxs@[j] as int] == os_id && os_id
                                < cpu_setsize),
            {
                let idx = idxs[i];
                let ghost pre = cpus@;
                let lps_len = logical_processor_ids.len();
                if idx < lps_len {
                    let os_id = logical_processor_ids[idx];
                    if os_id < cpu_setsize {
                        cpus.push(os_id);
                        proof {
                            crate::mask::lemma_push_contains(pre, os_id);
                            assert forall|y: usize|
                                cpus@.contains(y) == (exists|j: int|
                                    0 <= j < i + 1 && idxs@[j] < logical_processor_ids@.len()
                                        && logical_processor_ids@[idxs@[j] as int] == y && y
                                        < cpu_setsize) by {
                                if cpus@.contains(y) {
                                    if pre.contains(y) {
                                        let j = choose|j: int|
                                            0 <= j < i && idxs@[j] < logical_processor_ids@.len()
                                                && logical_processor_ids@[idxs@[j] as int] == y
                                                && y < cpu_setsize;
                                        assert(0 <= j < i + 1 && idxs@[j]
                                            < logical_processor_ids@.len()
                                            && logical_processor_ids@[idxs@[j] as int] == y && y
                                            < cpu_setsize);
                                    } else {
                                        assert(y == os_id);
                                        assert(0 <= (i as int) < i + 1 && idxs@[i as int]
                                            < logical_processor_ids@.len()
                                            && logical_processor_ids@[idxs@[i as int] as int] == y
                                            && y < cpu_setsize);
                                    }
                                }
                                if exists|j: int|
                                    0 <= j < i + 1 && idxs@[j] < logical_processor_ids@.len()
                                        && logical_processor_ids@[idxs@[j] as int] == y && y
                                        < cpu_setsize {
                                    let j = choose|j: int|
                                        0 <= j < i + 1 && idxs@[j] < logical_processor_ids@.len()
                                            && logical_processor_ids@[idxs@[j] as int] == y && y
                                            < cpu_setsize;
                                    if j < i {
                                        assert(pre.contains(y));
                                        assert(cpus@.contains(y));
                                    } else {
                                        assert(y == os_id);
                                        assert(cpus@.contains(y));
                                    }
                                }
                            }
                        }
                    } else {
                        proof {
                            assert forall|y: usize|
                                cpus@.contains(y) == (exists|j: int|
                                    0 <= j < i + 1 && idxs@[j] < logical_processor_ids@.len()
                                        && logical_processor_ids@[idxs@[j] as int] == y && y
                                        < cpu_setsize) by {
                                if cpus@.contains(y) {
                                    let j = choose|j: int|
                                        0 <= j < i && idxs@[j] < logical_processor_ids@.len()
                                            && logical_processor_ids@[idxs@[j] as int] == y && y
                                            < cpu_setsize;
                                    assert(0 <= j < i + 1 && idxs@[j]
                                        < logical_processor_ids@.len()
                                        && logical_processor_ids@[idxs@[j] as int] == y && y
                                        < cpu_setsize);
                                }
                                if exists|j: int|
                                    0 <= j < i + 1 && idxs@[j] < logical_processor_ids@.len()
                                        && logical_processor_ids@[idxs@[j] as int] == y && y
                                        < cpu_setsize {
                                    let j = choose|j: int|
                                        0 <= j < i + 1 && idxs@[j] < logical_processor_ids@.len()
                                            && logical_processor_ids@[idxs@[j] as int] == y && y
                                            < cpu_setsize;
                                    if j < i {
                                        assert(cpus@.contains(y));
                                    } else {
                                        assert(logical_processor_ids@[idx as int] == y);
                                        assert(false);
                                    }
                                }
                            }
                        }
                    }
                } else {
                    proof {
                        assert forall|y: usize|
                            cpus@.contains(y) == (exists|j: int|
                                0 <= j < i + 1 && idxs@[j] < logical_processor_ids@.len()
                                    && logical_processor_ids@[idxs@[j] as int] == y && y
                                    < cpu_setsize) by {
                            if cpus@.contains(y) {
                                let j = choose|j: int|
                                    0 <= j < i && idxs@[j] < logical_processor_ids@.len()
                                        && logical_processor_ids@[idxs@[j] as int] == y && y
                                        < cpu_setsize;
                                assert(0 <= j < i + 1 && idxs@[j] < logical_processor_ids@.len()
                                    && logical_processor_ids@[idxs@[j] as int] == y && y
                                    < cpu_setsize);
                            }
                            if exists|j: int|
                                0 <= j < i + 1 && idxs@[j] < logical_processor_ids@.len()
                                    && logical_processor_ids@[idxs@[j] as int] == y && y
                                    < cpu_setsize {
                                let j = choose|j: int|
                                    0 <= j < i + 1 && idxs@[j] < logical_processor_ids@.len()
                                        && logical_processor_ids@[idxs@[j] as int] == y && y
                                        < cpu_setsize;
                                if j < i {
                                    assert(cpus@.contains(y));
                                } else {
                                    assert(false);
                                }
                            }
                        }
                    }
                }
            }
            proof {
                assert forall|os_id: usize|
                    cpus@.contains(os_id) == linux_affinity_selects(
                        *mask,
                        logical_processor_ids@,
                        cpu_setsize,
                        os_id,
                    ) by {
                    if cpus@.contains(os_id) {
                        let j = choose|j: int|
                            0 <= j < n && idxs@[j] < logical_processor_ids@.len()
                                && logical_processor_ids@[idxs@[j] as int] == os_id && os_id
                                < cpu_setsize;
                        let idx = idxs@[j];
                        assert(idxs@.contains(idx));
                        assert(mask.has(idx));
                    }
                    if linux_affinity_selects(*mask, logical_processor_ids@, cpu_setsize, os_id) {
                        let idx = choose|idx: usize|
                            #![trigger mask.has(idx)]
                            mask.has(idx) && idx < logical_processor_ids@.len()
                                && logical_processor_ids@[idx as int] == os_id && os_id
                                < cpu_setsize;
                        assert(idxs@.contains(idx));
                        let j = choose|j: int| 0 <= j < idxs@.len() && idxs@[j] == idx;
                        assert(0 <= j < n && idxs@[j] < logical_processor_ids@.len()
                            && logical_processor_ids@[idxs@[j] as int] == os_id && os_id
                            < cpu_setsize);
                    }
                }
            }
            if cpus.len() == 0 {
                proof {
                    assert forall|os_id: usize|
                        !linux_affinity_selects(
                            *mask,
                            logical_processor_ids@,
                            cpu_setsize,
                            os_id,
                        ) by {
                        assert(!cpus@.contains(os_id));
                    }
                }
                Err(
                    Error::Affinity(
                        "no valid cores could be added to the affinity mask".to_owned(),
                    ),
                )
            } else {
                proof {
                    assert(cpus@.contains(cpus@[0]));
                }
                Ok(PlacementAction::LinuxCpuSet { cpus })
            }
        },
    }
}

} // verus!
