//! The macOS backend: synthesises the canonical topology from the
//! aggregate counters and per-class cache sizes the system control
//! interface reports. The runtime performs the key lookups; a key the
//! system does not expose arrives here as an absent value.

use vstd::prelude::*;
use vstd::string::StringSliceAdditionalSpecFns;
use vstd::utf8::encode_utf8;

use crate::cache::{CacheInfo, CacheLevel, CacheType};
use crate::core_info::CoreType;
use crate::error::Error;
use crate::features::CpuFeatures;
use crate::info::CpuInfo;
use crate::parse::{bytes_eq, lower_bytes, to_lower};
use crate::info::flat_cores;
use crate::mask::strictly_increasing;
use crate::topology::{
    CoreSeed, assemble, key_has_socket, lemma_count_of_split, lemma_dense_socket_ids,
    promoted_type, seed_key_in_prefix, seeds_disjoint, seeds_lp_total, seeds_sorted,
};
use crate::vendor::Vendor;

verus! {

/// The per-class cache sizes of one Apple Silicon performance level.
#[derive(Debug, Clone, Copy)]
pub struct PerfLevelCaches {
    /// The level-one instruction cache size of one core, in bytes.
    pub l1i_size: Option<u64>,
    /// The level-one data cache size of one core, in bytes.
    pub l1d_size: Option<u64>,
    /// The cluster-shared level-two cache size, in bytes.
    pub l2_size: Option<u64>,
    /// How many sibling cores share one level-two instance.
    pub cpus_per_l2: Option<u32>,
}

/// Everything the macOS backend reads, gathered as plain values: the
/// aggregate counters, the hybrid performance-level keys, the cache
/// keys, the identification strings, the optional-feature keys, and
/// what the instruction-level query already established.
#[derive(Debug, Clone)]
pub struct MacSnapshot {
    /// The socket count the system reports, absent when unavailable.
    pub packages: Option<u32>,
    /// The physical core count.
    pub physical_cpu: Option<u32>,
    /// The logical processor count.
    pub logical_cpu: Option<u32>,
    /// The cache line size in bytes.
    pub cache_line_size: Option<u64>,
    /// The performance-core count of a hybrid part.
    pub perf_level0_physical: Option<u32>,
    /// The efficiency-core count of a hybrid part.
    pub perf_level1_physical: Option<u32>,
    /// The performance-level cache keys of the performance class.
    pub perf_level0_caches: PerfLevelCaches,
    /// The performance-level cache keys of the efficiency class.
    pub perf_level1_caches: PerfLevelCaches,
    /// The machine-wide level-one instruction cache size, on Intel parts.
    pub l1i_total: Option<u64>,
    /// The machine-wide level-one data cache size, on Intel parts.
    pub l1d_total: Option<u64>,
    /// The machine-wide level-two cache size, on Intel parts.
    pub l2_total: Option<u64>,
    /// The machine-wide level-three cache size.
    pub l3_total: Option<u64>,
    /// The brand string.
    pub brand_string: Option<String>,
    /// The vendor string.
    pub vendor_string: Option<String>,
    /// Whether the advanced SIMD extension is reported.
    pub feat_neon: bool,
    /// Whether AES acceleration is reported.
    pub feat_aes: bool,
    /// Whether any of the secure-hash extensions is reported.
    pub feat_sha: bool,
    /// Whether CRC32 acceleration is reported.
    pub feat_crc32: bool,
    /// Whether the scalable matrix extension is reported.
    pub feat_sme: bool,
    /// The vendor the instruction-level query reported.
    pub cpuid_vendor: Vendor,
    /// The model name the instruction-level query reported.
    pub cpuid_model_name: String,
    /// The features the instruction-level query reported.
    pub cpuid_features: CpuFeatures,
}

impl MacSnapshot {
    /// The physical core count the snapshot reports, zero when absent.
    pub open spec fn spec_physical(self) -> int {
        match self.physical_cpu {
            Some(p) => p as int,
            None => 0,
        }
    }

    /// The logical processor count used for synthesis: the reported
    /// value, raised to the core count so that every core hosts at
    /// least one hardware thread.
    pub open spec fn spec_logical(self) -> int {
        let p = self.spec_physical();
        let l = match self.logical_cpu {
            Some(l) => l as int,
            None => 0,
        };
        if l < p {
            p
        } else {
            l
        }
    }

    /// The characters of the reported brand string, or the placeholder.
    pub open spec fn spec_model_chars(self) -> Seq<char> {
        match self.brand_string {
            Some(b) => b@,
            None => "Unknown"@,
        }
    }

    /// The characters of the reported vendor string, or the placeholder.
    pub open spec fn spec_vendor_chars(self) -> Seq<char> {
        match self.vendor_string {
            Some(v) => v@,
            None => "Unknown"@,
        }
    }

    /// The feature flags the optional-feature keys of an Apple part set.
    pub open spec fn spec_apple_feature_bits(self) -> u32 {
        (if self.feat_neon {
            CpuFeatures::NEON
        } else {
            0u32
        }) | (if self.feat_aes {
            CpuFeatures::AES
        } else {
            0u32
        }) | (if self.feat_sha {
            CpuFeatures::SHA
        } else {
            0u32
        }) | (if self.feat_crc32 {
            CpuFeatures::CRC32
        } else {
            0u32
        }) | (if self.feat_sme {
            CpuFeatures::SVE
        } else {
            0u32
        })
    }

    /// The socket count used for synthesis: the reported value, at
    /// least one, capped at the core count so that every socket holds
    /// at least one core.
    pub open spec fn spec_sockets(self) -> int {
        let p = self.spec_physical();
        let r = match self.packages {
            Some(v) => if v > 0 {
                v as int
            } else {
                1
            },
            None => 1,
        };
        if r > p {
            p
        } else {
            r
        }
    }
}

/// Accepts a typed system-control answer only when the call succeeded
/// and wrote exactly the expected width; a width disagreement must be
/// refused.
pub fn sysctl_int_accepted(ret_ok: bool, written: usize, expected: usize) -> (r: bool)
    ensures
        r == (ret_ok && written == expected),
{
    ret_ok && written == expected
}

/// Whether the needle occurs at position `p` of the haystack.
pub open spec fn spec_sub_at(h: Seq<u8>, nd: Seq<u8>, p: int) -> bool {
    0 <= p && p + nd.len() <= h.len() && h.subrange(p, p + nd.len() as int) == nd
}

/// Whether the haystack, folded to lower case, holds the needle.
pub open spec fn spec_contains_fold(h: Seq<u8>, nd: Seq<u8>) -> bool {
    exists|p: int| #[trigger] spec_sub_at(lower_bytes(h), nd, p)
}

/// Whether the byte run holds the given run as a sub-run, after folding
/// the haystack to lower case.
fn contains_fold(hay: &[u8], needle: &[u8]) -> (r: bool)
    ensures
        r == spec_contains_fold(hay@, needle@),
{
    let h = to_lower(hay);
    let ghost hv = h@;
    let m = needle.len();
    let n = h.len();
    if m > n {
        proof {
            assert forall|p: int| !spec_sub_at(lower_bytes(hay@), needle@, p) by {}
        }
        return false;
    }
    if m == 0 {
        proof {
            assert(hv.subrange(0, 0) =~= needle@);
            assert(spec_sub_at(lower_bytes(hay@), needle@, 0));
        }
        return true;
    }
    let last = n - m;
    let mut start: usize = 0;
    while start <= last
        invariant
            start <= last + 1,
            last == n - m,
            n == h@.len(),
            h@ == hv,
            hv == lower_bytes(hay@),
            m == needle@.len(),
            1 <= m <= n,
            forall|p: int| 0 <= p < start ==> !spec_sub_at(hv, needle@, p),
        decreases last - start + 1,
    {
        let window = crate::parse::slice_range(h.as_slice(), start, start + m);
        if bytes_eq(window, needle) {
            proof {
                assert(window@ == hv.subrange(start as int, start as int + m as int));
                assert(spec_sub_at(lower_bytes(hay@), needle@, start as int));
            }
            return true;
        }
        proof {
            assert forall|p: int| 0 <= p < start + 1 implies !spec_sub_at(hv, needle@, p) by {
                if p == start as int {
                    assert(window@ == hv.subrange(start as int, start as int + m as int));
                }
            }
        }
        start = start + 1;
    }
    proof {
        assert forall|p: int| !spec_sub_at(lower_bytes(hay@), needle@, p) by {
            if 0 <= p && p + needle@.len() <= hv.len() {
                assert(p < start);
                assert(!spec_sub_at(hv, needle@, p));
            }
        }
    }
    false
}

/// The identification and features from the system control strings and
/// optional-feature keys: the documented vendor identifiers first, then
/// the case-folded substring heuristics, then the raw string; the
/// model name is the brand string or the placeholder; the Apple
/// optional-feature keys set flags only when the vendor came out as
/// Apple.
fn detect_cpu_via_sysctl(snapshot: &MacSnapshot) -> (r: (Vendor, String, CpuFeatures))
    ensures
        ({
            let vb = encode_utf8(snapshot.spec_vendor_chars());
            let mb = encode_utf8(snapshot.spec_model_chars());
            if vb == "GenuineIntel".spec_bytes() {
                r.0 is Intel
            } else if vb == "AuthenticAMD".spec_bytes() {
                r.0 is Amd
            } else if vb == "Apple".spec_bytes() {
                r.0 is Apple
            } else if spec_contains_fold(mb, "apple".spec_bytes()) || spec_contains_fold(
                vb,
                "apple".spec_bytes(),
            ) {
                r.0 is Apple
            } else if spec_contains_fold(mb, "intel".spec_bytes()) {
                r.0 is Intel
            } else if spec_contains_fold(mb, "amd".spec_bytes()) {
                r.0 is Amd
            } else {
                r.0 matches Vendor::Other(x) && x@ == snapshot.spec_vendor_chars()
            }
        }),
        r.1@ == snapshot.spec_model_chars(),
        r.2.spec_bits() == (if r.0 is Apple {
            snapshot.spec_apple_feature_bits()
        } else {
            0u32
        }),
{
    let model_name = match &snapshot.brand_string {
        Some(s) => crate::linux::clone_string(s),
        None => "Unknown".to_owned(),
    };
    let vendor_str = match &snapshot.vendor_string {
        Some(s) => crate::linux::clone_string(s),
        None => "Unknown".to_owned(),
    };
    let vendor = if bytes_eq(vendor_str.as_str().as_bytes(), "GenuineIntel".as_bytes()) {
        Vendor::Intel
    } else if bytes_eq(vendor_str.as_str().as_bytes(), "AuthenticAMD".as_bytes()) {
        Vendor::Amd
    } else if bytes_eq(vendor_str.as_str().as_bytes(), "Apple".as_bytes()) {
        Vendor::Apple
    } else if contains_fold(model_name.as_str().as_bytes(), "apple".as_bytes()) || contains_fold(
        vendor_str.as_str().as_bytes(),
        "apple".as_bytes(),
    ) {
        Vendor::Apple
    } else if contains_fold(model_name.as_str().as_bytes(), "intel".as_bytes()) {
        Vendor::Intel
    } else if contains_fold(model_name.as_str().as_bytes(), "amd".as_bytes()) {
        Vendor::Amd
    } else {
        Vendor::Other(vendor_str)
    };
    let vendor_is_apple = match &vendor {
        Vendor::Apple => true,
        _ => false,
    };
    let bits: u32 = if vendor_is_apple {
        (if snapshot.feat_neon {
            CpuFeatures::NEON
        } else {
            0u32
        }) | (if snapshot.feat_aes {
            CpuFeatures::AES
        } else {
            0u32
        }) | (if snapshot.feat_sha {
            CpuFeatures::SHA
        } else {
            0u32
        }) | (if snapshot.feat_crc32 {
            CpuFeatures::CRC32
        } else {
            0u32
        }) | (if snapshot.feat_sme {
            CpuFeatures::SVE
        } else {
            0u32
        })
    } else {
        0u32
    };
    let features = CpuFeatures::from_bits(bits);
    (vendor, model_name, features)
}

/// A per-core cache descriptor from a reported size, discarded when the
/// size is zero or absent.
fn cache_of(
    level: CacheLevel,
    kind: CacheType,
    size: Option<u64>,
    line_size: usize,
) -> (r: Option<CacheInfo>)
    requires
        line_size > 0,
    ensures
        r matches Some(c) ==> c.valid(),
{
    match size {
        Some(s) if s > 0 => Some(
            CacheInfo { level, cache_type: kind, size_bytes: s, line_size_bytes: line_size },
        ),
        _ => None,
    }
}

/// The identification: the instruction-level answers are
/// authoritative; the system control fallback fills only the fields
/// that are still missing, and the feature set only ever gains flags.
fn detect_basic_cpu_info(snapshot: &MacSnapshot) -> (r: (Vendor, String, CpuFeatures))
    ensures
        !(snapshot.cpuid_vendor is Unknown) ==> r.0.equals(snapshot.cpuid_vendor),
        r.2.spec_bits() & snapshot.cpuid_features.spec_bits()
            == snapshot.cpuid_features.spec_bits(),
{
    let mut vendor = crate::linux::clone_vendor(&snapshot.cpuid_vendor);
    let mut model_name = crate::linux::clone_string(&snapshot.cpuid_model_name);
    let mut features = snapshot.cpuid_features;
    let vendor_unknown = match &vendor {
        Vendor::Unknown => true,
        _ => false,
    };
    let model_placeholder = bytes_eq(model_name.as_str().as_bytes(), "Unknown".as_bytes());
    let features_empty = features.is_empty();
    if vendor_unknown || model_placeholder || features_empty {
        let (v, m, f) = detect_cpu_via_sysctl(snapshot);
        if vendor_unknown {
            vendor = v;
        }
        if model_placeholder {
            model_name = m;
        }
        let ghost before = features.spec_bits();
        let added = f.bits();
        features.insert(added);
        proof {
            assert((before | added) & before == before) by (bit_vector);
        }
    }
    proof {
        let b = snapshot.cpuid_features.spec_bits();
        assert(b & b == b) by (bit_vector);
    }
    (vendor, model_name, features)
}

/// Detects the whole topology from a macOS snapshot. The platform hands
/// out aggregate counters rather than per-processor records, so the
/// structure is synthesised: cores are spread evenly over the sockets
/// and logical processors over the cores, the first cores of a hybrid
/// part take the performance class, and the per-class cache keys attach
/// to the matching cores. A machine reporting no physical core is a
/// detection error; success implies every structural invariant of the
/// model.
#[verifier::rlimit(100)]
pub fn detect_cpu_info(snapshot: &MacSnapshot) -> (r: Result<CpuInfo, Error>)
    ensures
        r is Ok <==> snapshot.spec_physical() > 0,
        r matches Err(e) ==> e is Detection,
        r matches Ok(info) ==> info.wf(),
        r matches Ok(info) ==> (!(snapshot.cpuid_vendor is Unknown) ==> info.vendor.equals(
            snapshot.cpuid_vendor,
        )),
        r matches Ok(info) ==> info.features.spec_bits() & snapshot.cpuid_features.spec_bits()
            == snapshot.cpuid_features.spec_bits(),
        r matches Ok(info) ==> info.total_physical_cores == snapshot.spec_physical(),
        r matches Ok(info) ==> info.total_logical_processors == snapshot.spec_logical(),
        r matches Ok(info) ==> info.total_sockets == snapshot.spec_sockets()
            && info.sockets@.len() == snapshot.spec_sockets() && (forall|s: int|
            0 <= s < info.sockets@.len() ==> (#[trigger] info.sockets@[s]).id == s),
        r matches Ok(info) ==> (forall|g: int|
            0 <= g < flat_cores(info.sockets@).len() ==> (#[trigger] flat_cores(
                info.sockets@,
            )[g]).core_type == (if g < info.total_performance_cores {
                CoreType::Performance
            } else {
                CoreType::Efficiency
            })),
        r matches Ok(info) ==> info.total_performance_cores + info.total_efficiency_cores
            == info.total_physical_cores,
        r matches Ok(info) ==> ({
            let p = snapshot.spec_physical();
            let l = snapshot.spec_logical();
            forall|g: int|
                0 <= g < flat_cores(info.sockets@).len() ==> (#[trigger] flat_cores(
                    info.sockets@,
                )[g]).logical_processor_ids@.len() == (if g < l % p {
                    l / p + 1
                } else {
                    l / p
                })
        }),
        r matches Ok(info) ==> (snapshot.l3_total is None ==> (forall|s: int|
            0 <= s < info.sockets@.len() ==> (#[trigger] info.sockets@[s]).l3_cache is None)),
{
    let (vendor, model_name, features) = detect_basic_cpu_info(snapshot);

    let total_physical: usize = match snapshot.physical_cpu {
        Some(v) if v > 0 => v as usize,
        _ => {
            return Err(
                Error::Detection(
                    "the platform reported no physical core".to_owned(),
                ),
            );
        },
    };
    let reported_logical: usize = match snapshot.logical_cpu {
        Some(v) => v as usize,
        None => 0,
    };
    // every core hosts at least one hardware thread
    let total_logical: usize = if reported_logical < total_physical {
        total_physical
    } else {
        reported_logical
    };
    let reported_sockets: usize = match snapshot.packages {
        Some(v) if v > 0 => v as usize,
        _ => 1,
    };
    // every socket holds at least one core
    let total_sockets: usize = if reported_sockets > total_physical {
        total_physical
    } else {
        reported_sockets
    };

    let vendor_is_apple = match &vendor {
        Vendor::Apple => true,
        _ => false,
    };
    let mut perf_cores: usize = 0;
    if vendor_is_apple {
        perf_cores = match snapshot.perf_level0_physical {
            Some(v) => v as usize,
            None => 0,
        };
        let eff_cores: usize = match snapshot.perf_level1_physical {
            Some(v) => v as usize,
            None => 0,
        };
        if perf_cores == 0 && eff_cores == 0 {
            perf_cores = total_physical;
        }
    } else {
        perf_cores = total_physical;
    }

    let line_size: usize = match snapshot.cache_line_size {
        Some(v) if v > 0 && v <= usize::MAX as u64 => v as usize,
        _ => 64,
    };

    let p_l1i = cache_of(
        CacheLevel::L1,
        CacheType::Instruction,
        snapshot.perf_level0_caches.l1i_size,
        line_size,
    );
    let p_l1d = cache_of(
        CacheLevel::L1,
        CacheType::Data,
        snapshot.perf_level0_caches.l1d_size,
        line_size,
    );
    let p_l2 = cache_of(
        CacheLevel::L2,
        CacheType::Unified,
        snapshot.perf_level0_caches.l2_size,
        line_size,
    );
    let e_l1i = cache_of(
        CacheLevel::L1,
        CacheType::Instruction,
        snapshot.perf_level1_caches.l1i_size,
        line_size,
    );
    let e_l1d = cache_of(
        CacheLevel::L1,
        CacheType::Data,
        snapshot.perf_level1_caches.l1d_size,
        line_size,
    );
    let e_l2 = cache_of(
        CacheLevel::L2,
        CacheType::Unified,
        snapshot.perf_level1_caches.l2_size,
        line_size,
    );
    // machine-wide level-one and level-two sizes, split per core, for
    // parts without performance levels
    let g_l1i = cache_of(
        CacheLevel::L1,
        CacheType::Instruction,
        div_opt(snapshot.l1i_total, total_physical as u64),
        line_size,
    );
    let g_l1d = cache_of(
        CacheLevel::L1,
        CacheType::Data,
        div_opt(snapshot.l1d_total, total_physical as u64),
        line_size,
    );
    let g_l2 = cache_of(
        CacheLevel::L2,
        CacheType::Unified,
        div_opt(snapshot.l2_total, total_physical as u64),
        line_size,
    );

    // spread the cores over the sockets and the processors over the
    // cores: the first remainder sockets and cores take one extra
    let cores_base = total_physical / total_sockets;
    let cores_extra = total_physical % total_sockets;
    let lps_base = total_logical / total_physical;
    let lps_extra = total_logical % total_physical;

    let mut seeds: Vec<CoreSeed> = Vec::new();
    let mut core_idx: usize = 0;
    let mut lp_idx: usize = 0;
    proof {
        assert(0int * cores_base as int == 0) by (nonlinear_arith);
        assert(0int * lps_base as int == 0) by (nonlinear_arith);
        assert(lps_base >= 1) by (nonlinear_arith)
            requires
                lps_base == total_logical / total_physical,
                total_logical >= total_physical,
                total_physical >= 1,
        ;
    }
    for socket in 0..total_sockets
        invariant
            total_sockets >= 1,
            total_physical >= 1,
            total_sockets <= total_physical,
            total_logical >= total_physical,
            cores_base == total_physical / total_sockets,
            cores_extra == total_physical % total_sockets,
            lps_base == total_logical / total_physical,
            lps_extra == total_logical % total_physical,
            lps_base >= 1,
            total_logical <= usize::MAX,
            total_physical <= usize::MAX,
            seeds@.len() == core_idx,
            core_idx as int == socket as int * cores_base as int + vstd::math::min(
                socket as int,
                cores_extra as int,
            ),
            core_idx <= total_physical,
            lp_idx as int == core_idx as int * lps_base as int + vstd::math::min(
                core_idx as int,
                lps_extra as int,
            ),
            seeds_lp_total(seeds@) == lp_idx,
            seeds_sorted(seeds@),
            seeds_disjoint(seeds@),
            forall|g: int| 0 <= g < seeds@.len() ==> (#[trigger] seeds@[g]).wf(),
            forall|g: int| 0 <= g < seeds@.len() ==> (#[trigger] seeds@[g]).socket_key < socket,
            forall|sk: usize|
                sk < socket ==> #[trigger] seed_key_in_prefix(seeds@, seeds@.len() as int, sk),
            forall|g: int|
                0 <= g < seeds@.len() ==> (#[trigger] seeds@[g]).core_type == (if g
                    < perf_cores as int {
                    CoreType::Performance
                } else {
                    CoreType::Efficiency
                }),
            forall|g: int|
                0 <= g < seeds@.len() ==> (#[trigger] seeds@[g]).lp_ids@.len() as int == (if g
                    < lps_extra as int {
                    lps_base as int + 1
                } else {
                    lps_base as int
                }),
            forall|g: int, i: int|
                0 <= g < seeds@.len() && 0 <= i < seeds@[g].lp_ids@.len() ==> (
                #[trigger] seeds@[g].lp_ids@[i]) < lp_idx,
            p_l1i matches Some(c) ==> c.valid(),
            p_l1d matches Some(c) ==> c.valid(),
            p_l2 matches Some(c) ==> c.valid(),
            e_l1i matches Some(c) ==> c.valid(),
            e_l1d matches Some(c) ==> c.valid(),
            e_l2 matches Some(c) ==> c.valid(),
            g_l1i matches Some(c) ==> c.valid(),
            g_l1d matches Some(c) ==> c.valid(),
            g_l2 matches Some(c) ==> c.valid(),
    {
        proof {
            assert(socket as int * cores_base as int + vstd::math::min(
                socket as int,
                cores_extra as int,
            ) + (cores_base as int + if socket < cores_extra {
                1int
            } else {
                0int
            }) <= total_physical as int) by (nonlinear_arith)
                requires
                    cores_base == total_physical / total_sockets,
                    cores_extra == total_physical % total_sockets,
                    total_sockets >= 1,
                    total_physical <= usize::MAX,
                    0 <= socket < total_sockets,
            ;
            assert(cores_base >= 1) by (nonlinear_arith)
                requires
                    cores_base == total_physical / total_sockets,
                    total_physical >= total_sockets,
                    total_sockets >= 1,
            ;
        }
        let cores_here = if socket < cores_extra {
            proof {
                assert(cores_base < usize::MAX) by (nonlinear_arith)
                    requires
                        cores_base == total_physical / total_sockets,
                        cores_extra == total_physical % total_sockets,
                        total_sockets >= 1,
                        cores_extra > 0,
                        total_physical <= usize::MAX,
                ;
            }
            cores_base + 1
        } else {
            cores_base
        };
        let ghost socket_start = core_idx as int;
        let mut c: usize = 0;
        while c < cores_here
            invariant
                c <= cores_here,
                cores_here >= 1,
                total_physical >= 1,
                total_logical >= total_physical,
                lps_base == total_logical / total_physical,
                lps_extra == total_logical % total_physical,
                lps_base >= 1,
                total_logical <= usize::MAX,
                socket < total_sockets,
                seeds@.len() == core_idx,
                0 <= socket_start,
                core_idx as int == socket_start + c as int,
                socket_start + cores_here as int <= total_physical as int,
                core_idx <= total_physical,
                lp_idx as int == core_idx as int * lps_base as int + vstd::math::min(
                    core_idx as int,
                    lps_extra as int,
                ),
                seeds_lp_total(seeds@) == lp_idx,
                seeds_sorted(seeds@),
                seeds_disjoint(seeds@),
                forall|g: int| 0 <= g < seeds@.len() ==> (#[trigger] seeds@[g]).wf(),
                forall|g: int|
                    0 <= g < socket_start ==> (#[trigger] seeds@[g]).socket_key < socket,
                forall|g: int|
                    socket_start <= g < seeds@.len() ==> (#[trigger] seeds@[g]).socket_key
                        == socket,
                forall|sk: usize|
                    sk < socket ==> #[trigger] seed_key_in_prefix(seeds@, seeds@.len() as int, sk),
                forall|g: int|
                    0 <= g < seeds@.len() ==> (#[trigger] seeds@[g]).core_type == (if g
                        < perf_cores as int {
                        CoreType::Performance
                    } else {
                        CoreType::Efficiency
                    }),
                forall|g: int|
                    0 <= g < seeds@.len() ==> (#[trigger] seeds@[g]).lp_ids@.len() as int == (if g
                        < lps_extra as int {
                        lps_base as int + 1
                    } else {
                        lps_base as int
                    }),
                forall|g: int, i: int|
                    0 <= g < seeds@.len() && 0 <= i < seeds@[g].lp_ids@.len() ==> (
                    #[trigger] seeds@[g].lp_ids@[i]) < lp_idx,
                p_l1i matches Some(c0) ==> c0.valid(),
                p_l1d matches Some(c0) ==> c0.valid(),
                p_l2 matches Some(c0) ==> c0.valid(),
                e_l1i matches Some(c0) ==> c0.valid(),
                e_l1d matches Some(c0) ==> c0.valid(),
                e_l2 matches Some(c0) ==> c0.valid(),
                g_l1i matches Some(c0) ==> c0.valid(),
                g_l1d matches Some(c0) ==> c0.valid(),
                g_l2 matches Some(c0) ==> c0.valid(),
            decreases cores_here - c,
        {
            let ghost lp_start = lp_idx as int;
            let ghost pre_seeds = seeds@;
            proof {
                assert(forall|g: int, i: int|
                    0 <= g < pre_seeds.len() && 0 <= i < pre_seeds[g].lp_ids@.len() ==> (
                    #[trigger] pre_seeds[g].lp_ids@[i]) < lp_start);
                assert(core_idx as int * lps_base as int + vstd::math::min(
                    core_idx as int,
                    lps_extra as int,
                ) + (lps_base as int + if core_idx < lps_extra {
                    1int
                } else {
                    0int
                }) <= total_logical as int) by (nonlinear_arith)
                    requires
                        lps_base == total_logical / total_physical,
                        lps_extra == total_logical % total_physical,
                        total_physical >= 1,
                        total_logical <= usize::MAX,
                        0 <= core_idx < total_physical,
                ;
            }
            let lps_here = if core_idx < lps_extra {
                proof {
                    assert(lps_base < usize::MAX) by (nonlinear_arith)
                        requires
                            lps_base == total_logical / total_physical,
                            lps_extra == total_logical % total_physical,
                            total_physical >= 1,
                            lps_extra > 0,
                            total_logical <= usize::MAX,
                    ;
                }
                lps_base + 1
            } else {
                lps_base
            };
            let mut lps: Vec<usize> = Vec::new();
            let mut j: usize = 0;
            while j < lps_here
                invariant
                    j <= lps_here,
                    lps@.len() == j,
                    lp_idx as int == lp_start + j as int,
                    lp_start + lps_here as int <= total_logical as int,
                    total_logical <= usize::MAX,
                    forall|q: int| 0 <= q < j ==> (#[trigger] lps@[q]) == lp_start + q,
                decreases lps_here - j,
            {
                lps.push(lp_idx);
                lp_idx = lp_idx + 1;
                j = j + 1;
            }
            let is_perf = core_idx < perf_cores;
            let core_type = if is_perf {
                CoreType::Performance
            } else {
                CoreType::Efficiency
            };
            let (l1i, l1d, l2) = if vendor_is_apple {
                if is_perf {
                    (p_l1i, p_l1d, p_l2)
                } else {
                    (e_l1i, e_l1d, e_l2)
                }
            } else {
                (g_l1i, g_l1d, g_l2)
            };
            seeds.push(CoreSeed { socket_key: socket, core_type, lp_ids: lps, l1i, l1d, l2 });
            proof {
                let new_seed = seeds@.last();
                assert(seeds@.drop_last() =~= pre_seeds);
                assert(seeds_lp_total(seeds@) == seeds_lp_total(pre_seeds) + lps_here);
                assert((core_idx as int + 1) * lps_base as int == core_idx as int
                    * lps_base as int + lps_base as int) by (nonlinear_arith);
                // the new core's processors are the next consecutive run
                assert(lps_here >= 1);
                assert(new_seed.lp_ids@.len() == lps_here);
                assert(forall|q: int|
                    0 <= q < new_seed.lp_ids@.len() ==> (#[trigger] new_seed.lp_ids@[q])
                        == lp_start + q);
                assert(strictly_increasing(new_seed.lp_ids@));
                assert(new_seed.wf());
                assert forall|i1: int, i2: int|
                    0 <= i1 < i2 < seeds@.len() implies (#[trigger] seeds@[i1]).socket_key <= (
                #[trigger] seeds@[i2]).socket_key by {
                    if i2 == seeds@.len() - 1 {
                        assert(seeds@[i1] == pre_seeds[i1]);
                    }
                }
                assert forall|k1: int, k2: int, i1: int, i2: int|
                    0 <= k1 < seeds@.len() && 0 <= k2 < seeds@.len() && k1 != k2 && 0 <= i1
                        < seeds@[k1].lp_ids@.len() && 0 <= i2 < seeds@[k2].lp_ids@.len() implies (
                #[trigger] seeds@[k1].lp_ids@[i1]) != (#[trigger] seeds@[k2].lp_ids@[i2]) by {
                    if k1 == seeds@.len() - 1 && k2 < seeds@.len() - 1 {
                        assert(seeds@[k2].lp_ids@[i2] < lp_start);
                        assert(seeds@[k1].lp_ids@[i1] >= lp_start);
                    } else if k2 == seeds@.len() - 1 && k1 < seeds@.len() - 1 {
                        assert(seeds@[k1].lp_ids@[i1] < lp_start);
                        assert(seeds@[k2].lp_ids@[i2] >= lp_start);
                    }
                }
                assert forall|g: int|
                    socket_start <= g < seeds@.len() implies (#[trigger] seeds@[g]).socket_key
                        == socket by {
                    if g < seeds@.len() - 1 {
                        assert(seeds@[g] == pre_seeds[g]);
                    }
                }
                assert forall|g: int|
                    0 <= g < socket_start implies (#[trigger] seeds@[g]).socket_key < socket by {
                    assert(seeds@[g] == pre_seeds[g]);
                }
                assert forall|sk: usize|
                    sk < socket implies #[trigger] seed_key_in_prefix(
                    seeds@,
                    seeds@.len() as int,
                    sk,
                ) by {
                    assert(seed_key_in_prefix(pre_seeds, pre_seeds.len() as int, sk));
                    let g = choose|g: int|
                        0 <= g < pre_seeds.len() && g < pre_seeds.len() && (
                        #[trigger] pre_seeds[g]).socket_key == sk;
                    assert(seeds@[g].socket_key == sk);
                }
            }
            core_idx = core_idx + 1;
            c = c + 1;
        }
        proof {
            assert((socket as int + 1) * cores_base as int == socket as int * cores_base as int
                + cores_base as int) by (nonlinear_arith);
            // the socket just finished contributed its first core
            assert forall|sk: usize|
                sk < socket + 1 implies #[trigger] seed_key_in_prefix(
                seeds@,
                seeds@.len() as int,
                sk,
            ) by {
                if sk == socket {
                    assert(socket_start < seeds@.len() as int);
                    assert(seeds@[socket_start].socket_key == socket);
                }
            }
        }
    }
    proof {
        assert(total_sockets as int * (total_physical as int / total_sockets as int)
            + total_physical as int % total_sockets as int == total_physical as int)
            by (nonlinear_arith)
            requires
                total_sockets >= 1,
        ;
        assert(vstd::math::min(total_sockets as int, cores_extra as int) == cores_extra as int);
        assert(seeds@.len() == total_physical);
        assert(total_physical as int * (total_logical as int / total_physical as int)
            + total_logical as int % total_physical as int == total_logical as int)
            by (nonlinear_arith)
            requires
                total_physical >= 1,
        ;
        assert(vstd::math::min(total_physical as int, lps_extra as int) == lps_extra as int);
        assert(seeds_lp_total(seeds@) == total_logical);
    }

    // the machine-wide level-three cache, split evenly over the sockets
    let mut l3s: Vec<(usize, CacheInfo)> = Vec::new();
    match snapshot.l3_total {
        Some(total) if total > 0 => {
            let per_socket = total / (total_sockets as u64);
            if per_socket > 0 {
                for socket in 0..total_sockets
                    invariant
                        per_socket > 0,
                        line_size > 0,
                        forall|j: int| 0 <= j < l3s@.len() ==> (#[trigger] l3s@[j]).1.valid(),
                {
                    l3s.push(
                        (
                            socket,
                            CacheInfo {
                                level: CacheLevel::L3,
                                cache_type: CacheType::Unified,
                                size_bytes: per_socket,
                                line_size_bytes: line_size,
                            },
                        ),
                    );
                }
            }
        },
        _ => {},
    }

    let ghost seeds_view = seeds@;
    let info = match assemble(vendor, model_name, features, &seeds, &l3s) {
        Ok(i) => i,
        Err(_) => {
            proof {
                assert(false);
            }
            return Err(
                Error::Detection("the synthesised cores could not be assembled".to_owned()),
            );
        },
    };
    proof {
        let flat = flat_cores(info.sockets@);
        let n = seeds_view.len() as int;
        assert forall|g: int|
            0 <= g < flat.len() implies (#[trigger] flat[g]).core_type == (if g
            < perf_cores as int {
            CoreType::Performance
        } else {
            CoreType::Efficiency
        }) by {
            assert(crate::topology::core_from_seed(flat[g], g, seeds_view[g], info.vendor));
            assert(flat[g].core_type == promoted_type(seeds_view[g].core_type, info.vendor));
        }
        lemma_count_of_split(flat, perf_cores as int);
        assert(info.total_performance_cores as int == vstd::math::min(perf_cores as int, n));
        assert forall|g: int|
            0 <= g < flat.len() implies (#[trigger] flat[g]).core_type == (if g
            < info.total_performance_cores {
            CoreType::Performance
        } else {
            CoreType::Efficiency
        }) by {}
        assert forall|g: int|
            0 <= g < flat.len() implies (#[trigger] flat[g]).logical_processor_ids@.len() as int
            == (if g < lps_extra as int {
            lps_base as int + 1
        } else {
            lps_base as int
        }) by {
            assert(crate::topology::core_from_seed(flat[g], g, seeds_view[g], info.vendor));
        }
        assert forall|s: int|
            0 <= s < info.sockets@.len() implies (#[trigger] info.sockets@[s]).id
            < total_sockets by {
            assert(seed_key_in_prefix(seeds_view, n, info.sockets@[s].id));
            let g = choose|g: int|
                0 <= g < n && g < seeds_view.len() && (#[trigger] seeds_view[g]).socket_key
                    == info.sockets@[s].id;
            assert(seeds_view[g].socket_key < total_sockets);
        }
        assert forall|v: usize|
            0 <= v < total_sockets implies #[trigger] key_has_socket(info.sockets@, v) by {
            assert(seed_key_in_prefix(seeds_view, seeds_view.len() as int, v));
            let g = choose|g: int|
                0 <= g < seeds_view.len() && g < seeds_view.len() && (
                #[trigger] seeds_view[g]).socket_key == v;
            assert(key_has_socket(info.sockets@, seeds_view[g].socket_key));
        }
        lemma_dense_socket_ids(info.sockets@, total_sockets as int);
        assert(total_physical as int == snapshot.spec_physical());
        assert(total_logical as int == snapshot.spec_logical());
        assert(total_sockets as int == snapshot.spec_sockets());
        if snapshot.l3_total is None {
            assert(l3s@.len() == 0);
            assert forall|s: int|
                0 <= s < info.sockets@.len() implies (#[trigger] info.sockets@[s]).l3_cache
                is None by {
                assert(info.sockets@[s].l3_cache == crate::topology::first_l3(
                    l3s@,
                    info.sockets@[s].id,
                ));
            }
        }
    }
    Ok(info)
}

/// A machine-wide size split per core, absent when that gives nothing.
fn div_opt(total: Option<u64>, parts: u64) -> (r: Option<u64>)
    requires
        parts > 0,
{
    match total {
        Some(t) if t > 0 => Some(t / parts),
        _ => None,
    }
}

} // verus!
