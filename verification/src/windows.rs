//! The Windows backend: rebuilds the canonical topology from the
//! processor-relationship records of the system information query. The
//! runtime walks the raw variable-length byte stream and hands each
//! record here as plain values; the assembly, the class convention, the
//! socket anchoring and the cache attribution are all verified logic.

use vstd::prelude::*;

use crate::cache::{CacheInfo, CacheLevel, CacheType};
use crate::core_info::CoreType;
use crate::error::Error;
use crate::features::CpuFeatures;
use crate::info::CpuInfo;
use crate::parse::{bytes_eq, lossy_string};
use crate::topology::{
    CoreSeed, assemble, lemma_seeds_total_insert, seeds_disjoint, seeds_lp_total, seeds_sorted,
};
use crate::vendor::Vendor;

verus! {

/// One processor-group entry of a relationship record: the group index
/// and the 64-wide member mask. A logical processor's machine-wide ID
/// is sixty-four times the group index plus its bit position.
#[derive(Debug, Clone, Copy, PartialEq, Eq, Structural)]
pub struct GroupMaskRec {
    /// The processor-group index.
    pub group: u16,
    /// The member mask within the group.
    pub mask: u64,
}

/// One record of the processor-relationship stream, reduced to plain
/// values.
#[derive(Debug, Clone)]
pub enum SlpiRecord {
    /// One physical core and its hardware threads. A zero efficiency
    /// class marks an efficiency core, any other value a performance
    /// core, by the documented convention; when every core reports
    /// zero the distinction is meaningless and all count as
    /// performance.
    Core {
        /// The documented efficiency class of the core.
        efficiency_class: u8,
        /// The group entries naming the core's logical processors.
        masks: Vec<GroupMaskRec>,
    },
    /// One socket and every logical processor in it.
    Package {
        /// The group entries naming the package's logical processors.
        masks: Vec<GroupMaskRec>,
    },
    /// One cache instance and the logical processors sharing it.
    Cache {
        /// The cache level, one through four.
        level: u8,
        /// What the cache holds.
        kind: CacheType,
        /// The total size in bytes.
        size_bytes: u64,
        /// The line size in bytes.
        line_size_bytes: u32,
        /// The group entry naming the sharing processors.
        group: u16,
        /// The member mask within the group.
        mask: u64,
    },
}

/// Everything the Windows backend reads: the relationship records, the
/// instruction-level identification, and the registry fallback strings.
#[derive(Debug, Clone)]
pub struct WindowsSnapshot {
    /// The relationship records, in stream order.
    pub records: Vec<SlpiRecord>,
    /// The vendor the instruction-level query reported.
    pub cpuid_vendor: Vendor,
    /// The model name the instruction-level query reported.
    pub cpuid_model_name: String,
    /// The features the instruction-level query reported.
    pub cpuid_features: CpuFeatures,
    /// The registry's processor name string, when it was read.
    pub registry_name: Option<Vec<u8>>,
    /// The registry's hardware identifier string, when it was read.
    pub registry_identifier: Option<Vec<u8>>,
    /// The registry's vendor identifier string, when it was read.
    pub registry_vendor: Option<Vec<u8>>,
}

/// Whether one relationship record is a core record naming at least
/// one logical processor.
pub open spec fn spec_core_names_lp(rec: SlpiRecord) -> bool {
    match rec {
        SlpiRecord::Core { masks, .. } => exists|m: int|
            0 <= m < masks@.len() && (#[trigger] masks@[m]).mask != 0,
        _ => false,
    }
}

/// Whether the stream holds a core record naming a logical processor.
pub open spec fn spec_any_core_lp(records: Seq<SlpiRecord>) -> bool {
    exists|q: int| 0 <= q < records.len() && spec_core_names_lp(#[trigger] records[q])
}

/// The logical-processor IDs a group entry names, merged into the
/// ascending list; an entry with an empty mask changes nothing, and an
/// entry with any bit set leaves the list non-empty.
fn lps_of_group_mask(rec: GroupMaskRec, out: Vec<usize>) -> (r: Vec<usize>)
    requires
        crate::mask::strictly_increasing(out@),
    ensures
        crate::mask::strictly_increasing(r@),
        out@.len() > 0 ==> r@.len() > 0,
        rec.mask != 0 ==> r@.len() > 0,
        rec.mask == 0 ==> r@ == out@,
{
    let mut v = out;
    let ghost out_view = v@;
    let base: usize = (rec.group as usize) * 64;
    let mut b: u64 = 0;
    let ghost mut hit = false;
    while b < 64
        invariant
            b <= 64,
            base == (rec.group as usize) * 64,
            rec.group <= 65535,
            crate::mask::strictly_increasing(v@),
            out_view.len() > 0 ==> v@.len() > 0,
            hit ==> v@.len() > 0 && rec.mask != 0,
            !hit ==> (forall|c: u64| c < b ==> !crate::mask::word_bit(rec.mask, c)) && v@
                == out_view,
        decreases 64 - b,
    {
        if (rec.mask >> b) & 1u64 == 1u64 {
            proof {
                assert(base + b <= 65535usize * 64 + 63) by (nonlinear_arith)
                    requires
                        base == (rec.group as usize) * 64,
                        rec.group <= 65535,
                        b < 64,
                ;
            }
            let ghost prev = v@;
            let id: usize = base + (b as usize);
            v = crate::parse::insert_range(v, id, id);
            proof {
                assert(v@.contains(id));
                assert(v@.len() > 0);
                if rec.mask == 0 {
                    crate::mask::lemma_zero_word_bits();
                    assert(crate::mask::word_bit(0u64, b));
                    assert(false);
                }
                hit = true;
            }
        } else {
            proof {
                if !hit {
                    assert(!crate::mask::word_bit(rec.mask, b));
                }
            }
        }
        b = b + 1;
    }
    proof {
        if !hit {
            crate::mask::lemma_zero_word_bits();
            assert forall|c: u64|
                c < 64 implies crate::mask::word_bit(rec.mask, c) == crate::mask::word_bit(
                0u64,
                c,
            ) by {}
            crate::mask::lemma_word_eq_by_bits(rec.mask, 0u64);
        }
    }
    v
}

/// The lowest logical-processor ID a record's group entries name, used
/// as the stable anchor of a package.
fn lowest_lp(masks: &Vec<GroupMaskRec>) -> (r: Option<usize>) {
    let n = masks.len();
    for i in 0..n
        invariant
            n == masks@.len(),
    {
        let rec = masks[i];
        if rec.mask != 0 {
            let mut b: u64 = 0;
            while b < 64
                invariant
                    b <= 64,
                decreases 64 - b,
            {
                if (rec.mask >> b) & 1u64 == 1u64 {
                    proof {
                        assert((rec.group as usize) * 64 + b <= 65535usize * 64 + 63)
                            by (nonlinear_arith)
                            requires
                                rec.group <= 65535,
                                b < 64,
                        ;
                    }
                    return Some((rec.group as usize) * 64 + (b as usize));
                }
                b = b + 1;
            }
        }
    }
    None
}

/// Whether a record's group entries name the given logical processor.
fn masks_contain(masks: &Vec<GroupMaskRec>, lp: usize) -> (r: bool) {
    let group = lp / 64;
    let bit: u64 = (lp % 64) as u64;
    let n = masks.len();
    for i in 0..n
        invariant
            n == masks@.len(),
            bit < 64,
    {
        let rec = masks[i];
        if (rec.group as usize) == group && (rec.mask >> bit) & 1u64 == 1u64 {
            return true;
        }
    }
    false
}

/// Whether one cache record's sharing mask names any of the given
/// ascending logical processors.
fn cache_covers_any(group: u16, mask: u64, lps: &Vec<usize>) -> (r: bool) {
    let n = lps.len();
    for i in 0..n
        invariant
            n == lps@.len(),
    {
        let lp = lps[i];
        if lp / 64 == (group as usize) && (mask >> ((lp % 64) as u64)) & 1u64 == 1u64 {
            return true;
        }
    }
    false
}

/// The identification, with the registry fallback: when the
/// instruction-level query left the vendor unknown, the model name
/// empty, or the features empty, the registry's processor key fills
/// the gaps; an identifier naming a 64-bit Arm part sets the vendor
/// accordingly.
fn detect_basic_cpu_info(snapshot: &WindowsSnapshot) -> (r: (Vendor, String, CpuFeatures))
    ensures
        r.2 == snapshot.cpuid_features,
        !(snapshot.cpuid_vendor is Unknown) ==> r.0.equals(snapshot.cpuid_vendor),
{
    let mut vendor = crate::linux::clone_vendor(&snapshot.cpuid_vendor);
    let mut model_name = crate::linux::clone_string(&snapshot.cpuid_model_name);
    let features = snapshot.cpuid_features;

    let vendor_unknown = match &vendor {
        Vendor::Unknown => true,
        _ => false,
    };
    let model_placeholder = bytes_eq(model_name.as_str().as_bytes(), "Unknown".as_bytes())
        || model_name.as_str().as_bytes().len() == 0;
    if vendor_unknown || model_placeholder || features.is_empty() {
        if model_placeholder {
            match &snapshot.registry_name {
                Some(v) => {
                    model_name = lossy_string(crate::parse::trim(v.as_slice()));
                },
                None => {},
            }
        }
        if vendor_unknown {
            let mut from_identifier = false;
            match &snapshot.registry_identifier {
                Some(v) => {
                    if contains_bytes(v.as_slice(), "armv8".as_bytes()) || contains_bytes(
                        v.as_slice(),
                        "arm64".as_bytes(),
                    ) {
                        vendor = Vendor::Arm;
                        from_identifier = true;
                    }
                },
                None => {},
            }
            if !from_identifier {
                match &snapshot.registry_vendor {
                    Some(v) => {
                        vendor = crate::proc_cpuinfo::parse_vendor_from_string(Some(v), None);
                    },
                    None => {},
                }
            }
        }
    }
    (vendor, model_name, features)
}

/// Whether the byte run holds the given run as a sub-run, after
/// folding the haystack to lower case.
fn contains_bytes(hay_raw: &[u8], needle: &[u8]) -> (r: bool) {
    let folded = crate::parse::to_lower(hay_raw);
    let hay = folded.as_slice();
    let m = needle.len();
    let n = hay.len();
    if m > n {
        return false;
    }
    if m == 0 {
        return true;
    }
    let last = n - m;
    let mut start: usize = 0;
    while start <= last
        invariant
            start <= last + 1,
            last == n - m,
            n == hay@.len(),
            m == needle@.len(),
            1 <= m <= n,
        decreases last - start + 1,
    {
        let window = crate::parse::slice_range(hay, start, start + m);
        if bytes_eq(window, needle) {
            return true;
        }
        start = start + 1;
    }
    false
}

/// Detects the whole topology from a Windows snapshot. One pass decides
/// whether any core reported a non-zero efficiency class; a second pass
/// realises each core record once, resolves its socket through the
/// package records, and attaches the level-one and level-two caches
/// whose sharing masks cover it; level-three caches attach to sockets;
/// socket identifiers are renumbered densely in anchor order. A stream
/// without usable core records is a detection error; success implies
/// every structural invariant of the model.
#[verifier::rlimit(100)]
pub fn detect_cpu_info(snapshot: &WindowsSnapshot) -> (r: Result<CpuInfo, Error>)
    ensures
        r is Ok <==> spec_any_core_lp(snapshot.records@),
        r matches Err(e) ==> e is Detection,
        r matches Ok(info) ==> info.wf(),
        r matches Ok(info) ==> info.features == snapshot.cpuid_features,
        r matches Ok(info) ==> info.total_performance_cores + info.total_efficiency_cores
            == info.total_physical_cores,
        r matches Ok(info) ==> (!(snapshot.cpuid_vendor is Unknown) ==> info.vendor.equals(
            snapshot.cpuid_vendor,
        )),
{
    let (vendor, model_name, features) = detect_basic_cpu_info(snapshot);
    let records = &snapshot.records;
    let nrec = records.len();

    // does any core report a non-zero efficiency class?
    let mut any_nonzero_class = false;
    for i in 0..nrec
        invariant
            nrec == records@.len(),
    {
        match &records[i] {
            SlpiRecord::Core { efficiency_class, .. } => {
                if *efficiency_class != 0 {
                    any_nonzero_class = true;
                }
            },
            _ => {},
        }
    }

    // the package anchors, ascending: a package's socket number is the
    // position of its anchor here
    let mut anchors: Vec<usize> = Vec::new();
    for i in 0..nrec
        invariant
            nrec == records@.len(),
            crate::mask::strictly_increasing(anchors@),
    {
        match &records[i] {
            SlpiRecord::Package { masks } => {
                match lowest_lp(masks) {
                    Some(a) => {
                        anchors = crate::parse::insert_range(anchors, a, a);
                    },
                    None => {},
                }
            },
            _ => {},
        }
    }

    // realise each core record whose processors are all new; a record
    // re-naming an already realised processor is skipped, as the first
    // record for each core wins
    let mut seeds: Vec<CoreSeed> = Vec::new();
    let mut seen = crate::mask::AffinityMask::empty();
    let mut total_lps: usize = 0;
    for i in 0..nrec
        invariant
            nrec == records@.len(),
            forall|k: int| 0 <= k < seeds@.len() ==> (#[trigger] seeds@[k]).wf(),
            forall|k: int| 0 <= k < seeds@.len() ==> !((#[trigger] seeds@[k]).core_type is Unknown),
            seeds_sorted(seeds@),
            seeds_disjoint(seeds@),
            seeds_lp_total(seeds@) == total_lps,
            forall|id: usize|
                #[trigger] seen.has(id) == (exists|k: int, j: int|
                    0 <= k < seeds@.len() && 0 <= j < seeds@[k].lp_ids@.len() && (
                    #[trigger] seeds@[k].lp_ids@[j]) == id),
            (seeds@.len() > 0) == (exists|q: int|
                0 <= q < i && spec_core_names_lp(#[trigger] records@[q])),
    {
        let rec = &records[i];
        if let SlpiRecord::Core { efficiency_class, masks } = rec {
            let mut lps: Vec<usize> = Vec::new();
            let nm = masks.len();
            for mi in 0..nm
                invariant
                    nm == masks@.len(),
                    crate::mask::strictly_increasing(lps@),
                    lps@.len() > 0 ==> (exists|m: int|
                        0 <= m < mi && (#[trigger] masks@[m]).mask != 0),
                    (exists|m: int| 0 <= m < mi && (#[trigger] masks@[m]).mask != 0)
                        ==> lps@.len() > 0,
            {
                let ghost pre = lps@;
                lps = lps_of_group_mask(masks[mi], lps);
                proof {
                    if lps@.len() > 0 && pre.len() == 0 {
                        if masks@[mi as int].mask == 0 {
                            assert(lps@ == pre);
                        }
                        assert(masks@[mi as int].mask != 0);
                        assert(0 <= (mi as int) && (mi as int) < mi + 1 && masks@[mi as int].mask != 0);
                    }
                    if exists|m: int| 0 <= m < mi + 1 && (#[trigger] masks@[m]).mask != 0 {
                        let m = choose|m: int|
                            0 <= m < mi + 1 && (#[trigger] masks@[m]).mask != 0;
                        if m < mi {
                            assert(pre.len() > 0);
                        }
                        assert(lps@.len() > 0);
                    }
                }
            }
            if lps.len() > 0 {
                proof {
                    assert(spec_core_names_lp(records@[i as int]));
                }
                let ghost lpsv = lps@;
                // does this record re-name a realised processor?
                let nl = lps.len();
                let mut overlap = false;
                for j in 0..nl
                    invariant
                        nl == lps@.len(),
                        lps@ == lpsv,
                        !overlap ==> (forall|q: int|
                            0 <= q < j ==> !seen.has(#[trigger] lps@[q])),
                        overlap ==> (exists|q: int|
                            0 <= q < j && #[trigger] seen.has(lps@[q])),
                {
                    if seen.contains(lps[j]) {
                        overlap = true;
                    }
                }
                let fits = lps.len() <= usize::MAX - total_lps;
                if !overlap && fits {
                    let core_type = if !any_nonzero_class {
                        CoreType::Performance
                    } else if *efficiency_class == 0 {
                        CoreType::Efficiency
                    } else {
                        CoreType::Performance
                    };
                    let first = lps[0];

                    // the owning socket: the first package whose masks
                    // name the core's first processor
                    let mut socket_key: usize = 0;
                    let mut found_pkg = false;
                    let mut pi: usize = 0;
                    while pi < nrec && !found_pkg
                        invariant
                            pi <= nrec,
                            nrec == records@.len(),
                        decreases nrec - pi,
                    {
                        match &records[pi] {
                            SlpiRecord::Package { masks: pmasks } => {
                                if masks_contain(pmasks, first) {
                                    match lowest_lp(pmasks) {
                                        Some(anchor) => {
                                            // dense socket number: the
                                            // anchor's position
                                            let na = anchors.len();
                                            for ai in 0..na
                                                invariant
                                                    na == anchors@.len(),
                                                {
                                                if anchors[ai] == anchor {
                                                    socket_key = ai;
                                                }
                                            }
                                        },
                                        None => {},
                                    }
                                    found_pkg = true;
                                }
                            },
                            _ => {},
                        }
                        pi = pi + 1;
                    }

                    // attach the level-one and level-two caches that
                    // cover this core, first record wins
                    let mut l1i: Option<CacheInfo> = None;
                    let mut l1d: Option<CacheInfo> = None;
                    let mut l2: Option<CacheInfo> = None;
                    for ci in 0..nrec
                        invariant
                            nrec == records@.len(),
                            l1i matches Some(c) ==> c.valid(),
                            l1d matches Some(c) ==> c.valid(),
                            l2 matches Some(c) ==> c.valid(),
                    {
                        match &records[ci] {
                            SlpiRecord::Cache {
                                level,
                                kind,
                                size_bytes,
                                line_size_bytes,
                                group,
                                mask,
                            } => {
                                if *size_bytes > 0 && *line_size_bytes > 0 && cache_covers_any(
                                    *group,
                                    *mask,
                                    &lps,
                                ) {
                                    let info = CacheInfo {
                                        level: if *level == 1 {
                                            CacheLevel::L1
                                        } else {
                                            CacheLevel::L2
                                        },
                                        cache_type: *kind,
                                        size_bytes: *size_bytes,
                                        line_size_bytes: *line_size_bytes as usize,
                                    };
                                    if *level == 1 {
                                        match kind {
                                            CacheType::Instruction => {
                                                if l1i.is_none() {
                                                    l1i = Some(info);
                                                }
                                            },
                                            CacheType::Data => {
                                                if l1d.is_none() {
                                                    l1d = Some(info);
                                                }
                                            },
                                            CacheType::Unified => {
                                                if l1i.is_none() {
                                                    l1i = Some(info);
                                                }
                                                if l1d.is_none() {
                                                    l1d = Some(info);
                                                }
                                            },
                                            _ => {},
                                        }
                                    } else if *level == 2 {
                                        if l2.is_none() {
                                            l2 = Some(info);
                                        }
                                    }
                                }
                            },
                            _ => {},
                        }
                    }

                    // keep the seeds grouped by socket: insert after the
                    // last seed of this socket
                    let mut at: usize = 0;
                    let ns = seeds.len();
                    for si in 0..ns
                        invariant
                            ns == seeds@.len(),
                            at <= si,
                            seeds_sorted(seeds@),
                            forall|q: int|
                                0 <= q < at ==> (#[trigger] seeds@[q]).socket_key <= socket_key,
                            forall|q: int|
                                at <= q < si ==> (#[trigger] seeds@[q]).socket_key > socket_key,
                    {
                        if seeds[si].socket_key <= socket_key {
                            proof {
                                assert forall|q: int|
                                    0 <= q < si implies (#[trigger] seeds@[q]).socket_key
                                        <= socket_key by {
                                    assert(seeds@[q].socket_key <= seeds@[si as int].socket_key);
                                }
                            }
                            at = si + 1;
                        }
                    }
                    let seed = CoreSeed { socket_key, core_type, lp_ids: lps, l1i, l1d, l2 };
                    proof {
                        assert(seed.wf());
                        lemma_seeds_total_insert(seeds@, at as int, seed);
                    }
                    let ghost pre_seeds = seeds@;
                    seeds.insert(at, seed);
                    total_lps = total_lps + nl;
                    proof {
                        assert(seeds@[at as int] == seed);
                        assert forall|k: int|
                            0 <= k < seeds@.len() implies (#[trigger] seeds@[k]).wf() && !(
                        seeds@[k].core_type is Unknown) by {
                            if k < at {
                                assert(seeds@[k] == pre_seeds[k]);
                            } else if k > at {
                                assert(seeds@[k] == pre_seeds[k - 1]);
                            }
                        }
                        assert forall|i1: int, j1: int|
                            0 <= i1 < j1 < seeds@.len() implies (
                        #[trigger] seeds@[i1]).socket_key <= (
                        #[trigger] seeds@[j1]).socket_key by {
                            if i1 < at && j1 == at {
                            } else if i1 == at && j1 > at {
                                assert(seeds@[j1] == pre_seeds[j1 - 1]);
                                assert(pre_seeds[j1 - 1].socket_key > socket_key);
                            } else if i1 < at && j1 > at {
                                assert(seeds@[i1] == pre_seeds[i1]);
                                assert(seeds@[j1] == pre_seeds[j1 - 1]);
                            } else if i1 > at {
                                assert(seeds@[i1] == pre_seeds[i1 - 1]);
                                assert(seeds@[j1] == pre_seeds[j1 - 1]);
                            }
                        }
                        assert forall|k1: int, k2: int, i1: int, i2: int|
                            0 <= k1 < seeds@.len() && 0 <= k2 < seeds@.len() && k1 != k2 && 0 <= i1
                                < seeds@[k1].lp_ids@.len() && 0 <= i2
                                < seeds@[k2].lp_ids@.len() implies (
                        #[trigger] seeds@[k1].lp_ids@[i1]) != (
                        #[trigger] seeds@[k2].lp_ids@[i2]) by {
                            if seeds@[k1].lp_ids@[i1] == seeds@[k2].lp_ids@[i2] {
                                let v = seeds@[k1].lp_ids@[i1];
                                if k1 == at && k2 != at {
                                    let k2o = if k2 < at {
                                        k2
                                    } else {
                                        k2 - 1
                                    };
                                    assert(seeds@[k2] == pre_seeds[k2o]);
                                    assert(seen.has(v));
                                    assert(!seen.has(lpsv[i1]));
                                } else if k2 == at && k1 != at {
                                    let k1o = if k1 < at {
                                        k1
                                    } else {
                                        k1 - 1
                                    };
                                    assert(seeds@[k1] == pre_seeds[k1o]);
                                    assert(seen.has(v));
                                    assert(!seen.has(lpsv[i2]));
                                } else {
                                    let k1o = if k1 < at {
                                        k1
                                    } else {
                                        k1 - 1
                                    };
                                    let k2o = if k2 < at {
                                        k2
                                    } else {
                                        k2 - 1
                                    };
                                    assert(seeds@[k1] == pre_seeds[k1o]);
                                    assert(seeds@[k2] == pre_seeds[k2o]);
                                    assert(pre_seeds[k1o].lp_ids@[i1] != pre_seeds[
                                        k2o
                                    ].lp_ids@[i2]);
                                }
                            }
                        }
                    }
                    // mark the processors realised
                    let ghost seen_pre = seen;
                    let mut j2: usize = 0;
                    while j2 < nl
                        invariant
                            j2 <= nl,
                            nl == lpsv.len(),
                            at < seeds@.len(),
                            seeds@[at as int].lp_ids@ == lpsv,
                            forall|id: usize|
                                #[trigger] seen.has(id) == (seen_pre.has(id) || (exists|q: int|
                                    0 <= q < j2 && lpsv[q] == id)),
                        decreases nl - j2,
                    {
                        let lp = seeds[at].lp_ids[j2];
                        seen.add(lp);
                        proof {
                            assert forall|id: usize|
                                #[trigger] seen.has(id) == (seen_pre.has(id) || (exists|q: int|
                                    0 <= q < j2 + 1 && lpsv[q] == id)) by {
                                if id == lp {
                                    assert(lpsv[j2 as int] == id);
                                }
                            }
                        }
                        j2 = j2 + 1;
                    }
                    proof {
                        assert forall|id: usize|
                            #[trigger] seen.has(id) == (exists|k: int, j: int|
                                0 <= k < seeds@.len() && 0 <= j < seeds@[k].lp_ids@.len() && (
                                #[trigger] seeds@[k].lp_ids@[j]) == id) by {
                            if seen.has(id) {
                                if seen_pre.has(id) {
                                    let (k, j) = choose|k: int, j: int|
                                        0 <= k < pre_seeds.len() && 0 <= j < pre_seeds[
                                            k
                                        ].lp_ids@.len() && (#[trigger] pre_seeds[k].lp_ids@[j])
                                            == id;
                                    let kn = if k < at {
                                        k
                                    } else {
                                        k + 1
                                    };
                                    assert(seeds@[kn] == pre_seeds[k]);
                                    assert(seeds@[kn].lp_ids@[j] == id);
                                } else {
                                    let q = choose|q: int| 0 <= q < nl && lpsv[q] == id;
                                    assert(seeds@[at as int].lp_ids@[q] == id);
                                }
                            }
                            if exists|k: int, j: int|
                                0 <= k < seeds@.len() && 0 <= j < seeds@[k].lp_ids@.len() && (
                                #[trigger] seeds@[k].lp_ids@[j]) == id {
                                let (k, j) = choose|k: int, j: int|
                                    0 <= k < seeds@.len() && 0 <= j < seeds@[k].lp_ids@.len() && (
                                    #[trigger] seeds@[k].lp_ids@[j]) == id;
                                if k == at {
                                    assert(lpsv[j] == id);
                                } else {
                                    let ko = if k < at {
                                        k
                                    } else {
                                        k - 1
                                    };
                                    assert(seeds@[k] == pre_seeds[ko]);
                                    assert(seen_pre.has(id));
                                }
                                assert(seen.has(id));
                            }
                        }
                        assert(0 <= (i as int) && (i as int) < i + 1 && spec_core_names_lp(records@[i as int]));
                    }
                } else {
                    proof {
                        // a skipped record still leaves an earlier
                        // realised core in place
                        if overlap {
                            let q = choose|q: int| 0 <= q < nl && #[trigger] seen.has(lps@[q]);
                            assert(seeds@.len() > 0);
                        } else {
                            assert(total_lps > 0);
                            if seeds@.len() == 0 {
                                assert(seeds_lp_total(seeds@) == 0);
                            }
                        }
                        assert(0 <= (i as int) && (i as int) < i + 1 && spec_core_names_lp(records@[i as int]));
                    }
                }
            } else {
                proof {
                    if spec_core_names_lp(records@[i as int]) {
                        assert(exists|m: int|
                            0 <= m < nm as int && (#[trigger] masks@[m]).mask != 0);
                        assert(lps@.len() > 0);
                    }
                    assert forall|q: int|
                        0 <= q < i + 1 && spec_core_names_lp(
                            #[trigger] records@[q],
                        ) implies q < i by {}
                }
            }
        } else {
            proof {
                assert(!spec_core_names_lp(records@[i as int]));
                assert forall|q: int|
                    0 <= q < i + 1 && spec_core_names_lp(#[trigger] records@[q]) implies q
                        < i by {}
            }
        }
    }
    let mut l3s: Vec<(usize, CacheInfo)> = Vec::new();

    // level-three caches attach to the socket of any covered core
    let ghost seeds_final = seeds@;
    for ci in 0..nrec
        invariant
            nrec == records@.len(),
            forall|j: int| 0 <= j < l3s@.len() ==> (#[trigger] l3s@[j]).1.valid(),
            forall|k: int| 0 <= k < seeds@.len() ==> (#[trigger] seeds@[k]).wf(),
            seeds@ == seeds_final,
            forall|k: int| 0 <= k < seeds@.len() ==> !((#[trigger] seeds@[k]).core_type is Unknown),
            seeds_sorted(seeds@),
            seeds_disjoint(seeds@),
            seeds_lp_total(seeds@) == total_lps,
            (seeds@.len() > 0) == spec_any_core_lp(snapshot.records@),
    {
        match &records[ci] {
            SlpiRecord::Cache { level, kind, size_bytes, line_size_bytes, group, mask } => {
                if *level == 3 && *size_bytes > 0 && *line_size_bytes > 0 {
                    let mut owner: Option<usize> = None;
                    let ns = seeds.len();
                    for si in 0..ns
                        invariant
                            ns == seeds@.len(),
                            forall|k: int| 0 <= k < seeds@.len() ==> (#[trigger] seeds@[k]).wf(),
                    {
                        if owner.is_none() && cache_covers_any(*group, *mask, &seeds[si].lp_ids) {
                            owner = Some(seeds[si].socket_key);
                        }
                    }
                    match owner {
                        Some(key) => {
                            let mut seen = false;
                            let nl3 = l3s.len();
                            for j in 0..nl3
                                invariant
                                    nl3 == l3s@.len(),
                                {
                                if l3s[j].0 == key {
                                    seen = true;
                                }
                            }
                            if !seen {
                                l3s.push(
                                    (
                                        key,
                                        CacheInfo {
                                            level: CacheLevel::L3,
                                            cache_type: *kind,
                                            size_bytes: *size_bytes,
                                            line_size_bytes: *line_size_bytes as usize,
                                        },
                                    ),
                                );
                            }
                        },
                        None => {},
                    }
                }
            },
            _ => {},
        }
    }

    let ghost seeds_view2 = seeds@;
    let info = match assemble(vendor, model_name, features, &seeds, &l3s) {
        Ok(v) => v,
        Err(_) => {
            proof {
                assert(seeds@.len() == 0);
                assert(!spec_any_core_lp(snapshot.records@));
            }
            return Err(
                Error::Detection(
                    "no processor core relationship named a logical processor".to_owned(),
                ),
            );
        },
    };
    proof {
        assert(seeds@.len() > 0);
        assert(spec_any_core_lp(snapshot.records@));
        // every realised core carries a known class, so the class
        // counters partition the cores exactly
        let flat = crate::info::flat_cores(info.sockets@);
        assert forall|g: int|
            0 <= g < flat.len() implies !((#[trigger] flat[g]).core_type is Unknown) by {
            assert(crate::topology::core_from_seed(flat[g], g, seeds_view2[g], info.vendor));
            assert(flat[g].core_type == crate::topology::promoted_type(
                seeds_view2[g].core_type,
                info.vendor,
            ));
        }
        crate::info::lemma_class_counts_partition(flat);
        assert(crate::info::count_of_type(flat, CoreType::Unknown) == 0) by {
            lemma_count_unknown_zero(flat);
        }
    }
    Ok(info)
}

/// A core sequence without unknown classes counts no unknown core.
proof fn lemma_count_unknown_zero(cores: Seq<crate::core_info::CoreInfo>)
    requires
        forall|g: int| 0 <= g < cores.len() ==> !((#[trigger] cores[g]).core_type is Unknown),
    ensures
        crate::info::count_of_type(cores, CoreType::Unknown) == 0,
    decreases cores.len(),
{
    if cores.len() > 0 {
        assert(forall|g: int|
            0 <= g < cores.drop_last().len() ==> (#[trigger] cores.drop_last()[g]) == cores[g]);
        lemma_count_unknown_zero(cores.drop_last());
    }
}

} // verus!
