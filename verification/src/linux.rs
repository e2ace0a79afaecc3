//! The Linux backend: turns a snapshot of the kernel's sysfs topology
//! and cache files, the first block of `/proc/cpuinfo`, and the
//! instruction-level identification into the canonical topology. The
//! runtime reads the files; everything from the bytes onward happens
//! here.

use vstd::prelude::*;

use crate::cache::{CacheInfo, CacheLevel, CacheType};
use crate::core_info::CoreType;
use crate::error::Error;
use crate::features::CpuFeatures;
use crate::info::{CpuInfo, flat_cores};
use crate::mask::strictly_increasing;
use crate::parse::{
    all_digits, bytes_eq, cpu_list_has, digits_value, lemma_digits_value_nonneg,
    lemma_valid_cpu_list_nonempty, lossy_string, lower_bytes, parse_cache_size, parse_usize,
    to_lower, trim, trimmed, valid_cpu_list,
};
use crate::proc_cpuinfo::{
    extract_field, first_block_lines, flags_line_features, parse_vendor_from_string,
};
use crate::topology::{CoreSeed, assemble, copy_ids, seeds_disjoint, seeds_lp_total, seeds_sorted};
use crate::vendor::Vendor;
use vstd::string::StringSliceAdditionalSpecFns;

verus! {

/// The raw contents of one `cache/index*` directory of one logical
/// processor: the `level`, `type`, `size` and `coherency_line_size`
/// files, each absent when the file was missing.
#[derive(Debug, Clone)]
pub struct CacheIndexRaw {
    /// The `level` file.
    pub level: Option<Vec<u8>>,
    /// The `type` file.
    pub kind: Option<Vec<u8>>,
    /// The `size` file.
    pub size: Option<Vec<u8>>,
    /// The `coherency_line_size` file.
    pub line_size: Option<Vec<u8>>,
}

/// The raw topology files of one logical processor.
#[derive(Debug, Clone)]
pub struct LpTopologyRaw {
    /// The `topology/physical_package_id` file.
    pub package_id: Option<Vec<u8>>,
    /// The `topology/core_id` file.
    pub core_id: Option<Vec<u8>>,
    /// The `topology/core_type` file, absent on most kernels.
    pub core_type: Option<Vec<u8>>,
    /// One entry per `cache/index*` directory.
    pub caches: Vec<CacheIndexRaw>,
}

/// One logical processor's files; `topology` is absent when the
/// processor's directory was missing, and such a processor is dropped.
#[derive(Debug, Clone)]
pub struct LpRecord {
    /// The OS logical-processor ID, from the directory name.
    pub lp_id: usize,
    /// The processor's topology files.
    pub topology: Option<LpTopologyRaw>,
}

/// Everything the Linux backend reads, gathered as plain bytes: the
/// `online` list, the per-processor files, the first block of
/// `/proc/cpuinfo`, and what the instruction-level query already
/// established.
#[derive(Debug, Clone)]
pub struct LinuxSnapshot {
    /// The contents of the kernel's online-processor list.
    pub online: Vec<u8>,
    /// One record per processor directory found.
    pub lps: Vec<LpRecord>,
    /// The contents of `/proc/cpuinfo`.
    pub cpuinfo: Vec<u8>,
    /// The vendor the instruction-level query reported.
    pub cpuid_vendor: Vendor,
    /// The model name the instruction-level query reported.
    pub cpuid_model_name: String,
    /// The features the instruction-level query reported.
    pub cpuid_features: CpuFeatures,
}

/// The topology files of the first record carrying the given processor.
pub open spec fn spec_lp_topology(lps: Seq<LpRecord>, id: usize) -> Option<LpTopologyRaw>
    decreases lps.len(),
{
    if lps.len() == 0 {
        None
    } else if lps[0].lp_id == id {
        lps[0].topology
    } else {
        spec_lp_topology(lps.drop_first(), id)
    }
}

/// The view of an optional raw file.
pub open spec fn opt_bytes(o: Option<Vec<u8>>) -> Option<Seq<u8>> {
    match o {
        Some(v) => Some(v@),
        None => None,
    }
}

/// The number a topology identifier file denotes: the trimmed decimal
/// value, zero when the file is missing or does not parse.
pub open spec fn spec_topo_value(raw: Option<Seq<u8>>) -> int {
    match raw {
        None => 0,
        Some(s) => {
            let t = trimmed(s);
            if all_digits(t) && digits_value(t) <= usize::MAX {
                digits_value(t)
            } else {
                0
            }
        },
    }
}

/// The socket identifier the given processor's files denote.
pub open spec fn spec_lp_package(s: LinuxSnapshot, id: usize) -> int {
    match spec_lp_topology(s.lps@, id) {
        Some(t) => spec_topo_value(opt_bytes(t.package_id)),
        None => 0,
    }
}

/// The in-socket core identifier the given processor's files denote.
pub open spec fn spec_lp_core(s: LinuxSnapshot, id: usize) -> int {
    match spec_lp_topology(s.lps@, id) {
        Some(t) => spec_topo_value(opt_bytes(t.core_id)),
        None => 0,
    }
}

/// Whether some online processor of the snapshot has topology files.
pub open spec fn spec_has_usable_lp(s: LinuxSnapshot) -> bool {
    exists|id: usize|
        #![trigger cpu_list_has(trimmed(s.online@), id)]
        cpu_list_has(trimmed(s.online@), id) && spec_lp_topology(s.lps@, id) is Some
}

/// The lexicographic order of grouping keys: the socket first, then the
/// in-socket core identifier.
pub open spec fn key_lt(a: (usize, usize), b: (usize, usize)) -> bool {
    a.0 < b.0 || (a.0 == b.0 && a.1 < b.1)
}

/// Grouping keys in strictly ascending lexicographic order.
pub open spec fn keys_sorted(ks: Seq<(usize, usize)>) -> bool {
    forall|i: int, j: int| 0 <= i < j < ks.len() ==> key_lt(#[trigger] ks[i], #[trigger] ks[j])
}

/// A topology value always fits a `usize` and is never negative.
proof fn lemma_topo_value_bounds(raw: Option<Seq<u8>>)
    ensures
        0 <= spec_topo_value(raw) <= usize::MAX,
{
    match raw {
        None => {},
        Some(s) => {
            let t = trimmed(s);
            if all_digits(t) && digits_value(t) <= usize::MAX {
                lemma_digits_value_nonneg(t);
            }
        },
    }
}

/// The number of logical processors over the per-group lists.
spec fn lists_total(ls: Seq<Vec<usize>>) -> nat
    decreases ls.len(),
{
    if ls.len() == 0 {
        0
    } else {
        lists_total(ls.drop_last()) + ls.last()@.len()
    }
}

proof fn lemma_lists_total_update(ls: Seq<Vec<usize>>, k: int, nv: Vec<usize>)
    requires
        0 <= k < ls.len(),
    ensures
        lists_total(ls.update(k, nv)) == lists_total(ls) - ls[k]@.len() + nv@.len(),
    decreases ls.len(),
{
    if k == ls.len() - 1 {
        assert(ls.update(k, nv).drop_last() =~= ls.drop_last());
    } else {
        assert(ls.update(k, nv).drop_last() =~= ls.drop_last().update(k, nv));
        lemma_lists_total_update(ls.drop_last(), k, nv);
    }
}

/// Inserts a grouping key into the ascending key list, keeping it
/// ascending and duplicate-free.
fn insert_key_sorted(keys: Vec<(usize, usize)>, pkg: usize, core: usize) -> (r: Vec<
    (usize, usize),
>)
    requires
        keys_sorted(keys@),
    ensures
        keys_sorted(r@),
        forall|x: (usize, usize)| #[trigger] r@.contains(x) == (keys@.contains(x) || x == (pkg, core)),
        r@.len() > 0,
{
    let mut v = keys;
    let n = v.len();
    let mut p: usize = 0;
    while p < n && (v[p].0 < pkg || (v[p].0 == pkg && v[p].1 < core))
        invariant
            p <= n,
            n == v@.len(),
            keys_sorted(v@),
            forall|j: int| 0 <= j < p ==> key_lt(#[trigger] v@[j], (pkg, core)),
        decreases n - p,
    {
        p = p + 1;
    }
    if p < n && v[p].0 == pkg && v[p].1 == core {
        proof {
            assert(v@[p as int] == (pkg, core));
            assert(v@.contains(v@[p as int]));
        }
        return v;
    }
    let ghost oldv = v@;
    v.insert(p, (pkg, core));
    proof {
        let newv = v@;
        assert forall|i: int, j: int|
            0 <= i < j < newv.len() implies key_lt(#[trigger] newv[i], #[trigger] newv[j]) by {
            if i < p && j == p {
            } else if i == p && j > p {
                assert(newv[j] == oldv[j - 1]);
                if j - 1 == p {
                    assert(!key_lt(oldv[p as int], (pkg, core)) && oldv[p as int] != (pkg, core));
                } else {
                    assert(!key_lt(oldv[p as int], (pkg, core)) && oldv[p as int] != (pkg, core));
                    assert(key_lt(oldv[p as int], oldv[j - 1]));
                }
            } else if i < p && j > p {
                assert(newv[i] == oldv[i] && newv[j] == oldv[j - 1]);
                if i < j - 1 {
                    assert(key_lt(oldv[i], oldv[j - 1]));
                } else {
                    assert(key_lt(oldv[i], (pkg, core)));
                    assert(newv[j] == oldv[p as int]);
                    assert(!key_lt(oldv[p as int], (pkg, core)) && oldv[p as int] != (pkg, core));
                }
            } else if i > p {
                assert(newv[i] == oldv[i - 1] && newv[j] == oldv[j - 1]);
            }
        }
        assert forall|x: (usize, usize)|
            #[trigger] newv.contains(x) == (oldv.contains(x) || x == (pkg, core)) by {
            if oldv.contains(x) {
                let i = choose|i: int| 0 <= i < oldv.len() && oldv[i] == x;
                if i < p {
                    assert(newv[i] == x);
                } else {
                    assert(newv[i + 1] == x);
                }
            }
            assert(newv[p as int] == (pkg, core));
            if newv.contains(x) {
                let i = choose|i: int| 0 <= i < newv.len() && newv[i] == x;
                if i < p {
                    assert(oldv[i] == x);
                } else if i > p {
                    assert(oldv[i - 1] == x);
                }
            }
        }
    }
    v
}

/// The position of a grouping key known to be in the list.
fn find_key_index(keys: &Vec<(usize, usize)>, pkg: usize, core: usize) -> (r: usize)
    requires
        keys@.contains((pkg, core)),
    ensures
        r < keys@.len(),
        keys@[r as int] == (pkg, core),
{
    let n = keys.len();
    for k in 0..n
        invariant
            n == keys@.len(),
            keys@.contains((pkg, core)),
            forall|j: int| 0 <= j < k ==> keys@[j] != (pkg, core),
    {
        if keys[k].0 == pkg && keys[k].1 == core {
            return k;
        }
    }
    proof {
        let j = choose|j: int| 0 <= j < keys@.len() && keys@[j] == (pkg, core);
        assert(false);
    }
    0
}

/// The class a `core_type` file denotes.
pub open spec fn spec_core_type(raw: Option<Seq<u8>>) -> CoreType {
    match raw {
        None => CoreType::Unknown,
        Some(s) => {
            let t = lower_bytes(trimmed(s));
            if t == "performance".spec_bytes() || t == "0".spec_bytes() {
                CoreType::Performance
            } else if t == "efficiency".spec_bytes() || t == "1".spec_bytes() {
                CoreType::Efficiency
            } else {
                CoreType::Unknown
            }
        },
    }
}

/// Parses a `core_type` file: `performance` or `0` and `efficiency` or
/// `1` after trimming and case folding; anything else, including a
/// missing file, is an unknown class.
pub fn parse_core_type(raw: Option<&Vec<u8>>) -> (r: CoreType)
    ensures
        r == spec_core_type(match raw {
            Some(v) => Some(v@),
            None => None,
        }),
{
    match raw {
        None => CoreType::Unknown,
        Some(v) => {
            let t = to_lower(trim(v.as_slice()));
            if bytes_eq(t.as_slice(), "performance".as_bytes()) || bytes_eq(
                t.as_slice(),
                "0".as_bytes(),
            ) {
                CoreType::Performance
            } else if bytes_eq(t.as_slice(), "efficiency".as_bytes()) || bytes_eq(
                t.as_slice(),
                "1".as_bytes(),
            ) {
                CoreType::Efficiency
            } else {
                CoreType::Unknown
            }
        },
    }
}

/// Parses a topology identifier file: the trimmed decimal value, zero
/// when the file is missing or does not parse, as the kernel interface
/// documents the fields as small integers.
fn parse_topo_value(raw: Option<&Vec<u8>>) -> (r: usize)
    ensures
        r as int == spec_topo_value(match raw {
            Some(v) => Some(v@),
            None => None,
        }),
{
    match raw {
        None => 0,
        Some(v) => {
            match parse_usize(trim(v.as_slice())) {
                Some(x) => x,
                None => 0,
            }
        },
    }
}

/// The descriptor one cache index directory denotes: all four files
/// must be present, the size and line-size fields must parse to
/// positive values, and the level and kind widen to `Unknown` outside
/// the known values.
pub open spec fn spec_cache_index(raw: CacheIndexRaw) -> Option<CacheInfo> {
    match (raw.level, raw.kind, raw.size, raw.line_size) {
        (Some(level_raw), Some(kind_raw), Some(size_raw), Some(line_raw)) => {
            let lt = trimmed(level_raw@);
            let level = if all_digits(lt) && digits_value(lt) <= usize::MAX {
                if digits_value(lt) == 1 {
                    CacheLevel::L1
                } else if digits_value(lt) == 2 {
                    CacheLevel::L2
                } else if digits_value(lt) == 3 {
                    CacheLevel::L3
                } else if digits_value(lt) == 4 {
                    CacheLevel::L4
                } else {
                    CacheLevel::Unknown
                }
            } else {
                CacheLevel::Unknown
            };
            let kt = trimmed(kind_raw@);
            let kind = if kt == "Data".spec_bytes() {
                CacheType::Data
            } else if kt == "Instruction".spec_bytes() {
                CacheType::Instruction
            } else if kt == "Unified".spec_bytes() {
                CacheType::Unified
            } else {
                CacheType::Unknown
            };
            let st = trimmed(size_raw@);
            let lst = trimmed(line_raw@);
            if !crate::parse::valid_cache_size(st) {
                None
            } else if !(all_digits(lst) && digits_value(lst) <= usize::MAX) {
                None
            } else if crate::parse::cache_size_value(st) == 0 || digits_value(lst) == 0 {
                None
            } else {
                Some(
                    CacheInfo {
                        level,
                        cache_type: kind,
                        size_bytes: crate::parse::cache_size_value(st) as u64,
                        line_size_bytes: digits_value(lst) as usize,
                    },
                )
            }
        },
        _ => None,
    }
}

/// Parses one cache index directory into the descriptor its files
/// denote; a kept descriptor always has positive sizes.
pub fn parse_cache_index(raw: &CacheIndexRaw) -> (r: Option<CacheInfo>)
    ensures
        r == spec_cache_index(*raw),
        r matches Some(c) ==> c.valid(),
{
    let level_raw = match &raw.level {
        Some(v) => v,
        None => {
            return None;
        },
    };
    let kind_raw = match &raw.kind {
        Some(v) => v,
        None => {
            return None;
        },
    };
    let size_raw = match &raw.size {
        Some(v) => v,
        None => {
            return None;
        },
    };
    let line_raw = match &raw.line_size {
        Some(v) => v,
        None => {
            return None;
        },
    };
    let level = match parse_usize(trim(level_raw.as_slice())) {
        Some(1) => CacheLevel::L1,
        Some(2) => CacheLevel::L2,
        Some(3) => CacheLevel::L3,
        Some(4) => CacheLevel::L4,
        Some(_) => CacheLevel::Unknown,
        None => CacheLevel::Unknown,
    };
    let kind_t = trim(kind_raw.as_slice());
    let kind = if bytes_eq(kind_t, "Data".as_bytes()) {
        CacheType::Data
    } else if bytes_eq(kind_t, "Instruction".as_bytes()) {
        CacheType::Instruction
    } else if bytes_eq(kind_t, "Unified".as_bytes()) {
        CacheType::Unified
    } else {
        CacheType::Unknown
    };
    let size_bytes = match parse_cache_size(trim(size_raw.as_slice())) {
        Some(v) => v,
        None => {
            return None;
        },
    };
    let line_size_bytes = match parse_usize(trim(line_raw.as_slice())) {
        Some(v) => v,
        None => {
            return None;
        },
    };
    if size_bytes == 0 || line_size_bytes == 0 {
        return None;
    }
    Some(CacheInfo { level, cache_type: kind, size_bytes, line_size_bytes })
}

/// The topology files of the first record carrying the given processor.
fn find_lp_topology<'a>(lps: &'a Vec<LpRecord>, id: usize) -> (r: Option<&'a LpTopologyRaw>)
    ensures
        r matches Some(t) ==> spec_lp_topology(lps@, id) == Some(*t),
        r is None ==> spec_lp_topology(lps@, id) is None,
{
    let n = lps.len();
    proof {
        assert(lps@.subrange(0, n as int) =~= lps@);
    }
    for k in 0..n
        invariant
            n == lps@.len(),
            spec_lp_topology(lps@, id) == spec_lp_topology(
                lps@.subrange(k as int, n as int),
                id,
            ),
    {
        let ghost rest = lps@.subrange(k as int, n as int);
        proof {
            assert(rest[0] == lps@[k as int]);
            assert(rest.drop_first() =~= lps@.subrange(k as int + 1, n as int));
        }
        if lps[k].lp_id == id {
            return match &lps[k].topology {
                Some(t) => Some(t),
                None => None,
            };
        }
    }
    proof {
        assert(lps@.subrange(n as int, n as int) =~= Seq::<LpRecord>::empty());
    }
    None
}

/// Whether one byte run starts with another.
fn starts_with(s: &[u8], prefix: &[u8]) -> (r: bool)
    ensures
        r == (prefix@.len() <= s@.len() && s@.take(prefix@.len() as int) == prefix@),
{
    if prefix.len() > s.len() {
        return false;
    }
    let head = crate::parse::slice_range(s, 0, prefix.len());
    proof {
        assert(head@ =~= s@.take(prefix@.len() as int));
    }
    bytes_eq(head, prefix)
}

/// Copies a string.
pub(crate) fn clone_string(s: &String) -> (r: String)
    ensures
        r@ == s@,
{
    s.as_str().to_owned()
}

/// Copies a vendor value; the payload of `Other` keeps its characters.
pub(crate) fn clone_vendor(v: &Vendor) -> (r: Vendor)
    ensures
        r.equals(*v),
{
    match v {
        Vendor::Intel => Vendor::Intel,
        Vendor::Amd => Vendor::Amd,
        Vendor::Arm => Vendor::Arm,
        Vendor::Apple => Vendor::Apple,
        Vendor::Unknown => Vendor::Unknown,
        Vendor::Other(s) => Vendor::Other(clone_string(s)),
    }
}

/// Merges the instruction-level identification with the `/proc/cpuinfo`
/// fallback: the fallback fills the vendor only when it is unknown, the
/// model name only when it is the placeholder or a bare family string,
/// and adds the flags-line features on top of what was already found.
fn detect_basic_cpu_info(snapshot: &LinuxSnapshot) -> (r: (Vendor, String, CpuFeatures))
    ensures
        !(snapshot.cpuid_vendor is Unknown) ==> r.0.equals(snapshot.cpuid_vendor),
        r.2.spec_bits() & snapshot.cpuid_features.spec_bits()
            == snapshot.cpuid_features.spec_bits(),
{
    let mut vendor = clone_vendor(&snapshot.cpuid_vendor);
    let mut model_name = clone_string(&snapshot.cpuid_model_name);
    let mut features = snapshot.cpuid_features;

    let vendor_unknown = match &vendor {
        Vendor::Unknown => true,
        _ => false,
    };
    let model_placeholder = bytes_eq(model_name.as_str().as_bytes(), "Unknown".as_bytes())
        || starts_with(model_name.as_str().as_bytes(), "Family".as_bytes());
    if vendor_unknown || model_placeholder || features.is_empty() {
        let lines = first_block_lines(snapshot.cpuinfo.as_slice());
        let vid = extract_field(&lines, "vendor_id".as_bytes(), "vendor_id".as_bytes());
        let imp = extract_field(
            &lines,
            "CPU implementer".as_bytes(),
            "CPU implementer".as_bytes(),
        );
        let mname = extract_field(&lines, "model name".as_bytes(), "Processor".as_bytes());
        let flags = extract_field(&lines, "flags".as_bytes(), "Features".as_bytes());

        if vendor_unknown {
            vendor = parse_vendor_from_string(vid.as_ref(), imp.as_ref());
        }
        if model_placeholder {
            match &mname {
                Some(v) => {
                    model_name = lossy_string(v.as_slice());
                },
                None => {},
            }
        }
        match &flags {
            Some(line) => {
                let ghost before = features.spec_bits();
                let added = flags_line_features(line.as_slice());
                features.insert(added);
                proof {
                    assert((before | added) & before == before) by (bit_vector);
                }
            },
            None => {},
        }
    }
    proof {
        let b = snapshot.cpuid_features.spec_bits();
        assert(b & b == b) by (bit_vector);
    }
    (vendor, model_name, features)
}

/// Detects the whole topology from a Linux snapshot. The online list
/// is parsed first and a malformed list is a detection error; each
/// online processor with topology files is grouped under its
/// `(socket, in-socket core)` key, the caches it sees are attributed
/// first-wins to the group's level-one and level-two slots and to the
/// socket's level-three slot, and the groups become the cores of a
/// well-formed topology. Detection succeeds exactly when the online
/// list is well formed and at least one online processor has topology
/// files.
#[verifier::rlimit(100)]
pub fn detect_cpu_info(snapshot: &LinuxSnapshot) -> (r: Result<CpuInfo, Error>)
    ensures
        r is Ok <==> valid_cpu_list(trimmed(snapshot.online@)) && spec_has_usable_lp(*snapshot),
        r matches Err(e) ==> e is Detection,
        r matches Ok(info) ==> info.wf(),
        r matches Ok(info) ==> (!(snapshot.cpuid_vendor is Unknown) ==> info.vendor.equals(
            snapshot.cpuid_vendor,
        )),
        r matches Ok(info) ==> info.features.spec_bits() & snapshot.cpuid_features.spec_bits()
            == snapshot.cpuid_features.spec_bits(),
        r matches Ok(info) ==> (forall|id: usize|
            (#[trigger] cpu_list_has(trimmed(snapshot.online@), id) && spec_lp_topology(
                snapshot.lps@,
                id,
            ) is Some) ==> (exists|g: int|
                0 <= g < flat_cores(info.sockets@).len() && (#[trigger] flat_cores(
                    info.sockets@,
                )[g]).logical_processor_ids@.contains(id) && flat_cores(
                    info.sockets@,
                )[g].socket_id as int == spec_lp_package(*snapshot, id))),
        r matches Ok(info) ==> (forall|g: int, i: int|
            0 <= g < flat_cores(info.sockets@).len() && 0 <= i < flat_cores(
                info.sockets@,
            )[g].logical_processor_ids@.len() ==> cpu_list_has(
                trimmed(snapshot.online@),
                #[trigger] flat_cores(info.sockets@)[g].logical_processor_ids@[i],
            ) && spec_lp_topology(
                snapshot.lps@,
                flat_cores(info.sockets@)[g].logical_processor_ids@[i],
            ) is Some),
{
    let (vendor, model_name, features) = detect_basic_cpu_info(snapshot);

    let ids = match crate::parse::parse_cpu_list(snapshot.online.as_slice()) {
        Ok(v) => v,
        Err(e) => {
            return Err(e);
        },
    };
    let nids = ids.len();

    // first pass: the distinct grouping keys, ascending
    let mut keys: Vec<(usize, usize)> = Vec::new();
    for pos in 0..nids
        invariant
            nids == ids@.len(),
            forall|id: usize| ids@.contains(id) == cpu_list_has(trimmed(snapshot.online@), id),
            keys_sorted(keys@),
            forall|x: (usize, usize)|
                #[trigger] keys@.contains(x) == (exists|q: int|
                    0 <= q < pos && #[trigger] spec_lp_topology(snapshot.lps@, ids@[q]) is Some
                        && spec_lp_package(*snapshot, ids@[q]) == x.0 as int && spec_lp_core(
                        *snapshot,
                        ids@[q],
                    ) == x.1 as int),
    {
        let id = ids[pos];
        let ghost pre = keys@;
        let found = find_lp_topology(&snapshot.lps, id);
        if let Some(topo) = found {
            let pkg = parse_topo_value(topo.package_id.as_ref());
            let core = parse_topo_value(topo.core_id.as_ref());
            proof {
                assert(spec_lp_package(*snapshot, id) == pkg as int);
                assert(spec_lp_core(*snapshot, id) == core as int);
            }
            keys = insert_key_sorted(keys, pkg, core);
            proof {
                assert forall|x: (usize, usize)|
                    #[trigger] keys@.contains(x) == (exists|q: int|
                        0 <= q < pos + 1 && #[trigger] spec_lp_topology(
                            snapshot.lps@,
                            ids@[q],
                        ) is Some && spec_lp_package(*snapshot, ids@[q]) == x.0 as int
                            && spec_lp_core(*snapshot, ids@[q]) == x.1 as int) by {
                    if keys@.contains(x) {
                        if pre.contains(x) {
                            let q = choose|q: int|
                                0 <= q < pos && #[trigger] spec_lp_topology(
                                    snapshot.lps@,
                                    ids@[q],
                                ) is Some && spec_lp_package(*snapshot, ids@[q]) == x.0 as int
                                    && spec_lp_core(*snapshot, ids@[q]) == x.1 as int;
                            assert(0 <= q < pos + 1 && spec_lp_topology(
                                snapshot.lps@,
                                ids@[q],
                            ) is Some && spec_lp_package(*snapshot, ids@[q]) == x.0 as int
                                && spec_lp_core(*snapshot, ids@[q]) == x.1 as int);
                        } else {
                            assert(x == (pkg, core));
                            assert(spec_lp_topology(snapshot.lps@, ids@[pos as int]) is Some
                                && spec_lp_package(*snapshot, ids@[pos as int]) == x.0 as int
                                && spec_lp_core(*snapshot, ids@[pos as int]) == x.1 as int);
                        }
                    }
                    if exists|q: int|
                        0 <= q < pos + 1 && #[trigger] spec_lp_topology(
                            snapshot.lps@,
                            ids@[q],
                        ) is Some && spec_lp_package(*snapshot, ids@[q]) == x.0 as int
                            && spec_lp_core(*snapshot, ids@[q]) == x.1 as int {
                        let q = choose|q: int|
                            0 <= q < pos + 1 && #[trigger] spec_lp_topology(
                                snapshot.lps@,
                                ids@[q],
                            ) is Some && spec_lp_package(*snapshot, ids@[q]) == x.0 as int
                                && spec_lp_core(*snapshot, ids@[q]) == x.1 as int;
                        if q < pos {
                            assert(pre.contains(x));
                        } else {
                            assert(x.0 as int == pkg as int && x.1 as int == core as int);
                            assert(x == (pkg, core));
                        }
                        assert(keys@.contains(x));
                    }
                }
            }
        } else {
            proof {
                assert(spec_lp_topology(snapshot.lps@, ids@[pos as int]) is None);
                assert forall|x: (usize, usize)|
                    #[trigger] keys@.contains(x) == (exists|q: int|
                        0 <= q < pos + 1 && #[trigger] spec_lp_topology(
                            snapshot.lps@,
                            ids@[q],
                        ) is Some && spec_lp_package(*snapshot, ids@[q]) == x.0 as int
                            && spec_lp_core(*snapshot, ids@[q]) == x.1 as int) by {
                    if exists|q: int|
                        0 <= q < pos + 1 && #[trigger] spec_lp_topology(
                            snapshot.lps@,
                            ids@[q],
                        ) is Some && spec_lp_package(*snapshot, ids@[q]) == x.0 as int
                            && spec_lp_core(*snapshot, ids@[q]) == x.1 as int {
                        let q = choose|q: int|
                            0 <= q < pos + 1 && #[trigger] spec_lp_topology(
                                snapshot.lps@,
                                ids@[q],
                            ) is Some && spec_lp_package(*snapshot, ids@[q]) == x.0 as int
                                && spec_lp_core(*snapshot, ids@[q]) == x.1 as int;
                        assert(q < pos);
                    }
                }
            }
        }
    }

    // one empty group per key
    let nk = keys.len();
    let mut glps: Vec<Vec<usize>> = Vec::new();
    let mut gtypes: Vec<CoreType> = Vec::new();
    let mut gl1i: Vec<Option<CacheInfo>> = Vec::new();
    let mut gl1d: Vec<Option<CacheInfo>> = Vec::new();
    let mut gl2: Vec<Option<CacheInfo>> = Vec::new();
    for k in 0..nk
        invariant
            glps@.len() == k,
            gtypes@.len() == k,
            gl1i@.len() == k,
            gl1d@.len() == k,
            gl2@.len() == k,
            forall|j: int| 0 <= j < k ==> (#[trigger] glps@[j])@.len() == 0,
            forall|j: int| 0 <= j < k ==> (#[trigger] gl1i@[j]) is None,
            forall|j: int| 0 <= j < k ==> (#[trigger] gl1d@[j]) is None,
            forall|j: int| 0 <= j < k ==> (#[trigger] gl2@[j]) is None,
            lists_total(glps@) == 0,
    {
        let ghost pre = glps@;
        glps.push(Vec::new());
        gtypes.push(CoreType::Unknown);
        gl1i.push(None);
        gl1d.push(None);
        gl2.push(None);
        proof {
            assert(glps@.drop_last() =~= pre);
        }
    }

    // second pass: distribute the processors and attribute the caches
    let mut lp_count: usize = 0;
    let mut l3s: Vec<(usize, CacheInfo)> = Vec::new();
    for pos in 0..nids
        invariant
            nids == ids@.len(),
            strictly_increasing(ids@),
            nk == keys@.len(),
            keys_sorted(keys@),
            forall|x: (usize, usize)|
                #[trigger] keys@.contains(x) == (exists|q: int|
                    0 <= q < nids as int && #[trigger] spec_lp_topology(
                        snapshot.lps@,
                        ids@[q],
                    ) is Some && spec_lp_package(*snapshot, ids@[q]) == x.0 as int && spec_lp_core(
                        *snapshot,
                        ids@[q],
                    ) == x.1 as int),
            glps@.len() == nk,
            gtypes@.len() == nk,
            gl1i@.len() == nk,
            gl1d@.len() == nk,
            gl2@.len() == nk,
            lists_total(glps@) == lp_count,
            lp_count <= pos,
            forall|k: int| 0 <= k < nk ==> strictly_increasing((#[trigger] glps@[k])@),
            pos < nids ==> (forall|k: int, i: int|
                0 <= k < nk && 0 <= i < glps@[k]@.len() ==> (#[trigger] glps@[k]@[i]) < ids@[
                    pos as int
                ]),
            forall|k: int, i: int|
                0 <= k < nk && 0 <= i < glps@[k]@.len() ==> spec_lp_topology(
                    snapshot.lps@,
                    #[trigger] glps@[k]@[i],
                ) is Some && spec_lp_package(*snapshot, glps@[k]@[i]) == keys@[k].0 as int
                    && spec_lp_core(*snapshot, glps@[k]@[i]) == keys@[k].1 as int
                    && ids@.contains(glps@[k]@[i]),
            forall|q: int, k: int|
                #![trigger ids@[q], keys@[k]]
                0 <= q < pos && 0 <= k < nk && spec_lp_topology(snapshot.lps@, ids@[q]) is Some
                    && spec_lp_package(*snapshot, ids@[q]) == keys@[k].0 as int && spec_lp_core(
                    *snapshot,
                    ids@[q],
                ) == keys@[k].1 as int ==> glps@[k]@.contains(ids@[q]),
            forall|j: int| 0 <= j < l3s@.len() ==> (#[trigger] l3s@[j]).1.valid(),
            forall|k: int| 0 <= k < nk ==> ((#[trigger] gl1i@[k]) matches Some(c) ==> c.valid()),
            forall|k: int| 0 <= k < nk ==> ((#[trigger] gl1d@[k]) matches Some(c) ==> c.valid()),
            forall|k: int| 0 <= k < nk ==> ((#[trigger] gl2@[k]) matches Some(c) ==> c.valid()),
    {
        let id = ids[pos];
        let found = find_lp_topology(&snapshot.lps, id);
        if let Some(topo) = found {
            let pkg = parse_topo_value(topo.package_id.as_ref());
            let core = parse_topo_value(topo.core_id.as_ref());
            proof {
                assert(spec_lp_package(*snapshot, id) == pkg as int);
                assert(spec_lp_core(*snapshot, id) == core as int);
                assert(keys@.contains((pkg, core)));
            }
            let kidx = find_key_index(&keys, pkg, core);
            if matches!(gtypes[kidx], CoreType::Unknown) {
                gtypes.set(kidx, parse_core_type(topo.core_type.as_ref()));
            }
            let ghost pre_lps = glps@;
            let mut nl = copy_ids(&glps[kidx]);
            let ghost old_list = nl@;
            nl.push(id);
            proof {
                lemma_lists_total_update(pre_lps, kidx as int, nl);
                crate::mask::lemma_push_contains(old_list, id);
            }
            glps.set(kidx, nl);
            lp_count = lp_count + 1;
            proof {
                assert forall|k: int|
                    0 <= k < nk implies strictly_increasing((#[trigger] glps@[k])@) by {
                    if k == kidx as int {
                        assert forall|a: int, b: int|
                            0 <= a < b < glps@[k]@.len() implies glps@[k]@[a] < glps@[k]@[b] by {
                            if b == glps@[k]@.len() - 1 {
                                assert(pre_lps[k]@[a] < id);
                            }
                        }
                    }
                }
                assert forall|k: int, i: int|
                    0 <= k < nk && 0 <= i < glps@[k]@.len() implies spec_lp_topology(
                    snapshot.lps@,
                    #[trigger] glps@[k]@[i],
                ) is Some && spec_lp_package(*snapshot, glps@[k]@[i]) == keys@[k].0 as int
                    && spec_lp_core(*snapshot, glps@[k]@[i]) == keys@[k].1 as int
                    && ids@.contains(glps@[k]@[i]) by {
                    if k == kidx as int && i == glps@[k]@.len() - 1 {
                        assert(glps@[k]@[i] == id);
                        assert(ids@[pos as int] == id);
                    } else if k == kidx as int {
                        assert(glps@[k]@[i] == pre_lps[k]@[i]);
                    }
                }
                assert forall|q: int, k: int|
                    #![trigger ids@[q], keys@[k]]
                    0 <= q < pos + 1 && 0 <= k < nk && spec_lp_topology(
                        snapshot.lps@,
                        ids@[q],
                    ) is Some && spec_lp_package(*snapshot, ids@[q]) == keys@[k].0 as int
                        && spec_lp_core(*snapshot, ids@[q]) == keys@[k].1 as int implies glps@[
                    k
                ]@.contains(ids@[q]) by {
                    if q < pos {
                        if k == kidx as int {
                            assert(pre_lps[k]@.contains(ids@[q]));
                            let i = choose|i: int|
                                0 <= i < pre_lps[k]@.len() && pre_lps[k]@[i] == ids@[q];
                            assert(glps@[k]@[i] == ids@[q]);
                        }
                    } else {
                        assert(keys@[k].0 as int == pkg as int && keys@[k].1 as int
                            == core as int);
                        assert(keys@[k as int] == (pkg, core));
                        assert(keys@[kidx as int] == (pkg, core));
                        if k != kidx as int {
                            assert(key_lt(keys@[k], keys@[kidx as int]) || key_lt(
                                keys@[kidx as int],
                                keys@[k],
                            ));
                            assert(false);
                        }
                        assert(glps@[k]@.last() == id);
                    }
                }
            }
            // the caches this processor sees
            let nc = topo.caches.len();
            for ci in 0..nc
                invariant
                    nc == topo.caches@.len(),
                    nk == keys@.len(),
                    kidx < nk,
                    gl1i@.len() == nk,
                    gl1d@.len() == nk,
                    gl2@.len() == nk,
                    forall|j: int| 0 <= j < l3s@.len() ==> (#[trigger] l3s@[j]).1.valid(),
                    forall|k: int|
                        0 <= k < nk ==> ((#[trigger] gl1i@[k]) matches Some(c) ==> c.valid()),
                    forall|k: int|
                        0 <= k < nk ==> ((#[trigger] gl1d@[k]) matches Some(c) ==> c.valid()),
                    forall|k: int|
                        0 <= k < nk ==> ((#[trigger] gl2@[k]) matches Some(c) ==> c.valid()),
            {
                let parsed = parse_cache_index(&topo.caches[ci]);
                if let Some(cache) = parsed {
                    match cache.level {
                        CacheLevel::L1 => {
                            match cache.cache_type {
                                CacheType::Instruction => {
                                    if gl1i[kidx].is_none() {
                                        gl1i.set(kidx, Some(cache));
                                    }
                                },
                                CacheType::Data => {
                                    if gl1d[kidx].is_none() {
                                        gl1d.set(kidx, Some(cache));
                                    }
                                },
                                CacheType::Unified => {
                                    if gl1i[kidx].is_none() {
                                        gl1i.set(kidx, Some(cache));
                                    }
                                    if gl1d[kidx].is_none() {
                                        gl1d.set(kidx, Some(cache));
                                    }
                                },
                                _ => {},
                            }
                        },
                        CacheLevel::L2 => {
                            if gl2[kidx].is_none() {
                                gl2.set(kidx, Some(cache));
                            }
                        },
                        CacheLevel::L3 => {
                            let mut seen = false;
                            let nl3 = l3s.len();
                            for j in 0..nl3
                                invariant
                                    nl3 == l3s@.len(),
                            {
                                if l3s[j].0 == pkg {
                                    seen = true;
                                }
                            }
                            if !seen {
                                l3s.push((pkg, cache));
                            }
                        },
                        _ => {},
                    }
                }
            }
        } else {
            proof {
                assert(spec_lp_topology(snapshot.lps@, ids@[pos as int]) is None);
            }
        }
    }

    // the groups, ascending by socket then in-socket core, become seeds
    let mut seeds: Vec<CoreSeed> = Vec::new();
    for k in 0..nk
        invariant
            nk == keys@.len(),
            keys_sorted(keys@),
            forall|x: (usize, usize)|
                #[trigger] keys@.contains(x) == (exists|q: int|
                    0 <= q < nids as int && #[trigger] spec_lp_topology(
                        snapshot.lps@,
                        ids@[q],
                    ) is Some && spec_lp_package(*snapshot, ids@[q]) == x.0 as int && spec_lp_core(
                        *snapshot,
                        ids@[q],
                    ) == x.1 as int),
            nids == ids@.len(),
            glps@.len() == nk,
            gtypes@.len() == nk,
            gl1i@.len() == nk,
            gl1d@.len() == nk,
            gl2@.len() == nk,
            lists_total(glps@) == lp_count,
            forall|k2: int| 0 <= k2 < nk ==> strictly_increasing((#[trigger] glps@[k2])@),
            forall|k2: int, i: int|
                0 <= k2 < nk && 0 <= i < glps@[k2]@.len() ==> spec_lp_topology(
                    snapshot.lps@,
                    #[trigger] glps@[k2]@[i],
                ) is Some && spec_lp_package(*snapshot, glps@[k2]@[i]) == keys@[k2].0 as int
                    && spec_lp_core(*snapshot, glps@[k2]@[i]) == keys@[k2].1 as int
                    && ids@.contains(glps@[k2]@[i]),
            forall|q: int, k2: int|
                #![trigger ids@[q], keys@[k2]]
                0 <= q < nids as int && 0 <= k2 < nk && spec_lp_topology(
                    snapshot.lps@,
                    ids@[q],
                ) is Some && spec_lp_package(*snapshot, ids@[q]) == keys@[k2].0 as int
                    && spec_lp_core(*snapshot, ids@[q]) == keys@[k2].1 as int ==> glps@[
                k2
            ]@.contains(ids@[q]),
            forall|j: int| 0 <= j < l3s@.len() ==> (#[trigger] l3s@[j]).1.valid(),
            forall|k2: int|
                0 <= k2 < nk ==> ((#[trigger] gl1i@[k2]) matches Some(c) ==> c.valid()),
            forall|k2: int|
                0 <= k2 < nk ==> ((#[trigger] gl1d@[k2]) matches Some(c) ==> c.valid()),
            forall|k2: int| 0 <= k2 < nk ==> ((#[trigger] gl2@[k2]) matches Some(c) ==> c.valid()),
            seeds@.len() == k,
            forall|g: int| 0 <= g < k ==> (#[trigger] seeds@[g]).socket_key == keys@[g].0,
            forall|g: int| 0 <= g < k ==> (#[trigger] seeds@[g]).lp_ids@ == glps@[g]@,
            forall|g: int| 0 <= g < k ==> (#[trigger] seeds@[g]).wf(),
            seeds_lp_total(seeds@) == lists_total(glps@.subrange(0, k as int)),
    {
        proof {
            // the group is not empty: its key is carried by some online
            // processor, whose ID the distribution pass appended
            assert(keys@.contains(keys@[k as int]));
            let q = choose|q: int|
                0 <= q < nids as int && #[trigger] spec_lp_topology(
                    snapshot.lps@,
                    ids@[q],
                ) is Some && spec_lp_package(*snapshot, ids@[q]) == keys@[k as int].0 as int
                    && spec_lp_core(*snapshot, ids@[q]) == keys@[k as int].1 as int;
            assert(glps@[k as int]@.contains(ids@[q]));
            assert(glps@[k as int]@.len() > 0);
        }
        let ghost pre_seeds = seeds@;
        seeds.push(
            CoreSeed {
                socket_key: keys[k].0,
                core_type: gtypes[k],
                lp_ids: copy_ids(&glps[k]),
                l1i: gl1i[k],
                l1d: gl1d[k],
                l2: gl2[k],
            },
        );
        proof {
            assert(seeds@.drop_last() =~= pre_seeds);
            assert(glps@.subrange(0, k as int + 1).drop_last() =~= glps@.subrange(0, k as int));
            assert(glps@.subrange(0, k as int + 1).last() == glps@[k as int]);
        }
    }
    proof {
        assert(glps@.subrange(0, nk as int) =~= glps@);
        assert(seeds_lp_total(seeds@) == lp_count);
        assert(seeds_sorted(seeds@));
        assert forall|k1: int, k2: int, i1: int, i2: int|
            0 <= k1 < seeds@.len() && 0 <= k2 < seeds@.len() && k1 != k2 && 0 <= i1 < seeds@[
            k1
        ].lp_ids@.len() && 0 <= i2 < seeds@[k2].lp_ids@.len() implies (
        #[trigger] seeds@[k1].lp_ids@[i1]) != (#[trigger] seeds@[k2].lp_ids@[i2]) by {
            if seeds@[k1].lp_ids@[i1] == seeds@[k2].lp_ids@[i2] {
                let v = seeds@[k1].lp_ids@[i1];
                assert(glps@[k1]@[i1] == v && glps@[k2]@[i2] == v);
                assert(spec_lp_package(*snapshot, v) == keys@[k1].0 as int && spec_lp_core(
                    *snapshot,
                    v,
                ) == keys@[k1].1 as int);
                assert(spec_lp_package(*snapshot, v) == keys@[k2].0 as int && spec_lp_core(
                    *snapshot,
                    v,
                ) == keys@[k2].1 as int);
                assert(keys@[k1] == keys@[k2]);
                if k1 < k2 {
                    assert(key_lt(keys@[k1], keys@[k2]));
                } else {
                    assert(key_lt(keys@[k2], keys@[k1]));
                }
                assert(false);
            }
        }
        assert(seeds_disjoint(seeds@));
    }
    let ghost keys_view = keys@;
    let ghost ids_view = ids@;
    let info = match assemble(vendor, model_name, features, &seeds, &l3s) {
        Ok(i) => i,
        Err(_) => {
            proof {
                // no seed means no grouping key, so no online processor
                // had topology files
                assert(seeds@.len() == 0);
                assert(keys_view.len() == 0);
                if spec_has_usable_lp(*snapshot) {
                    let id = choose|id: usize|
                        #![trigger cpu_list_has(trimmed(snapshot.online@), id)]
                        cpu_list_has(trimmed(snapshot.online@), id) && spec_lp_topology(
                            snapshot.lps@,
                            id,
                        ) is Some;
                    assert(ids_view.contains(id));
                    let q = choose|q: int| 0 <= q < ids_view.len() && ids_view[q] == id;
                    lemma_topo_value_bounds(
                        match spec_lp_topology(snapshot.lps@, id) {
                            Some(t) => opt_bytes(t.package_id),
                            None => None,
                        },
                    );
                    lemma_topo_value_bounds(
                        match spec_lp_topology(snapshot.lps@, id) {
                            Some(t) => opt_bytes(t.core_id),
                            None => None,
                        },
                    );
                    let x = (
                        spec_lp_package(*snapshot, id) as usize,
                        spec_lp_core(*snapshot, id) as usize,
                    );
                    assert(spec_lp_topology(snapshot.lps@, ids_view[q]) is Some && spec_lp_package(
                        *snapshot,
                        ids_view[q],
                    ) == x.0 as int && spec_lp_core(*snapshot, ids_view[q]) == x.1 as int);
                    assert(keys_view.contains(x));
                    assert(false);
                }
            }
            return Err(
                Error::Detection("no online logical processor had topology files".to_owned()),
            );
        },
    };
    proof {
        let flat = crate::info::flat_cores(info.sockets@);
        // every usable online processor sits in the core of its socket
        assert forall|id: usize|
            (#[trigger] cpu_list_has(trimmed(snapshot.online@), id) && spec_lp_topology(
                snapshot.lps@,
                id,
            ) is Some) implies (exists|g: int|
            0 <= g < flat.len() && (#[trigger] flat[g]).logical_processor_ids@.contains(id)
                && flat[g].socket_id as int == spec_lp_package(*snapshot, id)) by {
            assert(ids_view.contains(id));
            let q = choose|q: int| 0 <= q < ids_view.len() && ids_view[q] == id;
            lemma_topo_value_bounds(
                match spec_lp_topology(snapshot.lps@, id) {
                    Some(t) => opt_bytes(t.package_id),
                    None => None,
                },
            );
            lemma_topo_value_bounds(
                match spec_lp_topology(snapshot.lps@, id) {
                    Some(t) => opt_bytes(t.core_id),
                    None => None,
                },
            );
            let x = (
                spec_lp_package(*snapshot, id) as usize,
                spec_lp_core(*snapshot, id) as usize,
            );
            assert(spec_lp_topology(snapshot.lps@, ids_view[q]) is Some && spec_lp_package(
                *snapshot,
                ids_view[q],
            ) == x.0 as int && spec_lp_core(*snapshot, ids_view[q]) == x.1 as int);
            assert(keys_view.contains(x));
            let k = choose|k: int| 0 <= k < keys_view.len() && keys_view[k] == x;
            assert(glps@[k]@.contains(ids_view[q]));
            assert(seeds@[k].lp_ids@.contains(id));
            assert(crate::topology::core_from_seed(flat[k], k, seeds@[k], info.vendor));
            assert(flat[k].logical_processor_ids@.contains(id));
            assert(flat[k].socket_id == seeds@[k].socket_key);
            assert(seeds@[k].socket_key == keys_view[k].0);
        }
        // every processor of the topology is a usable online processor
        assert forall|g: int, i: int|
            0 <= g < flat.len() && 0 <= i < flat[g].logical_processor_ids@.len() implies
            cpu_list_has(
            trimmed(snapshot.online@),
            #[trigger] flat[g].logical_processor_ids@[i],
        ) && spec_lp_topology(
            snapshot.lps@,
            flat[g].logical_processor_ids@[i],
        ) is Some by {
            assert(crate::topology::core_from_seed(flat[g], g, seeds@[g], info.vendor));
            let v = flat[g].logical_processor_ids@[i];
            assert(seeds@[g].lp_ids@[i] == v);
            assert(glps@[g]@[i] == v);
            assert(ids_view.contains(v));
        }
        // success names a usable processor
        assert(seeds@.len() > 0);
        assert(keys_view.len() > 0);
        assert(keys_view.contains(keys_view[0]));
        let q = choose|q: int|
            0 <= q < nids as int && #[trigger] spec_lp_topology(
                snapshot.lps@,
                ids_view[q],
            ) is Some && spec_lp_package(*snapshot, ids_view[q]) == keys_view[0].0 as int
                && spec_lp_core(*snapshot, ids_view[q]) == keys_view[0].1 as int;
        assert(ids_view.contains(ids_view[q]));
        assert(cpu_list_has(trimmed(snapshot.online@), ids_view[q]));
        assert(spec_has_usable_lp(*snapshot));
    }
    Ok(info)
}

} // verus!
