//! The common final step of topology discovery: every platform backend
//! reduces its raw data to a sorted list of core seeds, and one
//! assembler turns the seeds into the canonical `CpuInfo`, establishing
//! every structural invariant of the model.

use vstd::prelude::*;

use crate::cache::CacheInfo;
use crate::core_info::{CoreInfo, CoreType};
use crate::error::Error;
use crate::features::CpuFeatures;
use crate::info::{
    CpuInfo, count_of_type, flat_cores, lemma_flat_cores_push, lp_disjoint, sum_lp_counts,
};
use crate::mask::strictly_increasing;
use crate::socket_info::SocketInfo;
use crate::vendor::Vendor;

verus! {

/// One physical core as a backend discovered it, before global IDs are
/// assigned: the socket it belongs to, its class, its logical
/// processors, and the caches attributed to it.
#[derive(Debug, Clone)]
pub struct CoreSeed {
    /// The socket this core belongs to; seeds are grouped by this key.
    pub socket_key: usize,
    /// The class the platform reported, `Unknown` when it reported none.
    pub core_type: CoreType,
    /// The OS logical-processor IDs of this core, strictly ascending.
    pub lp_ids: Vec<usize>,
    /// The attributed L1 instruction cache.
    pub l1i: Option<CacheInfo>,
    /// The attributed L1 data cache.
    pub l1d: Option<CacheInfo>,
    /// The attributed L2 cache.
    pub l2: Option<CacheInfo>,
}

impl CoreSeed {
    /// A usable seed: at least one logical processor, listed strictly
    /// ascending, and only caches with positive sizes.
    pub open spec fn wf(self) -> bool {
        &&& self.lp_ids@.len() > 0
        &&& strictly_increasing(self.lp_ids@)
        &&& (self.l1i matches Some(c) ==> c.valid())
        &&& (self.l1d matches Some(c) ==> c.valid())
        &&& (self.l2 matches Some(c) ==> c.valid())
    }
}

/// Seeds are grouped when their socket keys never decrease.
pub open spec fn seeds_sorted(seeds: Seq<CoreSeed>) -> bool {
    forall|i: int, j: int|
        0 <= i < j < seeds.len() ==> (#[trigger] seeds[i]).socket_key <= (
        #[trigger] seeds[j]).socket_key
}

/// No logical-processor ID appears in two distinct seeds.
pub open spec fn seeds_disjoint(seeds: Seq<CoreSeed>) -> bool {
    forall|k1: int, k2: int, i1: int, i2: int|
        0 <= k1 < seeds.len() && 0 <= k2 < seeds.len() && k1 != k2 && 0 <= i1
            < seeds[k1].lp_ids@.len() && 0 <= i2 < seeds[k2].lp_ids@.len()
            ==> seeds[k1].lp_ids@[i1] != seeds[k2].lp_ids@[i2]
}

/// The number of logical processors over all seeds.
pub open spec fn seeds_lp_total(seeds: Seq<CoreSeed>) -> nat
    decreases seeds.len(),
{
    if seeds.len() == 0 {
        0
    } else {
        seeds_lp_total(seeds.drop_last()) + seeds.last().lp_ids@.len()
    }
}

/// The class a core is assigned after the vendor heuristic: a class the
/// platform refused to report is promoted to performance when the
/// vendor is known to ship non-hybrid parts, and kept otherwise.
pub open spec fn promoted_type(t: CoreType, vendor: Vendor) -> CoreType {
    if t is Unknown && vendor.known() {
        CoreType::Performance
    } else {
        t
    }
}

/// Whether some socket of the sequence carries the given identifier.
pub open spec fn key_has_socket(sockets: Seq<SocketInfo>, key: usize) -> bool {
    exists|s: int| 0 <= s < sockets.len() && (#[trigger] sockets[s]).id == key
}

/// Whether some seed among the first `k` carries the given socket key.
pub open spec fn seed_key_in_prefix(seeds: Seq<CoreSeed>, k: int, key: usize) -> bool {
    exists|g: int| 0 <= g < k && g < seeds.len() && (#[trigger] seeds[g]).socket_key == key
}

/// The first socket-level cache recorded for the given socket key.
pub open spec fn first_l3(l3s: Seq<(usize, CacheInfo)>, key: usize) -> Option<CacheInfo>
    decreases l3s.len(),
{
    if l3s.len() == 0 {
        None
    } else if l3s[0].0 == key {
        Some(l3s[0].1)
    } else {
        first_l3(l3s.drop_first(), key)
    }
}

/// Copies a vector of IDs.
pub fn copy_ids(v: &Vec<usize>) -> (r: Vec<usize>)
    ensures
        r@ == v@,
{
    let mut r: Vec<usize> = Vec::new();
    let n = v.len();
    for i in 0..n
        invariant
            n == v@.len(),
            r@ == v@.take(i as int),
    {
        r.push(v[i]);
        proof {
            assert(v@.take(i as int + 1) == v@.take(i as int).push(v@[i as int]));
        }
    }
    proof {
        assert(v@.take(n as int) == v@);
    }
    r
}

/// Finds the first socket-level cache recorded for the key.
fn lookup_l3(l3s: &Vec<(usize, CacheInfo)>, key: usize) -> (r: Option<CacheInfo>)
    ensures
        r == first_l3(l3s@, key),
{
    let n = l3s.len();
    proof {
        assert(l3s@.subrange(0, n as int) =~= l3s@);
    }
    for i in 0..n
        invariant
            n == l3s@.len(),
            first_l3(l3s@, key) == first_l3(l3s@.subrange(i as int, n as int), key),
    {
        let ghost rest = l3s@.subrange(i as int, n as int);
        if l3s[i].0 == key {
            proof {
                assert(rest[0] == l3s@[i as int]);
            }
            return Some(l3s[i].1);
        }
        proof {
            assert(rest[0] == l3s@[i as int]);
            assert(rest.drop_first() =~= l3s@.subrange(i as int + 1, n as int));
        }
    }
    proof {
        assert(l3s@.subrange(n as int, n as int) =~= Seq::<(usize, CacheInfo)>::empty());
    }
    None
}

/// The core at position `g` of the flattening realises the seed at the
/// same position: dense ID, the seed's socket, the promoted class, and
/// the seed's logical processors and caches.
pub open spec fn core_from_seed(c: CoreInfo, g: int, seed: CoreSeed, vendor: Vendor) -> bool {
    &&& c.id == g
    &&& c.socket_id == seed.socket_key
    &&& c.core_type == promoted_type(seed.core_type, vendor)
    &&& c.logical_processor_ids@ == seed.lp_ids@
    &&& c.l1_instruction_cache == seed.l1i
    &&& c.l1_data_cache == seed.l1d
    &&& c.l2_cache == seed.l2
}

/// Whether the vendor is one of the named manufacturers the promotion
/// heuristic applies to.
fn vendor_known(vendor: &Vendor) -> (r: bool)
    ensures
        r == vendor.known(),
{
    match vendor {
        Vendor::Intel => true,
        Vendor::Amd => true,
        Vendor::Arm => true,
        Vendor::Apple => true,
        _ => false,
    }
}

/// Applies the vendor heuristic to one reported class.
fn promote(t: CoreType, vendor: &Vendor) -> (r: CoreType)
    ensures
        r == promoted_type(t, *vendor),
{
    match t {
        CoreType::Unknown => {
            if vendor_known(vendor) {
                CoreType::Performance
            } else {
                CoreType::Unknown
            }
        },
        other => other,
    }
}

/// Builds the core realising one seed.
fn make_core(seed: &CoreSeed, gid: usize, vendor: &Vendor) -> (c: CoreInfo)
    ensures
        core_from_seed(c, gid as int, *seed, *vendor),
        seed.wf() ==> c.wf(),
{
    CoreInfo {
        id: gid,
        socket_id: seed.socket_key,
        core_type: promote(seed.core_type, vendor),
        logical_processor_ids: copy_ids(&seed.lp_ids),
        l1_instruction_cache: seed.l1i,
        l1_data_cache: seed.l1d,
        l2_cache: seed.l2,
    }
}

/// One seed more in the prefix adds that seed's processor count.
proof fn lemma_lp_total_step(seeds: Seq<CoreSeed>, m: int)
    requires
        0 <= m < seeds.len(),
    ensures
        seeds_lp_total(seeds.take(m + 1)) == seeds_lp_total(seeds.take(m))
            + seeds[m].lp_ids@.len(),
{
    assert(seeds.take(m + 1).drop_last() =~= seeds.take(m));
    assert(seeds.take(m + 1).last() == seeds[m]);
}

/// A prefix never holds more logical processors than the whole.
proof fn lemma_lp_total_mono(seeds: Seq<CoreSeed>, m: int)
    requires
        0 <= m <= seeds.len(),
    ensures
        seeds_lp_total(seeds.take(m)) <= seeds_lp_total(seeds),
    decreases seeds.len() - m,
{
    if m < seeds.len() {
        lemma_lp_total_step(seeds, m);
        lemma_lp_total_mono(seeds, m + 1);
    } else {
        assert(seeds.take(m) =~= seeds);
    }
}

/// A cache looked up by socket key comes from the recorded list, so it
/// is valid whenever everything recorded is.
proof fn lemma_first_l3_valid(l3s: Seq<(usize, CacheInfo)>, key: usize)
    requires
        forall|j: int| 0 <= j < l3s.len() ==> (#[trigger] l3s[j]).1.valid(),
    ensures
        first_l3(l3s, key) matches Some(c) ==> c.valid(),
    decreases l3s.len(),
{
    if l3s.len() > 0 && l3s[0].0 != key {
        assert(forall|j: int|
            0 <= j < l3s.drop_first().len() ==> (#[trigger] l3s.drop_first()[j])
                == l3s[j + 1]);
        lemma_first_l3_valid(l3s.drop_first(), key);
    }
}

/// Assembles the canonical topology from sorted, disjoint, usable
/// seeds and the socket-level caches. Fails exactly when no seed was
/// discovered; a successful result satisfies every invariant of the
/// model, realises the seeds one core each in order with dense IDs and
/// the vendor heuristic applied, and attaches to each socket the first
/// cache recorded for its key.
#[verifier::rlimit(60)]
pub fn assemble(
    vendor: Vendor,
    model_name: String,
    features: CpuFeatures,
    seeds: &Vec<CoreSeed>,
    l3s: &Vec<(usize, CacheInfo)>,
) -> (r: Result<CpuInfo, Error>)
    requires
        forall|k: int| 0 <= k < seeds@.len() ==> (#[trigger] seeds@[k]).wf(),
        seeds_sorted(seeds@),
        seeds_disjoint(seeds@),
        seeds_lp_total(seeds@) <= usize::MAX,
        forall|j: int| 0 <= j < l3s@.len() ==> (#[trigger] l3s@[j]).1.valid(),
    ensures
        r is Ok <==> seeds@.len() > 0,
        r matches Ok(info) ==> ({
            &&& info.wf()
            &&& info.vendor == vendor
            &&& info.model_name == model_name
            &&& info.features == features
            &&& info.total_physical_cores == seeds@.len()
            &&& info.total_logical_processors == seeds_lp_total(seeds@)
            &&& flat_cores(info.sockets@).len() == seeds@.len()
            &&& (forall|g: int|
                0 <= g < seeds@.len() ==> core_from_seed(
                    #[trigger] flat_cores(info.sockets@)[g],
                    g,
                    seeds@[g],
                    vendor,
                ))
            &&& (forall|s: int|
                0 <= s < info.sockets@.len() ==> (#[trigger] info.sockets@[s]).l3_cache
                    == first_l3(l3s@, info.sockets@[s].id))
            &&& (forall|s1: int, s2: int|
                0 <= s1 < s2 < info.sockets@.len() ==> (#[trigger] info.sockets@[s1]).id < (
                #[trigger] info.sockets@[s2]).id)
            &&& (forall|s: int|
                0 <= s < info.sockets@.len() ==> seed_key_in_prefix(
                    seeds@,
                    seeds@.len() as int,
                    (#[trigger] info.sockets@[s]).id,
                ))
            &&& (forall|g: int|
                0 <= g < seeds@.len() ==> key_has_socket(
                    info.sockets@,
                    (#[trigger] seeds@[g]).socket_key,
                ))
        }),
{
    let n = seeds.len();
    if n == 0 {
        return Err(Error::Detection("no usable physical core was discovered".to_owned()));
    }
    let mut sockets: Vec<SocketInfo> = Vec::new();
    let mut k: usize = 0;
    let mut lp_total: usize = 0;
    let mut perf: usize = 0;
    let mut eff: usize = 0;
    while k < n
        invariant
            n == seeds@.len(),
            k <= n,
            forall|g: int| 0 <= g < seeds@.len() ==> (#[trigger] seeds@[g]).wf(),
            seeds_sorted(seeds@),
            seeds_lp_total(seeds@) <= usize::MAX,
            forall|j: int| 0 <= j < l3s@.len() ==> (#[trigger] l3s@[j]).1.valid(),
            flat_cores(sockets@).len() == k,
            forall|g: int|
                0 <= g < k ==> core_from_seed(
                    #[trigger] flat_cores(sockets@)[g],
                    g,
                    seeds@[g],
                    vendor,
                ),
            forall|s: int| 0 <= s < sockets@.len() ==> (#[trigger] sockets@[s]).wf(),
            forall|s: int|
                0 <= s < sockets@.len() ==> (#[trigger] sockets@[s]).l3_cache == first_l3(
                    l3s@,
                    sockets@[s].id,
                ),
            lp_total as nat == seeds_lp_total(seeds@.take(k as int)),
            lp_total as nat == sum_lp_counts(flat_cores(sockets@)),
            lp_total >= k,
            perf as nat == count_of_type(flat_cores(sockets@), CoreType::Performance),
            eff as nat == count_of_type(flat_cores(sockets@), CoreType::Efficiency),
            perf as int + eff as int <= k as int,
            k > 0 ==> sockets@.len() > 0,
            forall|s1: int, s2: int|
                0 <= s1 < s2 < sockets@.len() ==> (#[trigger] sockets@[s1]).id < (
                #[trigger] sockets@[s2]).id,
            k < n && sockets@.len() > 0 ==> sockets@.last().id < seeds@[k as int].socket_key,
            forall|s: int|
                0 <= s < sockets@.len() ==> seed_key_in_prefix(
                    seeds@,
                    k as int,
                    (#[trigger] sockets@[s]).id,
                ),
            forall|g: int|
                0 <= g < k ==> key_has_socket(sockets@, (#[trigger] seeds@[g]).socket_key),
        decreases n - k,
    {
        let ghost done = flat_cores(sockets@);
        let key = seeds[k].socket_key;
        let mut cores: Vec<CoreInfo> = Vec::new();
        let ghost k0 = k as int;
        while k < n && seeds[k].socket_key == key
            invariant
                n == seeds@.len(),
                k0 <= k as int <= n as int,
                k0 < n,
                key == seeds@[k0].socket_key,
                seeds_sorted(seeds@),
                forall|g: int| k0 <= g < k as int ==> (#[trigger] seeds@[g]).socket_key == key,
                forall|g: int| 0 <= g < seeds@.len() ==> (#[trigger] seeds@[g]).wf(),
                seeds_lp_total(seeds@) <= usize::MAX,
                done == flat_cores(sockets@),
                done.len() == k0,
                forall|s1: int, s2: int|
                    0 <= s1 < s2 < sockets@.len() ==> (#[trigger] sockets@[s1]).id < (
                    #[trigger] sockets@[s2]).id,
                sockets@.len() > 0 ==> sockets@.last().id < key,
                forall|s: int|
                    0 <= s < sockets@.len() ==> seed_key_in_prefix(
                        seeds@,
                        k0,
                        (#[trigger] sockets@[s]).id,
                    ),
                forall|g: int|
                    0 <= g < k0 ==> key_has_socket(sockets@, (#[trigger] seeds@[g]).socket_key),
                cores@.len() == k as int - k0,
                forall|g: int|
                    0 <= g < k0 ==> core_from_seed(#[trigger] done[g], g, seeds@[g], vendor),
                forall|j: int|
                    0 <= j < cores@.len() ==> core_from_seed(
                        #[trigger] cores@[j],
                        k0 + j,
                        seeds@[k0 + j],
                        vendor,
                    ),
                forall|j: int| 0 <= j < cores@.len() ==> (#[trigger] cores@[j]).wf(),
                forall|j: int| 0 <= j < cores@.len() ==> (#[trigger] cores@[j]).socket_id == key,
                lp_total as nat == seeds_lp_total(seeds@.take(k as int)),
                lp_total as nat == sum_lp_counts(done + cores@),
                lp_total >= k,
                perf as nat == count_of_type(done + cores@, CoreType::Performance),
                eff as nat == count_of_type(done + cores@, CoreType::Efficiency),
                perf as int + eff as int <= k as int,
            decreases n - k,
        {
            let ghost flat_pre = done + cores@;
            let seed = &seeds[k];
            let lp_count = seed.lp_ids.len();
            let core = make_core(seed, k, &vendor);
            let core_type = core.core_type;
            proof {
                lemma_lp_total_step(seeds@, k as int);
                lemma_lp_total_mono(seeds@, k as int + 1);
                assert(lp_total + lp_count <= usize::MAX);
            }
            cores.push(core);
            proof {
                assert(done + cores@ =~= flat_pre.push(core));
                assert(flat_pre.push(core).drop_last() =~= flat_pre);
                assert(sum_lp_counts(done + cores@) == sum_lp_counts(flat_pre)
                    + core.logical_processor_ids@.len());
                assert(count_of_type(done + cores@, CoreType::Performance) == count_of_type(
                    flat_pre,
                    CoreType::Performance,
                ) + if core.core_type == CoreType::Performance {
                    1nat
                } else {
                    0nat
                });
                assert(count_of_type(done + cores@, CoreType::Efficiency) == count_of_type(
                    flat_pre,
                    CoreType::Efficiency,
                ) + if core.core_type == CoreType::Efficiency {
                    1nat
                } else {
                    0nat
                });
            }
            proof {
                assert(seeds@[k as int].socket_key == key);
            }
            lp_total = lp_total + lp_count;
            match core_type {
                CoreType::Performance => {
                    perf = perf + 1;
                },
                CoreType::Efficiency => {
                    eff = eff + 1;
                },
                CoreType::Unknown => {},
            }
            k = k + 1;
        }
        let l3 = lookup_l3(l3s, key);
        proof {
            lemma_first_l3_valid(l3s@, key);
        }
        proof {
            if k as int == k0 {
                assert(seeds@[k0].socket_key == key);
                assert(false);
            }
        }
        let socket = SocketInfo { id: key, cores, l3_cache: l3 };
        let ghost pre_sockets = sockets@;
        sockets.push(socket);
        proof {
            lemma_flat_cores_push(pre_sockets, socket);
            assert(flat_cores(sockets@) == done + socket.cores@);
            assert forall|s1: int, s2: int|
                0 <= s1 < s2 < sockets@.len() implies (#[trigger] sockets@[s1]).id < (
            #[trigger] sockets@[s2]).id by {
                if s2 == sockets@.len() - 1 && s1 < s2 {
                    if s1 < pre_sockets.len() - 1 {
                        assert(pre_sockets[s1].id < pre_sockets[pre_sockets.len() - 1].id);
                    }
                }
            }
            if k < n {
                assert(seeds@[k0].socket_key <= seeds@[k as int].socket_key);
                assert(seeds@[k as int].socket_key != key);
            }
            assert forall|s: int|
                0 <= s < sockets@.len() implies seed_key_in_prefix(
                seeds@,
                k as int,
                (#[trigger] sockets@[s]).id,
            ) by {
                if s == sockets@.len() - 1 {
                    assert(0 <= k0 < k as int && seeds@[k0].socket_key == sockets@[s].id);
                } else {
                    assert(seed_key_in_prefix(seeds@, k0, pre_sockets[s].id));
                    let g = choose|g: int|
                        0 <= g < k0 && g < seeds@.len() && (#[trigger] seeds@[g]).socket_key
                            == pre_sockets[s].id;
                    assert(0 <= g < k as int && seeds@[g].socket_key == sockets@[s].id);
                }
            }
            assert forall|g: int|
                0 <= g < k implies key_has_socket(
                sockets@,
                (#[trigger] seeds@[g]).socket_key,
            ) by {
                if g < k0 {
                    assert(key_has_socket(pre_sockets, seeds@[g].socket_key));
                    let s = choose|s: int|
                        0 <= s < pre_sockets.len() && (#[trigger] pre_sockets[s]).id
                            == seeds@[g].socket_key;
                    assert(sockets@[s].id == seeds@[g].socket_key);
                } else {
                    assert(sockets@[sockets@.len() - 1].id == key);
                    assert(seeds@[g].socket_key == key);
                }
            }
            assert forall|g: int|
                0 <= g < k as int implies core_from_seed(
                #[trigger] flat_cores(sockets@)[g],
                g,
                seeds@[g],
                vendor,
            ) by {
                if g < k0 {
                    assert(flat_cores(sockets@)[g] == done[g]);
                } else {
                    assert(flat_cores(sockets@)[g] == socket.cores@[g - k0]);
                }
            }
        }
    }
    proof {
        assert(seeds@.take(n as int) == seeds@);
    }
    let total_perf = if perf == 0 && eff == 0 {
        n
    } else {
        perf
    };
    let info = CpuInfo {
        vendor,
        model_name,
        features,
        total_sockets: sockets.len(),
        total_physical_cores: n,
        total_logical_processors: lp_total,
        total_performance_cores: total_perf,
        total_efficiency_cores: eff,
        sockets,
    };
    proof {
        let flat = flat_cores(info.sockets@);
        assert forall|k1: int, k2: int, i1: int, i2: int|
            0 <= k1 < flat.len() && 0 <= k2 < flat.len() && k1 != k2 && 0 <= i1 < flat[k1].logical_processor_ids@.len()
                && 0 <= i2 < flat[k2].logical_processor_ids@.len() implies flat[k1].logical_processor_ids@[i1]
            != flat[k2].logical_processor_ids@[i2] by {
            assert(core_from_seed(flat[k1], k1, seeds@[k1], info.vendor));
            assert(core_from_seed(flat[k2], k2, seeds@[k2], info.vendor));
            assert(seeds@[k1].lp_ids@[i1] != seeds@[k2].lp_ids@[i2]);
        }
        assert(lp_disjoint(flat));
    }
    Ok(info)
}

/// Inserting one seed adds its processor count to the total.
pub(crate) proof fn lemma_seeds_total_insert(s: Seq<CoreSeed>, at: int, x: CoreSeed)
    requires
        0 <= at <= s.len(),
    ensures
        seeds_lp_total(s.insert(at, x)) == seeds_lp_total(s) + x.lp_ids@.len(),
    decreases s.len(),
{
    if at == s.len() {
        assert(s.insert(at, x).drop_last() =~= s);
        assert(s.insert(at, x).last() == x);
    } else {
        assert(s.insert(at, x).drop_last() =~= s.drop_last().insert(at, x));
        assert(s.insert(at, x).last() == s.last());
        lemma_seeds_total_insert(s.drop_last(), at, x);
    }
}

/// When the socket identifiers are strictly ascending, all lie below
/// `n`, and every value below `n` occurs, the sockets are exactly the
/// values `0` through `n - 1` in order.
pub proof fn lemma_dense_socket_ids(sockets: Seq<SocketInfo>, n: int)
    requires
        0 <= n <= usize::MAX,
        forall|s1: int, s2: int|
            0 <= s1 < s2 < sockets.len() ==> (#[trigger] sockets[s1]).id < (
            #[trigger] sockets[s2]).id,
        forall|s: int| 0 <= s < sockets.len() ==> (#[trigger] sockets[s]).id < n,
        forall|v: usize| 0 <= v < n ==> #[trigger] key_has_socket(sockets, v),
    ensures
        sockets.len() == n,
        forall|s: int| 0 <= s < sockets.len() ==> (#[trigger] sockets[s]).id == s,
{
    assert forall|s: int| 0 <= s < sockets.len() implies (#[trigger] sockets[s]).id == s by {
        lemma_dense_socket_ids_prefix(sockets, n, s);
    }
    if sockets.len() > n {
        assert(sockets[n].id == n);
    }
    if sockets.len() < n {
        let v = sockets.len() as usize;
        assert(v as int == sockets.len() as int);
        assert(key_has_socket(sockets, v));
        let s = choose|s: int| 0 <= s < sockets.len() && (#[trigger] sockets[s]).id == v;
        assert(sockets[s].id == s);
    }
}

proof fn lemma_dense_socket_ids_prefix(sockets: Seq<SocketInfo>, n: int, s: int)
    requires
        n >= 0,
        forall|s1: int, s2: int|
            0 <= s1 < s2 < sockets.len() ==> (#[trigger] sockets[s1]).id < (
            #[trigger] sockets[s2]).id,
        forall|t: int| 0 <= t < sockets.len() ==> (#[trigger] sockets[t]).id < n,
        forall|v: usize| 0 <= v < n ==> #[trigger] key_has_socket(sockets, v),
        0 <= s < sockets.len(),
    ensures
        sockets[s].id == s,
    decreases s,
{
    if s > 0 {
        lemma_dense_socket_ids_prefix(sockets, n, s - 1);
        assert(sockets[s - 1].id < sockets[s].id);
    }
    // the identifier is at least the position; the value equal to the
    // position occurs somewhere, and it can only occur here
    assert(sockets[s].id >= s);
    assert(s < n);
    assert(key_has_socket(sockets, s as usize));
    let t = choose|t: int| 0 <= t < sockets.len() && (#[trigger] sockets[t]).id == s as usize;
    if t < s {
        lemma_dense_socket_ids_prefix(sockets, n, t);
    } else if t > s {
        assert(sockets[s].id < sockets[t].id);
    }
}

/// When the first `kcut` cores of a sequence are performance cores and
/// the rest efficiency cores, the class counts are exactly the split.
pub proof fn lemma_count_of_split(cores: Seq<CoreInfo>, kcut: int)
    requires
        kcut >= 0,
        forall|g: int|
            0 <= g < cores.len() ==> (#[trigger] cores[g]).core_type == (if g < kcut {
                CoreType::Performance
            } else {
                CoreType::Efficiency
            }),
    ensures
        count_of_type(cores, CoreType::Performance) == vstd::math::min(
            kcut,
            cores.len() as int,
        ),
        count_of_type(cores, CoreType::Efficiency) == cores.len() - vstd::math::min(
            kcut,
            cores.len() as int,
        ),
    decreases cores.len(),
{
    if cores.len() > 0 {
        assert(forall|g: int|
            0 <= g < cores.drop_last().len() ==> (#[trigger] cores.drop_last()[g]) == cores[g]);
        lemma_count_of_split(cores.drop_last(), kcut);
    }
}

} // verus!
