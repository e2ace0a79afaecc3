//! The canonical, immutable description of the CPU: sockets holding
//! cores holding logical processors, with caches, a feature set, and
//! derived aggregate counts whose agreement with the structure is part
//! of the model's well-formedness.

use vstd::prelude::*;

use crate::core_info::{CoreInfo, CoreType};
use crate::features::CpuFeatures;
use crate::mask::AffinityMask;
use crate::socket_info::SocketInfo;
use crate::vendor::Vendor;

verus! {

/// All cores of all sockets, flattened in socket order.
pub open spec fn flat_cores(sockets: Seq<SocketInfo>) -> Seq<CoreInfo>
    decreases sockets.len(),
{
    if sockets.len() == 0 {
        Seq::empty()
    } else {
        flat_cores(sockets.drop_last()) + sockets.last().cores@
    }
}

/// The number of cores over all sockets.
pub open spec fn sum_socket_cores(sockets: Seq<SocketInfo>) -> nat
    decreases sockets.len(),
{
    if sockets.len() == 0 {
        0
    } else {
        sum_socket_cores(sockets.drop_last()) + sockets.last().cores@.len()
    }
}

/// The number of logical processors over a sequence of cores.
pub open spec fn sum_lp_counts(cores: Seq<CoreInfo>) -> nat
    decreases cores.len(),
{
    if cores.len() == 0 {
        0
    } else {
        sum_lp_counts(cores.drop_last()) + cores.last().logical_processor_ids@.len()
    }
}

/// The logical-processor IDs of a sequence of cores, flattened in order.
pub open spec fn flat_lps(cores: Seq<CoreInfo>) -> Seq<usize>
    decreases cores.len(),
{
    if cores.len() == 0 {
        Seq::empty()
    } else {
        flat_lps(cores.drop_last()) + cores.last().logical_processor_ids@
    }
}

/// How many cores of the sequence have the given class.
pub open spec fn count_of_type(cores: Seq<CoreInfo>, t: CoreType) -> nat
    decreases cores.len(),
{
    if cores.len() == 0 {
        0
    } else {
        count_of_type(cores.drop_last(), t) + if cores.last().core_type == t {
            1nat
        } else {
            0nat
        }
    }
}

/// No logical-processor ID appears in two distinct cores.
pub open spec fn lp_disjoint(cores: Seq<CoreInfo>) -> bool {
    forall|k1: int, k2: int, i1: int, i2: int|
        0 <= k1 < cores.len() && 0 <= k2 < cores.len() && k1 != k2 && 0 <= i1
            < cores[k1].logical_processor_ids@.len() && 0 <= i2
            < cores[k2].logical_processor_ids@.len() ==> cores[k1].logical_processor_ids@[i1]
            != cores[k2].logical_processor_ids@[i2]
}

/// Whether ID `id` belongs to some core of class `t` in the sequence.
pub open spec fn lp_of_type(cores: Seq<CoreInfo>, id: usize, t: CoreType) -> bool {
    exists|k: int|
        0 <= k < cores.len() && (#[trigger] cores[k]).core_type == t
            && cores[k].logical_processor_ids@.contains(id)
}

/// The canonical description of the host CPU.
#[derive(Debug, Clone)]
pub struct CpuInfo {
    /// The CPU's manufacturer.
    pub vendor: Vendor,
    /// The model name as the platform reported it.
    pub model_name: String,
    /// The detected feature set.
    pub features: CpuFeatures,
    /// The sockets of the machine, each with its cores.
    pub sockets: Vec<SocketInfo>,
    /// Number of sockets; equals the traversal of `sockets`.
    pub total_sockets: usize,
    /// Number of physical cores; equals the traversal of `sockets`.
    pub total_physical_cores: usize,
    /// Number of logical processors; equals the traversal of `sockets`.
    pub total_logical_processors: usize,
    /// Number of performance cores; all physical cores count here when
    /// no core at all was classed.
    pub total_performance_cores: usize,
    /// Number of efficiency cores.
    pub total_efficiency_cores: usize,
}

impl CpuInfo {
    /// The structural invariants of a successfully detected topology:
    /// at least one socket with one core with one logical processor;
    /// every aggregate count equals the traversal of `sockets`; core
    /// `id`s are dense and zero-based in traversal order; no logical
    /// processor belongs to two cores; sockets and cores are well formed
    /// (ascending non-empty LP lists, socket ids consistent, kept caches
    /// positive); and the class counters match the cores, all physical
    /// cores counting as performance when nothing was classed.
    pub open spec fn wf(self) -> bool {
        let cores = flat_cores(self.sockets@);
        &&& self.sockets@.len() > 0
        &&& forall|s: int| 0 <= s < self.sockets@.len() ==> (#[trigger] self.sockets@[s]).wf()
        &&& self.total_sockets == self.sockets@.len()
        &&& self.total_physical_cores == cores.len()
        &&& self.total_logical_processors == sum_lp_counts(cores)
        &&& self.total_logical_processors > 0
        &&& forall|k: int| 0 <= k < cores.len() ==> (#[trigger] cores[k]).id == k
        &&& lp_disjoint(cores)
        &&& self.total_efficiency_cores == count_of_type(cores, CoreType::Efficiency)
        &&& self.total_performance_cores == (
        if count_of_type(cores, CoreType::Performance) == 0 && count_of_type(
            cores,
            CoreType::Efficiency,
        ) == 0 {
            cores.len()
        } else {
            count_of_type(cores, CoreType::Performance)
        })
    }

    /// Total number of physical cores in the machine.
    pub fn num_physical_cores(&self) -> (r: usize)
        ensures
            r == self.total_physical_cores,
    {
        self.total_physical_cores
    }

    /// Total number of logical processors (hardware threads).
    pub fn num_logical_cores(&self) -> (r: usize)
        ensures
            r == self.total_logical_processors,
    {
        self.total_logical_processors
    }

    /// Total number of performance cores.
    pub fn num_performance_cores(&self) -> (r: usize)
        ensures
            r == self.total_performance_cores,
    {
        self.total_performance_cores
    }

    /// Total number of efficiency cores.
    pub fn num_efficiency_cores(&self) -> (r: usize)
        ensures
            r == self.total_efficiency_cores,
    {
        self.total_efficiency_cores
    }

    /// Whether the CPU is hybrid: it has both performance and efficiency
    /// cores.
    pub fn is_hybrid(&self) -> (r: bool)
        ensures
            r == (self.total_performance_cores > 0 && self.total_efficiency_cores > 0),
    {
        self.total_performance_cores > 0 && self.total_efficiency_cores > 0
    }

    /// All OS-native logical-processor IDs, in socket and core order.
    pub fn logical_processor_ids(&self) -> (r: Vec<usize>)
        ensures
            r@ == flat_lps(flat_cores(self.sockets@)),
    {
        let mut r: Vec<usize> = Vec::new();
        let ns = self.sockets.len();
        for s in 0..ns
            invariant
                ns == self.sockets@.len(),
                r@ == flat_lps(flat_cores(self.sockets@.take(s as int))),
        {
            let ghost done = flat_cores(self.sockets@.take(s as int));
            let socket = &self.sockets[s];
            let nc = socket.cores.len();
            for c in 0..nc
                invariant
                    ns == self.sockets@.len(),
                    s < ns,
                    nc == socket.cores@.len(),
                    socket == self.sockets@[s as int],
                    done == flat_cores(self.sockets@.take(s as int)),
                    r@ == flat_lps(done + socket.cores@.take(c as int)),
            {
                let ghost done_cores = done + socket.cores@.take(c as int);
                let core = &socket.cores[c];
                let nl = core.logical_processor_ids.len();
                for i in 0..nl
                    invariant
                        ns == self.sockets@.len(),
                        s < ns,
                        nc == socket.cores@.len(),
                        c < nc,
                        socket == self.sockets@[s as int],
                        nl == core.logical_processor_ids@.len(),
                        core == socket.cores@[c as int],
                        done_cores == done + socket.cores@.take(c as int),
                        done == flat_cores(self.sockets@.take(s as int)),
                        r@ == flat_lps(done_cores) + core.logical_processor_ids@.take(i as int),
                {
                    r.push(core.logical_processor_ids[i]);
                    proof {
                        assert(core.logical_processor_ids@.take(i as int + 1)
                            == core.logical_processor_ids@.take(i as int).push(
                            core.logical_processor_ids@[i as int],
                        ));
                    }
                }
                proof {
                    lemma_flat_lps_push(done_cores, *core);
                    assert(socket.cores@.take(c as int + 1) == socket.cores@.take(c as int).push(
                        socket.cores@[c as int],
                    ));
                    assert(done + socket.cores@.take(c as int + 1) == done_cores.push(*core));
                    assert(core.logical_processor_ids@.take(nl as int)
                        == core.logical_processor_ids@);
                }
            }
            proof {
                assert(socket.cores@.take(nc as int) == socket.cores@);
                assert(self.sockets@.take(s as int + 1) == self.sockets@.take(s as int).push(
                    self.sockets@[s as int],
                ));
                lemma_flat_cores_push(self.sockets@.take(s as int), self.sockets@[s as int]);
            }
        }
        proof {
            assert(self.sockets@.take(ns as int) == self.sockets@);
        }
        r
    }

    /// The mask of every logical processor in the machine.
    pub fn all_cores_mask(&self) -> (r: AffinityMask)
        ensures
            forall|id: usize| r.has(id) == flat_lps(flat_cores(self.sockets@)).contains(id),
    {
        let ids = self.logical_processor_ids();
        AffinityMask::from_cores(ids.as_slice())
    }

    /// The mask of the logical processors of every performance core.
    pub fn performance_core_mask(&self) -> (r: AffinityMask)
        ensures
            forall|id: usize|
                r.has(id) == lp_of_type(flat_cores(self.sockets@), id, CoreType::Performance),
    {
        self.cores_by_type_mask(CoreType::Performance)
    }

    /// The mask of the logical processors of every efficiency core.
    pub fn efficiency_core_mask(&self) -> (r: AffinityMask)
        ensures
            forall|id: usize|
                r.has(id) == lp_of_type(flat_cores(self.sockets@), id, CoreType::Efficiency),
    {
        self.cores_by_type_mask(CoreType::Efficiency)
    }

    /// The mask of the logical processors of every core of the given
    /// class.
    pub fn cores_by_type_mask(&self, core_type: CoreType) -> (r: AffinityMask)
        ensures
            forall|id: usize| r.has(id) == lp_of_type(flat_cores(self.sockets@), id, core_type),
    {
        let mut mask = AffinityMask::empty();
        let ns = self.sockets.len();
        for s in 0..ns
            invariant
                ns == self.sockets@.len(),
                forall|id: usize|
                    mask.has(id) == lp_of_type(
                        flat_cores(self.sockets@.take(s as int)),
                        id,
                        core_type,
                    ),
        {
            let ghost done = flat_cores(self.sockets@.take(s as int));
            let socket = &self.sockets[s];
            let nc = socket.cores.len();
            for c in 0..nc
                invariant
                    ns == self.sockets@.len(),
                    s < ns,
                    nc == socket.cores@.len(),
                    socket == self.sockets@[s as int],
                    done == flat_cores(self.sockets@.take(s as int)),
                    forall|id: usize|
                        mask.has(id) == lp_of_type(
                            done + socket.cores@.take(c as int),
                            id,
                            core_type,
                        ),
            {
                let ghost done_cores = done + socket.cores@.take(c as int);
                let core = &socket.cores[c];
                if core.core_type == core_type {
                    let nl = core.logical_processor_ids.len();
                    for i in 0..nl
                        invariant
                            ns == self.sockets@.len(),
                            s < ns,
                            nc == socket.cores@.len(),
                            c < nc,
                            socket == self.sockets@[s as int],
                            nl == core.logical_processor_ids@.len(),
                            core == socket.cores@[c as int],
                            core.core_type == core_type,
                            done_cores == done + socket.cores@.take(c as int),
                            forall|id: usize|
                                mask.has(id) == (lp_of_type(done_cores, id, core_type)
                                    || core.logical_processor_ids@.take(i as int).contains(id)),
                    {
                        let ghost prefix = core.logical_processor_ids@.take(i as int);
                        mask.add(core.logical_processor_ids[i]);
                        proof {
                            assert(core.logical_processor_ids@.take(i as int + 1) == prefix.push(
                                core.logical_processor_ids@[i as int],
                            ));
                            crate::mask::lemma_push_contains(
                                prefix,
                                core.logical_processor_ids@[i as int],
                            );
                        }
                    }
                    proof {
                        assert(core.logical_processor_ids@.take(nl as int)
                            == core.logical_processor_ids@);
                        lemma_lp_of_type_push(done_cores, *core, core_type);
                        assert(socket.cores@.take(c as int + 1) =~= socket.cores@.take(
                            c as int,
                        ).push(socket.cores@[c as int]));
                        assert(done + socket.cores@.take(c as int + 1) =~= done_cores.push(*core));
                        assert forall|id: usize|
                            mask.has(id) == lp_of_type(
                                done + socket.cores@.take(c as int + 1),
                                id,
                                core_type,
                            ) by {
                            assert(mask.has(id) == (lp_of_type(done_cores, id, core_type)
                                || core.logical_processor_ids@.take(nl as int).contains(id)));
                            assert(mask.has(id) == (lp_of_type(done_cores, id, core_type)
                                || core.logical_processor_ids@.contains(id)));
                            assert(lp_of_type(done_cores.push(*core), id, core_type) == (
                            lp_of_type(done_cores, id, core_type) || (core.core_type == core_type
                                && core.logical_processor_ids@.contains(id))));
                            assert(mask.has(id) == lp_of_type(done_cores.push(*core), id, core_type));
                        }
                    }
                } else {
                    proof {
                        lemma_lp_of_type_push(done_cores, *core, core_type);
                        assert(socket.cores@.take(c as int + 1) =~= socket.cores@.take(
                            c as int,
                        ).push(socket.cores@[c as int]));
                        assert(done + socket.cores@.take(c as int + 1) =~= done_cores.push(*core));
                        assert forall|id: usize|
                            mask.has(id) == lp_of_type(
                                done + socket.cores@.take(c as int + 1),
                                id,
                                core_type,
                            ) by {
                            assert(mask.has(id) == lp_of_type(done_cores.push(*core), id, core_type));
                        }
                    }
                }
            }
            proof {
                assert(socket.cores@.take(nc as int) == socket.cores@);
                assert(self.sockets@.take(s as int + 1) == self.sockets@.take(s as int).push(
                    self.sockets@[s as int],
                ));
                lemma_flat_cores_push(self.sockets@.take(s as int), self.sockets@[s as int]);
            }
        }
        proof {
            assert(self.sockets@.take(ns as int) == self.sockets@);
        }
        mask
    }
}

/// Appending one socket appends its cores to the flattening.
pub proof fn lemma_flat_cores_push(sockets: Seq<SocketInfo>, x: SocketInfo)
    ensures
        flat_cores(sockets.push(x)) == flat_cores(sockets) + x.cores@,
{
    assert(sockets.push(x).drop_last() == sockets);
    assert(sockets.push(x).last() == x);
}

/// Appending one core appends its logical processors to the flattening.
pub proof fn lemma_flat_lps_push(cores: Seq<CoreInfo>, x: CoreInfo)
    ensures
        flat_lps(cores.push(x)) == flat_lps(cores) + x.logical_processor_ids@,
{
    assert(cores.push(x).drop_last() == cores);
    assert(cores.push(x).last() == x);
}

/// Appending one core extends class membership by that core's IDs when
/// its class matches.
pub proof fn lemma_lp_of_type_push(cores: Seq<CoreInfo>, x: CoreInfo, t: CoreType)
    ensures
        forall|id: usize|
            lp_of_type(cores.push(x), id, t) == (lp_of_type(cores, id, t) || (x.core_type == t
                && x.logical_processor_ids@.contains(id))),
{
    assert forall|id: usize|
        lp_of_type(cores.push(x), id, t) == (lp_of_type(cores, id, t) || (x.core_type == t
            && x.logical_processor_ids@.contains(id))) by {
        if lp_of_type(cores, id, t) {
            let k = choose|k: int|
                0 <= k < cores.len() && (#[trigger] cores[k]).core_type == t
                    && cores[k].logical_processor_ids@.contains(id);
            assert(cores.push(x)[k].core_type == t
                && cores.push(x)[k].logical_processor_ids@.contains(id));
        }
        if x.core_type == t && x.logical_processor_ids@.contains(id) {
            assert(cores.push(x)[cores.len() as int].core_type == t
                && cores.push(x)[cores.len() as int].logical_processor_ids@.contains(id));
        }
        if lp_of_type(cores.push(x), id, t) {
            let k = choose|k: int|
                0 <= k < cores.push(x).len() && (#[trigger] cores.push(x)[k]).core_type == t
                    && cores.push(x)[k].logical_processor_ids@.contains(id);
            if k < cores.len() {
                assert(cores[k].core_type == t && cores[k].logical_processor_ids@.contains(id));
            }
        }
    }
}

/// Law: the total physical core count of a well-formed topology equals
/// the sum of the socket core counts.
pub proof fn lemma_total_physical_cores(info: CpuInfo)
    requires
        info.wf(),
    ensures
        info.total_physical_cores == sum_socket_cores(info.sockets@),
{
    lemma_flat_cores_len(info.sockets@);
}

/// The flattening of the sockets has as many cores as the sockets hold
/// together.
pub proof fn lemma_flat_cores_len(sockets: Seq<SocketInfo>)
    ensures
        flat_cores(sockets).len() == sum_socket_cores(sockets),
    decreases sockets.len(),
{
    if sockets.len() > 0 {
        lemma_flat_cores_len(sockets.drop_last());
    }
}

/// Law: the total logical processor count of a well-formed topology
/// equals the number of LP entries over all cores of all sockets, which
/// is the length of the flattened LP list.
pub proof fn lemma_total_logical_processors(info: CpuInfo)
    requires
        info.wf(),
    ensures
        info.total_logical_processors == flat_lps(flat_cores(info.sockets@)).len(),
{
    lemma_flat_lps_len(flat_cores(info.sockets@));
}

/// The flattened LP list is as long as the per-core counts sum.
pub proof fn lemma_flat_lps_len(cores: Seq<CoreInfo>)
    ensures
        flat_lps(cores).len() == sum_lp_counts(cores),
    decreases cores.len(),
{
    if cores.len() > 0 {
        lemma_flat_lps_len(cores.drop_last());
    }
}

/// Law: a logical-processor ID belongs to exactly one core: two cores
/// of a well-formed topology sharing an ID are the same core.
pub proof fn lemma_lp_in_one_core(info: CpuInfo, k1: int, k2: int, i1: int, i2: int)
    requires
        info.wf(),
        0 <= k1 < flat_cores(info.sockets@).len(),
        0 <= k2 < flat_cores(info.sockets@).len(),
        0 <= i1 < flat_cores(info.sockets@)[k1].logical_processor_ids@.len(),
        0 <= i2 < flat_cores(info.sockets@)[k2].logical_processor_ids@.len(),
        flat_cores(info.sockets@)[k1].logical_processor_ids@[i1] == flat_cores(
            info.sockets@,
        )[k2].logical_processor_ids@[i2],
    ensures
        k1 == k2,
{
}

/// The classes partition the cores: performance, efficiency and unknown
/// counts sum to the core count.
pub proof fn lemma_class_counts_partition(cores: Seq<CoreInfo>)
    ensures
        count_of_type(cores, CoreType::Performance) + count_of_type(cores, CoreType::Efficiency)
            + count_of_type(cores, CoreType::Unknown) == cores.len(),
    decreases cores.len(),
{
    if cores.len() > 0 {
        lemma_class_counts_partition(cores.drop_last());
    }
}

/// Law: in a well-formed topology the performance and efficiency
/// counters sum to at most the physical core count, with equality
/// exactly when every core has a known class (or when nothing at all
/// was classed, in which case every core counts as performance).
pub proof fn lemma_class_counts_bound(info: CpuInfo)
    requires
        info.wf(),
    ensures
        info.total_performance_cores + info.total_efficiency_cores <= info.total_physical_cores,
        count_of_type(flat_cores(info.sockets@), CoreType::Unknown) == 0
            ==> info.total_performance_cores + info.total_efficiency_cores
            == info.total_physical_cores,
{
    lemma_class_counts_partition(flat_cores(info.sockets@));
}

} // verus!
