//! Worker-placement plans: how many workers a pool has and which logical
//! CPU each one is meant to run on.
//!
//! A [`Topology`] describes the machine; a [`WorkerLayout`] turns it into an
//! explicit plan. Building a layout creates no thread and pins nothing; a
//! pool built from it applies the plan at start-up. Worker indices are
//! software identities and say nothing about hardware proximity: the core
//! and NUMA node of each placement say that.

use vstd::prelude::*;
use crate::topology::{CoreId, CpuId, LogicalCpu, NumaNodeId, PackageId, Topology};

verus! {

broadcast use crate::topology::group_id_equality;

/// The planned placement of one worker: its index in the layout, its logical
/// CPU, and that CPU's core and NUMA node. The package is read from the core,
/// so the two cannot disagree.
#[derive(Debug, Clone, Copy, PartialEq, Eq, Structural)]
pub struct WorkerPlacement {
    worker_index: usize,
    cpu: CpuId,
    physical_core: CoreId,
    numa_node: NumaNodeId,
}

impl View for WorkerPlacement {
    /// Index, CPU, core and node.
    type V = (usize, CpuId, CoreId, NumaNodeId);

    closed spec fn view(&self) -> (usize, CpuId, CoreId, NumaNodeId) {
        (self.worker_index, self.cpu, self.physical_core, self.numa_node)
    }
}

/// The placement of worker `index` on logical CPU `c`.
pub open spec fn placement_on(index: int, c: LogicalCpu) -> (usize, CpuId, CoreId, NumaNodeId) {
    (index as usize, c@.0, c@.1, c@.2)
}

impl WorkerPlacement {
    /// Places worker `index` on logical CPU `c`.
    fn on_cpu(index: usize, c: &LogicalCpu) -> (r: Self)
        ensures
            r@ == placement_on(index as int, *c),
    {
        WorkerPlacement {
            worker_index: index,
            cpu: c.id(),
            physical_core: c.core_id(),
            numa_node: c.numa_node(),
        }
    }

    /// Returns the worker's index within its layout.
    pub fn worker_index(&self) -> (r: usize)
        ensures
            r == self@.0,
    {
        self.worker_index
    }

    /// Returns the logical CPU selected for this worker.
    pub fn cpu(&self) -> (r: CpuId)
        ensures
            r == self@.1,
    {
        self.cpu
    }

    /// Returns the physical core containing the selected CPU.
    pub fn core_id(&self) -> (r: CoreId)
        ensures
            r == self@.2,
    {
        self.physical_core
    }

    /// Returns the package containing the selected CPU.
    pub fn package(&self) -> (r: PackageId)
        ensures
            r == self@.2.spec_package(),
    {
        self.physical_core.package()
    }

    /// Returns the NUMA node containing the selected CPU.
    pub fn numa_node(&self) -> (r: NumaNodeId)
        ensures
            r == self@.3,
    {
        self.numa_node
    }
}

/// A deterministic placement plan: placements in worker-index order, with
/// indices `0, 1, 2, ...`.
#[derive(Debug, Clone, PartialEq, Eq)]
pub struct WorkerLayout {
    workers: Vec<WorkerPlacement>,
}

/// The logical CPUs that represent their physical core: each CPU whose core
/// no earlier CPU has, in order.
pub open spec fn core_representatives(cpus: Seq<LogicalCpu>) -> Seq<LogicalCpu>
    decreases cpus.len(),
{
    if cpus.len() == 0 {
        seq![]
    } else {
        let earlier = cpus.drop_last();
        let reps = core_representatives(earlier);
        if exists|j: int| 0 <= j < earlier.len() && (#[trigger] earlier[j])@.1 == cpus.last()@.1 {
            reps
        } else {
            reps.push(cpus.last())
        }
    }
}

/// The cores of `cpus`, in order.
pub open spec fn cores_of(cpus: Seq<LogicalCpu>) -> Seq<CoreId> {
    cpus.map_values(|c: LogicalCpu| c@.1)
}

/// There is one representative per distinct core: as many as the
/// topology's physical cores, each on a different core.
pub proof fn lemma_one_representative_per_core(cpus: Seq<LogicalCpu>)
    ensures
        core_representatives(cpus).len() == cores_of(cpus).to_set().len(),
        cores_of(core_representatives(cpus)).to_set() == cores_of(cpus).to_set(),
        cores_of(core_representatives(cpus)).no_duplicates(),
    decreases cpus.len(),
{
    broadcast use vstd::seq_lib::seq_to_set_is_finite;
    if cpus.len() == 0 {
        assert(cores_of(cpus).to_set() =~= Set::empty());
        assert(cores_of(core_representatives(cpus)).to_set() =~= Set::empty());
    } else {
        let earlier = cpus.drop_last();
        let last = cpus.last();
        lemma_one_representative_per_core(earlier);
        let reps = core_representatives(earlier);
        assert(cores_of(cpus) =~= cores_of(earlier).push(last@.1));
        cores_of(earlier).lemma_push_to_set_commute(last@.1);
        let seen = exists|j: int| 0 <= j < earlier.len() && (#[trigger] earlier[j])@.1 == last@.1;
        if seen {
            let j = choose|j: int| 0 <= j < earlier.len() && (#[trigger] earlier[j])@.1 == last@.1;
            assert(cores_of(earlier)[j] == last@.1);
            assert(cores_of(earlier).to_set().contains(last@.1));
            assert(cores_of(cpus).to_set() =~= cores_of(earlier).to_set());
        } else {
            assert(!cores_of(earlier).to_set().contains(last@.1)) by {
                if cores_of(earlier).to_set().contains(last@.1) {
                    let k = choose|k: int| 0 <= k < cores_of(earlier).len() && cores_of(earlier)[k] == last@.1;
                    assert(earlier[k]@.1 == last@.1);
                }
            }
            assert(cores_of(reps.push(last)) =~= cores_of(reps).push(last@.1));
            cores_of(reps).lemma_push_to_set_commute(last@.1);
            vstd::set::axiom_set_insert_len(cores_of(earlier).to_set(), last@.1);
            assert(cores_of(reps.push(last)).no_duplicates()) by {
                assert forall|a: int, b: int| 0 <= a < b < cores_of(reps.push(last)).len()
                    implies cores_of(reps.push(last))[a] != cores_of(reps.push(last))[b] by {
                    if b == reps.len() {
                        assert(cores_of(reps).to_set().contains(cores_of(reps)[a]));
                    }
                }
            }
        }
    }
}

/// A layout with one worker per physical core has as many workers as the
/// topology has physical cores, and no two of them share a core.
pub proof fn lemma_physical_layout_size(topology: Topology)
    ensures
        core_representatives(topology.spec_logical_cpus()).len() == crate::topology::distinct_count(topology.spec_cores()),
        cores_of(core_representatives(topology.spec_logical_cpus())).no_duplicates(),
        core_representatives(topology.spec_logical_cpus()).len() == 0 <==> topology.spec_logical_cpus().len() == 0,
{
    lemma_one_representative_per_core(topology.spec_logical_cpus());
    assert(cores_of(topology.spec_logical_cpus()) =~= topology.spec_cores());
    topology.spec_cores().lemma_cardinality_of_empty_set_is_0();
}

/// Whether no CPU before position `k` of `cpus` has the core of `cpus[k]`.
pub open spec fn first_of_its_core(cpus: Seq<LogicalCpu>, k: int) -> bool {
    forall|l: int| 0 <= l < k ==> (#[trigger] cpus[l])@.1 != cpus[k]@.1
}

/// Each representative is the first CPU of `cpus` with its core.
pub proof fn lemma_representatives_are_first(cpus: Seq<LogicalCpu>)
    ensures
        forall|j: int| 0 <= j < core_representatives(cpus).len() ==> exists|k: int|
            0 <= k < cpus.len() && cpus[k] == #[trigger] core_representatives(cpus)[j] && first_of_its_core(cpus, k),
    decreases cpus.len(),
{
    if cpus.len() > 0 {
        let earlier = cpus.drop_last();
        let last = cpus.last();
        let n = cpus.len() - 1;
        lemma_representatives_are_first(earlier);
        let reps = core_representatives(cpus);
        let old_reps = core_representatives(earlier);
        let seen = exists|j: int| 0 <= j < earlier.len() && (#[trigger] earlier[j])@.1 == last@.1;
        assert(reps == if seen { old_reps } else { old_reps.push(last) });
        assert forall|j: int| 0 <= j < reps.len() implies exists|k: int|
            0 <= k < cpus.len() && cpus[k] == #[trigger] reps[j] && first_of_its_core(cpus, k) by {
            if j < old_reps.len() {
                assert(reps[j] == old_reps[j]);
                let k = choose|k: int| 0 <= k < earlier.len() && earlier[k] == #[trigger] old_reps[j] && first_of_its_core(earlier, k);
                assert(cpus[k] == earlier[k]);
                assert forall|l: int| 0 <= l < k implies (#[trigger] cpus[l])@.1 != cpus[k]@.1 by {
                    assert(cpus[l] == earlier[l]);
                }
            } else {
                assert(reps[j] == last);
                assert(cpus[n] == last);
                assert forall|l: int| 0 <= l < n implies (#[trigger] cpus[l])@.1 != cpus[n]@.1 by {
                    assert(cpus[l] == earlier[l]);
                }
            }
        }
    }
}

/// Every core of `cpus` has a representative.
pub proof fn lemma_every_core_represented(cpus: Seq<LogicalCpu>)
    ensures
        forall|k: int| 0 <= k < cpus.len() ==> exists|j: int|
            0 <= j < core_representatives(cpus).len() && (#[trigger] core_representatives(cpus)[j])@.1 == (#[trigger] cpus[k])@.1,
    decreases cpus.len(),
{
    if cpus.len() > 0 {
        let earlier = cpus.drop_last();
        let last = cpus.last();
        let n = cpus.len() - 1;
        lemma_every_core_represented(earlier);
        let reps = core_representatives(cpus);
        let old_reps = core_representatives(earlier);
        let seen = exists|j: int| 0 <= j < earlier.len() && (#[trigger] earlier[j])@.1 == last@.1;
        assert(reps == if seen { old_reps } else { old_reps.push(last) });
        assert forall|k: int| 0 <= k < cpus.len() implies exists|j: int|
            0 <= j < reps.len() && (#[trigger] reps[j])@.1 == (#[trigger] cpus[k])@.1 by {
            if k < n {
                assert(cpus[k] == earlier[k]);
                let j = choose|j: int| 0 <= j < old_reps.len() && (#[trigger] old_reps[j])@.1 == (#[trigger] earlier[k])@.1;
                assert(reps[j] == old_reps[j]);
            } else if seen {
                let m = choose|m: int| 0 <= m < earlier.len() && (#[trigger] earlier[m])@.1 == last@.1;
                let j = choose|j: int| 0 <= j < old_reps.len() && (#[trigger] old_reps[j])@.1 == (#[trigger] earlier[m])@.1;
                assert(reps[j] == old_reps[j]);
            } else {
                assert(reps[reps.len() - 1] == last);
            }
        }
    }
}

/// The representatives come in the order of their positions in `cpus`.
pub proof fn lemma_representatives_ordered(cpus: Seq<LogicalCpu>)
    ensures
        forall|j1: int, j2: int| 0 <= j1 < j2 < core_representatives(cpus).len() ==> exists|k1: int, k2: int|
            0 <= k1 < k2 < cpus.len() && cpus[k1] == #[trigger] core_representatives(cpus)[j1]
                && cpus[k2] == #[trigger] core_representatives(cpus)[j2],
    decreases cpus.len(),
{
    if cpus.len() > 0 {
        let earlier = cpus.drop_last();
        let last = cpus.last();
        let n = cpus.len() - 1;
        lemma_representatives_ordered(earlier);
        lemma_representatives_are_first(earlier);
        let reps = core_representatives(cpus);
        let old_reps = core_representatives(earlier);
        let seen = exists|j: int| 0 <= j < earlier.len() && (#[trigger] earlier[j])@.1 == last@.1;
        assert(reps == if seen { old_reps } else { old_reps.push(last) });
        assert forall|j1: int, j2: int| 0 <= j1 < j2 < reps.len() implies exists|k1: int, k2: int|
            0 <= k1 < k2 < cpus.len() && cpus[k1] == #[trigger] reps[j1] && cpus[k2] == #[trigger] reps[j2] by {
            if j2 < old_reps.len() {
                let (k1, k2) = choose|k1: int, k2: int|
                    0 <= k1 < k2 < earlier.len() && earlier[k1] == #[trigger] old_reps[j1] && earlier[k2] == #[trigger] old_reps[j2];
                assert(cpus[k1] == earlier[k1] && cpus[k2] == earlier[k2]);
                assert(reps[j1] == old_reps[j1] && reps[j2] == old_reps[j2]);
            } else {
                let k1 = choose|k: int| 0 <= k < earlier.len() && earlier[k] == #[trigger] old_reps[j1] && first_of_its_core(earlier, k);
                assert(cpus[k1] == earlier[k1]);
                assert(reps[j1] == old_reps[j1]);
                assert(reps[j2] == last && cpus[n] == last);
            }
        }
    }
}

/// On a topology whose logical CPUs have distinct identifiers, each worker
/// of a one-per-logical-CPU layout reports the core, package and NUMA node
/// of the logical CPU that has its CPU identifier.
pub proof fn lemma_logical_placement_matches_topology(topology: Topology, ws: Seq<WorkerPlacement>, i: int, k: int)
    requires
        places_in_order(ws, topology.spec_logical_cpus()),
        forall|a: int, b: int| 0 <= a < b < topology.spec_logical_cpus().len()
            ==> (#[trigger] topology.spec_logical_cpus()[a])@.0 != (#[trigger] topology.spec_logical_cpus()[b])@.0,
        0 <= i < ws.len(),
        0 <= k < topology.spec_logical_cpus().len(),
        topology.spec_logical_cpus()[k]@.0 == ws[i]@.1,
    ensures
        ws[i]@.2 == topology.spec_logical_cpus()[k]@.1,
        ws[i]@.2.spec_package() == topology.spec_logical_cpus()[k]@.1.spec_package(),
        ws[i]@.3 == topology.spec_logical_cpus()[k]@.2,
{
    let cpus = topology.spec_logical_cpus();
    assert(ws[i]@ == placement_on(i, cpus[i]));
    if i < k {
        assert(cpus[i]@.0 != cpus[k]@.0);
    } else if k < i {
        assert(cpus[k]@.0 != cpus[i]@.0);
    }
}

/// On a topology whose logical CPUs have distinct identifiers, each worker
/// of a one-per-physical-core layout reports the core, package and NUMA
/// node of the logical CPU that has its CPU identifier.
pub proof fn lemma_physical_placement_matches_topology(topology: Topology, ws: Seq<WorkerPlacement>, i: int, k: int)
    requires
        places_in_order(ws, core_representatives(topology.spec_logical_cpus())),
        forall|a: int, b: int| 0 <= a < b < topology.spec_logical_cpus().len()
            ==> (#[trigger] topology.spec_logical_cpus()[a])@.0 != (#[trigger] topology.spec_logical_cpus()[b])@.0,
        0 <= i < ws.len(),
        0 <= k < topology.spec_logical_cpus().len(),
        topology.spec_logical_cpus()[k]@.0 == ws[i]@.1,
    ensures
        ws[i]@.2 == topology.spec_logical_cpus()[k]@.1,
        ws[i]@.2.spec_package() == topology.spec_logical_cpus()[k]@.1.spec_package(),
        ws[i]@.3 == topology.spec_logical_cpus()[k]@.2,
{
    let cpus = topology.spec_logical_cpus();
    let reps = core_representatives(cpus);
    lemma_representatives_are_first(cpus);
    assert(ws[i]@ == placement_on(i, reps[i]));
    let m = choose|m: int| 0 <= m < cpus.len() && cpus[m] == #[trigger] reps[i] && first_of_its_core(cpus, m);
    if m < k {
        assert(cpus[m]@.0 != cpus[k]@.0);
    } else if k < m {
        assert(cpus[k]@.0 != cpus[m]@.0);
    }
}

/// A placement on a logical CPU reports that CPU, its core, the core's
/// package and its NUMA node.
pub proof fn lemma_placement_matches_cpu(w: WorkerPlacement, index: int, c: LogicalCpu)
    requires
        w@ == placement_on(index, c),
    ensures
        w@.1 == c@.0,
        w@.2 == c@.1,
        w@.2.spec_package() == c@.1.spec_package(),
        w@.3 == c@.2,
{
}

/// Whether `w` places worker `i` on `cpus[i]`, for every `i`.
pub open spec fn places_in_order(w: Seq<WorkerPlacement>, cpus: Seq<LogicalCpu>) -> bool {
    &&& w.len() == cpus.len()
    &&& forall|i: int| 0 <= i < w.len() ==> (#[trigger] w[i])@ == placement_on(i, cpus[i])
}

impl WorkerLayout {
    /// The placements, in worker-index order.
    pub closed spec fn spec_workers(&self) -> Seq<WorkerPlacement> {
        self.workers@
    }

    /// Every placement's index is its position.
    pub open spec fn wf(&self) -> bool {
        forall|i: int| 0 <= i < self.spec_workers().len() ==> (#[trigger] self.spec_workers()[i])@.0 == i
    }

    /// One worker per online logical CPU, in the topology's CPU order, with
    /// indices `0, 1, 2, ...`. SMT siblings are distinct workers, since each
    /// is its own logical CPU.
    pub fn one_per_logical_cpu(topology: &Topology) -> (r: Self)
        ensures
            r.wf(),
            places_in_order(r.spec_workers(), topology.spec_logical_cpus()),
    {
        let cpus = topology.logical_cpus();
        let mut workers: Vec<WorkerPlacement> = Vec::new();
        let mut i: usize = 0;
        while i < cpus.len()
            invariant
                i <= cpus@.len(),
                cpus@ == topology.spec_logical_cpus(),
                places_in_order(workers@, cpus@.take(i as int)),
            decreases cpus@.len() - i,
        {
            workers.push(WorkerPlacement::on_cpu(i, &cpus[i]));
            i += 1;
        }
        proof {
            assert(cpus@.take(cpus@.len() as int) == cpus@);
        }
        WorkerLayout { workers }
    }

    /// One worker per physical core. Among SMT siblings, the first logical
    /// CPU in topology order represents the core (the smallest CPU identifier
    /// when the topology is ordered by identifier). Cores with the same number
    /// in different packages are distinct. Indices are `0, 1, 2, ...`.
    pub fn one_per_physical_core(topology: &Topology) -> (r: Self)
        ensures
            r.wf(),
            places_in_order(r.spec_workers(), core_representatives(topology.spec_logical_cpus())),
    {
        let cpus = topology.logical_cpus();
        let mut workers: Vec<WorkerPlacement> = Vec::new();
        let mut cores: Vec<CoreId> = Vec::new();
        let mut i: usize = 0;
        while i < cpus.len()
            invariant
                i <= cpus@.len(),
                cpus@ == topology.spec_logical_cpus(),
                places_in_order(workers@, core_representatives(cpus@.take(i as int))),
                forall|c: CoreId| cores@.contains(c) <==> exists|j: int| 0 <= j < i && (#[trigger] cpus@[j])@.1 == c,
            decreases cpus@.len() - i,
        {
            let c = &cpus[i];
            let core = c.core_id();
            let seen = crate::topology::contains_core(&cores, core);
            proof {
                let t = cpus@.take(i + 1);
                assert(t.drop_last() == cpus@.take(i as int));
                assert(t.last() == cpus@[i as int]);
                if seen {
                    let j = choose|j: int| 0 <= j < i && (#[trigger] cpus@[j])@.1 == core;
                    assert(t.drop_last()[j] == cpus@[j]);
                } else {
                    assert forall|j: int| 0 <= j < t.drop_last().len() implies (#[trigger] t.drop_last()[j])@.1 != t.last()@.1 by {
                        assert(t.drop_last()[j] == cpus@[j]);
                        assert(!cores@.contains(core));
                    }
                }
            }
            let ghost old_cores = cores@;
            if !seen {
                let index = workers.len();
                workers.push(WorkerPlacement::on_cpu(index, c));
                cores.push(core);
            }
            proof {
                assert forall|x: CoreId| cores@.contains(x) implies exists|j: int| 0 <= j < i + 1 && (#[trigger] cpus@[j])@.1 == x by {
                    if x == core {
                        assert(cpus@[i as int]@.1 == x);
                    } else {
                        if !seen {
                            let k = choose|k: int| 0 <= k < cores@.len() && cores@[k] == x;
                            assert(k < old_cores.len());
                            assert(old_cores[k] == x);
                        }
                        assert(old_cores.contains(x));
                    }
                }
                assert forall|x: CoreId| (exists|j: int| 0 <= j < i + 1 && (#[trigger] cpus@[j])@.1 == x) implies cores@.contains(x) by {
                    let j = choose|j: int| 0 <= j < i + 1 && (#[trigger] cpus@[j])@.1 == x;
                    if j < i {
                        assert(old_cores.contains(x));
                        if !seen {
                            let k = choose|k: int| 0 <= k < old_cores.len() && old_cores[k] == x;
                            assert(cores@[k] == x);
                        }
                    } else {
                        assert(x == core);
                        if !seen {
                            assert(cores@[cores@.len() - 1] == core);
                        }
                    }
                }
            }
            i += 1;
        }
        let n = workers.len();
        proof {
            assert(cpus@.take(cpus@.len() as int) == cpus@);
            let reps = core_representatives(cpus@);
            assert forall|k: int| 0 <= k < workers@.len() implies (#[trigger] workers@[k])@.0 == k by {
                assert(workers@[k]@ == placement_on(k, reps[k]));
                assert(k < n);
            }
        }
        WorkerLayout { workers }
    }

    /// Returns the placements in worker-index order.
    pub fn workers(&self) -> (r: &[WorkerPlacement])
        ensures
            r@ == self.spec_workers(),
    {
        self.workers.as_slice()
    }

    /// Returns the number of workers.
    pub fn worker_count(&self) -> (r: usize)
        ensures
            r == self.spec_workers().len(),
    {
        self.workers.len()
    }

    /// Returns `true` when the layout has no placement.
    pub fn is_empty(&self) -> (r: bool)
        ensures
            r == (self.spec_workers().len() == 0),
    {
        self.workers.len() == 0
    }
}

} // verus!
