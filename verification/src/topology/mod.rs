//! Passive hardware-topology description: logical CPUs, physical cores,
//! packages and NUMA memory nodes.
//!
//! A logical CPU belongs to a physical core, the core belongs to a package,
//! and the CPU also belongs to one NUMA node. None of these relations is
//! inferred from numeric proximity: identifiers may be sparse, core numbers
//! repeat across packages, and packages need not coincide with NUMA nodes.
//! The description makes no policy decision (worker count, pinning, memory
//! placement or stealing order).

use vstd::prelude::*;

pub mod discovery;
pub mod id_list;
pub mod messages;
pub mod probe;
pub mod sysfs;

verus! {

/// Operating-system identifier of a logical CPU.
///
/// Two logical CPUs may be SMT siblings sharing one [`CoreId`], so this is not
/// a physical-core identifier.
#[derive(Debug, Clone, Copy, PartialEq, Eq, Structural, PartialOrd, Ord, Hash)]
pub struct CpuId(usize);

impl View for CpuId {
    type V = usize;

    closed spec fn view(&self) -> usize {
        self.0
    }
}

impl CpuId {
    /// Creates an identifier from its operating-system value.
    pub fn new(id: usize) -> (r: Self)
        ensures
            r@ == id,
    {
        CpuId(id)
    }

    /// Returns the operating-system value.
    pub fn get(self) -> (r: usize)
        ensures
            r == self@,
    {
        self.0
    }

    /// Two identifiers are equal exactly when their values are.
    pub broadcast proof fn lemma_eq(a: CpuId, b: CpuId)
        ensures
            #![trigger a@, b@]
            (a == b) == (a@ == b@),
    {
    }
}

/// Operating-system identifier of a CPU package (socket).
///
/// Signed, because Linux reports a negative value when it has no package
/// information.
#[derive(Debug, Clone, Copy, PartialEq, Eq, Structural, PartialOrd, Ord, Hash)]
pub struct PackageId(i32);

impl View for PackageId {
    type V = i32;

    closed spec fn view(&self) -> i32 {
        self.0
    }
}

impl PackageId {
    /// Creates an identifier from its operating-system value.
    pub fn new(id: i32) -> (r: Self)
        ensures
            r@ == id,
    {
        PackageId(id)
    }

    /// Returns the operating-system value.
    pub fn get(self) -> (r: i32)
        ensures
            r == self@,
    {
        self.0
    }

    /// Two identifiers are equal exactly when their values are.
    pub broadcast proof fn lemma_eq(a: PackageId, b: PackageId)
        ensures
            #![trigger a@, b@]
            (a == b) == (a@ == b@),
    {
    }
}

/// Identity of a physical core: its package and its number within the
/// package. Core numbers are not unique across packages, so both parts take
/// part in equality.
#[derive(Debug, Clone, Copy, PartialEq, Eq, Structural, PartialOrd, Ord, Hash)]
pub struct CoreId {
    package: PackageId,
    id: i32,
}

impl View for CoreId {
    /// The package's value and the core number.
    type V = (i32, i32);

    closed spec fn view(&self) -> (i32, i32) {
        (self.package@, self.id)
    }
}

impl CoreId {
    /// The identity of core `id` in the package whose value is `package`.
    pub closed spec fn spec_new(package: i32, id: i32) -> CoreId {
        CoreId { package: PackageId(package), id }
    }

    /// The identity built from a package value and a core number has
    /// exactly those values.
    pub broadcast proof fn lemma_spec_new(package: i32, id: i32)
        ensures
            #[trigger] CoreId::spec_new(package, id)@ == (package, id),
    {
    }

    /// Creates a physical-core identity.
    pub fn new(package: PackageId, id: i32) -> (r: Self)
        ensures
            r@ == (package@, id),
            r.spec_package() == package,
    {
        CoreId { package, id }
    }

    /// The package containing this core.
    pub closed spec fn spec_package(self) -> PackageId {
        self.package
    }

    /// Returns the package containing this core.
    pub fn package(self) -> (r: PackageId)
        ensures
            r == self.spec_package(),
            r@ == self@.0,
    {
        self.package
    }

    /// Returns the core number reported within the package.
    pub fn get(self) -> (r: i32)
        ensures
            r == self@.1,
    {
        self.id
    }

    /// Two core identities are equal exactly when package and number are.
    pub broadcast proof fn lemma_eq(a: CoreId, b: CoreId)
        ensures
            #![trigger a@, b@]
            (a == b) == (a@ == b@),
            a.spec_package()@ == a@.0,
    {
        PackageId::lemma_eq(a.package, b.package);
    }
}

/// Operating-system identifier of a NUMA memory node. Identifiers may be
/// sparse and bear no relation to package identifiers.
#[derive(Debug, Clone, Copy, PartialEq, Eq, Structural, PartialOrd, Ord, Hash)]
pub struct NumaNodeId(usize);

impl View for NumaNodeId {
    type V = usize;

    closed spec fn view(&self) -> usize {
        self.0
    }
}

impl NumaNodeId {
    /// Creates an identifier from its operating-system value.
    pub fn new(id: usize) -> (r: Self)
        ensures
            r@ == id,
    {
        NumaNodeId(id)
    }

    /// Returns the operating-system value.
    pub fn get(self) -> (r: usize)
        ensures
            r == self@,
    {
        self.0
    }

    /// The node `0`.
    pub open spec fn spec_zero() -> NumaNodeId {
        NumaNodeId::spec_from_value(0)
    }

    /// The identifier whose value is `v`.
    pub closed spec fn spec_from_value(v: usize) -> NumaNodeId {
        NumaNodeId(v)
    }

    /// The identifier built from `v` has value `v`.
    pub broadcast proof fn lemma_from_value(v: usize)
        ensures
            #[trigger] NumaNodeId::spec_from_value(v)@ == v,
    {
    }

    /// Two identifiers are equal exactly when their values are.
    pub broadcast proof fn lemma_eq(a: NumaNodeId, b: NumaNodeId)
        ensures
            #![trigger a@, b@]
            (a == b) == (a@ == b@),
    {
    }
}

pub broadcast group group_id_equality {
    CpuId::lemma_eq,
    PackageId::lemma_eq,
    CoreId::lemma_eq,
    NumaNodeId::lemma_eq,
    NumaNodeId::lemma_from_value,
    CoreId::lemma_spec_new,
}

/// Failure while reading, parsing or checking hardware-topology data.
///
/// Operating-system topology data is untrusted input: files may disappear
/// during CPU hotplug, hold malformed identifiers, or describe inconsistent
/// CPU-to-node relations. Paths are relative to the sysfs root that was read.
#[derive(Debug)]
pub enum TopologyError {
    /// Topology discovery is not implemented for this platform.
    UnsupportedPlatform,
    /// A Linux list of identifiers is malformed (bad integer, descending
    /// range, repeated identifier, or a range without exactly two bounds).
    InvalidIdList {
        /// The whole list, or the malformed element of it.
        input: String,
        /// Which list rule was broken.
        reason: &'static str,
    },
    /// A topology file could not be read.
    Io {
        /// The file, relative to the sysfs root.
        path: String,
        /// The operating system's error.
        error: std::io::Error,
    },
    /// A file expected to hold one signed integer did not.
    InvalidInteger {
        /// The file, relative to the sysfs root.
        path: String,
        /// The integer parser's error.
        value: std::num::ParseIntError,
    },
    /// One online CPU is listed by two NUMA nodes.
    CpuInMultipleNumaNodes {
        /// The CPU listed twice.
        cpu: CpuId,
        /// The node that listed it first.
        first: NumaNodeId,
        /// The later node that listed it again.
        second: NumaNodeId,
    },
    /// An online CPU is listed by no NUMA node.
    CpuWithoutNumaNode {
        /// The CPU without a node.
        cpu: CpuId,
    },
}

/// A logical CPU with its physical core and its NUMA node, kept as two
/// independent relations (a package is not assumed to be one NUMA node).
#[derive(Debug, Clone, Copy, PartialEq, Eq, Structural)]
pub struct LogicalCpu {
    id: CpuId,
    physical_core: CoreId,
    numa_node: NumaNodeId,
}

impl View for LogicalCpu {
    /// The CPU, its core and its NUMA node.
    type V = (CpuId, CoreId, NumaNodeId);

    closed spec fn view(&self) -> (CpuId, CoreId, NumaNodeId) {
        (self.id, self.physical_core, self.numa_node)
    }
}

impl LogicalCpu {
    /// Records one logical CPU with its core and NUMA node.
    pub fn from_parts(id: CpuId, physical_core: CoreId, numa_node: NumaNodeId) -> (r: Self)
        ensures
            r@ == (id, physical_core, numa_node),
    {
        LogicalCpu { id, physical_core, numa_node }
    }

    /// Returns the logical CPU identifier.
    pub fn id(&self) -> (r: CpuId)
        ensures
            r == self@.0,
    {
        self.id
    }

    /// Returns the physical core containing this logical CPU.
    pub fn core_id(&self) -> (r: CoreId)
        ensures
            r == self@.1,
    {
        self.physical_core
    }

    /// Returns the package containing this logical CPU.
    pub fn package(&self) -> (r: PackageId)
        ensures
            r == self@.1.spec_package(),
            r@ == self@.1@.0,
    {
        self.physical_core.package()
    }

    /// Returns the NUMA node containing this logical CPU.
    pub fn numa_node(&self) -> (r: NumaNodeId)
        ensures
            r == self@.2,
    {
        self.numa_node
    }

    /// Two records are equal exactly when their three relations are.
    pub broadcast proof fn lemma_eq(a: LogicalCpu, b: LogicalCpu)
        ensures
            #![trigger a@, b@]
            (a == b) == (a@ == b@),
    {
    }
}

/// A NUMA memory node and its online logical CPUs, in ascending order.
#[derive(Debug, Clone, PartialEq, Eq)]
pub struct NumaNode {
    id: NumaNodeId,
    cpus: Vec<CpuId>,
}

impl View for NumaNode {
    /// The node identifier and its CPUs.
    type V = (NumaNodeId, Seq<CpuId>);

    closed spec fn view(&self) -> (NumaNodeId, Seq<CpuId>) {
        (self.id, self.cpus@)
    }
}

impl NumaNode {
    /// Records a node with its CPU list.
    pub fn from_parts(id: NumaNodeId, cpus: Vec<CpuId>) -> (r: Self)
        ensures
            r@ == (id, cpus@),
    {
        NumaNode { id, cpus }
    }

    /// Returns the node identifier.
    pub fn id(&self) -> (r: NumaNodeId)
        ensures
            r == self@.0,
    {
        self.id
    }

    /// Returns the online logical CPUs belonging to this node.
    pub fn cpus(&self) -> (r: &[CpuId])
        ensures
            r@ == self@.1,
    {
        self.cpus.as_slice()
    }
}

/// Passive description of logical CPUs, physical cores, packages and NUMA
/// nodes. Logical CPUs are the primary records; core and package counts are
/// derived from their identities, and the NUMA nodes keep the inverse
/// node-to-CPU relation.
#[derive(Debug, Clone, PartialEq, Eq)]
pub struct Topology {
    logical_cpus: Vec<LogicalCpu>,
    numa_nodes: Vec<NumaNode>,
}

/// The distinct values of `s`.
pub open spec fn distinct_count<A>(s: Seq<A>) -> nat {
    s.to_set().len()
}

impl Topology {
    /// The logical CPUs, in the order they were recorded.
    pub closed spec fn spec_logical_cpus(&self) -> Seq<LogicalCpu> {
        self.logical_cpus@
    }

    /// The NUMA nodes, in the order they were recorded.
    pub closed spec fn spec_numa_nodes(&self) -> Seq<NumaNode> {
        self.numa_nodes@
    }

    /// The core of every logical CPU, in CPU order.
    pub open spec fn spec_cores(&self) -> Seq<CoreId> {
        self.spec_logical_cpus().map_values(|c: LogicalCpu| c@.1)
    }

    /// The package of every logical CPU, in CPU order.
    pub open spec fn spec_packages(&self) -> Seq<PackageId> {
        self.spec_logical_cpus().map_values(|c: LogicalCpu| c@.1.spec_package())
    }

    /// A topology has no more packages than physical cores, and no more
    /// physical cores than logical CPUs.
    pub proof fn lemma_counts_ordered(&self)
        ensures
            distinct_count(self.spec_packages()) <= distinct_count(self.spec_cores()),
            distinct_count(self.spec_cores()) <= self.spec_logical_cpus().len(),
    {
        broadcast use vstd::seq_lib::seq_to_set_is_finite;
        let cores = self.spec_cores();
        let packages = self.spec_packages();
        let f = |c: CoreId| c.spec_package();
        assert(packages.to_set() =~= cores.to_set().map(f)) by {
            assert forall|p: PackageId| packages.to_set().contains(p) implies cores.to_set().map(f).contains(p) by {
                let k = choose|k: int| 0 <= k < packages.len() && packages[k] == p;
                assert(cores.to_set().contains(cores[k]));
            }
            assert forall|p: PackageId| cores.to_set().map(f).contains(p) implies packages.to_set().contains(p) by {
                let c = choose|c: CoreId| cores.to_set().contains(c) && f(c) == p;
                let k = choose|k: int| 0 <= k < cores.len() && cores[k] == c;
                assert(packages[k] == p);
            }
        }
        vstd::set_lib::lemma_map_size_bound(cores.to_set(), packages.to_set(), f);
        cores.lemma_cardinality_of_set();
    }

    /// Assembles a topology from its two relations.
    pub(crate) fn from_parts(logical_cpus: Vec<LogicalCpu>, numa_nodes: Vec<NumaNode>) -> (r: Self)
        ensures
            r.spec_logical_cpus() == logical_cpus@,
            r.spec_numa_nodes() == numa_nodes@,
    {
        Topology { logical_cpus, numa_nodes }
    }

    /// Returns all logical CPUs (ascending identifier order when discovered).
    pub fn logical_cpus(&self) -> (r: &[LogicalCpu])
        ensures
            r@ == self.spec_logical_cpus(),
    {
        self.logical_cpus.as_slice()
    }

    /// Returns all NUMA nodes (ascending identifier order when discovered).
    pub fn numa_nodes(&self) -> (r: &[NumaNode])
        ensures
            r@ == self.spec_numa_nodes(),
    {
        self.numa_nodes.as_slice()
    }

    /// Returns the number of logical CPUs.
    pub fn logical_cpu_count(&self) -> (r: usize)
        ensures
            r == self.spec_logical_cpus().len(),
    {
        self.logical_cpus.len()
    }

    /// Returns the number of distinct physical cores.
    pub fn physical_core_count(&self) -> (r: usize)
        ensures
            r == distinct_count(self.spec_cores()),
    {
        let mut seen: Vec<CoreId> = Vec::new();
        let n = self.logical_cpus.len();
        for i in 0..n
            invariant
                n == self.spec_logical_cpus().len(),
                seen@.no_duplicates(),
                seen@.to_set() == self.spec_cores().take(i as int).to_set(),
                seen@.len() <= i,
        {
            let core = self.logical_cpus[i].core_id();
            let found = contains_core(&seen, core);
            proof {
                assert(self.spec_cores().take(i + 1) == self.spec_cores().take(i as int).push(core));
                lemma_push_to_set(self.spec_cores().take(i as int), core);
                lemma_push_to_set(seen@, core);
            }
            if !found {
                seen.push(core);
            }
        }
        proof {
            assert(self.spec_cores().take(n as int) == self.spec_cores());
            seen@.unique_seq_to_set();
        }
        seen.len()
    }

    /// Returns the number of distinct packages.
    pub fn package_count(&self) -> (r: usize)
        ensures
            r == distinct_count(self.spec_packages()),
    {
        let mut seen: Vec<PackageId> = Vec::new();
        let n = self.logical_cpus.len();
        for i in 0..n
            invariant
                n == self.spec_logical_cpus().len(),
                seen@.no_duplicates(),
                seen@.to_set() == self.spec_packages().take(i as int).to_set(),
                seen@.len() <= i,
        {
            let package = self.logical_cpus[i].package();
            let found = contains_package(&seen, package);
            proof {
                assert(self.spec_packages().take(i + 1) == self.spec_packages().take(i as int).push(
                    package,
                ));
                lemma_push_to_set(self.spec_packages().take(i as int), package);
                lemma_push_to_set(seen@, package);
            }
            if !found {
                seen.push(package);
            }
        }
        proof {
            assert(self.spec_packages().take(n as int) == self.spec_packages());
            seen@.unique_seq_to_set();
        }
        seen.len()
    }

    /// Returns the number of NUMA nodes.
    pub fn numa_node_count(&self) -> (r: usize)
        ensures
            r == self.spec_numa_nodes().len(),
    {
        self.numa_nodes.len()
    }
}

proof fn lemma_push_to_set<A>(s: Seq<A>, x: A)
    ensures
        s.push(x).to_set() == s.to_set().insert(x),
{
    broadcast use vstd::seq_lib::group_seq_properties;
    assert(s.push(x).to_set() =~= s.to_set().insert(x));
}

/// Whether `core` occurs in `cores`.
pub fn contains_core(cores: &Vec<CoreId>, core: CoreId) -> (r: bool)
    ensures
        r == cores@.contains(core),
{
    let mut i: usize = 0;
    while i < cores.len()
        invariant
            i <= cores.len(),
            forall|k: int| 0 <= k < i ==> cores@[k] != core,
        decreases cores.len() - i,
    {
        if cores[i] == core {
            return true;
        }
        i += 1;
    }
    false
}

/// Whether `package` occurs in `packages`.
fn contains_package(packages: &Vec<PackageId>, package: PackageId) -> (r: bool)
    ensures
        r == packages@.contains(package),
{
    let mut i: usize = 0;
    while i < packages.len()
        invariant
            i <= packages.len(),
            forall|k: int| 0 <= k < i ==> packages@[k] != package,
        decreases packages.len() - i,
    {
        if packages[i] == package {
            return true;
        }
        i += 1;
    }
    false
}

} // verus!
