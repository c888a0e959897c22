//! The order in which discovery reads sysfs, as a state machine: the caller
//! reads the file that the machine names and hands back the outcome, until
//! the machine returns the topology or the first error.
//!
//! Files are read in this order: `cpu/online`; `node/online`; the CPU list
//! of each online node, in ascending node order (skipped when `node/online`
//! does not exist, which stands for one uniform node `0` holding every
//! online CPU); then, for each online CPU in ascending order, its core number
//! and its package number.

use vstd::prelude::*;
use super::discovery::{
    assemble, assembly_result, build_numa_layout, distinct_nodes, lemma_assembled_topology, membership_view,
    numa_layout_result,
};
use super::sysfs::{
    core_id_from, cpu_file_outcome, integer_from, integer_outcome, node_cpus_from, numa_source_from,
    numa_source_outcome, online_cpus_from, uniform_memberships, FileRead, NumaSource, SysfsFile,
};
use super::id_list::{cpu_list_result, node_list_result, strictly_increasing};
use super::{CoreId, CpuId, NumaNode, NumaNodeId, Topology, TopologyError};

verus! {

broadcast use super::group_id_equality;

/// What discovery needs next.
#[derive(Debug)]
pub enum DiscoveryStep {
    /// The outcome of reading this file.
    Read(SysfsFile),
    /// Nothing more: discovery ended with this result.
    Finished(Result<Topology, TopologyError>),
}

/// The layout that a list of memberships yields.
pub type Layout = Result<(Vec<NumaNode>, Vec<(CpuId, NumaNodeId)>), TopologyError>;

/// Discovery in progress.
pub struct TopologyDiscovery {
    expecting: Option<SysfsFile>,
    online: Vec<CpuId>,
    node_ids: Vec<NumaNodeId>,
    memberships: Vec<(NumaNodeId, Vec<CpuId>)>,
    recorded: Ghost<Seq<(NumaNodeId, Seq<CpuId>)>>,
    nodes: Vec<NumaNode>,
    map: Vec<(CpuId, NumaNodeId)>,
    layout: Ghost<Layout>,
    cores: Vec<CoreId>,
    core_number: i32,
}

/// Once the memberships are complete: they are checked, and discovery asks
/// for the first CPU's core number, or ends when they are inconsistent or no CPU
/// is online.
pub open spec fn layout_step(new: TopologyDiscovery, step: DiscoveryStep) -> bool {
    &&& numa_layout_result(new.online()@, new.memberships(), new.layout())
    &&& new.cores().len() == 0
    &&& match new.layout() {
        Err(e) => step == DiscoveryStep::Finished(Err(e)),
        Ok((ln, lm)) => if new.online()@.len() == 0 {
            step matches DiscoveryStep::Finished(r) && assembly_result(new.online()@, new.cores(), ln@, lm@, r)
        } else {
            step == DiscoveryStep::Read(SysfsFile::CoreNumber(new.online()@[0]))
        },
    }
}

/// What one step of discovery does with the outcome `read` of the file it
/// waited for: the outcome's meaning is taken as its reading function
/// states; an error ends discovery with that error; otherwise the next file
/// in the documented order is asked for, or the topology is assembled.
pub open spec fn advanced(old: TopologyDiscovery, read: FileRead, new: TopologyDiscovery, step: DiscoveryStep) -> bool {
    match old.expecting() {
        Some(SysfsFile::OnlineCpus) => exists|r: Result<Vec<CpuId>, TopologyError>|
            #[trigger] cpu_file_outcome(SysfsFile::OnlineCpus, read, r) && match r {
                Err(e) => step == DiscoveryStep::Finished(Err(e)),
                Ok(v) => new.online() == v && step == DiscoveryStep::Read(SysfsFile::OnlineNumaNodes),
            },
        Some(SysfsFile::OnlineNumaNodes) => new.online() == old.online() && exists|r: Result<NumaSource, TopologyError>|
            #[trigger] numa_source_outcome(read, r) && match r {
                Err(e) => step == DiscoveryStep::Finished(Err(e)),
                Ok(NumaSource::Uniform) => new.memberships() == seq![(NumaNodeId::spec_zero(), old.online()@)]
                    && layout_step(new, step),
                Ok(NumaSource::Listed(v)) => new.node_ids() == v@ && if v@.len() > 0 {
                    new.memberships().len() == 0 && step == DiscoveryStep::Read(SysfsFile::NumaNodeCpus(v@[0]))
                } else {
                    new.memberships().len() == 0 && layout_step(new, step)
                },
            },
        Some(SysfsFile::NumaNodeCpus(n)) => new.online() == old.online() && new.node_ids() == old.node_ids()
            && exists|r: Result<Vec<CpuId>, TopologyError>|
            #[trigger] cpu_file_outcome(SysfsFile::NumaNodeCpus(n), read, r) && match r {
                Err(e) => step == DiscoveryStep::Finished(Err(e)),
                Ok(v) => new.memberships() == old.memberships().push((n, v@)) && if new.memberships().len()
                    < new.node_ids().len() {
                    step == DiscoveryStep::Read(SysfsFile::NumaNodeCpus(new.node_ids()[new.memberships().len() as int]))
                } else {
                    layout_step(new, step)
                },
            },
        Some(SysfsFile::CoreNumber(c)) => new.online() == old.online() && new.memberships() == old.memberships()
            && new.layout() == old.layout() && new.cores() == old.cores() && exists|r: Result<i32, TopologyError>|
            #[trigger] integer_outcome(SysfsFile::CoreNumber(c), read, r) && match r {
                Err(e) => step == DiscoveryStep::Finished(Err(e)),
                Ok(v) => new.core_number() == v && step == DiscoveryStep::Read(SysfsFile::PackageNumber(c)),
            },
        Some(SysfsFile::PackageNumber(c)) => new.online() == old.online() && new.memberships() == old.memberships()
            && new.layout() == old.layout() && exists|r: Result<i32, TopologyError>|
            #[trigger] integer_outcome(SysfsFile::PackageNumber(c), read, r) && match r {
                Err(e) => step == DiscoveryStep::Finished(Err(e)),
                Ok(p) => new.cores() == old.cores().push(CoreId::spec_new(p, old.core_number())) && if new.cores().len()
                    < new.online()@.len() {
                    step == DiscoveryStep::Read(SysfsFile::CoreNumber(new.online()@[new.cores().len() as int]))
                } else {
                    step matches DiscoveryStep::Finished(t) && new.layout() matches Ok((ln, lm))
                        && assembly_result(new.online()@, new.cores(), ln@, lm@, t)
                },
            },
        None => false,
    }
}

impl TopologyDiscovery {
    /// The file whose outcome the machine waits for; `None` once finished.
    pub closed spec fn expecting(&self) -> Option<SysfsFile> {
        self.expecting
    }

    /// The online CPUs read from `cpu/online`.
    pub closed spec fn online(&self) -> Vec<CpuId> {
        self.online
    }

    /// The online nodes read from `node/online`.
    pub closed spec fn node_ids(&self) -> Seq<NumaNodeId> {
        self.node_ids@
    }

    /// The NUMA memberships gathered so far.
    pub closed spec fn memberships(&self) -> Seq<(NumaNodeId, Seq<CpuId>)> {
        self.recorded@
    }

    /// The layout checked from the memberships, once they are all known.
    pub closed spec fn layout(&self) -> Layout {
        self.layout@
    }

    /// The cores read so far, one per online CPU in order.
    pub closed spec fn cores(&self) -> Seq<CoreId> {
        self.cores@
    }

    /// The core number read for the CPU whose package is awaited.
    pub closed spec fn core_number(&self) -> i32 {
        self.core_number
    }

    /// The machine's fields agree with the file it waits for.
    pub closed spec fn wf(&self) -> bool {
        &&& strictly_increasing(self.online@.map_values(|c: CpuId| c@))
        &&& match self.expecting {
            Some(SysfsFile::NumaNodeCpus(n)) => {
                &&& self.memberships@.len() < self.node_ids@.len()
                &&& n == self.node_ids@[self.memberships@.len() as int]
                &&& forall|i: int, j: int| 0 <= i < j < self.node_ids@.len() ==> self.node_ids@[i] != self.node_ids@[j]
                &&& forall|i: int| 0 <= i < self.recorded@.len() ==> (#[trigger] self.recorded@[i]).0 == self.node_ids@[i]
                &&& self.recorded@ == self.memberships@.map_values(
                    |m: (NumaNodeId, Vec<CpuId>)| membership_view(m),
                )
            },
            Some(SysfsFile::CoreNumber(c)) | Some(SysfsFile::PackageNumber(c)) => {
                &&& self.cores@.len() < self.online@.len()
                &&& c == self.online@[self.cores@.len() as int]
                &&& self.layout@ matches Ok((ln, lm)) && lm@ == self.map@ && ln@ == self.nodes@
                &&& numa_layout_result(self.online@, self.recorded@, self.layout@)
                &&& distinct_nodes(self.recorded@)
            },
            None => true,
            _ => self.memberships@.len() == 0 && self.recorded@ == self.memberships@.map_values(
                |m: (NumaNodeId, Vec<CpuId>)| membership_view(m),
            ),
        }
    }

    /// Starts discovery; the first file to read is `cpu/online`.
    pub fn new() -> (r: (Self, SysfsFile))
        ensures
            r.0.wf(),
            r.0.expecting() == Some(r.1),
            r.1 == SysfsFile::OnlineCpus,
    {
        let memberships: Vec<(NumaNodeId, Vec<CpuId>)> = Vec::new();
        let ghost recorded = memberships@.map_values(|m: (NumaNodeId, Vec<CpuId>)| membership_view(m));
        (
            TopologyDiscovery {
                expecting: Some(SysfsFile::OnlineCpus),
                online: Vec::new(),
                node_ids: Vec::new(),
                memberships,
                recorded: Ghost(recorded),
                nodes: Vec::new(),
                map: Vec::new(),
                layout: Ghost(Err(TopologyError::UnsupportedPlatform)),
                cores: Vec::new(),
                core_number: 0,
            },
            SysfsFile::OnlineCpus,
        )
    }

    /// Checks the gathered memberships, then asks for the first CPU's core
    /// number, or assembles the topology when no CPU is online.
    fn after_memberships(&mut self) -> (step: DiscoveryStep)
        requires
            old(self).recorded@ == old(self).memberships@.map_values(
                |m: (NumaNodeId, Vec<CpuId>)| membership_view(m),
            ),
            distinct_nodes(old(self).recorded@),
            strictly_increasing(old(self).online@.map_values(|c: CpuId| c@)),
        ensures
            final(self).wf(),
            final(self).online() == old(self).online(),
            final(self).memberships() == old(self).memberships(),
            final(self).node_ids() == old(self).node_ids(),
            final(self).cores().len() == 0,
            numa_layout_result(final(self).online()@, final(self).memberships(), final(self).layout()),
            match final(self).layout() {
                Err(e) => step == DiscoveryStep::Finished(Err(e)) && final(self).expecting() is None,
                Ok((ln, lm)) => if final(self).online()@.len() == 0 {
                    step matches DiscoveryStep::Finished(r) && final(self).expecting() is None
                        && final(self).cores().len() == 0
                        && assembly_result(final(self).online()@, final(self).cores(), ln@, lm@, r)
                } else {
                    step == DiscoveryStep::Read(SysfsFile::CoreNumber(final(self).online()@[0]))
                        && final(self).expecting() == Some(SysfsFile::CoreNumber(final(self).online()@[0]))
                        && final(self).cores().len() == 0
                },
            },
    {
        let mut memberships: Vec<(NumaNodeId, Vec<CpuId>)> = Vec::new();
        std::mem::swap(&mut memberships, &mut self.memberships);
        let layout = build_numa_layout(self.online.as_slice(), memberships);
        let ghost lg = layout;
        self.layout = Ghost(lg);
        self.cores = Vec::new();
        match layout {
            Err(e) => {
                self.expecting = None;
                DiscoveryStep::Finished(Err(e))
            },
            Ok((nodes, map)) => {
                self.map = map;
                if self.online.len() == 0 {
                    let r = assemble(&self.online, &self.cores, nodes, &self.map);
                    self.expecting = None;
                    DiscoveryStep::Finished(r)
                } else {
                    self.nodes = nodes;
                    let first = self.online[0];
                    self.expecting = Some(SysfsFile::CoreNumber(first));
                    DiscoveryStep::Read(SysfsFile::CoreNumber(first))
                }
            },
        }
    }
}

impl TopologyDiscovery {
    /// Takes the outcome of reading the awaited file and says what comes
    /// next (see [`advanced`]).
    pub fn advance(&mut self, read: FileRead) -> (step: DiscoveryStep)
        requires
            old(self).wf(),
            old(self).expecting() is Some,
        ensures
            final(self).wf(),
            step matches DiscoveryStep::Read(f) ==> final(self).expecting() == Some(f),
            step is Finished ==> final(self).expecting() is None,
            advanced(*old(self), read, *final(self), step),
    {
        let ghost read0 = read;
        let expected = self.expecting.unwrap();
        match expected {
            SysfsFile::OnlineCpus => {
                let r = online_cpus_from(read);
                let ghost rg = r;
                assert(cpu_file_outcome(SysfsFile::OnlineCpus, read0, rg));
                match r {
                    Err(e) => {
                        self.expecting = None;
                        DiscoveryStep::Finished(Err(e))
                    },
                    Ok(v) => {
                        self.online = v;
                        self.expecting = Some(SysfsFile::OnlineNumaNodes);
                        DiscoveryStep::Read(SysfsFile::OnlineNumaNodes)
                    },
                }
            },
            SysfsFile::OnlineNumaNodes => {
                let r = numa_source_from(read);
                let ghost rg = r;
                assert(numa_source_outcome(read0, rg));
                match r {
                    Err(e) => {
                        self.expecting = None;
                        DiscoveryStep::Finished(Err(e))
                    },
                    Ok(NumaSource::Uniform) => {
                        self.memberships = uniform_memberships(&self.online);
                        proof {
                            self.recorded = Ghost(self.memberships@.map_values(
                                |m: (NumaNodeId, Vec<CpuId>)| membership_view(m),
                            ));
                            assert(self.recorded@ =~= seq![(NumaNodeId::spec_zero(), self.online@)]);
                            assert(distinct_nodes(self.recorded@));
                        }
                        self.after_memberships()
                    },
                    Ok(NumaSource::Listed(ids)) => {
                        proof {
                            match read0 {
                                FileRead::Contents(text) => {
                                    let values = ids@.map_values(|n: NumaNodeId| n@);
                                    assert(node_list_result(text@, Ok(ids)));
                                    assert forall|i: int, j: int| 0 <= i < j < ids@.len() implies ids@[i] != ids@[j] by {
                                        assert(values[i] == ids@[i]@ && values[j] == ids@[j]@);
                                    }
                                },
                                _ => {},
                            }
                            assert(distinct_nodes(self.recorded@));
                        }
                        self.node_ids = ids;
                        if self.node_ids.len() > 0 {
                            let first = self.node_ids[0];
                            self.expecting = Some(SysfsFile::NumaNodeCpus(first));
                            DiscoveryStep::Read(SysfsFile::NumaNodeCpus(first))
                        } else {
                            self.after_memberships()
                        }
                    },
                }
            },
            SysfsFile::NumaNodeCpus(n) => {
                let r = node_cpus_from(n, read);
                let ghost rg = r;
                assert(cpu_file_outcome(SysfsFile::NumaNodeCpus(n), read0, rg));
                match r {
                    Err(e) => {
                        self.expecting = None;
                        DiscoveryStep::Finished(Err(e))
                    },
                    Ok(v) => {
                        let ghost vv = v@;
                        let ghost before = self.memberships@;
                        self.memberships.push((n, v));
                        proof {
                            let f = |m: (NumaNodeId, Vec<CpuId>)| membership_view(m);
                            assert(self.memberships@.map_values(f) =~= before.map_values(f).push((n, vv)));
                            self.recorded = Ghost(self.recorded@.push((n, vv)));
                            assert forall|i: int| 0 <= i < self.recorded@.len() implies (#[trigger] self.recorded@[i]).0 == self.node_ids@[i] by {
                                if i < self.recorded@.len() - 1 {
                                    assert(self.recorded@[i] == self.recorded@.drop_last()[i]);
                                }
                            }
                            assert(distinct_nodes(self.recorded@)) by {
                                assert forall|i: int, j: int| 0 <= i < j < self.recorded@.len()
                                    implies self.recorded@[i].0 != self.recorded@[j].0 by {
                                    assert(self.recorded@[i].0 == self.node_ids@[i]);
                                    assert(self.recorded@[j].0 == self.node_ids@[j]);
                                }
                            }
                        }
                        if self.memberships.len() < self.node_ids.len() {
                            let next = self.node_ids[self.memberships.len()];
                            self.expecting = Some(SysfsFile::NumaNodeCpus(next));
                            DiscoveryStep::Read(SysfsFile::NumaNodeCpus(next))
                        } else {
                            self.after_memberships()
                        }
                    },
                }
            },
            SysfsFile::CoreNumber(c) => {
                let r = integer_from(SysfsFile::CoreNumber(c), read);
                let ghost rg = r;
                assert(integer_outcome(SysfsFile::CoreNumber(c), read0, rg));
                match r {
                    Err(e) => {
                        self.expecting = None;
                        DiscoveryStep::Finished(Err(e))
                    },
                    Ok(v) => {
                        self.core_number = v;
                        self.expecting = Some(SysfsFile::PackageNumber(c));
                        DiscoveryStep::Read(SysfsFile::PackageNumber(c))
                    },
                }
            },
            SysfsFile::PackageNumber(c) => {
                let r = integer_from(SysfsFile::PackageNumber(c), read);
                let ghost rg = r;
                assert(integer_outcome(SysfsFile::PackageNumber(c), read0, rg));
                match r {
                    Err(e) => {
                        self.expecting = None;
                        DiscoveryStep::Finished(Err(e))
                    },
                    Ok(p) => {
                        let core = core_id_from(self.core_number, p);
                        proof {
                            assert(core@ == CoreId::spec_new(p, self.core_number)@);
                            assert(core == CoreId::spec_new(p, self.core_number));
                        }
                        self.cores.push(core);
                        if self.cores.len() < self.online.len() {
                            let next = self.online[self.cores.len()];
                            self.expecting = Some(SysfsFile::CoreNumber(next));
                            DiscoveryStep::Read(SysfsFile::CoreNumber(next))
                        } else {
                            let mut nodes: Vec<NumaNode> = Vec::new();
                            std::mem::swap(&mut nodes, &mut self.nodes);
                            let r = assemble(&self.online, &self.cores, nodes, &self.map);
                            self.expecting = None;
                            DiscoveryStep::Finished(r)
                        }
                    },
                }
            },
        }
    }
}

/// A topology that discovery ends with: its logical CPUs are the online
/// CPUs in the order `cpu/online` lists them, NUMA node identifiers are
/// strictly ascending, every CPU a node lists is one of its logical CPUs,
/// and a node lists a logical CPU exactly when that CPU names the node.
pub proof fn lemma_discovered_topology(old: TopologyDiscovery, read: FileRead, new: TopologyDiscovery, t: Topology)
    requires
        old.wf(),
        advanced(old, read, new, DiscoveryStep::Finished(Ok(t))),
    ensures
        t.spec_logical_cpus().len() == new.online()@.len(),
        forall|k: int| 0 <= k < new.online()@.len() ==> (#[trigger] t.spec_logical_cpus()[k])@.0 == new.online()@[k],
        forall|k: int| 0 <= k < new.online()@.len() ==> (#[trigger] t.spec_logical_cpus()[k])@.1 == new.cores()[k],
        forall|i: int, j: int| 0 <= i < j < t.spec_logical_cpus().len()
            ==> (#[trigger] t.spec_logical_cpus()[i])@.0@ < (#[trigger] t.spec_logical_cpus()[j])@.0@,
        forall|i: int, j: int| 0 <= i < j < t.spec_numa_nodes().len()
            ==> (#[trigger] t.spec_numa_nodes()[i])@.0@ < (#[trigger] t.spec_numa_nodes()[j])@.0@,
        forall|i: int, c: CpuId| 0 <= i < t.spec_numa_nodes().len() && #[trigger] t.spec_numa_nodes()[i]@.1.contains(c)
            ==> exists|k: int| 0 <= k < t.spec_logical_cpus().len() && (#[trigger] t.spec_logical_cpus()[k])@.0 == c,
        forall|k: int, i: int| 0 <= k < t.spec_logical_cpus().len() && 0 <= i < t.spec_numa_nodes().len() ==>
            ((#[trigger] t.spec_numa_nodes()[i])@.1.contains((#[trigger] t.spec_logical_cpus()[k])@.0)
                <==> t.spec_numa_nodes()[i]@.0 == t.spec_logical_cpus()[k]@.2),
{
    let step = DiscoveryStep::Finished(Ok(t));
    match old.expecting() {
        Some(SysfsFile::OnlineCpus) => {
            let r = choose|r: Result<Vec<CpuId>, TopologyError>|
                #[trigger] cpu_file_outcome(SysfsFile::OnlineCpus, read, r) && match r {
                    Err(e) => step == DiscoveryStep::Finished(Err(e)),
                    Ok(v) => new.online() == v && step == DiscoveryStep::Read(SysfsFile::OnlineNumaNodes),
                };
        },
        Some(SysfsFile::OnlineNumaNodes) => {
            let r = choose|r: Result<NumaSource, TopologyError>|
                #[trigger] numa_source_outcome(read, r) && match r {
                    Err(e) => step == DiscoveryStep::Finished(Err(e)),
                    Ok(NumaSource::Uniform) => new.memberships() == seq![(NumaNodeId::spec_zero(), old.online()@)]
                        && layout_step(new, step),
                    Ok(NumaSource::Listed(v)) => new.node_ids() == v@ && if v@.len() > 0 {
                        new.memberships().len() == 0 && step == DiscoveryStep::Read(SysfsFile::NumaNodeCpus(v@[0]))
                    } else {
                        new.memberships().len() == 0 && layout_step(new, step)
                    },
                };
            assert(distinct_nodes(new.memberships()));
            lemma_layout_step_topology(new, t);
        },
        Some(SysfsFile::NumaNodeCpus(n)) => {
            let r = choose|r: Result<Vec<CpuId>, TopologyError>|
                #[trigger] cpu_file_outcome(SysfsFile::NumaNodeCpus(n), read, r) && match r {
                    Err(e) => step == DiscoveryStep::Finished(Err(e)),
                    Ok(v) => new.memberships() == old.memberships().push((n, v@)) && if new.memberships().len()
                        < new.node_ids().len() {
                        step == DiscoveryStep::Read(SysfsFile::NumaNodeCpus(new.node_ids()[new.memberships().len() as int]))
                    } else {
                        layout_step(new, step)
                    },
                };
            if let Ok(v) = r {
                let ms = new.memberships();
                assert forall|i: int, j: int| 0 <= i < j < ms.len() implies ms[i].0 != ms[j].0 by {
                    assert(ms[j].0 == old.node_ids@[j]) by {
                        if j < ms.len() - 1 {
                            assert(ms[j] == old.recorded@[j]);
                        }
                    }
                    assert(ms[i] == old.recorded@[i]);
                }
                lemma_layout_step_topology(new, t);
            }
        },
        Some(SysfsFile::CoreNumber(c)) => {
            let r = choose|r: Result<i32, TopologyError>|
                #[trigger] integer_outcome(SysfsFile::CoreNumber(c), read, r) && match r {
                    Err(e) => step == DiscoveryStep::Finished(Err(e)),
                    Ok(v) => new.core_number() == v && step == DiscoveryStep::Read(SysfsFile::PackageNumber(c)),
                };
        },
        Some(SysfsFile::PackageNumber(c)) => {
            let r = choose|r: Result<i32, TopologyError>|
                #[trigger] integer_outcome(SysfsFile::PackageNumber(c), read, r) && match r {
                    Err(e) => step == DiscoveryStep::Finished(Err(e)),
                    Ok(p) => new.cores() == old.cores().push(CoreId::spec_new(p, old.core_number())) && if new.cores().len()
                        < new.online()@.len() {
                        step == DiscoveryStep::Read(SysfsFile::CoreNumber(new.online()@[new.cores().len() as int]))
                    } else {
                        step matches DiscoveryStep::Finished(tt) && new.layout() matches Ok((ln, lm))
                            && assembly_result(new.online()@, new.cores(), ln@, lm@, tt)
                    },
                };
            if let Ok((ln, lm)) = new.layout() {
                lemma_assembled_topology(new.online()@, new.memberships(), ln, lm, new.cores(), t);
            }
            lemma_ascending_cpus(new.online()@, t);
        },
        None => {},
    }
}

/// The topology that checking complete memberships ends with, when they
/// name distinct nodes, has the properties of
/// [`lemma_discovered_topology`].
proof fn lemma_layout_step_topology(new: TopologyDiscovery, t: Topology)
    requires
        distinct_nodes(new.memberships()),
        strictly_increasing(new.online()@.map_values(|c: CpuId| c@)),
        layout_step(new, DiscoveryStep::Finished(Ok(t))),
    ensures
        t.spec_logical_cpus().len() == new.online()@.len(),
        forall|k: int| 0 <= k < new.online()@.len() ==> (#[trigger] t.spec_logical_cpus()[k])@.0 == new.online()@[k],
        forall|k: int| 0 <= k < new.online()@.len() ==> (#[trigger] t.spec_logical_cpus()[k])@.1 == new.cores()[k],
        forall|i: int, j: int| 0 <= i < j < t.spec_logical_cpus().len()
            ==> (#[trigger] t.spec_logical_cpus()[i])@.0@ < (#[trigger] t.spec_logical_cpus()[j])@.0@,
        forall|i: int, j: int| 0 <= i < j < t.spec_numa_nodes().len()
            ==> (#[trigger] t.spec_numa_nodes()[i])@.0@ < (#[trigger] t.spec_numa_nodes()[j])@.0@,
        forall|i: int, c: CpuId| 0 <= i < t.spec_numa_nodes().len() && #[trigger] t.spec_numa_nodes()[i]@.1.contains(c)
            ==> exists|k: int| 0 <= k < t.spec_logical_cpus().len() && (#[trigger] t.spec_logical_cpus()[k])@.0 == c,
        forall|k: int, i: int| 0 <= k < t.spec_logical_cpus().len() && 0 <= i < t.spec_numa_nodes().len() ==>
            ((#[trigger] t.spec_numa_nodes()[i])@.1.contains((#[trigger] t.spec_logical_cpus()[k])@.0)
                <==> t.spec_numa_nodes()[i]@.0 == t.spec_logical_cpus()[k]@.2),
{
    if let Ok((ln, lm)) = new.layout() {
        lemma_assembled_topology(new.online()@, new.memberships(), ln, lm, new.cores(), t);
    }
    lemma_ascending_cpus(new.online()@, t);
}

/// The logical CPUs of a topology assembled from strictly ascending online
/// CPUs, one per CPU in order, are strictly ascending.
proof fn lemma_ascending_cpus(online: Seq<CpuId>, t: Topology)
    requires
        strictly_increasing(online.map_values(|c: CpuId| c@)),
        t.spec_logical_cpus().len() == online.len(),
        forall|k: int| 0 <= k < online.len() ==> (#[trigger] t.spec_logical_cpus()[k])@.0 == online[k],
    ensures
        forall|i: int, j: int| 0 <= i < j < t.spec_logical_cpus().len()
            ==> (#[trigger] t.spec_logical_cpus()[i])@.0@ < (#[trigger] t.spec_logical_cpus()[j])@.0@,
{
    let values = online.map_values(|c: CpuId| c@);
    assert forall|i: int, j: int| 0 <= i < j < t.spec_logical_cpus().len()
        implies (#[trigger] t.spec_logical_cpus()[i])@.0@ < (#[trigger] t.spec_logical_cpus()[j])@.0@ by {
        assert(values[i] == online[i]@ && values[j] == online[j]@);
    }
}

} // verus!
