//! Cross-checking what Linux reports: NUMA memberships against the online
//! CPUs, and the assembly of a [`Topology`].

use vstd::prelude::*;
use vstd::relations::{sorted_by, total_ordering};
use super::{CoreId, CpuId, LogicalCpu, NumaNode, NumaNodeId, Topology, TopologyError};
use super::id_list::{insert_sorted, strictly_increasing};

verus! {

broadcast use super::group_id_equality;

/// Ascending order of CPU identifiers.
pub open spec fn cpu_leq() -> spec_fn(CpuId, CpuId) -> bool {
    |a: CpuId, b: CpuId| a@ <= b@
}

/// Membership in the online CPUs.
pub open spec fn is_online(online: Seq<CpuId>) -> spec_fn(CpuId) -> bool {
    |c: CpuId| online.contains(c)
}

/// The CPUs of a node list that are online, in ascending order.
pub open spec fn kept_cpus(online: Seq<CpuId>, cpus: Seq<CpuId>) -> Seq<CpuId> {
    cpus.filter(is_online(online)).sort_by(cpu_leq())
}

/// A membership record as plain values.
pub open spec fn membership_view(m: (NumaNodeId, Vec<CpuId>)) -> (NumaNodeId, Seq<CpuId>) {
    (m.0, m.1@)
}

/// Each node with its online CPUs, in the order the memberships came.
pub open spec fn node_records(online: Seq<CpuId>, ms: Seq<(NumaNodeId, Seq<CpuId>)>) -> Seq<
    (NumaNodeId, Seq<CpuId>),
> {
    ms.map_values(|m: (NumaNodeId, Seq<CpuId>)| (m.0, kept_cpus(online, m.1)))
}

/// Every (CPU, node) membership, in record order and CPU order.
pub open spec fn assignments(records: Seq<(NumaNodeId, Seq<CpuId>)>) -> Seq<(CpuId, NumaNodeId)>
    decreases records.len(),
{
    if records.len() == 0 {
        seq![]
    } else {
        let r = records.last();
        assignments(records.drop_last()) + r.1.map_values(|c: CpuId| (c, r.0))
    }
}

/// No CPU occurs twice among `a[..end]`.
pub open spec fn distinct_before(a: Seq<(CpuId, NumaNodeId)>, end: int) -> bool {
    forall|k: int, l: int| 0 <= k < l < end ==> a[k].0 != a[l].0
}

/// `a[j]` repeats the CPU of `a[i]`, and it is the earliest repetition.
pub open spec fn first_repeat(a: Seq<(CpuId, NumaNodeId)>, i: int, j: int) -> bool {
    &&& 0 <= i < j < a.len()
    &&& a[i].0 == a[j].0
    &&& distinct_before(a, j)
}

/// Whether `c` has a node in `a`.
pub open spec fn assigned(a: Seq<(CpuId, NumaNodeId)>, c: CpuId) -> bool {
    exists|k: int| 0 <= k < a.len() && (#[trigger] a[k]).0 == c
}

/// Whether `s` is in ascending order of node identifiers.
pub open spec fn nodes_sorted(s: Seq<NumaNode>) -> bool {
    forall|i: int, j: int| 0 <= i < j < s.len() ==> (#[trigger] s[i])@.0@ <= (#[trigger] s[j])@.0@
}

/// What `build_numa_layout` returns for `online` and `memberships`.
pub open spec fn numa_layout_result(
    online: Seq<CpuId>,
    memberships: Seq<(NumaNodeId, Seq<CpuId>)>,
    r: Result<(Vec<NumaNode>, Vec<(CpuId, NumaNodeId)>), TopologyError>,
) -> bool {
    let records = node_records(online, memberships);
    let a = assignments(records);
    match r {
        Ok((nodes, map)) => {
            &&& distinct_before(a, a.len() as int)
            &&& forall|k: int| 0 <= k < online.len() ==> assigned(a, #[trigger] online[k])
            &&& map@ == a
            &&& nodes_sorted(nodes@)
            &&& nodes@.map_values(|n: NumaNode| n@).to_multiset() == records.to_multiset()
        },
        Err(TopologyError::CpuInMultipleNumaNodes { cpu, first, second }) => exists|i: int, j: int|
            #![trigger a[i], a[j]]
            first_repeat(a, i, j) && cpu == a[j].0 && first == a[i].1 && second == a[j].1,
        Err(TopologyError::CpuWithoutNumaNode { cpu }) => {
            &&& distinct_before(a, a.len() as int)
            &&& exists|k: int|
                #![trigger online[k]]
                0 <= k < online.len() && online[k] == cpu && !assigned(a, cpu) && forall|l: int|
                    0 <= l < k ==> assigned(a, #[trigger] online[l])
        },
        Err(_) => false,
    }
}

proof fn lemma_cpu_leq_total()
    ensures
        total_ordering(cpu_leq()),
{
}

/// Two ascending lists of CPUs with the same elements are the same list.
proof fn lemma_sorted_unique(a: Seq<CpuId>, b: Seq<CpuId>)
    requires
        sorted_by(a, cpu_leq()),
        sorted_by(b, cpu_leq()),
        a.to_multiset() == b.to_multiset(),
    ensures
        a == b,
    decreases a.len(),
{
    broadcast use vstd::seq_lib::group_to_multiset_ensures;
    broadcast use vstd::multiset::group_multiset_axioms;
    if a.len() == 0 {
        assert(b.len() == 0);
        assert(a =~= b);
    } else {
        assert(a.to_multiset().len() == a.len());
        assert(b.to_multiset().len() == b.len());
        assert(b.len() == a.len());
        assert(a.contains(a[0]));
        assert(b.to_multiset().count(a[0]) > 0);
        assert(b.contains(a[0]));
        assert(b.contains(b[0]));
        assert(a.to_multiset().count(b[0]) > 0);
        assert(a.contains(b[0]));
        let ia = choose|i: int| 0 <= i < a.len() && a[i] == b[0];
        let ib = choose|i: int| 0 <= i < b.len() && b[i] == a[0];
        if ia > 0 {
            assert(cpu_leq()(a[0], a[ia]));
        }
        if ib > 0 {
            assert(cpu_leq()(b[0], b[ib]));
        }
        assert(a[0] == b[0]);
        assert(a.remove(0) == a.drop_first());
        assert(b.remove(0) == b.drop_first());
        assert(a.remove(0).to_multiset() == a.to_multiset().remove(a[0]));
        assert(b.remove(0).to_multiset() == b.to_multiset().remove(b[0]));
        assert(sorted_by(a.drop_first(), cpu_leq())) by {
            assert forall|i: int, j: int| 0 <= i < j < a.drop_first().len() implies #[trigger] cpu_leq()(
                a.drop_first()[i],
                a.drop_first()[j],
            ) by {
                assert(cpu_leq()(a[i + 1], a[j + 1]));
            }
        }
        assert(sorted_by(b.drop_first(), cpu_leq())) by {
            assert forall|i: int, j: int| 0 <= i < j < b.drop_first().len() implies #[trigger] cpu_leq()(
                b.drop_first()[i],
                b.drop_first()[j],
            ) by {
                assert(cpu_leq()(b[i + 1], b[j + 1]));
            }
        }
        lemma_sorted_unique(a.drop_first(), b.drop_first());
        assert(a =~= b) by {
            assert forall|i: int| 0 <= i < a.len() implies a[i] == b[i] by {
                if i > 0 {
                    assert(a[i] == a.drop_first()[i - 1]);
                    assert(b[i] == b.drop_first()[i - 1]);
                }
            }
        }
    }
}

/// Whether `cpu` occurs in `cpus`.
pub fn contains_cpu(cpus: &[CpuId], cpu: CpuId) -> (r: bool)
    ensures
        r == cpus@.contains(cpu),
{
    let mut i: usize = 0;
    while i < cpus.len()
        invariant
            i <= cpus@.len(),
            forall|k: int| 0 <= k < i ==> cpus@[k] != cpu,
        decreases cpus@.len() - i,
    {
        if cpus[i] == cpu {
            return true;
        }
        i += 1;
    }
    false
}

/// Inserts `c` into the ascending `v`, after the values equal to it.
fn insert_ascending(v: &mut Vec<CpuId>, c: CpuId)
    requires
        sorted_by(old(v)@, cpu_leq()),
    ensures
        sorted_by(final(v)@, cpu_leq()),
        final(v)@.to_multiset() == old(v)@.to_multiset().insert(c),
{
    broadcast use vstd::seq_lib::group_to_multiset_ensures;
    let n = v.len();
    let mut i = n;
    while i > 0 && c.get() < v[i - 1].get()
        invariant
            i <= n == v@.len(),
            forall|k: int| i <= k < n ==> c@ < v@[k]@,
        decreases i,
    {
        i -= 1;
    }
    let ghost o = v@;
    v.insert(i, c);
    proof {
        assert(v@ == o.insert(i as int, c));
        assert forall|a: int, b: int| 0 <= a < b < v@.len() implies #[trigger] cpu_leq()(v@[a], v@[b]) by {
            if b < i {
                assert(cpu_leq()(o[a], o[b]));
            } else if a > i {
                assert(cpu_leq()(o[a - 1], o[b - 1]));
            } else if a == i {
                assert(c@ < o[b - 1]@);
            } else {
                if b == i {
                    if i > 0 {
                        assert(c@ >= o[i - 1]@);
                        if a < i - 1 {
                            assert(cpu_leq()(o[a], o[i - 1]));
                        }
                    }
                } else {
                    assert(cpu_leq()(o[a], o[b - 1]));
                }
            }
        }
    }
}

/// The CPUs of `cpus` that are online, in ascending order.
pub fn online_cpus_ascending(online: &[CpuId], cpus: &[CpuId]) -> (r: Vec<CpuId>)
    ensures
        r@ == kept_cpus(online@, cpus@),
{
    let mut out: Vec<CpuId> = Vec::new();
    let mut i: usize = 0;
    proof {
        reveal(Seq::filter);
        assert(cpus@.take(0).filter(is_online(online@)) =~= Seq::<CpuId>::empty());
        assert(out@.to_multiset() =~= Seq::<CpuId>::empty().to_multiset()) by {
            broadcast use vstd::seq_lib::group_to_multiset_ensures;
            broadcast use vstd::multiset::group_multiset_axioms;
        }
    }
    while i < cpus.len()
        invariant
            i <= cpus@.len(),
            sorted_by(out@, cpu_leq()),
            out@.to_multiset() == cpus@.take(i as int).filter(is_online(online@)).to_multiset(),
        decreases cpus@.len() - i,
    {
        let c = cpus[i];
        proof {
            assert(cpus@.take(i + 1) == cpus@.take(i as int).push(c));
            cpus@.take(i as int).lemma_filter_push(c, is_online(online@));
        }
        if contains_cpu(online, c) {
            proof {
                vstd::seq_lib::to_multiset_build(cpus@.take(i as int).filter(is_online(online@)), c);
            }
            insert_ascending(&mut out, c);
        }
        i += 1;
    }
    proof {
        assert(cpus@.take(cpus@.len() as int) == cpus@);
        let f = cpus@.filter(is_online(online@));
        lemma_cpu_leq_total();
        f.lemma_sort_by_ensures(cpu_leq());
        lemma_sorted_unique(out@, f.sort_by(cpu_leq()));
    }
    out
}

/// Whether `p` is a prefix of `s`.
pub open spec fn prefix_of<A>(p: Seq<A>, s: Seq<A>) -> bool {
    p.len() <= s.len() && forall|k: int| 0 <= k < p.len() ==> p[k] == s[k]
}

proof fn lemma_assignments_prefix(r: Seq<(NumaNodeId, Seq<CpuId>)>, i: int, j: int)
    requires
        0 <= i <= j <= r.len(),
    ensures
        prefix_of(assignments(r.take(i)), assignments(r.take(j))),
    decreases j - i,
{
    if i < j {
        lemma_assignments_prefix(r, i, j - 1);
        assert(r.take(j).drop_last() == r.take(j - 1));
        let last = r.take(j).last();
        assert(assignments(r.take(j)) == assignments(r.take(j - 1)) + last.1.map_values(
            |c: CpuId| (c, last.0),
        ));
    }
}

/// Inserts `n` into `v`, ascending by identifier, after equal identifiers.
fn insert_node_by_id(v: &mut Vec<NumaNode>, n: NumaNode)
    requires
        nodes_sorted(old(v)@),
    ensures
        nodes_sorted(final(v)@),
        final(v)@.map_values(|x: NumaNode| x@).to_multiset() == old(v)@.map_values(
            |x: NumaNode| x@,
        ).to_multiset().insert(n@),
{
    broadcast use vstd::seq_lib::group_to_multiset_ensures;
    let len = v.len();
    let key = n.id().get();
    let mut i = len;
    while i > 0 && key < v[i - 1].id().get()
        invariant
            i <= len == v@.len(),
            key == n@.0@,
            forall|k: int| i <= k < len ==> key < (#[trigger] v@[k])@.0@,
        decreases i,
    {
        i -= 1;
    }
    let ghost o = v@;
    let ghost nv = n@;
    v.insert(i, n);
    proof {
        assert(v@ == o.insert(i as int, n));
        assert(v@.map_values(|x: NumaNode| x@) =~= o.map_values(|x: NumaNode| x@).insert(i as int, nv));
        assert forall|a: int, b: int| 0 <= a < b < v@.len() implies (#[trigger] v@[a])@.0@ <= (
        #[trigger] v@[b])@.0@ by {
            if b < i {
                assert(o[a]@.0@ <= o[b]@.0@);
            } else if a > i {
                assert(o[a - 1]@.0@ <= o[b - 1]@.0@);
            } else if a == i {
                assert(key < o[b - 1]@.0@);
            } else {
                if b == i {
                    if i > 0 {
                        assert(key >= o[i - 1]@.0@);
                        if a < i - 1 {
                            assert(o[a]@.0@ <= o[i - 1]@.0@);
                        }
                    }
                } else {
                    assert(o[a]@.0@ <= o[b - 1]@.0@);
                }
            }
        }
    }
}

/// The first position of `cpu` in `map`, if any.
fn find_cpu(map: &Vec<(CpuId, NumaNodeId)>, cpu: CpuId) -> (r: Option<usize>)
    ensures
        match r {
            Some(k) => k < map@.len() && map@[k as int].0 == cpu,
            None => forall|k: int| 0 <= k < map@.len() ==> (#[trigger] map@[k]).0 != cpu,
        },
{
    let mut i: usize = 0;
    while i < map.len()
        invariant
            i <= map@.len(),
            forall|k: int| 0 <= k < i ==> (#[trigger] map@[k]).0 != cpu,
        decreases map@.len() - i,
    {
        if map[i].0 == cpu {
            return Some(i);
        }
        i += 1;
    }
    None
}

/// Checks the NUMA memberships against the online CPUs and builds both
/// directions of the relation.
///
/// Offline CPUs are dropped from each node's list, which is then sorted. The
/// memberships are taken in order; the first online CPU listed a second time
/// is reported with the node that listed it first. Then the first online CPU
/// that no node lists is reported. On success the nodes come in ascending
/// identifier order, and the second result lists every (CPU, node)
/// membership in the order it was read.
pub fn build_numa_layout(online: &[CpuId], memberships: Vec<(NumaNodeId, Vec<CpuId>)>) -> (r:
    Result<(Vec<NumaNode>, Vec<(CpuId, NumaNodeId)>), TopologyError>)
    ensures
        numa_layout_result(online@, memberships@.map_values(|m: (NumaNodeId, Vec<CpuId>)| membership_view(m)), r),
{
    broadcast use vstd::seq_lib::group_to_multiset_ensures;
    let ghost ms = memberships@.map_values(|m: (NumaNodeId, Vec<CpuId>)| membership_view(m));
    let ghost records = node_records(online@, ms);
    let mut map: Vec<(CpuId, NumaNodeId)> = Vec::new();
    let mut nodes: Vec<NumaNode> = Vec::new();
    let mut i: usize = 0;
    proof {
        assert(records.take(0) =~= Seq::<(NumaNodeId, Seq<CpuId>)>::empty());
        assert(nodes@.map_values(|x: NumaNode| x@) =~= Seq::<(NumaNodeId, Seq<CpuId>)>::empty());
    }
    while i < memberships.len()
        invariant
            i <= memberships@.len(),
            ms == memberships@.map_values(|m: (NumaNodeId, Vec<CpuId>)| membership_view(m)),
            records == node_records(online@, ms),
            map@ == assignments(records.take(i as int)),
            distinct_before(map@, map@.len() as int),
            nodes_sorted(nodes@),
            nodes@.map_values(|x: NumaNode| x@).to_multiset() == records.take(i as int).to_multiset(),
        decreases memberships@.len() - i,
    {
        let id = memberships[i].0;
        let kept = online_cpus_ascending(online, memberships[i].1.as_slice());
        let ghost base = map@;
        proof {
            assert(records[i as int] == (id, kept@));
            assert(records.take(i + 1).drop_last() == records.take(i as int));
            assert(records.take(i + 1).last() == (id, kept@));
            assert(assignments(records.take(i + 1)) == base + kept@.map_values(|c: CpuId| (c, id)));
            lemma_assignments_prefix(records, i + 1, records.len() as int);
            assert(records.take(records.len() as int) == records);
        }
        let mut j: usize = 0;
        while j < kept.len()
            invariant
                i < memberships@.len(),
                ms == memberships@.map_values(|m: (NumaNodeId, Vec<CpuId>)| membership_view(m)),
                records == node_records(online@, ms),
                j <= kept@.len(),
                map@ == base + kept@.take(j as int).map_values(|c: CpuId| (c, id)),
                distinct_before(map@, map@.len() as int),
                prefix_of(base + kept@.map_values(|c: CpuId| (c, id)), assignments(records)),
            decreases kept@.len() - j,
        {
            let c = kept[j];
            let ghost a = assignments(records);
            proof {
                assert((base + kept@.map_values(|c: CpuId| (c, id)))[map@.len() as int] == (c, id));
                assert(a[map@.len() as int] == (c, id));
                assert forall|k: int| 0 <= k < map@.len() implies a[k] == map@[k] by {
                    assert(kept@.take(j as int).map_values(|c: CpuId| (c, id)) =~= kept@.map_values(
                        |c: CpuId| (c, id),
                    ).take(j as int));
                    assert((base + kept@.map_values(|c: CpuId| (c, id)))[k] == map@[k]);
                }
            }
            match find_cpu(&map, c) {
                Some(k) => {
                    let first = map[k].1;
                    proof {
                        assert(a[k as int] == map@[k as int]);
                        assert(first_repeat(a, k as int, map@.len() as int));
                        assert(c == a[map@.len() as int].0 && first == a[k as int].1 && id == a[map@.len() as int].1);
                    }
                    return Err(TopologyError::CpuInMultipleNumaNodes { cpu: c, first, second: id });
                },
                None => {
                    map.push((c, id));
                    proof {
                        assert(kept@.take(j + 1).map_values(|c: CpuId| (c, id)) =~= kept@.take(
                            j as int,
                        ).map_values(|c: CpuId| (c, id)).push((c, id)));
                    }
                },
            }
            j += 1;
        }
        proof {
            assert(kept@.take(kept@.len() as int) == kept@);
        }
        let ghost kv = kept@;
        let node = NumaNode::from_parts(id, kept);
        insert_node_by_id(&mut nodes, node);
        proof {
            assert(records.take(i + 1) == records.take(i as int).push(records[i as int]));
            assert(records[i as int] == (id, kv));
            vstd::seq_lib::to_multiset_build(records.take(i as int), records[i as int]);
        }
        i += 1;
    }
    proof {
        assert(records.take(memberships@.len() as int) == records);
    }
    let ghost a = assignments(records);
    let mut k: usize = 0;
    while k < online.len()
        invariant
            k <= online@.len(),
            ms == memberships@.map_values(|m: (NumaNodeId, Vec<CpuId>)| membership_view(m)),
            records == node_records(online@, ms),
            a == assignments(records),
            map@ == a,
            distinct_before(a, a.len() as int),
            forall|l: int| 0 <= l < k ==> assigned(a, #[trigger] online@[l]),
        decreases online@.len() - k,
    {
        let c = online[k];
        match find_cpu(&map, c) {
            None => {
                proof {
                    assert(online@[k as int] == c);
                    assert(!assigned(a, c));
                }
                return Err(TopologyError::CpuWithoutNumaNode { cpu: c });
            },
            Some(f) => {
                assert(a[f as int].0 == c);
            },
        }
        k += 1;
    }
    Ok((nodes, map))
}

/// Whether `r` is the topology assembled from the online CPUs, their cores,
/// the NUMA nodes and the CPU-to-node memberships `map`.
pub open spec fn assembly_result(
    online: Seq<CpuId>,
    cores: Seq<CoreId>,
    nodes: Seq<NumaNode>,
    map: Seq<(CpuId, NumaNodeId)>,
    r: Result<Topology, TopologyError>,
) -> bool {
    match r {
        Ok(t) => {
            &&& t.spec_numa_nodes() == nodes
            &&& t.spec_logical_cpus().len() == online.len()
            &&& forall|k: int|
                #![trigger t.spec_logical_cpus()[k]]
                0 <= k < online.len() ==> {
                    let c = t.spec_logical_cpus()[k]@;
                    c.0 == online[k] && c.1 == cores[k] && map.contains((online[k], c.2))
                }
        },
        Err(TopologyError::CpuWithoutNumaNode { cpu }) => exists|k: int|
            #![trigger online[k]]
            0 <= k < online.len() && online[k] == cpu && !assigned(map, cpu) && forall|l: int|
                0 <= l < k ==> assigned(map, #[trigger] online[l]),
        Err(_) => false,
    }
}

/// Builds the topology: each online CPU, in order, with its core and the
/// node that `map` gives it.
pub fn assemble(
    online: &Vec<CpuId>,
    cores: &Vec<CoreId>,
    nodes: Vec<NumaNode>,
    map: &Vec<(CpuId, NumaNodeId)>,
) -> (r: Result<Topology, TopologyError>)
    requires
        cores@.len() == online@.len(),
    ensures
        assembly_result(online@, cores@, nodes@, map@, r),
{
    let mut cpus: Vec<LogicalCpu> = Vec::new();
    let mut k: usize = 0;
    while k < online.len()
        invariant
            k <= online@.len() == cores@.len(),
            cpus@.len() == k,
            forall|l: int| 0 <= l < k ==> assigned(map@, #[trigger] online@[l]),
            forall|l: int|
                #![trigger cpus@[l]]
                0 <= l < k ==> {
                    let c = cpus@[l]@;
                    c.0 == online@[l] && c.1 == cores@[l] && map@.contains((online@[l], c.2))
                },
        decreases online@.len() - k,
    {
        let cpu = online[k];
        match find_cpu(map, cpu) {
            None => {
                proof {
                    assert(online@[k as int] == cpu);
                    assert(!assigned(map@, cpu));
                }
                return Err(TopologyError::CpuWithoutNumaNode { cpu });
            },
            Some(f) => {
                let node = map[f].1;
                proof {
                    assert(map@[f as int] == (cpu, node));
                    assert(map@.contains((cpu, node)));
                    assert(assigned(map@, cpu));
                }
                cpus.push(LogicalCpu::from_parts(cpu, cores[k], node));
            },
        }
        k += 1;
    }
    Ok(Topology::from_parts(cpus, nodes))
}

/// One logical CPU given as (CPU, core, node).
pub type CpuEntry = (CpuId, CoreId, NumaNodeId);

/// The CPUs that `entries` places on `node`, in ascending order.
pub open spec fn entry_cpus_of(entries: Seq<CpuEntry>, node: NumaNodeId) -> Seq<CpuId> {
    entries.filter(on_node(node)).map_values(entry_cpu()).sort_by(cpu_leq())
}

/// Whether an entry is on `node`.
pub open spec fn on_node(node: NumaNodeId) -> spec_fn(CpuEntry) -> bool {
    |e: CpuEntry| e.2 == node
}

/// The CPU of an entry.
pub open spec fn entry_cpu() -> spec_fn(CpuEntry) -> CpuId {
    |e: CpuEntry| e.0
}

/// The values of the nodes that `entries` uses.
pub open spec fn entry_node_values(entries: Seq<CpuEntry>) -> Set<usize> {
    entries.map_values(|e: CpuEntry| e.2@).to_set()
}

/// The CPUs of `entries` on `node`, in ascending order.
fn cpus_on_node(entries: &[CpuEntry], node: NumaNodeId) -> (r: Vec<CpuId>)
    ensures
        r@ == entry_cpus_of(entries@, node),
{
    let ghost p = on_node(node);
    let ghost f = entry_cpu();
    let mut out: Vec<CpuId> = Vec::new();
    let mut i: usize = 0;
    proof {
        reveal(Seq::filter);
        assert(entries@.take(0).filter(p) =~= Seq::<CpuEntry>::empty());
        assert(entries@.take(0).filter(p).map_values(f) =~= Seq::<CpuId>::empty());
        assert(out@.to_multiset() =~= Seq::<CpuId>::empty().to_multiset()) by {
            broadcast use vstd::seq_lib::group_to_multiset_ensures;
            broadcast use vstd::multiset::group_multiset_axioms;
        }
    }
    while i < entries.len()
        invariant
            i <= entries@.len(),
            p == on_node(node),
            f == entry_cpu(),
            sorted_by(out@, cpu_leq()),
            out@.to_multiset() == entries@.take(i as int).filter(p).map_values(f).to_multiset(),
        decreases entries@.len() - i,
    {
        let e = entries[i];
        proof {
            assert(entries@.take(i + 1) == entries@.take(i as int).push(e));
            entries@.take(i as int).lemma_filter_push(e, p);
        }
        if e.2 == node {
            proof {
                let fl = entries@.take(i as int).filter(p);
                assert(fl.push(e).map_values(f) =~= fl.map_values(f).push(e.0));
                vstd::seq_lib::to_multiset_build(fl.map_values(f), e.0);
            }
            insert_ascending(&mut out, e.0);
        }
        i += 1;
    }
    proof {
        assert(entries@.take(entries@.len() as int) == entries@);
        let m = entries@.filter(p).map_values(f);
        lemma_cpu_leq_total();
        m.lemma_sort_by_ensures(cpu_leq());
        lemma_sorted_unique(out@, m.sort_by(cpu_leq()));
    }
    out
}

/// A topology made of the given logical CPUs, in the given order. Each node
/// that they use gets a record, in ascending node order, listing its CPUs
/// in ascending order.
pub fn topology_fixture(entries: &[CpuEntry]) -> (t: Topology)
    ensures
        t.spec_logical_cpus().map_values(|c: LogicalCpu| c@) == entries@,
        strictly_increasing(t.spec_numa_nodes().map_values(|n: NumaNode| n@.0@)),
        t.spec_numa_nodes().map_values(|n: NumaNode| n@.0@).to_set() == entry_node_values(entries@),
        forall|k: int|
            0 <= k < t.spec_numa_nodes().len() ==> (#[trigger] t.spec_numa_nodes()[k])@.1
                == entry_cpus_of(entries@, t.spec_numa_nodes()[k]@.0),
{
    let ghost g = |e: CpuEntry| e.2@;
    let mut cpus: Vec<LogicalCpu> = Vec::new();
    let mut ids: Vec<usize> = Vec::new();
    let mut i: usize = 0;
    proof {
        assert(ids@.to_set() =~= entries@.take(0).map_values(g).to_set());
    }
    while i < entries.len()
        invariant
            i <= entries@.len(),
            g == (|e: CpuEntry| e.2@),
            cpus@.map_values(|c: LogicalCpu| c@) == entries@.take(i as int),
            strictly_increasing(ids@),
            ids@.to_set() == entries@.take(i as int).map_values(g).to_set(),
        decreases entries@.len() - i,
    {
        let e = entries[i];
        let ghost before = cpus@;
        let c = LogicalCpu::from_parts(e.0, e.1, e.2);
        cpus.push(c);
        let _ = insert_sorted(&mut ids, e.2.get());
        proof {
            assert(entries@.take(i + 1) == entries@.take(i as int).push(e));
            assert(cpus@.map_values(|c: LogicalCpu| c@) =~= before.map_values(|c: LogicalCpu| c@).push(e));
            assert(entries@.take(i + 1).map_values(g) =~= entries@.take(i as int).map_values(g).push(e.2@));
            entries@.take(i as int).map_values(g).lemma_push_to_set_commute(e.2@);
        }
        i += 1;
    }
    proof {
        assert(entries@.take(entries@.len() as int) == entries@);
    }
    let mut nodes: Vec<NumaNode> = Vec::new();
    let mut k: usize = 0;
    while k < ids.len()
        invariant
            k <= ids@.len(),
            nodes@.len() == k,
            forall|j: int| 0 <= j < k ==> (#[trigger] nodes@[j])@.0@ == ids@[j],
            forall|j: int|
                0 <= j < k ==> (#[trigger] nodes@[j])@.1 == entry_cpus_of(entries@, nodes@[j]@.0),
        decreases ids@.len() - k,
    {
        let id = NumaNodeId::new(ids[k]);
        let list = cpus_on_node(entries, id);
        nodes.push(NumaNode::from_parts(id, list));
        k += 1;
    }
    proof {
        assert(nodes@.map_values(|n: NumaNode| n@.0@) =~= ids@);
    }
    Topology::from_parts(cpus, nodes)
}

/// Whether the memberships name pairwise distinct nodes.
pub open spec fn distinct_nodes(memberships: Seq<(NumaNodeId, Seq<CpuId>)>) -> bool {
    forall|i: int, j: int| 0 <= i < j < memberships.len() ==> memberships[i].0 != memberships[j].0
}

/// A (CPU, node) membership is listed exactly when some record of that
/// node lists the CPU.
proof fn lemma_assignments_contains(records: Seq<(NumaNodeId, Seq<CpuId>)>, c: CpuId, n: NumaNodeId)
    ensures
        assignments(records).contains((c, n)) <==> exists|j: int|
            0 <= j < records.len() && (#[trigger] records[j]).0 == n && records[j].1.contains(c),
    decreases records.len(),
{
    if records.len() > 0 {
        let last = records.last();
        let front = assignments(records.drop_last());
        let tail = last.1.map_values(|x: CpuId| (x, last.0));
        lemma_assignments_contains(records.drop_last(), c, n);
        let a = assignments(records);
        assert(a == front + tail);
        if a.contains((c, n)) {
            let k = choose|k: int| 0 <= k < a.len() && a[k] == (c, n);
            if k < front.len() {
                assert(front[k] == (c, n));
                let j = choose|j: int|
                    0 <= j < records.drop_last().len() && (#[trigger] records.drop_last()[j]).0 == n
                        && records.drop_last()[j].1.contains(c);
                assert(records[j] == records.drop_last()[j]);
            } else {
                let m = k - front.len();
                assert(tail[m] == (c, n));
                assert(last.1[m] == c);
                assert(records[records.len() - 1] == last);
            }
        }
        if exists|j: int| 0 <= j < records.len() && (#[trigger] records[j]).0 == n && records[j].1.contains(c) {
            let j = choose|j: int| 0 <= j < records.len() && (#[trigger] records[j]).0 == n && records[j].1.contains(c);
            if j < records.len() - 1 {
                assert(records.drop_last()[j] == records[j]);
                assert(front.contains((c, n)));
                let k = choose|k: int| 0 <= k < front.len() && front[k] == (c, n);
                assert(a[k] == (c, n));
            } else {
                let m = choose|m: int| 0 <= m < last.1.len() && last.1[m] == c;
                assert(tail[m] == (c, n));
                assert(a[front.len() + m] == (c, n));
            }
        }
    }
}

/// When no CPU repeats among the memberships, no record lists a CPU twice.
proof fn lemma_records_distinct(records: Seq<(NumaNodeId, Seq<CpuId>)>, p: int, x: int, y: int)
    requires
        distinct_before(assignments(records), assignments(records).len() as int),
        0 <= p < records.len(),
        0 <= x < y < records[p].1.len(),
    ensures
        records[p].1[x] != records[p].1[y],
    decreases records.len(),
{
    let last = records.last();
    let front = assignments(records.drop_last());
    let tail = last.1.map_values(|c: CpuId| (c, last.0));
    let a = assignments(records);
    assert(a == front + tail);
    if p == records.len() - 1 {
        assert(a[front.len() + x] == tail[x]);
        assert(a[front.len() + y] == tail[y]);
    } else {
        assert(distinct_before(front, front.len() as int)) by {
            assert forall|k: int, l: int| 0 <= k < l < front.len() implies front[k].0 != front[l].0 by {
                assert(a[k] == front[k] && a[l] == front[l]);
            }
        }
        assert(records.drop_last()[p] == records[p]);
        lemma_records_distinct(records.drop_last(), p, x, y);
    }
}

/// Every CPU of a node record is online.
proof fn lemma_kept_online(online: Seq<CpuId>, cpus: Seq<CpuId>, c: CpuId)
    requires
        kept_cpus(online, cpus).contains(c),
    ensures
        online.contains(c),
{
    lemma_cpu_leq_total();
    let kept = cpus.filter(is_online(online));
    kept.lemma_sort_by_ensures(cpu_leq());
    assert(kept.contains(c));
    let k = choose|k: int| 0 <= k < kept.len() && kept[k] == c;
    cpus.lemma_filter_pred(is_online(online), k);
}

/// In a checked NUMA layout whose memberships name distinct nodes, node
/// identifiers are strictly ascending, every node lists only online CPUs,
/// and a node lists a CPU exactly when the CPU's membership names that
/// node.
pub proof fn lemma_layout_nodes(
    online: Seq<CpuId>,
    memberships: Seq<(NumaNodeId, Seq<CpuId>)>,
    nodes: Vec<NumaNode>,
    map: Vec<(CpuId, NumaNodeId)>,
)
    requires
        distinct_nodes(memberships),
        numa_layout_result(online, memberships, Ok((nodes, map))),
    ensures
        forall|i: int, j: int| 0 <= i < j < nodes@.len() ==> (#[trigger] nodes@[i])@.0@ < (#[trigger] nodes@[j])@.0@,
        forall|i: int, c: CpuId| 0 <= i < nodes@.len() && #[trigger] nodes@[i]@.1.contains(c) ==> online.contains(c),
        forall|k: int, i: int| 0 <= k < map@.len() && 0 <= i < nodes@.len() ==>
            ((#[trigger] nodes@[i])@.1.contains((#[trigger] map@[k]).0) <==> nodes@[i]@.0 == map@[k].1),
        forall|k: int, l: int| 0 <= k < l < map@.len() ==> (#[trigger] map@[k]).0 != (#[trigger] map@[l]).0,
        forall|i: int, x: int, y: int| 0 <= i < nodes@.len() && 0 <= x < y < nodes@[i]@.1.len()
            ==> (#[trigger] nodes@[i]@.1[x])@ < (#[trigger] nodes@[i]@.1[y])@,
        nodes@.len() == memberships.len(),
        forall|c: CpuId| #[trigger] online.contains(c) <==> exists|k: int| 0 <= k < map@.len() && (#[trigger] map@[k]).0 == c,
        forall|i: int| 0 <= i < nodes@.len() ==> exists|p: int| 0 <= p < memberships.len()
            && (#[trigger] nodes@[i])@ == (memberships[p].0, kept_cpus(online, memberships[p].1)),
{
    broadcast use vstd::seq_lib::group_to_multiset_ensures;
    broadcast use vstd::multiset::group_multiset_axioms;
    let records = node_records(online, memberships);
    let a = assignments(records);
    let nv = nodes@.map_values(|n: NumaNode| n@);
    assert(nv.to_multiset() == records.to_multiset());
    assert(records.no_duplicates()) by {
        assert forall|i: int, j: int| 0 <= i < records.len() && 0 <= j < records.len() && i != j
            implies records[i] != records[j] by {
            assert(records[i].0 == memberships[i].0 && records[j].0 == memberships[j].0);
        }
    }
    records.lemma_multiset_has_no_duplicates();
    // Each node record is one of the membership records.
    assert forall|i: int| 0 <= i < nodes@.len() implies exists|p: int|
        0 <= p < records.len() && #[trigger] records[p] == (#[trigger] nodes@[i])@ by {
        assert(nv[i] == nodes@[i]@);
        assert(nv.contains(nv[i]));
        assert(records.to_multiset().count(nv[i]) > 0);
    }
    assert(nv.len() == records.len()) by {
        assert(nv.to_multiset().len() == records.to_multiset().len());
    }
    assert forall|i: int| 0 <= i < nodes@.len() implies exists|p: int| 0 <= p < memberships.len()
        && (#[trigger] nodes@[i])@ == (memberships[p].0, kept_cpus(online, memberships[p].1)) by {
        let p = choose|p: int| 0 <= p < records.len() && #[trigger] records[p] == nodes@[i]@;
        assert(records[p] == (memberships[p].0, kept_cpus(online, memberships[p].1)));
    }
    assert forall|i: int, j: int| 0 <= i < j < nodes@.len() implies (#[trigger] nodes@[i])@.0@ < (#[trigger] nodes@[j])@.0@ by {
        let p = choose|p: int| 0 <= p < records.len() && #[trigger] records[p] == nodes@[i]@;
        let q = choose|q: int| 0 <= q < records.len() && #[trigger] records[q] == nodes@[j]@;
        if nodes@[i]@.0 == nodes@[j]@.0 {
            assert(records[p].0 == memberships[p].0 && records[q].0 == memberships[q].0);
            assert(p == q);
            let x = nv[i];
            assert(nv[j] == x);
            assert(nv.remove(i).to_multiset() == nv.to_multiset().remove(x));
            assert(nv.remove(i)[j - 1] == x);
            assert(nv.remove(i).contains(x));
            assert(nv.remove(i).to_multiset().count(x) > 0);
            assert(nv.to_multiset().remove(x).count(x) > 0);
            assert(nv.to_multiset().count(x) >= 2);
            assert(records[p] == x);
            assert(records.contains(x));
            assert(records.to_multiset().contains(x));
            assert(records.to_multiset().count(x) == 1);
            assert(false);
        }
        assert(nodes@[i]@.0@ <= nodes@[j]@.0@);
    }
    assert forall|i: int, x: int, y: int| 0 <= i < nodes@.len() && 0 <= x < y < nodes@[i]@.1.len()
        implies (#[trigger] nodes@[i]@.1[x])@ < (#[trigger] nodes@[i]@.1[y])@ by {
        let p = choose|p: int| 0 <= p < records.len() && #[trigger] records[p] == nodes@[i]@;
        lemma_cpu_leq_total();
        let kept = memberships[p].1.filter(is_online(online));
        kept.lemma_sort_by_ensures(cpu_leq());
        assert(records[p].1 == kept.sort_by(cpu_leq()));
        assert(sorted_by(records[p].1, cpu_leq()));
        assert(cpu_leq()(records[p].1[x], records[p].1[y]));
        lemma_records_distinct(records, p, x, y);
    }
    assert forall|c: CpuId| #[trigger] online.contains(c) <==> exists|k: int| 0 <= k < map@.len() && (#[trigger] map@[k]).0 == c by {
        if online.contains(c) {
            let j = choose|j: int| 0 <= j < online.len() && online[j] == c;
            assert(assigned(a, online[j]));
            let k = choose|k: int| 0 <= k < a.len() && (#[trigger] a[k]).0 == online[j];
            assert(map@[k].0 == c);
        }
        if exists|k: int| 0 <= k < map@.len() && (#[trigger] map@[k]).0 == c {
            let k = choose|k: int| 0 <= k < map@.len() && (#[trigger] map@[k]).0 == c;
            let n = a[k].1;
            assert(a.contains((c, n)));
            lemma_assignments_contains(records, c, n);
            let q = choose|q: int| 0 <= q < records.len() && (#[trigger] records[q]).0 == n && records[q].1.contains(c);
            lemma_kept_online(online, memberships[q].1, c);
        }
    }
    assert forall|i: int, c: CpuId| 0 <= i < nodes@.len() && #[trigger] nodes@[i]@.1.contains(c) implies online.contains(c) by {
        let p = choose|p: int| 0 <= p < records.len() && #[trigger] records[p] == nodes@[i]@;
        lemma_kept_online(online, memberships[p].1, c);
    }
    assert forall|k: int, i: int| 0 <= k < map@.len() && 0 <= i < nodes@.len() implies
        ((#[trigger] nodes@[i])@.1.contains((#[trigger] map@[k]).0) <==> nodes@[i]@.0 == map@[k].1) by {
        let p = choose|p: int| 0 <= p < records.len() && #[trigger] records[p] == nodes@[i]@;
        let c = map@[k].0;
        let n = map@[k].1;
        assert(a[k] == (c, n));
        lemma_assignments_contains(records, c, nodes@[i]@.0);
        lemma_assignments_contains(records, c, n);
        if nodes@[i]@.1.contains(c) {
            assert(a.contains((c, nodes@[i]@.0)));
            let l = choose|l: int| 0 <= l < a.len() && a[l] == (c, nodes@[i]@.0);
            assert(a[l].0 == a[k].0);
            if l != k {
                assert(false);
            }
        }
        if nodes@[i]@.0 == n {
            assert(a.contains((c, n)));
            let q = choose|q: int| 0 <= q < records.len() && (#[trigger] records[q]).0 == n && records[q].1.contains(c);
            assert(records[p].0 == memberships[p].0 && records[q].0 == memberships[q].0);
            assert(p == q);
        }
    }
}

/// A topology assembled from a checked NUMA layout whose memberships name
/// distinct nodes: node identifiers are strictly ascending, every CPU a
/// node lists is one of the topology's logical CPUs, and a node lists a
/// logical CPU exactly when that CPU names the node.
pub proof fn lemma_assembled_topology(
    online: Seq<CpuId>,
    memberships: Seq<(NumaNodeId, Seq<CpuId>)>,
    nodes: Vec<NumaNode>,
    map: Vec<(CpuId, NumaNodeId)>,
    cores: Seq<CoreId>,
    t: Topology,
)
    requires
        distinct_nodes(memberships),
        numa_layout_result(online, memberships, Ok((nodes, map))),
        assembly_result(online, cores, nodes@, map@, Ok(t)),
    ensures
        forall|i: int, j: int| 0 <= i < j < t.spec_numa_nodes().len()
            ==> (#[trigger] t.spec_numa_nodes()[i])@.0@ < (#[trigger] t.spec_numa_nodes()[j])@.0@,
        forall|i: int, c: CpuId| 0 <= i < t.spec_numa_nodes().len() && #[trigger] t.spec_numa_nodes()[i]@.1.contains(c)
            ==> exists|k: int| 0 <= k < t.spec_logical_cpus().len() && (#[trigger] t.spec_logical_cpus()[k])@.0 == c,
        forall|k: int, i: int| 0 <= k < t.spec_logical_cpus().len() && 0 <= i < t.spec_numa_nodes().len() ==>
            ((#[trigger] t.spec_numa_nodes()[i])@.1.contains((#[trigger] t.spec_logical_cpus()[k])@.0)
                <==> t.spec_numa_nodes()[i]@.0 == t.spec_logical_cpus()[k]@.2),
{
    lemma_layout_nodes(online, memberships, nodes, map);
    let cpus = t.spec_logical_cpus();
    assert forall|i: int, c: CpuId| 0 <= i < t.spec_numa_nodes().len() && #[trigger] t.spec_numa_nodes()[i]@.1.contains(c)
        implies exists|k: int| 0 <= k < cpus.len() && (#[trigger] cpus[k])@.0 == c by {
        assert(nodes@[i]@.1.contains(c));
        assert(online.contains(c));
        let k = choose|k: int| 0 <= k < online.len() && online[k] == c;
        assert(cpus[k]@.0 == online[k]);
    }
    assert forall|k: int, i: int| 0 <= k < cpus.len() && 0 <= i < t.spec_numa_nodes().len() implies
        ((#[trigger] t.spec_numa_nodes()[i])@.1.contains((#[trigger] cpus[k])@.0) <==> t.spec_numa_nodes()[i]@.0 == cpus[k]@.2) by {
        let c = cpus[k]@;
        assert(c.0 == online[k] && map@.contains((online[k], c.2)));
        let l = choose|l: int| 0 <= l < map@.len() && map@[l] == (online[k], c.2);
        assert(nodes@[i]@.1.contains(map@[l].0) <==> nodes@[i]@.0 == map@[l].1);
    }
}

} // verus!
