use std::collections::HashMap;
use std::io;
use weave::topology::discovery::build_numa_layout;
use weave::topology::probe::{DiscoveryStep, TopologyDiscovery};
use weave::topology::sysfs::{integer_from, node_cpus_from, FileRead, SysfsFile};
use weave::topology::{CoreId, CpuId, NumaNode, NumaNodeId, PackageId, Topology, TopologyError};

fn ids(values: &[usize]) -> Vec<CpuId> {
    values.iter().copied().map(CpuId::new).collect()
}

/// Runs discovery over an in-memory file tree. Paths listed in `failing`
/// exist but cannot be read; other missing paths do not exist.
fn discover(files: &[(&str, &str)], failing: &[&str]) -> Result<Topology, TopologyError> {
    let files: HashMap<String, String> =
        files.iter().map(|(p, c)| (p.to_string(), c.to_string())).collect();
    let (mut probe, mut file) = TopologyDiscovery::new();
    loop {
        let path = file.path();
        let read = if failing.contains(&path.as_str()) {
            FileRead::Failed(io::Error::new(io::ErrorKind::Other, "is a directory"))
        } else {
            match files.get(&path) {
                Some(text) => FileRead::Contents(text.clone()),
                None => FileRead::NotFound(io::Error::new(io::ErrorKind::NotFound, "missing")),
            }
        };
        match probe.advance(read) {
            DiscoveryStep::Read(next) => file = next,
            DiscoveryStep::Finished(result) => return result,
        }
    }
}

fn cpu_files(cpu: usize, core: &str, package: &str) -> [(String, String); 2] {
    [
        (format!("cpu/cpu{cpu}/topology/core_id"), core.to_string()),
        (format!("cpu/cpu{cpu}/topology/physical_package_id"), package.to_string()),
    ]
}

#[test]
fn discovers_a_complete_topology_from_synthetic_files() {
    let mut owned: Vec<(String, String)> = vec![
        ("cpu/online".into(), "0,2,7-8\n".into()),
        ("node/online".into(), "4,0\n".into()),
        ("node/node0/cpulist".into(), "0,2,8,99\n".into()),
        ("node/node4/cpulist".into(), "7\n".into()),
    ];
    for (cpu, core, package) in [(0, "0\n", "0\n"), (8, "0\n", "0\n"), (2, "1\n", "0\n"), (7, "0\n", "1\n")] {
        owned.extend(cpu_files(cpu, core, package));
    }
    let files: Vec<(&str, &str)> = owned.iter().map(|(p, c)| (p.as_str(), c.as_str())).collect();

    let topology = discover(&files, &[]).unwrap();

    assert_eq!(topology.logical_cpu_count(), 4);
    assert_eq!(topology.physical_core_count(), 3);
    assert_eq!(topology.package_count(), 2);
    assert_eq!(topology.numa_node_count(), 2);
    assert_eq!(
        topology
            .logical_cpus()
            .iter()
            .map(|cpu| (cpu.id(), cpu.core_id(), cpu.numa_node()))
            .collect::<Vec<_>>(),
        vec![
            (CpuId::new(0), CoreId::new(PackageId::new(0), 0), NumaNodeId::new(0)),
            (CpuId::new(2), CoreId::new(PackageId::new(0), 1), NumaNodeId::new(0)),
            (CpuId::new(7), CoreId::new(PackageId::new(1), 0), NumaNodeId::new(4)),
            (CpuId::new(8), CoreId::new(PackageId::new(0), 0), NumaNodeId::new(0)),
        ]
    );
    assert_eq!(topology.numa_nodes()[0].id(), NumaNodeId::new(0));
    assert_eq!(topology.numa_nodes()[0].cpus(), ids(&[0, 2, 8]));
    assert_eq!(topology.numa_nodes()[1].id(), NumaNodeId::new(4));
    assert_eq!(topology.numa_nodes()[1].cpus(), ids(&[7]));
}

#[test]
fn discovers_one_uniform_node_when_node_online_is_absent() {
    let mut owned: Vec<(String, String)> = vec![("cpu/online".into(), "0,2\n".into())];
    owned.extend(cpu_files(0, "0\n", "0\n"));
    owned.extend(cpu_files(2, "1\n", "0\n"));
    let files: Vec<(&str, &str)> = owned.iter().map(|(p, c)| (p.as_str(), c.as_str())).collect();

    let topology = discover(&files, &[]).unwrap();

    assert_eq!(topology.logical_cpu_count(), 2);
    assert_eq!(topology.numa_node_count(), 1);
    assert_eq!(topology.numa_nodes()[0].id(), NumaNodeId::new(0));
    assert_eq!(topology.numa_nodes()[0].cpus(), ids(&[0, 2]));
    assert!(topology.logical_cpus().iter().all(|cpu| cpu.numa_node() == NumaNodeId::new(0)));
}

#[test]
fn other_node_online_errors_are_reported() {
    let mut owned: Vec<(String, String)> = vec![("cpu/online".into(), "0\n".into())];
    owned.extend(cpu_files(0, "0\n", "0\n"));
    let files: Vec<(&str, &str)> = owned.iter().map(|(p, c)| (p.as_str(), c.as_str())).collect();

    let error = discover(&files, &["node/online"]).unwrap_err();

    assert!(matches!(
        error,
        TopologyError::Io { path, error } if path == "node/online" && error.kind() != io::ErrorKind::NotFound
    ));
}

#[test]
fn missing_and_malformed_files_name_their_path() {
    let missing = discover(&[("cpu/online", "0\n"), ("node/online", "3\n")], &[]).unwrap_err();
    assert!(matches!(missing, TopologyError::Io { path, .. } if path == "node/node3/cpulist"));

    let no_core = discover(&[("cpu/online", "4\n")], &[]).unwrap_err();
    assert!(matches!(no_core, TopologyError::Io { path, .. } if path == "cpu/cpu4/topology/core_id"));

    let bad = integer_from(SysfsFile::CoreNumber(CpuId::new(3)), FileRead::Contents("not-a-core\n".into()))
        .unwrap_err();
    assert!(matches!(bad, TopologyError::InvalidInteger { path, .. } if path == "cpu/cpu3/topology/core_id"));
    assert_eq!(
        integer_from(SysfsFile::PackageNumber(CpuId::new(7)), FileRead::Contents(" -1\n".into())).unwrap(),
        -1
    );

    let listed = node_cpus_from(NumaNodeId::new(4), FileRead::Contents("2,7\n".into())).unwrap();
    assert_eq!(listed, ids(&[2, 7]));
    let invalid = node_cpus_from(NumaNodeId::new(2), FileRead::Contents("0,two,7\n".into())).unwrap_err();
    assert!(matches!(invalid, TopologyError::InvalidIdList { .. }));
    assert_eq!(SysfsFile::NumaNodeCpus(NumaNodeId::new(12)).path(), "node/node12/cpulist");
}

#[test]
fn builds_a_sorted_numa_layout_for_online_cpus() {
    let online_cpus = ids(&[0, 2, 7]);
    let memberships = vec![(NumaNodeId::new(4), ids(&[7])), (NumaNodeId::new(0), ids(&[2, 0]))];

    let (nodes, cpu_to_node) = build_numa_layout(&online_cpus, memberships).unwrap();

    assert_eq!(
        nodes,
        vec![
            NumaNode::from_parts(NumaNodeId::new(0), ids(&[0, 2])),
            NumaNode::from_parts(NumaNodeId::new(4), ids(&[7])),
        ]
    );
    let node_of = |cpu: usize| cpu_to_node.iter().find(|(c, _)| *c == CpuId::new(cpu)).map(|(_, n)| *n);
    assert_eq!(node_of(0), Some(NumaNodeId::new(0)));
    assert_eq!(node_of(2), Some(NumaNodeId::new(0)));
    assert_eq!(node_of(7), Some(NumaNodeId::new(4)));
}

#[test]
fn ignores_offline_cpus_in_numa_memberships() {
    let online_cpus = ids(&[0, 2]);
    let memberships = vec![(NumaNodeId::new(0), ids(&[0, 1, 2, 3]))];

    let (nodes, cpu_to_node) = build_numa_layout(&online_cpus, memberships).unwrap();

    assert_eq!(nodes[0].cpus(), ids(&[0, 2]));
    assert!(!cpu_to_node.iter().any(|(c, _)| *c == CpuId::new(1) || *c == CpuId::new(3)));
}

#[test]
fn rejects_an_online_cpu_present_in_multiple_numa_nodes() {
    let online_cpus = ids(&[0, 2]);
    let memberships = vec![(NumaNodeId::new(0), ids(&[0, 2])), (NumaNodeId::new(1), ids(&[2]))];

    let error = build_numa_layout(&online_cpus, memberships).unwrap_err();

    assert!(matches!(
        error,
        TopologyError::CpuInMultipleNumaNodes { cpu, first, second }
            if cpu == CpuId::new(2) && first == NumaNodeId::new(0) && second == NumaNodeId::new(1)
    ));
}

#[test]
fn rejects_an_online_cpu_without_a_numa_node() {
    let online_cpus = ids(&[0, 2, 7]);
    let memberships = vec![(NumaNodeId::new(0), ids(&[0, 2]))];

    let error = build_numa_layout(&online_cpus, memberships).unwrap_err();

    assert!(matches!(error, TopologyError::CpuWithoutNumaNode { cpu } if cpu == CpuId::new(7)));
}
