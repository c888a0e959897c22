use weave::topology::discovery::topology_fixture;
use weave::topology::id_list::{parse_cpu_list, parse_numa_node_list};
use weave::topology::messages::TopologyCause;
use weave::topology::{CoreId, CpuId, NumaNodeId, PackageId, TopologyError};

fn ids(values: &[usize]) -> Vec<CpuId> {
    values.iter().copied().map(CpuId::new).collect()
}

fn node_ids(values: &[usize]) -> Vec<NumaNodeId> {
    values.iter().copied().map(NumaNodeId::new).collect()
}

#[test]
fn parses_one_cpu() {
    assert_eq!(parse_cpu_list("0").unwrap(), ids(&[0]));
}

#[test]
fn parses_non_contiguous_cpu_ids() {
    assert_eq!(parse_cpu_list("0,2,7").unwrap(), ids(&[0, 2, 7]));
}

#[test]
fn parses_an_inclusive_range() {
    assert_eq!(parse_cpu_list("0-3").unwrap(), ids(&[0, 1, 2, 3]));
}

#[test]
fn parses_mixed_ids_ranges_and_trailing_newline() {
    assert_eq!(
        parse_cpu_list("0-3,8,10-11\n").unwrap(),
        ids(&[0, 1, 2, 3, 8, 10, 11])
    );
}

#[test]
fn returns_cpu_ids_in_ascending_order() {
    assert_eq!(parse_cpu_list("7,0,4-5").unwrap(), ids(&[0, 4, 5, 7]));
}

#[test]
fn rejects_empty_input() {
    assert!(parse_cpu_list("").is_err());
}

#[test]
fn rejects_non_numeric_cpu_ids() {
    assert!(parse_cpu_list("0,two,7").is_err());
}

#[test]
fn rejects_descending_ranges() {
    assert!(parse_cpu_list("3-1").is_err());
}

#[test]
fn rejects_ranges_with_too_many_bounds() {
    assert!(parse_cpu_list("1-2-3").is_err());
}

#[test]
fn rejects_empty_list_elements() {
    assert!(parse_cpu_list("0,,2").is_err());
}

#[test]
fn rejects_duplicate_cpu_ids() {
    assert!(parse_cpu_list("0-2,2").is_err());
}

#[test]
fn parses_non_contiguous_numa_node_ids_and_ranges() {
    assert_eq!(
        parse_numa_node_list("0-1,4\n").unwrap(),
        node_ids(&[0, 1, 4])
    );
}

#[test]
fn counts_distinguish_smt_cores_and_packages() {
    let package_0 = PackageId::new(0);
    let package_1 = PackageId::new(1);
    let node_0 = NumaNodeId::new(0);
    let node_1 = NumaNodeId::new(1);
    let topology = topology_fixture(&[
        (CpuId::new(0), CoreId::new(package_0, 0), node_0),
        (CpuId::new(8), CoreId::new(package_0, 0), node_0),
        (CpuId::new(2), CoreId::new(package_0, 1), node_0),
        (CpuId::new(7), CoreId::new(package_1, 0), node_1),
    ]);
    assert_eq!(topology.logical_cpu_count(), 4);
    assert_eq!(topology.physical_core_count(), 3);
    assert_eq!(topology.package_count(), 2);
    assert_eq!(topology.numa_node_count(), 2);
    assert_eq!(topology.logical_cpus()[0].package(), package_0);
    assert_eq!(
        topology.numa_nodes()[0].cpus(),
        &[CpuId::new(0), CpuId::new(2), CpuId::new(8)]
    );
}

#[test]
fn list_errors_name_the_broken_rule() {
    let cases = [
        ("3-1", "3-1", "La fin de la range des cpu est inférieur au début: start > end"),
        ("1-2-3", "1-2-3", "La range de cpu id devrait avoir que 2 borne"),
        ("0,x-2", "x-2", "Impossible de parse l'id cpu"),
        ("0,two", "two", "Impossible de parse l'id du cpu"),
        ("0-2,2", "0-2,2", "Les doublons de cpu id ne sont pas accepter"),
    ];
    for (input, bad, why) in cases {
        match parse_cpu_list(input) {
            Err(TopologyError::InvalidIdList { input: element, reason }) => {
                assert_eq!(element, bad);
                assert_eq!(reason, why);
            }
            other => panic!("unexpected result {other:?}"),
        }
    }
}

#[test]
fn elements_are_not_trimmed_and_ranges_may_be_single() {
    assert!(parse_cpu_list(" 5 , 1 \n").is_err());
    assert_eq!(parse_cpu_list(" 5,1 \n").unwrap(), ids(&[1, 5]));
    assert_eq!(parse_cpu_list("4-4").unwrap(), ids(&[4]));
    assert!(parse_cpu_list("99999999999999999999999").is_err());
}

#[test]
fn fixture_groups_cpus_by_ascending_node() {
    let core = CoreId::new(PackageId::new(0), 0);
    let topology = topology_fixture(&[
        (CpuId::new(5), core, NumaNodeId::new(3)),
        (CpuId::new(1), core, NumaNodeId::new(0)),
        (CpuId::new(2), core, NumaNodeId::new(3)),
    ]);
    let nodes = topology.numa_nodes();
    assert_eq!(nodes.len(), 2);
    assert_eq!(nodes[0].id(), NumaNodeId::new(0));
    assert_eq!(nodes[0].cpus(), &[CpuId::new(1)]);
    assert_eq!(nodes[1].id(), NumaNodeId::new(3));
    assert_eq!(nodes[1].cpus(), &[CpuId::new(2), CpuId::new(5)]);
    assert_eq!(topology.logical_cpus()[0].id(), CpuId::new(5));
    assert_eq!(topology.physical_core_count(), 1);
}

#[test]
fn identifiers_keep_their_values() {
    assert_eq!(CpuId::new(9).get(), 9);
    assert_eq!(PackageId::new(-1).get(), -1);
    let core = CoreId::new(PackageId::new(2), 5);
    assert_eq!(core.get(), 5);
    assert_eq!(core.package(), PackageId::new(2));
    assert_ne!(CoreId::new(PackageId::new(0), 0), CoreId::new(PackageId::new(1), 0));
    assert_eq!(NumaNodeId::new(4).get(), 4);
}

#[test]
fn topology_errors_describe_the_failure() {
    assert_eq!(
        TopologyError::UnsupportedPlatform.message(),
        "hardware topology discovery is unsupported on this platform"
    );
    let twice = TopologyError::CpuInMultipleNumaNodes {
        cpu: CpuId::new(2),
        first: NumaNodeId::new(0),
        second: NumaNodeId::new(1),
    };
    assert_eq!(twice.message(), "online CPU 2 belongs to both NUMA node 0 and NUMA node 1");
    assert_eq!(
        TopologyError::CpuWithoutNumaNode { cpu: CpuId::new(7) }.message(),
        "online CPU 7 does not belong to any NUMA node"
    );
    let list = parse_cpu_list("3-1").unwrap_err();
    assert_eq!(
        list.message(),
        "invalid operating-system identifier list \"3-1\": La fin de la range des cpu est inférieur au début: start > end"
    );
    assert!(list.source().is_none());
    let io = TopologyError::Io { path: "cpu/online".into(), error: std::io::Error::from_raw_os_error(2) };
    assert!(io.message().starts_with("cannot read topology file cpu/online: "));
    assert!(matches!(io.source(), Some(TopologyCause::Io(e)) if e.raw_os_error() == Some(2)));
    let bad = "x".parse::<i32>().unwrap_err();
    let text = bad.to_string();
    let invalid = TopologyError::InvalidInteger { path: "cpu/cpu3/topology/core_id".into(), value: bad };
    assert_eq!(invalid.message(), format!("invalid integer in topology file cpu/cpu3/topology/core_id: {text}"));
    assert!(matches!(invalid.source(), Some(TopologyCause::Parse(_))));
}

#[test]
fn list_messages_quote_the_input() {
    use_list_message();
}

fn use_list_message() {
    let text = weave::topology::messages::list_error_message("\"a\\nb\"", "rule");
    assert_eq!(text, "invalid operating-system identifier list \"a\\nb\": rule");
    let error = TopologyError::InvalidIdList { input: "a\nb".to_string(), reason: "rule" };
    assert_eq!(error.message(), text);
}

#[test]
fn file_messages_end_with_exactly_the_cause() {
    let io = TopologyError::Io { path: "cpu/online".into(), error: std::io::Error::from_raw_os_error(2) };
    assert_eq!(io.message_with_cause("gone"), "cannot read topology file cpu/online: gone");
    assert_eq!(io.message(), format!("cannot read topology file cpu/online: {}", std::io::Error::from_raw_os_error(2)));
    assert_eq!(
        weave::topology::messages::integer_error_message("/sys/x", "bad"),
        "invalid integer in topology file /sys/x: bad"
    );
    assert_eq!(
        TopologyError::CpuWithoutNumaNode { cpu: CpuId::new(3) }.message_with_cause("ignored"),
        "online CPU 3 does not belong to any NUMA node"
    );
}

#[test]
fn counts_never_exceed_the_finer_level() {
    let core = |p: i32, c: i32| CoreId::new(PackageId::new(p), c);
    let topology = topology_fixture(&[
        (CpuId::new(0), core(0, 0), NumaNodeId::new(0)),
        (CpuId::new(1), core(0, 0), NumaNodeId::new(0)),
        (CpuId::new(2), core(1, 0), NumaNodeId::new(1)),
    ]);
    assert!(topology.package_count() <= topology.physical_core_count());
    assert!(topology.physical_core_count() <= topology.logical_cpu_count());
    assert_eq!((topology.package_count(), topology.physical_core_count(), topology.logical_cpu_count()), (2, 2, 3));
}

#[test]
fn quoted_list_messages_use_the_debug_text() {
    assert_eq!(
        weave::topology::messages::quoted_list_message("1-2-3", "rule"),
        "invalid operating-system identifier list \"1-2-3\": rule"
    );
}
