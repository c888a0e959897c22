use weave::topology::discovery::topology_fixture;
use weave::topology::{CoreId, CpuId, NumaNodeId, PackageId, Topology};
use weave::{WorkerLayout, WorkerPlacement};

fn sample_topology() -> Topology {
    topology_fixture(&[
        (CpuId::new(0), CoreId::new(PackageId::new(0), 0), NumaNodeId::new(0)),
        (CpuId::new(2), CoreId::new(PackageId::new(0), 1), NumaNodeId::new(0)),
        (CpuId::new(7), CoreId::new(PackageId::new(1), 0), NumaNodeId::new(4)),
        (CpuId::new(8), CoreId::new(PackageId::new(0), 0), NumaNodeId::new(0)),
    ])
}

#[test]
fn one_per_logical_cpu_creates_contiguous_worker_indices() {
    let topology = sample_topology();

    let layout = WorkerLayout::one_per_logical_cpu(&topology);

    assert_eq!(layout.worker_count(), 4);
    assert!(!layout.is_empty());
    assert_eq!(
        layout
            .workers()
            .iter()
            .map(WorkerPlacement::worker_index)
            .collect::<Vec<_>>(),
        vec![0, 1, 2, 3]
    );
}

#[test]
fn one_per_logical_cpu_preserves_cpu_order_and_hardware_relations() {
    let topology = sample_topology();

    let layout = WorkerLayout::one_per_logical_cpu(&topology);

    assert_eq!(
        layout
            .workers()
            .iter()
            .map(|worker| (worker.cpu(), worker.core_id(), worker.package(), worker.numa_node()))
            .collect::<Vec<_>>(),
        vec![
            (CpuId::new(0), CoreId::new(PackageId::new(0), 0), PackageId::new(0), NumaNodeId::new(0)),
            (CpuId::new(2), CoreId::new(PackageId::new(0), 1), PackageId::new(0), NumaNodeId::new(0)),
            (CpuId::new(7), CoreId::new(PackageId::new(1), 0), PackageId::new(1), NumaNodeId::new(4)),
            (CpuId::new(8), CoreId::new(PackageId::new(0), 0), PackageId::new(0), NumaNodeId::new(0)),
        ]
    );
}

#[test]
fn one_per_logical_cpu_keeps_smt_siblings_as_distinct_workers() {
    let topology = sample_topology();

    let layout = WorkerLayout::one_per_logical_cpu(&topology);
    let workers_on_core_zero = layout
        .workers()
        .iter()
        .filter(|worker| worker.core_id() == CoreId::new(PackageId::new(0), 0))
        .map(WorkerPlacement::cpu)
        .collect::<Vec<_>>();

    assert_eq!(workers_on_core_zero, vec![CpuId::new(0), CpuId::new(8)]);
}

#[test]
fn one_per_physical_core_selects_the_first_cpu_of_each_core() {
    let topology = sample_topology();

    let layout = WorkerLayout::one_per_physical_core(&topology);

    assert_eq!(layout.worker_count(), 3);
    assert_eq!(
        layout
            .workers()
            .iter()
            .map(WorkerPlacement::cpu)
            .collect::<Vec<_>>(),
        vec![CpuId::new(0), CpuId::new(2), CpuId::new(7)]
    );
    assert!(!layout.workers().iter().any(|worker| worker.cpu() == CpuId::new(8)));
}

#[test]
fn one_per_physical_core_creates_contiguous_worker_indices() {
    let topology = sample_topology();

    let layout = WorkerLayout::one_per_physical_core(&topology);

    assert_eq!(
        layout
            .workers()
            .iter()
            .map(WorkerPlacement::worker_index)
            .collect::<Vec<_>>(),
        vec![0, 1, 2]
    );
}

#[test]
fn one_per_physical_core_distinguishes_equal_core_numbers_across_packages() {
    let topology = sample_topology();

    let layout = WorkerLayout::one_per_physical_core(&topology);
    let local_core_zero = layout
        .workers()
        .iter()
        .filter(|worker| worker.core_id().get() == 0)
        .map(|worker| (worker.cpu(), worker.package(), worker.numa_node()))
        .collect::<Vec<_>>();

    assert_eq!(
        local_core_zero,
        vec![
            (CpuId::new(0), PackageId::new(0), NumaNodeId::new(0)),
            (CpuId::new(7), PackageId::new(1), NumaNodeId::new(4)),
        ]
    );
}

#[test]
fn an_empty_topology_gives_empty_layouts() {
    let topology = topology_fixture(&[]);
    assert!(WorkerLayout::one_per_logical_cpu(&topology).is_empty());
    assert_eq!(WorkerLayout::one_per_physical_core(&topology).worker_count(), 0);
}

#[test]
fn one_worker_per_physical_core_matches_the_core_count() {
    let topology = sample_topology();
    let layout = WorkerLayout::one_per_physical_core(&topology);
    assert_eq!(layout.worker_count(), topology.physical_core_count());
    let mut cores = layout.workers().iter().map(|w| w.core_id()).collect::<Vec<_>>();
    cores.sort();
    cores.dedup();
    assert_eq!(cores.len(), layout.worker_count());
}
