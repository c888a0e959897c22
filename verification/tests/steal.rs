use weave::steal::{Proximity, StealPlan, StealStats};
use weave::topology::discovery::topology_fixture;
use weave::topology::{CoreId, CpuId, NumaNodeId, PackageId};
use weave::WorkerLayout;

fn sample_layout() -> WorkerLayout {
    let topology = topology_fixture(&[
        (CpuId::new(0), CoreId::new(PackageId::new(0), 0), NumaNodeId::new(0)),
        (CpuId::new(1), CoreId::new(PackageId::new(1), 0), NumaNodeId::new(1)),
        (CpuId::new(2), CoreId::new(PackageId::new(0), 1), NumaNodeId::new(0)),
        (CpuId::new(4), CoreId::new(PackageId::new(0), 0), NumaNodeId::new(0)),
        (CpuId::new(6), CoreId::new(PackageId::new(1), 2), NumaNodeId::new(1)),
    ]);
    WorkerLayout::one_per_logical_cpu(&topology)
}

#[test]
fn circular_starts_after_each_worker_and_wraps_around() {
    let plan = StealPlan::circular(4);

    assert_eq!(plan.victims_for(0), &[1, 2, 3]);
    assert_eq!(plan.victims_for(1), &[2, 3, 0]);
    assert_eq!(plan.victims_for(2), &[3, 0, 1]);
    assert_eq!(plan.victims_for(3), &[0, 1, 2]);
}

#[test]
fn topology_aware_prioritizes_core_then_numa_then_remote_workers() {
    let plan = StealPlan::topology_aware(&sample_layout());

    // Worker 3 is its SMT sibling, worker 2 is NUMA-local, and workers 1
    // and 4 are remote. Their relative order follows the layout.
    assert_eq!(plan.victims_for(0), &[3, 2, 1, 4]);
    assert_eq!(plan.victims_for(3), &[0, 2, 1, 4]);

    // Equal local core numbers in different packages are not siblings.
    assert_eq!(plan.victims_for(1), &[4, 0, 2, 3]);
}

#[test]
fn topology_aware_lists_every_other_worker_exactly_once() {
    let layout = sample_layout();
    let plan = StealPlan::topology_aware(&layout);

    for worker in 0..layout.worker_count() {
        let mut actual = plan.victims_for(worker).to_vec();
        actual.sort_unstable();
        let expected = (0..layout.worker_count())
            .filter(|&candidate| candidate != worker)
            .collect::<Vec<_>>();

        assert_eq!(actual, expected);
    }
}

#[test]
fn empty_and_single_worker_plans_have_no_victims() {
    let empty_topology = topology_fixture(&[]);
    let empty_layout = WorkerLayout::one_per_logical_cpu(&empty_topology);
    let single_topology = topology_fixture(&[(
        CpuId::new(7),
        CoreId::new(PackageId::new(2), 3),
        NumaNodeId::new(4),
    )]);
    let single_layout = WorkerLayout::one_per_logical_cpu(&single_topology);

    assert!(StealPlan::circular(0).victim_lists().is_empty());
    assert!(StealPlan::circular(1).victims_for(0).is_empty());
    assert!(StealPlan::topology_aware(&empty_layout).victim_lists().is_empty());
    assert!(StealPlan::topology_aware(&single_layout).victims_for(0).is_empty());
}

#[test]
fn proximity_follows_core_then_node() {
    let plan = StealPlan::topology_aware(&sample_layout());
    assert_eq!(plan.proximity(0, 3), Proximity::SameCore);
    assert_eq!(plan.proximity(0, 2), Proximity::SameNuma);
    assert_eq!(plan.proximity(0, 1), Proximity::RemoteNuma);
    assert_eq!(plan.proximity(1, 4), Proximity::SameNuma);
    assert_eq!(StealPlan::circular(3).proximity(2, 0), Proximity::Unknown);
}

#[test]
fn stats_count_by_proximity_and_saturate() {
    let plan = StealPlan::topology_aware(&sample_layout());
    let mut stats = StealStats::default();
    plan.record_steal(0, 3, &mut stats);
    plan.record_steal(0, 3, &mut stats);
    plan.record_steal(0, 2, &mut stats);
    plan.record_steal(0, 4, &mut stats);
    assert_eq!(stats, StealStats { same_core: 2, same_numa: 1, remote_numa: 1, unknown: 0 });
    assert_eq!(stats.total(), 4);

    let mut full = StealStats { same_core: usize::MAX, same_numa: 1, remote_numa: 0, unknown: 0 };
    full.record(Proximity::SameCore);
    assert_eq!(full.same_core, usize::MAX);
    assert_eq!(full.total(), usize::MAX);
}

#[test]
fn circular_lists_every_other_worker_exactly_once() {
    for n in 0..6 {
        let plan = StealPlan::circular(n);
        for worker in 0..n {
            let mut actual = plan.victims_for(worker).to_vec();
            actual.sort_unstable();
            let expected = (0..n).filter(|&c| c != worker).collect::<Vec<_>>();
            assert_eq!(actual, expected);
        }
    }
}
