use weave::builder::{FixedCount, Planned};
use weave::topology::discovery::topology_fixture;
use weave::topology::{CoreId, CpuId, NumaNodeId, PackageId};
use weave::{ThreadPoolBuilder, WorkerLayout};

#[test]
fn count_transitions_preserve_names_and_allow_replacement() {
    let builder: ThreadPoolBuilder<FixedCount> = ThreadPoolBuilder::default()
        .thread_name("before")
        .num_thread(2)
        .num_threads(3);
    assert_eq!(builder.configured_name(), Some("before"));
    assert_eq!(builder.workers().count(), 3);
    let builder = builder.thread_name("after").num_thread(4);
    assert_eq!(builder.configured_name(), Some("after"));
    assert_eq!(builder.workers().count(), 4);
}

#[test]
fn planned_transitions_preserve_names_and_allow_replacement() {
    let core = CoreId::new(PackageId::new(0), 0);
    let topology = topology_fixture(&[
        (CpuId::new(0), core, NumaNodeId::new(0)),
        (CpuId::new(1), core, NumaNodeId::new(0)),
    ]);
    let logical = WorkerLayout::one_per_logical_cpu(&topology);
    let physical = WorkerLayout::one_per_physical_core(&topology);
    let builder: ThreadPoolBuilder<Planned> = ThreadPoolBuilder::new()
        .thread_name("before")
        .worker_layout(logical.clone());
    assert_eq!(builder.workers().layout(), &logical);
    assert_eq!(builder.configured_name(), Some("before"));
    let builder = builder.thread_name("after").worker_layout(physical.clone());
    assert_eq!(builder.workers().layout(), &physical);
    assert_eq!(builder.configured_name(), Some("after"));
}

#[test]
fn configurations_default_to_the_weave_name() {
    let (n, name) = ThreadPoolBuilder::new().into_config(None);
    assert_eq!((n, name.as_str()), (1, "weave"));
    let (n, name) = ThreadPoolBuilder::new().thread_name("x").into_config(Some(6));
    assert_eq!((n, name.as_str()), (6, "x"));
    let (n, name) = ThreadPoolBuilder::new().num_threads(0).into_config();
    assert_eq!((n, name.as_str()), (0, "weave"));
    let layout = WorkerLayout::one_per_logical_cpu(&topology_fixture(&[]));
    let (plan, name) = ThreadPoolBuilder::new().worker_layout(layout.clone()).into_plan();
    assert_eq!(plan, layout);
    assert_eq!(name, "weave");
    assert_eq!(ThreadPoolBuilder::new().configured_name(), None);
    assert_eq!(ThreadPoolBuilder::new().effective_thread_name(), "weave");
}

#[test]
fn workers_are_named_prefix_hyphen_index() {
    let (_, name) = ThreadPoolBuilder::new().thread_name("custom").into_config(Some(2));
    assert_eq!(weave::builder::worker_thread_name(&name, 0), "custom-0");
    assert_eq!(weave::builder::worker_thread_name("weave", 12), "weave-12");
}
