use std::sync::atomic::{AtomicUsize, Ordering};
use std::sync::Arc;
use weave::scheduler::{Scheduler, WorkerStep};
use weave::steal::StealPlan;
use weave::topology::discovery::topology_fixture;
use weave::topology::{CoreId, CpuId, NumaNodeId, PackageId};
use weave::{IntoJob, Job, Priority, StealStats, WorkerLayout};

fn scheduler() -> Scheduler {
    // CPU order deliberately differs from proximity order for worker 0.
    let entries = [(0, 0, 0), (1, 0, 1), (0, 1, 0), (0, 0, 0)];
    let entries = entries
        .into_iter()
        .enumerate()
        .map(|(cpu, (package, core, node))| {
            (CpuId::new(cpu), CoreId::new(PackageId::new(package), core), NumaNodeId::new(node))
        })
        .collect::<Vec<_>>();
    let layout = WorkerLayout::one_per_logical_cpu(&topology_fixture(&entries));
    Scheduler::new(StealPlan::topology_aware(&layout))
}

fn job(label: &'static str) -> Job {
    Job::new(|| {}).set_label(label)
}

fn take_label(scheduler: &mut Scheduler, worker: usize) -> &'static str {
    scheduler
        .take(worker)
        .expect("expected a queued job")
        .label()
        .unwrap()
}

#[test]
fn takes_sibling_then_local_node_then_remote_and_counts_only_transfers() {
    let mut scheduler = scheduler();
    let priority = Priority::Normal;
    scheduler.push_local(1, priority, job("remote"));
    scheduler.push_local(2, priority, job("same node"));
    scheduler.push_local(3, priority, job("sibling oldest"));
    scheduler.push_local(3, priority, job("sibling newest"));
    assert_eq!(take_label(&mut scheduler, 0), "sibling oldest");
    assert_eq!(take_label(&mut scheduler, 0), "sibling newest");
    assert_eq!(take_label(&mut scheduler, 0), "same node");
    assert_eq!(take_label(&mut scheduler, 0), "remote");
    assert!(scheduler.take(0).is_none());
    assert_eq!(
        scheduler.steals(),
        StealStats { same_core: 2, same_numa: 1, remote_numa: 1, unknown: 0 }
    );
    assert_eq!(scheduler.steals().total(), 4);
}

#[test]
fn local_lifo_and_global_fifo_precede_stealing_at_equal_priority() {
    let mut scheduler = scheduler();
    let priority = Priority::Normal;
    scheduler.push_local(0, priority, job("local oldest"));
    scheduler.push_local(0, priority, job("local newest"));
    scheduler.push_global(priority, job("global oldest"));
    scheduler.push_global(priority, job("global newest"));
    scheduler.push_local(3, priority, job("stolen"));
    for expected in ["local newest", "local oldest", "global oldest", "global newest"] {
        assert_eq!(take_label(&mut scheduler, 0), expected);
        assert_eq!(scheduler.steals().total(), 0);
    }
    assert_eq!(take_label(&mut scheduler, 0), "stolen");
    assert_eq!(scheduler.steals().same_core, 1);
}

#[test]
fn priority_precedes_queue_locality_and_victim_proximity() {
    let mut scheduler = scheduler();
    scheduler.push_local(0, Priority::Low, job("local low"));
    scheduler.push_global(Priority::Normal, job("global normal"));
    scheduler.push_local(3, Priority::Normal, job("sibling normal"));
    scheduler.push_local(1, Priority::High, job("remote high"));
    for expected in ["remote high", "global normal", "sibling normal", "local low"] {
        assert_eq!(take_label(&mut scheduler, 0), expected);
    }
    assert_eq!(scheduler.steals().total(), 2);
}

#[test]
fn circular_plan_wraps_and_records_unknown_topology() {
    let mut scheduler = scheduler();
    scheduler.set_steal_plan(StealPlan::circular(4));
    for victim in [0, 1, 3] {
        scheduler.push_local(
            victim,
            Priority::Normal,
            job(match victim {
                0 => "zero",
                1 => "one",
                _ => "three",
            }),
        );
    }
    for expected in ["three", "zero", "one"] {
        assert_eq!(take_label(&mut scheduler, 2), expected);
    }
    assert!(scheduler.take(2).is_none());
    assert_eq!(scheduler.steals(), StealStats { unknown: 3, ..Default::default() });
}

#[test]
fn enqueue_routes_by_priority_and_counts_pending() {
    let mut scheduler = Scheduler::new(StealPlan::circular(2));
    scheduler.enqueue(job("outside").set_priority(Priority::High), None);
    scheduler.enqueue(job("inside"), Some(1));
    assert_eq!(scheduler.pending(), 2);
    assert_eq!(take_label(&mut scheduler, 0), "outside");
    assert_eq!(take_label(&mut scheduler, 0), "inside");
    assert_eq!(scheduler.pending(), 2);
    scheduler.complete();
    scheduler.complete();
    assert_eq!(scheduler.pending(), 0);
}

#[test]
fn workers_wait_until_shutdown_and_leave_only_when_drained() {
    let mut scheduler = Scheduler::new(StealPlan::circular(1));
    assert!(matches!(scheduler.next_step(0), WorkerStep::Wait));
    scheduler.enqueue(job("last"), None);
    scheduler.stop();
    assert!(scheduler.is_shutdown());
    let step = scheduler.next_step(0);
    let job = match step {
        WorkerStep::Run(job) => job,
        _ => panic!("queued work must run before shutdown"),
    };
    assert_eq!(job.label(), Some("last"));
    assert!(matches!(scheduler.next_step(0), WorkerStep::Wait));
    scheduler.complete();
    assert!(matches!(scheduler.next_step(0), WorkerStep::Exit));
}

#[test]
fn jobs_run_once_with_their_metadata() {
    let counter = Arc::new(AtomicUsize::new(0));
    let seen = counter.clone();
    let job = (move || {
        seen.fetch_add(1, Ordering::SeqCst);
    })
    .into_job()
    .set_priority(Priority::Low)
    .set_label("count");
    assert_eq!(job.priority(), Priority::Low);
    assert_eq!(job.label(), Some("count"));
    let same = job.into_job();
    assert_eq!(same.priority(), Priority::Low);
    same.run();
    assert_eq!(counter.load(Ordering::SeqCst), 1);
    assert_eq!(Priority::default(), Priority::Normal);
    assert_eq!(
        [Priority::Low.index(), Priority::Normal.index(), Priority::High.index()],
        [0, 1, 2]
    );
}

#[test]
fn an_idle_worker_finds_work_queued_anywhere() {
    for target in 0..4 {
        for taker in 0..4 {
            let mut scheduler = scheduler();
            scheduler.push_local(target, Priority::Low, job("somewhere"));
            assert_eq!(take_label(&mut scheduler, taker), "somewhere");
            assert!(scheduler.take(taker).is_none());
        }
    }
    let mut scheduler = scheduler();
    scheduler.push_global(Priority::High, job("global"));
    assert_eq!(take_label(&mut scheduler, 3), "global");
}

#[test]
fn every_queued_job_is_taken_exactly_once() {
    let labels: [&'static str; 6] = ["a", "b", "c", "d", "e", "f"];
    let mut scheduler = scheduler();
    for (i, label) in labels.iter().enumerate() {
        let priority = [Priority::Low, Priority::Normal, Priority::High][i % 3];
        scheduler.enqueue(job(label).set_priority(priority), if i % 2 == 0 { Some(i % 4) } else { None });
    }
    let mut taken = Vec::new();
    for worker in [2, 0, 3, 1, 2, 2] {
        taken.push(take_label(&mut scheduler, worker));
    }
    assert!((0..4).all(|w| scheduler.take(w).is_none()));
    taken.sort();
    assert_eq!(taken, labels.to_vec());
    assert_eq!(scheduler.pending(), 6);
}
