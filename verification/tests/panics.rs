use weave::iter::{split_point, MIN_CHUNK_SIZE};
use weave::panics::{join_exit, scope_exit, JoinExit, PanicSlot, ScopeExit, TaskGroup};

#[test]
fn join_propagates_the_left_panic_first() {
    assert_eq!(join_exit(true, true), JoinExit::ResumeLeft);
    assert_eq!(join_exit(true, false), JoinExit::ResumeLeft);
    assert_eq!(join_exit(false, true), JoinExit::ResumeRight);
    assert_eq!(join_exit(false, false), JoinExit::Values);
}

#[test]
fn a_body_panic_takes_precedence_in_a_scope() {
    assert_eq!(scope_exit(true, true, true), ScopeExit::ResumeBody);
    assert_eq!(scope_exit(false, true, true), ScopeExit::ResumeTask);
    assert_eq!(scope_exit(false, false, true), ScopeExit::UnjoinedFailure);
    assert_eq!(scope_exit(false, false, false), ScopeExit::Value);
}

#[test]
fn the_first_task_panic_is_kept() {
    let mut slot = PanicSlot::new();
    assert!(!slot.is_set());
    assert_eq!(slot.record("first"), None);
    assert_eq!(slot.record("second"), Some("second"));
    assert!(slot.is_set());
    assert_eq!(slot.take(), Some("first"));
    assert_eq!(slot.take(), None);
}

#[test]
fn only_long_sources_on_a_worker_are_split() {
    assert_eq!(MIN_CHUNK_SIZE, 512);
    assert_eq!(split_point(512, true), None);
    assert_eq!(split_point(513, true), Some(256));
    assert_eq!(split_point(4097, true), Some(2048));
    assert_eq!(split_point(4097, false), None);
}

#[test]
fn a_task_group_is_idle_once_every_task_finished() {

    let mut group: TaskGroup<&str> = TaskGroup::new();
    assert!(group.is_idle());
    group.start();
    group.start();
    assert_eq!(group.pending(), 2);
    assert_eq!(group.record_panic("first"), None);
    group.finish();
    assert!(!group.is_idle());
    assert_eq!(group.record_panic("second"), Some("second"));
    group.finish();
    assert!(group.is_idle());
    assert_eq!(group.take_panic(), Some("first"));
    assert_eq!(group.take_panic(), None);
}
