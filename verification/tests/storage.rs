use weave::storage::local::{lock_failure, owner_slot};
use weave::WorkerLocalError;

#[test]
fn only_workers_of_the_owning_pool_get_a_slot() {
    assert_eq!(owner_slot(Some((true, 3))), Ok(3));
    assert_eq!(owner_slot(Some((false, 3))), Err(WorkerLocalError::WrongPool));
    assert_eq!(owner_slot(None), Err(WorkerLocalError::WrongPool));
}

#[test]
fn lock_failures_distinguish_reentry_from_poison() {
    assert_eq!(lock_failure(true), WorkerLocalError::AlreadyBorrowed);
    assert_eq!(lock_failure(false), WorkerLocalError::Poisoned);
    assert_eq!(WorkerLocalError::Poisoned.message(), "Poisoned");
    assert_eq!(WorkerLocalError::WrongPool.message(), "WrongPool");
}
