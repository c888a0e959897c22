//! The access rules of worker-local storage: which worker's value a caller
//! may use, and why an access is refused.

use vstd::prelude::*;

verus! {

/// Invalid access to worker-local storage.
#[derive(Debug, Clone, Copy, PartialEq, Eq, Structural)]
pub enum WorkerLocalError {
    /// The caller is not a worker of the storage's owning pool.
    WrongPool,
    /// This worker's value is already borrowed (including cooperative
    /// reentry).
    AlreadyBorrowed,
    /// A previous callback panicked while mutating this value.
    Poisoned,
}

impl WorkerLocalError {
    /// The message: the variant's name.
    pub fn message(&self) -> (r: String)
        ensures
            r@ == match *self {
                WorkerLocalError::WrongPool => "WrongPool"@,
                WorkerLocalError::AlreadyBorrowed => "AlreadyBorrowed"@,
                WorkerLocalError::Poisoned => "Poisoned"@,
            },
    {
        match self {
            WorkerLocalError::WrongPool => String::from_str("WrongPool"),
            WorkerLocalError::AlreadyBorrowed => String::from_str("AlreadyBorrowed"),
            WorkerLocalError::Poisoned => String::from_str("Poisoned"),
        }
    }
}

/// The slot a caller may use: `current` is the calling thread's worker
/// index and whether its pool owns the storage, or `None` off the pool.
/// Only a worker of the owning pool gets its own slot.
pub fn owner_slot(current: Option<(bool, usize)>) -> (r: Result<usize, WorkerLocalError>)
    ensures
        match current {
            Some((true, index)) => r == Ok::<usize, WorkerLocalError>(index),
            _ => r == Err::<usize, WorkerLocalError>(WorkerLocalError::WrongPool),
        },
{
    match current {
        Some((true, index)) => Ok(index),
        _ => Err(WorkerLocalError::WrongPool),
    }
}

/// Why a slot could not be locked: it is held (`would_block`), or a
/// callback panicked while holding it.
pub fn lock_failure(would_block: bool) -> (r: WorkerLocalError)
    ensures
        r == if would_block { WorkerLocalError::AlreadyBorrowed } else { WorkerLocalError::Poisoned },
{
    if would_block {
        WorkerLocalError::AlreadyBorrowed
    } else {
        WorkerLocalError::Poisoned
    }
}

} // verus!
