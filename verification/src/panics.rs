//! How task panics are reported: which panic a `join` or a scope propagates,
//! and which panic payload a scope keeps.

use vstd::prelude::*;

verus! {

/// How a `join` of two branches ends.
#[derive(Debug, Clone, Copy, PartialEq, Eq, Structural)]
pub enum JoinExit {
    /// Both branches returned: give back both values.
    Values,
    /// Propagate the left branch's panic (after discarding the right
    /// outcome).
    ResumeLeft,
    /// Propagate the right branch's panic (after discarding the left value).
    ResumeRight,
}

/// How a `join` ends once both branches have finished: the left panic
/// wins when both panicked.
pub fn join_exit(left_panicked: bool, right_panicked: bool) -> (r: JoinExit)
    ensures
        r == if left_panicked {
            JoinExit::ResumeLeft
        } else if right_panicked {
            JoinExit::ResumeRight
        } else {
            JoinExit::Values
        },
{
    if left_panicked {
        JoinExit::ResumeLeft
    } else if right_panicked {
        JoinExit::ResumeRight
    } else {
        JoinExit::Values
    }
}

/// How a scope ends once all its tasks have finished.
#[derive(Debug, Clone, Copy, PartialEq, Eq, Structural)]
pub enum ScopeExit {
    /// Return the body's value.
    Value,
    /// Propagate the body's panic (after discarding any task panic).
    ResumeBody,
    /// Propagate the first task panic (after discarding the body's value).
    ResumeTask,
    /// Panic because a failed submission was never joined (after discarding
    /// the body's value).
    UnjoinedFailure,
}

/// How a scope ends: a panic of the body takes precedence, then the first
/// panic of a spawned task, then a failed submission that nobody joined.
pub fn scope_exit(body_panicked: bool, task_panicked: bool, unjoined_failure: bool) -> (r: ScopeExit)
    ensures
        r == if body_panicked {
            ScopeExit::ResumeBody
        } else if task_panicked {
            ScopeExit::ResumeTask
        } else if unjoined_failure {
            ScopeExit::UnjoinedFailure
        } else {
            ScopeExit::Value
        },
{
    if body_panicked {
        ScopeExit::ResumeBody
    } else if task_panicked {
        ScopeExit::ResumeTask
    } else if unjoined_failure {
        ScopeExit::UnjoinedFailure
    } else {
        ScopeExit::Value
    }
}

/// The first panic payload of a group of tasks; later ones are handed back
/// to be discarded.
pub struct PanicSlot<P> {
    first: Option<P>,
}

impl<P> PanicSlot<P> {
    /// The kept payload.
    pub closed spec fn spec_first(&self) -> Option<P> {
        self.first
    }

    /// An empty slot.
    pub fn new() -> (r: Self)
        ensures
            r.spec_first() is None,
    {
        PanicSlot { first: None }
    }

    /// Keeps `payload` when the slot is empty; otherwise hands it back.
    pub fn record(&mut self, payload: P) -> (r: Option<P>)
        ensures
            match old(self).spec_first() {
                None => final(self).spec_first() == Some(payload) && r is None,
                Some(p) => final(self).spec_first() == Some(p) && r == Some(payload),
            },
    {
        if self.first.is_none() {
            self.first = Some(payload);
            None
        } else {
            Some(payload)
        }
    }

    /// Whether a payload is kept.
    pub fn is_set(&self) -> (r: bool)
        ensures
            r == self.spec_first() is Some,
    {
        self.first.is_some()
    }

    /// Removes and returns the kept payload.
    pub fn take(&mut self) -> (r: Option<P>)
        ensures
            r == old(self).spec_first(),
            final(self).spec_first() is None,
    {
        let mut out: Option<P> = None;
        std::mem::swap(&mut out, &mut self.first);
        out
    }
}

/// The tasks of one scope: how many are unfinished, and the first panic
/// among them.
pub struct TaskGroup<P> {
    pending: usize,
    panic: PanicSlot<P>,
}

impl<P> TaskGroup<P> {
    /// Tasks started and not yet finished.
    pub closed spec fn spec_pending(&self) -> usize {
        self.pending
    }

    /// The first panic payload kept.
    pub closed spec fn spec_panic(&self) -> Option<P> {
        self.panic.spec_first()
    }

    /// A group with no task and no panic.
    pub fn new() -> (r: Self)
        ensures
            r.spec_pending() == 0,
            r.spec_panic() is None,
    {
        TaskGroup { pending: 0, panic: PanicSlot::new() }
    }

    /// Counts one more started task.
    pub fn start(&mut self)
        requires
            old(self).spec_pending() < usize::MAX,
        ensures
            final(self).spec_pending() == old(self).spec_pending() + 1,
            final(self).spec_panic() == old(self).spec_panic(),
    {
        self.pending = self.pending + 1;
    }

    /// Records a task's panic: the first is kept, a later one is handed
    /// back to be discarded.
    pub fn record_panic(&mut self, payload: P) -> (r: Option<P>)
        ensures
            final(self).spec_pending() == old(self).spec_pending(),
            match old(self).spec_panic() {
                None => final(self).spec_panic() == Some(payload) && r is None,
                Some(p) => final(self).spec_panic() == Some(p) && r == Some(payload),
            },
    {
        self.panic.record(payload)
    }

    /// Counts one started task as finished.
    pub fn finish(&mut self)
        requires
            old(self).spec_pending() > 0,
        ensures
            final(self).spec_pending() == old(self).spec_pending() - 1,
            final(self).spec_panic() == old(self).spec_panic(),
    {
        self.pending = self.pending - 1;
    }

    /// Returns the number of unfinished tasks.
    pub fn pending(&self) -> (r: usize)
        ensures
            r == self.spec_pending(),
    {
        self.pending
    }

    /// Whether every started task has finished.
    pub fn is_idle(&self) -> (r: bool)
        ensures
            r == (self.spec_pending() == 0),
    {
        self.pending == 0
    }

    /// Removes and returns the kept panic payload.
    pub fn take_panic(&mut self) -> (r: Option<P>)
        ensures
            r == old(self).spec_panic(),
            final(self).spec_panic() is None,
            final(self).spec_pending() == old(self).spec_pending(),
    {
        self.panic.take()
    }
}

} // verus!
