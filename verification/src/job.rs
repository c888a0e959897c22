//! Detached tasks and their scheduling metadata.

use vstd::prelude::*;

verus! {

/// Scheduling preference for queued jobs, without preemption. Continuous
/// high-priority work may starve lower priorities.
#[derive(Debug, Clone, Copy, PartialEq, Eq, Structural, PartialOrd, Ord, Hash)]
pub enum Priority {
    /// Background work.
    Low,
    /// Default preference.
    Normal,
    /// Preferred over normal and low work.
    High,
}

/// The queue slot of each priority: low work first, high work last.
pub open spec fn priority_index(p: Priority) -> int {
    match p {
        Priority::Low => 0,
        Priority::Normal => 1,
        Priority::High => 2,
    }
}

impl Default for Priority {
    /// Normal priority.
    fn default() -> (r: Self)
        ensures
            r == Priority::Normal,
    {
        Priority::Normal
    }
}

impl Priority {
    /// The queue slot of this priority (`Low` is 0, `High` is 2).
    pub fn index(self) -> (r: usize)
        ensures
            r == priority_index(self),
    {
        match self {
            Priority::Low => 0,
            Priority::Normal => 1,
            Priority::High => 2,
        }
    }
}

/// Work that can be run once, on any thread.
pub trait Task: Send {
    /// Whether running the task now is allowed.
    spec fn ready(&self) -> bool;

    /// What holds once the task has run to completion.
    spec fn completed(&self) -> bool;

    /// Runs the task, consuming it.
    fn run_boxed(self: Box<Self>)
        requires
            self.ready(),
        ensures
            self.completed(),
    ;
}

impl<F: FnOnce() + Send> Task for F {
    open spec fn ready(&self) -> bool {
        call_requires(*self, ())
    }

    open spec fn completed(&self) -> bool {
        call_ensures(*self, (), ())
    }

    fn run_boxed(self: Box<Self>) {
        (*self)()
    }
}

/// An owned detached task with scheduling metadata.
pub struct Job {
    task: Box<dyn Task>,
    priority: Priority,
    label: Option<&'static str>,
}

impl Job {
    /// The stored task can always be run.
    #[verifier::type_invariant]
    spec fn runnable(&self) -> bool {
        self.task.ready()
    }

    /// The job's scheduling priority.
    pub closed spec fn spec_priority(&self) -> Priority {
        self.priority
    }

    /// The job's label, if any.
    pub closed spec fn spec_label(&self) -> Option<&'static str> {
        self.label
    }

    /// The work the job runs.
    pub closed spec fn spec_task(&self) -> Box<dyn Task> {
        self.task
    }

    /// A normal-priority job without label that runs `f`.
    pub fn new<F: FnOnce() + Send + 'static>(f: F) -> (r: Self)
        requires
            call_requires(f, ()),
        ensures
            r.spec_priority() == Priority::Normal,
            r.spec_label() == None::<&'static str>,
            r.spec_task().ready() == call_requires(f, ()),
            r.spec_task().completed() == call_ensures(f, (), ()),
    {
        let task: Box<dyn Task> = Box::new(f);
        Job { task, priority: Priority::Normal, label: None }
    }

    /// The same job with priority `priority`.
    pub fn set_priority(self, priority: Priority) -> (r: Self)
        ensures
            r.spec_priority() == priority,
            r.spec_label() == self.spec_label(),
            r.spec_task() == self.spec_task(),
    {
        let mut job = self;
        proof {
            use_type_invariant(&job);
        }
        job.priority = priority;
        job
    }

    /// The same job with label `label`.
    pub fn set_label(self, label: &'static str) -> (r: Self)
        ensures
            r.spec_label() == Some(label),
            r.spec_priority() == self.spec_priority(),
            r.spec_task() == self.spec_task(),
    {
        let mut job = self;
        proof {
            use_type_invariant(&job);
        }
        job.label = Some(label);
        job
    }

    /// Runs the task on the calling thread, whatever the job's priority or
    /// label: afterwards the task has completed.
    pub fn run(self)
        ensures
            self.spec_task().completed(),
    {
        proof {
            use_type_invariant(&self);
        }
        self.task.run_boxed()
    }

    /// Returns the priority.
    pub fn priority(&self) -> (r: Priority)
        ensures
            r == self.spec_priority(),
    {
        self.priority
    }

    /// Returns the label.
    pub fn label(&self) -> (r: Option<&'static str>)
        ensures
            r == self.spec_label(),
    {
        self.label
    }
}

/// Conversion into a detached task.
pub trait IntoJob {
    /// Whether the value can become a job.
    spec fn convertible(&self) -> bool;

    /// Converts the value.
    fn into_job(self) -> Job
        requires
            self.convertible(),
    ;
}

impl<F: FnOnce() + Send + 'static> IntoJob for F {
    open spec fn convertible(&self) -> bool {
        call_requires(*self, ())
    }

    /// A normal-priority job that runs the closure.
    fn into_job(self) -> (r: Job)
        ensures
            r.spec_priority() == Priority::Normal,
            r.spec_label() == None::<&'static str>,
            r.spec_task().completed() == call_ensures(self, (), ()),
    {
        Job::new(self)
    }
}

impl IntoJob for Job {
    open spec fn convertible(&self) -> bool {
        true
    }

    /// The job itself.
    fn into_job(self) -> (r: Job)
        ensures
            r == self,
    {
        self
    }
}

} // verus!
