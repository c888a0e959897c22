//! Pool configuration whose type records the selected worker policy.
//!
//! Explicit counts and layouts are mutually exclusive: a builder holding a
//! layout has no count method and the other way round. Naming remains
//! available in every state, and repeating the same policy replaces its
//! value. Building from a layout creates one worker per placement and binds
//! each worker to its logical CPU before the pool is returned.

use vstd::prelude::*;
use crate::layout::WorkerLayout;
use crate::text::{decimal, decimal_string};

verus! {

/// Automatic worker-count selection: one worker per available CPU.
#[derive(Debug, Clone, Copy, PartialEq, Eq, Structural)]
pub struct Automatic;

impl Default for Automatic {
    /// The only value.
    fn default() -> (r: Self)
        ensures
            r == Automatic,
    {
        Automatic
    }
}

/// Explicit worker-count selection.
#[derive(Debug, Clone, Copy, PartialEq, Eq, Structural)]
pub struct FixedCount {
    count: usize,
}

impl FixedCount {
    /// The selected number of workers.
    pub closed spec fn spec_count(&self) -> usize {
        self.count
    }

    /// Returns the selected number of workers.
    pub fn count(&self) -> (r: usize)
        ensures
            r == self.spec_count(),
    {
        self.count
    }
}

/// Hardware-placement selection applied when the pool starts.
#[derive(Debug)]
pub struct Planned {
    layout: WorkerLayout,
}

impl Planned {
    /// The selected placement plan.
    pub closed spec fn spec_layout(&self) -> WorkerLayout {
        self.layout
    }

    /// Returns the selected placement plan.
    pub fn layout(&self) -> (r: &WorkerLayout)
        ensures
            *r == self.spec_layout(),
    {
        &self.layout
    }
}

/// Pool configuration whose type records the selected worker policy.
#[derive(Debug)]
pub struct ThreadPoolBuilder<State = Automatic> {
    workers: State,
    thread_name: Option<String>,
}

/// The thread-name prefix used when none was set.
pub open spec fn default_thread_name() -> Seq<char> {
    "weave"@
}

/// The prefix that a pool built from a configuration with name `name` gives
/// its threads.
pub open spec fn effective_name(name: Option<String>) -> Seq<char> {
    match name {
        Some(s) => s@,
        None => default_thread_name(),
    }
}

/// The name of worker `index` of a pool whose thread-name prefix is
/// `prefix`: the prefix, a hyphen, then the index in decimal.
pub fn worker_thread_name(prefix: &str, index: usize) -> (r: String)
    ensures
        r@ == prefix@ + "-"@ + decimal(index as nat),
{
    let mut r = String::from_str(prefix);
    r.append("-");
    let d = decimal_string(index);
    r.append(d.as_str());
    proof {
        assert(r@ =~= prefix@ + "-"@ + decimal(index as nat));
    }
    r
}

impl Default for ThreadPoolBuilder<Automatic> {
    /// Automatic worker count and no name.
    fn default() -> (r: Self)
        ensures
            r.spec_workers() == Automatic,
            r.spec_thread_name() is None,
    {
        ThreadPoolBuilder { workers: Automatic, thread_name: None }
    }
}

impl<State> ThreadPoolBuilder<State> {
    /// The worker policy.
    pub closed spec fn spec_workers(&self) -> State {
        self.workers
    }

    /// The thread-name prefix set so far.
    pub closed spec fn spec_thread_name(&self) -> Option<String> {
        self.thread_name
    }

    /// Sets the worker-name prefix, keeping the worker policy.
    pub fn thread_name(self, name: &str) -> (r: Self)
        ensures
            r.spec_workers() == self.spec_workers(),
            r.spec_thread_name() matches Some(s) && s@ == name@,
    {
        ThreadPoolBuilder { workers: self.workers, thread_name: Some(String::from_str(name)) }
    }

    /// Returns the worker policy.
    pub fn workers(&self) -> (r: &State)
        ensures
            *r == self.spec_workers(),
    {
        &self.workers
    }

    /// Returns the thread-name prefix set so far.
    pub fn configured_name(&self) -> (r: Option<&str>)
        ensures
            match self.spec_thread_name() {
                Some(s) => r matches Some(t) && t@ == s@,
                None => r is None,
            },
    {
        match &self.thread_name {
            Some(s) => Some(s.as_str()),
            None => None,
        }
    }

    /// Returns the prefix a pool built now would give its threads: the
    /// configured one, or `weave`.
    pub fn effective_thread_name(&self) -> (r: String)
        ensures
            r@ == effective_name(self.spec_thread_name()),
    {
        match &self.thread_name {
            Some(s) => String::from_str(s.as_str()),
            None => String::from_str("weave"),
        }
    }
}

impl ThreadPoolBuilder<Automatic> {
    /// Automatic worker count (the available CPU parallelism) and the name
    /// `weave`.
    pub fn new() -> (r: Self)
        ensures
            r.spec_workers() == Automatic,
            r.spec_thread_name() is None,
    {
        ThreadPoolBuilder { workers: Automatic, thread_name: None }
    }

    /// Selects `n` workers, keeping the name; zero is rejected when the
    /// pool is built.
    pub fn num_threads(self, n: usize) -> (r: ThreadPoolBuilder<FixedCount>)
        ensures
            r.spec_workers().spec_count() == n,
            r.spec_thread_name() == self.spec_thread_name(),
    {
        ThreadPoolBuilder { workers: FixedCount { count: n }, thread_name: self.thread_name }
    }

    /// Another spelling of [`Self::num_threads`].
    pub fn num_thread(self, n: usize) -> (r: ThreadPoolBuilder<FixedCount>)
        ensures
            r.spec_workers().spec_count() == n,
            r.spec_thread_name() == self.spec_thread_name(),
    {
        self.num_threads(n)
    }

    /// Selects a placement plan, keeping the name.
    pub fn worker_layout(self, layout: WorkerLayout) -> (r: ThreadPoolBuilder<Planned>)
        ensures
            r.spec_workers().spec_layout() == layout,
            r.spec_thread_name() == self.spec_thread_name(),
    {
        ThreadPoolBuilder { workers: Planned { layout }, thread_name: self.thread_name }
    }

    /// The worker count and thread-name prefix of the pool to build, given
    /// the available parallelism (`None` when it is unknown, which gives
    /// one worker).
    pub fn into_config(self, available: Option<usize>) -> (r: (usize, String))
        ensures
            r.0 == match available {
                Some(n) => n,
                None => 1,
            },
            r.1@ == effective_name(self.spec_thread_name()),
    {
        let name = self.effective_thread_name();
        let n = match available {
            Some(n) => n,
            None => 1,
        };
        (n, name)
    }
}

impl ThreadPoolBuilder<FixedCount> {
    /// Replaces the worker count; zero is rejected when the pool is built.
    pub fn num_threads(self, n: usize) -> (r: Self)
        ensures
            r.spec_workers().spec_count() == n,
            r.spec_thread_name() == self.spec_thread_name(),
    {
        ThreadPoolBuilder { workers: FixedCount { count: n }, thread_name: self.thread_name }
    }

    /// Another spelling of [`Self::num_threads`].
    pub fn num_thread(self, n: usize) -> (r: Self)
        ensures
            r.spec_workers().spec_count() == n,
            r.spec_thread_name() == self.spec_thread_name(),
    {
        self.num_threads(n)
    }

    /// The worker count and thread-name prefix of the pool to build.
    pub fn into_config(self) -> (r: (usize, String))
        ensures
            r.0 == self.spec_workers().spec_count(),
            r.1@ == effective_name(self.spec_thread_name()),
    {
        let name = self.effective_thread_name();
        (self.workers.count, name)
    }
}

impl ThreadPoolBuilder<Planned> {
    /// Replaces the placement plan, keeping the name.
    pub fn worker_layout(self, layout: WorkerLayout) -> (r: Self)
        ensures
            r.spec_workers().spec_layout() == layout,
            r.spec_thread_name() == self.spec_thread_name(),
    {
        ThreadPoolBuilder { workers: Planned { layout }, thread_name: self.thread_name }
    }

    /// The placement plan and thread-name prefix of the pool to build.
    pub fn into_plan(self) -> (r: (WorkerLayout, String))
        ensures
            r.0 == self.spec_workers().spec_layout(),
            r.1@ == effective_name(self.spec_thread_name()),
    {
        let name = self.effective_thread_name();
        (self.workers.layout, name)
    }
}

} // verus!
