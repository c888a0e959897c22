//! The pool's queues and the rule by which a worker picks its next job.
//!
//! Each worker owns one double-ended queue per priority; work submitted from
//! outside the pool goes to a global queue per priority. A worker looking
//! for work goes through the priorities from high to low and, at each one,
//! takes the newest job of its own queue, else the oldest global job, else
//! the oldest job of the first victim in its stealing plan that has one.

use vstd::prelude::*;
use vstd::multiset::Multiset;
use std::collections::VecDeque;
use crate::job::{priority_index, Job, Priority};
use crate::steal::{stats_after, StealPlan, StealStats};

verus! {

/// The queue a job is taken from.
#[derive(Debug, Clone, Copy, PartialEq, Eq, Structural)]
pub enum Source {
    /// The worker's own queue (newest job first).
    Local,
    /// The global queue (oldest job first).
    Global,
    /// Another worker's queue (oldest job first).
    Stolen(usize),
}

/// The first worker of `victims` whose queue of priority `p` holds a job.
pub open spec fn first_victim(local: Seq<Seq<Seq<Job>>>, victims: Seq<usize>, p: int) -> Option<usize>
    decreases victims.len(),
{
    if victims.len() == 0 {
        None
    } else if local[victims[0] as int][p].len() > 0 {
        Some(victims[0])
    } else {
        first_victim(local, victims.drop_first(), p)
    }
}

/// Where worker `index` takes its next job from, looking at the `levels`
/// lowest priorities, highest first: the queue and the priority.
pub open spec fn choice_from(
    local: Seq<Seq<Seq<Job>>>,
    global: Seq<Seq<Job>>,
    victims: Seq<usize>,
    index: int,
    levels: nat,
) -> Option<(Source, int)>
    decreases levels,
{
    if levels == 0 {
        None
    } else {
        let p = levels - 1;
        if local[index][p].len() > 0 {
            Some((Source::Local, p))
        } else if global[p].len() > 0 {
            Some((Source::Global, p))
        } else {
            match first_victim(local, victims, p) {
                Some(v) => Some((Source::Stolen(v), p)),
                None => choice_from(local, global, victims, index, (levels - 1) as nat),
            }
        }
    }
}

/// What a worker does next.
pub enum WorkerStep {
    /// Run this job, then report it finished.
    Run(Job),
    /// Leave: shutdown was requested and nothing is pending.
    Exit,
    /// Sleep until woken, then ask again.
    Wait,
}

/// When no victim has work of priority `p`, every victim's queue of that
/// priority is empty.
proof fn lemma_first_victim_none(local: Seq<Seq<Seq<Job>>>, victims: Seq<usize>, p: int)
    requires
        first_victim(local, victims, p) is None,
    ensures
        forall|k: int| 0 <= k < victims.len() ==> (#[trigger] local[victims[k] as int][p]).len() == 0,
    decreases victims.len(),
{
    if victims.len() > 0 {
        lemma_first_victim_none(local, victims.drop_first(), p);
        assert forall|k: int| 0 <= k < victims.len() implies (#[trigger] local[victims[k] as int][p]).len() == 0 by {
            if k > 0 {
                assert(victims[k] == victims.drop_first()[k - 1]);
            }
        }
    }
}

/// When every victim's queue of priority `p` is empty, no victim is found.
proof fn lemma_first_victim_empty(local: Seq<Seq<Seq<Job>>>, victims: Seq<usize>, p: int)
    requires
        forall|k: int| 0 <= k < victims.len() ==> (#[trigger] local[victims[k] as int][p]).len() == 0,
    ensures
        first_victim(local, victims, p) is None,
    decreases victims.len(),
{
    if victims.len() > 0 {
        assert(local[victims[0] as int][p].len() == 0);
        assert forall|k: int| 0 <= k < victims.drop_first().len() implies
            (#[trigger] local[victims.drop_first()[k] as int][p]).len() == 0 by {
            assert(victims.drop_first()[k] == victims[k + 1]);
        }
        lemma_first_victim_empty(local, victims.drop_first(), p);
    }
}

/// When the worker's own queues, the global queues and its victims' queues
/// of the `levels` lowest priorities are all empty, nothing is found.
proof fn lemma_choice_from_empty(
    local: Seq<Seq<Seq<Job>>>,
    global: Seq<Seq<Job>>,
    victims: Seq<usize>,
    index: int,
    levels: nat,
)
    requires
        forall|p: int| 0 <= p < levels ==> {
            &&& (#[trigger] local[index][p]).len() == 0
            &&& global[p].len() == 0
            &&& forall|k: int| 0 <= k < victims.len() ==> (#[trigger] local[victims[k] as int][p]).len() == 0
        },
    ensures
        choice_from(local, global, victims, index, levels) is None,
    decreases levels,
{
    if levels > 0 {
        let top = levels - 1;
        assert(local[index][top].len() == 0);
        lemma_first_victim_empty(local, victims, top);
        lemma_choice_from_empty(local, global, victims, index, (levels - 1) as nat);
    }
}

/// The victim found for priority `p` has work of that priority.
proof fn lemma_first_victim_some(local: Seq<Seq<Seq<Job>>>, victims: Seq<usize>, p: int)
    requires
        first_victim(local, victims, p) is Some,
    ensures
        local[first_victim(local, victims, p)->0 as int][p].len() > 0,
        victims.contains(first_victim(local, victims, p)->0),
    decreases victims.len(),
{
    if local[victims[0] as int][p].len() == 0 {
        lemma_first_victim_some(local, victims.drop_first(), p);
        let v = first_victim(local, victims, p)->0;
        let k = choose|k: int| 0 <= k < victims.drop_first().len() && victims.drop_first()[k] == v;
        assert(victims[k + 1] == v);
    } else {
        assert(victims[0] == first_victim(local, victims, p)->0);
    }
}

/// With nothing found among the `levels` lowest priorities, the worker's
/// own queues, the global queues and its victims' queues of those
/// priorities are empty; otherwise the chosen queue holds a job and the
/// queues it could see at every higher priority are empty.
proof fn lemma_choice_from(
    local: Seq<Seq<Seq<Job>>>,
    global: Seq<Seq<Job>>,
    victims: Seq<usize>,
    index: int,
    levels: nat,
)
    ensures
        choice_from(local, global, victims, index, levels) is None ==> forall|p: int| 0 <= p < levels ==> {
            &&& (#[trigger] local[index][p]).len() == 0
            &&& global[p].len() == 0
            &&& forall|k: int| 0 <= k < victims.len() ==> (#[trigger] local[victims[k] as int][p]).len() == 0
        },
        choice_from(local, global, victims, index, levels) matches Some((src, p)) ==> {
            &&& 0 <= p < levels
            &&& match src {
                Source::Local => local[index][p].len() > 0,
                Source::Global => global[p].len() > 0,
                Source::Stolen(v) => local[v as int][p].len() > 0 && victims.contains(v),
            }
            &&& forall|q: int| p < q < levels ==> {
                &&& (#[trigger] local[index][q]).len() == 0
                &&& global[q].len() == 0
                &&& forall|k: int| 0 <= k < victims.len() ==> (#[trigger] local[victims[k] as int][q]).len() == 0
            }
        },
    decreases levels,
{
    if levels > 0 {
        let top = levels - 1;
        lemma_choice_from(local, global, victims, index, (levels - 1) as nat);
        if local[index][top].len() == 0 && global[top].len() == 0 {
            if first_victim(local, victims, top) is None {
                lemma_first_victim_none(local, victims, top);
            } else {
                lemma_first_victim_some(local, victims, top);
            }
        }
        if choice_from(local, global, victims, index, levels) is None {
            assert forall|p: int| 0 <= p < levels implies {
                &&& (#[trigger] local[index][p]).len() == 0
                &&& global[p].len() == 0
                &&& forall|k: int| 0 <= k < victims.len() ==> (#[trigger] local[victims[k] as int][p]).len() == 0
            } by {
                if p < top {
                    assert(choice_from(local, global, victims, index, (levels - 1) as nat) is None);
                }
            }
        }
    }
}

/// Priority levels whose queues are all empty are passed over: when,
/// from `p + 1` up to `levels`, the worker's own, the global and its
/// victims' queues are empty, looking at `levels` levels finds what
/// looking at `p + 1` levels finds.
proof fn lemma_choice_skips_empty(
    local: Seq<Seq<Seq<Job>>>,
    global: Seq<Seq<Job>>,
    victims: Seq<usize>,
    index: int,
    levels: nat,
    p: int,
)
    requires
        0 <= p < levels,
        forall|q: int| p < q < levels ==> {
            &&& (#[trigger] local[index][q]).len() == 0
            &&& global[q].len() == 0
            &&& forall|k: int| 0 <= k < victims.len() ==> (#[trigger] local[victims[k] as int][q]).len() == 0
        },
    ensures
        choice_from(local, global, victims, index, levels) == choice_from(local, global, victims, index, (p + 1) as nat),
    decreases levels,
{
    if levels > p + 1 {
        let top = levels - 1;
        assert(local[index][top].len() == 0);
        lemma_first_victim_empty(local, victims, top);
        lemma_choice_skips_empty(local, global, victims, index, (levels - 1) as nat, p);
    }
}

/// When the `k`-th victim is the first with work of priority `p`, it is
/// the one found.
proof fn lemma_first_victim_at(local: Seq<Seq<Seq<Job>>>, victims: Seq<usize>, p: int, k: int)
    requires
        0 <= k < victims.len(),
        local[victims[k] as int][p].len() > 0,
        forall|j: int| 0 <= j < k ==> (#[trigger] local[victims[j] as int][p]).len() == 0,
    ensures
        first_victim(local, victims, p) == Some(victims[k]),
    decreases k,
{
    if k > 0 {
        assert(local[victims[0] as int][p].len() == 0);
        let rest = victims.drop_first();
        assert forall|j: int| 0 <= j < k - 1 implies (#[trigger] local[rest[j] as int][p]).len() == 0 by {
            assert(rest[j] == victims[j + 1]);
        }
        assert(rest[k - 1] == victims[k]);
        lemma_first_victim_at(local, rest, p, k - 1);
    }
}

/// The jobs held by queues `qs`, counted with multiplicity.
pub open spec fn jobs_in(qs: Seq<Seq<Job>>) -> Multiset<Job>
    decreases qs.len(),
{
    if qs.len() == 0 {
        Multiset::empty()
    } else {
        jobs_in(qs.drop_last()).add(qs.last().to_multiset())
    }
}

/// The jobs held by the workers' queues `ls`, counted with multiplicity.
pub open spec fn jobs_in_workers(ls: Seq<Seq<Seq<Job>>>) -> Multiset<Job>
    decreases ls.len(),
{
    if ls.len() == 0 {
        Multiset::empty()
    } else {
        jobs_in_workers(ls.drop_last()).add(jobs_in(ls.last()))
    }
}

/// Replacing queue `i` by one that holds one `x` less removes one `x`.
proof fn lemma_jobs_in_remove(qs: Seq<Seq<Job>>, i: int, q: Seq<Job>, x: Job)
    requires
        0 <= i < qs.len(),
        qs[i].to_multiset().count(x) > 0,
        q.to_multiset() == qs[i].to_multiset().remove(x),
    ensures
        jobs_in(qs).count(x) > 0,
        jobs_in(qs.update(i, q)) == jobs_in(qs).remove(x),
    decreases qs.len(),
{
    broadcast use vstd::multiset::group_multiset_axioms;
    if i == qs.len() - 1 {
        assert(qs.update(i, q).drop_last() =~= qs.drop_last());
    } else {
        lemma_jobs_in_remove(qs.drop_last(), i, q, x);
        assert(qs.update(i, q).drop_last() =~= qs.drop_last().update(i, q));
    }
    assert(jobs_in(qs.update(i, q)) =~= jobs_in(qs).remove(x));
}

/// Replacing queue `i` by one that holds one `x` more adds one `x`.
proof fn lemma_jobs_in_insert(qs: Seq<Seq<Job>>, i: int, q: Seq<Job>, x: Job)
    requires
        0 <= i < qs.len(),
        q.to_multiset() == qs[i].to_multiset().insert(x),
    ensures
        jobs_in(qs.update(i, q)) == jobs_in(qs).insert(x),
    decreases qs.len(),
{
    broadcast use vstd::multiset::group_multiset_axioms;
    if i == qs.len() - 1 {
        assert(qs.update(i, q).drop_last() =~= qs.drop_last());
    } else {
        lemma_jobs_in_insert(qs.drop_last(), i, q, x);
        assert(qs.update(i, q).drop_last() =~= qs.drop_last().update(i, q));
    }
    assert(jobs_in(qs.update(i, q)) =~= jobs_in(qs).insert(x));
}

/// Replacing worker `w`'s queues by ones that hold one `x` less removes
/// one `x`.
proof fn lemma_workers_remove(ls: Seq<Seq<Seq<Job>>>, w: int, qs: Seq<Seq<Job>>, x: Job)
    requires
        0 <= w < ls.len(),
        jobs_in(ls[w]).count(x) > 0,
        jobs_in(qs) == jobs_in(ls[w]).remove(x),
    ensures
        jobs_in_workers(ls).count(x) > 0,
        jobs_in_workers(ls.update(w, qs)) == jobs_in_workers(ls).remove(x),
    decreases ls.len(),
{
    broadcast use vstd::multiset::group_multiset_axioms;
    if w == ls.len() - 1 {
        assert(ls.update(w, qs).drop_last() =~= ls.drop_last());
    } else {
        lemma_workers_remove(ls.drop_last(), w, qs, x);
        assert(ls.update(w, qs).drop_last() =~= ls.drop_last().update(w, qs));
    }
    assert(jobs_in_workers(ls.update(w, qs)) =~= jobs_in_workers(ls).remove(x));
}

/// Replacing worker `w`'s queues by ones that hold one `x` more adds one
/// `x`.
proof fn lemma_workers_insert(ls: Seq<Seq<Seq<Job>>>, w: int, qs: Seq<Seq<Job>>, x: Job)
    requires
        0 <= w < ls.len(),
        jobs_in(qs) == jobs_in(ls[w]).insert(x),
    ensures
        jobs_in_workers(ls.update(w, qs)) == jobs_in_workers(ls).insert(x),
    decreases ls.len(),
{
    broadcast use vstd::multiset::group_multiset_axioms;
    if w == ls.len() - 1 {
        assert(ls.update(w, qs).drop_last() =~= ls.drop_last());
    } else {
        lemma_workers_insert(ls.drop_last(), w, qs, x);
        assert(ls.update(w, qs).drop_last() =~= ls.drop_last().update(w, qs));
    }
    assert(jobs_in_workers(ls.update(w, qs)) =~= jobs_in_workers(ls).insert(x));
}

/// Empty queues hold no job.
proof fn lemma_jobs_in_empty(qs: Seq<Seq<Job>>)
    requires
        forall|p: int| 0 <= p < qs.len() ==> (#[trigger] qs[p]).len() == 0,
    ensures
        jobs_in(qs) == Multiset::<Job>::empty(),
    decreases qs.len(),
{
    broadcast use vstd::multiset::group_multiset_axioms;
    broadcast use vstd::seq_lib::group_to_multiset_ensures;
    if qs.len() > 0 {
        lemma_jobs_in_empty(qs.drop_last());
        assert(qs.last().to_multiset().len() == 0);
        assert(jobs_in(qs) =~= Multiset::<Job>::empty());
    }
}

/// Workers whose queues are all empty hold no job.
proof fn lemma_workers_empty(ls: Seq<Seq<Seq<Job>>>)
    requires
        forall|i: int, p: int| 0 <= i < ls.len() && 0 <= p < ls[i].len() ==> (#[trigger] ls[i][p]).len() == 0,
    ensures
        jobs_in_workers(ls) == Multiset::<Job>::empty(),
    decreases ls.len(),
{
    broadcast use vstd::multiset::group_multiset_axioms;
    if ls.len() > 0 {
        lemma_workers_empty(ls.drop_last());
        assert forall|p: int| 0 <= p < ls.last().len() implies (#[trigger] ls.last()[p]).len() == 0 by {
            assert(ls[ls.len() - 1][p].len() == 0);
        }
        lemma_jobs_in_empty(ls.last());
        assert(jobs_in_workers(ls) =~= Multiset::<Job>::empty());
    }
}

/// Taking the job at position `k` of queue `p` of `qs` removes exactly
/// that job.
proof fn lemma_queue_take(qs: Seq<Seq<Job>>, p: int, k: int, rest: Seq<Job>)
    requires
        0 <= p < qs.len(),
        0 <= k < qs[p].len(),
        rest == qs[p].remove(k),
    ensures
        jobs_in(qs).count(qs[p][k]) > 0,
        jobs_in(qs.update(p, rest)) == jobs_in(qs).remove(qs[p][k]),
{
    broadcast use vstd::seq_lib::group_to_multiset_ensures;
    assert(qs[p].contains(qs[p][k]));
    lemma_jobs_in_remove(qs, p, rest, qs[p][k]);
}

/// Appending `x` to queue `p` of `qs` adds exactly `x`.
proof fn lemma_queue_push(qs: Seq<Seq<Job>>, p: int, x: Job)
    requires
        0 <= p < qs.len(),
    ensures
        jobs_in(qs.update(p, qs[p].push(x))) == jobs_in(qs).insert(x),
{
    broadcast use vstd::seq_lib::group_to_multiset_ensures;
    lemma_jobs_in_insert(qs, p, qs[p].push(x), x);
}

/// The views of a worker's queues, by priority.
pub open spec fn queue_views(w: Vec<VecDeque<Job>>) -> Seq<Seq<Job>> {
    w@.map_values(|q: VecDeque<Job>| q@)
}

/// Job queues, pending-work accounting, shutdown flag and steal counts of
/// one pool.
pub struct Scheduler {
    global: Vec<VecDeque<Job>>,
    local: Vec<Vec<VecDeque<Job>>>,
    pending: usize,
    shutdown: bool,
    steals: StealStats,
    steal_plan: StealPlan,
}

impl Scheduler {
    /// The workers' queues: worker, then priority slot.
    pub closed spec fn spec_local(&self) -> Seq<Seq<Seq<Job>>> {
        self.local@.map_values(|w: Vec<VecDeque<Job>>| queue_views(w))
    }

    /// The global queues, by priority slot.
    pub closed spec fn spec_global(&self) -> Seq<Seq<Job>> {
        queue_views(self.global)
    }

    /// Jobs accepted and not yet finished.
    pub closed spec fn spec_pending(&self) -> usize {
        self.pending
    }

    /// Whether shutdown was requested.
    pub closed spec fn spec_shutdown(&self) -> bool {
        self.shutdown
    }

    /// Successful steals so far.
    pub closed spec fn spec_steals(&self) -> StealStats {
        self.steals
    }

    /// The stealing plan.
    pub closed spec fn spec_plan(&self) -> StealPlan {
        self.steal_plan
    }

    /// Three priority slots everywhere, one worker per plan entry.
    pub closed spec fn wf(&self) -> bool {
        &&& self.global@.len() == 3
        &&& self.local@.len() == self.steal_plan.workers()
        &&& self.local@.len() <= usize::MAX
        &&& forall|i: int| 0 <= i < self.local@.len() ==> (#[trigger] self.local@[i])@.len() == 3
        &&& self.steal_plan.wf()
    }

    /// The number of workers.
    pub open spec fn workers(&self) -> nat {
        self.spec_local().len()
    }

    /// Every queued job, counted with multiplicity.
    pub open spec fn queued(&self) -> Multiset<Job> {
        jobs_in(self.spec_global()).add(jobs_in_workers(self.spec_local()))
    }

    /// Where worker `index` takes its next job from.
    pub open spec fn next_choice(&self, index: int) -> Option<(Source, int)> {
        choice_from(self.spec_local(), self.spec_global(), self.spec_plan().spec_victims()[index], index, 3)
    }

    /// Facts that `wf` gives to other modules.
    pub proof fn lemma_wf(&self)
        requires
            self.wf(),
        ensures
            self.spec_global().len() == 3,
            self.workers() == self.spec_plan().workers(),
            forall|i: int| 0 <= i < self.workers() ==> (#[trigger] self.spec_local()[i]).len() == 3,
            self.spec_plan().wf(),
            self.workers() <= usize::MAX,
    {
        assert forall|i: int| 0 <= i < self.workers() implies (#[trigger] self.spec_local()[i]).len() == 3 by {
            assert(self.spec_local()[i] == queue_views(self.local@[i]));
        }
    }

    /// Whether worker `index` sees no work of priority slot `q`: its own
    /// queue, the global queue and the queues of the victims in its
    /// stealing plan are empty there.
    pub open spec fn sees_nothing_at(&self, index: int, q: int) -> bool {
        &&& self.spec_local()[index][q].len() == 0
        &&& self.spec_global()[q].len() == 0
        &&& forall|k: int| 0 <= k < self.spec_plan().spec_victims()[index].len()
            ==> (#[trigger] self.spec_local()[self.spec_plan().spec_victims()[index][k] as int][q]).len() == 0
    }

    /// At every priority the worker's own queue comes first: when it holds
    /// work of priority slot `p` and nothing of a higher priority is in
    /// sight, the worker takes from its own queue at `p`, whatever the
    /// global queue and its victims hold.
    pub proof fn lemma_takes_own_first(&self, index: int, p: int)
        requires
            self.wf(),
            0 <= index < self.workers(),
            0 <= p < 3,
            self.spec_local()[index][p].len() > 0,
            forall|q: int| p < q < 3 ==> #[trigger] self.sees_nothing_at(index, q),
        ensures
            self.next_choice(index) == Some((Source::Local, p)),
    {
        let victims = self.spec_plan().spec_victims()[index];
        assert forall|q: int| p < q < 3 implies {
            &&& (#[trigger] self.spec_local()[index][q]).len() == 0
            &&& self.spec_global()[q].len() == 0
            &&& forall|k: int| 0 <= k < victims.len() ==> (#[trigger] self.spec_local()[victims[k] as int][q]).len() == 0
        } by {
            assert(self.sees_nothing_at(index, q));
        }
        lemma_choice_skips_empty(self.spec_local(), self.spec_global(), victims, index, 3, p);
    }

    /// With the worker's own queue of priority slot `p` empty, the global
    /// queue at `p` comes next, before any victim, when nothing of a higher
    /// priority is in sight.
    pub proof fn lemma_takes_global_second(&self, index: int, p: int)
        requires
            self.wf(),
            0 <= index < self.workers(),
            0 <= p < 3,
            self.spec_local()[index][p].len() == 0,
            self.spec_global()[p].len() > 0,
            forall|q: int| p < q < 3 ==> #[trigger] self.sees_nothing_at(index, q),
        ensures
            self.next_choice(index) == Some((Source::Global, p)),
    {
        let victims = self.spec_plan().spec_victims()[index];
        assert forall|q: int| p < q < 3 implies {
            &&& (#[trigger] self.spec_local()[index][q]).len() == 0
            &&& self.spec_global()[q].len() == 0
            &&& forall|k: int| 0 <= k < victims.len() ==> (#[trigger] self.spec_local()[victims[k] as int][q]).len() == 0
        } by {
            assert(self.sees_nothing_at(index, q));
        }
        lemma_choice_skips_empty(self.spec_local(), self.spec_global(), victims, index, 3, p);
    }

    /// With the worker's own and the global queue of priority slot `p`
    /// empty, the worker steals at `p` from the earliest victim in its plan
    /// that has work there, when nothing of a higher priority is in sight.
    pub proof fn lemma_steals_from_first_victim(&self, index: int, p: int, k: int)
        requires
            self.wf(),
            0 <= index < self.workers(),
            0 <= p < 3,
            self.spec_local()[index][p].len() == 0,
            self.spec_global()[p].len() == 0,
            0 <= k < self.spec_plan().spec_victims()[index].len(),
            self.spec_local()[self.spec_plan().spec_victims()[index][k] as int][p].len() > 0,
            forall|j: int| 0 <= j < k
                ==> (#[trigger] self.spec_local()[self.spec_plan().spec_victims()[index][j] as int][p]).len() == 0,
            forall|q: int| p < q < 3 ==> #[trigger] self.sees_nothing_at(index, q),
        ensures
            self.next_choice(index) == Some((Source::Stolen(self.spec_plan().spec_victims()[index][k]), p)),
    {
        let victims = self.spec_plan().spec_victims()[index];
        assert forall|q: int| p < q < 3 implies {
            &&& (#[trigger] self.spec_local()[index][q]).len() == 0
            &&& self.spec_global()[q].len() == 0
            &&& forall|k: int| 0 <= k < victims.len() ==> (#[trigger] self.spec_local()[victims[k] as int][q]).len() == 0
        } by {
            assert(self.sees_nothing_at(index, q));
        }
        lemma_choice_skips_empty(self.spec_local(), self.spec_global(), victims, index, 3, p);
        lemma_first_victim_at(self.spec_local(), victims, p, k);
    }

    /// Worker `index` finds nothing to take exactly when its own queues,
    /// the global queues and the queues of every victim in its stealing
    /// plan are empty at every priority.
    pub proof fn lemma_nothing_to_take_iff(&self, index: int)
        requires
            self.wf(),
            0 <= index < self.workers(),
        ensures
            self.next_choice(index) is None <==> forall|p: int| 0 <= p < 3 ==> {
                &&& (#[trigger] self.spec_local()[index][p]).len() == 0
                &&& self.spec_global()[p].len() == 0
                &&& forall|k: int| 0 <= k < self.spec_plan().spec_victims()[index].len()
                    ==> (#[trigger] self.spec_local()[self.spec_plan().spec_victims()[index][k] as int][p]).len() == 0
            },
    {
        let victims = self.spec_plan().spec_victims()[index];
        lemma_choice_from(self.spec_local(), self.spec_global(), victims, index, 3);
        if forall|p: int| 0 <= p < 3 ==> {
            &&& (#[trigger] self.spec_local()[index][p]).len() == 0
            &&& self.spec_global()[p].len() == 0
            &&& forall|k: int| 0 <= k < victims.len() ==> (#[trigger] self.spec_local()[victims[k] as int][p]).len() == 0
        } {
            lemma_choice_from_empty(self.spec_local(), self.spec_global(), victims, index, 3);
        }
    }

    /// A worker leaves only when nothing is left: with every accepted job
    /// counted as pending until it finishes, a worker that is told to exit
    /// (shutdown requested, nothing pending, nothing to take) sees no job
    /// queued anywhere, when its stealing plan lists every other worker.
    pub proof fn lemma_exit_means_drained(&self, index: int)
        requires
            self.wf(),
            self.spec_plan().covers_all(),
            0 <= index < self.workers(),
            self.next_choice(index) is None,
            self.spec_shutdown(),
            self.spec_pending() == 0,
        ensures
            self.queued() == Multiset::<Job>::empty(),
            self.spec_pending() == 0,
    {
        self.lemma_idle_means_no_queued_work(index);
    }

    /// A worker that finds nothing to take sees every queue of the pool
    /// empty, when its stealing plan lists every other worker: an idle
    /// worker never waits while work is queued anywhere.
    pub proof fn lemma_idle_means_no_queued_work(&self, index: int)
        requires
            self.wf(),
            self.spec_plan().covers_all(),
            0 <= index < self.workers(),
            self.next_choice(index) is None,
        ensures
            forall|i: int, p: int| 0 <= i < self.workers() && 0 <= p < 3 ==> (#[trigger] self.spec_local()[i][p]).len() == 0,
            forall|p: int| 0 <= p < 3 ==> (#[trigger] self.spec_global()[p]).len() == 0,
            self.queued() == Multiset::<Job>::empty(),
    {
        let victims = self.spec_plan().spec_victims()[index];
        self.lemma_wf();
        lemma_choice_from(self.spec_local(), self.spec_global(), victims, index, 3);
        assert forall|i: int, p: int| 0 <= i < self.workers() && 0 <= p < 3 implies (#[trigger] self.spec_local()[i][p]).len() == 0 by {
            assert(self.spec_local()[index][p].len() == 0);
            if i != index {
                assert(victims.contains(i as usize));
                let k = choose|k: int| 0 <= k < victims.len() && victims[k] == i as usize;
                assert(self.spec_local()[victims[k] as int][p].len() == 0);
            }
        }
        assert forall|p: int| 0 <= p < 3 implies (#[trigger] self.spec_global()[p]).len() == 0 by {
            assert(self.spec_local()[index][p].len() == 0);
        }
        lemma_jobs_in_empty(self.spec_global());
        lemma_workers_empty(self.spec_local());
        broadcast use vstd::multiset::group_multiset_axioms;
        assert(self.queued() =~= Multiset::<Job>::empty());
    }

    /// The job a worker takes has the highest priority of all queued work,
    /// when its stealing plan lists every other worker: priority precedes
    /// queue locality and victim proximity.
    pub proof fn lemma_choice_has_highest_priority(&self, index: int)
        requires
            self.wf(),
            self.spec_plan().covers_all(),
            0 <= index < self.workers(),
            self.next_choice(index) is Some,
        ensures
            0 <= (self.next_choice(index)->0).1 < 3,
            forall|i: int, q: int| 0 <= i < self.workers() && (self.next_choice(index)->0).1 < q < 3
                ==> (#[trigger] self.spec_local()[i][q]).len() == 0,
            forall|q: int| (self.next_choice(index)->0).1 < q < 3 ==> (#[trigger] self.spec_global()[q]).len() == 0,
    {
        let victims = self.spec_plan().spec_victims()[index];
        self.lemma_wf();
        lemma_choice_from(self.spec_local(), self.spec_global(), victims, index, 3);
        let p = (self.next_choice(index)->0).1;
        assert forall|i: int, q: int| 0 <= i < self.workers() && p < q < 3 implies (#[trigger] self.spec_local()[i][q]).len() == 0 by {
            assert(self.spec_local()[index][q].len() == 0);
            if i != index {
                assert(victims.contains(i as usize));
                let k = choose|k: int| 0 <= k < victims.len() && victims[k] == i as usize;
                assert(self.spec_local()[victims[k] as int][q].len() == 0);
            }
        }
        assert forall|q: int| p < q < 3 implies (#[trigger] self.spec_global()[q]).len() == 0 by {
            assert(self.spec_local()[index][q].len() == 0);
        }
    }

    /// A scheduler with empty queues for the workers of `plan`, nothing
    /// pending, no steal and no shutdown request.
    pub fn new(plan: StealPlan) -> (r: Self)
        requires
            plan.wf(),
        ensures
            r.wf(),
            r.spec_plan() == plan,
            r.workers() == plan.workers(),
            forall|i: int, p: int| 0 <= i < r.workers() && 0 <= p < 3 ==> (#[trigger] r.spec_local()[i][p]).len() == 0,
            forall|p: int| 0 <= p < 3 ==> (#[trigger] r.spec_global()[p]).len() == 0,
            r.spec_pending() == 0,
            !r.spec_shutdown(),
            r.spec_steals() == StealStats::spec_zero(),
    {
        let n = plan.victim_lists().len();
        let global = Self::empty_queues();
        let mut local: Vec<Vec<VecDeque<Job>>> = Vec::new();
        let mut i: usize = 0;
        while i < n
            invariant
                i <= n,
                local@.len() == i,
                forall|k: int| 0 <= k < i ==> (#[trigger] local@[k])@.len() == 3,
                forall|k: int, p: int| 0 <= k < i && 0 <= p < 3 ==> (#[trigger] local@[k]@[p])@.len() == 0,
            decreases n - i,
        {
            local.push(Self::empty_queues());
            i += 1;
        }
        let r = Scheduler {
            global,
            local,
            pending: 0,
            shutdown: false,
            steals: StealStats { same_core: 0, same_numa: 0, remote_numa: 0, unknown: 0 },
            steal_plan: plan,
        };
        proof {
            assert forall|k: int, p: int| 0 <= k < r.workers() && 0 <= p < 3 implies (#[trigger] r.spec_local()[k][p]).len() == 0 by {
                assert(r.spec_local()[k] == queue_views(local@[k]));
                assert(queue_views(local@[k])[p] == local@[k]@[p]@);
            }
            assert forall|p: int| 0 <= p < 3 implies (#[trigger] r.spec_global()[p]).len() == 0 by {
                assert(r.spec_global()[p] == global@[p]@);
            }
        }
        r
    }

    /// Appends `job` to the queue of priority `priority` of worker
    /// `worker`, without counting it as pending.
    pub fn push_local(&mut self, worker: usize, priority: Priority, job: Job)
        requires
            old(self).wf(),
            worker < old(self).workers(),
        ensures
            final(self).wf(),
            final(self).spec_local() == old(self).spec_local().update(
                worker as int,
                old(self).spec_local()[worker as int].update(
                    priority_index(priority),
                    old(self).spec_local()[worker as int][priority_index(priority)].push(job),
                ),
            ),
            final(self).spec_global() == old(self).spec_global(),
            final(self).spec_pending() == old(self).spec_pending(),
            final(self).spec_shutdown() == old(self).spec_shutdown(),
            final(self).spec_steals() == old(self).spec_steals(),
            final(self).spec_plan() == old(self).spec_plan(),
            final(self).queued() == old(self).queued().insert(job),
    {
        let p = priority.index();
        let ghost before = self.local@;
        self.local[worker][p].push_back(job);
        proof {
            broadcast use vstd::multiset::group_multiset_axioms;
            let w = worker as int;
            assert(queue_views(self.local@[w]) =~= queue_views(before[w]).update(p as int, queue_views(before[w])[p as int].push(job)));
            assert(self.spec_local() =~= old(self).spec_local().update(w, queue_views(self.local@[w])));
            let inner = old(self).spec_local()[w];
            lemma_queue_push(inner, p as int, job);
            lemma_workers_insert(old(self).spec_local(), w, inner.update(p as int, inner[p as int].push(job)), job);
            assert(self.queued() =~= old(self).queued().insert(job));
        }
    }

    /// Appends `job` to the global queue of priority `priority`, without
    /// counting it as pending.
    pub fn push_global(&mut self, priority: Priority, job: Job)
        requires
            old(self).wf(),
        ensures
            final(self).wf(),
            final(self).spec_global() == old(self).spec_global().update(
                priority_index(priority),
                old(self).spec_global()[priority_index(priority)].push(job),
            ),
            final(self).spec_local() == old(self).spec_local(),
            final(self).spec_pending() == old(self).spec_pending(),
            final(self).spec_shutdown() == old(self).spec_shutdown(),
            final(self).spec_steals() == old(self).spec_steals(),
            final(self).spec_plan() == old(self).spec_plan(),
            final(self).queued() == old(self).queued().insert(job),
    {
        let p = priority.index();
        self.global[p].push_back(job);
        proof {
            broadcast use vstd::multiset::group_multiset_axioms;
            assert(self.spec_global() =~= old(self).spec_global().update(p as int, old(self).spec_global()[p as int].push(job)));
            assert(self.spec_local() =~= old(self).spec_local());
            lemma_queue_push(old(self).spec_global(), p as int, job);
            assert(self.queued() =~= old(self).queued().insert(job));
        }
    }

    /// Removes and returns the next job of worker `index`: for each
    /// priority from high to low, the newest job of its own queue, else the
    /// oldest global job, else the oldest job of the first victim in its
    /// stealing plan that has one. A job taken from another worker counts as
    /// a steal, by the proximity of the two workers.
    pub fn take(&mut self, index: usize) -> (r: Option<Job>)
        requires
            old(self).wf(),
            index < old(self).workers(),
        ensures
            final(self).wf(),
            final(self).spec_pending() == old(self).spec_pending(),
            final(self).spec_shutdown() == old(self).spec_shutdown(),
            final(self).spec_plan() == old(self).spec_plan(),
            r matches Some(job) ==> old(self).queued().count(job) > 0 && final(self).queued() == old(self).queued().remove(job),
            r is None ==> final(self).queued() == old(self).queued(),
            match old(self).next_choice(index as int) {
                None => {
                    &&& r is None
                    &&& final(self).spec_local() == old(self).spec_local()
                    &&& final(self).spec_global() == old(self).spec_global()
                    &&& final(self).spec_steals() == old(self).spec_steals()
                },
                Some((Source::Local, p)) => {
                    let q = old(self).spec_local()[index as int][p];
                    &&& r == Some(q.last())
                    &&& final(self).spec_local() == old(self).spec_local().update(
                        index as int,
                        old(self).spec_local()[index as int].update(p, q.drop_last()),
                    )
                    &&& final(self).spec_global() == old(self).spec_global()
                    &&& final(self).spec_steals() == old(self).spec_steals()
                },
                Some((Source::Global, p)) => {
                    let q = old(self).spec_global()[p];
                    &&& r == Some(q.first())
                    &&& final(self).spec_global() == old(self).spec_global().update(p, q.drop_first())
                    &&& final(self).spec_local() == old(self).spec_local()
                    &&& final(self).spec_steals() == old(self).spec_steals()
                },
                Some((Source::Stolen(v), p)) => {
                    let q = old(self).spec_local()[v as int][p];
                    &&& r == Some(q.first())
                    &&& final(self).spec_local() == old(self).spec_local().update(
                        v as int,
                        old(self).spec_local()[v as int].update(p, q.drop_first()),
                    )
                    &&& final(self).spec_global() == old(self).spec_global()
                    &&& final(self).spec_steals() == stats_after(
                        old(self).spec_steals(),
                        old(self).spec_plan().spec_proximity(index as int, v as int),
                    )
                },
            },
    {
        let ghost start = *self;
        let ghost victims = self.steal_plan.spec_victims()[index as int];
        proof {
            start.steal_plan.lemma_victims_in_range();
        }
        let mut level: usize = 3;
        while level > 0
            invariant
                *self == start,
                start == *old(self),
                start.wf(),
                index < start.workers(),
                victims == start.steal_plan.spec_victims()[index as int],
                level <= 3,
                forall|k: int| 0 <= k < victims.len() ==> #[trigger] victims[k] < start.workers(),
                choice_from(start.spec_local(), start.spec_global(), victims, index as int, 3)
                    == choice_from(start.spec_local(), start.spec_global(), victims, index as int, level as nat),
            decreases level,
        {
            let p = level - 1;
            let ghost lq = start.spec_local()[index as int][p as int];
            let ghost gq = start.spec_global()[p as int];
            proof {
                assert(self.local@[index as int]@[p as int]@ == lq) by {
                    assert(start.spec_local()[index as int] == queue_views(start.local@[index as int]));
                }
                assert(self.global@[p as int]@ == gq);
            }
            if self.local[index][p].len() > 0 {
                let ghost before = self.local@;
                let job = self.local[index][p].pop_back();
                proof {
                    let w = index as int;
                    assert(queue_views(self.local@[w]) =~= queue_views(before[w]).update(p as int, lq.drop_last()));
                    assert(self.spec_local() =~= start.spec_local().update(w, queue_views(self.local@[w])));
                    assert(self.spec_global() =~= start.spec_global());
                    assert(self.pending == start.pending && self.shutdown == start.shutdown);
                    assert(self.steal_plan == start.steal_plan);
                    broadcast use vstd::multiset::group_multiset_axioms;
                    let inner = start.spec_local()[w];
                    let x = lq[lq.len() - 1];
                    assert(lq.drop_last() =~= lq.remove(lq.len() - 1));
                    lemma_queue_take(inner, p as int, lq.len() - 1, lq.drop_last());
                    lemma_workers_remove(start.spec_local(), w, inner.update(p as int, lq.drop_last()), x);
                    assert(self.queued() =~= start.queued().remove(x));
                }
                return job;
            }
            if self.global[p].len() > 0 {
                let job = self.global[p].pop_front();
                proof {
                    assert(self.spec_global() =~= start.spec_global().update(p as int, gq.drop_first()));
                    assert(self.spec_local() =~= start.spec_local());
                    assert(self.pending == start.pending && self.shutdown == start.shutdown);
                    assert(self.steal_plan == start.steal_plan);
                    broadcast use vstd::multiset::group_multiset_axioms;
                    assert(gq.drop_first() =~= gq.remove(0));
                    lemma_queue_take(start.spec_global(), p as int, 0, gq.drop_first());
                    assert(self.queued() =~= start.queued().remove(gq[0]));
                }
                return job;
            }
            let list = self.steal_plan.victims_for(index);
            let mut k: usize = 0;
            proof {
                assert(victims.skip(0) =~= victims);
            }
            while k < list.len()
                invariant
                    *self == start,
                    start == *old(self),
                    start.wf(),
                    index < start.workers(),
                    list@ == victims,
                    victims == start.steal_plan.spec_victims()[index as int],
                    0 <= p < 3,
                    k <= list@.len(),
                    forall|j: int| 0 <= j < victims.len() ==> #[trigger] victims[j] < start.workers(),
                    first_victim(start.spec_local(), victims, p as int)
                        == first_victim(start.spec_local(), victims.skip(k as int), p as int),
                    p + 1 == level,
                    start.spec_local()[index as int][p as int].len() == 0,
                    start.spec_global()[p as int].len() == 0,
                    choice_from(start.spec_local(), start.spec_global(), victims, index as int, 3)
                        == choice_from(start.spec_local(), start.spec_global(), victims, index as int, level as nat),
                decreases list@.len() - k,
            {
                let v = list[k];
                let ghost vq = start.spec_local()[v as int][p as int];
                proof {
                    assert(self.local@[v as int]@[p as int]@ == vq) by {
                        assert(start.spec_local()[v as int] == queue_views(start.local@[v as int]));
                    }
                    assert(victims.skip(k as int)[0] == v);
                    assert(victims.skip(k as int).drop_first() =~= victims.skip(k + 1));
                }
                if self.local[v][p].len() > 0 {
                    let ghost before = self.local@;
                    let job = self.local[v][p].pop_front();
                    self.steal_plan.record_steal(index, v, &mut self.steals);
                    proof {
                        let w = v as int;
                        assert(first_victim(start.spec_local(), victims.skip(k as int), p as int) == Some(v));
                        assert(choice_from(start.spec_local(), start.spec_global(), victims, index as int, (p + 1) as nat)
                            == Some((Source::Stolen(v), p as int)));
                        assert(queue_views(self.local@[w]) =~= queue_views(before[w]).update(p as int, vq.drop_first()));
                        assert(self.spec_local() =~= start.spec_local().update(w, queue_views(self.local@[w])));
                        assert(self.spec_global() =~= start.spec_global());
                        broadcast use vstd::multiset::group_multiset_axioms;
                        let inner = start.spec_local()[w];
                        assert(vq.drop_first() =~= vq.remove(0));
                        lemma_queue_take(inner, p as int, 0, vq.drop_first());
                        lemma_workers_remove(start.spec_local(), w, inner.update(p as int, vq.drop_first()), vq[0]);
                        assert(self.queued() =~= start.queued().remove(vq[0]));
                    }
                    return job;
                }
                k += 1;
            }
            proof {
                assert(victims.skip(list@.len() as int) =~= Seq::<usize>::empty());
            }
            level -= 1;
        }
        None
    }

    /// Accepts `job`: appends it to the queue of its priority, on worker
    /// `local_worker`'s own queue when a worker of this pool submits it and
    /// on the global queue otherwise, and counts it as pending.
    pub fn enqueue(&mut self, job: Job, local_worker: Option<usize>)
        requires
            old(self).wf(),
            old(self).spec_pending() < usize::MAX,
            local_worker matches Some(i) ==> i < old(self).workers(),
        ensures
            final(self).wf(),
            final(self).spec_pending() == old(self).spec_pending() + 1,
            final(self).queued() == old(self).queued().insert(job),
            match local_worker {
                Some(i) => {
                    &&& final(self).spec_local() == old(self).spec_local().update(
                        i as int,
                        old(self).spec_local()[i as int].update(
                            priority_index(job.spec_priority()),
                            old(self).spec_local()[i as int][priority_index(job.spec_priority())].push(job),
                        ),
                    )
                    &&& final(self).spec_global() == old(self).spec_global()
                },
                None => {
                    &&& final(self).spec_global() == old(self).spec_global().update(
                        priority_index(job.spec_priority()),
                        old(self).spec_global()[priority_index(job.spec_priority())].push(job),
                    )
                    &&& final(self).spec_local() == old(self).spec_local()
                },
            },
            final(self).spec_shutdown() == old(self).spec_shutdown(),
            final(self).spec_steals() == old(self).spec_steals(),
            final(self).spec_plan() == old(self).spec_plan(),
    {
        let priority = job.priority();
        match local_worker {
            Some(i) => self.push_local(i, priority, job),
            None => self.push_global(priority, job),
        }
        self.pending = self.pending + 1;
    }

    /// Records that a job taken earlier has finished (returned or panicked).
    pub fn complete(&mut self)
        requires
            old(self).wf(),
            old(self).spec_pending() > 0,
        ensures
            final(self).wf(),
            final(self).spec_pending() == old(self).spec_pending() - 1,
            final(self).spec_local() == old(self).spec_local(),
            final(self).spec_global() == old(self).spec_global(),
            final(self).spec_shutdown() == old(self).spec_shutdown(),
            final(self).spec_steals() == old(self).spec_steals(),
            final(self).spec_plan() == old(self).spec_plan(),
    {
        self.pending = self.pending - 1;
    }

    /// Requests shutdown: workers leave once no accepted job is unfinished.
    pub fn stop(&mut self)
        requires
            old(self).wf(),
        ensures
            final(self).wf(),
            final(self).spec_shutdown(),
            final(self).spec_pending() == old(self).spec_pending(),
            final(self).spec_local() == old(self).spec_local(),
            final(self).spec_global() == old(self).spec_global(),
            final(self).spec_steals() == old(self).spec_steals(),
            final(self).spec_plan() == old(self).spec_plan(),
    {
        self.shutdown = true;
    }

    /// What worker `index` does next: run the job that [`Self::take`]
    /// removes, leave when shutdown was requested and nothing is pending,
    /// or wait for a wake-up.
    pub fn next_step(&mut self, index: usize) -> (r: WorkerStep)
        requires
            old(self).wf(),
            index < old(self).workers(),
        ensures
            final(self).wf(),
            final(self).spec_pending() == old(self).spec_pending(),
            final(self).spec_shutdown() == old(self).spec_shutdown(),
            final(self).spec_plan() == old(self).spec_plan(),
            match r {
                WorkerStep::Run(job) => {
                    &&& old(self).next_choice(index as int) is Some
                    &&& old(self).queued().count(job) > 0
                    &&& final(self).queued() == old(self).queued().remove(job)
                },
                WorkerStep::Exit => {
                    &&& old(self).next_choice(index as int) is None
                    &&& old(self).spec_shutdown()
                    &&& old(self).spec_pending() == 0
                    &&& final(self).queued() == old(self).queued()
                },
                WorkerStep::Wait => {
                    &&& old(self).next_choice(index as int) is None
                    &&& !(old(self).spec_shutdown() && old(self).spec_pending() == 0)
                    &&& final(self).queued() == old(self).queued()
                },
            },
            old(self).next_choice(index as int) is None ==> {
                &&& final(self).spec_local() == old(self).spec_local()
                &&& final(self).spec_global() == old(self).spec_global()
                &&& final(self).spec_steals() == old(self).spec_steals()
            },
            old(self).next_choice(index as int) matches Some((Source::Local, p)) ==> {
                let q = old(self).spec_local()[index as int][p];
                &&& r == WorkerStep::Run(q.last())
                &&& final(self).spec_local() == old(self).spec_local().update(
                    index as int,
                    old(self).spec_local()[index as int].update(p, q.drop_last()),
                )
                &&& final(self).spec_global() == old(self).spec_global()
                &&& final(self).spec_steals() == old(self).spec_steals()
            },
            old(self).next_choice(index as int) matches Some((Source::Global, p)) ==> {
                let q = old(self).spec_global()[p];
                &&& r == WorkerStep::Run(q.first())
                &&& final(self).spec_global() == old(self).spec_global().update(p, q.drop_first())
                &&& final(self).spec_local() == old(self).spec_local()
                &&& final(self).spec_steals() == old(self).spec_steals()
            },
            old(self).next_choice(index as int) matches Some((Source::Stolen(v), p)) ==> {
                let q = old(self).spec_local()[v as int][p];
                &&& r == WorkerStep::Run(q.first())
                &&& final(self).spec_local() == old(self).spec_local().update(
                    v as int,
                    old(self).spec_local()[v as int].update(p, q.drop_first()),
                )
                &&& final(self).spec_global() == old(self).spec_global()
                &&& final(self).spec_steals() == stats_after(
                    old(self).spec_steals(),
                    old(self).spec_plan().spec_proximity(index as int, v as int),
                )
            },
    {
        match self.take(index) {
            Some(job) => WorkerStep::Run(job),
            None => {
                if self.shutdown && self.pending == 0 {
                    WorkerStep::Exit
                } else {
                    WorkerStep::Wait
                }
            },
        }
    }

    /// Returns a snapshot of the steal counts.
    pub fn steals(&self) -> (r: StealStats)
        ensures
            r == self.spec_steals(),
    {
        self.steals
    }

    /// Returns the number of accepted, unfinished jobs.
    pub fn pending(&self) -> (r: usize)
        ensures
            r == self.spec_pending(),
    {
        self.pending
    }

    /// Returns whether shutdown was requested.
    pub fn is_shutdown(&self) -> (r: bool)
        ensures
            r == self.spec_shutdown(),
    {
        self.shutdown
    }

    /// Replaces the stealing plan by one for the same number of workers.
    pub fn set_steal_plan(&mut self, plan: StealPlan)
        requires
            old(self).wf(),
            plan.wf(),
            plan.workers() == old(self).workers(),
        ensures
            final(self).wf(),
            final(self).spec_plan() == plan,
            final(self).spec_pending() == old(self).spec_pending(),
            final(self).spec_shutdown() == old(self).spec_shutdown(),
            final(self).spec_local() == old(self).spec_local(),
            final(self).spec_global() == old(self).spec_global(),
            final(self).spec_steals() == old(self).spec_steals(),
    {
        self.steal_plan = plan;
    }

    /// Three empty queues, one per priority.
    fn empty_queues() -> (r: Vec<VecDeque<Job>>)
        ensures
            r@.len() == 3,
            forall|p: int| 0 <= p < 3 ==> (#[trigger] r@[p])@.len() == 0,
    {
        let mut r: Vec<VecDeque<Job>> = Vec::new();
        r.push(VecDeque::new());
        r.push(VecDeque::new());
        r.push(VecDeque::new());
        r
    }
}

} // verus!
