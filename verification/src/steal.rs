//! Stealing plans: the order in which an idle worker visits the other
//! workers' queues, and how close each of them is.

use vstd::prelude::*;
use crate::layout::WorkerLayout;
use crate::layout::WorkerPlacement;

verus! {

broadcast use crate::topology::group_id_equality;

/// How close a victim worker is to the worker that steals from it.
#[derive(Debug, Clone, Copy, PartialEq, Eq, Structural)]
pub enum Proximity {
    /// An SMT sibling on the same physical core.
    SameCore,
    /// Another core of the same NUMA node.
    SameNuma,
    /// A core of another NUMA node.
    RemoteNuma,
    /// No placement is known.
    Unknown,
}

/// Counts of successful steals by proximity of the victim.
#[derive(Debug, Clone, Copy, PartialEq, Eq, Structural)]
pub struct StealStats {
    /// Steals from an SMT sibling.
    pub same_core: usize,
    /// Steals from another core of the same NUMA node.
    pub same_numa: usize,
    /// Steals from another NUMA node.
    pub remote_numa: usize,
    /// Steals between workers with no known placement.
    pub unknown: usize,
}

impl Default for StealStats {
    /// No steal yet.
    fn default() -> (r: Self)
        ensures
            r == (StealStats { same_core: 0, same_numa: 0, remote_numa: 0, unknown: 0 }),
    {
        StealStats { same_core: 0, same_numa: 0, remote_numa: 0, unknown: 0 }
    }
}

/// `a + b`, or `usize::MAX` when it does not fit.
pub open spec fn capped_sum(a: int, b: int) -> int {
    if a + b <= usize::MAX {
        a + b
    } else {
        usize::MAX as int
    }
}

/// `s` after one more steal of proximity `p` (counts stop at `usize::MAX`).
pub open spec fn stats_after(s: StealStats, p: Proximity) -> StealStats {
    match p {
        Proximity::SameCore => StealStats { same_core: capped_sum(s.same_core as int, 1) as usize, ..s },
        Proximity::SameNuma => StealStats { same_numa: capped_sum(s.same_numa as int, 1) as usize, ..s },
        Proximity::RemoteNuma => StealStats { remote_numa: capped_sum(s.remote_numa as int, 1) as usize, ..s },
        Proximity::Unknown => StealStats { unknown: capped_sum(s.unknown as int, 1) as usize, ..s },
    }
}

impl StealStats {
    /// No steal of any proximity.
    pub open spec fn spec_zero() -> StealStats {
        StealStats { same_core: 0, same_numa: 0, remote_numa: 0, unknown: 0 }
    }

    /// The number of steals of every proximity (capped at `usize::MAX`).
    pub fn total(&self) -> (r: usize)
        ensures
            r == capped_sum(
                capped_sum(capped_sum(self.same_core as int, self.same_numa as int), self.remote_numa as int),
                self.unknown as int,
            ),
    {
        self.same_core.saturating_add(self.same_numa).saturating_add(self.remote_numa).saturating_add(self.unknown)
    }

    /// Counts one more steal of proximity `p`.
    pub fn record(&mut self, p: Proximity)
        ensures
            *final(self) == stats_after(*old(self), p),
    {
        match p {
            Proximity::SameCore => self.same_core = self.same_core.saturating_add(1),
            Proximity::SameNuma => self.same_numa = self.same_numa.saturating_add(1),
            Proximity::RemoteNuma => self.remote_numa = self.remote_numa.saturating_add(1),
            Proximity::Unknown => self.unknown = self.unknown.saturating_add(1),
        }
    }
}

/// The victims of worker `w` among `n` workers in the circular plan:
/// `w + 1, w + 2, ...` wrapping around, every other worker once.
pub open spec fn circular_victims(n: nat, w: nat) -> Seq<usize> {
    Seq::new((n - 1) as nat, |k: int| if w + 1 + k < n { (w + 1 + k) as usize } else { (w + 1 + k - n) as usize })
}

/// How close worker `v` is to worker `w` in the placements `ws`.
pub open spec fn class_of(ws: Seq<WorkerPlacement>, w: int, v: int) -> Proximity {
    if ws[v]@.2 == ws[w]@.2 {
        Proximity::SameCore
    } else if ws[v]@.3 == ws[w]@.3 {
        Proximity::SameNuma
    } else {
        Proximity::RemoteNuma
    }
}

/// The workers below `k` other than `w` of proximity `p`, in index order.
pub open spec fn class_prefix(ws: Seq<WorkerPlacement>, w: int, p: Proximity, k: int) -> Seq<usize> {
    Seq::new(k as nat, |i: int| i as usize).filter(|v: usize| v != w && class_of(ws, w, v as int) == p)
}

/// The workers other than `w` of proximity `p`, in index order.
pub open spec fn victims_of_class(ws: Seq<WorkerPlacement>, w: int, p: Proximity) -> Seq<usize> {
    class_prefix(ws, w, p, ws.len() as int)
}

/// Extending the range by worker `k` adds `k` exactly when it is another
/// worker of proximity `p`.
proof fn lemma_class_prefix_step(ws: Seq<WorkerPlacement>, w: int, p: Proximity, k: int)
    requires
        0 <= k < ws.len(),
        ws.len() <= usize::MAX,
    ensures
        class_prefix(ws, w, p, k + 1) == if k != w && class_of(ws, w, k) == p {
            class_prefix(ws, w, p, k).push(k as usize)
        } else {
            class_prefix(ws, w, p, k)
        },
{
    let all = Seq::new((k + 1) as nat, |i: int| i as usize);
    assert(all.drop_last() =~= Seq::new(k as nat, |i: int| i as usize));
    assert(all.last() == k as usize);
    reveal(Seq::filter);
}

/// The victims of worker `w` in the topology-aware plan: its SMT siblings,
/// then the rest of its NUMA node, then the remote workers, each group in
/// index order.
pub open spec fn topology_victims(ws: Seq<WorkerPlacement>, w: int) -> Seq<usize> {
    victims_of_class(ws, w, Proximity::SameCore) + victims_of_class(ws, w, Proximity::SameNuma)
        + victims_of_class(ws, w, Proximity::RemoteNuma)
}

/// The workers of proximity `p` below `k` are, in increasing order, exactly
/// those other than `w`.
proof fn lemma_class_prefix(ws: Seq<WorkerPlacement>, w: int, p: Proximity, k: int)
    requires
        0 <= k <= ws.len(),
        ws.len() <= usize::MAX,
    ensures
        forall|v: usize| #[trigger] class_prefix(ws, w, p, k).contains(v)
            <==> (v < k && v != w && class_of(ws, w, v as int) == p),
        forall|i: int, j: int| 0 <= i < j < class_prefix(ws, w, p, k).len()
            ==> #[trigger] class_prefix(ws, w, p, k)[i] < #[trigger] class_prefix(ws, w, p, k)[j],
    decreases k,
{
    if k == 0 {
        reveal(Seq::filter);
        assert(class_prefix(ws, w, p, 0).len() == 0);
    } else {
        lemma_class_prefix(ws, w, p, k - 1);
        lemma_class_prefix_step(ws, w, p, k - 1);
        let prev = class_prefix(ws, w, p, k - 1);
        let cur = class_prefix(ws, w, p, k);
        assert forall|v: usize| #[trigger] cur.contains(v) <==> (v < k && v != w && class_of(ws, w, v as int) == p) by {
            if cur.contains(v) {
                let i = choose|i: int| 0 <= i < cur.len() && cur[i] == v;
                if i < prev.len() {
                    assert(prev[i] == v);
                    assert(prev.contains(v));
                }
            }
            if v < k && v != w && class_of(ws, w, v as int) == p {
                if v < k - 1 {
                    assert(prev.contains(v));
                    let i = choose|i: int| 0 <= i < prev.len() && prev[i] == v;
                    assert(cur[i] == v);
                } else {
                    assert(cur[cur.len() - 1] == v);
                }
            }
        }
        assert forall|i: int, j: int| 0 <= i < j < cur.len() implies #[trigger] cur[i] < #[trigger] cur[j] by {
            if j == prev.len() {
                assert(prev.contains(prev[i]));
            } else {
                assert(cur[i] == prev[i] && cur[j] == prev[j]);
            }
        }
    }
}

/// Below `k`, each worker other than `w` falls in exactly one of the three
/// proximity classes.
proof fn lemma_class_prefix_total(ws: Seq<WorkerPlacement>, w: int, k: int)
    requires
        0 <= w < ws.len(),
        0 <= k <= ws.len(),
        ws.len() <= usize::MAX,
    ensures
        class_prefix(ws, w, Proximity::SameCore, k).len() + class_prefix(ws, w, Proximity::SameNuma, k).len()
            + class_prefix(ws, w, Proximity::RemoteNuma, k).len() == if w < k { k - 1 } else { k },
    decreases k,
{
    if k == 0 {
        reveal(Seq::filter);
    } else {
        lemma_class_prefix_total(ws, w, k - 1);
        lemma_class_prefix_step(ws, w, Proximity::SameCore, k - 1);
        lemma_class_prefix_step(ws, w, Proximity::SameNuma, k - 1);
        lemma_class_prefix_step(ws, w, Proximity::RemoteNuma, k - 1);
    }
}

/// Every worker other than `w` appears exactly once among the victims of
/// `w` in the topology-aware plan, and no other value appears.
pub proof fn lemma_topology_victims_cover(ws: Seq<WorkerPlacement>, w: int)
    requires
        0 <= w < ws.len(),
        ws.len() <= usize::MAX,
    ensures
        forall|v: usize| #[trigger] topology_victims(ws, w).contains(v) <==> (v < ws.len() && v != w),
        topology_victims(ws, w).no_duplicates(),
        topology_victims(ws, w).len() == ws.len() - 1,
{
    let n = ws.len() as int;
    lemma_class_prefix(ws, w, Proximity::SameCore, n);
    lemma_class_prefix(ws, w, Proximity::SameNuma, n);
    lemma_class_prefix(ws, w, Proximity::RemoteNuma, n);
    let a = victims_of_class(ws, w, Proximity::SameCore);
    let b = victims_of_class(ws, w, Proximity::SameNuma);
    let c = victims_of_class(ws, w, Proximity::RemoteNuma);
    let s = topology_victims(ws, w);
    assert(s == a + b + c);
    assert forall|v: usize| #[trigger] s.contains(v) <==> (v < n && v != w) by {
        if s.contains(v) {
            let i = choose|i: int| 0 <= i < s.len() && s[i] == v;
            if i < a.len() {
                assert(a[i] == v);
                assert(a.contains(v));
            } else if i < a.len() + b.len() {
                assert(b[i - a.len()] == v);
                assert(b.contains(v));
            } else {
                assert(c[i - a.len() - b.len()] == v);
                assert(c.contains(v));
            }
        }
        if v < n && v != w {
            if class_of(ws, w, v as int) == Proximity::SameCore {
                assert(a.contains(v));
                let i = choose|i: int| 0 <= i < a.len() && a[i] == v;
                assert(s[i] == v);
            } else if class_of(ws, w, v as int) == Proximity::SameNuma {
                assert(b.contains(v));
                let i = choose|i: int| 0 <= i < b.len() && b[i] == v;
                assert(s[a.len() + i] == v);
            } else {
                assert(c.contains(v));
                let i = choose|i: int| 0 <= i < c.len() && c[i] == v;
                assert(s[a.len() + b.len() + i] == v);
            }
        }
    }
    assert forall|i: int, j: int| 0 <= i < s.len() && 0 <= j < s.len() && i != j implies s[i] != s[j] by {
        let (lo, hi) = if i < j { (i, j) } else { (j, i) };
        let la = a.len() as int;
        let lb = b.len() as int;
        if hi < la {
            assert(a[lo] < a[hi]);
        } else if lo < la {
            assert(a.contains(a[lo]));
            if hi < la + lb {
                assert(b.contains(b[hi - la]));
            } else {
                assert(c.contains(c[hi - la - lb]));
            }
        } else if hi < la + lb {
            assert(b[lo - la] < b[hi - la]);
        } else if lo < la + lb {
            assert(b.contains(b[lo - la]));
            assert(c.contains(c[hi - la - lb]));
        } else {
            assert(c[lo - la - lb] < c[hi - la - lb]);
        }
    }
    lemma_class_prefix_total(ws, w, n);
}

/// The victims of `w` in the topology-aware plan, group by group: first
/// the workers on `w`'s core, then the other workers of its NUMA node, then
/// the remote workers; each group holds exactly the other workers of its
/// proximity, in ascending index order.
pub proof fn lemma_topology_victims_order(ws: Seq<WorkerPlacement>, w: int)
    requires
        0 <= w < ws.len(),
        ws.len() <= usize::MAX,
    ensures
        topology_victims(ws, w) == victims_of_class(ws, w, Proximity::SameCore)
            + victims_of_class(ws, w, Proximity::SameNuma) + victims_of_class(ws, w, Proximity::RemoteNuma),
        forall|p: Proximity, v: usize| #[trigger] victims_of_class(ws, w, p).contains(v)
            <==> (v < ws.len() && v != w && class_of(ws, w, v as int) == p),
        forall|p: Proximity, i: int, j: int| 0 <= i < j < victims_of_class(ws, w, p).len()
            ==> #[trigger] victims_of_class(ws, w, p)[i] < #[trigger] victims_of_class(ws, w, p)[j],
{
    assert forall|p: Proximity, v: usize| #[trigger] victims_of_class(ws, w, p).contains(v)
        <==> (v < ws.len() && v != w && class_of(ws, w, v as int) == p) by {
        lemma_class_prefix(ws, w, p, ws.len() as int);
    }
    assert forall|p: Proximity, i: int, j: int| 0 <= i < j < victims_of_class(ws, w, p).len()
        implies #[trigger] victims_of_class(ws, w, p)[i] < #[trigger] victims_of_class(ws, w, p)[j] by {
        lemma_class_prefix(ws, w, p, ws.len() as int);
    }
}

/// In the topology-aware order of worker `w`, of two victims the earlier
/// is at least as close to `w`: a worker on `w`'s core comes before every
/// other, a worker on another core of `w`'s NUMA node before every worker
/// of another node, and workers equally close come in ascending index
/// order.
pub proof fn lemma_topology_victims_by_placement(ws: Seq<WorkerPlacement>, w: int, i: int, j: int)
    requires
        0 <= w < ws.len(),
        ws.len() <= usize::MAX,
        0 <= i < j < topology_victims(ws, w).len(),
    ensures
        ({
            let a = topology_victims(ws, w)[i] as int;
            let b = topology_victims(ws, w)[j] as int;
            &&& ws[b]@.2 == ws[w]@.2 ==> ws[a]@.2 == ws[w]@.2 && a < b
            &&& (ws[b]@.2 != ws[w]@.2 && ws[b]@.3 == ws[w]@.3) ==> (ws[a]@.2 == ws[w]@.2
                || (ws[a]@.3 == ws[w]@.3 && a < b))
            &&& (ws[a]@.2 != ws[w]@.2 && ws[a]@.3 != ws[w]@.3) ==> (ws[b]@.2 != ws[w]@.2
                && ws[b]@.3 != ws[w]@.3 && a < b)
        }),
{
    lemma_topology_victims_order(ws, w);
    let sc = victims_of_class(ws, w, Proximity::SameCore);
    let sn = victims_of_class(ws, w, Proximity::SameNuma);
    let rn = victims_of_class(ws, w, Proximity::RemoteNuma);
    let s = topology_victims(ws, w);
    let la = sc.len() as int;
    let lb = sn.len() as int;
    assert(s == sc + sn + rn);
    if i < la {
        assert(s[i] == sc[i]);
        assert(sc.contains(sc[i]));
    } else if i < la + lb {
        assert(s[i] == sn[i - la]);
        assert(sn.contains(sn[i - la]));
    } else {
        assert(s[i] == rn[i - la - lb]);
        assert(rn.contains(rn[i - la - lb]));
    }
    if j < la {
        assert(s[j] == sc[j]);
        assert(sc.contains(sc[j]));
    } else if j < la + lb {
        assert(s[j] == sn[j - la]);
        assert(sn.contains(sn[j - la]));
    } else {
        assert(s[j] == rn[j - la - lb]);
        assert(rn.contains(rn[j - la - lb]));
    }
}

/// In the circular plan of `n` workers, worker `w`'s `k`-th victim is
/// worker `(w + 1 + k) mod n`.
pub proof fn lemma_circular_victim_at(n: nat, w: nat, k: int)
    requires
        w < n,
        n <= usize::MAX,
        0 <= k < n - 1,
    ensures
        circular_victims(n, w).len() == n - 1,
        circular_victims(n, w)[k] == (w + 1 + k) % (n as int),
{
    let x: int = w + 1 + k;
    if x < n {
        vstd::arithmetic::div_mod::lemma_small_mod(x as nat, n);
    } else {
        vstd::arithmetic::div_mod::lemma_small_mod((x - n) as nat, n);
        vstd::arithmetic::div_mod::lemma_mod_sub_multiples_vanish(x, n as int);
    }
}

/// Every worker other than `w` appears exactly once among the victims of
/// `w` in the circular plan, and no other value appears.
pub proof fn lemma_circular_victims_cover(n: nat, w: nat)
    requires
        w < n,
        n <= usize::MAX,
    ensures
        forall|v: usize| #[trigger] circular_victims(n, w).contains(v) <==> (v < n && v != w),
        circular_victims(n, w).no_duplicates(),
        circular_victims(n, w).len() == n - 1,
{
    let s = circular_victims(n, w);
    assert forall|v: usize| #[trigger] s.contains(v) <==> (v < n && v != w) by {
        if v < n && v != w {
            let k: int = if v > w { v - w - 1 } else { v + n - w - 1 };
            assert(s[k] == v);
        }
    }
}

/// For each worker, the other workers in the order it steals from them,
/// and the proximity of every worker to it.
pub struct StealPlan {
    victims: Vec<Vec<usize>>,
    proximity: Vec<Vec<Proximity>>,
}

impl StealPlan {
    /// The victim order of each worker.
    pub closed spec fn spec_victims(&self) -> Seq<Seq<usize>> {
        self.victims@.map_values(|v: Vec<usize>| v@)
    }

    /// The proximity of worker `v` to worker `w`.
    pub closed spec fn spec_proximity(&self, w: int, v: int) -> Proximity {
        self.proximity@[w]@[v]
    }

    /// Every worker has a victim list and a proximity for each worker.
    pub closed spec fn wf(&self) -> bool {
        &&& self.proximity@.len() == self.victims@.len()
        &&& forall|w: int| 0 <= w < self.victims@.len() ==> (#[trigger] self.proximity@[w])@.len() == self.victims@.len()
        &&& forall|w: int, k: int| 0 <= w < self.victims@.len() && 0 <= k < self.victims@[w]@.len()
            ==> (#[trigger] self.victims@[w]@[k]) < self.victims@.len()
    }

    /// The number of workers the plan covers.
    pub open spec fn workers(&self) -> nat {
        self.spec_victims().len()
    }

    /// Every worker lists every other worker of the plan as a victim.
    pub open spec fn covers_all(&self) -> bool {
        forall|w: int, v: usize| 0 <= w < self.workers() && v < self.workers() && v != w
            ==> #[trigger] self.spec_victims()[w].contains(v)
    }

    /// In a well-formed plan every victim is a worker of the plan.
    pub proof fn lemma_victims_in_range(&self)
        requires
            self.wf(),
        ensures
            forall|w: int, k: int| 0 <= w < self.workers() && 0 <= k < self.spec_victims()[w].len()
                ==> #[trigger] self.spec_victims()[w][k] < self.workers(),
    {
        assert forall|w: int, k: int| 0 <= w < self.workers() && 0 <= k < self.spec_victims()[w].len()
            implies #[trigger] self.spec_victims()[w][k] < self.workers() by {
            assert(self.spec_victims()[w] == self.victims@[w]@);
            assert(self.victims@[w]@[k] < self.victims@.len());
        }
    }

    /// The plan for workers with no known placement: worker `w` visits
    /// `w + 1, w + 2, ...`, wrapping around.
    pub fn circular(worker_count: usize) -> (r: Self)
        ensures
            r.wf(),
            r.covers_all(),
            r.workers() == worker_count,
            forall|w: int| 0 <= w < worker_count ==> #[trigger] r.spec_victims()[w] == circular_victims(worker_count as nat, w as nat),
            forall|w: int| 0 <= w < worker_count ==> #[trigger] r.spec_victims()[w].len() == worker_count - 1,
            forall|w: int, k: int| 0 <= w < worker_count && 0 <= k < worker_count - 1
                ==> #[trigger] r.spec_victims()[w][k] == (w + 1 + k) % (worker_count as int),
            forall|w: int, v: int| 0 <= w < worker_count && 0 <= v < worker_count ==> #[trigger] r.spec_proximity(w, v) == Proximity::Unknown,
    {
        let n = worker_count;
        let mut victims: Vec<Vec<usize>> = Vec::new();
        let mut proximity: Vec<Vec<Proximity>> = Vec::new();
        let mut w: usize = 0;
        while w < n
            invariant
                w <= n,
                victims@.len() == w,
                proximity@.len() == w,
                forall|x: int| 0 <= x < w ==> (#[trigger] victims@[x])@ == circular_victims(n as nat, x as nat),
                forall|x: int| 0 <= x < w ==> (#[trigger] proximity@[x])@ == Seq::new(n as nat, |v: int| Proximity::Unknown),
            decreases n - w,
        {
            let mut list: Vec<usize> = Vec::new();
            let mut offset: usize = 1;
            while offset < n
                invariant
                    w < n,
                    1 <= offset <= n,
                    list@ == circular_victims(n as nat, w as nat).take(offset - 1),
                decreases n - offset,
            {
                let victim = if offset < n - w { w + offset } else { offset - (n - w) };
                proof {
                    assert(list@.push(victim) =~= circular_victims(n as nat, w as nat).take(offset as int));
                }
                list.push(victim);
                offset += 1;
            }
            proof {
                assert(circular_victims(n as nat, w as nat).take((n - 1) as int) == circular_victims(n as nat, w as nat));
            }
            victims.push(list);
            let mut kinds: Vec<Proximity> = Vec::new();
            let mut v: usize = 0;
            while v < n
                invariant
                    v <= n,
                    kinds@ == Seq::new(v as nat, |v: int| Proximity::Unknown),
                decreases n - v,
            {
                kinds.push(Proximity::Unknown);
                proof {
                    assert(kinds@ =~= Seq::new((v + 1) as nat, |v: int| Proximity::Unknown));
                }
                v += 1;
            }
            proximity.push(kinds);
            w += 1;
        }
        let r = StealPlan { victims, proximity };
        proof {
            assert forall|x: int, k: int| 0 <= x < n && 0 <= k < victims@[x]@.len() implies (#[trigger] victims@[x]@[k]) < n by {
                assert(victims@[x]@ == circular_victims(n as nat, x as nat));
            }
            assert forall|x: int| 0 <= x < n implies #[trigger] r.spec_victims()[x] == circular_victims(n as nat, x as nat) by {
                assert(r.spec_victims()[x] == victims@[x]@);
            }
            assert forall|x: int, v: usize| 0 <= x < r.workers() && v < r.workers() && v != x
                implies #[trigger] r.spec_victims()[x].contains(v) by {
                lemma_circular_victims_cover(n as nat, x as nat);
                assert(r.spec_victims()[x] == circular_victims(n as nat, x as nat));
            }
            assert forall|x: int| 0 <= x < n implies #[trigger] r.spec_victims()[x].len() == n - 1 by {
                assert(r.spec_victims()[x] == circular_victims(n as nat, x as nat));
            }
            assert forall|x: int, k: int| 0 <= x < n && 0 <= k < n - 1
                implies #[trigger] r.spec_victims()[x][k] == (x + 1 + k) % (n as int) by {
                assert(r.spec_victims()[x] == circular_victims(n as nat, x as nat));
                lemma_circular_victim_at(n as nat, x as nat, k);
            }
        }
        r
    }

    /// The plan for a placed layout: each worker visits its SMT siblings
    /// first, then the other workers of its NUMA node, then the remote
    /// workers, each group in layout order. Cores with the same number in
    /// different packages are not siblings.
    pub fn topology_aware(layout: &WorkerLayout) -> (r: Self)
        requires
            layout.wf(),
        ensures
            r.wf(),
            r.covers_all(),
            r.workers() == layout.spec_workers().len(),
            forall|w: int| 0 <= w < r.workers() ==> #[trigger] r.spec_victims()[w] == topology_victims(layout.spec_workers(), w),
            forall|w: int, v: int| 0 <= w < r.workers() && 0 <= v < r.workers()
                ==> #[trigger] r.spec_proximity(w, v) == class_of(layout.spec_workers(), w, v),
            forall|w: int, v: int| 0 <= w < r.workers() && 0 <= v < r.workers()
                ==> (#[trigger] r.spec_proximity(w, v) == Proximity::SameCore
                    <==> layout.spec_workers()[v]@.2 == layout.spec_workers()[w]@.2),
            forall|w: int, v: int| 0 <= w < r.workers() && 0 <= v < r.workers()
                ==> (#[trigger] r.spec_proximity(w, v) == Proximity::SameNuma
                    <==> (layout.spec_workers()[v]@.2 != layout.spec_workers()[w]@.2
                        && layout.spec_workers()[v]@.3 == layout.spec_workers()[w]@.3)),
            forall|w: int, v: int| 0 <= w < r.workers() && 0 <= v < r.workers()
                ==> (#[trigger] r.spec_proximity(w, v) == Proximity::RemoteNuma
                    <==> (layout.spec_workers()[v]@.2 != layout.spec_workers()[w]@.2
                        && layout.spec_workers()[v]@.3 != layout.spec_workers()[w]@.3)),
    {
        let ws = layout.workers();
        let n = ws.len();
        let ghost sw = ws@;
        let mut victims: Vec<Vec<usize>> = Vec::new();
        let mut proximity: Vec<Vec<Proximity>> = Vec::new();
        let mut w: usize = 0;
        while w < n
            invariant
                w <= n,
                n == sw.len(),
                sw == ws@,
                sw == layout.spec_workers(),
                layout.wf(),
                victims@.len() == w,
                proximity@.len() == w,
                forall|x: int| 0 <= x < w ==> (#[trigger] victims@[x])@ == topology_victims(sw, x),
                forall|x: int| 0 <= x < w ==> (#[trigger] proximity@[x])@ == Seq::new(n as nat, |v: int| class_of(sw, x, v)),
                forall|x: int, k: int| 0 <= x < w && 0 <= k < victims@[x]@.len() ==> (#[trigger] victims@[x]@[k]) < n,
            decreases n - w,
        {
            let current = &ws[w];
            let mut same_core: Vec<usize> = Vec::new();
            let mut same_node: Vec<usize> = Vec::new();
            let mut other: Vec<usize> = Vec::new();
            let mut kinds: Vec<Proximity> = Vec::new();
            let mut v: usize = 0;
            while v < n
                invariant
                    w < n,
                    v <= n,
                    n == sw.len(),
                    sw == ws@,
                    layout.wf(),
                    sw == layout.spec_workers(),
                    *current == sw[w as int],
                    same_core@ == class_prefix(sw, w as int, Proximity::SameCore, v as int),
                    same_node@ == class_prefix(sw, w as int, Proximity::SameNuma, v as int),
                    other@ == class_prefix(sw, w as int, Proximity::RemoteNuma, v as int),
                    kinds@ == Seq::new(v as nat, |k: int| class_of(sw, w as int, k)),
                    forall|k: int| 0 <= k < same_core@.len() ==> #[trigger] same_core@[k] < v,
                    forall|k: int| 0 <= k < same_node@.len() ==> #[trigger] same_node@[k] < v,
                    forall|k: int| 0 <= k < other@.len() ==> #[trigger] other@[k] < v,
                decreases n - v,
            {
                let candidate = &ws[v];
                proof {
                    assert(sw[v as int]@.0 == v);
                    assert(sw[w as int]@.0 == w);
                    lemma_class_prefix_step(sw, w as int, Proximity::SameCore, v as int);
                    lemma_class_prefix_step(sw, w as int, Proximity::SameNuma, v as int);
                    lemma_class_prefix_step(sw, w as int, Proximity::RemoteNuma, v as int);
                }
                let kind = if candidate.core_id() == current.core_id() {
                    Proximity::SameCore
                } else if candidate.numa_node() == current.numa_node() {
                    Proximity::SameNuma
                } else {
                    Proximity::RemoteNuma
                };
                if candidate.worker_index() != current.worker_index() {
                    match kind {
                        Proximity::SameCore => same_core.push(candidate.worker_index()),
                        Proximity::SameNuma => same_node.push(candidate.worker_index()),
                        _ => other.push(candidate.worker_index()),
                    }
                }
                kinds.push(kind);
                proof {
                    assert(kinds@ =~= Seq::new((v + 1) as nat, |k: int| class_of(sw, w as int, k)));
                }
                v += 1;
            }
            same_core.append(&mut same_node);
            same_core.append(&mut other);
            victims.push(same_core);
            proximity.push(kinds);
            w += 1;
        }
        let r = StealPlan { victims, proximity };
        proof {
            assert forall|x: int| 0 <= x < n implies #[trigger] r.spec_victims()[x] == topology_victims(sw, x) by {
                assert(r.spec_victims()[x] == victims@[x]@);
            }
            assert forall|x: int, v: usize| 0 <= x < r.workers() && v < r.workers() && v != x
                implies #[trigger] r.spec_victims()[x].contains(v) by {
                lemma_topology_victims_cover(sw, x);
                assert(r.spec_victims()[x] == topology_victims(sw, x));
            }
        }
        r
    }

    /// Returns the victims of `worker_index`, in stealing order.
    pub fn victims_for(&self, worker_index: usize) -> (r: &[usize])
        requires
            worker_index < self.workers(),
        ensures
            r@ == self.spec_victims()[worker_index as int],
    {
        self.victims[worker_index].as_slice()
    }

    /// Returns the proximity of worker `victim` to worker `thief`.
    pub fn proximity(&self, thief: usize, victim: usize) -> (r: Proximity)
        requires
            self.wf(),
            thief < self.workers(),
            victim < self.workers(),
        ensures
            r == self.spec_proximity(thief as int, victim as int),
    {
        proof {
            assert(self.spec_victims().len() == self.victims@.len());
        }
        self.proximity[thief][victim]
    }

    /// Counts a steal by `thief` from `victim` in `stats`, by their
    /// proximity.
    pub fn record_steal(&self, thief: usize, victim: usize, stats: &mut StealStats)
        requires
            self.wf(),
            thief < self.workers(),
            victim < self.workers(),
        ensures
            *final(stats) == stats_after(*old(stats), self.spec_proximity(thief as int, victim as int)),
    {
        let p = self.proximity(thief, victim);
        stats.record(p);
    }

    /// The victim list of every worker.
    pub fn victim_lists(&self) -> (r: &[Vec<usize>])
        ensures
            r@.map_values(|v: Vec<usize>| v@) == self.spec_victims(),
    {
        self.victims.as_slice()
    }
}

} // verus!
