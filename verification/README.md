# weave

A work-stealing thread pool whose decision-making core is proved correct
with Verus.

## Layout

- `src/` — the verified library (crate `weave`):
  - `topology/` — logical CPUs, cores, packages and NUMA nodes; Linux
    identifier lists (`id_list`); the meaning of each sysfs file (`sysfs`);
    the NUMA layout and topology assembly (`discovery`); the order in which
    discovery reads files, as a state machine (`probe`); error messages.
  - `layout` — worker placement plans (one worker per logical CPU or per
    physical core).
  - `steal` — stealing plans (circular or topology-aware) and steal counts.
  - `job`, `scheduler` — jobs, per-worker and global queues by priority, and
    the rule by which a worker picks its next job.
  - `builder`, `error` — pool configuration and construction errors.
  - `panics` — which panic a `join` or a scope propagates.
  - `iter` — parallel sources (ranges, slices, chunks) and how they split.
  - `storage::local` — access rules of worker-local storage.
  - `text`, `external` — string helpers and declarations of std types.
- `app/` — ordinary Rust around the library: threads, locks, channels,
  CPU pinning through libc, sysfs reading, handles, scopes, worker-local
  storage and the parallel-iterator adaptors and consumers.
- `tests/` — tests of the library.

The main proved properties: parsed identifier lists are ascending and free
of repetition; a worker takes its own newest job, else the oldest global
job, else the oldest job of its first victim, always at the highest
priority present; no job is lost or duplicated by the queues; an idle
worker sees every queue empty; every stealing plan lists each other worker
exactly once; a one-worker-per-core layout has one worker per physical core.
