//! Pool-construction failures: configuration errors, worker start-up errors
//! and CPU-affinity errors, with their messages and causes.

use vstd::prelude::*;
use crate::text::{chars_of, decimal, decimal_string};
use crate::topology::CpuId;

verus! {

broadcast use crate::topology::group_id_equality;

/// Why a worker could not be pinned to its logical CPU.
#[derive(Debug)]
pub enum AffinityError {
    /// The CPU identifier does not fit in the fixed-size affinity mask.
    CpuOutOfRange(CpuId),
    /// The platform offers no CPU-affinity control.
    UnsupportedPlatform,
    /// The operating system refused the request.
    Os(std::io::Error),
}

/// Pool-construction failure.
#[derive(Debug)]
pub enum BuildError {
    /// At least one worker is required.
    ZeroThreads,
    /// Thread names cannot contain a NUL character.
    InvalidThreadName,
    /// The operating system could not create a worker.
    Spawn(std::io::Error),
    /// The start-up channel closed before every worker confirmed
    /// initialization.
    StartupDisconnected(std::sync::mpsc::RecvError),
    /// A worker could not apply its requested CPU placement during start-up.
    Affinity {
        /// Index of the worker whose initialization failed.
        worker_index: usize,
        /// Logical CPU requested for that worker.
        cpu: CpuId,
        /// Underlying affinity failure.
        source: AffinityError,
    },
}

/// The underlying cause of a [`BuildError`].
#[derive(Debug)]
pub enum BuildCause<'a> {
    /// An operating-system error.
    Io(&'a std::io::Error),
    /// A closed start-up channel.
    Recv(&'a std::sync::mpsc::RecvError),
    /// An affinity failure.
    Affinity(&'a AffinityError),
}

/// The text of an operating-system error, as its `Display` writes it.
/// Nothing is claimed of the text, which the operating system chooses.
#[verifier::external_body]
pub(crate) fn os_error_text(e: &std::io::Error) -> String {
    format!("{e}")
}

/// The text of a closed-channel error, as its `Display` writes it.
/// Nothing is claimed of the text.
#[verifier::external_body]
fn recv_error_text(e: &std::sync::mpsc::RecvError) -> String {
    format!("{e}")
}

/// The number of CPUs that `libc::cpu_set_t` can hold on this platform
/// (`libc::CPU_SETSIZE`). The value differs between platforms (32 on 32-bit
/// Android, 128 or 256 on some others, 1024 on most); only the range that
/// every definition in libc falls in, 32 to 1024, is claimed.
#[verifier::external_body]
fn cpu_set_capacity() -> (r: usize)
    ensures
        32 <= r <= 1024,
{
    libc::CPU_SETSIZE as usize
}

/// `prefix` followed by `s`, as a new string.
fn joined(prefix: &str, s: &str) -> (r: String)
    ensures
        r@ == prefix@ + s@,
{
    let mut r = String::from_str(prefix);
    r.append(s);
    r
}

/// Whether `s` starts with `prefix`.
pub open spec fn starts_with(s: Seq<char>, prefix: Seq<char>) -> bool {
    s.len() >= prefix.len() && s.take(prefix.len() as int) == prefix
}

/// The message of an affinity failure without an operating-system cause.
pub open spec fn affinity_message(e: AffinityError) -> Seq<char> {
    match e {
        AffinityError::CpuOutOfRange(cpu) => "CPU "@ + decimal(cpu@ as nat) + " cannot be represented by the affinity mask"@,
        AffinityError::UnsupportedPlatform => "CPU affinity is not supported on this platform"@,
        AffinityError::Os(_) => "cannot set CPU affinity: "@,
    }
}

/// The message of an affinity failure whose operating-system cause (if it
/// has one) reads `cause`.
pub open spec fn affinity_message_with(e: AffinityError, cause: Seq<char>) -> Seq<char> {
    match e {
        AffinityError::Os(_) => affinity_message(e) + cause,
        _ => affinity_message(e),
    }
}

/// The message of an operating-system refusal to pin a thread, whose
/// error reads `cause`.
pub fn os_affinity_message(cause: &str) -> (r: String)
    ensures
        r@ == "cannot set CPU affinity: "@ + cause@,
{
    joined("cannot set CPU affinity: ", cause)
}

impl AffinityError {
    /// The message, given the text of the operating system's error: for an
    /// operating-system refusal a fixed prefix then `cause`; otherwise the
    /// fixed text, and `cause` is not used.
    pub fn message_with_cause(&self, cause: &str) -> (r: String)
        ensures
            r@ == affinity_message_with(*self, cause@),
    {
        match self {
            AffinityError::CpuOutOfRange(cpu) => {
                let n = decimal_string(cpu.get());
                let mut r = joined("CPU ", n.as_str());
                r.append(" cannot be represented by the affinity mask");
                r
            },
            AffinityError::UnsupportedPlatform => String::from_str("CPU affinity is not supported on this platform"),
            AffinityError::Os(_) => os_affinity_message(cause),
        }
    }

    /// The message: for an operating-system refusal, a fixed prefix then
    /// the operating system's text (see [`Self::message_with_cause`]).
    pub fn message(&self) -> (r: String)
        ensures
            !(*self is Os) ==> r@ == affinity_message(*self),
            exists|cause: Seq<char>| r@ == #[trigger] affinity_message_with(*self, cause),
            starts_with(r@, affinity_message(*self)),
    {
        let t = match self {
            AffinityError::Os(e) => os_error_text(e),
            _ => String::new(),
        };
        let r = self.message_with_cause(t.as_str());
        proof {
            assert(r@ == affinity_message_with(*self, t@));
            assert(r@.take(affinity_message(*self).len() as int) =~= affinity_message(*self));
        }
        r
    }

    /// The operating-system error behind the failure, if any.
    pub fn source(&self) -> (r: Option<&std::io::Error>)
        ensures
            match *self {
                AffinityError::Os(e) => r == Some(&e),
                _ => r is None,
            },
    {
        match self {
            AffinityError::Os(e) => Some(e),
            _ => None,
        }
    }
}

/// Whether logical CPU `cpu` fits in an affinity mask of `capacity` CPUs;
/// `CpuOutOfRange` when it does not.
pub fn check_mask_capacity(cpu: CpuId, capacity: usize) -> (r: Result<(), AffinityError>)
    ensures
        r is Ok <==> cpu@ < capacity,
        r matches Err(e) ==> e matches AffinityError::CpuOutOfRange(c) && c == cpu,
{
    if cpu.get() >= capacity {
        Err(AffinityError::CpuOutOfRange(cpu))
    } else {
        Ok(())
    }
}

/// Whether an affinity mask may hold `capacity` CPUs on some platform:
/// libc defines between 32 and 1024.
pub open spec fn possible_mask_capacity(capacity: int) -> bool {
    32 <= capacity <= 1024
}

/// Whether logical CPU `cpu` fits in this platform's affinity mask, before
/// any mask is built: it does when its identifier is below the mask's
/// capacity, which is between 32 and 1024 CPUs depending on the platform.
pub fn check_cpu_in_mask(cpu: CpuId) -> (r: Result<(), AffinityError>)
    ensures
        exists|capacity: int| #[trigger] possible_mask_capacity(capacity) && (r is Ok <==> cpu@ < capacity),
        cpu@ < 32 ==> r is Ok,
        cpu@ >= 1024 ==> r is Err,
        r matches Err(e) ==> e matches AffinityError::CpuOutOfRange(c) && c == cpu,
{
    let capacity = cpu_set_capacity();
    let r = check_mask_capacity(cpu, capacity);
    proof {
        assert(possible_mask_capacity(capacity as int) && (r is Ok <==> cpu@ < capacity as int));
    }
    r
}

/// The message of a build failure without an outside cause, or the fixed
/// prefix of one with such a cause.
pub open spec fn build_message(e: BuildError) -> Seq<char> {
    match e {
        BuildError::ZeroThreads => "a pool needs at least one worker"@,
        BuildError::InvalidThreadName => "thread name contains a NUL byte"@,
        BuildError::Spawn(_) => "cannot start worker: "@,
        BuildError::StartupDisconnected(_) => "worker startup ended before all confirmations were received: "@,
        BuildError::Affinity { worker_index, cpu, source } => "cannot pin worker "@ + decimal(worker_index as nat) + " to CPU "@
            + decimal(cpu@ as nat) + ": "@ + affinity_message(source),
    }
}

/// The message of a build failure whose outside cause (if it has one:
/// the spawn error, the channel error, or the operating system's refusal
/// to pin) reads `cause`.
pub open spec fn build_message_with(e: BuildError, cause: Seq<char>) -> Seq<char> {
    match e {
        BuildError::Spawn(_) | BuildError::StartupDisconnected(_) => build_message(e) + cause,
        BuildError::Affinity { worker_index, cpu, source } => "cannot pin worker "@ + decimal(worker_index as nat)
            + " to CPU "@ + decimal(cpu@ as nat) + ": "@ + affinity_message_with(source, cause),
        _ => build_message(e),
    }
}

/// The message of a worker that could not be started, whose error reads
/// `cause`.
pub fn spawn_message(cause: &str) -> (r: String)
    ensures
        r@ == "cannot start worker: "@ + cause@,
{
    joined("cannot start worker: ", cause)
}

/// The message of a start-up channel that closed early, whose error reads
/// `cause`.
pub fn startup_message(cause: &str) -> (r: String)
    ensures
        r@ == "worker startup ended before all confirmations were received: "@ + cause@,
{
    joined("worker startup ended before all confirmations were received: ", cause)
}

/// The message of worker `worker_index` failing to be pinned to `cpu`,
/// whose affinity failure reads `source_text`.
pub fn pin_failure_message(worker_index: usize, cpu: CpuId, source_text: &str) -> (r: String)
    ensures
        r@ == "cannot pin worker "@ + decimal(worker_index as nat) + " to CPU "@ + decimal(cpu@ as nat) + ": "@
            + source_text@,
{
    let w = decimal_string(worker_index);
    let c = decimal_string(cpu.get());
    let mut r = joined("cannot pin worker ", w.as_str());
    r.append(" to CPU ");
    r.append(c.as_str());
    r.append(": ");
    r.append(source_text);
    proof {
        assert(r@ =~= "cannot pin worker "@ + decimal(worker_index as nat) + " to CPU "@ + decimal(cpu@ as nat) + ": "@
            + source_text@);
    }
    r
}

impl BuildError {
    /// The message, given the text of the outside cause: the fixed text of
    /// each failure, followed by `cause` where the failure has an outside
    /// cause; otherwise `cause` is not used.
    pub fn message_with_cause(&self, cause: &str) -> (r: String)
        ensures
            r@ == build_message_with(*self, cause@),
    {
        match self {
            BuildError::ZeroThreads => String::from_str("a pool needs at least one worker"),
            BuildError::InvalidThreadName => String::from_str("thread name contains a NUL byte"),
            BuildError::Spawn(_) => spawn_message(cause),
            BuildError::StartupDisconnected(_) => startup_message(cause),
            BuildError::Affinity { worker_index, cpu, source } => {
                let m = source.message_with_cause(cause);
                pin_failure_message(*worker_index, *cpu, m.as_str())
            },
        }
    }

    /// The message: the fixed text of each failure, followed by the text of
    /// its cause where it has one (see [`Self::message_with_cause`]).
    pub fn message(&self) -> (r: String)
        ensures
            match *self {
                BuildError::ZeroThreads | BuildError::InvalidThreadName => r@ == build_message(*self),
                BuildError::Affinity { source, .. } => !(source is Os) ==> r@ == build_message(*self),
                _ => true,
            },
            exists|cause: Seq<char>| r@ == #[trigger] build_message_with(*self, cause),
            starts_with(r@, build_message(*self)),
    {
        let t = match self {
            BuildError::Spawn(e) => os_error_text(e),
            BuildError::StartupDisconnected(e) => recv_error_text(e),
            BuildError::Affinity { source: AffinityError::Os(e), .. } => os_error_text(e),
            _ => String::new(),
        };
        let r = self.message_with_cause(t.as_str());
        proof {
            assert(r@ == build_message_with(*self, t@));
            assert(r@.take(build_message(*self).len() as int) =~= build_message(*self));
        }
        r
    }

    /// The underlying cause, if any.
    pub fn source(&self) -> (r: Option<BuildCause<'_>>)
        ensures
            match *self {
                BuildError::Spawn(e) => r == Some(BuildCause::Io(&e)),
                BuildError::StartupDisconnected(e) => r == Some(BuildCause::Recv(&e)),
                BuildError::Affinity { source, .. } => r == Some(BuildCause::Affinity(&source)),
                _ => r is None,
            },
    {
        match self {
            BuildError::Spawn(e) => Some(BuildCause::Io(e)),
            BuildError::StartupDisconnected(e) => Some(BuildCause::Recv(e)),
            BuildError::Affinity { source, .. } => Some(BuildCause::Affinity(source)),
            _ => None,
        }
    }
}

/// Checks a pool configuration before anything starts: at least one
/// worker, and no NUL character in the thread-name prefix.
pub fn check_pool_config(num_threads: usize, thread_name: &str) -> (r: Result<(), BuildError>)
    ensures
        num_threads == 0 ==> r matches Err(BuildError::ZeroThreads),
        num_threads != 0 && thread_name@.contains('\0') ==> r matches Err(BuildError::InvalidThreadName),
        num_threads != 0 && !thread_name@.contains('\0') ==> r is Ok,
{
    if num_threads == 0 {
        return Err(BuildError::ZeroThreads);
    }
    let chars = chars_of(thread_name);
    let mut i: usize = 0;
    while i < chars.len()
        invariant
            i <= chars@.len(),
            num_threads != 0,
            chars@ == thread_name@,
            forall|k: int| 0 <= k < i ==> chars@[k] != '\0',
        decreases chars@.len() - i,
    {
        if chars[i] == '\0' {
            return Err(BuildError::InvalidThreadName);
        }
        i += 1;
    }
    Ok(())
}

/// What one start-up confirmation means: a worker that started, the
/// failure it reported, or a channel that closed before it reported.
pub fn startup_outcome(received: Result<Result<(), BuildError>, std::sync::mpsc::RecvError>) -> (r: Result<(), BuildError>)
    ensures
        match received {
            Ok(Ok(())) => r is Ok,
            Ok(Err(e)) => r == Err::<(), BuildError>(e),
            Err(e) => r == Err::<(), BuildError>(BuildError::StartupDisconnected(e)),
        },
{
    match received {
        Ok(Ok(())) => Ok(()),
        Ok(Err(e)) => Err(e),
        Err(e) => Err(BuildError::StartupDisconnected(e)),
    }
}

} // verus!
