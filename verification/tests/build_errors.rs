use std::io;
use weave::error::{check_cpu_in_mask, check_mask_capacity, check_pool_config, startup_outcome, BuildCause};
use weave::topology::CpuId;
use weave::{AffinityError, BuildError};

#[test]
fn affinity_errors_without_a_cause_describe_the_failure() {
    let error = AffinityError::CpuOutOfRange(CpuId::new(1234));
    assert_eq!(error.message(), "CPU 1234 cannot be represented by the affinity mask");
    assert!(error.source().is_none());

    let error = AffinityError::UnsupportedPlatform;
    assert_eq!(error.message(), "CPU affinity is not supported on this platform");
    assert!(error.source().is_none());
}

#[test]
fn build_error_preserves_worker_context_and_the_full_cause_chain() {
    // Preserve a raw OS code without relying on platform-specific message text.
    let os_error = io::Error::from_raw_os_error(22);
    let os_message = os_error.to_string();
    let error = BuildError::Affinity {
        worker_index: 2,
        cpu: CpuId::new(7),
        source: AffinityError::Os(os_error),
    };

    assert_eq!(
        error.message(),
        format!("cannot pin worker 2 to CPU 7: cannot set CPU affinity: {os_message}")
    );
    let affinity = match error.source() {
        Some(BuildCause::Affinity(affinity)) => affinity,
        _ => panic!("expected an affinity cause"),
    };
    let os = affinity.source().unwrap();
    assert_eq!(os.raw_os_error(), Some(22));
    assert!(std::error::Error::source(os).is_none());
}

#[test]
fn build_error_preserves_an_affinity_failure_without_an_os_cause() {
    let error = BuildError::Affinity {
        worker_index: 3,
        cpu: CpuId::new(1234),
        source: AffinityError::CpuOutOfRange(CpuId::new(1234)),
    };
    let affinity = match error.source() {
        Some(BuildCause::Affinity(affinity)) => affinity,
        _ => panic!("expected an affinity cause"),
    };
    assert!(matches!(affinity, AffinityError::CpuOutOfRange(cpu) if cpu.get() == 1234));
    assert!(affinity.source().is_none());
}

#[test]
fn configuration_errors_have_fixed_messages() {
    assert!(matches!(check_pool_config(0, "weave"), Err(BuildError::ZeroThreads)));
    assert!(matches!(check_pool_config(2, "a\0b"), Err(BuildError::InvalidThreadName)));
    assert!(check_pool_config(2, "weave").is_ok());
    assert_eq!(BuildError::ZeroThreads.message(), "a pool needs at least one worker");
    assert_eq!(BuildError::InvalidThreadName.message(), "thread name contains a NUL byte");
    assert!(BuildError::ZeroThreads.source().is_none());
    let spawn = BuildError::Spawn(io::Error::from_raw_os_error(11));
    assert!(spawn.message().starts_with("cannot start worker: "));
    assert!(matches!(spawn.source(), Some(BuildCause::Io(e)) if e.raw_os_error() == Some(11)));
    let os = AffinityError::Os(io::Error::from_raw_os_error(1));
    assert!(os.message().starts_with("cannot set CPU affinity: "));
}

#[test]
fn startup_confirmations_stop_at_the_first_failure() {
    assert!(startup_outcome(Ok(Ok(()))).is_ok());
    let failure = startup_outcome(Ok(Err(BuildError::Affinity {
        worker_index: 1,
        cpu: CpuId::new(5),
        source: AffinityError::CpuOutOfRange(CpuId::new(5)),
    })));
    assert!(matches!(failure, Err(BuildError::Affinity { worker_index: 1, .. })));
    let closed = startup_outcome(Err(std::sync::mpsc::RecvError)).unwrap_err();
    assert!(matches!(closed, BuildError::StartupDisconnected(_)));
    assert!(closed.message().contains("before all confirmations"));
    assert!(matches!(closed.source(), Some(BuildCause::Recv(_))));
}

#[test]
fn cpus_must_fit_the_affinity_mask() {
    assert!(check_mask_capacity(CpuId::new(3), 4).is_ok());
    assert!(matches!(
        check_mask_capacity(CpuId::new(4), 4),
        Err(AffinityError::CpuOutOfRange(cpu)) if cpu.get() == 4
    ));
    assert!(check_cpu_in_mask(CpuId::new(0)).is_ok());
    assert!(check_cpu_in_mask(CpuId::new(31)).is_ok());
    assert!(matches!(
        check_cpu_in_mask(CpuId::new(1024)),
        Err(AffinityError::CpuOutOfRange(cpu)) if cpu.get() == 1024
    ));
    assert!(matches!(
        check_cpu_in_mask(CpuId::new(usize::MAX)),
        Err(AffinityError::CpuOutOfRange(_))
    ));
}

#[test]
fn messages_with_a_cause_end_with_exactly_that_cause() {
    let error = BuildError::Affinity {
        worker_index: 2,
        cpu: CpuId::new(7),
        source: AffinityError::Os(io::Error::from_raw_os_error(22)),
    };
    assert_eq!(error.message_with_cause("boom"), "cannot pin worker 2 to CPU 7: cannot set CPU affinity: boom");
    let spawn = BuildError::Spawn(io::Error::from_raw_os_error(11));
    assert_eq!(spawn.message_with_cause("busy"), "cannot start worker: busy");
    assert_eq!(spawn.message(), format!("cannot start worker: {}", io::Error::from_raw_os_error(11)));
    let closed = BuildError::StartupDisconnected(std::sync::mpsc::RecvError);
    assert_eq!(
        closed.message(),
        format!("worker startup ended before all confirmations were received: {}", std::sync::mpsc::RecvError)
    );
    assert_eq!(BuildError::ZeroThreads.message_with_cause("ignored"), "a pool needs at least one worker");
    assert_eq!(AffinityError::UnsupportedPlatform.message_with_cause("ignored"), "CPU affinity is not supported on this platform");
    assert_eq!(
        weave::error::pin_failure_message(3, CpuId::new(12), "why"),
        "cannot pin worker 3 to CPU 12: why"
    );
}
