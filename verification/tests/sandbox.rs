use hoplite::console::ConsoleLimits;
use hoplite::sandbox::{
    authorize_peer, check_bundle_metadata, check_same_file, check_socket_mode, child_limits,
    denied_syscalls_aarch64, denied_syscalls_x86_64, poll_timeout_millis, poll_verdict,
    seccomp_program, PollVerdict, ResourceLimit, SockFilter, WaitEvent, AUDIT_ARCH_X86_64,
    POLL_ERR, POLL_HUP, POLL_IN, POLL_NVAL, RLIMIT_AS, RLIMIT_CORE, RLIMIT_CPU, RLIMIT_FSIZE,
    RLIMIT_NOFILE, SECCOMP_RET_ALLOW, SECCOMP_RET_ERRNO, SECCOMP_RET_KILL_PROCESS,
};

#[test]
fn closed_clients_win_over_everything_else() {
    assert_eq!(
        poll_verdict(2, false, POLL_IN, POLL_HUP | POLL_IN),
        PollVerdict::Event(WaitEvent::ClientClosed)
    );
    assert_eq!(poll_verdict(2, false, POLL_IN, POLL_IN), PollVerdict::Event(WaitEvent::ClientReadable));
    assert_eq!(
        poll_verdict(1, false, POLL_ERR | POLL_IN, 0),
        PollVerdict::Event(WaitEvent::EvaluatorClosed)
    );
    assert_eq!(poll_verdict(1, false, POLL_IN, 0), PollVerdict::Event(WaitEvent::EvaluatorReadable));
    assert_eq!(poll_verdict(1, false, 0, POLL_NVAL), PollVerdict::Event(WaitEvent::ClientClosed));
    assert_eq!(poll_verdict(0, false, POLL_IN, POLL_IN), PollVerdict::Event(WaitEvent::Timeout));
    assert_eq!(poll_verdict(-1, true, 0, 0), PollVerdict::Again);
    assert_eq!(poll_verdict(-1, false, 0, 0), PollVerdict::Failed);
    assert_eq!(poll_verdict(1, false, 0, 0), PollVerdict::Again);
    assert_eq!(poll_timeout_millis(u128::MAX), i32::MAX);
    assert_eq!(poll_timeout_millis(250), 250);
}

#[test]
fn evaluators_run_under_fixed_limits() {
    let limits = ConsoleLimits { evaluation_millis: 5_000, ..ConsoleLimits::default() };
    assert_eq!(
        child_limits(limits),
        vec![
            ResourceLimit { resource: RLIMIT_AS, value: 134_217_728 },
            ResourceLimit { resource: RLIMIT_CPU, value: 6 },
            ResourceLimit { resource: RLIMIT_FSIZE, value: 0 },
            ResourceLimit { resource: RLIMIT_CORE, value: 0 },
            ResourceLimit { resource: RLIMIT_NOFILE, value: 16 },
        ]
    );
    let one = ConsoleLimits { evaluation_millis: 1, ..ConsoleLimits::default() };
    assert_eq!(child_limits(one)[1].value, 2);
    let huge = ConsoleLimits { evaluation_millis: u64::MAX, ..ConsoleLimits::default() };
    assert_eq!(child_limits(huge)[1].value, u64::MAX / 1000 + 1);
}

#[test]
fn seccomp_denies_each_listed_call_with_eperm() {
    let denied = denied_syscalls_x86_64();
    assert_eq!(denied.len(), 53);
    assert_eq!(denied_syscalls_aarch64().len(), 45);
    let program = seccomp_program(AUDIT_ARCH_X86_64, &denied).unwrap();
    assert_eq!(program.len(), 4 + 2 * denied.len() + 1);
    assert_eq!(program[1], SockFilter { code: 0x15, jt: 1, jf: 0, k: AUDIT_ARCH_X86_64 });
    assert_eq!(program[2], SockFilter { code: 0x06, jt: 0, jf: 0, k: SECCOMP_RET_KILL_PROCESS });
    assert_eq!(program[4], SockFilter { code: 0x15, jt: 0, jf: 1, k: 2 });
    assert_eq!(program[5], SockFilter { code: 0x06, jt: 0, jf: 0, k: SECCOMP_RET_ERRNO | 1 });
    assert_eq!(program.last(), Some(&SockFilter { code: 0x06, jt: 0, jf: 0, k: SECCOMP_RET_ALLOW }));
    assert_eq!(
        seccomp_program(AUDIT_ARCH_X86_64, &vec![1; 40_000]).unwrap_err(),
        "console seccomp program is too large"
    );
    assert_eq!(seccomp_program(AUDIT_ARCH_X86_64, &vec![1; 32_765]).unwrap().len(), 65_535);
}

#[test]
fn peers_bundles_and_sockets_are_checked() {
    assert!(authorize_peer(1000, 1000).is_ok());
    assert_eq!(
        authorize_peer(0, 1000).unwrap_err(),
        "console peer uid 0 does not match supervisor uid 1000"
    );
    assert!(check_bundle_metadata(false, true, 0o444, 1000, 1000).is_ok());
    assert!(check_bundle_metadata(false, true, 0o400, 0, 1000).is_ok());
    assert_eq!(
        check_bundle_metadata(true, true, 0o444, 1000, 1000).unwrap_err(),
        "console client bundle must be a regular non-symlink file"
    );
    assert_eq!(
        check_bundle_metadata(false, true, 0o644, 1000, 1000).unwrap_err(),
        "console client bundle must have no write permission bits"
    );
    assert_eq!(
        check_bundle_metadata(false, true, 0o444, 42, 1000).unwrap_err(),
        "console client bundle uid 42 is neither supervisor uid 1000 nor root"
    );
    assert!(check_same_file(1, 2, 1, 2).is_ok());
    assert_eq!(
        check_same_file(1, 2, 1, 3).unwrap_err(),
        "console client bundle changed while it was opened"
    );
    assert!(check_socket_mode("console socket", 0o140600).is_ok());
    assert_eq!(
        check_socket_mode("console socket", 0o140644).unwrap_err(),
        "console socket mode is 644, expected 600"
    );
    assert_eq!(
        check_socket_mode("application console broker socket", 0o7).unwrap_err(),
        "application console broker socket mode is 7, expected 600"
    );
}
