//! The operating-system policy around a console evaluator: which event
//! ends a wait, the resource limits and seccomp program of the evaluator
//! process, and the ownership and permission checks on its socket, peer and
//! client bundle.

use vstd::prelude::*;
use crate::console::ConsoleLimits;
use crate::text::{decimal_chars, owned, push_char, push_decimal, push_str};

verus! {

/// What ended a wait on the evaluator and client streams.
#[derive(Clone, Copy, Debug, PartialEq, Eq, Structural)]
pub enum WaitEvent {
    EvaluatorReadable,
    EvaluatorClosed,
    ClientReadable,
    ClientClosed,
    Timeout,
}

pub const POLL_IN: i16 = 0x001;
pub const POLL_ERR: i16 = 0x008;
pub const POLL_HUP: i16 = 0x010;
pub const POLL_NVAL: i16 = 0x020;

/// What one `poll` of the two streams comes to.
#[derive(Clone, Copy, Debug, PartialEq, Eq, Structural)]
pub enum PollVerdict {
    /// The wait is over.
    Event(WaitEvent),
    /// Poll again (an interrupted call, or no event of interest).
    Again,
    /// The call failed.
    Failed,
}

pub open spec fn closed_events(events: i16) -> bool {
    events & (POLL_HUP | POLL_ERR | POLL_NVAL) != 0
}

pub open spec fn readable_events(events: i16) -> bool {
    events & POLL_IN != 0
}

/// The verdict on a `poll` that returned `ready` (with `interrupted` when
/// it failed with `EINTR`): a closed client first, then client input, then
/// a closed evaluator, then evaluator output.
pub open spec fn poll_verdict_spec(ready: i32, interrupted: bool, evaluator_events: i16, client_events: i16) -> PollVerdict {
    if ready < 0 {
        if interrupted {
            PollVerdict::Again
        } else {
            PollVerdict::Failed
        }
    } else if ready == 0 {
        PollVerdict::Event(WaitEvent::Timeout)
    } else if closed_events(client_events) {
        PollVerdict::Event(WaitEvent::ClientClosed)
    } else if readable_events(client_events) {
        PollVerdict::Event(WaitEvent::ClientReadable)
    } else if closed_events(evaluator_events) {
        PollVerdict::Event(WaitEvent::EvaluatorClosed)
    } else if readable_events(evaluator_events) {
        PollVerdict::Event(WaitEvent::EvaluatorReadable)
    } else {
        PollVerdict::Again
    }
}

pub fn poll_verdict(ready: i32, interrupted: bool, evaluator_events: i16, client_events: i16) -> (v: PollVerdict)
    ensures
        v == poll_verdict_spec(ready, interrupted, evaluator_events, client_events),
{
    if ready < 0 {
        if interrupted {
            PollVerdict::Again
        } else {
            PollVerdict::Failed
        }
    } else if ready == 0 {
        PollVerdict::Event(WaitEvent::Timeout)
    } else if client_events & (POLL_HUP | POLL_ERR | POLL_NVAL) != 0 {
        PollVerdict::Event(WaitEvent::ClientClosed)
    } else if client_events & POLL_IN != 0 {
        PollVerdict::Event(WaitEvent::ClientReadable)
    } else if evaluator_events & (POLL_HUP | POLL_ERR | POLL_NVAL) != 0 {
        PollVerdict::Event(WaitEvent::EvaluatorClosed)
    } else if evaluator_events & POLL_IN != 0 {
        PollVerdict::Event(WaitEvent::EvaluatorReadable)
    } else {
        PollVerdict::Again
    }
}

/// The `poll` timeout for the time left: the milliseconds, capped at the
/// largest `int`.
pub fn poll_timeout_millis(remaining_millis: u128) -> (timeout: i32)
    ensures
        timeout == (if remaining_millis > i32::MAX { i32::MAX as int } else { remaining_millis as int }),
{
    if remaining_millis > 2_147_483_647 {
        2_147_483_647
    } else {
        remaining_millis as i32
    }
}

// ---------------------------------------------------------------------------
// Resource limits
// ---------------------------------------------------------------------------

pub const RLIMIT_CPU: i32 = 0;
pub const RLIMIT_FSIZE: i32 = 1;
pub const RLIMIT_CORE: i32 = 4;
pub const RLIMIT_NOFILE: i32 = 7;
pub const RLIMIT_AS: i32 = 9;

/// One resource limit: both the soft and the hard limit are `value`.
#[derive(Clone, Copy, Debug, PartialEq, Eq, Structural)]
pub struct ResourceLimit {
    pub resource: i32,
    pub value: u64,
}

/// Whole CPU seconds for an evaluation deadline: the deadline rounded up to
/// a second (saturating), plus one.
pub open spec fn cpu_seconds(evaluation_millis: u64) -> int {
    (if evaluation_millis + 999 > u64::MAX { u64::MAX as int } else { evaluation_millis + 999 }) / 1000 + 1
}

/// The limits an evaluator process runs under, in the order they are set:
/// address space, CPU time, no file writes, no core dumps, 16 descriptors.
pub open spec fn child_limits_spec(limits: ConsoleLimits) -> Seq<ResourceLimit> {
    seq![
        ResourceLimit { resource: RLIMIT_AS, value: limits.memory_bytes },
        ResourceLimit { resource: RLIMIT_CPU, value: cpu_seconds(limits.evaluation_millis) as u64 },
        ResourceLimit { resource: RLIMIT_FSIZE, value: 0 },
        ResourceLimit { resource: RLIMIT_CORE, value: 0 },
        ResourceLimit { resource: RLIMIT_NOFILE, value: 16 },
    ]
}

pub fn child_limits(limits: ConsoleLimits) -> (r: Vec<ResourceLimit>)
    ensures
        r@ == child_limits_spec(limits),
{
    let cpu = limits.evaluation_millis.saturating_add(999) / 1000 + 1;
    let r = vec![
        ResourceLimit { resource: RLIMIT_AS, value: limits.memory_bytes },
        ResourceLimit { resource: RLIMIT_CPU, value: cpu },
        ResourceLimit { resource: RLIMIT_FSIZE, value: 0 },
        ResourceLimit { resource: RLIMIT_CORE, value: 0 },
        ResourceLimit { resource: RLIMIT_NOFILE, value: 16 },
    ];
    assert(r@ =~= child_limits_spec(limits));
    r
}

// ---------------------------------------------------------------------------
// Seccomp
// ---------------------------------------------------------------------------

pub const BPF_LD: u16 = 0x00;
pub const BPF_W: u16 = 0x00;
pub const BPF_ABS: u16 = 0x20;
pub const BPF_JMP: u16 = 0x05;
pub const BPF_JEQ: u16 = 0x10;
pub const BPF_K: u16 = 0x00;
pub const BPF_RET: u16 = 0x06;
pub const SECCOMP_RET_KILL_PROCESS: u32 = 0x8000_0000;
pub const SECCOMP_RET_ERRNO: u32 = 0x0005_0000;
pub const SECCOMP_RET_ALLOW: u32 = 0x7fff_0000;
pub const EPERM: u32 = 1;
pub const AUDIT_ARCH_X86_64: u32 = 0xc000_003e;
pub const AUDIT_ARCH_AARCH64: u32 = 0xc000_00b7;

/// One classic BPF instruction.
#[derive(Clone, Copy, Debug, PartialEq, Eq, Structural)]
pub struct SockFilter {
    pub code: u16,
    pub jt: u8,
    pub jf: u8,
    pub k: u32,
}

pub open spec fn statement(code: u16, k: u32) -> SockFilter {
    SockFilter { code, jt: 0, jf: 0, k }
}

pub open spec fn jump(code: u16, k: u32, jt: u8, jf: u8) -> SockFilter {
    SockFilter { code, jt, jf, k }
}

/// The two instructions that answer one denied system call with `EPERM`.
pub open spec fn deny(syscall: u32) -> Seq<SockFilter> {
    seq![
        jump(BPF_JMP | BPF_JEQ | BPF_K, syscall, 0, 1),
        statement(BPF_RET | BPF_K, SECCOMP_RET_ERRNO | EPERM),
    ]
}

pub open spec fn denials(syscalls: Seq<u32>) -> Seq<SockFilter>
    decreases syscalls.len(),
{
    if syscalls.len() == 0 {
        Seq::empty()
    } else {
        denials(syscalls.drop_last()) + deny(syscalls.last())
    }
}

/// The evaluator's seccomp program: kill a process of another
/// architecture, answer each denied system call with `EPERM`, allow the
/// rest.
pub open spec fn seccomp_program_spec(audit_arch: u32, denied: Seq<u32>) -> Seq<SockFilter> {
    seq![
        statement(BPF_LD | BPF_W | BPF_ABS, 4),
        jump(BPF_JMP | BPF_JEQ | BPF_K, audit_arch, 1, 0),
        statement(BPF_RET | BPF_K, SECCOMP_RET_KILL_PROCESS),
        statement(BPF_LD | BPF_W | BPF_ABS, 0),
    ] + denials(denied) + seq![statement(BPF_RET | BPF_K, SECCOMP_RET_ALLOW)]
}

/// The seccomp program, refused where its length does not fit a `u16`.
pub fn seccomp_program(audit_arch: u32, denied: &[u32]) -> (r: Result<Vec<SockFilter>, String>)
    ensures
        match r {
            Ok(program) => program@ == seccomp_program_spec(audit_arch, denied@) && program@.len() <= u16::MAX,
            Err(m) => seccomp_program_spec(audit_arch, denied@).len() > u16::MAX && m@
                == "console seccomp program is too large"@,
        },
{
    if denied.len() > 32_765 {
        proof {
            lemma_denials_len(denied@);
        }
        return Err(owned("console seccomp program is too large"));
    }
    let mut program: Vec<SockFilter> = Vec::new();
    program.push(SockFilter { code: BPF_LD | BPF_W | BPF_ABS, jt: 0, jf: 0, k: 4 });
    program.push(SockFilter { code: BPF_JMP | BPF_JEQ | BPF_K, jt: 1, jf: 0, k: audit_arch });
    program.push(SockFilter { code: BPF_RET | BPF_K, jt: 0, jf: 0, k: SECCOMP_RET_KILL_PROCESS });
    program.push(SockFilter { code: BPF_LD | BPF_W | BPF_ABS, jt: 0, jf: 0, k: 0 });
    let ghost head = program@;
    let mut i: usize = 0;
    assert(denied@.take(0) =~= Seq::<u32>::empty());
    assert(program@ =~= head + denials(denied@.take(0)));
    while i < denied.len()
        invariant
            i <= denied@.len(),
            denied@.len() <= 32_765,
            program@ == head + denials(denied@.take(i as int)),
        decreases denied@.len() - i,
    {
        program.push(SockFilter { code: BPF_JMP | BPF_JEQ | BPF_K, jt: 0, jf: 1, k: denied[i] });
        program.push(SockFilter { code: BPF_RET | BPF_K, jt: 0, jf: 0, k: SECCOMP_RET_ERRNO | EPERM });
        proof {
            assert(denied@.take(i + 1).drop_last() =~= denied@.take(i as int));
        }
        i = i + 1;
        assert(program@ =~= head + denials(denied@.take(i as int)));
    }
    program.push(SockFilter { code: BPF_RET | BPF_K, jt: 0, jf: 0, k: SECCOMP_RET_ALLOW });
    proof {
        assert(denied@.take(i as int) =~= denied@);
        assert(program@ =~= seccomp_program_spec(audit_arch, denied@));
        lemma_denials_len(denied@);
    }
    Ok(program)
}

proof fn lemma_denials_len(syscalls: Seq<u32>)
    ensures
        denials(syscalls).len() == 2 * syscalls.len(),
    decreases syscalls.len(),
{
    if syscalls.len() > 0 {
        lemma_denials_len(syscalls.drop_last());
    }
}

/// The system calls an x86-64 evaluator may not make: opening files,
/// sockets, exec and process creation, signalling, ptrace and
/// cross-process memory, mounts, path inspection and mutation, memfd, bpf,
/// perf and keyrings.
pub fn denied_syscalls_x86_64() -> (r: Vec<u32>)
    ensures
        r@ == seq![
            2u32, 85, 257, 437, 41, 53, 42, 49, 50, 43, 288, 59, 322, 56, 57, 58, 435, 62, 200, 234,
            101, 310, 311, 165, 166, 80, 81, 78, 217, 262, 332, 82, 83, 84, 87, 88, 90, 92, 94, 95, 258,
            263, 264, 265, 266, 267, 268, 269, 316, 319, 321, 298, 250,
        ],
{
    vec![
        2, 85, 257, 437, 41, 53, 42, 49, 50, 43, 288, 59, 322, 56, 57, 58, 435, 62, 200, 234,
        101, 310, 311, 165, 166, 80, 81, 78, 217, 262, 332, 82, 83, 84, 87, 88, 90, 92, 94, 95, 258,
        263, 264, 265, 266, 267, 268, 269, 316, 319, 321, 298, 250,
    ]
}

/// The same policy for an AArch64 evaluator.
pub fn denied_syscalls_aarch64() -> (r: Vec<u32>)
    ensures
        r@ == seq![
            56u32, 437, 198, 199, 203, 200, 201, 202, 242, 221, 281, 220, 435, 129, 130, 131, 117, 270,
            271, 40, 39, 49, 50, 61, 79, 291, 35, 34, 37, 38, 276, 277, 278, 53, 54, 55, 57, 58, 59, 60,
            61, 279, 280, 241, 219,
        ],
{
    vec![
        56, 437, 198, 199, 203, 200, 201, 202, 242, 221, 281, 220, 435, 129, 130, 131, 117, 270,
        271, 40, 39, 49, 50, 61, 79, 291, 35, 34, 37, 38, 276, 277, 278, 53, 54, 55, 57, 58, 59, 60,
        61, 279, 280, 241, 219,
    ]
}

/// Every denied system call is answered with `EPERM`: in the program, the
/// instruction after the architecture check that compares with the `i`-th
/// denied call jumps on a match to a return of `EPERM`.
pub proof fn law_denied_calls_get_eperm(audit_arch: u32, denied: Seq<u32>, i: int)
    requires
        0 <= i < denied.len(),
    ensures
        seccomp_program_spec(audit_arch, denied)[4 + 2 * i] == jump(BPF_JMP | BPF_JEQ | BPF_K, denied[i], 0, 1),
        seccomp_program_spec(audit_arch, denied)[5 + 2 * i] == statement(BPF_RET | BPF_K, SECCOMP_RET_ERRNO | EPERM),
{
    lemma_denials_index(denied, i);
    lemma_denials_len(denied);
}

proof fn lemma_denials_index(syscalls: Seq<u32>, i: int)
    requires
        0 <= i < syscalls.len(),
    ensures
        denials(syscalls)[2 * i] == jump(BPF_JMP | BPF_JEQ | BPF_K, syscalls[i], 0, 1),
        denials(syscalls)[2 * i + 1] == statement(BPF_RET | BPF_K, SECCOMP_RET_ERRNO | EPERM),
    decreases syscalls.len(),
{
    lemma_denials_len(syscalls.drop_last());
    if i < syscalls.len() - 1 {
        lemma_denials_index(syscalls.drop_last(), i);
    }
}

// ---------------------------------------------------------------------------
// Ownership and permissions
// ---------------------------------------------------------------------------

/// A console peer must run as the supervisor's user.
pub fn authorize_peer(peer: u32, owner: u32) -> (r: Result<(), String>)
    ensures
        match r {
            Ok(()) => peer == owner,
            Err(m) => peer != owner && m@ == "console peer uid "@ + decimal_chars(peer as nat)
                + " does not match supervisor uid "@ + decimal_chars(owner as nat),
        },
{
    if peer != owner {
        let mut m = owned("console peer uid ");
        push_decimal(&mut m, peer as u64);
        push_str(&mut m, " does not match supervisor uid ");
        push_decimal(&mut m, owner as u64);
        return Err(m);
    }
    Ok(())
}

/// What a client bundle file's metadata must show: a regular file, not a
/// link, with no write permission bit, owned by the supervisor's user or
/// root.
pub open spec fn bundle_metadata_spec(is_symlink: bool, is_file: bool, mode: u32, uid: u32, owner: u32) -> Result<(), Seq<char>> {
    if is_symlink || !is_file {
        Err("console client bundle must be a regular non-symlink file"@)
    } else if mode & 0o222 != 0 {
        Err("console client bundle must have no write permission bits"@)
    } else if uid != owner && uid != 0 {
        Err("console client bundle uid "@ + decimal_chars(uid as nat) + " is neither supervisor uid "@
            + decimal_chars(owner as nat) + " nor root"@)
    } else {
        Ok(())
    }
}

pub open spec fn plain(r: Result<(), String>) -> Result<(), Seq<char>> {
    match r {
        Ok(()) => Ok(()),
        Err(m) => Err(m@),
    }
}

pub fn check_bundle_metadata(is_symlink: bool, is_file: bool, mode: u32, uid: u32, owner: u32) -> (r: Result<(), String>)
    ensures
        plain(r) == bundle_metadata_spec(is_symlink, is_file, mode, uid, owner),
{
    if is_symlink || !is_file {
        return Err(owned("console client bundle must be a regular non-symlink file"));
    }
    if mode & 0o222 != 0 {
        return Err(owned("console client bundle must have no write permission bits"));
    }
    if uid != owner && uid != 0 {
        let mut m = owned("console client bundle uid ");
        push_decimal(&mut m, uid as u64);
        push_str(&mut m, " is neither supervisor uid ");
        push_decimal(&mut m, owner as u64);
        push_str(&mut m, " nor root");
        return Err(m);
    }
    Ok(())
}

/// The bundle that was opened must be the file that was inspected.
pub fn check_same_file(opened_device: u64, opened_inode: u64, inspected_device: u64, inspected_inode: u64) -> (r: Result<(), String>)
    ensures
        match r {
            Ok(()) => opened_device == inspected_device && opened_inode == inspected_inode,
            Err(m) => !(opened_device == inspected_device && opened_inode == inspected_inode) && m@
                == "console client bundle changed while it was opened"@,
        },
{
    if opened_device != inspected_device || opened_inode != inspected_inode {
        return Err(owned("console client bundle changed while it was opened"));
    }
    Ok(())
}

/// Octal digits of a natural number, most significant first.
pub open spec fn octal_chars(n: nat) -> Seq<char>
    decreases n,
{
    if n < 8 {
        seq![(n + 48) as char]
    } else {
        octal_chars(n / 8).push(((n % 8) + 48) as char)
    }
}

fn push_octal(out: &mut String, n: u32)
    ensures
        final(out)@ == old(out)@ + octal_chars(n as nat),
    decreases n,
{
    if n >= 8 {
        push_octal(out, n / 8);
    }
    let digit = (n % 8) as u8;
    push_char(out, (digit + 48) as char);
    assert(final(out)@ =~= old(out)@ + octal_chars(n as nat));
}

/// A private socket must end up with mode `0600`; `subject` names it.
pub fn check_socket_mode(subject: &str, mode: u32) -> (r: Result<(), String>)
    ensures
        match r {
            Ok(()) => mode & 0o777 == 0o600,
            Err(m) => mode & 0o777 != 0o600 && m@ == subject@ + " mode is "@ + octal_chars((mode & 0o777) as nat)
                + ", expected 600"@,
        },
{
    let permissions = mode & 0o777;
    if permissions != 0o600 {
        let mut m = owned(subject);
        push_str(&mut m, " mode is ");
        push_octal(&mut m, permissions);
        push_str(&mut m, ", expected 600");
        return Err(m);
    }
    Ok(())
}

} // verus!
