use hoplite::cosocket::{
    Model, Operation, Outcome, OutcomeClass, Resource, SocketState, Transport,
    BACKLOG_CAPACITY, MAX_SOCKETS, POOL_CAPACITY,
};
use std::collections::BTreeSet;

fn assert_invariants(model: &Model, seed: u64, trace: &[String]) {
    let held: BTreeSet<Resource> = model.resources().iter().copied().collect();
    assert_eq!(
        held.len(),
        model.resources().len(),
        "seed {seed:#x} holds a resource twice"
    );
    let expected: BTreeSet<Resource> = model.expected_resource_list().into_iter().collect();
    assert_eq!(
        held,
        expected,
        "seed {seed:#x} lifecycle resource mismatch after:\n{}",
        trace.join("\n")
    );
    let ids = model
        .sockets()
        .iter()
        .flatten()
        .filter(|socket| !matches!(socket.state, SocketState::Retired))
        .map(|socket| socket.id)
        .collect::<BTreeSet<_>>();
    assert_eq!(
        ids.len(),
        held.iter()
            .filter(|resource| matches!(resource, Resource::Cleanup(_)))
            .count(),
        "seed {seed:#x} has an unowned or multiply-owned cleanup resource"
    );
    let idle = model.idle_by_transport();
    assert!(
        idle.iter().all(|count| *count <= POOL_CAPACITY)
            && model.backlog_count() <= BACKLOG_CAPACITY,
        "seed {seed:#x} exceeded bounded pool or backlog capacity"
    );
}

fn run_trace(seed: u64, operations: impl IntoIterator<Item = Operation>) -> Vec<Outcome> {
    let mut model = Model::new();
    let mut trace = Vec::new();
    let mut outcomes = Vec::new();
    for operation in operations {
        let outcome = model.apply(operation);
        trace.push(format!("{operation:?} => {outcome:?}"));
        assert_invariants(&model, seed, &trace);
        outcomes.push(outcome);
    }
    model.worker_shutdown();
    assert_invariants(&model, seed, &trace);
    assert!(
        model.resources().is_empty(),
        "seed {seed:#x} left resources after teardown:\n{}",
        trace.join("\n")
    );
    outcomes
}

#[test]
fn required_lifecycle_regressions_preserve_cleanup_invariants() {
    let cases = [
        (
            "connect-cancel",
            vec![
                Operation::Allocate(0, Transport::Tcp),
                Operation::ConnectStart(0),
                Operation::Cancel(0),
            ],
        ),
        (
            "connect-timeout",
            vec![
                Operation::Allocate(0, Transport::Tcp),
                Operation::ConnectStart(0),
                Operation::TimeoutConnect(0),
            ],
        ),
        (
            "connect-close",
            vec![
                Operation::Allocate(0, Transport::Tcp),
                Operation::ConnectStart(0),
                Operation::Close(0),
            ],
        ),
        (
            "resolve-client-abort",
            vec![
                Operation::Allocate(0, Transport::Tcp),
                Operation::ResolveStart(0),
                Operation::ClientAbort,
            ],
        ),
        (
            "unix-peer-close",
            vec![
                Operation::Allocate(0, Transport::Unix),
                Operation::ConnectStart(0),
                Operation::ConnectOk(0),
                Operation::WriteStart(0),
                Operation::PeerClose(0),
            ],
        ),
        (
            "receive-timeout-partial",
            vec![
                Operation::Allocate(0, Transport::Tcp),
                Operation::ConnectStart(0),
                Operation::ConnectOk(0),
                Operation::ReadStart(0),
                Operation::ReadPartial(0),
                Operation::TimeoutRead(0),
            ],
        ),
        (
            "simultaneous-read-write-close",
            vec![
                Operation::Allocate(0, Transport::Tcp),
                Operation::ConnectStart(0),
                Operation::ConnectOk(0),
                Operation::ReadStart(0),
                Operation::WriteStart(0),
                Operation::Close(0),
            ],
        ),
        (
            "keepalive-checkout",
            vec![
                Operation::Allocate(0, Transport::Tcp),
                Operation::ConnectStart(0),
                Operation::ConnectOk(0),
                Operation::Keepalive(0),
                Operation::Checkout(0),
            ],
        ),
        (
            "pool-transfer-rejects-pending-read",
            vec![
                Operation::Allocate(0, Transport::Tcp),
                Operation::ConnectStart(0),
                Operation::ConnectOk(0),
                Operation::ReadStart(0),
                Operation::Keepalive(0),
                Operation::Close(0),
            ],
        ),
        (
            "pool-key-isolation",
            vec![
                Operation::Allocate(0, Transport::Tcp),
                Operation::ConnectStart(0),
                Operation::ConnectOk(0),
                Operation::Keepalive(0),
                Operation::Allocate(1, Transport::Unix),
                Operation::ConnectStart(1),
                Operation::ConnectOk(1),
                Operation::Keepalive(1),
                Operation::Checkout(0),
                Operation::Checkout(1),
            ],
        ),
        (
            "half-close-with-live-read",
            vec![
                Operation::Allocate(0, Transport::Tcp),
                Operation::ConnectStart(0),
                Operation::ConnectOk(0),
                Operation::ReadStart(0),
                Operation::ShutdownWrite(0),
                Operation::ReadComplete(0),
                Operation::Close(0),
            ],
        ),
        (
            "backlog-cancel",
            vec![
                Operation::Allocate(0, Transport::Tcp),
                Operation::BacklogStart(0),
                Operation::Cancel(0),
            ],
        ),
        (
            "backlog-timeout",
            vec![
                Operation::Allocate(0, Transport::Tcp),
                Operation::BacklogStart(0),
                Operation::TimeoutConnect(0),
            ],
        ),
        (
            "backlog-worker-reload",
            vec![
                Operation::Allocate(0, Transport::Tcp),
                Operation::BacklogStart(0),
                Operation::WorkerReload,
            ],
        ),
    ];
    for (index, (name, operations)) in cases.into_iter().enumerate() {
        let outcomes = run_trace(index as u64 + 1, operations);
        assert!(
            outcomes
                .iter()
                .any(|outcome| outcome.class == OutcomeClass::Accepted),
            "{name} did not exercise an accepted transition"
        );
    }
}

#[test]
fn directional_busy_and_authority_results_are_distinct() {
    let outcomes = run_trace(
        0xD1CE,
        [
            Operation::Allocate(0, Transport::Tcp),
            Operation::ConnectStart(0),
            Operation::ConnectOk(0),
            Operation::ReadStart(0),
            Operation::ReadStart(0),
            Operation::WriteStart(0),
            Operation::WriteStart(0),
            Operation::UseForeign(0),
            Operation::StaleCallback(0),
        ],
    );
    assert!(outcomes.contains(&Outcome::ordinary("socket busy reading")));
    assert!(outcomes.contains(&Outcome::ordinary("socket busy writing")));
    assert!(outcomes.contains(&Outcome::authority("foreign socket owner")));
    assert!(outcomes.contains(&Outcome::ordinary("stale callback ignored")));
}

struct Generator {
    state: u64,
}

impl Generator {
    fn next(&mut self) -> u64 {
        let mut value = self.state;
        value ^= value << 13;
        value ^= value >> 7;
        value ^= value << 17;
        self.state = value;
        value
    }

    fn operation(&mut self) -> Operation {
        let slot = (self.next() as usize) % MAX_SOCKETS;
        match self.next() % 26 {
            0 => Operation::Allocate(slot, Transport::Tcp),
            1 => Operation::Allocate(slot, Transport::Unix),
            2 => Operation::ResolveStart(slot),
            3 => Operation::ResolveOk(slot),
            4 => Operation::ConnectStart(slot),
            5 => Operation::ConnectOk(slot),
            6 => Operation::BacklogStart(slot),
            7 => Operation::BacklogAdmit(slot),
            8 => Operation::ReadStart(slot),
            9 => Operation::ReadPartial(slot),
            10 => Operation::ReadComplete(slot),
            11 => Operation::WriteStart(slot),
            12 => Operation::WriteComplete(slot),
            13 => Operation::ShutdownWrite(slot),
            14 => Operation::TimeoutConnect(slot),
            15 => Operation::TimeoutRead(slot),
            16 => Operation::TimeoutWrite(slot),
            17 => Operation::Cancel(slot),
            18 => Operation::Close(slot),
            19 => Operation::PeerClose(slot),
            20 => Operation::Keepalive(slot),
            21 => Operation::Checkout(slot),
            22 => Operation::StaleCallback(slot),
            23 => Operation::UseForeign(slot),
            24 => Operation::ClientAbort,
            _ => Operation::WorkerReload,
        }
    }
}

#[test]
fn generated_traces_keep_the_lifecycle_invariants() {
    for seed in [0x1u64, 0xC0FFEE, 0x9E37_79B9_7F4A_7C15, 0xDEAD_BEEF, 0x1234_5678_9ABC] {
        let mut generator = Generator { state: seed };
        run_trace(seed, (0..512).map(|_| generator.operation()));
    }
}

#[test]
fn capacities_and_occupied_slots_are_answered() {
    let outcomes = run_trace(
        7,
        [
            Operation::Allocate(8, Transport::Tcp),
            Operation::Allocate(3, Transport::Tcp),
            Operation::Allocate(3, Transport::Unix),
            Operation::Allocate(0, Transport::Tcp),
            Operation::Allocate(1, Transport::Tcp),
            Operation::BacklogStart(0),
            Operation::BacklogStart(1),
            Operation::BacklogStart(3),
            Operation::ReadPartial(6),
        ],
    );
    assert_eq!(outcomes[0], Outcome::programming("invalid socket slot"));
    assert_eq!(outcomes[1], Outcome::accepted());
    assert_eq!(outcomes[2], Outcome::programming("socket slot is occupied"));
    assert_eq!(outcomes[7], Outcome::ordinary("pool backlog full"));
    assert_eq!(outcomes[8], Outcome::programming("read is not pending"));
}
