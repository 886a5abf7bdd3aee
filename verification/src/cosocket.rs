//! A reference model of the runtime's cosocket lifecycle: sockets move
//! through resolution, connection, a bounded backlog, reads and writes and
//! a bounded keepalive pool, and every native resource they hold is
//! tracked so that teardown leaves nothing behind.

use vstd::prelude::*;

verus! {

pub const MAX_SOCKETS: usize = 8;
pub const POOL_CAPACITY: usize = 2;
pub const BACKLOG_CAPACITY: usize = 2;

#[derive(Clone, Copy, Debug, PartialEq, Eq, Structural)]
pub enum SocketState {
    Allocated,
    Resolving,
    Connecting,
    Established,
    Backlog,
    IdlePool,
    Retired,
}

#[derive(Clone, Copy, Debug, PartialEq, Eq, Structural)]
pub enum Transport {
    Tcp,
    Unix,
}

pub open spec fn pool_slot(transport: Transport) -> int {
    match transport {
        Transport::Tcp => 0,
        Transport::Unix => 1,
    }
}

impl Transport {
    /// The keepalive pool this transport's connections return to.
    pub fn pool_index(self) -> (index: usize)
        ensures
            index == pool_slot(self),
    {
        match self {
            Transport::Tcp => 0,
            Transport::Unix => 1,
        }
    }
}

#[derive(Clone, Copy, Debug, PartialEq, Eq, PartialOrd, Ord, Structural)]
pub enum Direction {
    Connect,
    Read,
    Write,
}

/// A native resource, keyed by the socket id that owns it.
#[derive(Clone, Copy, Debug, PartialEq, Eq, PartialOrd, Ord, Structural)]
pub enum Resource {
    Buffer(u64, Direction),
    Cleanup(u64),
    Descriptor(u64),
    Promise(u64, Direction),
    Resolver(u64),
    Timer(u64, Direction),
    Backlog(u64),
    PoolEntry(u64),
}

#[derive(Clone, Copy, Debug, PartialEq, Eq, Structural)]
pub enum OutcomeClass {
    Accepted,
    Ordinary,
    Programming,
    Authority,
}

/// What an operation answered: its class and a fixed description.
#[derive(Clone, Copy, Debug, PartialEq, Eq)]
pub struct Outcome {
    pub class: OutcomeClass,
    pub detail: &'static str,
}

impl Outcome {
    pub fn accepted() -> (outcome: Outcome)
        ensures
            outcome.class == OutcomeClass::Accepted,
            outcome.detail@ == "accepted"@,
    {
        Outcome { class: OutcomeClass::Accepted, detail: "accepted" }
    }

    pub fn ordinary(detail: &'static str) -> (outcome: Outcome)
        ensures
            outcome.class == OutcomeClass::Ordinary,
            outcome.detail == detail,
    {
        Outcome { class: OutcomeClass::Ordinary, detail }
    }

    pub fn programming(detail: &'static str) -> (outcome: Outcome)
        ensures
            outcome.class == OutcomeClass::Programming,
            outcome.detail == detail,
    {
        Outcome { class: OutcomeClass::Programming, detail }
    }

    pub fn authority(detail: &'static str) -> (outcome: Outcome)
        ensures
            outcome.class == OutcomeClass::Authority,
            outcome.detail == detail,
    {
        Outcome { class: OutcomeClass::Authority, detail }
    }
}

#[derive(Clone, Copy, Debug, PartialEq, Eq)]
pub enum Operation {
    Allocate(usize, Transport),
    ResolveStart(usize),
    ResolveOk(usize),
    ConnectStart(usize),
    ConnectOk(usize),
    BacklogStart(usize),
    BacklogAdmit(usize),
    ReadStart(usize),
    ReadPartial(usize),
    ReadComplete(usize),
    WriteStart(usize),
    WriteComplete(usize),
    ShutdownWrite(usize),
    TimeoutConnect(usize),
    TimeoutRead(usize),
    TimeoutWrite(usize),
    Cancel(usize),
    Close(usize),
    PeerClose(usize),
    Keepalive(usize),
    Checkout(usize),
    StaleCallback(usize),
    UseForeign(usize),
    ClientAbort,
    WorkerReload,
}

#[derive(Clone, Copy, Debug, PartialEq, Eq)]
pub struct Socket {
    pub id: u64,
    pub transport: Transport,
    pub state: SocketState,
    pub read_pending: bool,
    pub write_pending: bool,
    pub send_shutdown: bool,
    pub generation: u64,
    pub reused: u32,
}

pub open spec fn descriptor_held(s: Socket) -> bool {
    s.state == SocketState::Connecting || s.state == SocketState::Established || s.state
        == SocketState::IdlePool || s.read_pending || s.write_pending
}

pub open spec fn connecting(s: Socket) -> bool {
    s.state == SocketState::Resolving || s.state == SocketState::Connecting || s.state
        == SocketState::Backlog
}

pub open spec fn direction_pending(s: Socket, direction: Direction) -> bool {
    match direction {
        Direction::Read => s.read_pending,
        Direction::Write => s.write_pending,
        Direction::Connect => connecting(s),
    }
}

/// The resources a socket in its current state must hold: a cleanup
/// handle while it lives, a descriptor while it is connected or has I/O in
/// flight, a buffer for each pending read or write, a promise and a timer
/// for each pending direction, and the resolver, backlog or pool entry of
/// its state.
pub open spec fn owns(s: Socket, r: Resource) -> bool {
    s.state != SocketState::Retired && match r {
        Resource::Cleanup(id) => id == s.id,
        Resource::Descriptor(id) => id == s.id && descriptor_held(s),
        Resource::Buffer(id, d) => id == s.id && d != Direction::Connect && direction_pending(s, d),
        Resource::Promise(id, d) => id == s.id && direction_pending(s, d),
        Resource::Timer(id, d) => id == s.id && direction_pending(s, d),
        Resource::Resolver(id) => id == s.id && s.state == SocketState::Resolving,
        Resource::Backlog(id) => id == s.id && s.state == SocketState::Backlog,
        Resource::PoolEntry(id) => id == s.id && s.state == SocketState::IdlePool,
    }
}

pub open spec fn resource_owner(r: Resource) -> u64 {
    match r {
        Resource::Buffer(id, _) => id,
        Resource::Cleanup(id) => id,
        Resource::Descriptor(id) => id,
        Resource::Promise(id, _) => id,
        Resource::Resolver(id) => id,
        Resource::Timer(id, _) => id,
        Resource::Backlog(id) => id,
        Resource::PoolEntry(id) => id,
    }
}

pub open spec fn slot_owns(slot: Option<Socket>, r: Resource) -> bool {
    match slot {
        Some(s) => owns(s, r),
        None => false,
    }
}

/// Every resource that some socket's state calls for.
pub open spec fn expected_resources(sockets: Seq<Option<Socket>>) -> Set<Resource> {
    Set::new(|r: Resource| exists|i: int| 0 <= i < sockets.len() && slot_owns(#[trigger] sockets[i], r))
}

pub open spec fn is_idle_on(slot: Option<Socket>, pool: int) -> bool {
    match slot {
        Some(s) => s.state == SocketState::IdlePool && pool_slot(s.transport) == pool,
        None => false,
    }
}

pub open spec fn is_waiting(slot: Option<Socket>) -> bool {
    match slot {
        Some(s) => s.state == SocketState::Backlog,
        None => false,
    }
}

pub open spec fn idle_count(sockets: Seq<Option<Socket>>, pool: int) -> nat
    decreases sockets.len(),
{
    if sockets.len() == 0 {
        0
    } else {
        idle_count(sockets.drop_last(), pool) + if is_idle_on(sockets.last(), pool) {
            1nat
        } else {
            0nat
        }
    }
}

pub open spec fn waiting_count(sockets: Seq<Option<Socket>>) -> nat
    decreases sockets.len(),
{
    if sockets.len() == 0 {
        0
    } else {
        waiting_count(sockets.drop_last()) + if is_waiting(sockets.last()) {
            1nat
        } else {
            0nat
        }
    }
}

pub open spec fn ids_distinct(sockets: Seq<Option<Socket>>) -> bool {
    forall|i: int, j: int|
        0 <= i < sockets.len() && 0 <= j < sockets.len() && i != j && sockets[i] is Some
            && sockets[j] is Some ==> (#[trigger] sockets[i])->0.id != (#[trigger] sockets[j])->0.id
}

pub open spec fn io_ok(slot: Option<Socket>) -> bool {
    match slot {
        Some(s) => (s.read_pending || s.write_pending) ==> s.state == SocketState::Established,
        None => true,
    }
}

/// Reads and writes are only ever in flight on an established connection.
pub open spec fn io_only_when_established(sockets: Seq<Option<Socket>>) -> bool {
    forall|i: int| 0 <= i < sockets.len() ==> io_ok(#[trigger] sockets[i])
}

pub open spec fn ids_issued(sockets: Seq<Option<Socket>>, next_id: u64) -> bool {
    forall|i: int| 0 <= i < sockets.len() && (#[trigger] sockets[i]) is Some ==> sockets[i]->0.id <= next_id
}

/// The lifecycle model: sockets by slot, the native resources currently
/// held, the last issued socket id, and the pool and backlog occupancy.
pub struct Model {
    sockets: Vec<Option<Socket>>,
    resources: Vec<Resource>,
    next_id: u64,
    idle_by_transport: [usize; 2],
    backlog_count: usize,
}

impl Model {
    pub closed spec fn sockets_view(&self) -> Seq<Option<Socket>> {
        self.sockets@
    }

    pub closed spec fn resources_view(&self) -> Seq<Resource> {
        self.resources@
    }

    pub closed spec fn last_id(&self) -> u64 {
        self.next_id
    }

    /// The model's invariant: the resources held are exactly those that
    /// the sockets' states call for, each once; ids are unique and issued;
    /// and the pool and backlog counts are the occupancy, within capacity.
    pub closed spec fn wf(&self) -> bool {
        &&& self.sockets@.len() <= MAX_SOCKETS
        &&& self.resources@.no_duplicates()
        &&& self.resources@.to_set() == expected_resources(self.sockets@)
        &&& ids_distinct(self.sockets@)
        &&& ids_issued(self.sockets@, self.next_id)
        &&& io_only_when_established(self.sockets@)
        &&& self.idle_by_transport[0] == idle_count(self.sockets@, 0)
        &&& self.idle_by_transport[1] == idle_count(self.sockets@, 1)
        &&& self.backlog_count == waiting_count(self.sockets@)
        &&& self.idle_by_transport[0] <= POOL_CAPACITY
        &&& self.idle_by_transport[1] <= POOL_CAPACITY
        &&& self.backlog_count <= BACKLOG_CAPACITY
    }

    /// Room left in the counters that the next operation may advance.
    pub closed spec fn has_room(&self) -> bool {
        &&& self.next_id < u64::MAX
        &&& forall|i: int|
            0 <= i < self.sockets@.len() && (#[trigger] self.sockets@[i]) is Some ==> self.sockets@[i]->0.generation
                < u64::MAX && self.sockets@[i]->0.reused < u32::MAX
    }
}

} // verus!

verus! {

proof fn lemma_owned_by_id(s: Socket, r: Resource)
    ensures
        owns(s, r) ==> resource_owner(r) == s.id,
{
}

/// Replacing one slot changes the expected resources by exactly what the
/// old and new occupant of that slot own, when ids stay distinct.
proof fn lemma_expected_replace(sockets: Seq<Option<Socket>>, k: int, new: Option<Socket>)
    requires
        0 <= k < sockets.len(),
        ids_distinct(sockets),
        forall|j: int|
            0 <= j < sockets.len() && j != k && (#[trigger] sockets[j]) is Some && new is Some
                ==> sockets[j]->0.id != new->0.id,
    ensures
        forall|r: Resource|
            #![trigger expected_resources(sockets.update(k, new)).contains(r)]
            expected_resources(sockets.update(k, new)).contains(r) <==> ((expected_resources(
                sockets,
            ).contains(r) && !slot_owns(sockets[k], r)) || slot_owns(new, r)),
        forall|r: Resource|
            #![trigger expected_resources(sockets).contains(r)]
            sockets[k] is Some && resource_owner(r) == sockets[k]->0.id ==> (expected_resources(
                sockets,
            ).contains(r) <==> slot_owns(sockets[k], r)),
{
    let updated = sockets.update(k, new);
    assert forall|r: Resource|
        #![trigger expected_resources(updated).contains(r)]
        expected_resources(updated).contains(r) <==> ((expected_resources(sockets).contains(r)
            && !slot_owns(sockets[k], r)) || slot_owns(new, r)) by {
        if expected_resources(updated).contains(r) {
            let i = choose|i: int| 0 <= i < updated.len() && slot_owns(#[trigger] updated[i], r);
            if i != k {
                assert(slot_owns(sockets[i], r));
                lemma_owned_by_id(sockets[i]->0, r);
                if slot_owns(sockets[k], r) {
                    lemma_owned_by_id(sockets[k]->0, r);
                }
            }
        }
        if expected_resources(sockets).contains(r) && !slot_owns(sockets[k], r) {
            let i = choose|i: int| 0 <= i < sockets.len() && slot_owns(#[trigger] sockets[i], r);
            assert(i != k);
            assert(updated[i] == sockets[i]);
            assert(slot_owns(updated[i], r));
        }
        if slot_owns(new, r) {
            assert(updated[k] == new);
            assert(slot_owns(updated[k], r));
        }
    }
    assert forall|r: Resource|
        #![trigger expected_resources(sockets).contains(r)]
        sockets[k] is Some && resource_owner(r) == sockets[k]->0.id implies (expected_resources(
            sockets,
        ).contains(r) <==> slot_owns(sockets[k], r)) by {
        if expected_resources(sockets).contains(r) {
            let i = choose|i: int| 0 <= i < sockets.len() && slot_owns(#[trigger] sockets[i], r);
            lemma_owned_by_id(sockets[i]->0, r);
        }
        if slot_owns(sockets[k], r) {
            assert(slot_owns(sockets[k], r));
        }
    }
}

proof fn lemma_idle_count_update(sockets: Seq<Option<Socket>>, k: int, new: Option<Socket>, pool: int)
    requires
        0 <= k < sockets.len(),
    ensures
        idle_count(sockets.update(k, new), pool) + (if is_idle_on(sockets[k], pool) {
            1int
        } else {
            0int
        }) == idle_count(sockets, pool) + (if is_idle_on(new, pool) {
            1int
        } else {
            0int
        }),
    decreases sockets.len(),
{
    let updated = sockets.update(k, new);
    if k == sockets.len() - 1 {
        assert(updated.drop_last() =~= sockets.drop_last());
    } else {
        lemma_idle_count_update(sockets.drop_last(), k, new, pool);
        assert(updated.drop_last() =~= sockets.drop_last().update(k, new));
    }
}

proof fn lemma_waiting_count_update(sockets: Seq<Option<Socket>>, k: int, new: Option<Socket>)
    requires
        0 <= k < sockets.len(),
    ensures
        waiting_count(sockets.update(k, new)) + (if is_waiting(sockets[k]) {
            1int
        } else {
            0int
        }) == waiting_count(sockets) + (if is_waiting(new) {
            1int
        } else {
            0int
        }),
    decreases sockets.len(),
{
    let updated = sockets.update(k, new);
    if k == sockets.len() - 1 {
        assert(updated.drop_last() =~= sockets.drop_last());
    } else {
        lemma_waiting_count_update(sockets.drop_last(), k, new);
        assert(updated.drop_last() =~= sockets.drop_last().update(k, new));
    }
}

proof fn lemma_counts_of_empty_push(sockets: Seq<Option<Socket>>)
    ensures
        idle_count(sockets.push(None), 0) == idle_count(sockets, 0),
        idle_count(sockets.push(None), 1) == idle_count(sockets, 1),
        waiting_count(sockets.push(None)) == waiting_count(sockets),
        expected_resources(sockets.push(None)) == expected_resources(sockets),
{
    assert(sockets.push(None).drop_last() =~= sockets);
    assert forall|r: Resource| expected_resources(sockets.push(None)).contains(r)
        <==> expected_resources(sockets).contains(r) by {
        if expected_resources(sockets.push(None)).contains(r) {
            let i = choose|i: int|
                0 <= i < sockets.push(None).len() && slot_owns(#[trigger] sockets.push(None)[i], r);
            assert(sockets[i] == sockets.push(None)[i]);
        }
        if expected_resources(sockets).contains(r) {
            let i = choose|i: int| 0 <= i < sockets.len() && slot_owns(#[trigger] sockets[i], r);
            assert(sockets.push(None)[i] == sockets[i]);
        }
    }
    assert(expected_resources(sockets.push(None)) =~= expected_resources(sockets));
}

/// Records that a resource is held.
fn hold(resources: &mut Vec<Resource>, r: Resource)
    requires
        old(resources)@.no_duplicates(),
    ensures
        final(resources)@.no_duplicates(),
        final(resources)@.to_set() == old(resources)@.to_set().insert(r),
{
    let mut i: usize = 0;
    while i < resources.len()
        invariant
            i <= resources@.len(),
            resources@ == old(resources)@,
            resources@.no_duplicates(),
            forall|j: int| 0 <= j < i ==> resources@[j] != r,
        decreases resources@.len() - i,
    {
        if resources[i] == r {
            assert(resources@.to_set() =~= resources@.to_set().insert(r));
            return;
        }
        i = i + 1;
    }
    let ghost before = resources@;
    resources.push(r);
    assert(resources@.to_set() =~= before.to_set().insert(r)) by {
        assert forall|x: Resource| resources@.contains(x) <==> before.contains(x) || x == r by {
            if resources@.contains(x) {
                let j = choose|j: int| 0 <= j < resources@.len() && resources@[j] == x;
                if j < before.len() {
                    assert(before[j] == x);
                }
            }
            if before.contains(x) {
                let j = choose|j: int| 0 <= j < before.len() && before[j] == x;
                assert(resources@[j] == x);
            }
            if x == r {
                assert(resources@[before.len() as int] == r);
            }
        }
    }
}

/// Records that a resource is released; releasing one not held changes
/// nothing.
fn release(resources: &mut Vec<Resource>, r: Resource)
    requires
        old(resources)@.no_duplicates(),
    ensures
        final(resources)@.no_duplicates(),
        final(resources)@.to_set() == old(resources)@.to_set().remove(r),
{
    let mut i: usize = 0;
    while i < resources.len()
        invariant
            i <= resources@.len(),
            resources@ == old(resources)@,
            resources@.no_duplicates(),
            forall|j: int| 0 <= j < i ==> resources@[j] != r,
        decreases resources@.len() - i,
    {
        if resources[i] == r {
            let ghost before = resources@;
            resources.remove(i);
            assert(resources@.to_set() =~= before.to_set().remove(r)) by {
                assert forall|x: Resource| resources@.contains(x) <==> before.contains(x) && x != r by {
                    if resources@.contains(x) {
                        let j = choose|j: int| 0 <= j < resources@.len() && resources@[j] == x;
                        if j < i {
                            assert(before[j] == x);
                        } else {
                            assert(before[j + 1] == x);
                        }
                    }
                    if before.contains(x) && x != r {
                        let j = choose|j: int| 0 <= j < before.len() && before[j] == x;
                        if j < i {
                            assert(resources@[j] == x);
                        } else {
                            assert(j != i);
                            assert(resources@[j - 1] == x);
                        }
                    }
                }
            }
            assert(resources@.no_duplicates()) by {
                assert forall|a: int, b: int|
                    0 <= a < resources@.len() && 0 <= b < resources@.len() && a != b implies resources@[a]
                    != resources@[b] by {
                    let a2 = if a < i { a } else { a + 1 };
                    let b2 = if b < i { b } else { b + 1 };
                    assert(resources@[a] == before[a2]);
                    assert(resources@[b] == before[b2]);
                }
            }
            return;
        }
        i = i + 1;
    }
    assert(resources@.to_set() =~= resources@.to_set().remove(r));
}

} // verus!

verus! {

/// An operation's answer as its class and description.
pub open spec fn answer(class: OutcomeClass, detail: Seq<char>) -> (OutcomeClass, Seq<char>) {
    (class, detail)
}

pub open spec fn outcome_view(outcome: Outcome) -> (OutcomeClass, Seq<char>) {
    (outcome.class, outcome.detail@)
}

pub open spec fn slot_at(sockets: Seq<Option<Socket>>, slot: int) -> Option<Socket> {
    if 0 <= slot < sockets.len() {
        sockets[slot]
    } else {
        None
    }
}

pub open spec fn unknown() -> (OutcomeClass, Seq<char>) {
    answer(OutcomeClass::Programming, "unknown socket"@)
}

pub open spec fn accepted() -> (OutcomeClass, Seq<char>) {
    answer(OutcomeClass::Accepted, "accepted"@)
}

pub open spec fn in_state(s: Socket, state: SocketState) -> Socket {
    Socket { state, ..s }
}

pub open spec fn retired(s: Socket) -> Socket {
    Socket { state: SocketState::Retired, read_pending: false, write_pending: false, ..s }
}

/// The new occupant of the slot and the answer, for operations on one
/// existing socket.
pub open spec fn begin_connect_step(s: Socket, resolving: bool) -> (Socket, (OutcomeClass, Seq<char>)) {
    if s.state != SocketState::Allocated {
        (s, answer(OutcomeClass::Programming, "connect on non-new socket"@))
    } else if resolving {
        (in_state(s, SocketState::Resolving), accepted())
    } else {
        (in_state(s, SocketState::Connecting), accepted())
    }
}

pub open spec fn resolve_ok_step(s: Socket) -> (Socket, (OutcomeClass, Seq<char>)) {
    if s.state != SocketState::Resolving {
        (s, answer(OutcomeClass::Programming, "resolver is not pending"@))
    } else {
        (in_state(s, SocketState::Connecting), accepted())
    }
}

pub open spec fn connect_ok_step(s: Socket) -> (Socket, (OutcomeClass, Seq<char>)) {
    if s.state != SocketState::Connecting {
        (s, answer(OutcomeClass::Programming, "connect is not pending"@))
    } else {
        (in_state(s, SocketState::Established), accepted())
    }
}

pub open spec fn begin_backlog_step(s: Socket, waiting: nat) -> (Socket, (OutcomeClass, Seq<char>)) {
    if s.state != SocketState::Allocated {
        (s, answer(OutcomeClass::Programming, "backlog admission on non-new socket"@))
    } else if waiting >= BACKLOG_CAPACITY {
        (s, answer(OutcomeClass::Ordinary, "pool backlog full"@))
    } else {
        (in_state(s, SocketState::Backlog), accepted())
    }
}

pub open spec fn backlog_admit_step(s: Socket) -> (Socket, (OutcomeClass, Seq<char>)) {
    if s.state != SocketState::Backlog {
        (s, answer(OutcomeClass::Programming, "backlog waiter is not pending"@))
    } else {
        (in_state(s, SocketState::Connecting), accepted())
    }
}

pub open spec fn begin_read_step(s: Socket) -> (Socket, (OutcomeClass, Seq<char>)) {
    if s.read_pending {
        (s, answer(OutcomeClass::Ordinary, "socket busy reading"@))
    } else if s.state != SocketState::Established {
        (s, answer(OutcomeClass::Programming, "read on non-established socket"@))
    } else {
        (Socket { read_pending: true, ..s }, accepted())
    }
}

pub open spec fn begin_write_step(s: Socket) -> (Socket, (OutcomeClass, Seq<char>)) {
    if s.write_pending {
        (s, answer(OutcomeClass::Ordinary, "socket busy writing"@))
    } else if s.state != SocketState::Established || s.send_shutdown {
        (s, answer(OutcomeClass::Programming, "write on closed send direction"@))
    } else {
        (Socket { write_pending: true, ..s }, accepted())
    }
}

pub open spec fn shutdown_write_step(s: Socket) -> (Socket, (OutcomeClass, Seq<char>)) {
    if s.state != SocketState::Established || s.write_pending {
        (s, answer(OutcomeClass::Programming, "send direction cannot be shut down"@))
    } else {
        (Socket { send_shutdown: true, ..s }, accepted())
    }
}

pub open spec fn without_direction(s: Socket, direction: Direction) -> Socket {
    match direction {
        Direction::Read => Socket { read_pending: false, ..s },
        Direction::Write => Socket { write_pending: false, ..s },
        Direction::Connect => s,
    }
}

pub open spec fn complete_step(s: Socket, direction: Direction) -> (Socket, (OutcomeClass, Seq<char>)) {
    if !direction_pending(s, direction) {
        (s, answer(OutcomeClass::Programming, "operation is not pending"@))
    } else if direction == Direction::Connect {
        connect_ok_step(s)
    } else {
        (without_direction(s, direction), accepted())
    }
}

pub open spec fn cancel_step(s: Socket) -> (Socket, (OutcomeClass, Seq<char>)) {
    if connecting(s) {
        (in_state(s, SocketState::Allocated), accepted())
    } else {
        (Socket { read_pending: false, write_pending: false, ..s }, accepted())
    }
}

pub open spec fn timeout_step(s: Socket, direction: Direction) -> (Socket, (OutcomeClass, Seq<char>)) {
    if !direction_pending(s, direction) {
        (s, answer(OutcomeClass::Programming, "operation is not pending"@))
    } else if direction == Direction::Connect {
        cancel_step(s)
    } else {
        (without_direction(s, direction), answer(OutcomeClass::Ordinary, "timeout"@))
    }
}

pub open spec fn close_step(s: Socket, detail: Seq<char>, accepting: bool) -> (Socket, (OutcomeClass, Seq<char>)) {
    if s.state == SocketState::Retired {
        (s, answer(OutcomeClass::Ordinary, detail))
    } else if accepting {
        (retired(s), accepted())
    } else {
        (retired(s), answer(OutcomeClass::Ordinary, detail))
    }
}

pub open spec fn keepalive_step(s: Socket, idle: nat) -> (Socket, (OutcomeClass, Seq<char>)) {
    if s.state != SocketState::Established || s.read_pending || s.write_pending {
        (s, answer(OutcomeClass::Programming, "connection is not poolable"@))
    } else if idle >= POOL_CAPACITY {
        (retired(s), answer(OutcomeClass::Ordinary, "keepalive pool full"@))
    } else {
        (in_state(s, SocketState::IdlePool), accepted())
    }
}

pub open spec fn checkout_step(s: Socket) -> (Socket, (OutcomeClass, Seq<char>)) {
    if s.state != SocketState::IdlePool {
        (s, answer(OutcomeClass::Programming, "socket is not idle"@))
    } else {
        (
            Socket {
                state: SocketState::Established,
                generation: (s.generation + 1) as u64,
                reused: (s.reused + 1) as u32,
                ..s
            },
            accepted(),
        )
    }
}

/// Every live socket retired.
pub open spec fn shut_down(sockets: Seq<Option<Socket>>) -> Seq<Option<Socket>> {
    sockets.map_values(
        |slot: Option<Socket>|
            match slot {
                Some(s) => if s.state == SocketState::Retired {
                    Some(s)
                } else {
                    Some(retired(s))
                },
                None => None,
            },
    )
}

/// The state of the sockets and the last id after one operation, and its
/// answer.
pub open spec fn on_slot(
    sockets: Seq<Option<Socket>>,
    next_id: u64,
    slot: int,
    step: spec_fn(Socket) -> (Socket, (OutcomeClass, Seq<char>)),
) -> (Seq<Option<Socket>>, u64, (OutcomeClass, Seq<char>)) {
    match slot_at(sockets, slot) {
        None => (sockets, next_id, unknown()),
        Some(s) => (sockets.update(slot, Some(step(s).0)), next_id, step(s).1),
    }
}

pub open spec fn allocated(sockets: Seq<Option<Socket>>, slot: int, socket: Socket) -> Seq<Option<Socket>> {
    if slot < sockets.len() {
        sockets.update(slot, Some(socket))
    } else {
        (sockets + Seq::new((slot - sockets.len()) as nat, |i: int| None::<Socket>)).push(
            Some(socket),
        )
    }
}

pub open spec fn fresh_socket(id: u64, transport: Transport) -> Socket {
    Socket {
        id,
        transport,
        state: SocketState::Allocated,
        read_pending: false,
        write_pending: false,
        send_shutdown: false,
        generation: 0,
        reused: 0,
    }
}

pub open spec fn transition(sockets: Seq<Option<Socket>>, next_id: u64, operation: Operation) -> (
    Seq<Option<Socket>>,
    u64,
    (OutcomeClass, Seq<char>),
) {
    match operation {
        Operation::Allocate(slot, transport) => if slot >= MAX_SOCKETS {
            (sockets, next_id, answer(OutcomeClass::Programming, "invalid socket slot"@))
        } else if slot_at(sockets, slot as int) matches Some(s) && s.state != SocketState::Retired {
            (sockets, next_id, answer(OutcomeClass::Programming, "socket slot is occupied"@))
        } else {
            (
                allocated(sockets, slot as int, fresh_socket((next_id + 1) as u64, transport)),
                (next_id + 1) as u64,
                accepted(),
            )
        },
        Operation::ResolveStart(slot) => on_slot(sockets, next_id, slot as int, |s| begin_connect_step(s, true)),
        Operation::ResolveOk(slot) => on_slot(sockets, next_id, slot as int, |s| resolve_ok_step(s)),
        Operation::ConnectStart(slot) => on_slot(sockets, next_id, slot as int, |s| begin_connect_step(s, false)),
        Operation::ConnectOk(slot) => on_slot(sockets, next_id, slot as int, |s| connect_ok_step(s)),
        Operation::BacklogStart(slot) => on_slot(
            sockets,
            next_id,
            slot as int,
            |s| begin_backlog_step(s, waiting_count(sockets)),
        ),
        Operation::BacklogAdmit(slot) => on_slot(sockets, next_id, slot as int, |s| backlog_admit_step(s)),
        Operation::ReadStart(slot) => on_slot(sockets, next_id, slot as int, |s| begin_read_step(s)),
        Operation::ReadPartial(slot) => if slot_at(sockets, slot as int) matches Some(s) && s.read_pending {
            (sockets, next_id, accepted())
        } else {
            (sockets, next_id, answer(OutcomeClass::Programming, "read is not pending"@))
        },
        Operation::ReadComplete(slot) => on_slot(sockets, next_id, slot as int, |s| complete_step(s, Direction::Read)),
        Operation::WriteStart(slot) => on_slot(sockets, next_id, slot as int, |s| begin_write_step(s)),
        Operation::WriteComplete(slot) => on_slot(sockets, next_id, slot as int, |s| complete_step(s, Direction::Write)),
        Operation::ShutdownWrite(slot) => on_slot(sockets, next_id, slot as int, |s| shutdown_write_step(s)),
        Operation::TimeoutConnect(slot) => on_slot(sockets, next_id, slot as int, |s| timeout_step(s, Direction::Connect)),
        Operation::TimeoutRead(slot) => on_slot(sockets, next_id, slot as int, |s| timeout_step(s, Direction::Read)),
        Operation::TimeoutWrite(slot) => on_slot(sockets, next_id, slot as int, |s| timeout_step(s, Direction::Write)),
        Operation::Cancel(slot) => on_slot(sockets, next_id, slot as int, |s| cancel_step(s)),
        Operation::Close(slot) => on_slot(sockets, next_id, slot as int, |s| close_step(s, "closed"@, true)),
        Operation::PeerClose(slot) => on_slot(sockets, next_id, slot as int, |s| close_step(s, "peer closed"@, false)),
        Operation::Keepalive(slot) => on_slot(
            sockets,
            next_id,
            slot as int,
            |s: Socket| keepalive_step(s, idle_count(sockets, pool_slot(s.transport))),
        ),
        Operation::Checkout(slot) => on_slot(sockets, next_id, slot as int, |s| checkout_step(s)),
        Operation::StaleCallback(_) => (sockets, next_id, answer(OutcomeClass::Ordinary, "stale callback ignored"@)),
        Operation::UseForeign(_) => (sockets, next_id, answer(OutcomeClass::Authority, "foreign socket owner"@)),
        Operation::ClientAbort => (shut_down(sockets), next_id, answer(OutcomeClass::Ordinary, "client aborted"@)),
        Operation::WorkerReload => (shut_down(sockets), next_id, answer(OutcomeClass::Ordinary, "worker reloaded"@)),
    }
}

} // verus!

verus! {

impl Model {
    /// A model with no sockets and nothing held.
    pub fn new() -> (model: Model)
        ensures
            model.wf(),
            model.sockets_view() == Seq::<Option<Socket>>::empty(),
            model.resources_view() == Seq::<Resource>::empty(),
            model.last_id() == 0,
    {
        let model = Model {
            sockets: Vec::new(),
            resources: Vec::new(),
            next_id: 0,
            idle_by_transport: [0, 0],
            backlog_count: 0,
        };
        assert(model.resources@.to_set() =~= expected_resources(model.sockets@));
        model
    }

    fn socket(&self, slot: usize) -> (found: Option<Socket>)
        ensures
            found == slot_at(self.sockets@, slot as int),
    {
        if slot < self.sockets.len() {
            self.sockets[slot]
        } else {
            None
        }
    }

    /// The resources currently held.
    pub fn resources(&self) -> (held: &Vec<Resource>)
        ensures
            held@ == self.resources_view(),
    {
        &self.resources
    }

    /// Idle pooled connections per transport (TCP, then Unix).
    pub fn idle_by_transport(&self) -> (counts: [usize; 2])
        requires
            self.wf(),
        ensures
            counts[0] == idle_count(self.sockets_view(), 0),
            counts[1] == idle_count(self.sockets_view(), 1),
            counts[0] <= POOL_CAPACITY && counts[1] <= POOL_CAPACITY,
    {
        self.idle_by_transport
    }

    /// Connections waiting in the backlog.
    pub fn backlog_count(&self) -> (count: usize)
        requires
            self.wf(),
        ensures
            count == waiting_count(self.sockets_view()),
            count <= BACKLOG_CAPACITY,
    {
        self.backlog_count
    }

    /// The sockets by slot.
    pub fn sockets(&self) -> (sockets: &Vec<Option<Socket>>)
        ensures
            sockets@ == self.sockets_view(),
    {
        &self.sockets
    }

}


/// After a slot's occupant is replaced by one with the same id, the
/// occupancy counts move by what the two occupants contribute.
proof fn lemma_same_id_replace(sockets: Seq<Option<Socket>>, slot: int, new: Socket)
    requires
        0 <= slot < sockets.len(),
        sockets[slot] is Some,
        sockets[slot]->0.id == new.id,
        ids_distinct(sockets),
    ensures
        ids_distinct(sockets.update(slot, Some(new))),
        io_only_when_established(sockets) && io_ok(Some(new)) ==> io_only_when_established(
            sockets.update(slot, Some(new)),
        ),
        forall|next_id: u64| ids_issued(sockets, next_id) ==> ids_issued(sockets.update(slot, Some(new)), next_id),
        forall|r: Resource|
            #![trigger expected_resources(sockets.update(slot, Some(new))).contains(r)]
            expected_resources(sockets.update(slot, Some(new))).contains(r) <==> ((
            expected_resources(sockets).contains(r) && !owns(sockets[slot]->0, r)) || owns(new, r)),
        forall|r: Resource|
            #![trigger expected_resources(sockets).contains(r)]
            resource_owner(r) == new.id ==> (expected_resources(sockets).contains(r) <==> owns(
                sockets[slot]->0,
                r,
            )),
        idle_count(sockets.update(slot, Some(new)), 0) + (if is_idle_on(sockets[slot], 0) {
            1int
        } else {
            0int
        }) == idle_count(sockets, 0) + (if is_idle_on(Some(new), 0) {
            1int
        } else {
            0int
        }),
        idle_count(sockets.update(slot, Some(new)), 1) + (if is_idle_on(sockets[slot], 1) {
            1int
        } else {
            0int
        }) == idle_count(sockets, 1) + (if is_idle_on(Some(new), 1) {
            1int
        } else {
            0int
        }),
        waiting_count(sockets.update(slot, Some(new))) + (if is_waiting(sockets[slot]) {
            1int
        } else {
            0int
        }) == waiting_count(sockets) + (if is_waiting(Some(new)) {
            1int
        } else {
            0int
        }),
{
    let updated = sockets.update(slot, Some(new));
    assert forall|i: int, j: int|
        0 <= i < updated.len() && 0 <= j < updated.len() && i != j && updated[i] is Some
            && updated[j] is Some implies (#[trigger] updated[i])->0.id != (#[trigger] updated[j])->0.id by {
        if i != slot && j != slot {
            assert(sockets[i] == updated[i] && sockets[j] == updated[j]);
        } else if i == slot {
            assert(sockets[j] == updated[j]);
            assert(sockets[i]->0.id != sockets[j]->0.id);
        } else {
            assert(sockets[i] == updated[i]);
            assert(sockets[i]->0.id != sockets[j]->0.id);
        }
    }
    if io_only_when_established(sockets) && io_ok(Some(new)) {
        assert forall|i: int| 0 <= i < updated.len() implies io_ok(#[trigger] updated[i]) by {
            if i != slot {
                assert(updated[i] == sockets[i]);
            }
        }
    }
    assert forall|next_id: u64| ids_issued(sockets, next_id) implies ids_issued(updated, next_id) by {
        assert forall|i: int| 0 <= i < updated.len() && (#[trigger] updated[i]) is Some implies updated[i]->0.id <= next_id by {
            assert(sockets[i] is Some);
        }
    }
    assert forall|j: int|
        0 <= j < sockets.len() && j != slot && (#[trigger] sockets[j]) is Some && Some(new) is Some
            implies sockets[j]->0.id != Some(new)->0.id by {
        assert(sockets[slot]->0.id != sockets[j]->0.id);
    }
    lemma_expected_replace(sockets, slot, Some(new));
    lemma_idle_count_update(sockets, slot, Some(new), 0);
    lemma_idle_count_update(sockets, slot, Some(new), 1);
    lemma_waiting_count_update(sockets, slot, Some(new));
}

impl Model {
    fn put(&mut self, slot: usize, socket: Socket)
        requires
            slot < old(self).sockets@.len(),
        ensures
            final(self).sockets@ == old(self).sockets@.update(slot as int, Some(socket)),
            final(self).resources@ == old(self).resources@,
            final(self).next_id == old(self).next_id,
            final(self).idle_by_transport == old(self).idle_by_transport,
            final(self).backlog_count == old(self).backlog_count,
    {
        self.sockets.set(slot, Some(socket));
    }

    fn begin_read(&mut self, slot: usize) -> (outcome: Outcome)
        requires
            old(self).wf(),
        ensures
            final(self).wf(),
            final(self).next_id == old(self).next_id,
            (final(self).sockets@, outcome_view(outcome)) == (
                on_slot(old(self).sockets@, old(self).next_id, slot as int, |s| begin_read_step(s)).0,
                on_slot(old(self).sockets@, old(self).next_id, slot as int, |s| begin_read_step(s)).2,
            ),
    {
        let s = match self.socket(slot) {
            None => return Outcome::programming("unknown socket"),
            Some(s) => s,
        };
        assert(self.sockets@.update(slot as int, Some(s)) =~= self.sockets@);
        if s.read_pending {
            return Outcome::ordinary("socket busy reading");
        }
        if s.state != SocketState::Established {
            return Outcome::programming("read on non-established socket");
        }
        let ghost before = self.sockets@;
        let ghost held = self.resources@.to_set();
        let id = s.id;
        let new = Socket { read_pending: true, ..s };
        self.put(slot, new);
        hold(&mut self.resources, Resource::Promise(id, Direction::Read));
        hold(&mut self.resources, Resource::Timer(id, Direction::Read));
        hold(&mut self.resources, Resource::Buffer(id, Direction::Read));
        proof {
            lemma_same_id_replace(before, slot as int, new);
            assert(self.resources@.to_set() =~= expected_resources(self.sockets@));
        }
        Outcome::accepted()
    }
}


/// The sockets and answer that one operation on one slot gives.
pub open spec fn slot_result(
    sockets: Seq<Option<Socket>>,
    slot: int,
    step: spec_fn(Socket) -> (Socket, (OutcomeClass, Seq<char>)),
    after: Seq<Option<Socket>>,
    outcome: Outcome,
) -> bool {
    after == on_slot(sockets, 0, slot, step).0 && outcome_view(outcome) == on_slot(
        sockets,
        0,
        slot,
        step,
    ).2
}

impl Model {
    fn release_direction(&mut self, id: u64, direction: Direction)
        requires
            old(self).resources@.no_duplicates(),
        ensures
            final(self).resources@.no_duplicates(),
            final(self).resources@.to_set() == old(self).resources@.to_set().remove(
                Resource::Promise(id, direction),
            ).remove(Resource::Timer(id, direction)).remove(Resource::Buffer(id, direction)),
            final(self).sockets@ == old(self).sockets@,
            final(self).next_id == old(self).next_id,
            final(self).idle_by_transport == old(self).idle_by_transport,
            final(self).backlog_count == old(self).backlog_count,
    {
        release(&mut self.resources, Resource::Promise(id, direction));
        release(&mut self.resources, Resource::Timer(id, direction));
        release(&mut self.resources, Resource::Buffer(id, direction));
    }

    fn begin_connect(&mut self, slot: usize, resolving: bool) -> (outcome: Outcome)
        requires
            old(self).wf(),
        ensures
            final(self).wf(),
            final(self).next_id == old(self).next_id,
            slot_result(old(self).sockets@, slot as int, |s| begin_connect_step(s, resolving), final(self).sockets@, outcome),
    {
        let s = match self.socket(slot) {
            None => return Outcome::programming("unknown socket"),
            Some(s) => s,
        };
        assert(self.sockets@.update(slot as int, Some(s)) =~= self.sockets@);
        if s.state != SocketState::Allocated {
            return Outcome::programming("connect on non-new socket");
        }
        let ghost before = self.sockets@;
        let id = s.id;
        let new = if resolving {
            Socket { state: SocketState::Resolving, ..s }
        } else {
            Socket { state: SocketState::Connecting, ..s }
        };
        self.put(slot, new);
        if resolving {
            hold(&mut self.resources, Resource::Resolver(id));
        } else {
            hold(&mut self.resources, Resource::Descriptor(id));
        }
        hold(&mut self.resources, Resource::Promise(id, Direction::Connect));
        hold(&mut self.resources, Resource::Timer(id, Direction::Connect));
        proof {
            lemma_same_id_replace(before, slot as int, new);
            assert(self.resources@.to_set() =~= expected_resources(self.sockets@));
        }
        Outcome::accepted()
    }

    fn resolve_ok(&mut self, slot: usize) -> (outcome: Outcome)
        requires
            old(self).wf(),
        ensures
            final(self).wf(),
            final(self).next_id == old(self).next_id,
            slot_result(old(self).sockets@, slot as int, |s| resolve_ok_step(s), final(self).sockets@, outcome),
    {
        let s = match self.socket(slot) {
            None => return Outcome::programming("unknown socket"),
            Some(s) => s,
        };
        assert(self.sockets@.update(slot as int, Some(s)) =~= self.sockets@);
        if s.state != SocketState::Resolving {
            return Outcome::programming("resolver is not pending");
        }
        let ghost before = self.sockets@;
        let id = s.id;
        let new = Socket { state: SocketState::Connecting, ..s };
        self.put(slot, new);
        release(&mut self.resources, Resource::Resolver(id));
        hold(&mut self.resources, Resource::Descriptor(id));
        proof {
            lemma_same_id_replace(before, slot as int, new);
            assert(self.resources@.to_set() =~= expected_resources(self.sockets@));
        }
        Outcome::accepted()
    }

    fn connect_ok(&mut self, slot: usize) -> (outcome: Outcome)
        requires
            old(self).wf(),
        ensures
            final(self).wf(),
            final(self).next_id == old(self).next_id,
            slot_result(old(self).sockets@, slot as int, |s| connect_ok_step(s), final(self).sockets@, outcome),
    {
        let s = match self.socket(slot) {
            None => return Outcome::programming("unknown socket"),
            Some(s) => s,
        };
        assert(self.sockets@.update(slot as int, Some(s)) =~= self.sockets@);
        if s.state != SocketState::Connecting {
            return Outcome::programming("connect is not pending");
        }
        let ghost before = self.sockets@;
        let id = s.id;
        let new = Socket { state: SocketState::Established, ..s };
        self.put(slot, new);
        release(&mut self.resources, Resource::Promise(id, Direction::Connect));
        release(&mut self.resources, Resource::Timer(id, Direction::Connect));
        proof {
            lemma_same_id_replace(before, slot as int, new);
            assert(self.resources@.to_set() =~= expected_resources(self.sockets@));
        }
        Outcome::accepted()
    }

    fn begin_backlog(&mut self, slot: usize) -> (outcome: Outcome)
        requires
            old(self).wf(),
        ensures
            final(self).wf(),
            final(self).next_id == old(self).next_id,
            slot_result(
                old(self).sockets@,
                slot as int,
                |s| begin_backlog_step(s, waiting_count(old(self).sockets@)),
                final(self).sockets@,
                outcome,
            ),
    {
        let s = match self.socket(slot) {
            None => return Outcome::programming("unknown socket"),
            Some(s) => s,
        };
        assert(self.sockets@.update(slot as int, Some(s)) =~= self.sockets@);
        if s.state != SocketState::Allocated {
            return Outcome::programming("backlog admission on non-new socket");
        }
        if self.backlog_count >= BACKLOG_CAPACITY {
            return Outcome::ordinary("pool backlog full");
        }
        let ghost before = self.sockets@;
        let id = s.id;
        let new = Socket { state: SocketState::Backlog, ..s };
        self.put(slot, new);
        self.backlog_count = self.backlog_count + 1;
        hold(&mut self.resources, Resource::Backlog(id));
        hold(&mut self.resources, Resource::Promise(id, Direction::Connect));
        hold(&mut self.resources, Resource::Timer(id, Direction::Connect));
        proof {
            lemma_same_id_replace(before, slot as int, new);
            assert(self.resources@.to_set() =~= expected_resources(self.sockets@));
        }
        Outcome::accepted()
    }

    fn backlog_admit(&mut self, slot: usize) -> (outcome: Outcome)
        requires
            old(self).wf(),
        ensures
            final(self).wf(),
            final(self).next_id == old(self).next_id,
            slot_result(old(self).sockets@, slot as int, |s| backlog_admit_step(s), final(self).sockets@, outcome),
    {
        let s = match self.socket(slot) {
            None => return Outcome::programming("unknown socket"),
            Some(s) => s,
        };
        assert(self.sockets@.update(slot as int, Some(s)) =~= self.sockets@);
        if s.state != SocketState::Backlog {
            return Outcome::programming("backlog waiter is not pending");
        }
        let ghost before = self.sockets@;
        let id = s.id;
        let new = Socket { state: SocketState::Connecting, ..s };
        proof {
            lemma_same_id_replace(before, slot as int, new);
        }
        self.put(slot, new);
        self.backlog_count = self.backlog_count - 1;
        release(&mut self.resources, Resource::Backlog(id));
        hold(&mut self.resources, Resource::Descriptor(id));
        proof {
            assert(self.resources@.to_set() =~= expected_resources(self.sockets@));
        }
        Outcome::accepted()
    }

    fn begin_write(&mut self, slot: usize) -> (outcome: Outcome)
        requires
            old(self).wf(),
        ensures
            final(self).wf(),
            final(self).next_id == old(self).next_id,
            slot_result(old(self).sockets@, slot as int, |s| begin_write_step(s), final(self).sockets@, outcome),
    {
        let s = match self.socket(slot) {
            None => return Outcome::programming("unknown socket"),
            Some(s) => s,
        };
        assert(self.sockets@.update(slot as int, Some(s)) =~= self.sockets@);
        if s.write_pending {
            return Outcome::ordinary("socket busy writing");
        }
        if s.state != SocketState::Established || s.send_shutdown {
            return Outcome::programming("write on closed send direction");
        }
        let ghost before = self.sockets@;
        let id = s.id;
        let new = Socket { write_pending: true, ..s };
        self.put(slot, new);
        hold(&mut self.resources, Resource::Promise(id, Direction::Write));
        hold(&mut self.resources, Resource::Timer(id, Direction::Write));
        hold(&mut self.resources, Resource::Buffer(id, Direction::Write));
        proof {
            lemma_same_id_replace(before, slot as int, new);
            assert(self.resources@.to_set() =~= expected_resources(self.sockets@));
        }
        Outcome::accepted()
    }

    fn shutdown_write(&mut self, slot: usize) -> (outcome: Outcome)
        requires
            old(self).wf(),
        ensures
            final(self).wf(),
            final(self).next_id == old(self).next_id,
            slot_result(old(self).sockets@, slot as int, |s| shutdown_write_step(s), final(self).sockets@, outcome),
    {
        let s = match self.socket(slot) {
            None => return Outcome::programming("unknown socket"),
            Some(s) => s,
        };
        assert(self.sockets@.update(slot as int, Some(s)) =~= self.sockets@);
        if s.state != SocketState::Established || s.write_pending {
            return Outcome::programming("send direction cannot be shut down");
        }
        let ghost before = self.sockets@;
        let new = Socket { send_shutdown: true, ..s };
        self.put(slot, new);
        proof {
            lemma_same_id_replace(before, slot as int, new);
            assert(self.resources@.to_set() =~= expected_resources(self.sockets@));
        }
        Outcome::accepted()
    }

    fn complete_direction(&mut self, slot: usize, direction: Direction) -> (outcome: Outcome)
        requires
            old(self).wf(),
        ensures
            final(self).wf(),
            final(self).next_id == old(self).next_id,
            slot_result(old(self).sockets@, slot as int, |s| complete_step(s, direction), final(self).sockets@, outcome),
    {
        let s = match self.socket(slot) {
            None => return Outcome::programming("unknown socket"),
            Some(s) => s,
        };
        assert(self.sockets@.update(slot as int, Some(s)) =~= self.sockets@);
        let pending = match direction {
            Direction::Read => s.read_pending,
            Direction::Write => s.write_pending,
            Direction::Connect => s.state == SocketState::Resolving || s.state
                == SocketState::Connecting || s.state == SocketState::Backlog,
        };
        if !pending {
            return Outcome::programming("operation is not pending");
        }
        let ghost before = self.sockets@;
        let id = s.id;
        let new = match direction {
            Direction::Read => Socket { read_pending: false, ..s },
            Direction::Write => Socket { write_pending: false, ..s },
            Direction::Connect => return self.connect_ok(slot),
        };
        self.put(slot, new);
        self.release_direction(id, direction);
        proof {
            lemma_same_id_replace(before, slot as int, new);
            assert(self.resources@.to_set() =~= expected_resources(self.sockets@));
        }
        Outcome::accepted()
    }

    fn cancel(&mut self, slot: usize) -> (outcome: Outcome)
        requires
            old(self).wf(),
        ensures
            final(self).wf(),
            final(self).next_id == old(self).next_id,
            slot_result(old(self).sockets@, slot as int, |s| cancel_step(s), final(self).sockets@, outcome),
    {
        let s = match self.socket(slot) {
            None => return Outcome::programming("unknown socket"),
            Some(s) => s,
        };
        let ghost before = self.sockets@;
        let id = s.id;
        let new = match s.state {
            SocketState::Resolving => {
                let new = Socket { state: SocketState::Allocated, ..s };
                self.put(slot, new);
                release(&mut self.resources, Resource::Resolver(id));
                self.release_direction(id, Direction::Connect);
                new
            },
            SocketState::Connecting => {
                let new = Socket { state: SocketState::Allocated, ..s };
                self.put(slot, new);
                release(&mut self.resources, Resource::Descriptor(id));
                self.release_direction(id, Direction::Connect);
                new
            },
            SocketState::Backlog => {
                let new = Socket { state: SocketState::Allocated, ..s };
                proof {
                    lemma_same_id_replace(before, slot as int, new);
                }
                self.put(slot, new);
                self.backlog_count = self.backlog_count - 1;
                release(&mut self.resources, Resource::Backlog(id));
                self.release_direction(id, Direction::Connect);
                new
            },
            _ => {
                let mut new = s;
                if s.read_pending {
                    new = Socket { read_pending: false, ..new };
                    self.release_direction(id, Direction::Read);
                }
                if s.write_pending {
                    new = Socket { write_pending: false, ..new };
                    self.release_direction(id, Direction::Write);
                }
                self.put(slot, new);
                new
            },
        };
        proof {
            lemma_same_id_replace(before, slot as int, new);
            assert(self.resources@.to_set() =~= expected_resources(self.sockets@));
        }
        Outcome::accepted()
    }

    /// Retires a live socket and releases everything it holds.
    fn retire(&mut self, slot: usize, socket: Socket)
        requires
            old(self).wf(),
            slot < old(self).sockets@.len(),
            old(self).sockets@[slot as int] == Some(socket),
            socket.state != SocketState::Retired,
        ensures
            final(self).wf(),
            final(self).next_id == old(self).next_id,
            final(self).sockets@ == old(self).sockets@.update(slot as int, Some(retired(socket))),
    {
        let ghost before = self.sockets@;
        let id = socket.id;
        let new = Socket {
            state: SocketState::Retired,
            read_pending: false,
            write_pending: false,
            ..socket
        };
        proof {
            lemma_same_id_replace(before, slot as int, new);
        }
        if socket.read_pending {
            self.release_direction(id, Direction::Read);
        }
        if socket.write_pending {
            self.release_direction(id, Direction::Write);
        }
        if socket.state == SocketState::Resolving || socket.state == SocketState::Connecting
            || socket.state == SocketState::Backlog {
            self.release_direction(id, Direction::Connect);
        }
        if socket.state == SocketState::Resolving {
            release(&mut self.resources, Resource::Resolver(id));
        }
        if socket.state == SocketState::Backlog {
            self.backlog_count = self.backlog_count - 1;
            release(&mut self.resources, Resource::Backlog(id));
        }
        if socket.state == SocketState::IdlePool {
            let pool = socket.transport.pool_index();
            self.idle_by_transport[pool] = self.idle_by_transport[pool] - 1;
            release(&mut self.resources, Resource::PoolEntry(id));
        }
        release(&mut self.resources, Resource::Descriptor(id));
        release(&mut self.resources, Resource::Cleanup(id));
        self.put(slot, new);
        proof {
            assert(self.resources@.to_set() =~= expected_resources(self.sockets@));
        }
    }

    fn close(&mut self, slot: usize, detail: &'static str, accepting: bool) -> (outcome: Outcome)
        requires
            old(self).wf(),
        ensures
            final(self).wf(),
            final(self).next_id == old(self).next_id,
            slot_result(old(self).sockets@, slot as int, |s| close_step(s, detail@, accepting), final(self).sockets@, outcome),
    {
        let s = match self.socket(slot) {
            None => return Outcome::programming("unknown socket"),
            Some(s) => s,
        };
        assert(self.sockets@.update(slot as int, Some(s)) =~= self.sockets@);
        if s.state == SocketState::Retired {
            return Outcome::ordinary(detail);
        }
        self.retire(slot, s);
        if accepting {
            Outcome::accepted()
        } else {
            Outcome::ordinary(detail)
        }
    }

    fn keepalive(&mut self, slot: usize) -> (outcome: Outcome)
        requires
            old(self).wf(),
        ensures
            final(self).wf(),
            final(self).next_id == old(self).next_id,
            slot_result(
                old(self).sockets@,
                slot as int,
                |s: Socket| keepalive_step(s, idle_count(old(self).sockets@, pool_slot(s.transport))),
                final(self).sockets@,
                outcome,
            ),
    {
        let s = match self.socket(slot) {
            None => return Outcome::programming("unknown socket"),
            Some(s) => s,
        };
        assert(self.sockets@.update(slot as int, Some(s)) =~= self.sockets@);
        if s.state != SocketState::Established || s.read_pending || s.write_pending {
            return Outcome::programming("connection is not poolable");
        }
        let pool = s.transport.pool_index();
        if self.idle_by_transport[pool] >= POOL_CAPACITY {
            self.retire(slot, s);
            return Outcome::ordinary("keepalive pool full");
        }
        let ghost before = self.sockets@;
        let id = s.id;
        let new = Socket { state: SocketState::IdlePool, ..s };
        self.put(slot, new);
        self.idle_by_transport[pool] = self.idle_by_transport[pool] + 1;
        hold(&mut self.resources, Resource::PoolEntry(id));
        proof {
            lemma_same_id_replace(before, slot as int, new);
            assert(self.resources@.to_set() =~= expected_resources(self.sockets@));
        }
        Outcome::accepted()
    }

    fn checkout(&mut self, slot: usize) -> (outcome: Outcome)
        requires
            old(self).wf(),
            old(self).has_room(),
        ensures
            final(self).wf(),
            final(self).next_id == old(self).next_id,
            slot_result(old(self).sockets@, slot as int, |s| checkout_step(s), final(self).sockets@, outcome),
    {
        let s = match self.socket(slot) {
            None => return Outcome::programming("unknown socket"),
            Some(s) => s,
        };
        assert(self.sockets@.update(slot as int, Some(s)) =~= self.sockets@);
        if s.state != SocketState::IdlePool {
            return Outcome::programming("socket is not idle");
        }
        assert(self.sockets@[slot as int] is Some);
        let ghost before = self.sockets@;
        let id = s.id;
        let new = Socket {
            state: SocketState::Established,
            generation: s.generation + 1,
            reused: s.reused + 1,
            ..s
        };
        let pool = s.transport.pool_index();
        proof {
            lemma_same_id_replace(before, slot as int, new);
        }
        self.put(slot, new);
        self.idle_by_transport[pool] = self.idle_by_transport[pool] - 1;
        release(&mut self.resources, Resource::PoolEntry(id));
        proof {
            assert(self.resources@.to_set() =~= expected_resources(self.sockets@));
        }
        Outcome::accepted()
    }

    fn cancel_direction(&mut self, slot: usize, direction: Direction) -> (outcome: Outcome)
        requires
            old(self).wf(),
        ensures
            final(self).wf(),
            final(self).next_id == old(self).next_id,
            slot_result(old(self).sockets@, slot as int, |s| timeout_step(s, direction), final(self).sockets@, outcome),
    {
        let s = match self.socket(slot) {
            None => return Outcome::programming("unknown socket"),
            Some(s) => s,
        };
        assert(self.sockets@.update(slot as int, Some(s)) =~= self.sockets@);
        let pending = match direction {
            Direction::Read => s.read_pending,
            Direction::Write => s.write_pending,
            Direction::Connect => s.state == SocketState::Resolving || s.state
                == SocketState::Connecting || s.state == SocketState::Backlog,
        };
        if !pending {
            return Outcome::programming("operation is not pending");
        }
        let ghost before = self.sockets@;
        let id = s.id;
        let new = match direction {
            Direction::Read => Socket { read_pending: false, ..s },
            Direction::Write => Socket { write_pending: false, ..s },
            Direction::Connect => return self.cancel(slot),
        };
        self.put(slot, new);
        self.release_direction(id, direction);
        proof {
            lemma_same_id_replace(before, slot as int, new);
            assert(self.resources@.to_set() =~= expected_resources(self.sockets@));
        }
        Outcome::ordinary("timeout")
    }
}


impl Model {
    fn allocate(&mut self, slot: usize, transport: Transport) -> (outcome: Outcome)
        requires
            old(self).wf(),
            old(self).has_room(),
        ensures
            final(self).wf(),
            (final(self).sockets@, final(self).next_id, outcome_view(outcome)) == transition(
                old(self).sockets@,
                old(self).next_id,
                Operation::Allocate(slot, transport),
            ),
    {
        if slot >= MAX_SOCKETS {
            return Outcome::programming("invalid socket slot");
        }
        match self.socket(slot) {
            Some(s) => {
                if s.state != SocketState::Retired {
                    return Outcome::programming("socket slot is occupied");
                }
            },
            None => {},
        }
        let ghost original = self.sockets@;
        let ghost original_len = self.sockets@.len();
        let ghost issued = self.next_id;
        self.next_id = self.next_id + 1;
        let socket = Socket {
            id: self.next_id,
            transport,
            state: SocketState::Allocated,
            read_pending: false,
            write_pending: false,
            send_shutdown: false,
            generation: 0,
            reused: 0,
        };
        hold(&mut self.resources, Resource::Cleanup(socket.id));
        let ghost held = self.resources@;
        proof {
            assert(held.to_set() =~= expected_resources(original).insert(Resource::Cleanup(socket.id)));
        }
        while self.sockets.len() <= slot
            invariant
                slot < MAX_SOCKETS,
                original_len <= self.sockets@.len(),
                self.sockets@.len() == original_len || self.sockets@.len() <= slot + 1,
                self.resources@ == held,
                self.idle_by_transport[0] == idle_count(original, 0),
                self.idle_by_transport[1] == idle_count(original, 1),
                self.backlog_count == waiting_count(original),
                held.no_duplicates(),
                held.to_set() == expected_resources(original).insert(Resource::Cleanup(socket.id)),
                issued < socket.id,
                self.sockets@ == original + Seq::new(
                    (self.sockets@.len() - original_len) as nat,
                    |i: int| None::<Socket>,
                ),
                original_len == original.len(),
                self.next_id == socket.id,
                ids_distinct(self.sockets@),
                ids_issued(self.sockets@, issued),
                io_only_when_established(self.sockets@),
                idle_count(self.sockets@, 0) == idle_count(original, 0),
                idle_count(self.sockets@, 1) == idle_count(original, 1),
                waiting_count(self.sockets@) == waiting_count(original),
                expected_resources(self.sockets@) == expected_resources(original),
            decreases slot + 1 - self.sockets@.len(),
        {
            let ghost before = self.sockets@;
            self.sockets.push(None);
            proof {
                lemma_counts_of_empty_push(before);
                assert(self.sockets@ =~= original + Seq::new(
                    (self.sockets@.len() - original_len) as nat,
                    |i: int| None::<Socket>,
                ));
                assert forall|i: int, j: int|
                    0 <= i < self.sockets@.len() && 0 <= j < self.sockets@.len() && i != j
                        && self.sockets@[i] is Some && self.sockets@[j] is Some implies (
                    #[trigger] self.sockets@[i])->0.id != (#[trigger] self.sockets@[j])->0.id by {
                    assert(i < before.len() && j < before.len());
                    assert(before[i] == self.sockets@[i] && before[j] == self.sockets@[j]);
                }
                assert forall|i: int|
                    0 <= i < self.sockets@.len() && (#[trigger] self.sockets@[i]) is Some implies self.sockets@[i]->0.id
                    <= issued by {
                    assert(before[i] == self.sockets@[i]);
                }
                assert forall|i: int| 0 <= i < self.sockets@.len() implies io_ok(#[trigger] self.sockets@[i]) by {
                    if i < before.len() {
                        assert(before[i] == self.sockets@[i]);
                    }
                }
            }
        }
        let ghost extended = self.sockets@;
        proof {
            assert(extended[slot as int] is None || extended[slot as int]->0.state == SocketState::Retired) by {
                if slot < original_len {
                    assert(extended[slot as int] == original[slot as int]);
                }
            }
            assert forall|j: int|
                0 <= j < extended.len() && j != slot && (#[trigger] extended[j]) is Some && Some(socket) is Some
                    implies extended[j]->0.id != Some(socket)->0.id by {
            }
            lemma_expected_replace(extended, slot as int, Some(socket));
            lemma_idle_count_update(extended, slot as int, Some(socket), 0);
            lemma_idle_count_update(extended, slot as int, Some(socket), 1);
            lemma_waiting_count_update(extended, slot as int, Some(socket));
        }
        self.sockets.set(slot, Some(socket));
        proof {
            let updated = self.sockets@;
            assert forall|i: int, j: int|
                0 <= i < updated.len() && 0 <= j < updated.len() && i != j && updated[i] is Some
                    && updated[j] is Some implies (#[trigger] updated[i])->0.id != (#[trigger] updated[j])->0.id by {
                if i != slot && j != slot {
                    assert(extended[i] == updated[i] && extended[j] == updated[j]);
                } else if i == slot {
                    assert(extended[j] == updated[j]);
                } else {
                    assert(extended[i] == updated[i]);
                }
            }
            assert forall|i: int| 0 <= i < updated.len() && (#[trigger] updated[i]) is Some implies updated[i]->0.id
                <= self.next_id by {
                if i != slot {
                    assert(extended[i] == updated[i]);
                }
            }
            assert forall|i: int| 0 <= i < updated.len() implies io_ok(#[trigger] updated[i]) by {
                if i != slot {
                    assert(extended[i] == updated[i]);
                }
            }
            assert(self.resources@.to_set() =~= expected_resources(updated));
            if slot < original_len {
                assert(updated =~= original.update(slot as int, Some(socket)));
            } else {
                assert(updated =~= (original + Seq::new(
                    (slot - original_len) as nat,
                    |i: int| None::<Socket>,
                )).push(Some(socket)));
            }
            assert(self.sockets@.len() <= MAX_SOCKETS);
            assert(self.resources@.no_duplicates());
            assert(ids_distinct(self.sockets@));
            assert(ids_issued(self.sockets@, self.next_id));
            assert(io_only_when_established(self.sockets@));
            assert(self.idle_by_transport[0] == idle_count(self.sockets@, 0));
            assert(self.idle_by_transport[1] == idle_count(self.sockets@, 1));
            assert(self.backlog_count == waiting_count(self.sockets@));
        }
        Outcome::accepted()
    }

    /// Retires every live socket, as a client abort or worker reload does.
    pub fn worker_shutdown(&mut self)
        requires
            old(self).wf(),
        ensures
            final(self).wf(),
            final(self).last_id() == old(self).last_id(),
            final(self).sockets_view() == shut_down(old(self).sockets_view()),
            final(self).resources_view().len() == 0,
    {
        let ghost original = self.sockets@;
        let n = self.sockets.len();
        let mut slot: usize = 0;
        while slot < n
            invariant
                n == original.len(),
                slot <= n,
                self.wf(),
                self.next_id == old(self).next_id,
                self.sockets@.len() == n,
                forall|i: int| 0 <= i < slot ==> self.sockets@[i] == shut_down(original)[i],
                forall|i: int| slot <= i < n ==> self.sockets@[i] == original[i],
            decreases n - slot,
        {
            match self.socket(slot) {
                Some(socket) => {
                    if socket.state != SocketState::Retired {
                        self.retire(slot, socket);
                    }
                },
                None => {},
            }
            slot = slot + 1;
        }
        assert(self.sockets@ =~= shut_down(original));
        proof {
            assert forall|r: Resource| !expected_resources(self.sockets@).contains(r) by {
                if expected_resources(self.sockets@).contains(r) {
                    let i = choose|i: int| 0 <= i < self.sockets@.len() && slot_owns(#[trigger] self.sockets@[i], r);
                    assert(self.sockets@[i] == shut_down(original)[i]);
                }
            }
            if self.resources@.len() > 0 {
                assert(self.resources@.to_set().contains(self.resources@[0]));
            }
        }
    }

    /// Performs one lifecycle operation and answers it.
    pub fn apply(&mut self, operation: Operation) -> (outcome: Outcome)
        requires
            old(self).wf(),
            old(self).has_room(),
        ensures
            final(self).wf(),
            (final(self).sockets_view(), final(self).last_id(), outcome_view(outcome)) == transition(
                old(self).sockets_view(),
                old(self).last_id(),
                operation,
            ),
    {
        match operation {
            Operation::Allocate(slot, transport) => self.allocate(slot, transport),
            Operation::ResolveStart(slot) => self.begin_connect(slot, true),
            Operation::ResolveOk(slot) => self.resolve_ok(slot),
            Operation::ConnectStart(slot) => self.begin_connect(slot, false),
            Operation::ConnectOk(slot) => self.connect_ok(slot),
            Operation::BacklogStart(slot) => self.begin_backlog(slot),
            Operation::BacklogAdmit(slot) => self.backlog_admit(slot),
            Operation::ReadStart(slot) => self.begin_read(slot),
            Operation::ReadPartial(slot) => {
                match self.socket(slot) {
                    Some(s) => if s.read_pending {
                        Outcome::accepted()
                    } else {
                        Outcome::programming("read is not pending")
                    },
                    None => Outcome::programming("read is not pending"),
                }
            },
            Operation::ReadComplete(slot) => self.complete_direction(slot, Direction::Read),
            Operation::WriteStart(slot) => self.begin_write(slot),
            Operation::WriteComplete(slot) => self.complete_direction(slot, Direction::Write),
            Operation::ShutdownWrite(slot) => self.shutdown_write(slot),
            Operation::TimeoutConnect(slot) => self.cancel_direction(slot, Direction::Connect),
            Operation::TimeoutRead(slot) => self.cancel_direction(slot, Direction::Read),
            Operation::TimeoutWrite(slot) => self.cancel_direction(slot, Direction::Write),
            Operation::Cancel(slot) => self.cancel(slot),
            Operation::Close(slot) => self.close(slot, "closed", true),
            Operation::PeerClose(slot) => self.close(slot, "peer closed", false),
            Operation::Keepalive(slot) => self.keepalive(slot),
            Operation::Checkout(slot) => self.checkout(slot),
            Operation::StaleCallback(_) => Outcome::ordinary("stale callback ignored"),
            Operation::UseForeign(_) => Outcome::authority("foreign socket owner"),
            Operation::ClientAbort => {
                self.worker_shutdown();
                Outcome::ordinary("client aborted")
            },
            Operation::WorkerReload => {
                self.worker_shutdown();
                Outcome::ordinary("worker reloaded")
            },
        }
    }
}


fn push_resource(list: &mut Vec<Resource>, r: Resource)
    ensures
        final(list)@.to_set() == old(list)@.to_set().insert(r),
{
    let ghost before = list@;
    list.push(r);
    assert forall|x: Resource| list@.contains(x) <==> before.contains(x) || x == r by {
        if list@.contains(x) {
            let j = choose|j: int| 0 <= j < list@.len() && list@[j] == x;
            if j < before.len() {
                assert(before[j] == x);
            }
        }
        if before.contains(x) {
            let j = choose|j: int| 0 <= j < before.len() && before[j] == x;
            assert(list@[j] == x);
        }
        if x == r {
            assert(list@[before.len() as int] == r);
        }
    }
    assert(list@.to_set() =~= before.to_set().insert(r));
}

/// The resources that one socket's state calls for, in a fixed order.
fn push_owned(list: &mut Vec<Resource>, s: Socket)
    ensures
        final(list)@.to_set() == old(list)@.to_set().union(Set::new(|r: Resource| owns(s, r))),
{
    let ghost start = list@.to_set();
    if s.state != SocketState::Retired {
        let id = s.id;
        push_resource(list, Resource::Cleanup(id));
        if s.state == SocketState::Connecting || s.state == SocketState::Established || s.state
            == SocketState::IdlePool || s.read_pending || s.write_pending {
            push_resource(list, Resource::Descriptor(id));
        }
        let ghost base = list@.to_set();
        if s.read_pending {
            push_resource(list, Resource::Buffer(id, Direction::Read));
            push_resource(list, Resource::Promise(id, Direction::Read));
            push_resource(list, Resource::Timer(id, Direction::Read));
        }
        if s.write_pending {
            push_resource(list, Resource::Buffer(id, Direction::Write));
            push_resource(list, Resource::Promise(id, Direction::Write));
            push_resource(list, Resource::Timer(id, Direction::Write));
        }
        let ghost with_io = list@.to_set();
        assert(with_io =~= base.union(Set::new(|r: Resource|
            (s.read_pending && (r == Resource::Buffer(id, Direction::Read) || r == Resource::Promise(id, Direction::Read) || r == Resource::Timer(id, Direction::Read)))
            || (s.write_pending && (r == Resource::Buffer(id, Direction::Write) || r == Resource::Promise(id, Direction::Write) || r == Resource::Timer(id, Direction::Write))))));
        if s.state == SocketState::Resolving || s.state == SocketState::Connecting || s.state
            == SocketState::Backlog {
            push_resource(list, Resource::Promise(id, Direction::Connect));
            push_resource(list, Resource::Timer(id, Direction::Connect));
        }
        if s.state == SocketState::Resolving {
            push_resource(list, Resource::Resolver(id));
        }
        if s.state == SocketState::Backlog {
            push_resource(list, Resource::Backlog(id));
        }
        if s.state == SocketState::IdlePool {
            push_resource(list, Resource::PoolEntry(id));
        }
    }
    assert(list@.to_set() =~= start.union(Set::new(|r: Resource| owns(s, r))));
}

impl Model {
    /// Recomputes, from the sockets alone, the resources they must hold.
    pub fn expected_resource_list(&self) -> (list: Vec<Resource>)
        ensures
            list@.to_set() == expected_resources(self.sockets_view()),
    {
        let mut list: Vec<Resource> = Vec::new();
        let mut i: usize = 0;
        while i < self.sockets.len()
            invariant
                i <= self.sockets@.len(),
                list@.to_set() == expected_resources(self.sockets@.take(i as int)),
            decreases self.sockets@.len() - i,
        {
            let ghost prefix = self.sockets@.take(i as int);
            match self.sockets[i] {
                Some(s) => push_owned(&mut list, s),
                None => {},
            }
            proof {
                let next = self.sockets@.take(i + 1);
                assert forall|r: Resource| expected_resources(next).contains(r) <==> (expected_resources(
                    prefix,
                ).contains(r) || slot_owns(self.sockets@[i as int], r)) by {
                    if expected_resources(next).contains(r) {
                        let j = choose|j: int| 0 <= j < next.len() && slot_owns(#[trigger] next[j], r);
                        if j < i {
                            assert(prefix[j] == next[j]);
                        }
                    }
                    if expected_resources(prefix).contains(r) {
                        let j = choose|j: int| 0 <= j < prefix.len() && slot_owns(#[trigger] prefix[j], r);
                        assert(next[j] == prefix[j]);
                    }
                    if slot_owns(self.sockets@[i as int], r) {
                        assert(next[i as int] == self.sockets@[i as int]);
                    }
                }
                assert(list@.to_set() =~= expected_resources(next));
            }
            i = i + 1;
        }
        assert(self.sockets@.take(i as int) =~= self.sockets@);
        list
    }
}

/// In every reachable state the resources held are exactly those the
/// sockets' states call for, and each live socket owns exactly one cleanup
/// handle: a cleanup handle is held for an id exactly when a live socket
/// has that id, and no two sockets share an id.
pub proof fn law_cleanup_is_owned_once(model: Model)
    requires
        model.wf(),
    ensures
        model.resources_view().to_set() == expected_resources(model.sockets_view()),
        model.resources_view().no_duplicates(),
        ids_distinct(model.sockets_view()),
        forall|id: u64|
            #![trigger model.resources_view().to_set().contains(Resource::Cleanup(id))]
            model.resources_view().to_set().contains(Resource::Cleanup(id)) <==> exists|i: int|
                0 <= i < model.sockets_view().len() && (#[trigger] model.sockets_view()[i]) is Some
                    && model.sockets_view()[i]->0.state != SocketState::Retired
                    && model.sockets_view()[i]->0.id == id,
{
    let sockets = model.sockets_view();
    assert forall|id: u64|
        #![trigger model.resources_view().to_set().contains(Resource::Cleanup(id))]
        model.resources_view().to_set().contains(Resource::Cleanup(id)) <==> exists|i: int|
            0 <= i < sockets.len() && (#[trigger] sockets[i]) is Some && sockets[i]->0.state
                != SocketState::Retired && sockets[i]->0.id == id by {
        if model.resources_view().to_set().contains(Resource::Cleanup(id)) {
            assert(expected_resources(sockets).contains(Resource::Cleanup(id)));
            let i = choose|i: int| 0 <= i < sockets.len() && slot_owns(#[trigger] sockets[i], Resource::Cleanup(id));
            assert(sockets[i] is Some);
        }
        if exists|i: int|
            0 <= i < sockets.len() && (#[trigger] sockets[i]) is Some && sockets[i]->0.state
                != SocketState::Retired && sockets[i]->0.id == id {
            let i = choose|i: int|
                0 <= i < sockets.len() && (#[trigger] sockets[i]) is Some && sockets[i]->0.state
                    != SocketState::Retired && sockets[i]->0.id == id;
            assert(slot_owns(sockets[i], Resource::Cleanup(id)));
            assert(expected_resources(sockets).contains(Resource::Cleanup(id)));
        }
    }
}

/// In every reachable state the keepalive pools and the backlog stay
/// within their capacity.
pub proof fn law_pools_and_backlog_are_bounded(model: Model)
    requires
        model.wf(),
    ensures
        idle_count(model.sockets_view(), 0) <= POOL_CAPACITY,
        idle_count(model.sockets_view(), 1) <= POOL_CAPACITY,
        waiting_count(model.sockets_view()) <= BACKLOG_CAPACITY,
{
}

} // verus!
