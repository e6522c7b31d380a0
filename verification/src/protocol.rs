//! The messages between clients, workers and the coordinator, and the checks
//! that depend on nothing but a message.
use std::sync::Arc;
use vstd::prelude::*;
use vstd::string::*;
use vstd::utf8::encode_utf8;

use crate::arena::ArenaRef;
use crate::error::{outcome, Error, ErrorModel};
use crate::ids::{
    bytes_equal, Attempt, ClusterId, CoordinatorEpoch, LeaseId, NodeId, ObjectId, RequestId, Revision, TaskId,
    WorkerEpoch, WorkerSessionId,
};
use crate::operation::{Codec, OperationDescriptor, OperationKey, TaskArg};
use crate::resources::ResourceSet;
use crate::text::{debug_quoted, lemma_tagged, quoted, says, tagged, tagged_string};

verus! {

pub const MAGIC: [u8; 4] = [67, 82, 89, 78];

pub const PROTOCOL_MAJOR: u16 = 8;

pub const PROTOCOL_MINOR: u16 = 0;

/// No frame on the wire is longer.
pub const MAX_FRAME_BYTES: usize = 8_388_608;

/// The largest object that travels in one frame: a frame less 64 KiB.
pub const MAX_OBJECT_BYTES: usize = 8_323_072;

pub const DEFAULT_RPC_TIMEOUT_MS: u64 = 5_000;

/// A request with what is needed to accept or refuse it.
#[derive(Debug, Clone)]
pub struct Envelope {
    pub magic: [u8; 4],
    pub major: u16,
    pub minor: u16,
    pub cluster_id: ClusterId,
    pub coordinator_epoch: Option<CoordinatorEpoch>,
    pub request_id: RequestId,
    pub deadline_unix_ms: u64,
    pub body: RpcRequest,
}

impl Envelope {
    /// An envelope of the current protocol, with a new request id and no epoch.
    pub fn new(cluster_id: ClusterId, body: RpcRequest, deadline_unix_ms: u64) -> (r: Self)
        ensures
            r.magic@ == MAGIC@,
            r.major == PROTOCOL_MAJOR,
            r.minor == PROTOCOL_MINOR,
            r.cluster_id == cluster_id,
            r.coordinator_epoch is None,
            r.deadline_unix_ms == deadline_unix_ms,
            r.body == body,
    {
        Envelope {
            magic: MAGIC,
            major: PROTOCOL_MAJOR,
            minor: PROTOCOL_MINOR,
            cluster_id,
            coordinator_epoch: None,
            request_id: RequestId::new(),
            deadline_unix_ms,
            body,
        }
    }

    /// What `validate` answers.
    pub open spec fn validated(self, expected_cluster: ClusterId, now_ms: u64) -> Result<(), ErrorModel> {
        if self.magic@ != MAGIC@ || self.major != PROTOCOL_MAJOR || self.minor > PROTOCOL_MINOR {
            Err(ErrorModel::Protocol("incompatible protocol"@))
        } else if self.cluster_id != expected_cluster {
            Err(ErrorModel::Protocol("cluster id mismatch"@))
        } else if self.deadline_unix_ms <= now_ms {
            Err(ErrorModel::DeadlineExceeded)
        } else {
            Ok(())
        }
    }

    /// Accepts an envelope of this protocol for this cluster before its deadline.
    pub fn validate(&self, expected_cluster: ClusterId, now_ms: u64) -> (r: Result<(), Error>)
        ensures
            outcome(r) == self.validated(expected_cluster, now_ms),
    {
        let magic = MAGIC;
        proof {
            if self.magic@ == MAGIC@ {
                assert(self.magic =~= magic) by {
                    assert forall|i: int| 0 <= i < 4 implies self.magic[i] == magic[i] by {
                        assert(self.magic@[i] == MAGIC@[i]);
                    }
                }
            }
        }
        if !bytes_equal(&self.magic, &magic) || self.major != PROTOCOL_MAJOR || self.minor > PROTOCOL_MINOR {
            return Err(Error::Protocol("incompatible protocol".to_string()));
        }
        if self.cluster_id != expected_cluster {
            return Err(Error::Protocol("cluster id mismatch".to_string()));
        }
        if self.deadline_unix_ms <= now_ms {
            return Err(Error::DeadlineExceeded);
        }
        Ok(())
    }
}

/// The place of the last colon.
pub open spec fn last_colon(text: Seq<u8>) -> Option<int>
    decreases text.len(),
{
    if text.len() == 0 {
        None
    } else if text.last() == 58 {
        Some(text.len() - 1)
    } else {
        last_colon(text.drop_last())
    }
}

/// The value of a row of decimal digits.
pub open spec fn digits_value(digits: Seq<u8>) -> int
    decreases digits.len(),
{
    if digits.len() == 0 {
        0
    } else {
        10 * digits_value(digits.drop_last()) + (digits.last() - 48)
    }
}

pub open spec fn all_digits(text: Seq<u8>) -> bool {
    forall|i: int| 0 <= i < text.len() ==> 48 <= #[trigger] text[i] <= 57
}

/// A 16-bit number in decimal, with an optional plus sign.
pub open spec fn port_value(text: Seq<u8>) -> Option<int> {
    let digits = if text.len() > 0 && text[0] == 43 {
        text.subrange(1, text.len() as int)
    } else {
        text
    };
    if digits.len() > 0 && all_digits(digits) && digits_value(digits) <= 65535 {
        Some(digits_value(digits))
    } else {
        None
    }
}

/// `host:port`, split at the last colon, with a host and a port other than zero.
pub open spec fn addr_ok(text: Seq<u8>) -> bool {
    match last_colon(text) {
        Some(i) => i > 0 && match port_value(text.subrange(i + 1, text.len() as int)) {
            Some(port) => port != 0,
            None => false,
        },
        None => false,
    }
}

/// An acceptable address whose host names this machine.
pub open spec fn loopback_ok(text: Seq<u8>) -> bool {
    addr_ok(text) && {
        let host = text.subrange(0, last_colon(text)->0);
        ||| host == encode_utf8("127.0.0.1"@)
        ||| host == encode_utf8("::1"@)
        ||| host == encode_utf8("localhost"@)
    }
}

pub proof fn lemma_last_colon(text: Seq<u8>)
    ensures
        match last_colon(text) {
            Some(i) => 0 <= i < text.len() && text[i] == 58 && forall|j: int|
                i < j < text.len() ==> text[j] != 58,
            None => forall|j: int| 0 <= j < text.len() ==> text[j] != 58,
        },
    decreases text.len(),
{
    if text.len() > 0 && text.last() != 58 {
        lemma_last_colon(text.drop_last());
        let rest = text.drop_last();
        match last_colon(text) {
            Some(i) => {
                assert forall|j: int| i < j < text.len() implies text[j] != 58 by {
                    if j < rest.len() {
                        assert(rest[j] == text[j]);
                    }
                }
            },
            None => {
                assert forall|j: int| 0 <= j < text.len() implies text[j] != 58 by {
                    if j < rest.len() {
                        assert(rest[j] == text[j]);
                    }
                }
            },
        }
    }
}

pub(crate) fn find_last_colon(text: &[u8]) -> (r: Option<usize>)
    ensures
        match r {
            Some(i) => i < text@.len() && last_colon(text@) == Some(i as int),
            None => last_colon(text@) is None,
        },
{
    let mut i: usize = text.len();
    assert(text@.take(i as int) =~= text@);
    while i > 0
        invariant
            i <= text@.len(),
            last_colon(text@) == last_colon(text@.take(i as int)),
        decreases i,
    {
        assert(text@.take(i as int).drop_last() =~= text@.take(i - 1));
        if text[i - 1] == 58 {
            return Some(i - 1);
        }
        i -= 1;
    }
    None
}

pub(crate) fn slices_equal(a: &[u8], b: &[u8]) -> (r: bool)
    ensures
        r == (a@ == b@),
{
    if a.len() != b.len() {
        return false;
    }
    let mut i: usize = 0;
    while i < a.len()
        invariant
            i <= a@.len(),
            a@.len() == b@.len(),
            forall|j: int| 0 <= j < i ==> a@[j] == b@[j],
        decreases a@.len() - i,
    {
        if a[i] != b[i] {
            return false;
        }
        i += 1;
    }
    assert(a@ =~= b@);
    true
}

/// The bytes of `text` from `start` on, read as a port.
pub(crate) fn parse_port(text: &[u8], start: usize) -> (r: Option<u16>)
    requires
        start <= text@.len(),
    ensures
        match r {
            Some(port) => port_value(text@.subrange(start as int, text@.len() as int)) == Some(port as int),
            None => port_value(text@.subrange(start as int, text@.len() as int)) is None,
        },
{
    let ghost whole = text@.subrange(start as int, text@.len() as int);
    let mut first: usize = start;
    if start < text.len() && text[start] == 43 {
        first = start + 1;
    }
    let ghost digits = text@.subrange(first as int, text@.len() as int);
    assert(digits =~= if whole.len() > 0 && whole[0] == 43 {
        whole.subrange(1, whole.len() as int)
    } else {
        whole
    });
    if first == text.len() {
        return None;
    }
    let mut value: u32 = 0;
    let mut i: usize = first;
    while i < text.len()
        invariant
            start <= first <= i <= text@.len(),
            whole == text@.subrange(start as int, text@.len() as int),
            digits == if whole.len() > 0 && whole[0] == 43 {
                whole.subrange(1, whole.len() as int)
            } else {
                whole
            },
            digits == text@.subrange(first as int, text@.len() as int),
            all_digits(digits.take(i - first)),
            digits_value(digits.take(i - first)) >= 0,
            value == if digits_value(digits.take(i - first)) > 65535 {
                65536
            } else {
                digits_value(digits.take(i - first))
            },
        decreases text@.len() - i,
    {
        let byte: u8 = text[i];
        assert(digits[i - first] == byte);
        if byte < 48 || byte > 57 {
            assert(!all_digits(digits));
            return None;
        }
        proof {
            let next = digits.take(i + 1 - first);
            assert(next.drop_last() =~= digits.take(i - first));
            assert forall|j: int| 0 <= j < next.len() implies 48 <= #[trigger] next[j] <= 57 by {
                if j < i - first {
                    assert(digits.take(i - first)[j] == next[j]);
                }
            }
        }
        value = value * 10 + (byte - 48) as u32;
        if value > 65535 {
            value = 65536;
        }
        i += 1;
    }
    assert(digits.take(i - first) =~= digits);
    if value > 65535 {
        None
    } else {
        Some(value as u16)
    }
}

/// Accepts `host:port` with a host and a port other than zero.
pub fn validate_advertise_addr(value: &str) -> (r: Result<(), Error>)
    ensures
        outcome(r) == if addr_ok(value.spec_bytes()) {
            Ok::<(), ErrorModel>(())
        } else {
            Err(ErrorModel::InvalidAddress(value@))
        },
{
    let text = value.as_bytes();
    let colon: usize = match find_last_colon(text) {
        Some(i) => i,
        None => return Err(Error::InvalidAddress(value.to_string())),
    };
    assert(colon < text.len());
    match parse_port(text, colon + 1) {
        None => return Err(Error::InvalidAddress(value.to_string())),
        Some(port) => {
            if port == 0 {
                return Err(Error::InvalidAddress(value.to_string()));
            }
        },
    }
    if colon == 0 {
        return Err(Error::InvalidAddress(value.to_string()));
    }
    Ok(())
}

/// What `require_loopback_addr` answers.
pub open spec fn loopback_checked(value: Seq<char>) -> Result<(), ErrorModel> {
    if !addr_ok(encode_utf8(value)) {
        Err(ErrorModel::InvalidAddress(value))
    } else if !loopback_ok(encode_utf8(value)) {
        Err(ErrorModel::InvalidAddress("unauthenticated mode requires loopback address: "@ + value))
    } else {
        Ok(())
    }
}

/// Accepts an address on this machine only.
pub fn require_loopback_addr(value: &str) -> (r: Result<(), Error>)
    ensures
        outcome(r) == loopback_checked(value@),
{
    match validate_advertise_addr(value) {
        Ok(()) => {},
        Err(error) => return Err(error),
    }
    let text = value.as_bytes();
    let colon: usize = match find_last_colon(text) {
        Some(i) => i,
        None => return Err(Error::InvalidAddress(value.to_string())),
    };
    let host = vstd::slice::slice_subrange(text, 0, colon);
    if !slices_equal(host, "127.0.0.1".as_bytes()) && !slices_equal(host, "::1".as_bytes()) && !slices_equal(
        host,
        "localhost".as_bytes(),
    ) {
        let mut message = "unauthenticated mode requires loopback address: ".to_string();
        message.append(value);
        return Err(Error::InvalidAddress(message));
    }
    Ok(())
}

/// A loopback address is an acceptable address.
pub proof fn law_loopback_is_addr(text: Seq<u8>)
    ensures
        loopback_ok(text) ==> addr_ok(text),
{
}

/// Which process a worker request comes from, and under which registration.
#[derive(Debug, Clone, Copy)]
pub struct WorkerIdentity {
    pub node_id: NodeId,
    pub worker_epoch: WorkerEpoch,
    pub session_id: WorkerSessionId,
    pub coordinator_epoch: CoordinatorEpoch,
}

#[derive(Debug, Clone)]
pub struct RegisterWorker {
    pub node_id: NodeId,
    pub worker_epoch: WorkerEpoch,
    pub advertise_addr: String,
    pub resources: ResourceSet,
    pub slots: u32,
    pub operations: Vec<OperationDescriptor>,
}

#[derive(Debug, Clone, Copy)]
pub struct RegisteredWorker {
    pub identity: WorkerIdentity,
    pub revision: Revision,
    pub lease_timeout_ms: u64,
}

/// Which assignment of which task a worker report is about.
#[derive(Debug, Clone, Copy, Eq, PartialEq)]
pub struct TaskFence {
    pub task_id: TaskId,
    pub attempt: Attempt,
    pub lease_id: LeaseId,
}

#[derive(Debug, Clone)]
pub struct TaskAssignment {
    pub fence: TaskFence,
    pub operation: OperationKey,
    pub args: Vec<TaskArg>,
    pub output_id: ObjectId,
    pub resources: ResourceSet,
}

#[derive(Debug, Clone)]
pub struct TaskCompletion {
    pub fence: TaskFence,
    pub output_id: ObjectId,
    pub codec: Codec,
    pub size_bytes: u64,
    pub checksum: [u8; 32],
    pub location: String,
    /// A small output comes with its report; a large one is fetched from `location`.
    pub bytes: Option<Arc<[u8]>>,
}

/// Who writes the bytes of a reserved arena slot: the client, through its own
/// mapping, or the coordinator, chunk by chunk.
#[derive(Debug, Clone, Copy, Eq, PartialEq, Structural)]
pub enum ArenaWriteMode {
    Direct,
    Streamed,
}

#[derive(Debug, Clone)]
pub enum ClientRequest {
    Connect,
    Put { codec: Codec, bytes: Vec<u8> },
    Submit { operation: OperationKey, args: Vec<TaskArg>, resources: ResourceSet, max_attempts: u32 },
    /// Each spec is admitted on its own; the reply has one result per spec.
    SubmitBatch(Vec<SubmitSpec>),
    Status(TaskId),
    /// Waits up to `wait_ms` for a pending output.
    Get { object: ObjectId, wait_ms: u64 },
    /// Waits up to `wait_ms` for `min_ready` of the objects to resolve.
    GetBatch { objects: Vec<ObjectId>, wait_ms: u64, min_ready: u32 },
    GetLocal(ObjectId),
    /// Asks for an arena slot. An all-zero checksum says that the content is
    /// not hashed; the id is then random.
    ArenaReserve { id: ObjectId, codec: Codec, size_bytes: u64, checksum: [u8; 32], mode: ArenaWriteMode },
    ArenaCommit { id: ObjectId, reservation: RequestId },
    /// Writes a range of a reserved slot.
    PutChunk { id: ObjectId, reservation: RequestId, offset: u64, bytes: Vec<u8> },
    /// Reads a range of a committed object.
    GetChunk { id: ObjectId, offset: u64, len: u64 },
    Workers,
    Cancel(TaskId),
    Release(ObjectId),
}

/// One task of a batch.
#[derive(Debug, Clone)]
pub struct SubmitSpec {
    pub operation: OperationKey,
    pub args: Vec<TaskArg>,
    pub resources: ResourceSet,
    pub max_attempts: u32,
}

/// An admitted task and the id reserved for its output.
#[derive(Debug, Clone, Copy)]
pub struct SubmittedTask {
    pub task_id: TaskId,
    pub output_id: ObjectId,
}

/// A resolved object: inline bytes, a place in the arena, or a location.
#[derive(Debug, Clone)]
pub struct ObjectPayload {
    pub id: ObjectId,
    pub codec: Codec,
    pub size_bytes: u64,
    pub checksum: [u8; 32],
    pub location: String,
    pub bytes: Option<Arc<[u8]>>,
    pub arena: Option<ArenaRef>,
}

#[derive(Debug, Clone, Eq, PartialEq)]
pub enum TaskStatus {
    Waiting,
    Runnable,
    Assigned,
    Running,
    CancelRequested,
    Succeeded,
    Failed(String),
    Cancelled,
}

impl TaskStatus {
    pub open spec fn text(self) -> Seq<char> {
        match self {
            TaskStatus::Waiting => "Waiting"@,
            TaskStatus::Runnable => "Runnable"@,
            TaskStatus::Assigned => "Assigned"@,
            TaskStatus::Running => "Running"@,
            TaskStatus::CancelRequested => "CancelRequested"@,
            TaskStatus::Succeeded => "Succeeded"@,
            TaskStatus::Failed(message) => tagged("Failed"@, debug_quoted(message@)),
            TaskStatus::Cancelled => "Cancelled"@,
        }
    }

    /// The name of the status, with the message of a failure.
    pub fn to_string(&self) -> (r: String)
        ensures
            r@ == self.text(),
    {
        match self {
            TaskStatus::Waiting => "Waiting".to_string(),
            TaskStatus::Runnable => "Runnable".to_string(),
            TaskStatus::Assigned => "Assigned".to_string(),
            TaskStatus::Running => "Running".to_string(),
            TaskStatus::CancelRequested => "CancelRequested".to_string(),
            TaskStatus::Succeeded => "Succeeded".to_string(),
            TaskStatus::Failed(message) => {
                let value = quoted(message.as_str());
                tagged_string("Failed", value.as_str())
            },
            TaskStatus::Cancelled => "Cancelled".to_string(),
        }
    }
}

#[derive(Debug, Clone)]
pub struct TaskView {
    pub task_id: TaskId,
    pub output_id: ObjectId,
    pub state: TaskStatus,
    pub attempt: Attempt,
    pub worker: Option<NodeId>,
}

#[derive(Debug, Clone)]
pub struct WorkerView {
    pub identity: WorkerIdentity,
    pub advertise_addr: String,
    pub alive: bool,
    pub slots: u32,
    pub free_slots: u32,
    pub resources: ResourceSet,
    pub available: ResourceSet,
    pub operations: Vec<OperationDescriptor>,
}

#[derive(Debug, Clone)]
pub enum ClientReply {
    /// A client that can map the arena named by the token is on the same host.
    Connected { coordinator_epoch: CoordinatorEpoch, arena_token: String },
    Object(ObjectPayload),
    ArenaReserved { id: ObjectId, offset: u64, reservation: RequestId },
    Submitted { task_id: TaskId, output_id: ObjectId },
    /// One result per spec, in the order of the request.
    SubmittedBatch(Vec<Result<SubmittedTask, Error>>),
    /// One result per object, in the order of the request.
    ObjectBatch(Vec<Result<ObjectPayload, Error>>),
    Status(TaskView),
    Workers(Vec<WorkerView>),
    Cancelled,
    Released,
    Chunk(Vec<u8>),
    ChunkWritten,
    Error(Error),
}

/// Why an attempt failed. A permanent failure is never retried.
#[derive(Debug, Clone, Copy, Eq, PartialEq, Structural)]
pub enum FailureClass {
    Transient,
    Permanent,
}

#[derive(Debug, Clone)]
pub enum WorkerRequest {
    Register(RegisterWorker),
    Heartbeat(WorkerIdentity),
    /// Waits up to `wait_ms` for an assignment, a cancellation or a deletion.
    Poll { identity: WorkerIdentity, wait_ms: u64 },
    Cancelled { identity: WorkerIdentity, fence: TaskFence },
    Started { identity: WorkerIdentity, fence: TaskFence },
    Completed { identity: WorkerIdentity, report: TaskCompletion },
    Failed { identity: WorkerIdentity, fence: TaskFence, message: String, class: FailureClass },
    /// Asks for no more work; work in flight may still be reported.
    Drain(WorkerIdentity),
}

#[derive(Debug, Clone)]
pub enum RpcRequest {
    Client(ClientRequest),
    Worker(WorkerRequest),
}

#[derive(Debug, Clone)]
pub enum RpcReply {
    Client(ClientReply),
    Worker(WorkerReply),
}

#[derive(Debug, Clone)]
pub enum WorkerReply {
    Registered(RegisteredWorker),
    Assignment(Option<TaskAssignment>),
    Cancel(TaskFence),
    DeleteObject(ObjectId),
    Accepted,
    Error(Error),
}

/// A message is accepted if and only if it is of this protocol and of a version that
/// is spoken here, is for this cluster, and its deadline is still to come.
pub proof fn law_message_is_accepted_exactly_if(envelope: Envelope, cluster: ClusterId, now_ms: u64)
    ensures
        envelope.validated(cluster, now_ms) is Ok <==> {
            &&& envelope.magic@ == seq![67u8, 82, 89, 78]
            &&& envelope.major == 8
            &&& envelope.minor == 0
            &&& envelope.cluster_id == cluster
            &&& now_ms < envelope.deadline_unix_ms
        },
        envelope.magic@ == seq![67u8, 82, 89, 78] && envelope.major == 8 && envelope.minor == 0
            && envelope.cluster_id == cluster && now_ms >= envelope.deadline_unix_ms ==> envelope.validated(cluster, now_ms)
            == Err::<(), ErrorModel>(ErrorModel::DeadlineExceeded),
{
    assert(MAGIC@ =~= seq![67u8, 82, 89, 78]);
}

proof fn lemma_last_colon_of(host: Seq<u8>, port: Seq<u8>)
    requires
        forall|i: int| 0 <= i < port.len() ==> #[trigger] port[i] != 58,
    ensures
        last_colon(host + seq![58u8] + port) == Some(host.len() as int),
    decreases port.len(),
{
    let text = host + seq![58u8] + port;
    if port.len() > 0 {
        lemma_last_colon_of(host, port.drop_last());
        assert(text.last() == port.last());
        assert(port[port.len() - 1] != 58);
        assert(text.drop_last() =~= host + seq![58u8] + port.drop_last());
    } else {
        assert(text.last() == 58);
    }
}

proof fn lemma_digits_not_negative(digits: Seq<u8>)
    requires
        forall|i: int| 0 <= i < digits.len() ==> 48 <= #[trigger] digits[i] <= 57,
    ensures
        digits_value(digits) >= 0,
    decreases digits.len(),
{
    if digits.len() > 0 {
        let rest = digits.drop_last();
        assert forall|i: int| 0 <= i < rest.len() implies 48 <= #[trigger] rest[i] <= 57 by {
            assert(rest[i] == digits[i]);
        }
        lemma_digits_not_negative(rest);
        assert(digits[digits.len() - 1] == digits.last());
    }
}

/// An address is a host, a colon, and a port between 1 and 65535 in decimal digits,
/// before which a plus sign may stand.
pub proof fn law_address_is_host_and_port(host: Seq<u8>, port: Seq<u8>)
    requires
        port.len() > 0,
        forall|i: int| 0 <= i < port.len() ==> 48 <= #[trigger] port[i] <= 57,
    ensures
        addr_ok(host + seq![58u8] + port) <==> host.len() > 0 && 0 < digits_value(port) < 65_536,
        addr_ok(host + seq![58u8, 43u8] + port) <==> host.len() > 0 && 0 < digits_value(port) < 65_536,
        !addr_ok(host + seq![58u8]),
        addr_ok(host) ==> exists|i: int| 0 < i < host.len() - 1 && #[trigger] host[i] == 58,
{
    let text = host + seq![58u8] + port;
    lemma_digits_not_negative(port);
    assert(all_digits(port));
    lemma_last_colon_of(host, port);
    assert(text.subrange(host.len() as int + 1, text.len() as int) =~= port);
    assert(port[0] != 43);
    let signed = seq![43u8] + port;
    let other = host + seq![58u8, 43u8] + port;
    assert(other =~= host + seq![58u8] + signed);
    assert forall|i: int| 0 <= i < signed.len() implies #[trigger] signed[i] != 58 by {
        if i > 0 {
            assert(signed[i] == port[i - 1]);
        }
    }
    lemma_last_colon_of(host, signed);
    assert(other.subrange(host.len() as int + 1, other.len() as int) =~= signed);
    assert(signed.subrange(1, signed.len() as int) =~= port);
    let bare = host + seq![58u8] + Seq::<u8>::empty();
    assert(bare =~= host + seq![58u8]);
    lemma_last_colon_of(host, Seq::<u8>::empty());
    assert(bare.subrange(host.len() as int + 1, bare.len() as int).len() == 0);
    lemma_last_colon(host);
    if addr_ok(host) {
        let i = last_colon(host)->0;
        assert(host.subrange(i + 1, host.len() as int).len() > 0);
        assert(host[i] == 58);
    }
}

/// The value of digits is read from the left, ten for one.
pub proof fn law_digits_are_decimal(digits: Seq<u8>, digit: u8)
    requires
        48 <= digit <= 57,
    ensures
        digits_value(seq![digit]) == digit - 48,
        digits_value(digits.push(digit)) == 10 * digits_value(digits) + digit - 48,
        digits_value(seq![48u8] + digits) == digits_value(digits),
    decreases digits.len(),
{
    reveal_with_fuel(digits_value, 2);
    assert(seq![digit].drop_last() =~= Seq::<u8>::empty());
    assert(digits.push(digit).drop_last() =~= digits);
    let led = seq![48u8] + digits;
    if digits.len() > 0 {
        law_digits_are_decimal(digits.drop_last(), digit);
        assert(led.drop_last() =~= seq![48u8] + digits.drop_last());
        assert(led.last() == digits.last());
    } else {
        assert(led.drop_last() =~= Seq::<u8>::empty());
    }
}

/// Without authentication only addresses of this machine will do: 127.0.0.1, ::1 and
/// localhost.
pub proof fn law_loopback_hosts(host: Seq<u8>, port: Seq<u8>)
    requires
        port.len() > 0,
        forall|i: int| 0 <= i < port.len() ==> 48 <= #[trigger] port[i] <= 57,
        0 < digits_value(port) < 65_536,
        host.len() > 0,
    ensures
        loopback_ok(host + seq![58u8] + port) <==> host == encode_utf8("127.0.0.1"@) || host == encode_utf8("::1"@)
            || host == encode_utf8("localhost"@),
{
    let text = host + seq![58u8] + port;
    law_address_is_host_and_port(host, port);
    lemma_last_colon_of(host, port);
    assert(text.subrange(0, host.len() as int) =~= host);
}

/// The text of a task's state names it, and gives the reason of one that failed.
pub proof fn law_state_is_told_by_name(state: TaskStatus)
    ensures
        state is Waiting ==> state.text() == "Waiting"@,
        state is Runnable ==> state.text() == "Runnable"@,
        state is Assigned ==> state.text() == "Assigned"@,
        state is Running ==> state.text() == "Running"@,
        state is CancelRequested ==> state.text() == "CancelRequested"@,
        state is Succeeded ==> state.text() == "Succeeded"@,
        state is Cancelled ==> state.text() == "Cancelled"@,
        state matches TaskStatus::Failed(message) ==> "Failed"@.is_prefix_of(state.text()) && says(
            state.text(),
            debug_quoted(message@),
        ),
{
    if let TaskStatus::Failed(message) = state {
        lemma_tagged("Failed"@, debug_quoted(message@));
    }
}

} // verus!
