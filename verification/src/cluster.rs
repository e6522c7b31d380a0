//! Request dispatch over the coordinator's state, the arena and the replay cache.
//!
//! [`CoordinatorServer`] answers one request at a time. Whoever owns it holds the
//! lock, the sockets, the clock and the arena's memory.
use std::sync::Arc;
use vstd::prelude::*;
use vstd::string::*;

use crate::arena::{
    arena_put_met, reserve_met, written, ArenaModel, ArenaRef, ArenaStore, Reservation,
};
use crate::coordinator::model::{Model, RegisterModel, Verdict};
use crate::coordinator::{
    assignment_met, assignment_of, completion_view, inline_digest, put_met, register_view, registration_met, resolved,
    shared_view, status_phase, submit_met, CoordinatorState, WorkerState,
};
use crate::error::{outcome, Error, ErrorModel};
use crate::ids::{
    blake3_digest, blake3_hash, blake3_hash_parallel, ClusterId, CoordinatorEpoch, LeaseId, NodeId, ObjectId,
    RequestId, TaskId, WorkerSessionId,
};
use crate::operation::{args_model, by_key, descriptors_model};
use crate::protocol::{
    loopback_checked, require_loopback_addr, ArenaWriteMode, ClientReply, ClientRequest, Envelope, ObjectPayload,
    RegisterWorker, RegisteredWorker, RpcReply, RpcRequest, SubmitSpec, SubmittedTask, TaskFence, TaskView,
    WorkerIdentity, WorkerReply, WorkerRequest, WorkerView, DEFAULT_RPC_TIMEOUT_MS, MAX_FRAME_BYTES, MAX_OBJECT_BYTES,
};
use crate::replay::{
    admission, considered, expiry, replay_expiry, Admission, Entries, ReplayCache, ReplayEntry, MAX_REPLAY_BYTES,
    REPLAY_ENTRY_OVERHEAD,
};

verus! {

/// A request is parked for no longer than this.
pub const MAX_LONG_POLL_MS: u64 = 4_000;

/// A parked request is looked at again at least this often.
pub const LONG_POLL_SLICE_MS: u64 = 250;

/// The digest of an object's content. Large inputs are hashed on several threads.
pub fn checksum(bytes: &[u8]) -> (r: [u8; 32])
    ensures
        r@ == blake3_digest(bytes@),
{
    if bytes.len() >= 1_048_576 {
        blake3_hash_parallel(bytes)
    } else {
        blake3_hash(bytes)
    }
}

/// `std::time::SystemTime::elapsed` of the Unix epoch: the whole seconds since
/// then by the machine's clock, and the nanoseconds beyond them, less than a
/// second. None if the clock is set before it. What the clock says is left open.
#[verifier::external_body]
fn since_unix_epoch() -> (r: Option<(u64, u32)>)
    ensures
        r matches Some((_, nanos)) ==> nanos < 1_000_000_000,
{
    match std::time::UNIX_EPOCH.elapsed() {
        Ok(duration) => Some((duration.as_secs(), duration.subsec_nanos())),
        Err(_) => None,
    }
}

/// The whole milliseconds in what the clock said: those of the seconds and those
/// of the nanoseconds beyond them, none for a clock set before the epoch. They
/// are counted in 64 bits.
pub open spec fn reading_ms(since: Option<(u64, u32)>) -> int {
    match since {
        Some((seconds, nanos)) => (seconds * 1_000 + nanos as int / 1_000_000) % 0x1_0000_0000_0000_0000,
        None => 0,
    }
}

/// What a reading of the clock, in seconds and nanoseconds since the Unix epoch,
/// is in milliseconds.
pub fn unix_ms(since: Option<(u64, u32)>) -> (r: u64)
    ensures
        r == reading_ms(since),
{
    match since {
        Some((seconds, nanos)) => {
            let whole: u128 = seconds as u128 * 1_000 + (nanos / 1_000_000) as u128;
            assert(whole as u64 == whole % 0x1_0000_0000_0000_0000) by (bit_vector);
            #[verifier::truncate]
            (whole as u64)
        },
        None => 0,
    }
}

/// Milliseconds since the Unix epoch by the machine's clock: [`unix_ms`] of what
/// the clock says now. Of a clock that may say anything nothing more can be said.
pub fn now_ms() -> (r: u64) {
    unix_ms(since_unix_epoch())
}

/// An envelope with the default deadline, counted from `now`.
pub fn envelope_at(cluster_id: ClusterId, body: RpcRequest, now: u64) -> (r: Envelope)
    ensures
        r.cluster_id == cluster_id,
        r.body == body,
        r.coordinator_epoch is None,
        r.deadline_unix_ms == if now + DEFAULT_RPC_TIMEOUT_MS > u64::MAX {
            u64::MAX as int
        } else {
            now + DEFAULT_RPC_TIMEOUT_MS
        },
        forall|later: u64| later < r.deadline_unix_ms ==> (#[trigger] r.validated(cluster_id, later)) is Ok,
{
    Envelope::new(cluster_id, body, now.saturating_add(DEFAULT_RPC_TIMEOUT_MS))
}

/// An envelope with the default deadline.
pub fn envelope(cluster_id: ClusterId, body: RpcRequest) -> (r: Envelope)
    ensures
        r.cluster_id == cluster_id,
        r.body == body,
        r.coordinator_epoch is None,
        r.deadline_unix_ms >= DEFAULT_RPC_TIMEOUT_MS,
        forall|later: u64| later < r.deadline_unix_ms ==> (#[trigger] r.validated(cluster_id, later)) is Ok,
{
    envelope_at(cluster_id, body, now_ms())
}

/// The reply that carries an error to whoever sent the request.
pub fn request_error(request: &RpcRequest, error: Error) -> (r: RpcReply)
    ensures
        r == error_reply(*request, error),
{
    match request {
        RpcRequest::Client(_) => RpcReply::Client(ClientReply::Error(error)),
        RpcRequest::Worker(_) => RpcReply::Worker(WorkerReply::Error(error)),
    }
}

pub open spec fn error_reply(request: RpcRequest, error: Error) -> RpcReply {
    match request {
        RpcRequest::Client(_) => RpcReply::Client(ClientReply::Error(error)),
        RpcRequest::Worker(_) => RpcReply::Worker(WorkerReply::Error(error)),
    }
}

/// Requests that may change state and so must name the coordinator's epoch.
pub open spec fn mutates(request: RpcRequest) -> bool {
    match request {
        RpcRequest::Client(client) => {
            ||| client is Put
            ||| client is ArenaReserve
            ||| client is ArenaCommit
            ||| client is PutChunk
            ||| client is Submit
            ||| client is SubmitBatch
            ||| client is Cancel
            ||| client is Release
        },
        RpcRequest::Worker(worker) => !(worker is Register) && !(worker is Poll),
    }
}

pub fn is_mutation(request: &RpcRequest) -> (r: bool)
    ensures
        r == mutates(*request),
{
    match request {
        RpcRequest::Client(client) => matches!(
            client,
            ClientRequest::Put { .. }
                | ClientRequest::ArenaReserve { .. }
                | ClientRequest::ArenaCommit { .. }
                | ClientRequest::PutChunk { .. }
                | ClientRequest::Submit { .. }
                | ClientRequest::SubmitBatch(_)
                | ClientRequest::Cancel(_)
                | ClientRequest::Release(_)
        ),
        RpcRequest::Worker(worker) => !matches!(worker, WorkerRequest::Register(_) | WorkerRequest::Poll { .. }),
    }
}

/// Requests whose replies are remembered. Worker reports are idempotent in the
/// state itself.
pub open spec fn remembered(request: RpcRequest) -> bool {
    request matches RpcRequest::Client(client) && (client is Submit || client is SubmitBatch || client is Cancel
        || client is Release)
}

pub fn should_cache(request: &RpcRequest) -> (r: bool)
    ensures
        r == remembered(*request),
{
    matches!(
        request,
        RpcRequest::Client(
            ClientRequest::Submit { .. }
                | ClientRequest::SubmitBatch(_)
                | ClientRequest::Cancel(_)
                | ClientRequest::Release(_),
        )
    )
}

/// What is remembered is a mutation.
pub proof fn law_remembered_requests_mutate(request: RpcRequest)
    ensures
        remembered(request) ==> mutates(request),
{
}

/// A poll is over once it returns anything but "no work yet".
pub fn worker_poll_ready(reply: &RpcReply) -> (r: bool)
    ensures
        r == !(reply matches RpcReply::Worker(WorkerReply::Assignment(None))),
{
    !matches!(reply, RpcReply::Worker(WorkerReply::Assignment(None)))
}

/// A blocking get is over once the object is no longer pending.
pub fn client_get_ready(reply: &RpcReply) -> (r: bool)
    ensures
        r == !(reply matches RpcReply::Client(ClientReply::Error(Error::ObjectPending(_)))),
{
    !matches!(reply, RpcReply::Client(ClientReply::Error(Error::ObjectPending(_))))
}

pub open spec fn is_pending(result: Result<ObjectPayload, Error>) -> bool {
    result matches Err(Error::ObjectPending(_))
}

/// How many slots of a batch have resolved.
pub open spec fn ready_count(results: Seq<Result<ObjectPayload, Error>>) -> int
    decreases results.len(),
{
    if results.len() == 0 {
        0
    } else {
        ready_count(results.drop_last()) + if is_pending(results.last()) {
            0int
        } else {
            1
        }
    }
}

/// A blocking batch is over once `min_ready` of its slots have resolved.
pub fn client_get_batch_ready(reply: &RpcReply, min_ready: u32) -> (r: bool)
    ensures
        r == match *reply {
            RpcReply::Client(ClientReply::ObjectBatch(results)) => ready_count(results@) >= min_ready,
            _ => true,
        },
{
    match reply {
        RpcReply::Client(ClientReply::ObjectBatch(results)) => {
            let mut ready: usize = 0;
            let mut i: usize = 0;
            while i < results.len()
                invariant
                    i <= results@.len(),
                    ready <= i,
                    ready == ready_count(results@.take(i as int)),
                decreases results@.len() - i,
            {
                assert(results@.take(i + 1).drop_last() =~= results@.take(i as int));
                if !matches!(&results[i], Err(Error::ObjectPending(_))) {
                    ready = ready + 1;
                }
                i += 1;
            }
            assert(results@.take(i as int) =~= results@);
            ready >= min_ready as usize
        },
        _ => true,
    }
}

/// The state behind the server.
#[verifier::ext_equal]
pub struct ServerModel {
    pub lease_ms: u64,
    pub require_loopback: bool,
    pub token: Seq<char>,
    pub state: Model,
    pub arena: ArenaModel,
}

/// Answers requests for one cluster.
#[derive(Debug)]
pub struct CoordinatorServer {
    pub cluster_id: ClusterId,
    pub state: CoordinatorState,
    pub lease_ms: u64,
    pub require_loopback: bool,
    pub arena: ArenaStore,
    pub replay: ReplayCache,
}

impl View for CoordinatorServer {
    type V = ServerModel;

    open spec fn view(&self) -> ServerModel {
        ServerModel {
            lease_ms: self.lease_ms,
            require_loopback: self.require_loopback,
            token: self.arena.spec_token(),
            state: self.state@,
            arena: self.arena@,
        }
    }
}

/// Only the control-plane state may differ.
pub open spec fn only_state(before: ServerModel, after: ServerModel) -> bool {
    after == (ServerModel { state: after.state, ..before })
}

/// The state moved as the verdict says.
pub open spec fn moved(verdict: Verdict, before: Model, after: Model) -> bool {
    match verdict {
        Verdict::Refused(_) => after == before,
        Verdict::Next(next) => after == next,
        Verdict::Settling(mid) => mid.settles_to(after),
    }
}

/// A worker's report is answered by the verdict on it.
pub open spec fn report_met(verdict: Verdict, before: ServerModel, after: ServerModel, reply: RpcReply) -> bool {
    &&& only_state(before, after)
    &&& moved(verdict, before.state, after.state)
    &&& match verdict {
        Verdict::Refused(error) => reply matches RpcReply::Worker(WorkerReply::Error(e)) && e@ == error,
        _ => reply matches RpcReply::Worker(WorkerReply::Accepted),
    }
}

/// The answer to a registration; without remote access, the worker must be on
/// this machine.
pub open spec fn register_met(
    before: ServerModel,
    after: ServerModel,
    request: RegisterModel,
    now: u64,
    reply: RpcReply,
) -> bool {
    &&& only_state(before, after)
    &&& if before.require_loopback && loopback_checked(request.advertise_addr) is Err {
        &&& after == before
        &&& reply matches RpcReply::Worker(WorkerReply::Error(e))
        &&& Err::<(), ErrorModel>(e@) == loopback_checked(request.advertise_addr)
    } else {
        exists|session: WorkerSessionId| #[trigger]
            registered_reply(before, after, request, session, now, reply)
    }
}

pub open spec fn registered_reply(
    before: ServerModel,
    after: ServerModel,
    request: RegisterModel,
    session: WorkerSessionId,
    now: u64,
    reply: RpcReply,
) -> bool {
    match before.state.registered(request, session, now, before.lease_ms) {
        Ok((next, identity)) => {
            &&& after.state == next
            &&& reply matches RpcReply::Worker(WorkerReply::Registered(registered))
            &&& registered.identity == identity
            &&& registered.revision.0 == next.revision
            &&& registered.lease_timeout_ms == before.lease_ms
        },
        Err(error) => {
            &&& after.state == before.state
            &&& reply matches RpcReply::Worker(WorkerReply::Error(e)) && e@ == error
        },
    }
}

/// The deletions that a worker has not been told of.
pub open spec fn deletes_for(s: Model, node: NodeId) -> Seq<ObjectId> {
    if s.pending_deletes.contains_key(node) {
        s.pending_deletes[node]
    } else {
        Seq::empty()
    }
}

/// The answer to a poll: a deletion, a cancellation, an assignment that was made
/// before, or a new one, in this order.
pub open spec fn poll_met(
    before: ServerModel,
    after: ServerModel,
    identity: WorkerIdentity,
    now: u64,
    reply: RpcReply,
) -> bool {
    let node = identity.node_id;
    let deletes = deletes_for(before.state, node);
    let cleared = Model { pending_deletes: before.state.pending_deletes.remove(node), ..before.state };
    &&& only_state(before, after)
    &&& if deletes.len() > 0 {
        &&& reply == RpcReply::Worker(WorkerReply::DeleteObject(deletes[0]))
        &&& after.state == (Model {
            pending_deletes: if deletes.len() > 1 {
                before.state.pending_deletes.insert(node, deletes.skip(1))
            } else {
                before.state.pending_deletes.remove(node)
            },
            ..before.state
        })
    } else if !cleared.identity_ok(identity) {
        &&& after.state == cleared
        &&& reply matches RpcReply::Worker(WorkerReply::Error(e)) && e@ == ErrorModel::StaleFence
    } else if exists|fence: TaskFence| #[trigger] cleared.cancel_due(identity, fence) {
        &&& after.state == cleared
        &&& reply matches RpcReply::Worker(WorkerReply::Cancel(fence)) && cleared.cancel_due(identity, fence)
    } else if exists|id: TaskId, lease: LeaseId| #[trigger] cleared.unstarted(identity, id, lease) {
        &&& after.state == cleared
        &&& reply matches RpcReply::Worker(WorkerReply::Assignment(Some(assignment))) && exists|
            id: TaskId,
            lease: LeaseId,
        | #[trigger] cleared.unstarted(identity, id, lease) && assignment_of(assignment, cleared.tasks[id], lease)
    } else {
        exists|lease: LeaseId| #[trigger] assigned_reply(cleared, after.state, node, now, lease, reply)
    }
}

pub open spec fn assigned_reply(
    before: Model,
    after: Model,
    node: NodeId,
    now: u64,
    lease: LeaseId,
    reply: RpcReply,
) -> bool {
    let (next, got) = before.assigned_next(node, now, lease);
    &&& after == next
    &&& match got {
        Some(id) => reply matches RpcReply::Worker(WorkerReply::Assignment(Some(assignment))) && assignment_of(
            assignment,
            next.tasks[id],
            lease,
        ),
        None => reply matches RpcReply::Worker(WorkerReply::Assignment(None)),
    }
}

/// The reply to a client is this error.
pub open spec fn client_error(reply: RpcReply, error: ErrorModel) -> bool {
    reply matches RpcReply::Client(ClientReply::Error(e)) && e@ == error
}

/// The answer to a put. The object also goes into the arena, if there is room.
pub open spec fn client_put_met(
    before: ServerModel,
    after: ServerModel,
    memory: Seq<u8>,
    memory_after: Seq<u8>,
    codec: crate::operation::Codec,
    bytes: Seq<u8>,
    now: u64,
    reply: RpcReply,
) -> bool {
    if bytes.len() > MAX_OBJECT_BYTES {
        &&& after == before
        &&& memory_after == memory
        &&& client_error(reply, ErrorModel::Protocol("object too large"@))
    } else {
        exists|digest: [u8; 32], reservation: RequestId, place: Option<u64>| #[trigger]
            stored_reply(before, after, memory, memory_after, codec, bytes, now, digest, reservation, place, reply)
    }
}

pub open spec fn stored_reply(
    before: ServerModel,
    after: ServerModel,
    memory: Seq<u8>,
    memory_after: Seq<u8>,
    codec: crate::operation::Codec,
    bytes: Seq<u8>,
    now: u64,
    digest: [u8; 32],
    reservation: RequestId,
    place: Option<u64>,
    reply: RpcReply,
) -> bool {
    &&& digest@ == blake3_digest(bytes)
    &&& after == (ServerModel { state: after.state, arena: after.arena, ..before })
    &&& match before.state.admitted(ObjectId(digest), codec, bytes.len() as u64, digest, Some(bytes)) {
        Verdict::Next(next) => {
            &&& after.state == next
            &&& arena_put_met(
                before.arena,
                after.arena,
                memory,
                memory_after,
                ObjectId(digest),
                bytes,
                codec,
                digest,
                reservation,
                now,
                place,
            )
            &&& reply matches RpcReply::Client(ClientReply::Object(payload))
            &&& payload.id == ObjectId(digest)
            &&& payload.codec == codec
            &&& payload.size_bytes == bytes.len()
            &&& payload.checksum == digest
            &&& payload.location@ == "coordinator"@
            &&& payload.bytes is None
            &&& payload.arena is None
        },
        Verdict::Refused(error) => {
            &&& after == before
            &&& memory_after == memory
            &&& client_error(reply, error)
        },
        Verdict::Settling(_) => false,
    }
}

/// One submission under the ids `id` and `output`, and its result.
pub open spec fn submit_step(
    before: Model,
    after: Model,
    spec: SubmitSpec,
    id: TaskId,
    output: ObjectId,
    result: Result<SubmittedTask, Error>,
) -> bool {
    match before.submitted(
        spec.operation@,
        args_model(spec.args@),
        spec.resources@,
        spec.max_attempts,
        id,
        output,
    ) {
        Verdict::Refused(error) => (result matches Err(e) && e@ == error) && after == before,
        Verdict::Next(next) => (result matches Ok(task) && task.task_id == id && task.output_id == output) && after
            == next,
        Verdict::Settling(_) => false,
    }
}

/// One submission, under some ids.
pub open spec fn submits(before: Model, after: Model, spec: SubmitSpec, result: Result<SubmittedTask, Error>) -> bool {
    exists|id: TaskId, output: ObjectId| #[trigger] submit_step(before, after, spec, id, output, result)
}

/// A batch of submissions, one after the other, through the states `states`.
pub open spec fn batch_run(
    states: Seq<Model>,
    specs: Seq<SubmitSpec>,
    results: Seq<Result<SubmittedTask, Error>>,
) -> bool {
    &&& states.len() == specs.len() + 1
    &&& results.len() == specs.len()
    &&& forall|i: int|
        0 <= i < specs.len() ==> submits(#[trigger] states[i], states[i + 1], specs[i], results[i])
}

/// The answer to a batch: one result per spec, in order.
pub open spec fn submit_batch_met(
    before: ServerModel,
    after: ServerModel,
    specs: Seq<SubmitSpec>,
    reply: RpcReply,
) -> bool {
    &&& only_state(before, after)
    &&& match reply {
        RpcReply::Client(ClientReply::SubmittedBatch(results)) => exists|states: Seq<Model>| #[trigger]
            batch_run(states, specs, results@) && states[0] == before.state && states.last() == after.state,
        _ => false,
    }
}

/// The answer to a single submission.
pub open spec fn client_submit_met(before: ServerModel, after: ServerModel, spec: SubmitSpec, reply: RpcReply) -> bool {
    &&& only_state(before, after)
    &&& match reply {
        RpcReply::Client(ClientReply::Submitted { task_id, output_id }) => submits(
            before.state,
            after.state,
            spec,
            Ok(SubmittedTask { task_id, output_id }),
        ),
        RpcReply::Client(ClientReply::Error(error)) => submits(before.state, after.state, spec, Err(error)),
        _ => false,
    }
}

/// The payload is that of the available object `id`.
pub open spec fn payload_of(payload: ObjectPayload, s: Model, id: ObjectId) -> bool {
    let object = s.objects[id];
    &&& payload.id == id
    &&& object.codec == Some(payload.codec)
    &&& object.size_bytes == Some(payload.size_bytes)
    &&& object.checksum == Some(payload.checksum)
    &&& object.location == Some(payload.location@)
}

/// The payload names the object's place in the arena if it has one, and
/// otherwise carries what bytes there are.
pub open spec fn placed(payload: ObjectPayload, s: ServerModel, id: ObjectId) -> bool {
    if s.arena.is_committed(id) {
        &&& payload.bytes is None
        &&& payload.arena matches Some(place) && place.token@ == s.token && place.offset == s.arena.live[id].offset
    } else {
        &&& shared_view(payload.bytes) == s.state.objects[id].bytes
        &&& payload.arena is None
    }
}

pub open spec fn get_met(s: ServerModel, id: ObjectId, reply: RpcReply) -> bool {
    match s.state.unresolved(id) {
        Some(error) => client_error(reply, error),
        None => reply matches RpcReply::Client(ClientReply::Object(payload)) && payload_of(payload, s.state, id)
            && placed(payload, s, id),
    }
}

/// The answer to a request for the bytes themselves.
pub open spec fn get_local_met(s: ServerModel, memory: Seq<u8>, id: ObjectId, reply: RpcReply) -> bool {
    match s.state.unresolved(id) {
        Some(error) => client_error(reply, error),
        None => if s.arena.is_committed(id) && s.state.objects[id].bytes is None {
            if s.arena.live[id].size <= MAX_OBJECT_BYTES {
                reply matches RpcReply::Client(ClientReply::Object(payload)) && payload_of(payload, s.state, id)
                    && shared_view(payload.bytes) == Some(s.arena.content(memory, id)) && payload.arena is None
            } else {
                client_error(reply, ErrorModel::Protocol("object too large for cross-host fetch"@))
            }
        } else {
            reply matches RpcReply::Client(ClientReply::Object(payload)) && payload_of(payload, s.state, id)
                && shared_view(payload.bytes) == s.state.objects[id].bytes && payload.arena is None
        },
    }
}

pub open spec fn status_met(s: Model, id: TaskId, reply: RpcReply) -> bool {
    if s.tasks.contains_key(id) {
        let task = s.tasks[id];
        &&& reply matches RpcReply::Client(ClientReply::Status(view))
        &&& view.task_id == id
        &&& view.output_id == task.output
        &&& status_phase(view.state) == task.state
        &&& view.attempt == task.attempt
        &&& view.worker == match task.assigned {
            Some(holder) => Some(holder.0),
            None => None,
        }
    } else {
        client_error(reply, ErrorModel::TaskNotFound(id))
    }
}

/// The answer to a reservation; what is stored already is answered as a get.
pub open spec fn client_reserve_met(
    before: ServerModel,
    after: ServerModel,
    id: ObjectId,
    codec: crate::operation::Codec,
    size_bytes: u64,
    checksum: [u8; 32],
    mode: ArenaWriteMode,
    now: u64,
    reply: RpcReply,
) -> bool {
    if before.state.unresolved(id) is None {
        after == before && get_met(before, id, reply)
    } else {
        &&& after == (ServerModel { arena: after.arena, ..before })
        &&& exists|reservation: RequestId, r: Result<Reservation, Error>| #[trigger]
            reserve_met(
                before.arena,
                after.arena,
                id,
                size_bytes,
                codec,
                checksum,
                mode,
                reservation,
                now,
                r,
            ) && match r {
                Ok(granted) => reply == RpcReply::Client(
                    ClientReply::ArenaReserved {
                        id,
                        offset: granted.offset,
                        reservation: granted.reservation,
                    },
                ),
                Err(error) => reply == RpcReply::Client(ClientReply::Error(error)),
            }
    }
}

/// The answer to a commit. An object that cannot be registered is taken out of
/// the arena again.
pub open spec fn client_commit_met(
    before: ServerModel,
    after: ServerModel,
    id: ObjectId,
    reservation: RequestId,
    reply: RpcReply,
) -> bool {
    match before.arena.commit_fault(id, reservation) {
        Some(error) => after == before && client_error(reply, error),
        None => {
            let entry = before.arena.live[id];
            let arena = before.arena.committed(id);
            match before.state.admitted(id, entry.codec, entry.size, entry.checksum, None) {
                Verdict::Refused(error) => {
                    &&& after == (ServerModel { arena: arena.freed(id), ..before })
                    &&& client_error(reply, error)
                },
                Verdict::Next(next) => {
                    &&& after == (ServerModel { state: next, arena, ..before })
                    &&& get_met(after, id, reply)
                },
                Verdict::Settling(_) => false,
            }
        },
    }
}

pub open spec fn put_chunk_met(
    before: ServerModel,
    after: ServerModel,
    memory: Seq<u8>,
    memory_after: Seq<u8>,
    id: ObjectId,
    reservation: RequestId,
    offset: u64,
    bytes: Seq<u8>,
    now: u64,
    reply: RpcReply,
) -> bool {
    match before.arena.chunk_fault(memory, id, reservation, offset, bytes) {
        Some(error) => after == before && memory_after == memory && client_error(reply, error),
        None => {
            &&& after == (ServerModel {
                arena: before.arena.chunk_taken(id, offset, bytes.len(), now),
                ..before
            })
            &&& memory_after == if offset == before.arena.live[id].written_until {
                written(memory, before.arena.live[id].offset + offset, bytes)
            } else {
                memory
            }
            &&& reply == RpcReply::Client(ClientReply::ChunkWritten)
        },
    }
}

pub open spec fn get_chunk_met(
    s: ServerModel,
    memory: Seq<u8>,
    id: ObjectId,
    offset: u64,
    len: u64,
    reply: RpcReply,
) -> bool {
    if len > MAX_OBJECT_BYTES {
        client_error(reply, ErrorModel::Protocol("get chunk too large"@))
    } else if s.arena.is_committed(id) && offset + len <= s.arena.live[id].size {
        reply matches RpcReply::Client(ClientReply::Chunk(bytes)) && bytes@ == s.arena.content(memory, id).subrange(
            offset as int,
            offset + len,
        )
    } else {
        client_error(reply, ErrorModel::Protocol("get chunk out of bounds or object not committed"@))
    }
}

/// What clients see of a worker.
pub open spec fn worker_view_of(view: WorkerView, s: Model, node: NodeId) -> bool {
    let worker = s.workers[node];
    &&& view.identity == worker.identity
    &&& view.advertise_addr@ == worker.advertise_addr
    &&& view.alive == (worker.state == WorkerState::Alive)
    &&& view.slots == worker.slots
    &&& view.free_slots == worker.free_slots
    &&& view.resources@ == worker.total
    &&& view.available@ == worker.available
    &&& by_key(descriptors_model(view.operations@)) == worker.operations
}

/// One view per worker.
pub open spec fn workers_met(s: Model, reply: RpcReply) -> bool {
    match reply {
        RpcReply::Client(ClientReply::Workers(views)) => exists|nodes: Seq<NodeId>| #[trigger]
            lists_workers(s, nodes, views@),
        _ => false,
    }
}

pub open spec fn lists_workers(s: Model, nodes: Seq<NodeId>, views: Seq<WorkerView>) -> bool {
    &&& nodes.no_duplicates()
    &&& nodes.to_set() == s.workers.dom()
    &&& views.len() == nodes.len()
    &&& forall|i: int| 0 <= i < nodes.len() ==> worker_view_of(#[trigger] views[i], s, nodes[i])
}

pub open spec fn client_cancel_met(before: ServerModel, after: ServerModel, id: TaskId, reply: RpcReply) -> bool {
    &&& only_state(before, after)
    &&& moved(before.state.cancelled(id), before.state, after.state)
    &&& match before.state.cancelled(id) {
        Verdict::Refused(error) => client_error(reply, error),
        _ => reply == RpcReply::Client(ClientReply::Cancelled),
    }
}

/// The answer to a release; the object's slot in the arena is freed as well.
pub open spec fn client_release_met(before: ServerModel, after: ServerModel, id: ObjectId, reply: RpcReply) -> bool {
    match before.state.object_released(id) {
        Verdict::Refused(error) => after == before && client_error(reply, error),
        Verdict::Next(next) => {
            &&& after == (ServerModel {
                state: next,
                arena: if before.arena.live.contains_key(id) {
                    before.arena.freed(id)
                } else {
                    before.arena
                },
                ..before
            })
            &&& reply == RpcReply::Client(ClientReply::Released)
        },
        Verdict::Settling(_) => false,
    }
}

impl CoordinatorServer {
    pub open spec fn wf(&self) -> bool {
        &&& self.state.wf()
        &&& self.arena.wf()
        &&& self.replay.wf()
    }

    /// The state's counters leave room for one more operation.
    pub open spec fn has_headroom(&self) -> bool {
        self.state.has_headroom()
    }

    /// The remembered replies.
    pub open spec fn entries(&self) -> Entries {
        self.replay@
    }

    /// A server with nothing in it. `token` names the arena, `capacity` is its size.
    pub fn new(cluster_id: ClusterId, lease_ms: u64, token: String, capacity: u64) -> (r: Self)
        ensures
            r.wf(),
            r.has_headroom(),
            r.cluster_id == cluster_id,
            r.entries() == Map::<RequestId, ReplayEntry>::empty(),
            r@.lease_ms == lease_ms,
            r@.require_loopback,
            r@.token == token@,
            r@.arena == (ArenaModel {
                capacity: capacity as int,
                top: 0,
                free: Map::empty(),
                live: Map::empty(),
            }),
            r@.state == Model::empty(r@.state.epoch),
    {
        CoordinatorServer {
            cluster_id,
            state: CoordinatorState::new(CoordinatorEpoch::new()),
            lease_ms,
            require_loopback: true,
            arena: ArenaStore::new(token, capacity),
            replay: ReplayCache::new(),
        }
    }

    /// Lets workers on other machines register.
    pub fn allow_remote_bind(self) -> (r: Self)
        requires
            self.wf(),
        ensures
            r.wf(),
            r@ == (ServerModel { require_loopback: false, ..self@ }),
            r.entries() == self.entries(),
            r.cluster_id == self.cluster_id,
            r.state == self.state,
    {
        let mut server = self;
        server.require_loopback = false;
        server
    }

    pub fn requires_loopback(&self) -> (r: bool)
        ensures
            r == self@.require_loopback,
    {
        self.require_loopback
    }

    /// How much of the arena has ever been handed out.
    pub fn arena_used_bytes(&self) -> (r: u64)
        ensures
            r == self@.arena.top,
    {
        self.arena.used_bytes()
    }

    /// Whether the envelope names this coordinator's epoch.
    pub fn validate_epoch(&self, envelope: &Envelope) -> (r: Result<(), Error>)
        ensures
            outcome(r) == epoch_checked(self@.state.epoch, envelope.coordinator_epoch),
    {
        match envelope.coordinator_epoch {
            Some(epoch) => if epoch == self.state.epoch {
                Ok(())
            } else {
                Err(Error::StaleEpoch)
            },
            None => Err(Error::Protocol("mutation requires coordinator epoch".to_string())),
        }
    }

    /// Names the object's place in the arena instead of carrying its bytes.
    fn arena_annotate(&self, payload: &mut ObjectPayload)
        requires
            self.wf(),
            shared_view(old(payload).bytes) == self@.state.objects[old(payload).id].bytes,
            old(payload).arena is None,
        ensures
            final(payload).id == old(payload).id,
            final(payload).codec == old(payload).codec,
            final(payload).size_bytes == old(payload).size_bytes,
            final(payload).checksum == old(payload).checksum,
            final(payload).location == old(payload).location,
            placed(*final(payload), self@, old(payload).id),
    {
        if let Some(meta) = self.arena.meta(payload.id) {
            payload.bytes = None;
            payload.arena = Some(ArenaRef { token: self.arena.token().to_string(), offset: meta.offset });
        }
    }

    fn answer_get(&self, id: ObjectId) -> (r: RpcReply)
        requires
            self.wf(),
        ensures
            get_met(self@, id, r),
    {
        match self.state.resolve_object(id) {
            Ok(found) => {
                let mut payload = found;
                self.arena_annotate(&mut payload);
                RpcReply::Client(ClientReply::Object(payload))
            },
            Err(error) => RpcReply::Client(ClientReply::Error(error)),
        }
    }

    fn answer_get_local(&self, memory: &[u8], id: ObjectId) -> (r: RpcReply)
        requires
            self.wf(),
            memory@.len() == self@.arena.capacity,
        ensures
            get_local_met(self@, memory@, id, r),
    {
        match self.state.resolve_object(id) {
            Ok(found) => {
                let mut payload = found;
                if payload.bytes.is_none() {
                    if let Some(meta) = self.arena.meta(id) {
                        if meta.size > MAX_OBJECT_BYTES as u64 {
                            return RpcReply::Client(
                                ClientReply::Error(
                                    Error::Protocol("object too large for cross-host fetch".to_string()),
                                ),
                            );
                        }
                        if let Some(bytes) = self.arena.read(memory, id) {
                            payload.bytes = Some(crate::coordinator::shared_bytes(bytes));
                        }
                    }
                }
                RpcReply::Client(ClientReply::Object(payload))
            },
            Err(error) => RpcReply::Client(ClientReply::Error(error)),
        }
    }

    fn answer_register(&mut self, request: RegisterWorker, now: u64) -> (r: RpcReply)
        requires
            old(self).wf(),
            old(self).has_headroom(),
        ensures
            final(self).wf(),
            final(self).entries() == old(self).entries(),
            final(self).cluster_id == old(self).cluster_id,
            register_met(old(self)@, final(self)@, register_view(request), now, r),
    {
        let ghost model = register_view(request);
        let ghost before = self@;
        if self.require_loopback {
            if let Err(error) = require_loopback_addr(request.advertise_addr.as_str()) {
                return RpcReply::Worker(WorkerReply::Error(error));
            }
        }
        let r = self.state.register_worker(request, now, self.lease_ms);
        proof {
            let session = choose|session: WorkerSessionId| #[trigger]
                registration_met(before.state, self.state@, model, session, now, before.lease_ms, r);
            assert(registration_met(before.state, self.state@, model, session, now, before.lease_ms, r));
        }
        match r {
            Ok(identity) => {
                let reply = RpcReply::Worker(
                    WorkerReply::Registered(
                        RegisteredWorker {
                            identity,
                            revision: self.state.revision,
                            lease_timeout_ms: self.lease_ms,
                        },
                    ),
                );
                proof {
                    let session = choose|session: WorkerSessionId| #[trigger]
                        registration_met(before.state, self.state@, model, session, now, before.lease_ms, r);
                    assert(registered_reply(before, self@, model, session, now, reply));
                }
                reply
            },
            Err(error) => {
                let reply = RpcReply::Worker(WorkerReply::Error(error));
                proof {
                    let session = choose|session: WorkerSessionId| #[trigger]
                        registration_met(before.state, self.state@, model, session, now, before.lease_ms, r);
                    assert(registered_reply(before, self@, model, session, now, reply));
                }
                reply
            },
        }
    }

    fn answer_poll(&mut self, identity: WorkerIdentity, now: u64) -> (r: RpcReply)
        requires
            old(self).wf(),
            old(self).has_headroom(),
        ensures
            final(self).wf(),
            final(self).entries() == old(self).entries(),
            final(self).cluster_id == old(self).cluster_id,
            poll_met(old(self)@, final(self)@, identity, now, r),
    {
        let ghost before = self@;
        let node = identity.node_id;
        let mut deletes = self.state.take_pending_deletes(node);
        let ghost cleared = self.state@;
        if deletes.len() > 0 {
            let first = deletes.remove(0);
            assert(deletes@ =~= deletes_for(before.state, node).skip(1));
            if deletes.len() > 0 {
                self.state.put_pending_deletes(node, deletes);
            }
            assert(self@.state =~= Model {
                pending_deletes: if deletes_for(before.state, node).len() > 1 {
                    before.state.pending_deletes.insert(node, deletes_for(before.state, node).skip(1))
                } else {
                    before.state.pending_deletes.remove(node)
                },
                ..before.state
            });
            return RpcReply::Worker(WorkerReply::DeleteObject(first));
        }
        match self.state.cancellation_for(&identity) {
            Err(error) => RpcReply::Worker(WorkerReply::Error(error)),
            Ok(Some(fence)) => RpcReply::Worker(WorkerReply::Cancel(fence)),
            Ok(None) => match self.state.assigned_unstarted(&identity) {
                Err(error) => RpcReply::Worker(WorkerReply::Error(error)),
                Ok(Some(assignment)) => RpcReply::Worker(WorkerReply::Assignment(Some(assignment))),
                Ok(None) => {
                    let r = self.state.assign_next(node, now);
                    let ghost lease = choose|lease: LeaseId| #[trigger]
                        assignment_met(cleared, self.state@, node, now, lease, r);
                    match r {
                        Ok(value) => {
                            let reply = RpcReply::Worker(WorkerReply::Assignment(value));
                            assert(assigned_reply(cleared, self.state@, node, now, lease, reply));
                            reply
                        },
                        Err(error) => RpcReply::Worker(WorkerReply::Error(error)),
                    }
                },
            },
        }
    }

    fn answer_put(
        &mut self,
        memory: &mut [u8],
        codec: crate::operation::Codec,
        bytes: Vec<u8>,
        now: u64,
    ) -> (r: RpcReply)
        requires
            old(self).wf(),
            old(self).has_headroom(),
            old(memory)@.len() == old(self)@.arena.capacity,
        ensures
            final(self).wf(),
            final(self).entries() == old(self).entries(),
            final(self).cluster_id == old(self).cluster_id,
            final(memory)@.len() == old(memory)@.len(),
            final(self)@.arena.capacity == old(self)@.arena.capacity,
            client_put_met(old(self)@, final(self)@, old(memory)@, final(memory)@, codec, bytes@, now, r),
    {
        let ghost before = self@;
        let ghost content = bytes@;
        if bytes.len() > MAX_OBJECT_BYTES {
            return RpcReply::Client(ClientReply::Error(Error::Protocol("object too large".to_string())));
        }
        let r = self.state.put(codec, bytes);
        let ghost digest = choose|digest: [u8; 32]| #[trigger]
            put_met(before.state, self.state@, codec, content, digest, r) && digest@ == blake3_digest(content);
        match r {
            Ok(stored) => {
                let place = self.arena.put(memory, stored.id, &stored.stored, codec, stored.checksum, now);
                let ghost reservation = choose|reservation: RequestId| #[trigger]
                    arena_put_met(
                        before.arena,
                        self.arena@,
                        old(memory)@,
                        memory@,
                        stored.id,
                        content,
                        codec,
                        stored.checksum,
                        reservation,
                        now,
                        place,
                    );
                let reply = RpcReply::Client(
                    ClientReply::Object(
                        ObjectPayload {
                            id: stored.id,
                            codec,
                            size_bytes: stored.stored.len() as u64,
                            checksum: stored.checksum,
                            location: "coordinator".to_string(),
                            bytes: None,
                            arena: None,
                        },
                    ),
                );
                assert(stored_reply(
                    before,
                    self@,
                    old(memory)@,
                    memory@,
                    codec,
                    content,
                    now,
                    digest,
                    reservation,
                    place,
                    reply,
                ));
                reply
            },
            Err(error) => {
                let reply = RpcReply::Client(ClientReply::Error(error));
                let ghost unused: RequestId = arbitrary();
                assert(stored_reply(
                    before,
                    self@,
                    old(memory)@,
                    memory@,
                    codec,
                    content,
                    now,
                    digest,
                    unused,
                    None,
                    reply,
                ));
                reply
            },
        }
    }

    fn submit_one(&mut self, spec: SubmitSpec) -> (r: Result<SubmittedTask, Error>)
        requires
            old(self).wf(),
            old(self).state.revision.0 < u64::MAX,
        ensures
            final(self).wf(),
            final(self).entries() == old(self).entries(),
            final(self).cluster_id == old(self).cluster_id,
            only_state(old(self)@, final(self)@),
            submits(old(self)@.state, final(self)@.state, spec, r),
    {
        let ghost before = self.state@;
        let r = self.state.submit(spec.operation, spec.args, spec.resources, spec.max_attempts);
        let ghost ids = choose|id: TaskId, output: ObjectId| #[trigger]
            submit_met(
                before,
                self.state@,
                spec.operation@,
                args_model(spec.args@),
                spec.resources@,
                spec.max_attempts,
                id,
                output,
                r,
            );
        let result = match r {
            Ok((task_id, output_id)) => Ok(SubmittedTask { task_id, output_id }),
            Err(error) => Err(error),
        };
        assert(submit_step(before, self.state@, spec, ids.0, ids.1, result));
        result
    }

    fn answer_submit(&mut self, spec: SubmitSpec) -> (r: RpcReply)
        requires
            old(self).wf(),
            old(self).has_headroom(),
        ensures
            final(self).wf(),
            final(self).entries() == old(self).entries(),
            final(self).cluster_id == old(self).cluster_id,
            client_submit_met(old(self)@, final(self)@, spec, r),
    {
        match self.submit_one(spec) {
            Ok(task) => RpcReply::Client(
                ClientReply::Submitted { task_id: task.task_id, output_id: task.output_id },
            ),
            Err(error) => RpcReply::Client(ClientReply::Error(error)),
        }
    }

    fn answer_submit_batch(&mut self, specs: Vec<SubmitSpec>) -> (r: RpcReply)
        requires
            old(self).wf(),
            old(self).has_headroom(),
        ensures
            final(self).wf(),
            final(self).entries() == old(self).entries(),
            final(self).cluster_id == old(self).cluster_id,
            submit_batch_met(old(self)@, final(self)@, specs@, r),
    {
        let ghost all = specs@;
        let ghost first = self.state@;
        let ghost mut states: Seq<Model> = seq![first];
        let mut results: Vec<Result<SubmittedTask, Error>> = Vec::new();
        for spec in iter: specs
            invariant
                iter.seq() == all,
                self.wf(),
                self.entries() == old(self).entries(),
                self.cluster_id == old(self).cluster_id,
                only_state(old(self)@, self@),
                old(self).has_headroom(),
                first == old(self).state@,
                states.len() == iter.index() + 1,
                results@.len() == iter.index(),
                states[0] == first,
                states.last() == self.state@,
                forall|i: int|
                    0 <= i < iter.index() ==> submits(#[trigger] states[i], states[i + 1], all[i], results@[i]),
                self.state@.revision - first.revision <= self.state@.tasks.dom().len() - first.tasks.dom().len(),
        {
            let ghost before = self.state@;
            let ghost seen = results@;
            let result = self.submit_one(spec);
            results.push(result);
            proof {
                let old_states = states;
                states = states.push(self.state@);
                assert forall|i: int| 0 <= i < iter.index() + 1 implies submits(
                    #[trigger] states[i],
                    states[i + 1],
                    all[i],
                    results@[i],
                ) by {
                    if i < iter.index() {
                        assert(submits(old_states[i], old_states[i + 1], all[i], seen[i]));
                    } else {
                        assert(states[i] == before);
                    }
                }
                lemma_submits_counts(before, self.state@, spec, result);
            }
        }
        let reply = RpcReply::Client(ClientReply::SubmittedBatch(results));
        assert(batch_run(states, all, reply->Client_0->SubmittedBatch_0@));
        reply
    }

    fn answer_status(&self, id: TaskId) -> (r: RpcReply)
        requires
            self.wf(),
        ensures
            status_met(self@.state, id, r),
    {
        match self.state.tasks.get(&id) {
            Some(task) => {
                assert(self.state@.task_ok(id));
                RpcReply::Client(
                    ClientReply::Status(
                        TaskView {
                            task_id: task.id,
                            output_id: task.output,
                            state: task.state.status(),
                            attempt: task.attempt,
                            worker: match task.assigned {
                                Some(holder) => Some(holder.0),
                                None => None,
                            },
                        },
                    ),
                )
            },
            None => RpcReply::Client(ClientReply::Error(Error::TaskNotFound(id))),
        }
    }

    fn answer_reserve(
        &mut self,
        id: ObjectId,
        codec: crate::operation::Codec,
        size_bytes: u64,
        checksum: [u8; 32],
        mode: ArenaWriteMode,
        now: u64,
    ) -> (r: RpcReply)
        requires
            old(self).wf(),
        ensures
            final(self).wf(),
            final(self).entries() == old(self).entries(),
            final(self).cluster_id == old(self).cluster_id,
            final(self).state == old(self).state,
            final(self)@.arena.capacity == old(self)@.arena.capacity,
            client_reserve_met(old(self)@, final(self)@, id, codec, size_bytes, checksum, mode, now, r),
    {
        if self.state.resolve_object(id).is_ok() {
            return self.answer_get(id);
        }
        let granted = self.arena.reserve(id, size_bytes, codec, checksum, mode, now);
        let ghost reservation = choose|reservation: RequestId| #[trigger]
            reserve_met(
                old(self)@.arena,
                self.arena@,
                id,
                size_bytes,
                codec,
                checksum,
                mode,
                reservation,
                now,
                granted,
            );
        assert(reserve_met(
            old(self)@.arena,
            self.arena@,
            id,
            size_bytes,
            codec,
            checksum,
            mode,
            reservation,
            now,
            granted,
        ));
        match granted {
            Ok(reserved) => RpcReply::Client(
                ClientReply::ArenaReserved {
                    id,
                    offset: reserved.offset,
                    reservation: reserved.reservation,
                },
            ),
            Err(error) => RpcReply::Client(ClientReply::Error(error)),
        }
    }

    fn answer_commit(&mut self, id: ObjectId, reservation: RequestId) -> (r: RpcReply)
        requires
            old(self).wf(),
            old(self).has_headroom(),
        ensures
            final(self).wf(),
            final(self).entries() == old(self).entries(),
            final(self).cluster_id == old(self).cluster_id,
            final(self)@.arena.capacity == old(self)@.arena.capacity,
            client_commit_met(old(self)@, final(self)@, id, reservation, r),
    {
        match self.arena.commit(id, reservation) {
            Err(error) => RpcReply::Client(ClientReply::Error(error)),
            Ok(meta) => match self.state.put_meta(id, meta.codec, meta.size, meta.checksum) {
                Err(error) => {
                    let rolled_back = self.arena.rollback(id, reservation);
                    assert(rolled_back is Ok);
                    RpcReply::Client(ClientReply::Error(error))
                },
                Ok(_) => self.answer_get(id),
            },
        }
    }

    fn answer_put_chunk(
        &mut self,
        memory: &mut [u8],
        id: ObjectId,
        reservation: RequestId,
        offset: u64,
        bytes: &[u8],
        now: u64,
    ) -> (r: RpcReply)
        requires
            old(self).wf(),
            old(memory)@.len() == old(self)@.arena.capacity,
        ensures
            final(self).wf(),
            final(self).entries() == old(self).entries(),
            final(self).cluster_id == old(self).cluster_id,
            final(self).state == old(self).state,
            final(memory)@.len() == old(memory)@.len(),
            final(self)@.arena.capacity == old(self)@.arena.capacity,
            put_chunk_met(
                old(self)@,
                final(self)@,
                old(memory)@,
                final(memory)@,
                id,
                reservation,
                offset,
                bytes@,
                now,
                r,
            ),
    {
        match self.arena.write_chunk(memory, id, reservation, offset, bytes, now) {
            Ok(()) => RpcReply::Client(ClientReply::ChunkWritten),
            Err(error) => RpcReply::Client(ClientReply::Error(error)),
        }
    }

    fn answer_get_chunk(&self, memory: &[u8], id: ObjectId, offset: u64, len: u64) -> (r: RpcReply)
        requires
            self.wf(),
            memory@.len() == self@.arena.capacity,
        ensures
            get_chunk_met(self@, memory@, id, offset, len, r),
    {
        if len > MAX_OBJECT_BYTES as u64 {
            return RpcReply::Client(ClientReply::Error(Error::Protocol("get chunk too large".to_string())));
        }
        match self.arena.read_chunk(memory, id, offset, len) {
            Some(bytes) => RpcReply::Client(ClientReply::Chunk(bytes)),
            None => RpcReply::Client(
                ClientReply::Error(
                    Error::Protocol("get chunk out of bounds or object not committed".to_string()),
                ),
            ),
        }
    }

    fn answer_workers(&self) -> (r: RpcReply)
        requires
            self.wf(),
        ensures
            workers_met(self@.state, r),
    {
        let mut views: Vec<WorkerView> = Vec::new();
        let ghost nodes = self.state.workers.keys();
        let mut i: usize = 0;
        while i < self.state.workers.len()
            invariant
                self.wf(),
                nodes == self.state.workers.keys(),
                i <= nodes.len(),
                views@.len() == i,
                forall|j: int| 0 <= j < i ==> worker_view_of(#[trigger] views@[j], self.state@, nodes[j]),
            decreases nodes.len() - i,
        {
            let (_, worker) = self.state.workers.entry_at(i);
            views.push(
                WorkerView {
                    identity: worker.identity,
                    advertise_addr: worker.advertise_addr.clone(),
                    alive: worker.state == WorkerState::Alive,
                    slots: worker.slots,
                    free_slots: worker.free_slots,
                    resources: worker.total.clone(),
                    available: worker.available.clone(),
                    operations: worker.operations.list(),
                },
            );
            i += 1;
        }
        proof {
            self.state.workers.lemma_keys();
        }
        let reply = RpcReply::Client(ClientReply::Workers(views));
        assert(lists_workers(self.state@, nodes, reply->Client_0->Workers_0@));
        reply
    }

    fn answer_cancel(&mut self, id: TaskId) -> (r: RpcReply)
        requires
            old(self).wf(),
            old(self).has_headroom(),
        ensures
            final(self).wf(),
            final(self).entries() == old(self).entries(),
            final(self).cluster_id == old(self).cluster_id,
            client_cancel_met(old(self)@, final(self)@, id, r),
    {
        match self.state.cancel(id) {
            Ok(()) => RpcReply::Client(ClientReply::Cancelled),
            Err(error) => RpcReply::Client(ClientReply::Error(error)),
        }
    }

    fn answer_release(&mut self, id: ObjectId) -> (r: RpcReply)
        requires
            old(self).wf(),
            old(self).has_headroom(),
        ensures
            final(self).wf(),
            final(self).entries() == old(self).entries(),
            final(self).cluster_id == old(self).cluster_id,
            final(self)@.arena.capacity == old(self)@.arena.capacity,
            client_release_met(old(self)@, final(self)@, id, r),
    {
        match self.state.release_object(id) {
            Ok(()) => {
                self.arena.release(id);
                RpcReply::Client(ClientReply::Released)
            },
            Err(error) => RpcReply::Client(ClientReply::Error(error)),
        }
    }

    fn answer_worker(&mut self, request: WorkerRequest, now: u64) -> (r: RpcReply)
        requires
            old(self).wf(),
            old(self).has_headroom(),
        ensures
            final(self).wf(),
            final(self).entries() == old(self).entries(),
            final(self).cluster_id == old(self).cluster_id,
            worker_met(old(self)@, final(self)@, request, now, r),
    {
        match request {
            WorkerRequest::Register(request) => self.answer_register(request, now),
            WorkerRequest::Heartbeat(identity) => worker_answer(
                self.state.heartbeat(&identity, now, self.lease_ms),
            ),
            WorkerRequest::Poll { identity, .. } => self.answer_poll(identity, now),
            WorkerRequest::Cancelled { identity, fence } => worker_answer(
                self.state.acknowledge_cancel(&identity, fence),
            ),
            WorkerRequest::Started { identity, fence } => worker_answer(self.state.started(&identity, fence)),
            WorkerRequest::Completed { identity, report } => worker_answer(self.state.complete(&identity, report)),
            WorkerRequest::Failed { identity, fence, message, class } => match self.state.fail(
                &identity,
                fence,
                message,
                class,
                now,
            ) {
                Ok(_) => RpcReply::Worker(WorkerReply::Accepted),
                Err(error) => RpcReply::Worker(WorkerReply::Error(error)),
            },
            WorkerRequest::Drain(identity) => worker_answer(self.state.drain(&identity)),
        }
    }

    fn answer_get_batch<F: Fn(&Result<ObjectPayload, Error>) -> u64>(
        &self,
        objects: Vec<ObjectId>,
        base: u64,
        size_of: &F,
    ) -> (r: RpcReply)
        requires
            self.wf(),
            forall|result: Result<ObjectPayload, Error>| #[trigger] size_of.requires((&result,)),
        ensures
            get_batch_met(self@.state, objects@, base, *size_of, r),
    {
        let ghost s = self@.state;
        let overflow: Result<ObjectPayload, Error> = Err(
            Error::CapacityExceeded("get batch response too large".to_string()),
        );
        let over: u64 = size_of(&overflow);
        let count: u64 = objects.len() as u64;
        proof {
            lemma_product(over, count);
        }
        let least: u128 = base as u128 + over as u128 * count as u128;
        if least > MAX_FRAME_BYTES as u128 {
            let reply = RpcReply::Client(
                ClientReply::Error(Error::CapacityExceeded("get batch response too large".to_string())),
            );
            assert(batch_answer(s, objects@, base, *size_of, overflow, over, reply));
            return reply;
        }
        let mut used: u64 = base;
        let mut results: Vec<Result<ObjectPayload, Error>> = Vec::new();
        let ghost mut sizes: Seq<u64> = Seq::empty();
        let mut i: usize = 0;
        while i < objects.len()
            invariant
                i <= objects@.len(),
                count == objects@.len(),
                self.wf(),
                s == self@.state,
                forall|result: Result<ObjectPayload, Error>| #[trigger] size_of.requires((&result,)),
                results@.len() == i,
                sizes.len() == i,
                used == frame_used(base, over, sizes, objects@.len(), i as int),
                used + over * (objects@.len() - i) <= MAX_FRAME_BYTES,
                forall|j: int|
                    0 <= j < i ==> batch_slot(
                        s,
                        #[trigger] objects@[j],
                        *size_of,
                        fits_frame(base, over, sizes, objects@.len(), j),
                        sizes[j],
                        results@[j],
                    ),
            decreases objects@.len() - i,
        {
            let found = self.state.resolve_object(objects[i]);
            let size: u64 = size_of(&found);
            let remaining: u64 = count - i as u64 - 1;
            let ghost before = sizes;
            let ghost before_results = results@;
            proof {
                lemma_product(over, remaining);
            }
            let total: u128 = used as u128 + size as u128 + over as u128 * remaining as u128;
            proof {
                assert(over * (objects@.len() - i) == over + over * (remaining as int)) by (nonlinear_arith)
                    requires
                        objects@.len() - i == remaining + 1,
                ;
                sizes = sizes.push(size);
                lemma_frame_prefix(base, over, before, size, objects@.len());
            }
            if total <= MAX_FRAME_BYTES as u128 {
                used = used + size;
                results.push(found);
            } else {
                used = used + over;
                results.push(Err(Error::CapacityExceeded("get batch response too large".to_string())));
                assert(sized_resolution(s, objects@[i as int], *size_of, found, size));
            }
            proof {
                assert(fits_frame(base, over, sizes, objects@.len(), i as int) == (total <= MAX_FRAME_BYTES));
                assert forall|j: int| 0 <= j < i + 1 implies batch_slot(
                    s,
                    #[trigger] objects@[j],
                    *size_of,
                    fits_frame(base, over, sizes, objects@.len(), j),
                    sizes[j],
                    results@[j],
                ) by {
                    if j < i {
                        assert(batch_slot(
                            s,
                            objects@[j],
                            *size_of,
                            fits_frame(base, over, before, objects@.len(), j),
                            before[j],
                            before_results[j],
                        ));
                    }
                }
            }
            i += 1;
        }
        let reply = RpcReply::Client(ClientReply::ObjectBatch(results));
        proof {
            assert(over * (objects@.len() - i) == 0) by (nonlinear_arith)
                requires
                    objects@.len() == i,
            ;
            assert(batch_sized(s, objects@, base, over, *size_of, sizes, reply->Client_0->ObjectBatch_0@));
            assert(batch_answer(s, objects@, base, *size_of, overflow, over, reply));
        }
        reply
    }

    /// Answers one request. `base` is the size on the wire of a batch reply with
    /// no slots, and `size_of` that of one slot.
    pub fn dispatch<F: Fn(&Result<ObjectPayload, Error>) -> u64>(
        &mut self,
        memory: &mut [u8],
        request: RpcRequest,
        now: u64,
        base: u64,
        size_of: &F,
    ) -> (r: RpcReply)
        requires
            old(self).wf(),
            old(self).has_headroom(),
            old(memory)@.len() == old(self)@.arena.capacity,
            forall|result: Result<ObjectPayload, Error>| #[trigger] size_of.requires((&result,)),
        ensures
            final(self).wf(),
            final(self).entries() == old(self).entries(),
            final(self).cluster_id == old(self).cluster_id,
            final(memory)@.len() == old(memory)@.len(),
            final(self)@.arena.capacity == old(self)@.arena.capacity,
            dispatch_met(old(self)@, final(self)@, old(memory)@, final(memory)@, request, now, base, *size_of, r),
    {
        match request {
            RpcRequest::Worker(request) => self.answer_worker(request, now),
            RpcRequest::Client(request) => match request {
                ClientRequest::Connect => RpcReply::Client(
                    ClientReply::Connected {
                        coordinator_epoch: self.state.epoch,
                        arena_token: self.arena.token().to_string(),
                    },
                ),
                ClientRequest::Put { codec, bytes } => self.answer_put(memory, codec, bytes, now),
                ClientRequest::Submit { operation, args, resources, max_attempts } => self.answer_submit(
                    SubmitSpec { operation, args, resources, max_attempts },
                ),
                ClientRequest::SubmitBatch(specs) => self.answer_submit_batch(specs),
                ClientRequest::Status(id) => self.answer_status(id),
                ClientRequest::Get { object, .. } => self.answer_get(object),
                ClientRequest::GetBatch { objects, .. } => self.answer_get_batch(objects, base, size_of),
                ClientRequest::GetLocal(id) => self.answer_get_local(memory, id),
                ClientRequest::ArenaReserve { id, codec, size_bytes, checksum, mode } => self.answer_reserve(
                    id,
                    codec,
                    size_bytes,
                    checksum,
                    mode,
                    now,
                ),
                ClientRequest::ArenaCommit { id, reservation } => self.answer_commit(id, reservation),
                ClientRequest::PutChunk { id, reservation, offset, bytes } => self.answer_put_chunk(
                    memory,
                    id,
                    reservation,
                    offset,
                    bytes.as_slice(),
                    now,
                ),
                ClientRequest::GetChunk { id, offset, len } => self.answer_get_chunk(memory, id, offset, len),
                ClientRequest::Workers => self.answer_workers(),
                ClientRequest::Cancel(id) => self.answer_cancel(id),
                ClientRequest::Release(id) => self.answer_release(id),
            },
        }
    }

    /// Answers one request in its envelope, and tells whether the state moved on,
    /// so that requests that wait for a change are to be looked at again.
    pub fn dispatch_and_notify<F: Fn(&Result<ObjectPayload, Error>) -> u64, G: Fn(&RpcReply) -> usize>(
        &mut self,
        memory: &mut [u8],
        envelope: Envelope,
        body: &[u8],
        now: u64,
        base: u64,
        size_of: &F,
        reply_size: &G,
    ) -> (r: (Result<Arc<RpcReply>, Error>, bool))
        requires
            old(self).wf(),
            old(self).has_headroom(),
            old(memory)@.len() == old(self)@.arena.capacity,
            forall|result: Result<ObjectPayload, Error>| #[trigger] size_of.requires((&result,)),
            forall|reply: RpcReply| #[trigger] reply_size.requires((&reply,)),
            forall|reply: RpcReply, n: usize| #[trigger]
                reply_size.ensures((&reply,), n) ==> n <= usize::MAX - MAX_REPLAY_BYTES - REPLAY_ENTRY_OVERHEAD,
        ensures
            final(self).wf(),
            final(self).cluster_id == old(self).cluster_id,
            final(memory)@.len() == old(memory)@.len(),
            final(self)@.arena.capacity == old(self)@.arena.capacity,
            once_met(
                old(self)@,
                final(self)@,
                old(self).entries(),
                final(self).entries(),
                old(memory)@,
                final(memory)@,
                envelope,
                body@,
                now,
                base,
                *size_of,
                *reply_size,
                r.0,
            ),
            r.1 == (final(self)@.state.revision != old(self)@.state.revision),
    {
        let before = self.state.revision;
        let reply = self.dispatch_once(memory, envelope, body, now, base, size_of, reply_size);
        (reply, self.state.revision != before)
    }

    /// Answers one request in its envelope. A mutation must name this
    /// coordinator's epoch; a request that was answered before is not applied
    /// again. `body` is the request as it came over the wire, and `reply_size`
    /// the size of a reply on the wire.
    pub fn dispatch_once<F: Fn(&Result<ObjectPayload, Error>) -> u64, G: Fn(&RpcReply) -> usize>(
        &mut self,
        memory: &mut [u8],
        envelope: Envelope,
        body: &[u8],
        now: u64,
        base: u64,
        size_of: &F,
        reply_size: &G,
    ) -> (r: Result<Arc<RpcReply>, Error>)
        requires
            old(self).wf(),
            old(self).has_headroom(),
            old(memory)@.len() == old(self)@.arena.capacity,
            forall|result: Result<ObjectPayload, Error>| #[trigger] size_of.requires((&result,)),
            forall|reply: RpcReply| #[trigger] reply_size.requires((&reply,)),
            forall|reply: RpcReply, n: usize| #[trigger]
                reply_size.ensures((&reply,), n) ==> n <= usize::MAX - MAX_REPLAY_BYTES - REPLAY_ENTRY_OVERHEAD,
        ensures
            final(self).wf(),
            final(self).cluster_id == old(self).cluster_id,
            final(memory)@.len() == old(memory)@.len(),
            final(self)@.arena.capacity == old(self)@.arena.capacity,
            once_met(
                old(self)@,
                final(self)@,
                old(self).entries(),
                final(self).entries(),
                old(memory)@,
                final(memory)@,
                envelope,
                body@,
                now,
                base,
                *size_of,
                *reply_size,
                r,
            ),
    {
        let ghost before = self@;
        let ghost kept = self.entries();
        if is_mutation(&envelope.body) {
            match self.validate_epoch(&envelope) {
                Ok(()) => {},
                Err(error) => return Err(error),
            }
        }
        if !should_cache(&envelope.body) {
            let reply = self.dispatch(memory, envelope.body, now, base, size_of);
            return Ok(Arc::new(reply));
        }
        let hash = checksum(body);
        let id = envelope.request_id;
        let admitted = self.replay.consider(&id, &hash, now);
        match admitted {
            Admission::Replay(reply) => {
                assert(remembered_met(
                    before,
                    self@,
                    kept,
                    self.entries(),
                    old(memory)@,
                    memory@,
                    envelope,
                    now,
                    base,
                    *size_of,
                    *reply_size,
                    hash,
                    0,
                    reply,
                ));
                Ok(reply)
            },
            Admission::Reused => {
                let reply = Arc::new(
                    request_error(
                        &envelope.body,
                        Error::Protocol("request id reused with different body".to_string()),
                    ),
                );
                assert(remembered_met(
                    before,
                    self@,
                    kept,
                    self.entries(),
                    old(memory)@,
                    memory@,
                    envelope,
                    now,
                    base,
                    *size_of,
                    *reply_size,
                    hash,
                    0,
                    reply,
                ));
                Ok(reply)
            },
            Admission::Full => {
                let reply = Arc::new(
                    request_error(
                        &envelope.body,
                        Error::CapacityExceeded("replay cache limit reached".to_string()),
                    ),
                );
                assert(remembered_met(
                    before,
                    self@,
                    kept,
                    self.entries(),
                    old(memory)@,
                    memory@,
                    envelope,
                    now,
                    base,
                    *size_of,
                    *reply_size,
                    hash,
                    0,
                    reply,
                ));
                Ok(reply)
            },
            Admission::Fresh => {
                let deadline = envelope.deadline_unix_ms;
                let answer = self.dispatch(memory, envelope.body, now, base, size_of);
                let bytes: usize = reply_size(&answer);
                let reply = Arc::new(answer);
                self.replay.insert(
                    id,
                    ReplayEntry {
                        body_hash: hash,
                        reply: reply.clone(),
                        expires_at_ms: replay_expiry(deadline, now),
                        bytes,
                    },
                );
                assert(remembered_met(
                    before,
                    self@,
                    kept,
                    self.entries(),
                    old(memory)@,
                    memory@,
                    envelope,
                    now,
                    base,
                    *size_of,
                    *reply_size,
                    hash,
                    bytes,
                    reply,
                ));
                Ok(reply)
            },
        }
    }
}

/// The reply to a slot that there is no room for.
pub open spec fn is_overflow(result: Result<ObjectPayload, Error>) -> bool {
    result matches Err(error) && error@ == ErrorModel::CapacityExceeded("get batch response too large"@)
}

/// What the frame holds after the first `i` of `n` slots: each at its own size,
/// or, where that would leave too little for the rest, at the size `over`.
pub open spec fn frame_used(base: u64, over: u64, sizes: Seq<u64>, n: nat, i: int) -> int
    decreases i,
{
    if i <= 0 {
        base as int
    } else {
        let prior = frame_used(base, over, sizes, n, i - 1);
        prior + if prior + sizes[i - 1] + over * (n - i) <= MAX_FRAME_BYTES {
            sizes[i - 1] as int
        } else {
            over as int
        }
    }
}

/// Slot `i` fits, with room left to say for each later slot that it does not.
pub open spec fn fits_frame(base: u64, over: u64, sizes: Seq<u64>, n: nat, i: int) -> bool {
    frame_used(base, over, sizes, n, i) + sizes[i] + over * (n - i - 1) <= MAX_FRAME_BYTES
}

/// The object resolves to `result`, whose size on the wire is `size`.
pub open spec fn sized_resolution<F: Fn(&Result<ObjectPayload, Error>) -> u64>(
    s: Model,
    id: ObjectId,
    size_of: F,
    result: Result<ObjectPayload, Error>,
    size: u64,
) -> bool {
    resolved(s, id, result) && size_of.ensures((&result,), size)
}

/// A slot holds what the object resolves to, or, if that does not fit, says so.
pub open spec fn batch_slot<F: Fn(&Result<ObjectPayload, Error>) -> u64>(
    s: Model,
    id: ObjectId,
    size_of: F,
    fits: bool,
    size: u64,
    result: Result<ObjectPayload, Error>,
) -> bool {
    if fits {
        sized_resolution(s, id, size_of, result, size)
    } else {
        is_overflow(result) && exists|found: Result<ObjectPayload, Error>| #[trigger]
            sized_resolution(s, id, size_of, found, size)
    }
}

pub open spec fn batch_sized<F: Fn(&Result<ObjectPayload, Error>) -> u64>(
    s: Model,
    objects: Seq<ObjectId>,
    base: u64,
    over: u64,
    size_of: F,
    sizes: Seq<u64>,
    results: Seq<Result<ObjectPayload, Error>>,
) -> bool {
    &&& results.len() == objects.len()
    &&& sizes.len() == objects.len()
    &&& frame_used(base, over, sizes, objects.len(), objects.len() as int) <= MAX_FRAME_BYTES
    &&& forall|j: int|
        0 <= j < objects.len() ==> batch_slot(
            s,
            #[trigger] objects[j],
            size_of,
            fits_frame(base, over, sizes, objects.len(), j),
            sizes[j],
            results[j],
        )
}

pub open spec fn batch_answer<F: Fn(&Result<ObjectPayload, Error>) -> u64>(
    s: Model,
    objects: Seq<ObjectId>,
    base: u64,
    size_of: F,
    overflow: Result<ObjectPayload, Error>,
    over: u64,
    reply: RpcReply,
) -> bool {
    &&& is_overflow(overflow)
    &&& size_of.ensures((&overflow,), over)
    &&& if base + over * objects.len() > MAX_FRAME_BYTES {
        client_error(reply, ErrorModel::CapacityExceeded("get batch response too large"@))
    } else {
        match reply {
            RpcReply::Client(ClientReply::ObjectBatch(results)) => exists|sizes: Seq<u64>| #[trigger]
                batch_sized(s, objects, base, over, size_of, sizes, results@),
            _ => false,
        }
    }
}

/// The answer to a batch of gets: one result per object, in order, in a frame
/// that is not over the limit.
pub open spec fn get_batch_met<F: Fn(&Result<ObjectPayload, Error>) -> u64>(
    s: Model,
    objects: Seq<ObjectId>,
    base: u64,
    size_of: F,
    reply: RpcReply,
) -> bool {
    exists|overflow: Result<ObjectPayload, Error>, over: u64| #[trigger]
        batch_answer(s, objects, base, size_of, overflow, over, reply)
}

/// Two machine words multiply to at most two machine words.
proof fn lemma_product(a: u64, b: u64)
    ensures
        0 <= a * b <= 0xffff_ffff_ffff_fffe_0000_0000_0000_0001,
{
    assert(0 <= a * b <= 0xffff_ffff_ffff_ffff * 0xffff_ffff_ffff_ffff) by (nonlinear_arith)
        requires
            0 <= a <= 0xffff_ffff_ffff_ffff,
            0 <= b <= 0xffff_ffff_ffff_ffff,
    ;
}

/// One more size at the end does not change what came before.
proof fn lemma_frame_prefix(base: u64, over: u64, sizes: Seq<u64>, size: u64, n: nat)
    ensures
        forall|i: int|
            0 <= i <= sizes.len() ==> frame_used(base, over, sizes.push(size), n, i) == #[trigger] frame_used(
                base,
                over,
                sizes,
                n,
                i,
            ),
        forall|i: int|
            0 <= i < sizes.len() ==> fits_frame(base, over, sizes.push(size), n, i) == #[trigger] fits_frame(
                base,
                over,
                sizes,
                n,
                i,
            ),
{
    let grown = sizes.push(size);
    assert forall|i: int| 0 <= i <= sizes.len() implies frame_used(base, over, grown, n, i) == #[trigger] frame_used(
        base,
        over,
        sizes,
        n,
        i,
    ) by {
        lemma_frame_same(base, over, sizes, grown, n, i);
    }
    assert forall|i: int| 0 <= i < sizes.len() implies fits_frame(base, over, grown, n, i) == #[trigger] fits_frame(
        base,
        over,
        sizes,
        n,
        i,
    ) by {
        lemma_frame_same(base, over, sizes, grown, n, i);
    }
}

proof fn lemma_frame_same(base: u64, over: u64, a: Seq<u64>, b: Seq<u64>, n: nat, i: int)
    requires
        0 <= i <= a.len(),
        a.len() <= b.len(),
        forall|j: int| 0 <= j < a.len() ==> a[j] == b[j],
    ensures
        frame_used(base, over, a, n, i) == frame_used(base, over, b, n, i),
    decreases i,
{
    if i > 0 {
        lemma_frame_same(base, over, a, b, n, i - 1);
    }
}

/// The answer to a request.
pub open spec fn dispatch_met<F: Fn(&Result<ObjectPayload, Error>) -> u64>(
    before: ServerModel,
    after: ServerModel,
    memory: Seq<u8>,
    memory_after: Seq<u8>,
    request: RpcRequest,
    now: u64,
    base: u64,
    size_of: F,
    reply: RpcReply,
) -> bool {
    match request {
        RpcRequest::Worker(request) => worker_met(before, after, request, now, reply) && memory_after == memory,
        RpcRequest::Client(request) => client_met(
            before,
            after,
            memory,
            memory_after,
            request,
            now,
            base,
            size_of,
            reply,
        ),
    }
}

/// The answer to a client's request.
pub open spec fn client_met<F: Fn(&Result<ObjectPayload, Error>) -> u64>(
    before: ServerModel,
    after: ServerModel,
    memory: Seq<u8>,
    memory_after: Seq<u8>,
    request: ClientRequest,
    now: u64,
    base: u64,
    size_of: F,
    reply: RpcReply,
) -> bool {
    match request {
        ClientRequest::Put { codec, bytes } => client_put_met(
            before,
            after,
            memory,
            memory_after,
            codec,
            bytes@,
            now,
            reply,
        ),
        ClientRequest::PutChunk { id, reservation, offset, bytes } => put_chunk_met(
            before,
            after,
            memory,
            memory_after,
            id,
            reservation,
            offset,
            bytes@,
            now,
            reply,
        ),
        _ => memory_after == memory && match request {
            ClientRequest::Connect => {
                &&& after == before
                &&& reply matches RpcReply::Client(ClientReply::Connected { coordinator_epoch, arena_token })
                &&& coordinator_epoch == before.state.epoch
                &&& arena_token@ == before.token
            },
            ClientRequest::Submit { operation, args, resources, max_attempts } => client_submit_met(
                before,
                after,
                SubmitSpec { operation, args, resources, max_attempts },
                reply,
            ),
            ClientRequest::SubmitBatch(specs) => submit_batch_met(before, after, specs@, reply),
            ClientRequest::Status(id) => after == before && status_met(before.state, id, reply),
            ClientRequest::Get { object, wait_ms } => after == before && get_met(before, object, reply),
            ClientRequest::GetBatch { objects, wait_ms, min_ready } => after == before && get_batch_met(
                before.state,
                objects@,
                base,
                size_of,
                reply,
            ),
            ClientRequest::GetLocal(id) => after == before && get_local_met(before, memory, id, reply),
            ClientRequest::ArenaReserve { id, codec, size_bytes, checksum, mode } => client_reserve_met(
                before,
                after,
                id,
                codec,
                size_bytes,
                checksum,
                mode,
                now,
                reply,
            ),
            ClientRequest::ArenaCommit { id, reservation } => client_commit_met(
                before,
                after,
                id,
                reservation,
                reply,
            ),
            ClientRequest::GetChunk { id, offset, len } => after == before && get_chunk_met(
                before,
                memory,
                id,
                offset,
                len,
                reply,
            ),
            ClientRequest::Workers => after == before && workers_met(before.state, reply),
            ClientRequest::Cancel(id) => client_cancel_met(before, after, id, reply),
            ClientRequest::Release(id) => client_release_met(before, after, id, reply),
            _ => false,
        },
    }
}

/// The answer to a request whose reply is remembered. `hash` is the digest of
/// the request's bytes and `bytes` the size of a new reply.
pub open spec fn remembered_met<F: Fn(&Result<ObjectPayload, Error>) -> u64, G: Fn(&RpcReply) -> usize>(
    before: ServerModel,
    after: ServerModel,
    entries: Entries,
    entries_after: Entries,
    memory: Seq<u8>,
    memory_after: Seq<u8>,
    envelope: Envelope,
    now: u64,
    base: u64,
    size_of: F,
    reply_size: G,
    hash: [u8; 32],
    bytes: usize,
    reply: Arc<RpcReply>,
) -> bool {
    let id = envelope.request_id;
    let left = considered(entries, id, now);
    match admission(entries, id, hash, now) {
        Admission::Replay(kept) => {
            &&& after == before
            &&& memory_after == memory
            &&& entries_after == left
            &&& reply == kept
        },
        Admission::Reused => {
            &&& after == before
            &&& memory_after == memory
            &&& entries_after == left
            &&& refuses(*reply, envelope.body, ErrorModel::Protocol("request id reused with different body"@))
        },
        Admission::Full => {
            &&& after == before
            &&& memory_after == memory
            &&& entries_after == left
            &&& refuses(*reply, envelope.body, ErrorModel::CapacityExceeded("replay cache limit reached"@))
        },
        Admission::Fresh => {
            &&& dispatch_met(
                before,
                after,
                memory,
                memory_after,
                envelope.body,
                now,
                base,
                size_of,
                *reply,
            )
            &&& reply_size.ensures((&*reply,), bytes)
            &&& entries_after == left.insert(
                id,
                ReplayEntry {
                    body_hash: hash,
                    reply,
                    expires_at_ms: expiry(envelope.deadline_unix_ms, now) as u64,
                    bytes,
                },
            )
        },
    }
}

/// The reply carries the error to the sender of the request.
pub open spec fn refuses(reply: RpcReply, request: RpcRequest, error: ErrorModel) -> bool {
    exists|e: Error| e@ == error && reply == #[trigger] error_reply(request, e)
}

/// The answer to a request in its envelope.
pub open spec fn once_met<F: Fn(&Result<ObjectPayload, Error>) -> u64, G: Fn(&RpcReply) -> usize>(
    before: ServerModel,
    after: ServerModel,
    entries: Entries,
    entries_after: Entries,
    memory: Seq<u8>,
    memory_after: Seq<u8>,
    envelope: Envelope,
    body: Seq<u8>,
    now: u64,
    base: u64,
    size_of: F,
    reply_size: G,
    r: Result<Arc<RpcReply>, Error>,
) -> bool {
    let epoch = epoch_checked(before.state.epoch, envelope.coordinator_epoch);
    if mutates(envelope.body) && epoch is Err {
        &&& after == before
        &&& entries_after == entries
        &&& memory_after == memory
        &&& r matches Err(error) && Err::<(), ErrorModel>(error@) == epoch
    } else if !remembered(envelope.body) {
        &&& entries_after == entries
        &&& r matches Ok(reply) && dispatch_met(
            before,
            after,
            memory,
            memory_after,
            envelope.body,
            now,
            base,
            size_of,
            *reply,
        )
    } else {
        match r {
            Ok(reply) => exists|hash: [u8; 32], bytes: usize| #[trigger]
                remembered_met(
                    before,
                    after,
                    entries,
                    entries_after,
                    memory,
                    memory_after,
                    envelope,
                    now,
                    base,
                    size_of,
                    reply_size,
                    hash,
                    bytes,
                    reply,
                ) && hash@ == blake3_digest(body),
            Err(_) => false,
        }
    }
}

fn worker_answer(result: Result<(), Error>) -> (r: RpcReply)
    ensures
        match result {
            Ok(()) => r == RpcReply::Worker(WorkerReply::Accepted),
            Err(error) => r == RpcReply::Worker(WorkerReply::Error(error)),
        },
{
    match result {
        Ok(()) => RpcReply::Worker(WorkerReply::Accepted),
        Err(error) => RpcReply::Worker(WorkerReply::Error(error)),
    }
}

/// The answer to a worker's request.
pub open spec fn worker_met(
    before: ServerModel,
    after: ServerModel,
    request: WorkerRequest,
    now: u64,
    reply: RpcReply,
) -> bool {
    match request {
        WorkerRequest::Register(request) => register_met(before, after, register_view(request), now, reply),
        WorkerRequest::Heartbeat(identity) => report_met(
            before.state.heard(identity, now, before.lease_ms),
            before,
            after,
            reply,
        ),
        WorkerRequest::Poll { identity, wait_ms } => poll_met(before, after, identity, now, reply),
        WorkerRequest::Cancelled { identity, fence } => report_met(
            before.state.cancel_acknowledged(identity, fence),
            before,
            after,
            reply,
        ),
        WorkerRequest::Started { identity, fence } => report_met(
            before.state.started(identity, fence),
            before,
            after,
            reply,
        ),
        WorkerRequest::Completed { identity, report } => report_met(
            before.state.completed(identity, completion_view(report), inline_digest(report)),
            before,
            after,
            reply,
        ),
        WorkerRequest::Failed { identity, fence, message, class } => report_met(
            before.state.failed(identity, fence, message@, class, now),
            before,
            after,
            reply,
        ),
        WorkerRequest::Drain(identity) => report_met(before.state.draining(identity), before, after, reply),
    }
}

/// A submission counts one change and adds one task, or does neither.
proof fn lemma_submits_counts(before: Model, after: Model, spec: SubmitSpec, result: Result<SubmittedTask, Error>)
    requires
        before.wf(),
        submits(before, after, spec, result),
    ensures
        after.revision - before.revision == after.tasks.dom().len() - before.tasks.dom().len(),
{
}

/// What `validate_epoch` answers.
pub open spec fn epoch_checked(own: CoordinatorEpoch, named: Option<CoordinatorEpoch>) -> Result<(), ErrorModel> {
    match named {
        Some(epoch) => if epoch == own {
            Ok(())
        } else {
            Err(ErrorModel::StaleEpoch)
        },
        None => Err(ErrorModel::Protocol("mutation requires coordinator epoch"@)),
    }
}

} // verus!
