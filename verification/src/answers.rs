//! What one answer of a coordinator says of another: that a read gives back what was
//! stored, and that a client hears what became of its tasks.
use vstd::prelude::*;

use crate::arena::{
    law_chunk_extends_content, law_put_is_read_back, law_reserved_slot_is_empty, lemma_content_fits, reserve_met,
    Reservation,
};
use crate::client::{chunked_put_met, continues, ChunkedPut, PutStage, PutStep};
use crate::cluster::{
    client_cancel_met, client_commit_met, client_error, client_put_met, client_release_met, client_reserve_met,
    client_submit_met, get_chunk_met, get_local_met, get_met, put_chunk_met, report_met, status_met, stored_reply,
    submit_step, CoordinatorServer, ServerModel,
};
use crate::coordinator::laws::{lemma_dropped_sound, lemma_gave_up_sound, lemma_succeeded_sound};
use crate::coordinator::machine::lemma_settles_frame;
use crate::coordinator::model::{CompletionModel, Phase, Verdict};
use crate::coordinator::{shared_view, status_phase};
use crate::error::{Error, ErrorModel};
use crate::ids::{blake3_digest, ObjectId, RequestId, TaskId};
use crate::operation::Codec;
use crate::protocol::{
    ArenaWriteMode, ClientReply, ClientRequest, FailureClass, ObjectPayload, RpcReply, SubmitSpec, SubmittedTask,
    TaskFence, WorkerIdentity, WorkerReply, MAX_OBJECT_BYTES,
};

verus! {

/// A server between two requests, with the memory of its arena.
pub open spec fn is_server(s: ServerModel, memory: Seq<u8>) -> bool {
    &&& s.state.wf()
    &&& s.arena.wf()
    &&& memory.len() == s.arena.capacity
}

/// A server that is in order, with memory of the size of its arena, is one between
/// two requests: its state and its arena hold what their operations promise.
pub proof fn law_server_is_in_order(server: CoordinatorServer, memory: Seq<u8>)
    requires
        server.wf(),
        memory.len() == server@.arena.capacity,
    ensures
        is_server(server@, memory),
{
}

/// The payload leads to these bytes: it carries them, or they are where it says in
/// the memory of the arena.
pub open spec fn leads_to(payload: ObjectPayload, memory: Seq<u8>, bytes: Seq<u8>) -> bool {
    match payload.arena {
        Some(place) => place.offset + bytes.len() <= memory.len() && memory.subrange(
            place.offset as int,
            place.offset + bytes.len(),
        ) == bytes,
        None => shared_view(payload.bytes) == Some(bytes),
    }
}

/// What was put is what a get leads to, under the same id and codec, with its size
/// and its digest; and it is what another machine is sent. This is of the first put
/// of an object: the bytes that an id leads to are those of its first put.
pub proof fn law_get_gives_back_put(
    before: ServerModel,
    after: ServerModel,
    memory: Seq<u8>,
    memory_after: Seq<u8>,
    codec: Codec,
    bytes: Seq<u8>,
    now: u64,
    put: RpcReply,
    stored: ObjectPayload,
    get: RpcReply,
    fetch: RpcReply,
)
    requires
        is_server(before, memory),
        client_put_met(before, after, memory, memory_after, codec, bytes, now, put),
        put == RpcReply::Client(ClientReply::Object(stored)),
        !before.state.objects.contains_key(stored.id),
        !before.arena.is_committed(stored.id),
        get_met(after, stored.id, get),
        get_local_met(after, memory_after, stored.id, fetch),
    ensures
        stored.id.0@ == blake3_digest(bytes),
        get matches RpcReply::Client(ClientReply::Object(found)) && found.id == stored.id && found.codec == codec
            && found.size_bytes == bytes.len() && found.checksum@ == blake3_digest(bytes) && leads_to(
            found,
            memory_after,
            bytes,
        ),
        fetch matches RpcReply::Client(ClientReply::Object(sent)) && sent.id == stored.id && sent.codec == codec
            && shared_view(sent.bytes) == Some(bytes),
{
    let (digest, reservation, place) = choose|digest: [u8; 32], reservation: RequestId, place: Option<u64>| #[trigger]
        stored_reply(before, after, memory, memory_after, codec, bytes, now, digest, reservation, place, put);
    law_put_is_read_back(
        before.arena,
        after.arena,
        memory,
        memory_after,
        ObjectId(digest),
        bytes,
        codec,
        digest,
        reservation,
        now,
        place,
        ObjectId(digest),
    );
}

/// A put leaves what a get of any other object leads to as it was, for objects that
/// are stored here.
pub proof fn law_put_leaves_others(
    before: ServerModel,
    after: ServerModel,
    memory: Seq<u8>,
    memory_after: Seq<u8>,
    codec: Codec,
    bytes: Seq<u8>,
    now: u64,
    put: RpcReply,
    other: ObjectId,
)
    requires
        is_server(before, memory),
        client_put_met(before, after, memory, memory_after, codec, bytes, now, put),
        other.0@ != blake3_digest(bytes),
    ensures
        after.state.unresolved(other) == before.state.unresolved(other),
        before.state.objects.contains_key(other) ==> after.state.objects[other] == before.state.objects[other],
        before.arena.is_committed(other) ==> {
            &&& after.arena.is_committed(other)
            &&& after.arena.live[other] == before.arena.live[other]
            &&& after.arena.content(memory_after, other) == before.arena.content(memory, other)
        },
{
    if bytes.len() <= MAX_OBJECT_BYTES {
        let (digest, reservation, place) = choose|
            digest: [u8; 32],
            reservation: RequestId,
            place: Option<u64>,
        | #[trigger]
            stored_reply(before, after, memory, memory_after, codec, bytes, now, digest, reservation, place, put);
        if put is Client && put->Client_0 is Object {
            law_put_is_read_back(
                before.arena,
                after.arena,
                memory,
                memory_after,
                ObjectId(digest),
                bytes,
                codec,
                digest,
                reservation,
                now,
                place,
                other,
            );
        }
    }
}

/// The output of a task is what its worker reported: a get leads to it, with the
/// bytes if they came with the report and to the worker otherwise, and the task is
/// said to have succeeded.
pub proof fn law_output_is_what_was_reported(
    before: ServerModel,
    after: ServerModel,
    identity: WorkerIdentity,
    report: CompletionModel,
    digest: Seq<u8>,
    told: RpcReply,
    get: RpcReply,
    status: RpcReply,
)
    requires
        before.state.wf(),
        report_met(before.state.completed(identity, report, digest), before, after, told),
        told == RpcReply::Worker(WorkerReply::Accepted),
        !(before.state.tasks[report.fence.task_id].state is Succeeded),
        !before.arena.is_committed(report.output_id),
        get_met(after, report.output_id, get),
        status_met(after.state, report.fence.task_id, status),
    ensures
        get matches RpcReply::Client(ClientReply::Object(found)) && found.id == report.output_id && found.codec
            == report.codec && found.size_bytes == report.size_bytes && found.checksum == report.checksum
            && found.location@ == report.location && shared_view(found.bytes) == report.bytes && found.arena is None,
        status matches RpcReply::Client(ClientReply::Status(view)) && view.output_id == report.output_id
            && status_phase(view.state) is Succeeded && view.worker is None,
{
    let id = report.fence.task_id;
    let mid = before.state.succeeded(identity, report);
    assert(before.state.completed(identity, report, digest) == Verdict::Settling(mid));
    lemma_succeeded_sound(before.state, identity, report);
    lemma_settles_frame(mid, after.state);
    assert(mid.task_ok(id));
    assert(!mid.waiting.contains(id));
    assert(mid.objects.contains_key(report.output_id));
}

/// A client hears of a failure for good: the task is said to have failed, with the
/// worker's words, and its output will not come.
pub proof fn law_failure_is_told(
    before: ServerModel,
    after: ServerModel,
    identity: WorkerIdentity,
    fence: TaskFence,
    message: Seq<char>,
    class: FailureClass,
    now: u64,
    told: RpcReply,
    get: RpcReply,
    status: RpcReply,
)
    requires
        before.state.wf(),
        report_met(before.state.failed(identity, fence, message, class, now), before, after, told),
        told == RpcReply::Worker(WorkerReply::Accepted),
        !before.state.tasks[fence.task_id].state.terminal(),
        !before.state.will_retry(fence.task_id, class),
        get_met(after, before.state.tasks[fence.task_id].output, get),
        status_met(after.state, fence.task_id, status),
    ensures
        client_error(get, ErrorModel::Protocol("object unavailable"@)),
        status matches RpcReply::Client(ClientReply::Status(view)) && status_phase(view.state) == Phase::Failed(message)
            && view.worker is None,
{
    let id = fence.task_id;
    assert(before.state.task_ok(id));
    let mid = before.state.released(identity.node_id, before.state.tasks[id].resources).gave_up(id, message).bump();
    assert(before.state.failed(identity, fence, message, class, now) == Verdict::Settling(mid));
    lemma_gave_up_sound(before.state, identity, fence, message);
    lemma_settles_frame(mid, after.state);
    assert(mid.task_ok(id));
    assert(!mid.waiting.contains(id));
    assert(mid.objects.contains_key(before.state.tasks[id].output));
}

/// A task that was taken in is known: it has not been tried yet, and its output is
/// pending.
pub proof fn law_submitted_task_is_known(
    before: ServerModel,
    after: ServerModel,
    spec: SubmitSpec,
    task: SubmittedTask,
    get: RpcReply,
    status: RpcReply,
)
    requires
        client_submit_met(
            before,
            after,
            spec,
            RpcReply::Client(ClientReply::Submitted { task_id: task.task_id, output_id: task.output_id }),
        ),
        get_met(after, task.output_id, get),
        status_met(after.state, task.task_id, status),
    ensures
        !before.state.tasks.contains_key(task.task_id),
        !before.state.objects.contains_key(task.output_id),
        client_error(get, ErrorModel::ObjectPending(task.output_id)),
        status matches RpcReply::Client(ClientReply::Status(view)) && view.output_id == task.output_id && view.attempt.0
            == 0 && view.worker is None && (status_phase(view.state) is Waiting || status_phase(view.state)
            is Runnable),
{
    let result = Ok::<SubmittedTask, Error>(task);
    let (id, output) = choose|id: TaskId, output: ObjectId| #[trigger]
        submit_step(before.state, after.state, spec, id, output, result);
}

/// A client whose request to cancel is granted hears that the task was cancelled, or
/// that this was asked of the worker which has it.
pub proof fn law_cancel_is_told(
    before: ServerModel,
    after: ServerModel,
    id: TaskId,
    status: RpcReply,
)
    requires
        before.state.wf(),
        client_cancel_met(before, after, id, RpcReply::Client(ClientReply::Cancelled)),
        status_met(after.state, id, status),
    ensures
        !before.state.tasks[id].state.terminal(),
        status matches RpcReply::Client(ClientReply::Status(view)) && status_phase(view.state)
            == if before.state.tasks[id].assigned is Some {
            Phase::CancelRequested
        } else {
            Phase::Cancelled
        },
{
    assert(before.state.task_ok(id));
    if before.state.tasks[id].assigned is None {
        let mid = before.state.dropped(id).bump();
        lemma_dropped_sound(before.state, id);
        lemma_settles_frame(mid, after.state);
        assert(mid.task_ok(id));
        assert(!mid.waiting.contains(id));
    }
}

/// What was released is gone: a get says that there is no such object, and its bytes
/// are no longer served.
pub proof fn law_released_object_is_gone(
    before: ServerModel,
    after: ServerModel,
    memory: Seq<u8>,
    id: ObjectId,
    offset: u64,
    len: u64,
    get: RpcReply,
    chunk: RpcReply,
)
    requires
        client_release_met(before, after, id, RpcReply::Client(ClientReply::Released)),
        get_met(after, id, get),
        get_chunk_met(after, memory, id, offset, len, chunk),
    ensures
        client_error(get, ErrorModel::Protocol("object unavailable"@)),
        !after.arena.live.contains_key(id),
        chunk matches RpcReply::Client(ClientReply::Error(_)),
{
}

/// What was committed is what a get leads to and what is served in ranges: the bytes
/// that were in the slot when it was committed.
pub proof fn law_committed_object_is_served(
    before: ServerModel,
    after: ServerModel,
    memory: Seq<u8>,
    id: ObjectId,
    reservation: RequestId,
    committed: RpcReply,
    payload: ObjectPayload,
    offset: u64,
    len: u64,
    chunk: RpcReply,
)
    requires
        is_server(before, memory),
        client_commit_met(before, after, id, reservation, committed),
        committed == RpcReply::Client(ClientReply::Object(payload)),
        offset + len <= before.arena.live[id].size,
        len <= MAX_OBJECT_BYTES,
        get_chunk_met(after, memory, id, offset, len, chunk),
    ensures
        payload.id == id,
        payload.size_bytes == before.arena.live[id].size,
        leads_to(payload, memory, before.arena.content(memory, id)),
        chunk matches RpcReply::Client(ClientReply::Chunk(bytes)) && bytes@ == before.arena.content(memory, id).subrange(
            offset as int,
            offset + len,
        ),
{
    lemma_content_fits(before.arena, id);
}

/// The server holds what a put in chunks has had acknowledged: a slot for it, filled
/// so far with the beginning of the payload.
pub open spec fn streaming(s: ServerModel, memory: Seq<u8>, put: ChunkedPut) -> bool {
    let entry = s.arena.live[put.id];
    &&& s.arena.live.contains_key(put.id)
    &&& entry.mode == ArenaWriteMode::Streamed
    &&& !entry.committed
    &&& entry.reservation == put.reservation
    &&& entry.size == put.bytes@.len()
    &&& entry.written_until == put.written
    &&& s.arena.content(memory, put.id).take(put.written as int) == put.bytes@.take(put.written as int)
}

/// A put in chunks begins with an empty slot, if the server had none for its id.
pub proof fn law_streamed_put_begins(
    before: ServerModel,
    after: ServerModel,
    memory: Seq<u8>,
    asked: ChunkedPut,
    put: ChunkedPut,
    size: u64,
    checksum: [u8; 32],
    now: u64,
    offset: u64,
    step: PutStep,
)
    requires
        is_server(before, memory),
        size == asked.bytes@.len(),
        asked.stage == PutStage::Reserving,
        asked.written == 0,
        put.bytes == asked.bytes,
        !before.arena.live.contains_key(asked.id),
        client_reserve_met(
            before,
            after,
            asked.id,
            asked.codec,
            size,
            checksum,
            ArenaWriteMode::Streamed,
            now,
            RpcReply::Client(ClientReply::ArenaReserved { id: asked.id, offset, reservation: put.reservation }),
        ),
        chunked_put_met(
            asked,
            put,
            ClientReply::ArenaReserved { id: asked.id, offset, reservation: put.reservation },
            step,
        ),
    ensures
        streaming(after, memory, put),
        is_server(after, memory),
{
    let reply = RpcReply::Client(
        ClientReply::ArenaReserved { id: asked.id, offset, reservation: put.reservation },
    );
    let (reservation, r) = choose|reservation: RequestId, r: Result<Reservation, Error>| #[trigger]
        reserve_met(
            before.arena,
            after.arena,
            asked.id,
            size,
            asked.codec,
            checksum,
            ArenaWriteMode::Streamed,
            reservation,
            now,
            r,
        ) && match r {
            Ok(granted) => reply == RpcReply::Client(
                ClientReply::ArenaReserved {
                    id: asked.id,
                    offset: granted.offset,
                    reservation: granted.reservation,
                },
            ),
            Err(error) => reply == RpcReply::Client(ClientReply::Error(error)),
        };
    law_reserved_slot_is_empty(
        before.arena,
        after.arena,
        asked.id,
        size,
        asked.codec,
        checksum,
        ArenaWriteMode::Streamed,
        reservation,
        now,
        r,
    );
    assert(after.arena.content(memory, put.id).take(0) =~= put.bytes@.take(0));
}

/// Every chunk of a put arrives: the server acknowledges it, and then holds as much
/// of the payload as the client takes it to hold.
pub proof fn law_streamed_chunk_arrives(
    before: ServerModel,
    after: ServerModel,
    memory: Seq<u8>,
    memory_after: Seq<u8>,
    put: ChunkedPut,
    next: ChunkedPut,
    chunk: Vec<u8>,
    now: u64,
    reply: ClientReply,
    step: PutStep,
)
    requires
        is_server(before, memory),
        put.wf(),
        streaming(before, memory, put),
        continues(
            put,
            ClientRequest::PutChunk {
                id: put.id,
                reservation: put.reservation,
                offset: put.written as u64,
                bytes: chunk,
            },
        ),
        put_chunk_met(
            before,
            after,
            memory,
            memory_after,
            put.id,
            put.reservation,
            put.written as u64,
            chunk@,
            now,
            RpcReply::Client(reply),
        ),
        chunked_put_met(put, next, reply, step),
        next.bytes == put.bytes,
    ensures
        reply == ClientReply::ChunkWritten,
        streaming(after, memory_after, next),
        step matches PutStep::Send(request) && continues(next, request),
{
    law_chunk_extends_content(before.arena, memory, put.id, chunk@, now);
    assert(put.bytes@.take(put.written as int) + chunk@ =~= put.bytes@.take(next.written as int));
}

/// A put in chunks that was committed is read back as it was, whole and in ranges.
pub proof fn law_streamed_put_is_read_back(
    before: ServerModel,
    after: ServerModel,
    memory: Seq<u8>,
    put: ChunkedPut,
    reply: RpcReply,
    payload: ObjectPayload,
    offset: u64,
    len: u64,
    chunk: RpcReply,
)
    requires
        is_server(before, memory),
        streaming(before, memory, put),
        put.written == put.bytes@.len(),
        client_commit_met(before, after, put.id, put.reservation, reply),
        reply == RpcReply::Client(ClientReply::Object(payload)),
        offset + len <= put.bytes@.len(),
        len <= MAX_OBJECT_BYTES,
        get_chunk_met(after, memory, put.id, offset, len, chunk),
    ensures
        payload.id == put.id,
        payload.size_bytes == put.bytes@.len(),
        leads_to(payload, memory, put.bytes@),
        chunk matches RpcReply::Client(ClientReply::Chunk(bytes)) && bytes@ == put.bytes@.subrange(
            offset as int,
            offset + len,
        ),
{
    lemma_content_fits(before.arena, put.id);
    let content = before.arena.content(memory, put.id);
    assert(content.take(put.written as int) =~= content);
    assert(put.bytes@.take(put.written as int) =~= put.bytes@);
    law_committed_object_is_served(
        before,
        after,
        memory,
        put.id,
        put.reservation,
        reply,
        payload,
        offset,
        len,
        chunk,
    );
}

} // verus!
