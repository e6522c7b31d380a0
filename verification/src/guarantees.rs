//! What those who talk to the coordinator may count on: which requests change what,
//! how long they are held, and how what was put is got back.
use std::sync::Arc;
use vstd::prelude::*;
use vstd::utf8::encode_utf8;

use crate::arena::law_put_is_read_back;
use crate::cluster::{
    client_cancel_met, client_commit_met, client_get_batch_ready, client_get_ready, client_put_met,
    client_release_met, client_reserve_met, dispatch_met, envelope_at, fits_frame, frame_used, get_chunk_met,
    get_local_met, get_met, is_mutation, lists_workers, once_met, poll_met, ready_count, register_met, report_met,
    should_cache, status_met, stored_reply, unix_ms, worker_met, worker_poll_ready, worker_view_of, workers_met,
    ServerModel,
};
use crate::coordinator::model::{Model, RegisterModel};
use crate::coordinator::outcomes::law_worker_hears_of_what_it_holds;
use crate::coordinator::promises::{can_take, holds, law_able_worker_gets_work, law_heartbeat_renews_lease};
use crate::coordinator::{shared_view, status_phase, ObjectState, WorkerState};
use crate::error::{Error, ErrorModel};
use crate::ids::{blake3_digest, ClusterId, LeaseId, NodeId, ObjectId, RequestId, TaskId};
use crate::operation::Codec;
use crate::protocol::{
    addr_ok, loopback_checked, ArenaWriteMode, ClientReply, ClientRequest, Envelope, ObjectPayload, RpcReply, RpcRequest, TaskFence,
    WorkerIdentity, WorkerReply, WorkerRequest,
};
use crate::replay::Entries;
use crate::serving::{
    attempt_window, frame_header, frame_len, keeps_connection, long_poll_step, parking, request_step, ticked,
    AttemptOutcome, Parking, Reaper, RequestStep, Tick,
};

verus! {

// ---- Requests ----

/// A client's request is a mutation exactly if it puts, reserves, commits, submits,
/// cancels or releases; a worker's exactly if it neither registers nor polls. Of these
/// the answers to submissions, cancellations and releases are remembered.
pub proof fn law_mutations(request: &RpcRequest, mutation: bool, cached: bool)
    requires
        call_ensures(is_mutation, (request,), mutation),
        call_ensures(should_cache, (request,), cached),
    ensures
        *request matches RpcRequest::Client(client) ==> {
            &&& mutation <==> !(client is Connect || client is Status || client is Get || client is GetBatch
                || client is GetLocal || client is GetChunk || client is Workers)
            &&& cached <==> client is Submit || client is SubmitBatch || client is Cancel || client is Release
        },
        *request matches RpcRequest::Worker(worker) ==> !cached && (mutation <==> worker is Heartbeat
            || worker is Cancelled || worker is Started || worker is Completed || worker is Failed || worker is Drain),
{
}

/// A client's request that is no mutation leaves everything as it was.
pub proof fn law_reads_change_nothing<F: Fn(&Result<ObjectPayload, Error>) -> u64>(
    before: ServerModel,
    after: ServerModel,
    memory: Seq<u8>,
    memory_after: Seq<u8>,
    request: &RpcRequest,
    now: u64,
    base: u64,
    size_of: F,
    reply: RpcReply,
)
    requires
        *request is Client,
        call_ensures(is_mutation, (request,), false),
        dispatch_met(before, after, memory, memory_after, *request, now, base, size_of, reply),
    ensures
        after == before,
        memory_after == memory,
{
}

/// A mutation is applied only if it names the coordinator's own epoch, and is told
/// otherwise that it is stale, or that it names none.
pub proof fn law_mutations_name_the_epoch<F: Fn(&Result<ObjectPayload, Error>) -> u64, G: Fn(&RpcReply) -> usize>(
    before: ServerModel,
    after: ServerModel,
    entries: Entries,
    entries_after: Entries,
    memory: Seq<u8>,
    memory_after: Seq<u8>,
    envelope: Envelope,
    body: Seq<u8>,
    now: u64,
    base: u64,
    size_of: F,
    reply_size: G,
    r: Result<Arc<RpcReply>, Error>,
)
    requires
        once_met(
            before,
            after,
            entries,
            entries_after,
            memory,
            memory_after,
            envelope,
            body,
            now,
            base,
            size_of,
            reply_size,
            r,
        ),
        call_ensures(is_mutation, (&envelope.body,), true),
    ensures
        r is Ok <==> envelope.coordinator_epoch == Some(before.state.epoch),
        r is Err ==> after == before && entries_after == entries && memory_after == memory,
        r is Err && envelope.coordinator_epoch is Some ==> r->Err_0@ == ErrorModel::StaleEpoch,
        r is Err && envelope.coordinator_epoch is None ==> r->Err_0@ == ErrorModel::Protocol(
            "mutation requires coordinator epoch"@,
        ),
{
}

/// A request that is sent now may be answered for five seconds.
pub proof fn law_requests_last_five_seconds(cluster_id: ClusterId, body: RpcRequest, now: u64, envelope: Envelope)
    requires
        call_ensures(envelope_at, (cluster_id, body, now), envelope),
    ensures
        now + 5_000 <= u64::MAX ==> envelope.deadline_unix_ms == now + 5_000,
        now + 5_000 > u64::MAX ==> envelope.deadline_unix_ms == u64::MAX,
        envelope.body == body,
        forall|at: u64| now <= at < now + 5_000 && at < u64::MAX ==> (#[trigger] envelope.validated(cluster_id, at)) is Ok,
{
}

/// A clock reading is in milliseconds.
pub proof fn law_clock_is_in_milliseconds(seconds: u64, nanos: u32, r: u64)
    requires
        call_ensures(unix_ms, (Some((seconds, nanos)),), r),
        seconds < 18_446_744_073_709_551,
        nanos < 1_000_000_000,
    ensures
        seconds * 1_000 <= r < seconds * 1_000 + 1_000,
        1_000_000 * (r - seconds * 1_000) <= nanos < 1_000_000 * (r - seconds * 1_000) + 1_000_000,
{
}

// ---- Waiting ----

/// A poll and a get that may wait are held for as long as they ask, and four seconds
/// at most; no other request is held. Only a poll is woken by new work.
pub proof fn law_requests_are_held_as_asked(request: &RpcRequest, r: Option<Parking>)
    requires
        call_ensures(parking, (request,), r),
    ensures
        *request matches RpcRequest::Worker(WorkerRequest::Poll { identity, wait_ms }) ==> r matches Some(held)
            && held.wakes && (wait_ms <= 4_000 ==> held.wait_ms == wait_ms) && (wait_ms > 4_000 ==> held.wait_ms
            == 4_000),
        *request matches RpcRequest::Client(ClientRequest::Get { object, wait_ms }) ==> {
            &&& r is Some <==> wait_ms > 0
            &&& r matches Some(held) ==> !held.wakes && (wait_ms <= 4_000 ==> held.wait_ms == wait_ms) && (wait_ms
                > 4_000 ==> held.wait_ms == 4_000)
        },
        *request matches RpcRequest::Client(ClientRequest::GetBatch { objects, wait_ms, min_ready }) ==> {
            &&& r is Some <==> wait_ms > 0
            &&& r matches Some(held) ==> !held.wakes && (wait_ms <= 4_000 ==> held.wait_ms == wait_ms) && (wait_ms
                > 4_000 ==> held.wait_ms == 4_000)
        },
        !(*request matches RpcRequest::Worker(WorkerRequest::Poll { .. })) && !(*request matches RpcRequest::Client(
            ClientRequest::Get { .. },
        )) && !(*request matches RpcRequest::Client(ClientRequest::GetBatch { .. })) ==> r is None,
{
}

/// A held poll is answered as soon as there is anything to say, and a held get as soon
/// as the object is settled; until then they are looked at again after a quarter of a
/// second, or what is left of their time if that is less.
pub proof fn law_held_requests_are_answered_when_settled(
    request: &RpcRequest,
    reply: &RpcReply,
    remaining_nanos: u64,
    r: Option<u64>,
)
    requires
        call_ensures(long_poll_step, (request, reply, remaining_nanos), r),
    ensures
        remaining_nanos == 0 ==> r is None,
        r matches Some(wait) ==> 0 < wait <= remaining_nanos && wait <= 250_000_000 && (wait == remaining_nanos || wait
            == 250_000_000),
        *request matches RpcRequest::Worker(WorkerRequest::Poll { .. }) && remaining_nanos > 0 ==> (r is Some <==> *reply
            == RpcReply::Worker(WorkerReply::Assignment(None))),
        *request matches RpcRequest::Client(ClientRequest::Get { .. }) && remaining_nanos > 0 ==> (r is Some <==> (
        *reply matches RpcReply::Client(ClientReply::Error(Error::ObjectPending(_))))),
        match *request {
            RpcRequest::Client(ClientRequest::GetBatch { objects, wait_ms, min_ready }) => match *reply {
                RpcReply::Client(ClientReply::ObjectBatch(results)) => remaining_nanos > 0 ==> (r is Some
                    <==> ready_count(results@) < min_ready),
                _ => r is None,
            },
            _ => true,
        },
{
}

/// The objects of a batch that are settled are all but those that are still to come.
pub proof fn law_settled_are_all_but_the_pending(results: Seq<Result<ObjectPayload, Error>>)
    ensures
        ready_count(results) == results.filter(
            |result: Result<ObjectPayload, Error>| !(result matches Err(Error::ObjectPending(_))),
        ).len(),
    decreases results.len(),
{
    reveal(Seq::filter);
    if results.len() > 0 {
        law_settled_are_all_but_the_pending(results.drop_last());
    }
}

/// Replies are final, unless they say that there is no work, that an object is still to
/// come, or that too few of a batch are settled.
pub proof fn law_final_replies(reply: &RpcReply, min_ready: u32, poll: bool, get: bool, batch: bool)
    requires
        call_ensures(worker_poll_ready, (reply,), poll),
        call_ensures(client_get_ready, (reply,), get),
        call_ensures(client_get_batch_ready, (reply, min_ready), batch),
    ensures
        poll <==> *reply != RpcReply::Worker(WorkerReply::Assignment(None)),
        !get <==> (*reply matches RpcReply::Client(ClientReply::Error(Error::ObjectPending(_)))),
        !batch <==> (*reply matches RpcReply::Client(ClientReply::ObjectBatch(results)) && ready_count(results@)
            < min_ready),
{
}

// ---- Connections ----

/// A length that fits a frame is read back from its header, and no other is ever sent
/// or taken: a frame is no longer than 8 MiB.
pub proof fn law_frame_length_is_read_back(len: usize, header: Result<[u8; 4], Error>, read: Result<usize, Error>)
    requires
        call_ensures(frame_header, (len,), header),
        header is Ok ==> call_ensures(frame_len, (header->Ok_0,), read),
    ensures
        header is Ok <==> len <= 8_388_608,
        header is Ok ==> read == Ok::<usize, Error>(len),
{
}

/// An attempt has what is left until the deadline, and none is made after it.
pub proof fn law_attempts_end_at_the_deadline(deadline: u64, now: u64, window: Result<u64, Error>)
    requires
        call_ensures(attempt_window, (deadline, now), window),
    ensures
        window is Ok <==> now < deadline,
        window matches Ok(left) ==> now + left == deadline,
{
}

/// A request is tried again once, where the connection failed the first time and time is
/// left: after 25 ms, or what is left if that is less.
pub proof fn law_only_lost_connections_are_retried(
    first: bool,
    attempt: AttemptOutcome,
    deadline: u64,
    now: u64,
    step: RequestStep,
)
    requires
        call_ensures(request_step, (first, attempt, deadline, now), step),
    ensures
        step is Retry <==> first && now < deadline && (attempt matches AttemptOutcome::Failed(error) && error is Io),
        step matches RequestStep::Retry(wait) ==> wait <= 25 && now + wait <= deadline && (wait == 25 || now + wait
            == deadline),
        attempt matches AttemptOutcome::Replied(reply) ==> step == RequestStep::Return(Ok(reply)),
        attempt is TimedOut ==> (step matches RequestStep::Return(Err(error)) && error@ == ErrorModel::DeadlineExceeded),
{
}

/// Up to eight idle connections are kept for each address.
pub proof fn law_eight_connections_are_kept(idle: usize, kept: bool)
    requires
        call_ensures(keeps_connection, (idle,), kept),
    ensures
        kept <==> idle < 8,
{
}

// ---- Workers ----

/// A heartbeat under a worker's own identity is accepted and gives it another lease of
/// the server's length.
pub proof fn law_heartbeat_extends_by_the_lease(
    before: ServerModel,
    after: ServerModel,
    identity: WorkerIdentity,
    now: u64,
    reply: RpcReply,
)
    requires
        before.state.wf(),
        report_met(before.state.heard(identity, now, before.lease_ms), before, after, reply),
        identity.coordinator_epoch == before.state.epoch,
        before.state.workers.contains_key(identity.node_id),
        before.state.workers[identity.node_id].identity == identity,
    ensures
        reply == RpcReply::Worker(WorkerReply::Accepted),
        now + before.lease_ms <= u64::MAX ==> after.state.workers[identity.node_id].lease_deadline_ms == now
            + before.lease_ms,
        after.arena == before.arena,
{
    law_heartbeat_renews_lease(before.state, identity, now, before.lease_ms);
}

/// A worker that does not run on this machine is turned away, unless the coordinator
/// was told to take in others.
pub proof fn law_strangers_are_turned_away(
    before: ServerModel,
    after: ServerModel,
    request: RegisterModel,
    now: u64,
    reply: RpcReply,
)
    requires
        register_met(before, after, request, now, reply),
        before.require_loopback,
        loopback_checked(request.advertise_addr) is Err,
    ensures
        after == before,
        reply is Worker && reply->Worker_0 is Error,
{
}

/// A worker that polls is first told, one at a time and in order, what to delete; then
/// of a task to let go of; then again of one that it was given and has not started on;
/// and only then given new work, if there is any that it can run and it has a free slot.
pub proof fn law_poll_tells_first_things_first(
    before: ServerModel,
    after: ServerModel,
    identity: WorkerIdentity,
    now: u64,
    reply: RpcReply,
    fence: TaskFence,
    id: TaskId,
)
    requires
        before.state.wf(),
        poll_met(before, after, identity, now, reply),
        identity.coordinator_epoch == before.state.epoch,
        before.state.workers.contains_key(identity.node_id),
        before.state.workers[identity.node_id].identity == identity,
    ensures
        ({
            let s = before.state;
            let n = after.state;
            let node = identity.node_id;
            let deletes = if s.pending_deletes.contains_key(node) {
                s.pending_deletes[node]
            } else {
                Seq::empty()
            };
            if deletes.len() > 0 {
                &&& reply == RpcReply::Worker(WorkerReply::DeleteObject(deletes[0]))
                &&& deletes.len() > 1 ==> n.pending_deletes == s.pending_deletes.insert(node, deletes.skip(1))
                &&& deletes.len() == 1 ==> n.pending_deletes == s.pending_deletes.remove(node)
                &&& n == Model { pending_deletes: n.pending_deletes, ..s }
            } else {
                &&& holds(s, identity, fence) && s.tasks[fence.task_id].state is CancelRequested ==> {
                    &&& reply matches RpcReply::Worker(WorkerReply::Cancel(told))
                    &&& holds(s, identity, told)
                    &&& s.tasks[told.task_id].state is CancelRequested
                    &&& n.tasks == s.tasks
                    &&& n.workers == s.workers
                }
                &&& holds(s, identity, fence) && s.tasks[fence.task_id].state is Assigned && !(reply matches RpcReply::Worker(
                    WorkerReply::Cancel(_),
                )) ==> {
                    &&& reply matches RpcReply::Worker(WorkerReply::Assignment(Some(again)))
                    &&& holds(s, identity, again.fence)
                    &&& s.tasks[again.fence.task_id].state is Assigned
                    &&& again.output_id == s.tasks[again.fence.task_id].output
                    &&& n.tasks == s.tasks
                    &&& n.workers == s.workers
                }
                &&& reply == RpcReply::Worker(WorkerReply::Assignment(None)) ==> {
                    ||| s.workers[node].state != WorkerState::Alive
                    ||| s.workers[node].free_slots == 0
                    ||| !can_take(s, node, now, id)
                }
            }
        }),
{
    let s = before.state;
    let node = identity.node_id;
    let cleared = Model { pending_deletes: s.pending_deletes.remove(node), ..s };
    crate::coordinator::laws::lemma_pending_touched(s, cleared);
    law_worker_hears_of_what_it_holds(cleared, identity, fence);
    if holds(cleared, identity, fence) && cleared.tasks[fence.task_id].state is Assigned {
        assert(cleared.unstarted(identity, fence.task_id, fence.lease_id));
    }
    match reply {
        RpcReply::Worker(WorkerReply::Cancel(told)) => {
            law_worker_hears_of_what_it_holds(cleared, identity, told);
        },
        RpcReply::Worker(WorkerReply::Assignment(Some(again))) => {
            if exists|t: TaskId, lease: LeaseId| #[trigger] cleared.unstarted(identity, t, lease) {
                if !(exists|due: TaskFence| #[trigger] cleared.cancel_due(identity, due)) {
                    let (t, lease) = choose|t: TaskId, lease: LeaseId| #[trigger]
                        cleared.unstarted(identity, t, lease) && crate::coordinator::assignment_of(
                            again,
                            cleared.tasks[t],
                            lease,
                        );
                    if cleared.unstarted(identity, t, lease) && crate::coordinator::assignment_of(
                        again,
                        cleared.tasks[t],
                        lease,
                    ) {
                        assert(cleared.task_ok(t));
                        law_worker_hears_of_what_it_holds(cleared, identity, again.fence);
                        assert(again.fence.task_id == t);
                    }
                }
            }
        },
        RpcReply::Worker(WorkerReply::Assignment(None)) => {
            if can_take(s, node, now, id) && s.workers[node].state == WorkerState::Alive && s.workers[node].free_slots
                > 0 {
                if !(s.pending_deletes.contains_key(node) && s.pending_deletes[node].len() > 0) {
                    let lease = choose|lease: LeaseId| #[trigger]
                        crate::cluster::assigned_reply(cleared, after.state, node, now, lease, reply);
                    law_able_worker_gets_work(cleared, node, now, lease, id);
                }
            }
        },
        _ => {},
    }
}

// ---- Objects ----

/// What a client puts, it gets back: the same bytes, in the same codec, under the digest
/// of the content; either along with the answer or in the arena, at the place that the
/// answer names. More than 8128 KiB at once are refused.
pub proof fn law_put_is_got_back(
    before: ServerModel,
    after: ServerModel,
    memory: Seq<u8>,
    memory_after: Seq<u8>,
    codec: Codec,
    bytes: Seq<u8>,
    now: u64,
    reply: RpcReply,
    answer: RpcReply,
)
    requires
        before.state.wf(),
        before.arena.wf(),
        memory.len() == before.arena.capacity,
        client_put_met(before, after, memory, memory_after, codec, bytes, now, reply),
    ensures
        bytes.len() > 8_323_072 ==> after == before && reply is Client && reply->Client_0 is Error,
        bytes.len() <= 8_323_072 && before.state.objects.dom().len() < 65_536 && (forall|o: ObjectId|
            o.0@ == blake3_digest(bytes) ==> !(#[trigger] before.state.objects.contains_key(o))
                && !before.arena.is_committed(o)) ==> {
            &&& reply matches RpcReply::Client(ClientReply::Object(stored))
            &&& stored.id.0@ == blake3_digest(bytes)
            &&& stored.size_bytes == bytes.len()
            &&& get_met(after, stored.id, answer) ==> {
                &&& answer matches RpcReply::Client(ClientReply::Object(payload))
                &&& payload.id == stored.id
                &&& payload.codec == codec
                &&& payload.size_bytes == bytes.len()
                &&& payload.checksum@ == blake3_digest(bytes)
                &&& payload.arena is None ==> shared_view(payload.bytes) == Some(bytes)
                &&& payload.arena matches Some(place) ==> place.offset + bytes.len() <= memory_after.len()
                    && memory_after.subrange(place.offset as int, place.offset + bytes.len()) == bytes
            }
        },
{
    if bytes.len() <= 8_323_072 && before.state.objects.dom().len() < 65_536 && (forall|o: ObjectId|
        o.0@ == blake3_digest(bytes) ==> !(#[trigger] before.state.objects.contains_key(o))
            && !before.arena.is_committed(o)) {
        let (digest, reservation, place) = choose|digest: [u8; 32], reservation: RequestId, place: Option<u64>| #[trigger]
            stored_reply(before, after, memory, memory_after, codec, bytes, now, digest, reservation, place, reply);
        let id = ObjectId(digest);
        assert(!before.state.objects.contains_key(id));
        law_put_is_read_back(
            before.arena,
            after.arena,
            memory,
            memory_after,
            id,
            bytes,
            codec,
            digest,
            reservation,
            now,
            place,
            id,
        );
    }
}

/// An object that another host asks for is sent whole where it fits a message, and a
/// part of it where the part lies within it and fits one; and refused otherwise.
pub proof fn law_parts_of_objects_are_sent(
    s: ServerModel,
    memory: Seq<u8>,
    id: ObjectId,
    offset: u64,
    len: u64,
    reply: RpcReply,
    whole: RpcReply,
)
    requires
        get_chunk_met(s, memory, id, offset, len, reply),
        get_local_met(s, memory, id, whole),
    ensures
        ({
            let there = s.arena.live.contains_key(id) && s.arena.live[id].committed;
            let entry = s.arena.live[id];
            let object = memory.subrange(entry.offset as int, entry.offset + entry.size);
            &&& there && len <= 8_323_072 && offset + len <= entry.size ==> (reply matches RpcReply::Client(
                ClientReply::Chunk(bytes),
            ) && bytes@ == object.subrange(offset as int, offset + len))
            &&& !(there && len <= 8_323_072 && offset + len <= entry.size) ==> reply is Client && reply->Client_0 is Error
            &&& there && s.state.objects.contains_key(id) && s.state.objects[id].state == ObjectState::Available
                && s.state.objects[id].bytes is None ==> {
                &&& entry.size <= 8_323_072 ==> (whole matches RpcReply::Client(ClientReply::Object(payload))
                    && shared_view(payload.bytes) == Some(object))
                &&& entry.size > 8_323_072 ==> whole is Client && whole->Client_0 is Error
            }
            &&& s.state.objects.contains_key(id) && s.state.objects[id].state == ObjectState::Available
                && s.state.objects[id].bytes is Some ==> (whole matches RpcReply::Client(ClientReply::Object(payload))
                && shared_view(payload.bytes) == s.state.objects[id].bytes)
        }),
{
}

/// A commit that the coordinator can not take in gives the place in the arena back; one
/// that it can makes the object available, as it was reserved.
pub proof fn law_commit_is_all_or_nothing(
    before: ServerModel,
    after: ServerModel,
    id: ObjectId,
    reservation: RequestId,
    reply: RpcReply,
)
    requires
        client_commit_met(before, after, id, reservation, reply),
        before.arena.live.contains_key(id),
        before.arena.live[id].reservation == reservation,
        before.arena.live[id].mode == crate::protocol::ArenaWriteMode::Direct || before.arena.live[id].written_until
            == before.arena.live[id].size,
        !before.state.objects.contains_key(id),
    ensures
        before.state.objects.dom().len() >= 65_536 ==> !after.arena.live.contains_key(id) && after.state
            == before.state && reply is Client && reply->Client_0 is Error,
        before.state.objects.dom().len() < 65_536 ==> {
            &&& after.arena.live.contains_key(id)
            &&& after.arena.live[id].committed
            &&& after.state.objects.contains_key(id)
            &&& after.state.objects[id].state == ObjectState::Available
            &&& after.state.objects[id].codec == Some(before.arena.live[id].codec)
            &&& after.state.objects[id].size_bytes == Some(before.arena.live[id].size)
            &&& after.state.objects[id].checksum == Some(before.arena.live[id].checksum)
            &&& reply matches RpcReply::Client(ClientReply::Object(payload))
            &&& payload.id == id
            &&& payload.arena matches Some(place) && place.offset == before.arena.live[id].offset
        },
{
}

/// An object that is released leaves the arena too.
pub proof fn law_release_empties_the_arena(before: ServerModel, after: ServerModel, id: ObjectId, reply: RpcReply)
    requires
        before.state.wf(),
        client_release_met(before, after, id, reply),
    ensures
        reply == RpcReply::Client(ClientReply::Released) ==> !after.arena.live.contains_key(id)
            && !after.state.objects.contains_key(id),
        reply != RpcReply::Client(ClientReply::Released) ==> after == before,
{
}

/// A client is told the state of its task as it is, and who holds it.
pub proof fn law_status_is_the_record(s: Model, id: TaskId, reply: RpcReply)
    requires
        status_met(s, id, reply),
    ensures
        s.tasks.contains_key(id) ==> {
            &&& reply matches RpcReply::Client(ClientReply::Status(view))
            &&& view.task_id == id
            &&& view.output_id == s.tasks[id].output
            &&& status_phase(view.state) == s.tasks[id].state
            &&& view.attempt == s.tasks[id].attempt
            &&& view.worker is Some <==> s.tasks[id].assigned is Some
            &&& s.tasks[id].assigned matches Some(holder) ==> view.worker == Some(holder.0)
        },
        !s.tasks.contains_key(id) ==> (reply matches RpcReply::Client(ClientReply::Error(error)) && error@
            == ErrorModel::TaskNotFound(id)),
{
}

proof fn lemma_frame_room(base: u64, over: u64, sizes: Seq<u64>, n: nat, i: int)
    requires
        sizes.len() == n,
        0 <= i <= n,
        base + over * n <= 8_388_608,
    ensures
        frame_used(base, over, sizes, n, i) + over * (n - i) <= 8_388_608,
    decreases i,
{
    if i > 0 {
        lemma_frame_room(base, over, sizes, n, i - 1);
        let rest = n - i;
        assert(over * (rest + 1) == over * rest + over) by (nonlinear_arith);
    } else {
        assert(over * (n - 0) == over * n);
    }
}

/// The answer to a batch never exceeds a frame of 8 MiB, and an object is left out of it
/// only where it would not fit along with a note for each object after it.
pub proof fn law_batches_fit_a_frame(base: u64, over: u64, sizes: Seq<u64>, n: nat, i: int)
    requires
        sizes.len() == n,
        0 <= i < n,
        base + over * n <= 8_388_608,
    ensures
        frame_used(base, over, sizes, n, n as int) <= 8_388_608,
        fits_frame(base, over, sizes, n, i) ==> frame_used(base, over, sizes, n, i + 1) == frame_used(
            base,
            over,
            sizes,
            n,
            i,
        ) + sizes[i],
        !fits_frame(base, over, sizes, n, i) ==> frame_used(base, over, sizes, n, i) + sizes[i] + over * (n - i - 1)
            > 8_388_608 && frame_used(base, over, sizes, n, i + 1) == frame_used(base, over, sizes, n, i) + over,
        frame_used(base, over, sizes, n, 0) == base,
{
    lemma_frame_room(base, over, sizes, n, n as int);
    assert(over * (n - n) == 0) by (nonlinear_arith);
}

// ---- Upkeep ----

/// Leases are looked after at least three times in a lease of thirty milliseconds or
/// more, and no more often than every ten milliseconds.
pub proof fn law_leases_are_looked_after(lease_ms: u64, period: u64)
    requires
        call_ensures(Reaper::period_ms, (lease_ms,), period),
    ensures
        period >= 10,
        lease_ms >= 30 ==> 3 * period <= lease_ms,
        lease_ms >= 33 ==> 3 * period + 3 > lease_ms,
{
}

/// Health is reported, and what is finished long since cleared away, every thirty
/// seconds; locality is reported every 1024 assignments.
pub proof fn law_reports_are_periodic(before: Reaper, after: Reaper, s: Model, n: Model, now: u64, tick: Tick)
    requires
        ticked(before, after, s, n, now, tick),
    ensures
        tick.health is Some <==> now - before.health_logged_ms >= 30_000,
        tick.health is Some ==> after.health_logged_ms == now,
        tick.health is None ==> after.health_logged_ms == before.health_logged_ms && tick.reclaimed is None,
        tick.locality is Some <==> n.sched_assigns - before.locality_logged >= 1_024,
        tick.locality is Some ==> after.locality_logged == n.sched_assigns,
        tick.locality is None ==> after.locality_logged == before.locality_logged,
{
}

/// A coordinator that takes in workers from other machines registers a new one wherever
/// it runs, if its address can be read, it has a slot and its operations agree with those
/// already known; and it tells the worker how long its lease lasts.
pub proof fn law_new_worker_may_run_elsewhere(
    before: ServerModel,
    after: ServerModel,
    request: RegisterModel,
    now: u64,
    reply: RpcReply,
)
    requires
        register_met(before, after, request, now, reply),
        !before.require_loopback,
        !before.state.workers.contains_key(request.node_id),
        addr_ok(encode_utf8(request.advertise_addr)),
        request.slots > 0,
        before.state.descriptors_fault(request.operations) is None,
    ensures
        reply matches RpcReply::Worker(WorkerReply::Registered(registered)) && {
            &&& registered.identity.node_id == request.node_id
            &&& registered.identity.worker_epoch == request.worker_epoch
            &&& registered.identity.coordinator_epoch == before.state.epoch
            &&& registered.lease_timeout_ms == before.lease_ms
            &&& after.state.workers.contains_key(request.node_id)
            &&& after.state.workers[request.node_id].identity == registered.identity
            &&& after.state.workers[request.node_id].state == WorkerState::Alive
        },
        after.arena == before.arena,
{
}

/// A reader of an object in the arena is told in which arena and where; of any other it
/// gets the bytes themselves, if the coordinator has them.
pub proof fn law_reader_is_told_the_place(s: ServerModel, id: ObjectId, reply: RpcReply)
    requires
        get_met(s, id, reply),
        s.state.unresolved(id) is None,
    ensures
        reply matches RpcReply::Client(ClientReply::Object(payload)) && {
            &&& payload.id == id
            &&& s.state.objects[id].codec == Some(payload.codec)
            &&& s.state.objects[id].size_bytes == Some(payload.size_bytes)
            &&& s.state.objects[id].checksum == Some(payload.checksum)
            &&& s.arena.live.contains_key(id) && s.arena.live[id].committed ==> payload.bytes is None
                && payload.arena is Some && payload.arena->0.token@ == s.token && payload.arena->0.offset
                == s.arena.live[id].offset
            &&& !(s.arena.live.contains_key(id) && s.arena.live[id].committed) ==> payload.arena is None
                && shared_view(payload.bytes) == s.state.objects[id].bytes
        },
{
}

/// Every worker is listed, once, with its address, its slots, what it has left, and
/// whether it still takes new work.
pub proof fn law_workers_are_listed(s: Model, reply: RpcReply, node: NodeId)
    requires
        workers_met(s, reply),
        s.workers.contains_key(node),
    ensures
        reply matches RpcReply::Client(ClientReply::Workers(views)) && views@.len() == s.workers.dom().len() && exists|
            i: int,
        |
            {
                &&& 0 <= i < views@.len()
                &&& (#[trigger] views@[i]).identity == s.workers[node].identity
                &&& views@[i].advertise_addr@ == s.workers[node].advertise_addr
                &&& views@[i].alive <==> s.workers[node].state == WorkerState::Alive
                &&& views@[i].slots == s.workers[node].slots
                &&& views@[i].free_slots == s.workers[node].free_slots
                &&& views@[i].resources@ == s.workers[node].total
                &&& views@[i].available@ == s.workers[node].available
            },
{
    let views = reply->Client_0->Workers_0;
    let nodes = choose|nodes: Seq<NodeId>| #[trigger] lists_workers(s, nodes, views@);
    assert(nodes.to_set().contains(node));
    nodes.unique_seq_to_set();
    let i = nodes.index_of(node);
    assert(worker_view_of(views@[i], s, nodes[i]));
}

/// Room is reserved only for an object that can not be had yet; of one that can, the
/// client is told at once, and nothing changes.
pub proof fn law_room_is_reserved_only_if_needed(
    before: ServerModel,
    after: ServerModel,
    id: ObjectId,
    codec: Codec,
    size_bytes: u64,
    checksum: [u8; 32],
    mode: ArenaWriteMode,
    now: u64,
    reply: RpcReply,
)
    requires
        client_reserve_met(before, after, id, codec, size_bytes, checksum, mode, now, reply),
    ensures
        after.state == before.state,
        reply is Client,
        before.state.unresolved(id) is None ==> after == before && (reply matches RpcReply::Client(
            ClientReply::Object(payload),
        ) && payload.id == id),
        before.state.unresolved(id) is Some ==> reply->Client_0 is ArenaReserved || reply->Client_0 is Error,
        reply matches RpcReply::Client(ClientReply::ArenaReserved { id: reserved, offset, reservation }) ==> reserved
            == id,
{
}

/// A client that asks to cancel is told that it was done exactly when the task's record
/// allows it, and else why not; nothing but the coordinator's records changes.
pub proof fn law_cancel_is_answered(before: ServerModel, after: ServerModel, id: TaskId, reply: RpcReply)
    requires
        client_cancel_met(before, after, id, reply),
    ensures
        after.arena == before.arena,
        reply is Client && (reply->Client_0 is Cancelled || reply->Client_0 is Error),
        !before.state.tasks.contains_key(id) ==> after == before && (reply matches RpcReply::Client(
            ClientReply::Error(error),
        ) && error@ == ErrorModel::TaskNotFound(id)),
        reply->Client_0 is Error ==> after == before,
{
}

/// A client that connects learns the epoch that its mutations have to name, and in which
/// arena the coordinator keeps its objects; nothing changes.
pub proof fn law_connecting_client_learns_the_epoch<F: Fn(&Result<ObjectPayload, Error>) -> u64>(
    before: ServerModel,
    after: ServerModel,
    memory: Seq<u8>,
    memory_after: Seq<u8>,
    now: u64,
    base: u64,
    size_of: F,
    reply: RpcReply,
)
    requires
        dispatch_met(
            before,
            after,
            memory,
            memory_after,
            RpcRequest::Client(ClientRequest::Connect),
            now,
            base,
            size_of,
            reply,
        ),
    ensures
        after == before,
        memory_after == memory,
        reply matches RpcReply::Client(ClientReply::Connected { coordinator_epoch, arena_token }) && coordinator_epoch
            == before.state.epoch && arena_token@ == before.token,
{
}

/// What a registered worker reports is accepted and done: a heartbeat renews its lease, a
/// worker that drains gets no more work, and a task that it was given and starts on is
/// running. Only the records change.
pub proof fn law_reports_are_acted_on(
    before: ServerModel,
    after: ServerModel,
    request: WorkerRequest,
    identity: WorkerIdentity,
    fence: TaskFence,
    now: u64,
    reply: RpcReply,
)
    requires
        before.state.wf(),
        worker_met(before, after, request, now, reply),
        identity.coordinator_epoch == before.state.epoch,
        before.state.workers.contains_key(identity.node_id),
        before.state.workers[identity.node_id].identity == identity,
    ensures
        request == WorkerRequest::Heartbeat(identity) ==> {
            &&& reply matches RpcReply::Worker(WorkerReply::Accepted)
            &&& now + before.lease_ms <= u64::MAX ==> after.state.workers[identity.node_id].lease_deadline_ms == now
                + before.lease_ms
            &&& after.state.workers[identity.node_id].state == before.state.workers[identity.node_id].state
        },
        request == WorkerRequest::Drain(identity) ==> {
            &&& reply matches RpcReply::Worker(WorkerReply::Accepted)
            &&& after.state.workers[identity.node_id].state == WorkerState::Draining
            &&& after.state.tasks == before.state.tasks
        },
        request == (WorkerRequest::Started { identity, fence }) && before.state.tasks.contains_key(fence.task_id)
            && before.state.tasks[fence.task_id].assigned == Some(
            (identity.node_id, identity.worker_epoch, identity.session_id, fence.lease_id),
        ) && before.state.tasks[fence.task_id].attempt == fence.attempt && before.state.tasks[fence.task_id].state
            is Assigned ==> {
            &&& reply matches RpcReply::Worker(WorkerReply::Accepted)
            &&& after.state.tasks[fence.task_id].state is Running
        },
        request is Heartbeat || request is Drain || request is Started ==> after.arena == before.arena,
{
    assert(before.state.worker_ok(identity.node_id));
}

/// An object in the arena that is too large for one message is not sent to another
/// machine as a whole; one that is not is sent with its bytes.
pub proof fn law_whole_objects_fit_a_message(s: ServerModel, memory: Seq<u8>, id: ObjectId, reply: RpcReply)
    requires
        get_local_met(s, memory, id, reply),
        s.state.unresolved(id) is None,
        s.arena.live.contains_key(id),
        s.arena.live[id].committed,
        s.state.objects[id].bytes is None,
    ensures
        s.arena.live[id].size <= 8_323_072 ==> (reply matches RpcReply::Client(ClientReply::Object(payload))
            && payload.id == id && payload.arena is None && shared_view(payload.bytes) == Some(
            memory.subrange(
                s.arena.live[id].offset as int,
                s.arena.live[id].offset + s.arena.live[id].size,
            ),
        )),
        s.arena.live[id].size > 8_323_072 ==> (reply matches RpcReply::Client(ClientReply::Error(Error::Protocol(_)))),
{
}

} // verus!
