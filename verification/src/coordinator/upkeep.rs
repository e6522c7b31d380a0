//! What becomes of objects and workers: puts, reads and releases, registrations and
//! leases, and the clearing away of what is finished or lost.
use vstd::prelude::*;
use vstd::utf8::encode_utf8;

use crate::coordinator::laws::{lemma_bump_sound, lemma_orphan_run, lemma_orphaned, lemma_stamped_wf};
use crate::coordinator::machine::{lemma_drop_run_wf, lemma_forget_run, lemma_settles_frame};
use crate::coordinator::model::{
    held_weight, lost_weight, object_weight, phase_weight, Fate, Model, ObjectModel, Phase, RegisterModel, TaskModel,
    WorkerModel,
};
use crate::coordinator::outcomes::law_backoff_doubles;
use crate::coordinator::promises::law_expiry_drops_exactly_the_late;
use crate::coordinator::reports::lemma_listed_agrees;
use crate::coordinator::{
    counted, meets, put_met, registration_met, resolved, shared_view, HealthCounts, ObjectState, PutOutcome,
    WorkerExpiry, WorkerState,
};
use crate::error::{Error, ErrorModel};
use crate::ids::{NodeId, ObjectId, TaskId, WorkerSessionId};
use crate::operation::{by_key, ArgModel, Codec, DescriptorModel, KeyModel};
use crate::protocol::{addr_ok, ObjectPayload, WorkerIdentity};
use crate::sums::{lemma_sum_grows, lemma_sum_insert, sum};

verus! {

// ---- Objects ----

/// What was put is stored under the digest of its content, with its codec and bytes,
/// and anyone who asks for it afterwards gets it back as it was put.
pub proof fn law_put_can_be_read(
    s: Model,
    n: Model,
    codec: Codec,
    bytes: Seq<u8>,
    digest: [u8; 32],
    r: Result<PutOutcome, Error>,
    answer: Result<ObjectPayload, Error>,
)
    requires
        put_met(s, n, codec, bytes, digest, r),
        !s.objects.contains_key(ObjectId(digest)),
        s.objects.dom().len() < 65_536,
        bytes.len() <= u64::MAX,
        resolved(n, ObjectId(digest), answer),
    ensures
        r is Ok,
        n == (Model { objects: s.objects.insert(ObjectId(digest), n.objects[ObjectId(digest)]), revision: s.revision + 1, ..s }),
        answer matches Ok(payload) && {
            &&& payload.id == ObjectId(digest)
            &&& payload.codec == codec
            &&& payload.size_bytes == bytes.len()
            &&& payload.checksum == digest
            &&& shared_view(payload.bytes) == Some(bytes)
            &&& payload.location@ == "coordinator"@
        },
{
}

/// An object under an id that is taken is accepted, and changes nothing, exactly if
/// it is there already with the same codec, size and digest; and a new one is refused
/// where the table is full.
pub proof fn law_put_agrees_with_what_is_there(
    s: Model,
    n: Model,
    id: ObjectId,
    codec: Codec,
    size_bytes: u64,
    checksum: [u8; 32],
    bytes: Option<Seq<u8>>,
    r: Result<(), ErrorModel>,
)
    requires
        meets(s.admitted(id, codec, size_bytes, checksum, bytes), s, n, r),
    ensures
        s.objects.contains_key(id) ==> n == s && (r is Ok <==> s.objects[id].state == ObjectState::Available
            && s.objects[id].codec == Some(codec) && s.objects[id].size_bytes == Some(size_bytes)
            && s.objects[id].checksum == Some(checksum)),
        s.objects.contains_key(id) && r is Err ==> r->Err_0 == ErrorModel::ObjectConflict(id),
        !s.objects.contains_key(id) ==> (r is Ok <==> s.objects.dom().len() < 65_536),
        !s.objects.contains_key(id) && r is Err ==> n == s && r->Err_0 is CapacityExceeded,
        !s.objects.contains_key(id) && r is Ok ==> n == (Model {
            objects: s.objects.insert(
                id,
                ObjectModel {
                    id,
                    state: ObjectState::Available,
                    codec: Some(codec),
                    bytes,
                    size_bytes: Some(size_bytes),
                    checksum: Some(checksum),
                    location: Some("coordinator"@),
                    owner: None,
                },
            ),
            revision: s.revision + 1,
            ..s
        }),
{
}

/// Whoever asks for an object gets it where it is available, and is told otherwise
/// that it is still to come, that it is lost, or that it is not to be had.
pub proof fn law_readers_learn_where_an_object_is(s: Model, id: ObjectId, r: Result<ObjectPayload, Error>)
    requires
        resolved(s, id, r),
    ensures
        r is Ok <==> s.objects.contains_key(id) && s.objects[id].state == ObjectState::Available,
        s.objects.contains_key(id) && s.objects[id].state == ObjectState::Reserved ==> r->Err_0@
            == ErrorModel::ObjectPending(id),
        s.objects.contains_key(id) && s.objects[id].state == ObjectState::Lost ==> r->Err_0@
            == ErrorModel::ObjectLost(id),
        !s.objects.contains_key(id) || s.objects[id].state == ObjectState::Failed || s.objects[id].state
            == ObjectState::Cancelled ==> r->Err_0@ == ErrorModel::Protocol("object unavailable"@),
        r matches Ok(payload) ==> {
            &&& payload.id == id
            &&& Some(payload.codec) == s.objects[id].codec
            &&& Some(payload.size_bytes) == s.objects[id].size_bytes
            &&& Some(payload.checksum) == s.objects[id].checksum
            &&& Some(payload.location@) == s.objects[id].location
            &&& shared_view(payload.bytes) == s.objects[id].bytes
        },
{
}

/// An object is released unless it is still to come or some task that is not over
/// takes it. It then leaves the table, its producer leaves with it, and the worker
/// that owns it, if one does, is to delete it, after what it was to delete already.
pub proof fn law_release_drops_what_nobody_needs(s: Model, n: Model, id: ObjectId, r: Result<(), ErrorModel>)
    requires
        s.wf(),
        meets(s.object_released(id), s, n, r),
    ensures
        !s.objects.contains_key(id) ==> r is Ok && n == s,
        r is Err <==> s.objects.contains_key(id) && (s.objects[id].state == ObjectState::Reserved || exists|
            task: TaskId,
        | #[trigger]
            s.tasks.contains_key(task) && !(s.tasks[task].state is Succeeded || s.tasks[task].state is Failed
                || s.tasks[task].state is Cancelled) && s.tasks[task].args.contains(ArgModel::Object(id))),
        r is Err ==> n == s && r->Err_0 == ErrorModel::ObjectInUse(id),
        s.objects.contains_key(id) && r is Ok ==> {
            &&& n.objects == s.objects.remove(id)
            &&& forall|task: TaskId| #[trigger]
                n.tasks.contains_key(task) <==> s.tasks.contains_key(task) && s.tasks[task].output != id
            &&& forall|task: TaskId| #[trigger] n.tasks.contains_key(task) ==> n.tasks[task] == s.tasks[task]
            &&& s.objects[id].owner is None ==> n.pending_deletes == s.pending_deletes
            &&& s.objects[id].owner matches Some(owner) ==> n.pending_deletes == s.pending_deletes.insert(
                owner,
                if s.pending_deletes.contains_key(owner) {
                    s.pending_deletes[owner].push(id)
                } else {
                    seq![id]
                },
            )
            &&& n == Model {
                objects: n.objects,
                tasks: n.tasks,
                pending_deletes: n.pending_deletes,
                revision: s.revision + 1,
                ..s
            }
        },
{
    if s.objects.contains_key(id) {
        assert(s.object_ok(id));
    }
    if s.in_use(id) {
        let task = choose|task: TaskId| #[trigger]
            s.tasks.contains_key(task) && s.tasks[task].live() && s.tasks[task].depends_on(id);
        assert(s.tasks.contains_key(task) && !(s.tasks[task].state is Succeeded || s.tasks[task].state is Failed
            || s.tasks[task].state is Cancelled) && s.tasks[task].args.contains(ArgModel::Object(id)));
    }
    if exists|task: TaskId| #[trigger]
        s.tasks.contains_key(task) && !(s.tasks[task].state is Succeeded || s.tasks[task].state is Failed
            || s.tasks[task].state is Cancelled) && s.tasks[task].args.contains(ArgModel::Object(id)) {
        let task = choose|task: TaskId| #[trigger]
            s.tasks.contains_key(task) && !(s.tasks[task].state is Succeeded || s.tasks[task].state is Failed
                || s.tasks[task].state is Cancelled) && s.tasks[task].args.contains(ArgModel::Object(id));
        assert(s.tasks.contains_key(task) && s.tasks[task].live() && s.tasks[task].depends_on(id));
    }
}

// ---- Workers ----

/// The descriptors are valid, and no two of them, nor any of them and one that is
/// registered, say different things of one operation.
pub open spec fn descriptors_fine(s: Model, list: Seq<DescriptorModel>) -> bool {
    &&& forall|i: int| 0 <= i < list.len() ==> (#[trigger] list[i]).validated() is Ok
    &&& forall|i: int, j: int|
        0 <= i < list.len() && 0 <= j < list.len() && (#[trigger] list[i]).key == (#[trigger] list[j]).key ==> list[i]
            == list[j]
    &&& forall|i: int|
        0 <= i < list.len() && s.operations.contains_key((#[trigger] list[i]).key) ==> s.operations[list[i].key]
            == list[i]
}

proof fn lemma_by_key(list: Seq<DescriptorModel>, key: KeyModel)
    ensures
        by_key(list).contains_key(key) <==> exists|i: int| 0 <= i < list.len() && (#[trigger] list[i]).key == key,
        by_key(list).contains_key(key) ==> exists|i: int|
            0 <= i < list.len() && (#[trigger] list[i]).key == key && by_key(list)[key] == list[i],
    decreases list.len(),
{
    if list.len() > 0 {
        let rest = list.drop_last();
        lemma_by_key(rest, key);
        if list.last().key == key {
            assert(list[list.len() - 1].key == key);
        } else if by_key(rest).contains_key(key) {
            let i = choose|i: int|
                0 <= i < rest.len() && (#[trigger] rest[i]).key == key && by_key(rest)[key] == rest[i];
            assert(list[i].key == key);
        } else if exists|i: int| 0 <= i < list.len() && (#[trigger] list[i]).key == key {
            let i = choose|i: int| 0 <= i < list.len() && (#[trigger] list[i]).key == key;
            assert(rest[i].key == key);
        }
    }
}

proof fn lemma_descriptors_fine(s: Model, list: Seq<DescriptorModel>)
    ensures
        descriptors_fine(s, list) <==> s.descriptors_fault(list) is None,
    decreases list.len(),
{
    if list.len() > 0 {
        let rest = list.drop_last();
        let last = list.last();
        lemma_descriptors_fine(s, rest);
        lemma_by_key(rest, last.key);
        if descriptors_fine(s, list) {
            assert forall|i: int| 0 <= i < rest.len() implies (#[trigger] rest[i]).validated() is Ok by {
                assert(list[i] == rest[i]);
            }
            assert forall|i: int, j: int|
                0 <= i < rest.len() && 0 <= j < rest.len() && (#[trigger] rest[i]).key == (
                #[trigger] rest[j]).key implies rest[i] == rest[j] by {
                assert(list[i] == rest[i] && list[j] == rest[j]);
            }
            assert forall|i: int|
                0 <= i < rest.len() && s.operations.contains_key((#[trigger] rest[i]).key) implies s.operations[rest[i].key]
                == rest[i] by {
                assert(list[i] == rest[i]);
            }
            assert(list[list.len() - 1].validated() is Ok);
            if by_key(rest).contains_key(last.key) {
                let i = choose|i: int|
                    0 <= i < rest.len() && (#[trigger] rest[i]).key == last.key && by_key(rest)[last.key] == rest[i];
                assert(list[i] == list[list.len() - 1]);
            }
        }
        if s.descriptors_fault(list) is None {
            assert forall|i: int| 0 <= i < list.len() implies (#[trigger] list[i]).validated() is Ok by {
                if i < rest.len() {
                    assert(list[i] == rest[i]);
                }
            }
            assert forall|i: int, j: int|
                0 <= i < list.len() && 0 <= j < list.len() && (#[trigger] list[i]).key == (
                #[trigger] list[j]).key implies list[i] == list[j] by {
                lemma_listed_agrees(s, list, i);
                lemma_listed_agrees(s, list, j);
            }
            assert forall|i: int|
                0 <= i < list.len() && s.operations.contains_key((#[trigger] list[i]).key) implies s.operations[list[i].key]
                == list[i] by {
                if i < rest.len() {
                    assert(list[i] == rest[i]);
                }
            }
        }
    }
}

/// A worker at a node that is not registered is accepted exactly if its address is
/// one, it has a slot, and its descriptors are fine. It is then alive with all its
/// slots and resources free, offers exactly what it listed, is known under a fresh
/// session, and has its first lease.
pub proof fn law_new_worker_is_registered(
    s: Model,
    n: Model,
    request: RegisterModel,
    session: WorkerSessionId,
    now: u64,
    lease_ms: u64,
    r: Result<WorkerIdentity, Error>,
    key: KeyModel,
)
    requires
        s.wf(),
        !s.workers.contains_key(request.node_id),
        registration_met(s, n, request, session, now, lease_ms, r),
    ensures
        r is Ok <==> addr_ok(encode_utf8(request.advertise_addr)) && request.slots > 0 && descriptors_fine(
            s,
            request.operations,
        ),
        r is Err ==> n == s,
        r matches Ok(identity) ==> {
            &&& identity.node_id == request.node_id
            &&& identity.worker_epoch == request.worker_epoch
            &&& identity.session_id == session
            &&& identity.coordinator_epoch == s.epoch
            &&& n.workers == s.workers.insert(
                request.node_id,
                WorkerModel {
                    identity,
                    state: WorkerState::Alive,
                    advertise_addr: request.advertise_addr,
                    total: request.resources,
                    available: request.resources,
                    slots: request.slots,
                    free_slots: request.slots,
                    operations: n.workers[request.node_id].operations,
                    lease_deadline_ms: n.workers[request.node_id].lease_deadline_ms,
                },
            )
            &&& n.workers[request.node_id].lease_deadline_ms == if now + lease_ms <= u64::MAX {
                now + lease_ms
            } else {
                u64::MAX as int
            }
            &&& n.workers[request.node_id].operations.contains_key(key) <==> exists|i: int|
                0 <= i < request.operations.len() && (#[trigger] request.operations[i]).key == key
            &&& n.workers[request.node_id].operations.contains_key(key) ==> n.operations.contains_key(key)
                && n.operations[key] == n.workers[request.node_id].operations[key]
            &&& s.operations.contains_key(key) ==> n.operations.contains_key(key) && n.operations[key]
                == s.operations[key]
            &&& n.operations.contains_key(key) ==> s.operations.contains_key(key)
                || n.workers[request.node_id].operations.contains_key(key)
            &&& n == Model { workers: n.workers, operations: n.operations, revision: s.revision + 1, ..s }
        },
        forall|i: int|
            r is Ok && 0 <= i < request.operations.len() ==> n.workers[request.node_id].operations[(
            #[trigger] request.operations[i]).key] == request.operations[i],
{
    lemma_descriptors_fine(s, request.operations);
    lemma_by_key(request.operations, key);
    if r is Ok {
        crate::coordinator::laws::lemma_descriptors(s, request.operations);
        assert forall|i: int|
            0 <= i < request.operations.len() implies n.workers[request.node_id].operations[(
        #[trigger] request.operations[i]).key] == request.operations[i] by {
            lemma_listed_agrees(s, request.operations, i);
        }
    }
}

/// A worker that is registered and registers again is recognised, and its lease
/// renewed, exactly if it says what it said before; it is refused otherwise.
pub proof fn law_known_worker_registers_again(
    s: Model,
    n: Model,
    request: RegisterModel,
    session: WorkerSessionId,
    now: u64,
    lease_ms: u64,
    r: Result<WorkerIdentity, Error>,
)
    requires
        s.wf(),
        s.workers.contains_key(request.node_id),
        registration_met(s, n, request, session, now, lease_ms, r),
    ensures
        r is Ok <==> {
            let worker = s.workers[request.node_id];
            &&& addr_ok(encode_utf8(request.advertise_addr))
            &&& request.slots > 0
            &&& descriptors_fine(s, request.operations)
            &&& request.worker_epoch == worker.identity.worker_epoch
            &&& request.advertise_addr == worker.advertise_addr
            &&& request.resources == worker.total
            &&& request.slots == worker.slots
            &&& by_key(request.operations) == worker.operations
        },
        r is Err ==> n == s,
        r matches Ok(identity) ==> {
            &&& identity == s.workers[request.node_id].identity
            &&& n.workers[request.node_id].lease_deadline_ms == if now + lease_ms <= u64::MAX {
                now + lease_ms
            } else {
                u64::MAX as int
            }
            &&& n == Model {
                workers: s.workers.insert(
                    request.node_id,
                    WorkerModel {
                        lease_deadline_ms: n.workers[request.node_id].lease_deadline_ms,
                        ..s.workers[request.node_id]
                    },
                ),
                revision: s.revision + 1,
                ..s
            }
        },
{
    lemma_descriptors_fine(s, request.operations);
    assert(s.worker_ok(request.node_id));
}

/// A worker that drains keeps what it has and what it holds, and only gets no more.
pub proof fn law_drain_only_stops_new_work(s: Model, n: Model, identity: WorkerIdentity, r: Result<(), ErrorModel>)
    requires
        s.wf(),
        meets(s.draining(identity), s, n, r),
    ensures
        r is Ok <==> identity.coordinator_epoch == s.epoch && s.workers.contains_key(identity.node_id)
            && s.workers[identity.node_id].identity == identity,
        r is Err ==> n == s && r->Err_0 == ErrorModel::StaleFence,
        r is Ok ==> n == (Model {
            workers: s.workers.insert(
                identity.node_id,
                WorkerModel { state: WorkerState::Draining, ..s.workers[identity.node_id] },
            ),
            revision: s.revision + 1,
            ..s
        }),
{
    if s.workers.contains_key(identity.node_id) {
        assert(s.worker_ok(identity.node_id));
    }
}

// ---- Expiry ----

proof fn lemma_orphan_counts(s: Model, node: NodeId, ids: Seq<TaskId>, now: u64)
    requires
        s.consistent(),
        s.balanced_except(set![node]),
        ids.no_duplicates(),
        forall|i: int| 0 <= i < ids.len() ==> s.tasks.contains_key(#[trigger] ids[i]) && s.tasks[ids[i]].on_node(node),
    ensures
        s.orphan_run(ids, now).retries_total == s.retries_total + s.count(ids, Fate::Retried),
        s.orphan_run(ids, now).failures_total == s.failures_total + s.count(ids, Fate::Failed),
        s.count(ids, Fate::Retried) + s.count(ids, Fate::Failed) + s.count(ids, Fate::Cancelled) == ids.len(),
    decreases ids.len(),
{
    if ids.len() > 0 {
        let rest = ids.drop_last();
        let last = ids.last();
        assert forall|i: int| 0 <= i < rest.len() implies s.tasks.contains_key(#[trigger] rest[i]) && s.tasks[rest[i]].on_node(
            node,
        ) by {
            assert(ids[i] == rest[i]);
        }
        lemma_orphan_counts(s, node, rest, now);
        lemma_orphan_run(s, node, rest, now);
        let m = s.orphan_run(rest, now);
        assert(ids[ids.len() - 1] == last);
        assert(!rest.contains(last));
        assert(m.tasks[last] == s.tasks[last]);
    }
}

/// The report on a lost worker adds up: the tasks that it held and nobody holds any
/// more are those retried, failed and cancelled, and the running totals grow by the
/// first two.
pub proof fn law_expiry_report_adds_up(s: Model, n: Model, now: u64, report: WorkerExpiry)
    requires
        s.sound(),
        s.forgets(n, now, report),
    ensures
        report.retried + report.failed + report.cancelled == sum(s.tasks, held_weight()) - sum(n.tasks, held_weight()),
        n.retries_total == s.retries_total + report.retried,
        n.failures_total == s.failures_total + report.failed,
{
    let node = report.node;
    let ids = choose|ids: Seq<TaskId>| #[trigger]
        s.holds_exactly(node, ids) && n == s.forgotten(node, ids, now) && report.retried == s.count(
            ids,
            Fate::Retried,
        ) && report.failed == s.count(ids, Fate::Failed) && report.cancelled == s.count(ids, Fate::Cancelled);
    assert forall|i: int| 0 <= i < ids.len() implies s.tasks.contains_key(#[trigger] ids[i]) && s.tasks[ids[i]].on_node(
        node,
    ) by {
        assert(ids.contains(ids[i]));
    }
    assert(s.balanced_except(set![node]));
    lemma_orphan_run(s, node, ids, now);
    lemma_orphan_counts(s, node, ids, now);
}

/// The node of the worker that holds the task.
pub open spec fn holder(task: TaskModel) -> NodeId {
    let held = task.assigned->0;
    held.0
}

/// The record of a task after its worker was lost at `now`.
pub open spec fn bereft(task: TaskModel, now: u64) -> TaskModel {
    if task.state is CancelRequested {
        TaskModel { state: Phase::Cancelled, assigned: None, ..task }
    } else if task.attempt.0 < task.max_attempts {
        let wait = crate::coordinator::model::backoff(task.attempt.0 as int);
        TaskModel {
            state: Phase::Runnable,
            assigned: None,
            not_before_ms: if now + wait <= u64::MAX {
                (now + wait) as u64
            } else {
                u64::MAX
            },
            ..task
        }
    } else {
        TaskModel { state: Phase::Failed("worker lease expired"@), assigned: None, ..task }
    }
}

proof fn lemma_orphan_records(s: Model, node: NodeId, ids: Seq<TaskId>, now: u64, id: TaskId)
    requires
        s.consistent(),
        s.balanced_except(set![node]),
        ids.no_duplicates(),
        forall|i: int| 0 <= i < ids.len() ==> s.tasks.contains_key(#[trigger] ids[i]) && s.tasks[ids[i]].on_node(node),
        ids.contains(id),
    ensures
        s.orphan_run(ids, now).tasks[id] == bereft(s.tasks[id], now),
    decreases ids.len(),
{
    let rest = ids.drop_last();
    let last = ids.last();
    assert forall|i: int| 0 <= i < rest.len() implies s.tasks.contains_key(#[trigger] rest[i]) && s.tasks[rest[i]].on_node(
        node,
    ) by {
        assert(ids[i] == rest[i]);
    }
    lemma_orphan_run(s, node, rest, now);
    let m = s.orphan_run(rest, now);
    assert(ids[ids.len() - 1] == last);
    assert(!rest.contains(last));
    assert(m.tasks[last] == s.tasks[last]);
    assert(m.tasks.dom().contains(last));
    if id != last {
        let i = ids.index_of(id);
        assert(rest[i] == id);
        lemma_orphan_records(s, node, rest, now, id);
        lemma_orphaned(m, node, last, now);
    }
}

proof fn lemma_orphan_objects(s: Model, node: NodeId, ids: Seq<TaskId>, now: u64, o: ObjectId)
    requires
        s.consistent(),
        s.balanced_except(set![node]),
        ids.no_duplicates(),
        forall|i: int| 0 <= i < ids.len() ==> s.tasks.contains_key(#[trigger] ids[i]) && s.tasks[ids[i]].on_node(node),
        s.objects.contains_key(o),
        s.objects[o].state == ObjectState::Available || s.objects[o].state == ObjectState::Lost,
    ensures
        s.orphan_run(ids, now).objects[o] == s.objects[o],
    decreases ids.len(),
{
    if ids.len() > 0 {
        let rest = ids.drop_last();
        let last = ids.last();
        assert forall|i: int| 0 <= i < rest.len() implies s.tasks.contains_key(#[trigger] rest[i]) && s.tasks[rest[i]].on_node(
            node,
        ) by {
            assert(ids[i] == rest[i]);
        }
        lemma_orphan_objects(s, node, rest, now, o);
        lemma_orphan_run(s, node, rest, now);
        let m = s.orphan_run(rest, now);
        assert(ids[ids.len() - 1] == last);
        assert(!rest.contains(last));
        assert(m.tasks[last] == s.tasks[last]);
        assert(m.tasks.dom().contains(last));
        assert(m.task_ok(last));
    }
}

proof fn lemma_orphans_lose_nothing(s: Model, node: NodeId, ids: Seq<TaskId>, now: u64, o: ObjectId)
    requires
        s.consistent(),
        s.balanced_except(set![node]),
        ids.no_duplicates(),
        forall|i: int| 0 <= i < ids.len() ==> s.tasks.contains_key(#[trigger] ids[i]) && s.tasks[ids[i]].on_node(node),
        s.objects.contains_key(o),
    ensures
        s.orphan_run(ids, now).objects[o].state == ObjectState::Lost <==> s.objects[o].state == ObjectState::Lost,
    decreases ids.len(),
{
    if ids.len() > 0 {
        let rest = ids.drop_last();
        let last = ids.last();
        assert forall|i: int| 0 <= i < rest.len() implies s.tasks.contains_key(#[trigger] rest[i]) && s.tasks[rest[i]].on_node(
            node,
        ) by {
            assert(ids[i] == rest[i]);
        }
        lemma_orphans_lose_nothing(s, node, rest, now, o);
        lemma_orphan_run(s, node, rest, now);
        let m = s.orphan_run(rest, now);
        assert(ids[ids.len() - 1] == last);
        assert(!rest.contains(last));
        assert(m.tasks[last] == s.tasks[last]);
        assert(m.tasks.dom().contains(last));
        assert(m.task_ok(last));
    }
}

/// The report on a lost worker says how many objects were lost: by so many more are
/// lost afterwards.
pub proof fn law_expiry_report_counts_lost_objects(s: Model, n: Model, now: u64, report: WorkerExpiry)
    requires
        s.sound(),
        s.forgets(n, now, report),
    ensures
        report.objects_lost == sum(n.objects, object_weight(ObjectState::Lost)) - sum(
            s.objects,
            object_weight(ObjectState::Lost),
        ),
{
    let node = report.node;
    let ids = choose|ids: Seq<TaskId>| #[trigger]
        s.holds_exactly(node, ids) && n == s.forgotten(node, ids, now) && report.objects_lost == sum(
            s.objects,
            lost_weight(node),
        );
    assert forall|i: int| 0 <= i < ids.len() implies s.tasks.contains_key(#[trigger] ids[i]) && s.tasks[ids[i]].on_node(
        node,
    ) by {
        assert(ids.contains(ids[i]));
    }
    assert(s.balanced_except(set![node]));
    lemma_orphan_run(s, node, ids, now);
    let mid = s.orphan_run(ids, now);
    let weight = object_weight(ObjectState::Lost);
    assert(n.objects.dom() =~= s.objects.dom());
    assert forall|o: ObjectId| #[trigger] s.objects.contains_key(o) implies weight(n.objects[o]) == weight(
        s.objects[o],
    ) + lost_weight(node)(s.objects[o]) by {
        lemma_orphans_lose_nothing(s, node, ids, now, o);
        assert(mid.objects.dom().contains(o));
    }
    lemma_sum_grows(s.objects, n.objects, weight, lost_weight(node));
}

/// One of the first `k` reports is on the worker.
spec fn gone(reports: Seq<WorkerExpiry>, k: int, node: NodeId) -> bool {
    exists|i: int| 0 <= i < k && (#[trigger] reports[i]).node == node
}

proof fn lemma_forgotten_task(s: Model, n: Model, now: u64, report: WorkerExpiry, id: TaskId)
    requires
        s.sound(),
        s.forgets(n, now, report),
        s.tasks.contains_key(id),
    ensures
        n.tasks[id] == if s.tasks[id].on_node(report.node) {
            bereft(s.tasks[id], now)
        } else {
            s.tasks[id]
        },
{
    let node = report.node;
    let ids = choose|ids: Seq<TaskId>| #[trigger]
        s.holds_exactly(node, ids) && n == s.forgotten(node, ids, now);
    assert forall|i: int| 0 <= i < ids.len() implies s.tasks.contains_key(#[trigger] ids[i]) && s.tasks[ids[i]].on_node(
        node,
    ) by {
        assert(ids.contains(ids[i]));
    }
    assert(s.balanced_except(set![node]));
    lemma_orphan_run(s, node, ids, now);
    if s.tasks[id].on_node(node) {
        assert(ids.contains(id));
        lemma_orphan_records(s, node, ids, now, id);
    } else {
        assert(!ids.contains(id));
    }
}

proof fn lemma_forgotten_object(s: Model, n: Model, now: u64, report: WorkerExpiry, o: ObjectId)
    requires
        s.sound(),
        s.forgets(n, now, report),
        s.objects.contains_key(o),
    ensures
        s.objects[o].state == ObjectState::Available ==> n.objects[o] == if s.objects[o].owner == Some(report.node) {
            ObjectModel { owner: None, location: None, bytes: None, state: ObjectState::Lost, ..s.objects[o] }
        } else {
            s.objects[o]
        },
        s.objects[o].state == ObjectState::Lost ==> n.objects[o] == s.objects[o],
{
    let node = report.node;
    let ids = choose|ids: Seq<TaskId>| #[trigger]
        s.holds_exactly(node, ids) && n == s.forgotten(node, ids, now);
    assert forall|i: int| 0 <= i < ids.len() implies s.tasks.contains_key(#[trigger] ids[i]) && s.tasks[ids[i]].on_node(
        node,
    ) by {
        assert(ids.contains(ids[i]));
    }
    assert(s.balanced_except(set![node]));
    lemma_orphan_run(s, node, ids, now);
    if s.objects[o].state == ObjectState::Available || s.objects[o].state == ObjectState::Lost {
        lemma_orphan_objects(s, node, ids, now, o);
    }
    assert(s.orphan_run(ids, now).objects.dom().contains(o));
}

proof fn lemma_gone_next(reports: Seq<WorkerExpiry>, k: int, node: NodeId)
    requires
        0 < k <= reports.len(),
    ensures
        gone(reports, k, node) <==> gone(reports, k - 1, node) || node == reports[k - 1].node,
{
    if gone(reports, k, node) {
        let i = choose|i: int| 0 <= i < k && (#[trigger] reports[i]).node == node;
        if i < k - 1 {
            assert(reports[i].node == node);
        }
    }
    if gone(reports, k - 1, node) {
        let i = choose|i: int| 0 <= i < k - 1 && (#[trigger] reports[i]).node == node;
        assert(reports[i].node == node);
    }
}

proof fn lemma_next_is_forgotten(s: Model, states: Seq<Model>, now: u64, reports: Seq<WorkerExpiry>, k: int)
    requires
        s.wf(),
        s.forget_run(states, now, reports),
        s.covers_lapsed(now, reports),
        0 < k < states.len(),
    ensures
        states[k - 1].sound(),
        states[k - 1].tasks.dom() == s.tasks.dom(),
        states[k - 1].objects.dom() == s.objects.dom(),
        states[k - 1].workers.contains_key(reports[k - 1].node),
        states[k - 1].forgets(states[k], now, reports[k - 1]),
{
    lemma_forget_run(s, states, now, reports, k - 1);
    assert(states[k - 1].forgets(states[k - 1 + 1], now, reports[k - 1]));
    assert(s.lapsed(reports[k - 1].node, now));
    assert(!(exists|i: int| 0 <= i < k - 1 && (#[trigger] reports[i]).node == reports[k - 1].node));
}

proof fn lemma_expired_task(
    s: Model,
    states: Seq<Model>,
    now: u64,
    reports: Seq<WorkerExpiry>,
    k: int,
    id: TaskId,
)
    requires
        s.wf(),
        s.forget_run(states, now, reports),
        s.covers_lapsed(now, reports),
        0 <= k < states.len(),
        s.tasks.contains_key(id),
    ensures
        states[k].tasks[id] == if s.tasks[id].assigned is Some && gone(reports, k, holder(s.tasks[id])) {
            bereft(s.tasks[id], now)
        } else {
            s.tasks[id]
        },
    decreases k,
{
    if k > 0 {
        lemma_expired_task(s, states, now, reports, k - 1, id);
        lemma_next_is_forgotten(s, states, now, reports, k);
        lemma_gone_next(reports, k, holder(s.tasks[id]));
        let before = states[k - 1];
        assert(before.tasks.dom().contains(id));
        lemma_forgotten_task(before, states[k], now, reports[k - 1], id);
        assert(bereft(s.tasks[id], now).assigned is None);
    } else {
        assert(states[0] == s);
    }
}

proof fn lemma_expired_object(
    s: Model,
    states: Seq<Model>,
    now: u64,
    reports: Seq<WorkerExpiry>,
    k: int,
    o: ObjectId,
)
    requires
        s.wf(),
        s.forget_run(states, now, reports),
        s.covers_lapsed(now, reports),
        0 <= k < states.len(),
        s.objects.contains_key(o),
        s.objects[o].state == ObjectState::Available,
    ensures
        states[k].objects[o] == if s.objects[o].owner is Some && gone(reports, k, s.objects[o].owner->0) {
            ObjectModel { owner: None, location: None, bytes: None, state: ObjectState::Lost, ..s.objects[o] }
        } else {
            s.objects[o]
        },
    decreases k,
{
    if k > 0 {
        lemma_expired_object(s, states, now, reports, k - 1, o);
        lemma_next_is_forgotten(s, states, now, reports, k);
        lemma_gone_next(reports, k, s.objects[o].owner->0);
        let before = states[k - 1];
        assert(before.objects.dom().contains(o));
        lemma_forgotten_object(before, states[k], now, reports[k - 1], o);
    } else {
        assert(states[0] == s);
    }
}

/// When a worker's lease has run out, each task that it held is cancelled if it was
/// asked back, queued again while it has attempts left, no sooner than its backoff
/// allows, and failed otherwise; and each object that it owned is lost. Tasks that a
/// worker within its lease holds, and objects that it owns or that nobody does, are as
/// they were.
pub proof fn law_expiry_takes_only_from_the_late(
    s: Model,
    n: Model,
    now: u64,
    reports: Seq<WorkerExpiry>,
    id: TaskId,
    o: ObjectId,
)
    requires
        s.wf(),
        s.expires_to(n, now, reports),
    ensures
        s.tasks.contains_key(id) && s.tasks[id].assigned is Some && now
            >= s.workers[holder(s.tasks[id])].lease_deadline_ms ==> {
            let task = s.tasks[id];
            &&& n.tasks[id].assigned is None
            &&& n.tasks[id].attempt == task.attempt
            &&& task.state is CancelRequested ==> n.tasks[id].state is Cancelled
            &&& !(task.state is CancelRequested) && task.attempt.0 < task.max_attempts ==> n.tasks[id].state is Runnable
            &&& !(task.state is CancelRequested) && 1 <= task.attempt.0 < task.max_attempts ==> {
                let doubled = 100 * vstd::arithmetic::power2::pow2((task.attempt.0 - 1) as nat);
                let wait = if doubled <= 30_000 {
                    doubled as int
                } else {
                    30_000
                };
                n.tasks[id].not_before_ms == if now + wait <= u64::MAX {
                    now + wait
                } else {
                    u64::MAX as int
                }
            }
            &&& !(task.state is CancelRequested) && task.attempt.0 >= task.max_attempts ==> n.tasks[id].state
                == Phase::Failed("worker lease expired"@)
        },
        s.tasks.contains_key(id) && s.tasks[id].assigned is Some && now
            < s.workers[holder(s.tasks[id])].lease_deadline_ms ==> n.tasks[id] == s.tasks[id],
        s.tasks.contains_key(id) && s.tasks[id].assigned is None && !(s.tasks[id].state is Waiting) ==> n.tasks[id]
            == s.tasks[id],
        s.objects.contains_key(o) && s.objects[o].state == ObjectState::Available && s.objects[o].owner is Some && now
            >= s.workers[s.objects[o].owner->0].lease_deadline_ms ==> n.objects[o] == (ObjectModel {
            owner: None,
            location: None,
            bytes: None,
            state: ObjectState::Lost,
            ..s.objects[o]
        }),
        s.objects.contains_key(o) && s.objects[o].state == ObjectState::Available && (s.objects[o].owner is None || now
            < s.workers[s.objects[o].owner->0].lease_deadline_ms) ==> n.objects[o] == s.objects[o],
{
    if s.tasks.contains_key(id) {
        assert(s.task_ok(id));
        if s.tasks[id].assigned is Some {
            law_expiry_drops_exactly_the_late(s, n, now, reports, holder(s.tasks[id]));
            if s.tasks[id].attempt.0 >= 1 {
                law_backoff_doubles(s.tasks[id].attempt.0 as int);
            }
        }
    }
    if s.objects.contains_key(o) {
        assert(s.object_ok(o));
        if s.objects[o].owner is Some {
            law_expiry_drops_exactly_the_late(s, n, now, reports, s.objects[o].owner->0);
        }
    }
    if reports.len() > 0 {
        let states = choose|states: Seq<Model>| #[trigger]
            s.forget_run(states, now, reports) && states.last().bump().settles_to(n);
        let k = states.len() - 1;
        lemma_forget_run(s, states, now, reports, k);
        let last = states.last();
        lemma_bump_sound(last);
        lemma_settles_frame(last.bump(), n);
        if s.tasks.contains_key(id) {
            lemma_expired_task(s, states, now, reports, k, id);
            assert(last.tasks.dom().contains(id));
            assert(last.task_ok(id));
            assert(last.bump().waiting == last.waiting);
        }
        if s.objects.contains_key(o) && s.objects[o].state == ObjectState::Available {
            lemma_expired_object(s, states, now, reports, k, o);
            assert(last.objects.dom().contains(o));
            assert(last.bump().objects.contains_key(o));
        }
    }
}

// ---- Clearing away ----

/// The task finished, was first seen finished ten minutes ago or more, and no task
/// that is not over takes its output.
pub open spec fn expired(s: Model, id: TaskId, now: u64) -> bool {
    &&& s.tasks[id].state is Succeeded || s.tasks[id].state is Failed || s.tasks[id].state is Cancelled
    &&& s.tasks[id].terminal_since_ms > 0
    &&& now - s.tasks[id].terminal_since_ms >= 600_000
    &&& forall|task: TaskId| #[trigger]
        s.tasks.contains_key(task) && !(s.tasks[task].state is Succeeded || s.tasks[task].state is Failed
            || s.tasks[task].state is Cancelled) ==> !s.tasks[task].args.contains(
            ArgModel::Object(s.tasks[id].output),
        )
}

proof fn lemma_drop_run_tasks(s: Model, outputs: Seq<ObjectId>)
    ensures
        forall|id: TaskId| #[trigger]
            s.drop_run(outputs).tasks.contains_key(id) <==> s.tasks.contains_key(id) && !outputs.contains(
                s.tasks[id].output,
            ),
        forall|id: TaskId| #[trigger]
            s.drop_run(outputs).tasks.contains_key(id) ==> s.drop_run(outputs).tasks[id] == s.tasks[id],
    decreases outputs.len(),
{
    if outputs.len() > 0 {
        let rest = outputs.drop_last();
        lemma_drop_run_tasks(s, rest);
        let m = s.drop_run(rest);
        let n = s.drop_run(outputs);
        assert forall|id: TaskId| #[trigger] n.tasks.contains_key(id) <==> s.tasks.contains_key(id)
            && !outputs.contains(s.tasks[id].output) by {
            let o = s.tasks[id].output;
            if outputs.contains(o) {
                let i = outputs.index_of(o);
                if i < rest.len() {
                    assert(rest[i] == o);
                }
            }
            if rest.contains(o) {
                let i = rest.index_of(o);
                assert(outputs[i] == o);
            }
            if o == outputs.last() {
                assert(outputs[outputs.len() - 1] == o);
            }
            assert(m.tasks.contains_key(id) <==> s.tasks.contains_key(id) && !rest.contains(o));
        }
        assert forall|id: TaskId| #[trigger] n.tasks.contains_key(id) implies n.tasks[id] == s.tasks[id] by {
            assert(m.tasks.contains_key(id));
        }
    }
}

/// Clearing away drops exactly the tasks that finished, were first seen so ten minutes
/// ago or more, and whose output no task that is not over takes; each goes with its
/// output. Every other task stays, marked with the time if it has finished and was not
/// seen so before.
pub proof fn law_only_old_results_are_reaped(s: Model, n: Model, now: u64, count: int, id: TaskId)
    requires
        s.wf(),
        now > 0,
        s.reaps_to(n, now, count),
        s.tasks.contains_key(id),
    ensures
        n.tasks.contains_key(id) <==> !expired(s, id, now),
        n.objects.contains_key(s.tasks[id].output) <==> !expired(s, id, now),
        n.tasks.contains_key(id) ==> n.tasks[id] == (TaskModel {
            terminal_since_ms: if (s.tasks[id].state is Succeeded || s.tasks[id].state is Failed
                || s.tasks[id].state is Cancelled) && s.tasks[id].terminal_since_ms == 0 {
                now
            } else {
                s.tasks[id].terminal_since_ms
            },
            ..s.tasks[id]
        }),
        n.workers == s.workers,
{
    let marked = s.stamped(now);
    let outputs = choose|outputs: Seq<ObjectId>| #[trigger]
        marked.overdue_outputs(now, outputs) && n == marked.drop_run(outputs) && count == outputs.len();
    lemma_stamped_wf(s, now);
    lemma_drop_run_tasks(marked, outputs);
    lemma_drop_run_workers(marked, outputs);
    assert forall|i: int| 0 <= i < outputs.len() implies marked.objects.contains_key(#[trigger] outputs[i])
        && marked.objects[outputs[i]].state != ObjectState::Reserved && !marked.in_use(outputs[i]) by {
        assert(marked.is_overdue_output(now, outputs[i]));
        let t = choose|t: TaskId| #[trigger] marked.overdue(t, now) && marked.tasks[t].output == outputs[i];
        assert(marked.task_ok(t));
    }
    lemma_drop_run_wf(marked, outputs);
    assert(marked.tasks.contains_key(id));
    assert(s.task_ok(id));
    let out = s.tasks[id].output;
    assert(expired(s, id, now) <==> marked.overdue(id, now)) by {
        if marked.in_use(out) {
            let t = choose|t: TaskId| #[trigger]
                marked.tasks.contains_key(t) && marked.tasks[t].live() && marked.tasks[t].depends_on(out);
            assert(s.tasks.contains_key(t));
            assert(s.tasks[t].args.contains(ArgModel::Object(out)));
        }
        if expired(s, id, now) {
            assert(!marked.in_use(out));
        }
        if marked.overdue(id, now) {
            assert forall|t: TaskId| #[trigger]
                s.tasks.contains_key(t) && !(s.tasks[t].state is Succeeded || s.tasks[t].state is Failed
                    || s.tasks[t].state is Cancelled) implies !s.tasks[t].args.contains(ArgModel::Object(out)) by {
                if s.tasks[t].args.contains(ArgModel::Object(out)) {
                    assert(marked.tasks.contains_key(t) && marked.tasks[t].live() && marked.tasks[t].depends_on(out));
                }
            }
        }
    }
    if outputs.contains(out) {
        let i = outputs.index_of(out);
        assert(marked.is_overdue_output(now, outputs[i]));
        let t = choose|t: TaskId| #[trigger] marked.overdue(t, now) && marked.tasks[t].output == out;
        assert(marked.tasks.contains_key(t));
        assert(t == id) by {
            assert(marked.tasks[t].output == marked.tasks[id].output);
        }
    }
    assert(n.tasks.contains_key(id) <==> marked.tasks.contains_key(id) && !outputs.contains(marked.tasks[id].output));
    assert(n.objects.contains_key(out) <==> marked.objects.contains_key(out) && !outputs.contains(out));
}

proof fn lemma_drop_run_workers(s: Model, outputs: Seq<ObjectId>)
    ensures
        s.drop_run(outputs).workers == s.workers,
    decreases outputs.len(),
{
    if outputs.len() > 0 {
        lemma_drop_run_workers(s, outputs.drop_last());
    }
}

// ---- Counts ----

/// One where it holds, and zero otherwise.
pub open spec fn one_if(b: bool) -> int {
    if b {
        1
    } else {
        0
    }
}

/// The health report follows every task from phase to phase: it counts the task as
/// runnable while it is queued, as running from its assignment on until it is over or
/// asked back, and then as succeeded or failed.
pub proof fn law_health_follows_tasks(s: Model, n: Model, a: HealthCounts, b: HealthCounts, id: TaskId)
    requires
        s.wf(),
        s.tasks.contains_key(id),
        n == (Model { tasks: s.tasks.insert(id, n.tasks[id]), ..s }),
        counted(s, a),
        counted(n, b),
    ensures
        b.tasks == a.tasks,
        b.objects == a.objects,
        b.workers == a.workers,
        b.runnable - a.runnable == one_if(n.tasks[id].state is Runnable) - one_if(s.tasks[id].state is Runnable),
        b.running - a.running == one_if(n.tasks[id].state is Assigned || n.tasks[id].state is Running) - one_if(
            s.tasks[id].state is Assigned || s.tasks[id].state is Running,
        ),
        b.succeeded - a.succeeded == one_if(n.tasks[id].state is Succeeded) - one_if(s.tasks[id].state is Succeeded),
        b.failed - a.failed == one_if(n.tasks[id].state is Failed) - one_if(s.tasks[id].state is Failed),
{
    let v = n.tasks[id];
    assert(n.tasks.dom() =~= s.tasks.dom());
    lemma_sum_insert(s.tasks, phase_weight(|p: Phase| p is Runnable), id, v);
    lemma_sum_insert(s.tasks, phase_weight(|p: Phase| p is Running || p is Assigned), id, v);
    lemma_sum_insert(s.tasks, phase_weight(|p: Phase| p is Succeeded), id, v);
    lemma_sum_insert(s.tasks, phase_weight(|p: Phase| p is Failed), id, v);
}

/// The health report follows every object: it counts it as reserved, available or
/// lost, as it is.
pub proof fn law_health_follows_objects(s: Model, n: Model, a: HealthCounts, b: HealthCounts, id: ObjectId)
    requires
        s.wf(),
        s.objects.contains_key(id),
        n == (Model { objects: s.objects.insert(id, n.objects[id]), ..s }),
        counted(s, a),
        counted(n, b),
    ensures
        b.tasks == a.tasks,
        b.objects == a.objects,
        b.available - a.available == one_if(n.objects[id].state == ObjectState::Available) - one_if(
            s.objects[id].state == ObjectState::Available,
        ),
        b.reserved - a.reserved == one_if(n.objects[id].state == ObjectState::Reserved) - one_if(
            s.objects[id].state == ObjectState::Reserved,
        ),
        b.lost - a.lost == one_if(n.objects[id].state == ObjectState::Lost) - one_if(
            s.objects[id].state == ObjectState::Lost,
        ),
{
    let v = n.objects[id];
    assert(n.objects.dom() =~= s.objects.dom());
    lemma_sum_insert(s.objects, object_weight(ObjectState::Available), id, v);
    lemma_sum_insert(s.objects, object_weight(ObjectState::Reserved), id, v);
    lemma_sum_insert(s.objects, object_weight(ObjectState::Lost), id, v);
}

} // verus!
