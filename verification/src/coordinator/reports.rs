//! What holds of reports, retries and releases.
use vstd::prelude::*;

use crate::coordinator::laws::{
    lemma_acknowledged_sound, lemma_fence, lemma_gave_up_sound, lemma_orphan_phases, lemma_orphan_run, lemma_scan,
    lemma_succeeded_sound,
};
use crate::coordinator::machine::lemma_settles_frame;
use crate::coordinator::model::{
    backoff, lemma_power_of_two_grows, CompletionModel, Model, Phase, RegisterModel, Verdict,
};
use crate::coordinator::{ObjectState, WorkerExpiry, RETRY_BACKOFF_BASE_MS, RETRY_BACKOFF_CAP_MS};
use crate::error::ErrorModel;
use crate::ids::{LeaseId, NodeId, ObjectId, TaskId, WorkerSessionId};
use crate::operation::{Codec, KeyModel};
use crate::protocol::{FailureClass, TaskFence, WorkerIdentity};

verus! {

/// A report under a stale identity, lease or attempt changes nothing, and a
/// report that a task runs is refused then.
pub proof fn law_stale_report_changes_nothing(
    s: Model,
    identity: WorkerIdentity,
    fence: TaskFence,
    report: CompletionModel,
    digest: Seq<u8>,
    message: Seq<char>,
    class: FailureClass,
    now: u64,
)
    requires
        s.fence_fault(identity, fence) is Some,
        report.fence == fence,
    ensures
        s.started(identity, fence) is Refused,
        s.completed(identity, report, digest) is Refused || s.completed(identity, report, digest) == Verdict::Next(s),
        s.failed(identity, fence, message, class, now) is Refused || s.failed(identity, fence, message, class, now)
            == Verdict::Next(s),
        s.cancel_acknowledged(identity, fence) is Refused || s.cancel_acknowledged(identity, fence)
            == Verdict::Next(s),
{
}

/// A fence of an earlier attempt is stale: it is that of no later assignment.
pub proof fn law_earlier_attempt_is_stale(
    s: Model,
    node: NodeId,
    now: u64,
    lease: LeaseId,
    identity: WorkerIdentity,
    fence: TaskFence,
)
    requires
        s.wf(),
        s.workers.contains_key(node),
        s.assigned_next(node, now, lease).1 == Some(fence.task_id),
        fence.attempt.0 <= s.tasks[fence.task_id].attempt.0,
    ensures
        s.assigned_next(node, now, lease).0.fence_fault(identity, fence) is Some,
        s.assigned_next(node, now, lease).0.tasks[fence.task_id].attempt.0 == s.tasks[fence.task_id].attempt.0 + 1,
{
    crate::coordinator::laws::law_chosen_is_servable(s, node, now);
    assert(s.task_ok(fence.task_id));
}

/// Under the fence of its own assignment, a worker's reports are heard.
pub proof fn law_current_fence_is_accepted(s: Model, node: NodeId, now: u64, lease: LeaseId, id: TaskId)
    requires
        s.wf(),
        s.workers.contains_key(node),
        s.assigned_next(node, now, lease).1 == Some(id),
    ensures
        ({
            let n = s.assigned_next(node, now, lease).0;
            let fence = TaskFence { task_id: id, attempt: n.tasks[id].attempt, lease_id: lease };
            &&& n.fence_fault(s.workers[node].identity, fence) is None
            &&& n.started(s.workers[node].identity, fence) is Next
        }),
{
    crate::coordinator::laws::law_chosen_is_servable(s, node, now);
    assert(s.worker_ok(node));
    assert(s.task_ok(id));
}

/// Saying twice that a task runs is saying it once.
pub proof fn law_started_is_idempotent(s: Model, identity: WorkerIdentity, fence: TaskFence)
    requires
        s.started(identity, fence) is Next,
    ensures
        ({
            let n = s.started(identity, fence)->Next_0;
            n.started(identity, fence) == Verdict::Next(n)
        }),
{
}

/// A completion that is reported again is accepted and changes nothing.
pub proof fn law_completion_is_idempotent(
    s: Model,
    n: Model,
    identity: WorkerIdentity,
    report: CompletionModel,
    digest: Seq<u8>,
)
    requires
        s.wf(),
        s.completed(identity, report, digest) is Settling,
        s.completed(identity, report, digest)->Settling_0.settles_to(n),
    ensures
        n.completed(identity, report, digest) == Verdict::Next(n),
        n.tasks[report.fence.task_id].state is Succeeded,
        n.unresolved(report.output_id) is None,
{
    let id = report.fence.task_id;
    let mid = s.completed(identity, report, digest)->Settling_0;
    lemma_fence(s, identity, report.fence);
    assert(s.task_ok(id));
    lemma_succeeded_sound(s, identity, report);
    lemma_settles_frame(mid, n);
    assert(mid.tasks.contains_key(id));
    assert(!mid.waiting.contains(id));
    assert(n.tasks[id] == mid.tasks[id]);
    assert(mid.objects.contains_key(s.tasks[id].output));
}

/// A failure that is reported again is accepted and changes nothing.
pub proof fn law_failure_is_idempotent(
    s: Model,
    n: Model,
    identity: WorkerIdentity,
    fence: TaskFence,
    message: Seq<char>,
    class: FailureClass,
    now: u64,
)
    requires
        s.wf(),
        s.failed(identity, fence, message, class, now) is Settling,
        s.failed(identity, fence, message, class, now)->Settling_0.settles_to(n),
    ensures
        n.failed(identity, fence, message, class, now) == Verdict::Next(n),
        n.tasks[fence.task_id].state == Phase::Failed(message),
{
    let id = fence.task_id;
    let mid = s.failed(identity, fence, message, class, now)->Settling_0;
    lemma_fence(s, identity, fence);
    assert(s.task_ok(id));
    lemma_gave_up_sound(s, identity, fence, message);
    lemma_settles_frame(mid, n);
    assert(mid.tasks.contains_key(id));
    assert(n.tasks[id] == mid.tasks[id]);
}

/// A worker's word that it let go of a task, given again, changes nothing.
pub proof fn law_cancel_ack_is_idempotent(s: Model, n: Model, identity: WorkerIdentity, fence: TaskFence)
    requires
        s.wf(),
        s.cancel_acknowledged(identity, fence) is Settling,
        s.cancel_acknowledged(identity, fence)->Settling_0.settles_to(n),
    ensures
        n.cancel_acknowledged(identity, fence) == Verdict::Next(n),
        n.tasks[fence.task_id].state is Cancelled,
{
    let id = fence.task_id;
    let mid = s.cancel_acknowledged(identity, fence)->Settling_0;
    lemma_fence(s, identity, fence);
    assert(s.task_ok(id));
    lemma_acknowledged_sound(s, identity, fence);
    lemma_settles_frame(mid, n);
    assert(mid.tasks.contains_key(id));
    assert(n.tasks[id] == mid.tasks[id]);
}

/// Asking for a held task to be cancelled takes nothing from its worker.
pub proof fn law_cancel_keeps_resources_until_ack(s: Model, id: TaskId)
    requires
        s.wf(),
        s.cancelled(id) is Next,
    ensures
        s.cancelled(id)->Next_0.workers == s.workers,
        s.cancelled(id)->Next_0.tasks[id].assigned == s.tasks[id].assigned,
{
}

/// A permanent failure is never retried; a transient one is, while attempts remain.
pub proof fn law_only_transient_failures_retry(
    s: Model,
    identity: WorkerIdentity,
    fence: TaskFence,
    message: Seq<char>,
    class: FailureClass,
    now: u64,
)
    requires
        s.fence_fault(identity, fence) is None,
        s.tasks[fence.task_id].state is Assigned || s.tasks[fence.task_id].state is Running,
    ensures
        ({
            let verdict = s.failed(identity, fence, message, class, now);
            if class == FailureClass::Transient && s.tasks[fence.task_id].attempt.0
                < s.tasks[fence.task_id].max_attempts {
                verdict matches Verdict::Next(n) && n.tasks[fence.task_id].state is Runnable
                    && n.tasks[fence.task_id].assigned is None
            } else {
                verdict matches Verdict::Settling(mid) && mid.tasks[fence.task_id].state == Phase::Failed(message)
            }
        }),
{
}

/// The wait doubles with each failure, from 100 ms, and never exceeds 30 s.
pub proof fn law_backoff(attempt: int)
    requires
        attempt >= 1,
    ensures
        backoff(1) == RETRY_BACKOFF_BASE_MS,
        backoff(attempt) <= backoff(attempt + 1),
        backoff(attempt) <= RETRY_BACKOFF_CAP_MS,
        backoff(attempt + 1) < RETRY_BACKOFF_CAP_MS ==> backoff(attempt + 1) == 2 * backoff(attempt),
{
    reveal_with_fuel(crate::coordinator::model::power_of_two, 11);
    if attempt <= 20 {
        lemma_power_of_two_grows((attempt - 1) as nat, attempt as nat);
        assert(crate::coordinator::model::power_of_two(attempt as nat) == 2
            * crate::coordinator::model::power_of_two((attempt - 1) as nat));
    } else {
        lemma_power_of_two_grows(9, 20);
    }
}

/// A draining worker gets no more work.
pub proof fn law_draining_gets_no_work(s: Model, identity: WorkerIdentity, now: u64, lease: LeaseId)
    requires
        s.draining(identity) is Next,
    ensures
        ({
            let n = s.draining(identity)->Next_0;
            n.assigned_next(identity.node_id, now, lease) == (n, None::<TaskId>)
        }),
{
}

/// A worker that registers again as it did keeps its identity.
pub proof fn law_repeated_registration_keeps_identity(
    s: Model,
    request: RegisterModel,
    session: WorkerSessionId,
    other: WorkerSessionId,
    now: u64,
    later: u64,
    lease_ms: u64,
)
    requires
        s.wf(),
        s.registered(request, session, now, lease_ms) is Ok,
    ensures
        ({
            let (n, identity) = s.registered(request, session, now, lease_ms)->Ok_0;
            n.registered(request, other, later, lease_ms) matches Ok((_, again)) && again == identity
        }),
{
    let (n, identity) = s.registered(request, session, now, lease_ms)->Ok_0;
    lemma_descriptors_accepted_again(s, n, request.operations);
}

/// Descriptors that were accepted are accepted again once they are registered.
proof fn lemma_descriptors_accepted_again(
    s: Model,
    n: Model,
    list: Seq<crate::operation::DescriptorModel>,
)
    requires
        s.descriptors_fault(list) is None,
        n.operations == s.operations || n.operations == s.operations.union_prefer_right(
            crate::operation::by_key(list),
        ),
    ensures
        n.descriptors_fault(list) is None,
{
    crate::coordinator::laws::lemma_descriptors(s, list);
    lemma_prefix_accepted(s, n, list, list.len() as int);
    assert(list.take(list.len() as int) =~= list);
}

proof fn lemma_prefix_accepted(
    s: Model,
    n: Model,
    list: Seq<crate::operation::DescriptorModel>,
    k: int,
)
    requires
        0 <= k <= list.len(),
        s.descriptors_fault(list) is None,
        n.operations == s.operations || n.operations == s.operations.union_prefer_right(
            crate::operation::by_key(list),
        ),
        forall|key: KeyModel| #[trigger]
            crate::operation::by_key(list).contains_key(key) ==> (s.operations.contains_key(key) ==> s.operations[key]
                == crate::operation::by_key(list)[key]),
    ensures
        n.descriptors_fault(list.take(k)) is None,
        s.descriptors_fault(list.take(k)) is None,
    decreases k,
{
    if k > 0 {
        lemma_prefix_accepted(s, n, list, k - 1);
        assert(list.take(k).drop_last() =~= list.take(k - 1));
        let d = list[k - 1];
        assert(list.take(k).last() == d);
        if s.descriptors_fault(list.take(k)) is Some {
            crate::coordinator::laws::lemma_descriptors_first_fault(s, list, k);
        }
        lemma_listed_agrees(s, list, k - 1);
    }
}

/// In a list without a fault, a descriptor is what the whole list has under its key.
pub proof fn lemma_listed_agrees(s: Model, list: Seq<crate::operation::DescriptorModel>, i: int)
    requires
        s.descriptors_fault(list) is None,
        0 <= i < list.len(),
    ensures
        crate::operation::by_key(list).contains_key(list[i].key),
        crate::operation::by_key(list)[list[i].key] == list[i],
    decreases list.len(),
{
    let rest = list.drop_last();
    if i < list.len() - 1 {
        lemma_listed_agrees(s, rest, i);
        assert(rest[i] == list[i]);
    }
}

/// Putting the same content again stores nothing new.
pub proof fn law_put_is_idempotent(
    s: Model,
    id: ObjectId,
    codec: Codec,
    size_bytes: u64,
    checksum: [u8; 32],
    bytes: Option<Seq<u8>>,
)
    requires
        s.admitted(id, codec, size_bytes, checksum, bytes) is Next,
    ensures
        ({
            let n = s.admitted(id, codec, size_bytes, checksum, bytes)->Next_0;
            &&& n.admitted(id, codec, size_bytes, checksum, bytes) == Verdict::Next(n)
            &&& n.unresolved(id) is None
        }),
{
}

/// Releasing an object takes it and its producer out of the tables, so that the
/// limits are not limits on a lifetime.
pub proof fn law_release_reclaims(s: Model, id: ObjectId)
    requires
        s.wf(),
        s.object_released(id) is Next,
    ensures
        ({
            let n = s.object_released(id)->Next_0;
            &&& !n.objects.contains_key(id)
            &&& forall|task: TaskId| #[trigger] n.tasks.contains_key(task) ==> n.tasks[task].output != id
            &&& n.object_released(id) == Verdict::Next(n)
        }),
{
    let n = s.object_released(id)->Next_0;
    if !s.objects.contains_key(id) {
        assert forall|task: TaskId| #[trigger] n.tasks.contains_key(task) implies n.tasks[task].output != id by {
            assert(s.task_ok(task));
        }
    }
}

/// What a live task produces or takes is never released under it.
pub proof fn law_needed_objects_are_kept(s: Model, id: ObjectId, task: TaskId)
    requires
        s.wf(),
        s.tasks.contains_key(task),
        s.tasks[task].live(),
        s.tasks[task].output == id || s.tasks[task].depends_on(id),
    ensures
        s.object_released(id) == Verdict::Refused(ErrorModel::ObjectInUse(id)),
{
    assert(s.task_ok(task));
}

/// A waiting task waits for a task that is still live, and none of its inputs
/// is beyond hope.
pub proof fn law_waiting_task_waits_for_a_live_one(s: Model, id: TaskId) -> (producer: TaskId)
    requires
        s.wf(),
        s.tasks.contains_key(id),
        s.tasks[id].state is Waiting,
    ensures
        s.tasks.contains_key(producer),
        s.tasks[producer].live(),
        s.tasks[id].depends_on(s.tasks[producer].output),
        forall|dep: ObjectId| #[trigger] s.tasks[id].depends_on(dep) ==> !s.dep_hopeless(dep),
{
    assert(s.task_ok(id));
    assert(s.waiting.contains(id));
    assert(!s.must_fail(id) && !s.may_run(id));
    let dep = choose|dep: ObjectId| #[trigger] s.tasks[id].depends_on(dep) && !s.dep_ready(dep);
    assert(!s.dep_hopeless(dep));
    assert(s.object_ok(dep));
    choose|task: TaskId| #[trigger] s.produces(task, dep)
}

/// A task whose inputs are all available is not left waiting, and one with a
/// lost, failed or cancelled input is not left alive.
pub proof fn law_dependencies_are_settled(s: Model, id: TaskId)
    requires
        s.wf(),
        s.tasks.contains_key(id),
        s.tasks[id].state is Waiting,
    ensures
        exists|dep: ObjectId| #[trigger] s.tasks[id].depends_on(dep) && !s.dep_ready(dep),
        forall|dep: ObjectId| #[trigger] s.tasks[id].depends_on(dep) ==> s.objects.contains_key(dep) && (
        s.objects[dep].state == ObjectState::Reserved || s.objects[dep].state == ObjectState::Available),
{
    let producer = law_waiting_task_waits_for_a_live_one(s, id);
    assert(s.task_ok(producer));
    assert(!s.dep_ready(s.tasks[producer].output));
}

/// A pending object is the output of a live task.
pub proof fn law_pending_object_has_a_live_producer(s: Model, id: ObjectId) -> (producer: TaskId)
    requires
        s.wf(),
        s.unresolved(id) == Some(ErrorModel::ObjectPending(id)),
    ensures
        s.tasks.contains_key(producer),
        s.tasks[producer].live(),
        s.tasks[producer].output == id,
{
    assert(s.object_ok(id));
    choose|task: TaskId| #[trigger] s.produces(task, id)
}

/// Without a local input in sight, work is handed out in the order of the queue:
/// nothing that the worker could take stood before the task it got.
pub proof fn law_work_is_handed_out_in_order(s: Model, node: NodeId, now: u64, i: int)
    requires
        s.scan(node, now, s.runnable, 0).local is None,
        0 <= i < s.runnable.len(),
        s.is_runnable(s.runnable[i]),
        s.servable(node, now, s.runnable[i]),
    ensures
        s.scan(node, now, s.runnable, 0).chosen() matches Some(id) && exists|j: int|
            0 <= j <= i && #[trigger] s.runnable[j] == id,
{
    lemma_first_passed(s, node, now, s.runnable, i);
}

proof fn lemma_first_passed(s: Model, node: NodeId, now: u64, queue: Seq<TaskId>, i: int)
    requires
        s.scan(node, now, queue, 0).local is None,
        0 <= i < queue.len(),
        s.is_runnable(queue[i]),
        s.servable(node, now, queue[i]),
    ensures
        s.scan(node, now, queue, 0).passed.len() > 0,
        exists|j: int| 0 <= j <= i && #[trigger] queue[j] == s.scan(node, now, queue, 0).passed[0],
    decreases i,
{
    let id = queue[0];
    let rest = queue.skip(1);
    if s.is_runnable(id) && s.servable(node, now, id) {
        if !s.is_local(node, id) {
            assert(s.scan(node, now, queue, 0).passed[0] == id);
        }
    } else {
        assert(i > 0);
        assert(rest[i - 1] == queue[i]);
        lemma_first_passed(s, node, now, rest, i - 1);
        let j = choose|j: int| 0 <= j <= i - 1 && #[trigger] rest[j] == s.scan(node, now, rest, 0).passed[0];
        assert(queue[j + 1] == rest[j]);
    }
}

/// A worker that owns an input of some task in sight gets a task whose input it owns.
pub proof fn law_local_work_is_preferred(s: Model, node: NodeId, now: u64)
    requires
        s.scan(node, now, s.runnable, 0).local is Some,
    ensures
        s.scan(node, now, s.runnable, 0).chosen() matches Some(id) && s.is_local(node, id),
{
    lemma_scan(s, node, now, s.runnable, 0);
}

/// A free worker that can take some runnable task is given one.
pub proof fn law_free_worker_gets_work(s: Model, node: NodeId, now: u64, lease: LeaseId, id: TaskId)
    requires
        s.wf(),
        s.workers.contains_key(node),
        s.takes_work(node),
        s.is_runnable(id),
        s.servable(node, now, id),
    ensures
        s.assigned_next(node, now, lease).1 is Some,
{
    assert(s.task_ok(id));
    let i = s.runnable.index_of(id);
    assert(s.runnable[i] == id);
    if s.scan(node, now, s.runnable, 0).local is None {
        law_work_is_handed_out_in_order(s, node, now, i);
    }
}

/// No task is ever assigned more often than its submission allows.
pub proof fn law_attempts_are_bounded(s: Model, id: TaskId)
    requires
        s.wf(),
        s.tasks.contains_key(id),
    ensures
        s.tasks[id].attempt.0 <= s.tasks[id].max_attempts,
{
    assert(s.task_ok(id));
}

/// What is free on a worker and what its tasks hold always make up what it has.
pub proof fn law_resources_are_conserved(s: Model, node: NodeId, name: Seq<char>)
    requires
        s.wf(),
        s.workers.contains_key(node),
    ensures
        s.workers[node].free_slots + s.slots_taken(node) == s.workers[node].slots,
        crate::resources::amount(s.workers[node].available, name) + s.amount_taken(node, name)
            == crate::resources::amount(s.workers[node].total, name),
{
    assert(s.accounted(node));
}

/// The indices say what the tasks say.
pub proof fn law_indices_agree_with_states(s: Model, id: TaskId)
    requires
        s.wf(),
    ensures
        s.waiting.contains(id) <==> s.tasks.contains_key(id) && s.tasks[id].state is Waiting,
        s.cancel_requested.contains(id) <==> s.tasks.contains_key(id) && s.tasks[id].state is CancelRequested,
        s.tasks.contains_key(id) && s.tasks[id].state is Runnable ==> s.runnable.contains(id),
{
    if s.tasks.contains_key(id) {
        assert(s.task_ok(id));
    }
}

/// The objects that a worker owned are lost with it: whoever asks for one hears so.
pub proof fn law_owned_objects_are_lost(s: Model, n: Model, now: u64, report: WorkerExpiry, id: ObjectId)
    requires
        s.sound(),
        s.forgets(n, now, report),
        s.objects.contains_key(id),
        s.objects[id].owner == Some(report.node),
        s.objects[id].state == ObjectState::Available,
    ensures
        n.unresolved(id) == Some(ErrorModel::ObjectLost(id)),
        n.objects[id].bytes is None,
{
    let node = report.node;
    let ids = choose|ids: Seq<TaskId>| #[trigger]
        s.holds_exactly(node, ids) && n == s.forgotten(node, ids, now);
    assert forall|i: int| 0 <= i < ids.len() implies s.tasks.contains_key(#[trigger] ids[i]) && s.tasks[ids[i]].on_node(
        node,
    ) by {
        assert(ids.contains(ids[i]));
    }
    assert(s.balanced_except(set![node]));
    lemma_orphan_run(s, node, ids, now);
    let mid = s.orphan_run(ids, now);
    assert(mid.objects.dom().contains(id));
}

/// No task goes under with its worker: it is cancelled if that was asked for, queued
/// again while attempts remain, and failed otherwise; and nobody holds it.
pub proof fn law_tasks_outlive_their_worker(s: Model, n: Model, now: u64, report: WorkerExpiry, id: TaskId)
    requires
        s.sound(),
        s.forgets(n, now, report),
        s.tasks.contains_key(id),
        s.tasks[id].on_node(report.node),
    ensures
        n.tasks.contains_key(id),
        n.tasks[id].assigned is None,
        n.tasks[id].attempt == s.tasks[id].attempt,
        n.tasks[id].state == if s.tasks[id].state is CancelRequested {
            Phase::Cancelled
        } else if s.tasks[id].attempt.0 < s.tasks[id].max_attempts {
            Phase::Runnable
        } else {
            Phase::Failed("worker lease expired"@)
        },
{
    let node = report.node;
    let ids = choose|ids: Seq<TaskId>| #[trigger]
        s.holds_exactly(node, ids) && n == s.forgotten(node, ids, now);
    assert forall|i: int| 0 <= i < ids.len() implies s.tasks.contains_key(#[trigger] ids[i]) && s.tasks[ids[i]].on_node(
        node,
    ) by {
        assert(ids.contains(ids[i]));
    }
    assert(s.balanced_except(set![node]));
    assert(ids.contains(id));
    lemma_orphan_run(s, node, ids, now);
    lemma_orphan_phases(s, node, ids, now, id);
    assert(s.orphan_run(ids, now).tasks.dom().contains(id));
}

} // verus!
