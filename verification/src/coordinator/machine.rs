//! The coordinator as a state machine: every event it reacts to, and what holds
//! over all of them.
use vstd::prelude::*;

use crate::coordinator::laws::{
    law_assignment_keeps_invariant, law_drain_keeps_invariant, law_heartbeat_keeps_invariant, law_put_keeps_invariant,
    law_register_keeps_invariant, law_release_keeps_invariant, law_started_keeps_invariant, law_submit_keeps_invariant,
    lemma_acknowledged_sound, lemma_bump_sound, lemma_cancel_asked_wf, lemma_dropped_sound, lemma_forgotten_sound,
    lemma_gave_up_sound, lemma_orphan_run, lemma_pending_touched, lemma_retried_wf, lemma_settles_to_wf,
    lemma_settle_run_sound, lemma_stamped_wf, lemma_succeeded_sound,
};
use crate::coordinator::model::{CompletionModel, Model, RegisterModel, Verdict};
use crate::coordinator::{ObjectState, WorkerExpiry};
use crate::ids::{LeaseId, NodeId, ObjectId, TaskId, WorkerSessionId};
use crate::operation::{ArgModel, Codec, KeyModel};
use crate::protocol::{FailureClass, TaskFence, WorkerIdentity};
use crate::resources::is_resource_map;

verus! {

/// What the coordinator reacts to.
pub enum Event {
    Register { request: RegisterModel, session: WorkerSessionId, now: u64, lease_ms: u64 },
    Heartbeat { identity: WorkerIdentity, now: u64, lease_ms: u64 },
    Drain { identity: WorkerIdentity },
    Put { id: ObjectId, codec: Codec, size_bytes: u64, checksum: [u8; 32], bytes: Option<Seq<u8>> },
    Submit {
        operation: KeyModel,
        args: Seq<ArgModel>,
        resources: Map<Seq<char>, int>,
        max_attempts: u32,
        id: TaskId,
        output: ObjectId,
    },
    Assign { node: NodeId, now: u64, lease: LeaseId },
    Started { identity: WorkerIdentity, fence: TaskFence },
    Completed { identity: WorkerIdentity, report: CompletionModel, digest: Seq<u8> },
    Failed { identity: WorkerIdentity, fence: TaskFence, message: Seq<char>, class: FailureClass, now: u64 },
    Cancel { id: TaskId },
    CancelAcknowledged { identity: WorkerIdentity, fence: TaskFence },
    Release { id: ObjectId },
    TakeDeletes { node: NodeId },
    Expire { now: u64, reports: Seq<WorkerExpiry> },
    Reap { now: u64, count: int },
}

impl Event {
    /// Amounts in the event are those of a resource set.
    pub open spec fn ok(self) -> bool {
        match self {
            Event::Register { request, .. } => is_resource_map(request.resources),
            Event::Submit { resources, .. } => is_resource_map(resources),
            _ => true,
        }
    }
}

/// The state moves as the verdict says.
pub open spec fn follows(verdict: Verdict, before: Model, after: Model) -> bool {
    match verdict {
        Verdict::Refused(_) => after == before,
        Verdict::Next(next) => after == next,
        Verdict::Settling(mid) => mid.settles_to(after),
    }
}

impl Model {
    /// The event can take this state to `next`.
    pub open spec fn steps(self, event: Event, next: Model) -> bool {
        match event {
            Event::Register { request, session, now, lease_ms } => match self.registered(
                request,
                session,
                now,
                lease_ms,
            ) {
                Ok((after, _)) => next == after,
                Err(_) => next == self,
            },
            Event::Heartbeat { identity, now, lease_ms } => follows(self.heard(identity, now, lease_ms), self, next),
            Event::Drain { identity } => follows(self.draining(identity), self, next),
            Event::Put { id, codec, size_bytes, checksum, bytes } => follows(
                self.admitted(id, codec, size_bytes, checksum, bytes),
                self,
                next,
            ),
            Event::Submit { operation, args, resources, max_attempts, id, output } => follows(
                self.submitted(operation, args, resources, max_attempts, id, output),
                self,
                next,
            ),
            Event::Assign { node, now, lease } => if self.workers.contains_key(node) {
                next == self.assigned_next(node, now, lease).0
            } else {
                next == self
            },
            Event::Started { identity, fence } => follows(self.started(identity, fence), self, next),
            Event::Completed { identity, report, digest } => follows(
                self.completed(identity, report, digest),
                self,
                next,
            ),
            Event::Failed { identity, fence, message, class, now } => follows(
                self.failed(identity, fence, message, class, now),
                self,
                next,
            ),
            Event::Cancel { id } => follows(self.cancelled(id), self, next),
            Event::CancelAcknowledged { identity, fence } => follows(
                self.cancel_acknowledged(identity, fence),
                self,
                next,
            ),
            Event::Release { id } => follows(self.object_released(id), self, next),
            Event::TakeDeletes { node } => next == (Model {
                pending_deletes: self.pending_deletes.remove(node),
                ..self
            }),
            Event::Expire { now, reports } => self.expires_to(next, now, reports),
            Event::Reap { now, count } => self.reaps_to(next, now, count),
        }
    }
}

/// What settling leaves as it was: tasks that did not wait, and objects that
/// were not reserved.
pub proof fn lemma_settle_frame(s: Model, order: Seq<TaskId>)
    requires
        s.sound(),
        s.settle_order(order),
    ensures
        ({
            let n = s.settle_run(order);
            &&& n.tasks.dom() == s.tasks.dom()
            &&& n.objects.dom() == s.objects.dom()
            &&& n.workers == s.workers
            &&& n.pending_deletes == s.pending_deletes
            &&& n.operations == s.operations
            &&& n.epoch == s.epoch
            &&& n.revision == s.revision
            &&& n.waiting.subset_of(s.waiting)
            &&& forall|id: TaskId| !s.waiting.contains(id) ==> #[trigger] n.tasks[id] == s.tasks[id]
            &&& forall|id: ObjectId| #[trigger]
                s.objects.contains_key(id) && s.objects[id].state != ObjectState::Reserved ==> n.objects[id]
                    == s.objects[id]
        }),
    decreases order.len(),
{
    if order.len() > 0 {
        let rest = order.drop_last();
        lemma_settle_frame(s, rest);
        lemma_settle_run_sound(s, rest);
        let m = s.settle_run(rest);
        let id = order.last();
        let n = m.settle_one(id);
        assert(m.waiting.contains(id));
        assert(m.task_ok(id));
        assert(n.tasks.dom() =~= s.tasks.dom());
        assert(n.objects.dom() =~= s.objects.dom());
        assert forall|o: ObjectId| #[trigger]
            s.objects.contains_key(o) && s.objects[o].state != ObjectState::Reserved implies n.objects[o]
            == s.objects[o] by {
            assert(m.objects[o] == s.objects[o]);
        }
    }
}

/// What settling leaves as it was.
pub proof fn lemma_settles_frame(s: Model, n: Model)
    requires
        s.sound(),
        s.settles_to(n),
    ensures
        n.tasks.dom() == s.tasks.dom(),
        n.objects.dom() == s.objects.dom(),
        n.workers == s.workers,
        n.pending_deletes == s.pending_deletes,
        n.operations == s.operations,
        n.epoch == s.epoch,
        n.revision == s.revision,
        forall|id: TaskId| !s.waiting.contains(id) ==> #[trigger] n.tasks[id] == s.tasks[id],
        forall|id: ObjectId| #[trigger]
            s.objects.contains_key(id) && s.objects[id].state != ObjectState::Reserved ==> n.objects[id]
                == s.objects[id],
{
    let order = choose|order: Seq<TaskId>| #[trigger] s.settle_order(order) && n == s.settle_run(order);
    lemma_settle_frame(s, order);
}

/// The intermediate state of an event that settles is sound.
proof fn lemma_mid_sound(s: Model, event: Event, mid: Model)
    requires
        s.wf(),
        match event {
            Event::Completed { identity, report, digest } => s.completed(identity, report, digest)
                == Verdict::Settling(mid),
            Event::Failed { identity, fence, message, class, now } => s.failed(identity, fence, message, class, now)
                == Verdict::Settling(mid),
            Event::Cancel { id } => s.cancelled(id) == Verdict::Settling(mid),
            Event::CancelAcknowledged { identity, fence } => s.cancel_acknowledged(identity, fence)
                == Verdict::Settling(mid),
            _ => false,
        },
    ensures
        mid.sound(),
{
    match event {
        Event::Completed { identity, report, digest } => {
            lemma_succeeded_sound(s, identity, report);
        },
        Event::Failed { identity, fence, message, class, now } => {
            lemma_gave_up_sound(s, identity, fence, message);
        },
        Event::Cancel { id } => {
            assert(s.task_ok(id));
            lemma_dropped_sound(s, id);
        },
        Event::CancelAcknowledged { identity, fence } => {
            lemma_acknowledged_sound(s, identity, fence);
        },
        _ => {},
    }
}

/// Dropping objects, one after the other, keeps the invariant.
pub proof fn lemma_drop_run_wf(s: Model, outputs: Seq<ObjectId>)
    requires
        s.wf(),
        outputs.no_duplicates(),
        forall|i: int|
            0 <= i < outputs.len() ==> s.objects.contains_key(#[trigger] outputs[i]) && s.objects[outputs[i]].state
                != ObjectState::Reserved && !s.in_use(outputs[i]),
    ensures
        ({
            let n = s.drop_run(outputs);
            &&& n.wf()
            &&& s.deletes_known() ==> n.deletes_known()
            &&& n.epoch == s.epoch
            &&& n.revision == s.revision + outputs.len()
            &&& forall|id: TaskId| #[trigger]
                n.tasks.contains_key(id) ==> s.tasks.contains_key(id) && n.tasks[id] == s.tasks[id]
            &&& forall|o: ObjectId| #[trigger]
                n.objects.contains_key(o) <==> s.objects.contains_key(o) && !outputs.contains(o)
            &&& forall|o: ObjectId| #[trigger] n.objects.contains_key(o) ==> n.objects[o] == s.objects[o]
        }),
    decreases outputs.len(),
{
    if outputs.len() > 0 {
        let rest = outputs.drop_last();
        let last = outputs.last();
        assert forall|i: int| 0 <= i < rest.len() implies s.objects.contains_key(#[trigger] rest[i])
            && s.objects[rest[i]].state != ObjectState::Reserved && !s.in_use(rest[i]) by {
            assert(outputs[i] == rest[i]);
        }
        lemma_drop_run_wf(s, rest);
        let m = s.drop_run(rest);
        assert(outputs[outputs.len() - 1] == last);
        assert(!rest.contains(last));
        assert(m.objects.contains_key(last));
        if m.in_use(last) {
            let t = choose|t: TaskId| #[trigger]
                m.tasks.contains_key(t) && m.tasks[t].live() && m.tasks[t].depends_on(last);
            assert(s.tasks.contains_key(t) && s.tasks[t].live() && s.tasks[t].depends_on(last));
        }
        law_release_keeps_invariant(m, last);
        let n = m.object_dropped(last);
        assert forall|o: ObjectId| #[trigger] n.objects.contains_key(o) <==> s.objects.contains_key(o)
            && !outputs.contains(o) by {
            assert(m.objects.contains_key(o) <==> s.objects.contains_key(o) && !rest.contains(o));
            if outputs.contains(o) && o != last {
                let i = outputs.index_of(o);
                assert(rest[i] == o);
            }
            if rest.contains(o) {
                let i = rest.index_of(o);
                assert(outputs[i] == o);
            }
            assert(outputs.contains(last));
        }
    }
}

proof fn lemma_reaped(s: Model, n: Model, now: u64, count: int)
    requires
        s.wf(),
        s.reaps_to(n, now, count),
    ensures
        n.wf(),
        s.deletes_known() ==> n.deletes_known(),
        n.epoch == s.epoch,
        n.revision == s.revision + count,
        count >= 0,
        forall|id: TaskId| #[trigger]
            n.tasks.contains_key(id) ==> s.tasks.contains_key(id) && n.tasks[id].state == s.tasks[id].state
                && n.tasks[id].attempt == s.tasks[id].attempt && n.tasks[id].output == s.tasks[id].output,
{
    let marked = s.stamped(now);
    let outputs = choose|outputs: Seq<ObjectId>| #[trigger]
        marked.overdue_outputs(now, outputs) && n == marked.drop_run(outputs) && count == outputs.len();
    lemma_stamped_wf(s, now);
    assert forall|i: int| 0 <= i < outputs.len() implies marked.objects.contains_key(#[trigger] outputs[i])
        && marked.objects[outputs[i]].state != ObjectState::Reserved && !marked.in_use(outputs[i]) by {
        assert(marked.is_overdue_output(now, outputs[i]));
        let id = choose|id: TaskId| #[trigger] marked.overdue(id, now) && marked.tasks[id].output == outputs[i];
        assert(marked.task_ok(id));
    }
    lemma_drop_run_wf(marked, outputs);
    assert forall|id: TaskId| #[trigger] n.tasks.contains_key(id) implies s.tasks.contains_key(id)
        && n.tasks[id].state == s.tasks[id].state && n.tasks[id].attempt == s.tasks[id].attempt
        && n.tasks[id].output == s.tasks[id].output by {
        assert(marked.tasks.contains_key(id));
    }
}

/// Forgetting a worker leaves finished tasks alone, and every table but that of
/// the workers with the keys it had.
proof fn lemma_forgets(s: Model, n: Model, now: u64, report: WorkerExpiry)
    requires
        s.sound(),
        s.workers.contains_key(report.node),
        s.forgets(n, now, report),
    ensures
        n.sound(),
        s.deletes_known() ==> n.deletes_known(),
        n.epoch == s.epoch,
        n.revision == s.revision,
        n.workers == s.workers.remove(report.node),
        n.tasks.dom() == s.tasks.dom(),
        n.objects.dom() == s.objects.dom(),
        forall|id: TaskId| #[trigger]
            s.tasks.contains_key(id) && s.tasks[id].state.terminal() ==> n.tasks[id] == s.tasks[id],
{
    let node = report.node;
    let ids = choose|ids: Seq<TaskId>| #[trigger]
        s.holds_exactly(node, ids) && n == s.forgotten(node, ids, now);
    lemma_forgotten_sound(s, node, ids, now);
    assert forall|i: int| 0 <= i < ids.len() implies s.tasks.contains_key(#[trigger] ids[i]) && s.tasks[ids[i]].on_node(
        node,
    ) by {
        assert(ids.contains(ids[i]));
    }
    assert(s.balanced_except(set![node]));
    lemma_orphan_run(s, node, ids, now);
    assert(n.objects.dom() =~= s.objects.dom());
    assert forall|id: TaskId| #[trigger] s.tasks.contains_key(id) && s.tasks[id].state.terminal() implies n.tasks[id]
        == s.tasks[id] by {
        assert(s.task_ok(id));
        assert(!ids.contains(id));
    }
}

pub proof fn lemma_forget_run(s: Model, states: Seq<Model>, now: u64, reports: Seq<WorkerExpiry>, k: int)
    requires
        s.wf(),
        s.forget_run(states, now, reports),
        s.covers_lapsed(now, reports),
        0 <= k < states.len(),
    ensures
        states[k].sound(),
        s.deletes_known() ==> states[k].deletes_known(),
        states[k].epoch == s.epoch,
        states[k].revision == s.revision,
        states[k].tasks.dom() == s.tasks.dom(),
        states[k].objects.dom() == s.objects.dom(),
        forall|id: TaskId| #[trigger]
            s.tasks.contains_key(id) && s.tasks[id].state.terminal() ==> states[k].tasks[id] == s.tasks[id],
        forall|node: NodeId| #[trigger]
            states[k].workers.contains_key(node) <==> s.workers.contains_key(node) && !(exists|i: int|
                0 <= i < k && (#[trigger] reports[i]).node == node),
    decreases k,
{
    if k > 0 {
        lemma_forget_run(s, states, now, reports, k - 1);
        let before = states[k - 1];
        let report = reports[k - 1];
        assert(before.forgets(states[k - 1 + 1], now, report));
        assert(s.lapsed(report.node, now));
        assert(before.workers.contains_key(report.node)) by {
            assert(!(exists|i: int| 0 <= i < k - 1 && (#[trigger] reports[i]).node == report.node));
        }
        lemma_forgets(before, states[k], now, report);
        assert forall|id: TaskId| #[trigger]
            s.tasks.contains_key(id) && s.tasks[id].state.terminal() implies states[k].tasks[id] == s.tasks[id] by {
            assert(before.tasks[id] == s.tasks[id]);
            assert(before.tasks.contains_key(id));
        }
        assert forall|node: NodeId| #[trigger]
            states[k].workers.contains_key(node) <==> s.workers.contains_key(node) && !(exists|i: int|
                0 <= i < k && (#[trigger] reports[i]).node == node) by {
            assert(before.workers.contains_key(node) <==> s.workers.contains_key(node) && !(exists|i: int|
                0 <= i < k - 1 && (#[trigger] reports[i]).node == node));
            if node == report.node {
                assert(reports[k - 1].node == node);
            }
        }
    } else {
        assert(states[0] == s);
    }
}

/// Every event keeps the invariant.
pub proof fn law_every_step_keeps_invariant(s: Model, event: Event, n: Model)
    requires
        s.wf(),
        event.ok(),
        s.steps(event, n),
    ensures
        n.wf(),
{
    match event {
        Event::Register { request, session, now, lease_ms } => {
            if s.registered(request, session, now, lease_ms) is Ok {
                law_register_keeps_invariant(s, request, session, now, lease_ms);
            }
        },
        Event::Heartbeat { identity, now, lease_ms } => {
            if s.identity_ok(identity) {
                law_heartbeat_keeps_invariant(s, identity, now, lease_ms);
            }
        },
        Event::Drain { identity } => {
            if s.identity_ok(identity) {
                law_drain_keeps_invariant(s, identity);
            }
        },
        Event::Put { id, codec, size_bytes, checksum, bytes } => {
            if s.admitted(id, codec, size_bytes, checksum, bytes) is Next {
                law_put_keeps_invariant(s, id, codec, size_bytes, checksum, bytes);
            }
        },
        Event::Submit { operation, args, resources, max_attempts, id, output } => {
            if s.submitted(operation, args, resources, max_attempts, id, output) is Next {
                law_submit_keeps_invariant(s, operation, args, resources, max_attempts, id, output);
            }
        },
        Event::Assign { node, now, lease } => {
            if s.workers.contains_key(node) {
                law_assignment_keeps_invariant(s, node, now, lease);
            }
        },
        Event::Started { identity, fence } => {
            if s.started(identity, fence) is Next {
                law_started_keeps_invariant(s, identity, fence);
            }
        },
        Event::Completed { identity, report, digest } => {
            if let Verdict::Settling(mid) = s.completed(identity, report, digest) {
                lemma_mid_sound(s, event, mid);
                lemma_settles_to_wf(mid, n);
            }
        },
        Event::Failed { identity, fence, message, class, now } => {
            match s.failed(identity, fence, message, class, now) {
                Verdict::Settling(mid) => {
                    lemma_mid_sound(s, event, mid);
                    lemma_settles_to_wf(mid, n);
                },
                Verdict::Next(next) => {
                    if !s.tasks[fence.task_id].state.terminal() {
                        lemma_retried_wf(s, identity, fence, now);
                    }
                },
                Verdict::Refused(_) => {},
            }
        },
        Event::Cancel { id } => {
            match s.cancelled(id) {
                Verdict::Settling(mid) => {
                    lemma_mid_sound(s, event, mid);
                    lemma_settles_to_wf(mid, n);
                },
                Verdict::Next(next) => {
                    lemma_cancel_asked_wf(s, id);
                },
                Verdict::Refused(_) => {},
            }
        },
        Event::CancelAcknowledged { identity, fence } => {
            if let Verdict::Settling(mid) = s.cancel_acknowledged(identity, fence) {
                lemma_mid_sound(s, event, mid);
                lemma_settles_to_wf(mid, n);
            }
        },
        Event::Release { id } => {
            if s.object_released(id) is Next {
                law_release_keeps_invariant(s, id);
            }
        },
        Event::TakeDeletes { node } => {
            lemma_pending_touched(s, n);
        },
        Event::Expire { now, reports } => {
            if reports.len() > 0 {
                let states = choose|states: Seq<Model>| #[trigger]
                    s.forget_run(states, now, reports) && states.last().bump().settles_to(n);
                lemma_forget_run(s, states, now, reports, states.len() - 1);
                lemma_bump_sound(states.last());
                lemma_settles_to_wf(states.last().bump(), n);
            }
        },
        Event::Reap { now, count } => {
            lemma_reaped(s, n, now, count);
        },
    }
}

/// A finished task never changes its state, its attempt or its output again.
pub proof fn law_terminal_is_final(s: Model, event: Event, n: Model, id: TaskId)
    requires
        s.wf(),
        event.ok(),
        s.steps(event, n),
        s.tasks.contains_key(id),
        s.tasks[id].state.terminal(),
        n.tasks.contains_key(id),
    ensures
        n.tasks[id].state == s.tasks[id].state,
        n.tasks[id].attempt == s.tasks[id].attempt,
        n.tasks[id].output == s.tasks[id].output,
{
    assert(s.task_ok(id));
    match event {
        Event::Completed { identity, report, digest } => {
            if let Verdict::Settling(mid) = s.completed(identity, report, digest) {
                assert(s.task_ok(report.fence.task_id));
                lemma_mid_sound(s, event, mid);
                lemma_settles_frame(mid, n);
                assert(!mid.waiting.contains(id));
            }
        },
        Event::Failed { identity, fence, message, class, now } => {
            if let Verdict::Settling(mid) = s.failed(identity, fence, message, class, now) {
                assert(s.task_ok(fence.task_id));
                lemma_mid_sound(s, event, mid);
                lemma_settles_frame(mid, n);
                assert(!mid.waiting.contains(id));
            }
        },
        Event::Cancel { id: cancelled } => {
            if let Verdict::Settling(mid) = s.cancelled(cancelled) {
                lemma_mid_sound(s, event, mid);
                lemma_settles_frame(mid, n);
                assert(!mid.waiting.contains(id));
            }
        },
        Event::CancelAcknowledged { identity, fence } => {
            if let Verdict::Settling(mid) = s.cancel_acknowledged(identity, fence) {
                assert(s.task_ok(fence.task_id));
                lemma_mid_sound(s, event, mid);
                lemma_settles_frame(mid, n);
                assert(!mid.waiting.contains(id));
            }
        },
        Event::Assign { node, now, lease } => {
            crate::coordinator::laws::law_chosen_is_servable(s, node, now);
        },
        Event::Expire { now, reports } => {
            if reports.len() > 0 {
                let states = choose|states: Seq<Model>| #[trigger]
                    s.forget_run(states, now, reports) && states.last().bump().settles_to(n);
                lemma_forget_run(s, states, now, reports, states.len() - 1);
                let last = states.last();
                lemma_bump_sound(last);
                assert(last.tasks[id] == s.tasks[id]);
                assert(last.tasks.contains_key(id));
                assert(last.task_ok(id));
                lemma_settles_frame(last.bump(), n);
                assert(!last.bump().waiting.contains(id));
            }
        },
        Event::Reap { now, count } => {
            lemma_reaped(s, n, now, count);
        },
        _ => {},
    }
}

/// No event leaves deletions pending for a worker that is not registered.
pub proof fn law_deletions_wait_for_known_workers(s: Model, event: Event, n: Model)
    requires
        s.wf(),
        s.deletes_known(),
        event.ok(),
        s.steps(event, n),
    ensures
        n.deletes_known(),
{
    match event {
        Event::Completed { identity, report, digest } => {
            if let Verdict::Settling(mid) = s.completed(identity, report, digest) {
                lemma_mid_sound(s, event, mid);
                lemma_settles_frame(mid, n);
            }
        },
        Event::Failed { identity, fence, message, class, now } => {
            if let Verdict::Settling(mid) = s.failed(identity, fence, message, class, now) {
                lemma_mid_sound(s, event, mid);
                lemma_settles_frame(mid, n);
            }
        },
        Event::Cancel { id } => {
            if let Verdict::Settling(mid) = s.cancelled(id) {
                lemma_mid_sound(s, event, mid);
                lemma_settles_frame(mid, n);
            }
        },
        Event::CancelAcknowledged { identity, fence } => {
            if let Verdict::Settling(mid) = s.cancel_acknowledged(identity, fence) {
                lemma_mid_sound(s, event, mid);
                lemma_settles_frame(mid, n);
            }
        },
        Event::Expire { now, reports } => {
            if reports.len() > 0 {
                let states = choose|states: Seq<Model>| #[trigger]
                    s.forget_run(states, now, reports) && states.last().bump().settles_to(n);
                lemma_forget_run(s, states, now, reports, states.len() - 1);
                lemma_bump_sound(states.last());
                lemma_settles_frame(states.last().bump(), n);
            }
        },
        Event::Reap { now, count } => {
            lemma_reaped(s, n, now, count);
        },
        _ => {},
    }
}

/// Changes are counted up, never down, and the epoch stays what it was.
pub proof fn law_revision_never_decreases(s: Model, event: Event, n: Model)
    requires
        s.wf(),
        event.ok(),
        s.steps(event, n),
    ensures
        n.revision >= s.revision,
        n.epoch == s.epoch,
{
    match event {
        Event::Completed { identity, report, digest } => {
            if let Verdict::Settling(mid) = s.completed(identity, report, digest) {
                lemma_mid_sound(s, event, mid);
                lemma_settles_frame(mid, n);
            }
        },
        Event::Failed { identity, fence, message, class, now } => {
            if let Verdict::Settling(mid) = s.failed(identity, fence, message, class, now) {
                lemma_mid_sound(s, event, mid);
                lemma_settles_frame(mid, n);
            }
        },
        Event::Cancel { id } => {
            if let Verdict::Settling(mid) = s.cancelled(id) {
                lemma_mid_sound(s, event, mid);
                lemma_settles_frame(mid, n);
            }
        },
        Event::CancelAcknowledged { identity, fence } => {
            if let Verdict::Settling(mid) = s.cancel_acknowledged(identity, fence) {
                lemma_mid_sound(s, event, mid);
                lemma_settles_frame(mid, n);
            }
        },
        Event::Expire { now, reports } => {
            if reports.len() > 0 {
                let states = choose|states: Seq<Model>| #[trigger]
                    s.forget_run(states, now, reports) && states.last().bump().settles_to(n);
                lemma_forget_run(s, states, now, reports, states.len() - 1);
                lemma_bump_sound(states.last());
                lemma_settles_frame(states.last().bump(), n);
            }
        },
        Event::Reap { now, count } => {
            lemma_reaped(s, n, now, count);
        },
        _ => {},
    }
}

/// After an expiry no worker with a lapsed lease is left, and none of them is
/// recognised any more.
pub proof fn law_expired_workers_are_fenced_out(
    s: Model,
    n: Model,
    now: u64,
    reports: Seq<WorkerExpiry>,
    identity: WorkerIdentity,
)
    requires
        s.wf(),
        s.expires_to(n, now, reports),
        s.lapsed(identity.node_id, now),
    ensures
        !n.workers.contains_key(identity.node_id),
        !n.identity_ok(identity),
{
    let i = choose|i: int| 0 <= i < reports.len() && (#[trigger] reports[i]).node == identity.node_id;
    assert(reports[i].node == identity.node_id);
    let states = choose|states: Seq<Model>| #[trigger]
        s.forget_run(states, now, reports) && states.last().bump().settles_to(n);
    lemma_forget_run(s, states, now, reports, states.len() - 1);
    assert(!states.last().workers.contains_key(identity.node_id));
    lemma_bump_sound(states.last());
    lemma_settles_frame(states.last().bump(), n);
}

} // verus!
