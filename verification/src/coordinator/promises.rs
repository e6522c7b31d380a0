//! What clients and workers may count on, said of the records themselves: who gets
//! which task, which requests are accepted, and what each leaves behind.
use vstd::prelude::*;

use crate::coordinator::laws::{
    law_assignment_keeps_invariant, law_chosen_is_servable, lemma_bump_sound, lemma_scan, lemma_succeeded_sound,
};
use crate::coordinator::machine::{lemma_forget_run, lemma_settles_frame};
use crate::coordinator::model::{CompletionModel, Model, ObjectModel, Phase, TaskModel, Verdict, WorkerModel};
use crate::coordinator::reports::law_free_worker_gets_work;
use crate::coordinator::{meets, submit_met, ObjectState, WorkerExpiry, WorkerState};
use crate::error::{Error, ErrorModel};
use crate::ids::{Attempt, LeaseId, NodeId, ObjectId, TaskId};
use crate::operation::{ArgModel, KeyModel};
use crate::protocol::{TaskFence, WorkerIdentity};
use crate::resources::{amount, is_resource_map};

verus! {

/// Every amount that is asked for is there.
pub open spec fn covers(have: Map<Seq<char>, int>, asked: Map<Seq<char>, int>) -> bool {
    forall|name: Seq<char>| #[trigger]
        asked.contains_key(name) ==> have.contains_key(name) && asked[name] <= have[name]
}

/// The task is queued, due and of an operation that the worker has registered, and
/// what it asks for is free on the worker.
pub open spec fn can_take(s: Model, node: NodeId, now: u64, id: TaskId) -> bool {
    &&& s.tasks.contains_key(id)
    &&& s.tasks[id].state is Runnable
    &&& s.tasks[id].not_before_ms <= now
    &&& s.workers[node].operations.contains_key(s.tasks[id].operation)
    &&& covers(s.workers[node].available, s.tasks[id].resources)
}

/// The identity is the worker's own registration with this coordinator, and the
/// fence is that of the task's latest assignment, to this worker.
pub open spec fn holds(s: Model, identity: WorkerIdentity, fence: TaskFence) -> bool {
    &&& identity.coordinator_epoch == s.epoch
    &&& s.workers.contains_key(identity.node_id)
    &&& s.workers[identity.node_id].identity == identity
    &&& s.tasks.contains_key(fence.task_id)
    &&& s.tasks[fence.task_id].attempt == fence.attempt
    &&& s.tasks[fence.task_id].assigned == Some(
        (identity.node_id, identity.worker_epoch, identity.session_id, fence.lease_id),
    )
}

proof fn lemma_covers(have: Map<Seq<char>, int>, asked: Map<Seq<char>, int>)
    requires
        is_resource_map(asked),
    ensures
        covers(have, asked) <==> crate::resources::fits(have, asked),
{
    if covers(have, asked) {
        assert forall|name: Seq<char>| #[trigger] asked.contains_key(name) implies amount(have, name)
            >= asked[name] by {}
    }
    if crate::resources::fits(have, asked) {
        assert forall|name: Seq<char>| #[trigger] asked.contains_key(name) implies have.contains_key(name)
            && asked[name] <= have[name] by {
            assert(amount(have, name) >= asked[name]);
        }
    }
}

proof fn lemma_can_take(s: Model, node: NodeId, now: u64, id: TaskId)
    requires
        s.wf(),
    ensures
        can_take(s, node, now, id) <==> s.is_runnable(id) && s.servable(node, now, id),
{
    if s.tasks.contains_key(id) {
        assert(s.task_ok(id));
        lemma_covers(s.workers[node].available, s.tasks[id].resources);
    }
}

pub proof fn lemma_holds(s: Model, identity: WorkerIdentity, fence: TaskFence)
    requires
        s.wf(),
    ensures
        holds(s, identity, fence) <==> s.fence_fault(identity, fence) is None,
{
    if s.workers.contains_key(identity.node_id) {
        assert(s.worker_ok(identity.node_id));
    }
}

// ---- Handing out work ----

/// A worker is given only a task that was queued and due, of an operation that the
/// worker itself registered, and that asks for no more than is free on the worker;
/// and only while it is alive and has a free slot.
pub proof fn law_worker_gets_only_what_it_can_run(s: Model, node: NodeId, now: u64, lease: LeaseId, id: TaskId)
    requires
        s.wf(),
        s.workers.contains_key(node),
        s.assigned_next(node, now, lease).1 == Some(id),
    ensures
        s.tasks.contains_key(id),
        s.tasks[id].state is Runnable,
        s.runnable.contains(id),
        s.tasks[id].not_before_ms <= now,
        s.workers[node].operations.contains_key(s.tasks[id].operation),
        forall|name: Seq<char>| #[trigger]
            s.tasks[id].resources.contains_key(name) ==> s.workers[node].available.contains_key(name)
                && s.tasks[id].resources[name] <= s.workers[node].available[name],
        s.workers[node].state == WorkerState::Alive,
        s.workers[node].free_slots > 0,
{
    law_chosen_is_servable(s, node, now);
    lemma_can_take(s, node, now, id);
}

/// A queued task that the worker does not get is as it was and stays queued: above
/// all one whose operation the worker did not register, one that is not due, and one
/// that asks for more than is free.
pub proof fn law_other_tasks_stay_queued(s: Model, node: NodeId, now: u64, lease: LeaseId, id: TaskId)
    requires
        s.wf(),
        s.workers.contains_key(node),
        s.tasks.contains_key(id),
        s.tasks[id].state is Runnable,
    ensures
        ({
            let (n, given) = s.assigned_next(node, now, lease);
            &&& given != Some(id) ==> n.tasks[id] == s.tasks[id] && n.tasks.contains_key(id) && n.runnable.contains(id)
            &&& !s.workers[node].operations.contains_key(s.tasks[id].operation) ==> given != Some(id)
            &&& s.tasks[id].not_before_ms > now ==> given != Some(id)
            &&& !covers(s.workers[node].available, s.tasks[id].resources) ==> given != Some(id)
        }),
{
    let (n, given) = s.assigned_next(node, now, lease);
    assert(s.task_ok(id));
    if given is Some {
        law_worker_gets_only_what_it_can_run(s, node, now, lease, given->0);
    }
    law_assignment_keeps_invariant(s, node, now, lease);
    if given != Some(id) {
        assert(n.tasks.contains_key(id));
        assert(n.task_ok(id));
    }
}

/// A worker that is alive and has a free slot is given a task whenever there is one
/// that it can run.
pub proof fn law_able_worker_gets_work(s: Model, node: NodeId, now: u64, lease: LeaseId, id: TaskId)
    requires
        s.wf(),
        s.workers.contains_key(node),
        s.workers[node].state == WorkerState::Alive,
        s.workers[node].free_slots > 0,
        s.tasks.contains_key(id),
        s.tasks[id].state is Runnable,
        s.tasks[id].not_before_ms <= now,
        s.workers[node].operations.contains_key(s.tasks[id].operation),
        covers(s.workers[node].available, s.tasks[id].resources),
    ensures
        s.assigned_next(node, now, lease).1 is Some,
{
    lemma_can_take(s, node, now, id);
    law_free_worker_gets_work(s, node, now, lease, id);
}

/// A worker that is draining, or has no free slot, is given nothing, and nothing
/// changes.
pub proof fn law_busy_worker_gets_nothing(s: Model, node: NodeId, now: u64, lease: LeaseId)
    requires
        s.workers[node].state != WorkerState::Alive || s.workers[node].free_slots == 0,
    ensures
        s.assigned_next(node, now, lease) == (s, None::<TaskId>),
{
}

/// The worker owns an object that the task takes.
pub open spec fn owns_input(s: Model, node: NodeId, id: TaskId) -> bool {
    exists|dep: ObjectId| #[trigger]
        s.tasks[id].args.contains(ArgModel::Object(dep)) && s.objects.contains_key(dep) && s.objects[dep].owner
            == Some(node)
}

/// Some worker owns an object that the task takes.
pub open spec fn input_is_owned(s: Model, id: TaskId) -> bool {
    exists|dep: ObjectId| #[trigger]
        s.tasks[id].args.contains(ArgModel::Object(dep)) && s.objects.contains_key(dep) && s.objects[dep].owner is Some
}

/// How many of the tasks the worker could take.
pub open spec fn takeable(s: Model, node: NodeId, now: u64, queue: Seq<TaskId>) -> int
    decreases queue.len(),
{
    if queue.len() == 0 {
        0
    } else {
        takeable(s, node, now, queue.drop_last()) + if can_take(s, node, now, queue.last()) {
            1int
        } else {
            0
        }
    }
}

proof fn lemma_owns_input(s: Model, node: NodeId, id: TaskId)
    ensures
        owns_input(s, node, id) <==> s.is_local(node, id),
        input_is_owned(s, id) <==> s.has_owned_input(id),
{
    if owns_input(s, node, id) {
        let dep = choose|dep: ObjectId| #[trigger]
            s.tasks[id].args.contains(ArgModel::Object(dep)) && s.objects.contains_key(dep) && s.objects[dep].owner
                == Some(node);
        assert(s.tasks[id].depends_on(dep) && s.owned_by(dep, node));
    }
    if s.is_local(node, id) {
        let dep = choose|dep: ObjectId| #[trigger] s.tasks[id].depends_on(dep) && s.owned_by(dep, node);
        assert(s.tasks[id].args.contains(ArgModel::Object(dep)));
    }
    if input_is_owned(s, id) {
        let dep = choose|dep: ObjectId| #[trigger]
            s.tasks[id].args.contains(ArgModel::Object(dep)) && s.objects.contains_key(dep)
                && s.objects[dep].owner is Some;
        assert(s.tasks[id].depends_on(dep));
    }
    if s.has_owned_input(id) {
        let dep = choose|dep: ObjectId| #[trigger]
            s.tasks[id].depends_on(dep) && s.objects.contains_key(dep) && s.objects[dep].owner is Some;
        assert(s.tasks[id].args.contains(ArgModel::Object(dep)));
    }
}

proof fn lemma_takeable_first(s: Model, node: NodeId, now: u64, queue: Seq<TaskId>)
    requires
        queue.len() > 0,
    ensures
        takeable(s, node, now, queue) == takeable(s, node, now, queue.skip(1)) + if can_take(s, node, now, queue[0]) {
            1int
        } else {
            0
        },
        takeable(s, node, now, queue.skip(1)) >= 0,
    decreases queue.len(),
{
    if queue.len() == 1 {
        assert(queue.drop_last() =~= Seq::<TaskId>::empty());
        assert(queue.skip(1) =~= Seq::<TaskId>::empty());
        assert(queue.last() == queue[0]);
    } else {
        lemma_takeable_first(s, node, now, queue.drop_last());
        assert(queue.drop_last().skip(1) =~= queue.skip(1).drop_last());
        assert(queue.skip(1).last() == queue.last());
        assert(queue.drop_last()[0] == queue[0]);
    }
}

proof fn lemma_passed_is_not_local(s: Model, node: NodeId, now: u64, queue: Seq<TaskId>, looked: int)
    ensures
        forall|i: int| 0 <= i < s.scan(node, now, queue, looked).passed.len() ==> !s.is_local(
            node,
            #[trigger] s.scan(node, now, queue, looked).passed[i],
        ),
    decreases queue.len(),
{
    if queue.len() == 0 || looked >= crate::coordinator::LOCALITY_LOOKAHEAD {
    } else {
        let id = queue[0];
        let rest = queue.skip(1);
        if s.is_runnable(id) && s.servable(node, now, id) && !s.is_local(node, id) {
            lemma_passed_is_not_local(s, node, now, rest, looked + 1);
            let scan = s.scan(node, now, queue, looked);
            let tail = s.scan(node, now, rest, looked + 1);
            assert forall|i: int| 0 <= i < scan.passed.len() implies !s.is_local(node, #[trigger] scan.passed[i]) by {
                if i > 0 {
                    assert(scan.passed[i] == tail.passed[i - 1]);
                }
            }
        } else {
            lemma_passed_is_not_local(s, node, now, rest, looked);
        }
    }
}

proof fn lemma_local_is_seen(s: Model, node: NodeId, now: u64, queue: Seq<TaskId>, looked: int, i: int)
    requires
        s.wf(),
        0 <= i < queue.len(),
        0 <= looked,
        can_take(s, node, now, queue[i]),
        owns_input(s, node, queue[i]),
        looked + takeable(s, node, now, queue.take(i)) < 16,
    ensures
        s.scan(node, now, queue, looked).local is Some,
    decreases i,
{
    let id = queue[0];
    let rest = queue.skip(1);
    lemma_can_take(s, node, now, id);
    lemma_owns_input(s, node, id);
    if i > 0 {
        lemma_takeable_first(s, node, now, queue.take(i));
        assert(queue.take(i).skip(1) =~= rest.take(i - 1));
        assert(queue.take(i)[0] == id);
        assert(rest[i - 1] == queue[i]);
        if can_take(s, node, now, id) {
            if !owns_input(s, node, id) {
                lemma_local_is_seen(s, node, now, rest, looked + 1, i - 1);
            }
        } else {
            lemma_local_is_seen(s, node, now, rest, looked, i - 1);
        }
    } else {
        assert(queue.take(0) =~= Seq::<TaskId>::empty());
    }
}

proof fn lemma_distant_local_is_not_seen(s: Model, node: NodeId, now: u64, queue: Seq<TaskId>, looked: int)
    requires
        s.wf(),
        0 <= looked <= 16,
        forall|i: int|
            0 <= i < queue.len() && can_take(s, node, now, #[trigger] queue[i]) && owns_input(s, node, queue[i])
                ==> looked + takeable(s, node, now, queue.take(i)) >= 16,
    ensures
        s.scan(node, now, queue, looked).local is None,
    decreases queue.len(),
{
    if queue.len() == 0 || looked >= 16 {
    } else {
        let id = queue[0];
        let rest = queue.skip(1);
        lemma_can_take(s, node, now, id);
        lemma_owns_input(s, node, id);
        assert(queue.take(0) =~= Seq::<TaskId>::empty());
        let step: int = if can_take(s, node, now, id) {
            1
        } else {
            0
        };
        assert forall|i: int|
            0 <= i < rest.len() && can_take(s, node, now, #[trigger] rest[i]) && owns_input(
                s,
                node,
                rest[i],
            ) implies looked + step + takeable(s, node, now, rest.take(i)) >= 16 by {
            assert(rest[i] == queue[i + 1]);
            lemma_takeable_first(s, node, now, queue.take(i + 1));
            assert(queue.take(i + 1).skip(1) =~= rest.take(i));
            assert(queue.take(i + 1)[0] == id);
        }
        if can_take(s, node, now, id) {
            if owns_input(s, node, id) {
                assert(can_take(s, node, now, queue[0]));
            } else {
                lemma_distant_local_is_not_seen(s, node, now, rest, looked + 1);
            }
        } else {
            lemma_distant_local_is_not_seen(s, node, now, rest, looked);
        }
    }
}

/// Among the first sixteen queued tasks that a worker could take, one that takes an
/// object of the worker's own is preferred.
pub proof fn law_own_objects_attract_work(s: Model, node: NodeId, now: u64, lease: LeaseId, i: int)
    requires
        s.wf(),
        s.workers.contains_key(node),
        s.workers[node].state == WorkerState::Alive,
        s.workers[node].free_slots > 0,
        0 <= i < s.runnable.len(),
        can_take(s, node, now, s.runnable[i]),
        owns_input(s, node, s.runnable[i]),
        takeable(s, node, now, s.runnable.take(i)) < 16,
    ensures
        s.assigned_next(node, now, lease).1 matches Some(id) && owns_input(s, node, id),
{
    lemma_local_is_seen(s, node, now, s.runnable, 0, i);
    lemma_scan(s, node, now, s.runnable, 0);
    lemma_owns_input(s, node, s.assigned_next(node, now, lease).1->0);
}

/// A worker that gets a task without an input of its own gets the first in the queue
/// that it can take; and it does get that one where no task with such an input is
/// among the first sixteen that it could take.
pub proof fn law_queue_is_served_in_order(s: Model, node: NodeId, now: u64, lease: LeaseId, i: int)
    requires
        s.wf(),
        s.workers.contains_key(node),
        s.workers[node].state == WorkerState::Alive,
        s.workers[node].free_slots > 0,
        0 <= i < s.runnable.len(),
        can_take(s, node, now, s.runnable[i]),
        forall|j: int| 0 <= j < i ==> !can_take(s, node, now, #[trigger] s.runnable[j]),
    ensures
        s.assigned_next(node, now, lease).1 matches Some(id) && (owns_input(s, node, id) || id == s.runnable[i]),
        (forall|j: int|
            0 <= j < s.runnable.len() && can_take(s, node, now, #[trigger] s.runnable[j]) && owns_input(
                s,
                node,
                s.runnable[j],
            ) ==> takeable(s, node, now, s.runnable.take(j)) >= 16) ==> s.assigned_next(node, now, lease).1 == Some(
            s.runnable[i],
        ),
{
    let given = s.assigned_next(node, now, lease).1;
    law_able_worker_gets_work(s, node, now, lease, s.runnable[i]);
    let id = given->0;
    lemma_can_take(s, node, now, s.runnable[i]);
    lemma_scan(s, node, now, s.runnable, 0);
    lemma_owns_input(s, node, id);
    if s.scan(node, now, s.runnable, 0).local is None {
        crate::coordinator::reports::law_work_is_handed_out_in_order(s, node, now, i);
        let j = choose|j: int| 0 <= j <= i && #[trigger] s.runnable[j] == id;
        law_chosen_is_servable(s, node, now);
        lemma_can_take(s, node, now, id);
        assert(s.runnable[j] == id);
    }
    if forall|j: int|
        0 <= j < s.runnable.len() && can_take(s, node, now, #[trigger] s.runnable[j]) && owns_input(
            s,
            node,
            s.runnable[j],
        ) ==> takeable(s, node, now, s.runnable.take(j)) >= 16 {
        lemma_distant_local_is_not_seen(s, node, now, s.runnable, 0);
    }
}

proof fn lemma_filter_first(queue: Seq<TaskId>, k: int, keep: spec_fn(TaskId) -> bool)
    requires
        queue.len() > 0,
        1 <= k <= queue.len(),
    ensures
        queue.take(k).filter(keep) == (if keep(queue[0]) {
            seq![queue[0]]
        } else {
            Seq::empty()
        }) + queue.skip(1).take(k - 1).filter(keep),
{
    let first = seq![queue[0]];
    let rest = queue.skip(1).take(k - 1);
    assert(queue.take(k) =~= first + rest);
    Seq::filter_distributes_over_add(first, rest, keep);
    reveal_with_fuel(Seq::filter, 2);
    assert(first.drop_last() =~= Seq::<TaskId>::empty());
    assert(first.filter(keep) =~= if keep(queue[0]) {
        seq![queue[0]]
    } else {
        Seq::empty()
    });
}

proof fn lemma_scan_shape(s: Model, node: NodeId, now: u64, queue: Seq<TaskId>, looked: int) -> (k: int)
    ensures
        0 <= k <= queue.len(),
        s.scan(node, now, queue, looked).rest == queue.skip(k),
        s.scan(node, now, queue, looked).requeue == queue.take(k).filter(
            |x: TaskId| s.is_runnable(x) && !s.servable(node, now, x),
        ),
        s.scan(node, now, queue, looked).passed == queue.take(k).filter(
            |x: TaskId| s.is_runnable(x) && s.servable(node, now, x) && !s.is_local(node, x),
        ),
        s.scan(node, now, queue, looked).local matches Some(id) ==> k > 0 && queue[k - 1] == id,
        forall|i: int|
            0 <= i < k && s.is_runnable(#[trigger] queue[i]) && s.servable(node, now, queue[i]) && s.is_local(
                node,
                queue[i],
            ) ==> s.scan(node, now, queue, looked).local == Some(queue[i]),
    decreases queue.len(),
{
    let wait = |x: TaskId| s.is_runnable(x) && !s.servable(node, now, x);
    let pass = |x: TaskId| s.is_runnable(x) && s.servable(node, now, x) && !s.is_local(node, x);
    let scan = s.scan(node, now, queue, looked);
    if queue.len() == 0 || looked >= crate::coordinator::LOCALITY_LOOKAHEAD {
        assert(queue.skip(0) =~= queue);
        assert(queue.take(0) =~= Seq::<TaskId>::empty());
        reveal(Seq::filter);
        0
    } else {
        let id = queue[0];
        let rest = queue.skip(1);
        if s.is_runnable(id) && s.servable(node, now, id) && s.is_local(node, id) {
            lemma_filter_first(queue, 1, wait);
            lemma_filter_first(queue, 1, pass);
            assert(rest.take(0) =~= Seq::<TaskId>::empty());
            reveal(Seq::filter);
            assert(scan.requeue =~= queue.take(1).filter(wait));
            assert(scan.passed =~= queue.take(1).filter(pass));
            1
        } else {
            let next = if s.is_runnable(id) && s.servable(node, now, id) {
                looked + 1
            } else {
                looked
            };
            let k = lemma_scan_shape(s, node, now, rest, next);
            let tail = s.scan(node, now, rest, next);
            lemma_filter_first(queue, k + 1, wait);
            lemma_filter_first(queue, k + 1, pass);
            assert(rest.skip(k) =~= queue.skip(k + 1));
            assert(scan.requeue =~= queue.take(k + 1).filter(wait));
            assert(scan.passed =~= queue.take(k + 1).filter(pass));
            if tail.local is Some {
                assert(rest[k - 1] == queue[k]);
            }
            assert forall|i: int|
                0 <= i < k + 1 && s.is_runnable(#[trigger] queue[i]) && s.servable(node, now, queue[i]) && s.is_local(
                    node,
                    queue[i],
                ) implies scan.local == Some(queue[i]) by {
                if i > 0 {
                    assert(rest[i - 1] == queue[i]);
                }
            }
            k + 1
        }
    }
}

proof fn lemma_filter_same(queue: Seq<TaskId>, one: spec_fn(TaskId) -> bool, other: spec_fn(TaskId) -> bool)
    requires
        forall|i: int| 0 <= i < queue.len() ==> one(#[trigger] queue[i]) == other(queue[i]),
    ensures
        queue.filter(one) == queue.filter(other),
    decreases queue.len(),
{
    reveal(Seq::filter);
    if queue.len() > 0 {
        let rest = queue.drop_last();
        assert forall|i: int| 0 <= i < rest.len() implies one(#[trigger] rest[i]) == other(rest[i]) by {
            assert(rest[i] == queue[i]);
        }
        lemma_filter_same(rest, one, other);
        assert(queue[queue.len() - 1] == queue.last());
    }
}

proof fn lemma_filter_twice(
    queue: Seq<TaskId>,
    one: spec_fn(TaskId) -> bool,
    other: spec_fn(TaskId) -> bool,
    both: spec_fn(TaskId) -> bool,
)
    requires
        forall|x: TaskId| #[trigger] both(x) == (one(x) && other(x)),
    ensures
        queue.filter(one).filter(other) == queue.filter(both),
    decreases queue.len(),
{
    reveal(Seq::filter);
    if queue.len() > 0 {
        let rest = queue.drop_last();
        lemma_filter_twice(rest, one, other, both);
        if one(queue.last()) {
            assert(rest.filter(one).push(queue.last()).drop_last() =~= rest.filter(one));
        }
        assert(both(queue.last()) == (one(queue.last()) && other(queue.last())));
    }
}

/// A queue that was looked at for a worker keeps its order: what the worker could have
/// taken stays in front, then comes what was not looked at, and what it can not take goes
/// to the back. Only the task that it got and entries of tasks that are no longer queued
/// are gone, and everything up to the task that it got was looked at.
pub proof fn law_queue_keeps_its_order(s: Model, node: NodeId, now: u64, lease: LeaseId) -> (k: int)
    requires
        s.wf(),
        s.workers.contains_key(node),
        s.workers[node].state == WorkerState::Alive,
        s.workers[node].free_slots > 0,
    ensures
        0 <= k <= s.runnable.len(),
        ({
            let (n, given) = s.assigned_next(node, now, lease);
            let looked = s.runnable.take(k);
            &&& n.runnable == looked.filter(|x: TaskId| can_take(s, node, now, x) && given != Some(x))
                + s.runnable.skip(k) + looked.filter(
                |x: TaskId| s.tasks.contains_key(x) && s.tasks[x].state is Runnable && !can_take(s, node, now, x),
            )
            &&& given matches Some(id) ==> looked.contains(id)
            &&& given is None ==> k == s.runnable.len()
        }),
{
    let (n, given) = s.assigned_next(node, now, lease);
    let scan = s.scan(node, now, s.runnable, 0);
    let k = lemma_scan_shape(s, node, now, s.runnable, 0);
    let looked = s.runnable.take(k);
    let wait = |x: TaskId| s.is_runnable(x) && !s.servable(node, now, x);
    let pass = |x: TaskId| s.is_runnable(x) && s.servable(node, now, x) && !s.is_local(node, x);
    let kept = |x: TaskId| can_take(s, node, now, x) && given != Some(x);
    let back = |x: TaskId| s.tasks.contains_key(x) && s.tasks[x].state is Runnable && !can_take(s, node, now, x);
    assert forall|i: int| 0 <= i < looked.len() implies wait(#[trigger] looked[i]) == back(looked[i]) by {
        lemma_can_take(s, node, now, looked[i]);
    }
    lemma_filter_same(looked, wait, back);
    match given {
        Some(id) => {
            let other = |x: TaskId| x != id;
            let both = |x: TaskId| pass(x) && other(x);
            lemma_filter_twice(looked, pass, other, both);
            assert forall|i: int| 0 <= i < looked.len() implies both(#[trigger] looked[i]) == kept(looked[i]) by {
                let x = looked[i];
                assert(x == s.runnable[i]);
                lemma_can_take(s, node, now, x);
                if can_take(s, node, now, x) && s.is_local(node, x) {
                    assert(scan.local == Some(x));
                }
            }
            lemma_filter_same(looked, both, kept);
            if scan.local is Some {
                assert(looked[k - 1] == id);
            } else {
                assert(scan.passed[0] == id);
                looked.lemma_filter_pred(pass, 0);
                assert(looked.filter(pass).contains(id));
                looked.lemma_filter_contains_rev(pass, id);
            }
        },
        None => {
            assert forall|i: int| 0 <= i < looked.len() implies pass(#[trigger] looked[i]) == kept(looked[i]) by {
                let x = looked[i];
                assert(x == s.runnable[i]);
                lemma_can_take(s, node, now, x);
            }
            lemma_filter_same(looked, pass, kept);
            lemma_scan_reaches_the_end(s, node, now, s.runnable, 0);
            if k < s.runnable.len() {
                assert(s.runnable.skip(k).len() > 0);
            }
        },
    }
    k
}

proof fn lemma_scan_reaches_the_end(s: Model, node: NodeId, now: u64, queue: Seq<TaskId>, looked: int)
    requires
        looked == 0,
        s.scan(node, now, queue, looked).passed.len() == 0,
        s.scan(node, now, queue, looked).local is None,
    ensures
        s.scan(node, now, queue, looked).rest.len() == 0,
    decreases queue.len(),
{
    if queue.len() > 0 {
        lemma_scan_reaches_the_end(s, node, now, queue.skip(1), looked);
    }
}

/// A worker that is given a task holds it under the new lease, as one attempt more,
/// and has a slot and what the task asks for taken off it. The counts say how many
/// tasks were handed out, how many of these took an object that some worker owned, and
/// how many one of the worker's own. Nothing else changes but the queue.
pub proof fn law_assignment_takes_what_it_gives(s: Model, node: NodeId, now: u64, lease: LeaseId, id: TaskId)
    requires
        s.wf(),
        s.workers.contains_key(node),
        s.assigned_next(node, now, lease).1 == Some(id),
    ensures
        ({
            let n = s.assigned_next(node, now, lease).0;
            let worker = s.workers[node];
            &&& n.tasks == s.tasks.insert(
                id,
                TaskModel {
                    state: Phase::Assigned,
                    attempt: n.tasks[id].attempt,
                    assigned: Some((node, worker.identity.worker_epoch, worker.identity.session_id, lease)),
                    ..s.tasks[id]
                },
            )
            &&& n.tasks[id].attempt.0 == s.tasks[id].attempt.0 + 1
            &&& n.workers == s.workers.insert(
                node,
                WorkerModel {
                    available: n.workers[node].available,
                    free_slots: n.workers[node].free_slots,
                    ..worker
                },
            )
            &&& n.workers[node].free_slots == worker.free_slots - 1
            &&& forall|name: Seq<char>| #[trigger]
                amount(n.workers[node].available, name) == amount(worker.available, name) - amount(
                    s.tasks[id].resources,
                    name,
                )
            &&& n.sched_assigns == s.sched_assigns + 1
            &&& n.sched_owned_input == s.sched_owned_input + if input_is_owned(s, id) {
                1int
            } else {
                0
            }
            &&& n.sched_local_hits == s.sched_local_hits + if owns_input(s, node, id) {
                1int
            } else {
                0
            }
            &&& n == Model {
                tasks: n.tasks,
                workers: n.workers,
                runnable: n.runnable,
                sched_assigns: n.sched_assigns,
                sched_owned_input: n.sched_owned_input,
                sched_local_hits: n.sched_local_hits,
                revision: s.revision + 1,
                ..s
            }
        }),
{
    let scan = s.scan(node, now, s.runnable, 0);
    law_worker_gets_only_what_it_can_run(s, node, now, lease, id);
    assert(s.task_ok(id));
    assert(s.worker_ok(node));
    lemma_covers(s.workers[node].available, s.tasks[id].resources);
    crate::resources::lemma_minus(s.workers[node].available, s.tasks[id].resources);
    lemma_owns_input(s, node, id);
    lemma_scan(s, node, now, s.runnable, 0);
    lemma_passed_is_not_local(s, node, now, s.runnable, 0);
    let requeued = Model { runnable: scan.queue(), ..s };
    lemma_owns_input(requeued, node, id);
    assert(input_is_owned(requeued, id) == input_is_owned(s, id));
    if owns_input(s, node, id) {
        let dep = choose|dep: ObjectId| #[trigger]
            s.tasks[id].args.contains(ArgModel::Object(dep)) && s.objects.contains_key(dep) && s.objects[dep].owner
                == Some(node);
        assert(s.tasks[id].args.contains(ArgModel::Object(dep)) && s.objects[dep].owner is Some);
        if scan.local is None {
            assert(!s.is_local(node, scan.passed[0]));
        }
    }
}

/// A worker that asks and gets nothing leaves every record as it was.
pub proof fn law_asking_in_vain_changes_no_record(s: Model, node: NodeId, now: u64, lease: LeaseId)
    requires
        s.assigned_next(node, now, lease).1 is None,
    ensures
        s.assigned_next(node, now, lease).0 == (Model { runnable: s.assigned_next(node, now, lease).0.runnable, ..s }),
{
}

// ---- Leases ----

/// A heartbeat under a worker's own identity sets its deadline to `lease_ms` from
/// now, or to the end of time if that is sooner, and changes nothing else.
pub proof fn law_heartbeat_renews_lease(s: Model, identity: WorkerIdentity, now: u64, lease_ms: u64)
    requires
        s.wf(),
        identity.coordinator_epoch == s.epoch,
        s.workers.contains_key(identity.node_id),
        s.workers[identity.node_id].identity == identity,
    ensures
        s.heard(identity, now, lease_ms) is Next,
        ({
            let n = s.heard(identity, now, lease_ms)->Next_0;
            let node = identity.node_id;
            &&& n.workers.contains_key(node)
            &&& n.workers[node].lease_deadline_ms == if now + lease_ms <= u64::MAX {
                now + lease_ms
            } else {
                u64::MAX as int
            }
            &&& n.workers[node] == (WorkerModel {
                lease_deadline_ms: n.workers[node].lease_deadline_ms,
                ..s.workers[node]
            })
            &&& n == Model { workers: s.workers.insert(node, n.workers[node]), ..s }
        }),
{
    assert(s.worker_ok(identity.node_id));
}

/// A heartbeat under any other identity is refused.
pub proof fn law_heartbeat_of_a_stranger_is_refused(s: Model, identity: WorkerIdentity, now: u64, lease_ms: u64)
    requires
        s.wf(),
        identity.coordinator_epoch != s.epoch || !s.workers.contains_key(identity.node_id)
            || s.workers[identity.node_id].identity != identity,
    ensures
        s.heard(identity, now, lease_ms) == Verdict::Refused(ErrorModel::StaleFence),
{
    if s.workers.contains_key(identity.node_id) {
        assert(s.worker_ok(identity.node_id));
    }
}

/// An expiry drops exactly the workers whose deadline has come, whatever state they
/// are in, and reports each of them once.
pub proof fn law_expiry_drops_exactly_the_late(
    s: Model,
    n: Model,
    now: u64,
    reports: Seq<WorkerExpiry>,
    node: NodeId,
)
    requires
        s.wf(),
        s.expires_to(n, now, reports),
        s.workers.contains_key(node),
    ensures
        n.workers.contains_key(node) <==> now < s.workers[node].lease_deadline_ms,
        (exists|i: int| 0 <= i < reports.len() && (#[trigger] reports[i]).node == node) <==> now
            >= s.workers[node].lease_deadline_ms,
{
    assert(s.worker_ok(node));
    if reports.len() == 0 {
        if now >= s.workers[node].lease_deadline_ms {
            assert(s.lapsed(node, now));
        }
    } else {
        let states = choose|states: Seq<Model>| #[trigger]
            s.forget_run(states, now, reports) && states.last().bump().settles_to(n);
        lemma_forget_run(s, states, now, reports, states.len() - 1);
        lemma_bump_sound(states.last());
        lemma_settles_frame(states.last().bump(), n);
        if now >= s.workers[node].lease_deadline_ms {
            assert(s.lapsed(node, now));
        }
    }
}

/// A worker that was heard from at `now` is safe until its lease has run: an expiry at
/// any time before `now + lease_ms` leaves it registered.
pub proof fn law_heard_worker_survives_its_lease(
    s: Model,
    identity: WorkerIdentity,
    now: u64,
    lease_ms: u64,
    later: u64,
    n: Model,
    reports: Seq<WorkerExpiry>,
)
    requires
        s.wf(),
        s.heard(identity, now, lease_ms) is Next,
        now <= later < now + lease_ms,
        later < u64::MAX,
        s.heard(identity, now, lease_ms)->Next_0.expires_to(n, later, reports),
    ensures
        n.workers.contains_key(identity.node_id),
{
    if identity.coordinator_epoch != s.epoch || !s.workers.contains_key(identity.node_id)
        || s.workers[identity.node_id].identity != identity {
        law_heartbeat_of_a_stranger_is_refused(s, identity, now, lease_ms);
    }
    law_heartbeat_renews_lease(s, identity, now, lease_ms);
    let heard = s.heard(identity, now, lease_ms)->Next_0;
    crate::coordinator::laws::law_heartbeat_keeps_invariant(s, identity, now, lease_ms);
    law_expiry_drops_exactly_the_late(heard, n, later, reports, identity.node_id);
}

// ---- Results ----

/// The worker at `node` has one more slot free and `resources` more to give, and the
/// other workers are as they were.
pub open spec fn gives_back(s: Model, n: Model, node: NodeId, resources: Map<Seq<char>, int>) -> bool {
    &&& n.workers.dom() == s.workers.dom()
    &&& n.workers[node].free_slots == s.workers[node].free_slots + 1
    &&& forall|name: Seq<char>| #[trigger]
        amount(n.workers[node].available, name) == amount(s.workers[node].available, name) + amount(resources, name)
    &&& n.workers[node] == (WorkerModel {
        free_slots: n.workers[node].free_slots,
        available: n.workers[node].available,
        ..s.workers[node]
    })
    &&& forall|other: NodeId| other != node ==> #[trigger] n.workers[other] == s.workers[other]
}

pub proof fn lemma_gives_back(s: Model, n: Model, identity: WorkerIdentity, fence: TaskFence)
    requires
        s.wf(),
        holds(s, identity, fence),
        n.workers == s.released(identity.node_id, s.tasks[fence.task_id].resources).workers,
    ensures
        gives_back(s, n, identity.node_id, s.tasks[fence.task_id].resources),
{
    let node = identity.node_id;
    let id = fence.task_id;
    assert(s.task_ok(id));
    assert(s.worker_ok(node));
    crate::coordinator::laws::lemma_release_room(s, id, node);
    crate::resources::lemma_plus(s.workers[node].available, s.tasks[id].resources);
    assert(n.workers.dom() =~= s.workers.dom());
}

/// A result is accepted whenever the worker holds the task, has not been asked to
/// let go of it, and describes the output that was asked for: under its id, in the
/// operation's codec, at the worker's own address, within the size limit, and with
/// bytes only if they are what the report says. The bytes need not be sent along.
/// The task has then succeeded, its output is there for all to read, and the worker
/// has back what the task took.
pub proof fn law_result_is_accepted(
    s: Model,
    n: Model,
    identity: WorkerIdentity,
    report: CompletionModel,
    digest: Seq<u8>,
    r: Result<(), ErrorModel>,
)
    requires
        s.wf(),
        holds(s, identity, report.fence),
        s.tasks[report.fence.task_id].state is Assigned || s.tasks[report.fence.task_id].state is Running,
        report.output_id == s.tasks[report.fence.task_id].output,
        report.codec == s.operations[s.tasks[report.fence.task_id].operation].output_codec,
        report.location == s.workers[identity.node_id].advertise_addr,
        report.size_bytes <= 8_323_072,
        report.bytes matches Some(bytes) ==> bytes.len() == report.size_bytes && digest == report.checksum@,
        meets(s.completed(identity, report, digest), s, n, r),
    ensures
        r is Ok,
        n.tasks[report.fence.task_id] == (TaskModel {
            state: Phase::Succeeded,
            assigned: None,
            ..s.tasks[report.fence.task_id]
        }),
        n.objects.contains_key(report.output_id),
        n.objects[report.output_id] == (ObjectModel {
            id: report.output_id,
            state: ObjectState::Available,
            codec: Some(report.codec),
            bytes: report.bytes,
            size_bytes: Some(report.size_bytes),
            checksum: Some(report.checksum),
            location: Some(report.location),
            owner: Some(identity.node_id),
        }),
        gives_back(s, n, identity.node_id, s.tasks[report.fence.task_id].resources),
        n.revision == s.revision + 1,
{
    let id = report.fence.task_id;
    lemma_holds(s, identity, report.fence);
    assert(s.task_ok(id));
    assert(s.object_ok(report.output_id));
    let mid = s.completed(identity, report, digest)->Settling_0;
    lemma_succeeded_sound(s, identity, report);
    lemma_settles_frame(mid, n);
    assert(mid.tasks.contains_key(id));
    assert(mid.task_ok(id));
    assert(!mid.waiting.contains(id));
    assert(n.tasks[id] == mid.tasks[id]);
    assert(mid.objects.contains_key(report.output_id));
    lemma_gives_back(s, n, identity, report.fence);
}

/// A result that names another output, codec or place, is too large, or comes with
/// other bytes than it says, is refused; and so is any result of a task that the
/// worker does not hold or was asked to let go of, but for one that repeats what is
/// on record.
pub proof fn law_result_is_refused(
    s: Model,
    n: Model,
    identity: WorkerIdentity,
    report: CompletionModel,
    digest: Seq<u8>,
    r: Result<(), ErrorModel>,
)
    requires
        s.wf(),
        meets(s.completed(identity, report, digest), s, n, r),
        s.tasks.contains_key(report.fence.task_id) ==> {
            ||| !(s.tasks[report.fence.task_id].state is Succeeded) && !holds(s, identity, report.fence)
            ||| s.tasks[report.fence.task_id].state is CancelRequested
            ||| !(s.tasks[report.fence.task_id].state is Succeeded) && (report.output_id
                != s.tasks[report.fence.task_id].output || report.codec
                != s.operations[s.tasks[report.fence.task_id].operation].output_codec || report.location
                != s.workers[identity.node_id].advertise_addr || report.size_bytes > 8_323_072)
            ||| !(s.tasks[report.fence.task_id].state is Succeeded) && report.bytes is Some && (report.bytes->0.len()
                != report.size_bytes || digest != report.checksum@)
            ||| s.tasks[report.fence.task_id].state is Succeeded && {
                let output = s.objects[s.tasks[report.fence.task_id].output];
                output.state != ObjectState::Available || output.checksum != Some(report.checksum)
                    || output.size_bytes != Some(report.size_bytes)
            }
        },
    ensures
        r is Err,
        n == s,
{
    lemma_holds(s, identity, report.fence);
}

// ---- Submissions ----

/// The argument is one that the operation takes: inline bytes in its codec and within
/// its limit, or an object of its codec that is there or will be.
pub open spec fn arg_fine(s: Model, operation: KeyModel, arg: ArgModel) -> bool {
    match arg {
        ArgModel::Inline { codec, bytes } => codec == s.operations[operation].input_codec && bytes.len()
            <= s.operations[operation].max_inline_arg_bytes,
        ArgModel::Object(id) => {
            &&& s.objects.contains_key(id)
            &&& s.objects[id].codec is None || s.objects[id].codec == Some(s.operations[operation].input_codec)
            &&& s.objects[id].state == ObjectState::Reserved || s.objects[id].state == ObjectState::Available
        },
    }
}

/// A worker that is alive offers the operation and has in all what is asked for.
pub open spec fn suits(worker: WorkerModel, operation: KeyModel, resources: Map<Seq<char>, int>) -> bool {
    worker.state == WorkerState::Alive && worker.operations.contains_key(operation) && covers(
        worker.total,
        resources,
    )
}

proof fn lemma_args_fine(s: Model, operation: KeyModel, args: Seq<ArgModel>)
    ensures
        (forall|i: int| 0 <= i < args.len() ==> arg_fine(s, operation, #[trigger] args[i])) <==> (
        s.operations[operation].args_validated(args) is Ok && s.object_args_fault(
            args,
            s.operations[operation].input_codec,
        ) is None),
    decreases args.len(),
{
    if args.len() > 0 {
        let rest = args.drop_last();
        lemma_args_fine(s, operation, rest);
        if forall|i: int| 0 <= i < args.len() ==> arg_fine(s, operation, #[trigger] args[i]) {
            assert forall|i: int| 0 <= i < rest.len() implies arg_fine(s, operation, #[trigger] rest[i]) by {
                assert(rest[i] == args[i]);
            }
            assert(arg_fine(s, operation, args[args.len() - 1]));
        } else if forall|i: int| 0 <= i < rest.len() ==> arg_fine(s, operation, #[trigger] rest[i]) {
            let i = choose|i: int| 0 <= i < args.len() && !arg_fine(s, operation, #[trigger] args[i]);
            if i < rest.len() {
                assert(rest[i] == args[i]);
            }
            assert(args.last() == args[i]);
        }
    }
}

proof fn lemma_suits(s: Model, operation: KeyModel, resources: Map<Seq<char>, int>)
    requires
        is_resource_map(resources),
    ensures
        (exists|node: NodeId| #[trigger] s.workers.contains_key(node) && suits(s.workers[node], operation, resources))
            <==> (exists|node: NodeId| #[trigger] s.could_run(node, operation, resources)),
{
    if exists|node: NodeId| #[trigger] s.workers.contains_key(node) && suits(s.workers[node], operation, resources) {
        let node = choose|node: NodeId| #[trigger]
            s.workers.contains_key(node) && suits(s.workers[node], operation, resources);
        lemma_covers(s.workers[node].total, resources);
        assert(s.could_run(node, operation, resources));
    }
    if exists|node: NodeId| #[trigger] s.could_run(node, operation, resources) {
        let node = choose|node: NodeId| #[trigger] s.could_run(node, operation, resources);
        lemma_covers(s.workers[node].total, resources);
        assert(s.workers.contains_key(node) && suits(s.workers[node], operation, resources));
    }
}

/// A submission under fresh ids is accepted if and only if it may be attempted at
/// least once, there is room in both tables, every argument is one that the operation
/// takes, and some worker that is alive offers the operation and has in all what the
/// task asks for, whatever is free on it at the moment.
pub proof fn law_submission_is_accepted_exactly_if(
    s: Model,
    n: Model,
    operation: KeyModel,
    args: Seq<ArgModel>,
    resources: Map<Seq<char>, int>,
    max_attempts: u32,
    id: TaskId,
    output: ObjectId,
    r: Result<(TaskId, ObjectId), Error>,
)
    requires
        s.wf(),
        is_resource_map(resources),
        !s.tasks.contains_key(id),
        !s.objects.contains_key(output),
        submit_met(s, n, operation, args, resources, max_attempts, id, output, r),
    ensures
        r is Ok <==> {
            &&& max_attempts > 0
            &&& s.tasks.dom().len() < 16_384
            &&& s.objects.dom().len() < 65_536
            &&& s.operations.contains_key(operation)
            &&& forall|i: int| 0 <= i < args.len() ==> arg_fine(s, operation, #[trigger] args[i])
            &&& exists|node: NodeId| #[trigger]
                s.workers.contains_key(node) && s.workers[node].state == WorkerState::Alive
                    && s.workers[node].operations.contains_key(operation) && covers(s.workers[node].total, resources)
        },
        r is Err ==> n == s,
{
    lemma_args_fine(s, operation, args);
    lemma_suits(s, operation, resources);
    if exists|node: NodeId| #[trigger] s.workers.contains_key(node) && suits(s.workers[node], operation, resources) {
        let node = choose|node: NodeId| #[trigger]
            s.workers.contains_key(node) && suits(s.workers[node], operation, resources);
        assert(s.workers.contains_key(node) && s.workers[node].state == WorkerState::Alive
            && s.workers[node].operations.contains_key(operation) && covers(s.workers[node].total, resources));
    }
    if exists|node: NodeId| #[trigger]
        s.workers.contains_key(node) && s.workers[node].state == WorkerState::Alive
            && s.workers[node].operations.contains_key(operation) && covers(s.workers[node].total, resources) {
        let node = choose|node: NodeId| #[trigger]
            s.workers.contains_key(node) && s.workers[node].state == WorkerState::Alive
                && s.workers[node].operations.contains_key(operation) && covers(s.workers[node].total, resources);
        assert(s.workers.contains_key(node) && suits(s.workers[node], operation, resources));
    }
}

/// An accepted submission adds its task and the reserved output, in the operation's
/// output codec, and nothing else: the task waits if an input is still to come, and is
/// otherwise the last in the queue.
pub proof fn law_submission_adds_its_task(
    s: Model,
    n: Model,
    operation: KeyModel,
    args: Seq<ArgModel>,
    resources: Map<Seq<char>, int>,
    max_attempts: u32,
    id: TaskId,
    output: ObjectId,
    r: Result<(TaskId, ObjectId), Error>,
)
    requires
        submit_met(s, n, operation, args, resources, max_attempts, id, output, r),
        r is Ok,
    ensures
        r->Ok_0 == (id, output),
        ({
            let waits = exists|dep: ObjectId| #[trigger]
                args.contains(ArgModel::Object(dep)) && s.objects.contains_key(dep) && s.objects[dep].state
                    == ObjectState::Reserved;
            n == Model {
                tasks: s.tasks.insert(
                    id,
                    TaskModel {
                        id,
                        operation,
                        args,
                        output,
                        resources,
                        max_attempts,
                        attempt: Attempt(0),
                        state: if waits {
                            Phase::Waiting
                        } else {
                            Phase::Runnable
                        },
                        assigned: None,
                        not_before_ms: 0,
                        terminal_since_ms: 0,
                    },
                ),
                objects: s.objects.insert(
                    output,
                    ObjectModel {
                        id: output,
                        state: ObjectState::Reserved,
                        codec: Some(s.operations[operation].output_codec),
                        bytes: None,
                        size_bytes: None,
                        checksum: None,
                        location: None,
                        owner: None,
                    },
                ),
                waiting: if waits {
                    s.waiting.insert(id)
                } else {
                    s.waiting
                },
                runnable: if waits {
                    s.runnable
                } else {
                    s.runnable.push(id)
                },
                revision: s.revision + 1,
                ..s
            }
        }),
{
}

/// Whether a submission is accepted, and what it is told otherwise, does not depend
/// on how busy the workers are.
pub proof fn law_submission_ignores_load(
    s: Model,
    t: Model,
    operation: KeyModel,
    args: Seq<ArgModel>,
    resources: Map<Seq<char>, int>,
    max_attempts: u32,
    id: TaskId,
    output: ObjectId,
)
    requires
        t == (Model { workers: t.workers, ..s }),
        t.workers.dom() == s.workers.dom(),
        forall|node: NodeId| #[trigger]
            s.workers.contains_key(node) ==> t.workers[node] == (WorkerModel {
                available: t.workers[node].available,
                free_slots: t.workers[node].free_slots,
                ..s.workers[node]
            }),
    ensures
        ({
            let one = s.submitted(operation, args, resources, max_attempts, id, output);
            let other = t.submitted(operation, args, resources, max_attempts, id, output);
            match one {
                Verdict::Refused(error) => other == one,
                Verdict::Next(n) => other == Verdict::Next(Model { workers: t.workers, ..n }),
                Verdict::Settling(_) => false,
            }
        }),
{
    assert forall|node: NodeId| #[trigger] s.could_run(node, operation, resources) == t.could_run(
        node,
        operation,
        resources,
    ) by {
        assert(s.workers.contains_key(node) == t.workers.contains_key(node));
    }
    if exists|node: NodeId| #[trigger] t.could_run(node, operation, resources) {
        let node = choose|node: NodeId| #[trigger] t.could_run(node, operation, resources);
        assert(s.could_run(node, operation, resources));
    }
    if exists|node: NodeId| #[trigger] s.could_run(node, operation, resources) {
        let node = choose|node: NodeId| #[trigger] s.could_run(node, operation, resources);
        assert(t.could_run(node, operation, resources));
    }
    lemma_object_args_same(s, t, args, s.operations[operation].input_codec);
}

proof fn lemma_object_args_same(s: Model, t: Model, args: Seq<ArgModel>, codec: crate::operation::Codec)
    requires
        t.objects == s.objects,
    ensures
        t.object_args_fault(args, codec) == s.object_args_fault(args, codec),
    decreases args.len(),
{
    if args.len() > 0 {
        lemma_object_args_same(s, t, args.drop_last(), codec);
    }
}

} // verus!
