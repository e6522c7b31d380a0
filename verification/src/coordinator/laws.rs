//! Proofs that the transitions keep the invariant, and what follows from it.
use vstd::prelude::*;

use crate::coordinator::model::{
    amount_weight, held_weight, slot_weight, CompletionModel, Model, RegisterModel, Scan, TaskModel, WorkerModel,
};
use crate::coordinator::{ObjectState, WorkerState};
use crate::ids::{LeaseId, NodeId, ObjectId, TaskId, WorkerSessionId};
use crate::operation::{by_key, ArgModel, DescriptorModel, KeyModel};
use crate::protocol::{TaskFence, WorkerIdentity};
use crate::resources::{amount, fits, is_resource_map, lemma_minus, lemma_plus, minus, overfills, plus};
use crate::sums::{
    lemma_sum_at_least, lemma_sum_insert, lemma_sum_remove, lemma_sum_range, lemma_sum_same, lemma_sum_zero, sum,
};

verus! {

/// The tasks of `b` take the same slots and amounts on `node` as those of `a`.
proof fn lemma_taken_same(a: Model, b: Model, node: NodeId)
    requires
        a.tasks.dom().finite(),
        a.tasks.dom() == b.tasks.dom(),
        forall|id: TaskId| #[trigger]
            a.tasks.contains_key(id) ==> a.tasks[id].on_node(node) == b.tasks[id].on_node(node)
                && a.tasks[id].resources == b.tasks[id].resources,
    ensures
        a.slots_taken(node) == b.slots_taken(node),
        forall|name: Seq<char>| a.amount_taken(node, name) == #[trigger] b.amount_taken(node, name),
{
    lemma_sum_same(a.tasks, b.tasks, slot_weight(node));
    assert forall|name: Seq<char>| a.amount_taken(node, name) == #[trigger] b.amount_taken(node, name) by {
        lemma_sum_same(a.tasks, b.tasks, amount_weight(node, name));
    }
}

/// Changing one task without changing who holds it leaves every account as it was.
proof fn lemma_balanced_same(a: Model, b: Model, skip: Set<NodeId>)
    requires
        a.balanced_except(skip),
        a.tasks.dom().finite(),
        a.tasks.dom() == b.tasks.dom(),
        a.workers == b.workers,
        forall|id: TaskId| #[trigger]
            a.tasks.contains_key(id) ==> a.tasks[id].assigned == b.tasks[id].assigned && a.tasks[id].resources
                == b.tasks[id].resources,
    ensures
        b.balanced_except(skip),
{
    assert forall|node: NodeId| #[trigger]
        b.workers.contains_key(node) && !skip.contains(node) implies b.accounted(node) by {
        assert(a.workers.contains_key(node));
        lemma_taken_same(a, b, node);
        assert(a.accounted(node));
        assert forall|name: Seq<char>|
            amount(b.workers[node].available, name) + #[trigger] b.amount_taken(node, name) == amount(
                b.workers[node].total,
                name,
            ) by {
            assert(a.amount_taken(node, name) == b.amount_taken(node, name));
        }
    }
}

proof fn lemma_queued_consistent(s: Model, id: TaskId)
    requires
        s.consistent(),
        s.tasks.contains_key(id),
        s.tasks[id].state is Waiting,
    ensures
        s.queued(id).consistent(),
{
    let n = s.queued(id);
    assert(n.tasks.dom() =~= s.tasks.dom());
    assert(s.task_ok(id));
    assert forall|x: TaskId| #[trigger] n.tasks.contains_key(x) implies n.task_ok(x) by {
        assert(s.task_ok(x));
        assert(n.runnable[n.runnable.len() - 1] == id);
        if s.runnable.contains(x) {
            let i = s.runnable.index_of(x);
            assert(n.runnable[i] == x);
        }
        assert forall|dep: ObjectId| #[trigger] n.tasks[x].depends_on(dep) && n.tasks[x].live() implies n.objects.contains_key(
            dep,
        ) by {
            assert(s.tasks[x].depends_on(dep));
        }
    }
    assert forall|o: ObjectId| #[trigger] n.objects.contains_key(o) implies n.object_ok(o) by {
        assert(s.object_ok(o));
        if s.objects[o].state == ObjectState::Reserved {
            let t = choose|t: TaskId| #[trigger] s.produces(t, o);
            assert(n.produces(t, o));
        }
    }
}

proof fn lemma_dependency_failed_consistent(s: Model, id: TaskId)
    requires
        s.consistent(),
        s.tasks.contains_key(id),
        s.tasks[id].state is Waiting,
    ensures
        s.dependency_failed(id).consistent(),
{
    let n = s.dependency_failed(id);
    let out = s.tasks[id].output;
    assert(s.task_ok(id));
    assert(n.tasks.dom() =~= s.tasks.dom());
    assert(n.objects.dom() =~= s.objects.dom());
    assert forall|x: TaskId| #[trigger] n.tasks.contains_key(x) implies n.task_ok(x) by {
        assert(s.task_ok(x));
    }
    assert forall|o: ObjectId| #[trigger] n.objects.contains_key(o) implies n.object_ok(o) by {
        assert(s.object_ok(o));
        if n.objects[o].state == ObjectState::Reserved {
            let t = choose|t: TaskId| #[trigger] s.produces(t, o);
            assert(t != id);
            assert(n.produces(t, o));
        }
    }
}

proof fn lemma_settle_one_sound(s: Model, id: TaskId)
    requires
        s.sound(),
        s.must_fail(id) || s.may_run(id),
    ensures
        s.settle_one(id).sound(),
{
    let n = s.settle_one(id);
    assert(s.waiting.contains(id));
    assert(s.task_ok(id));
    if s.must_fail(id) {
        lemma_dependency_failed_consistent(s, id);
    } else {
        lemma_queued_consistent(s, id);
    }
    assert(n.tasks.dom() =~= s.tasks.dom());
    lemma_balanced_same(s, n, Set::empty());
}

/// Settling the waiting tasks keeps the invariant.
pub proof fn lemma_settle_run_sound(s: Model, order: Seq<TaskId>)
    requires
        s.sound(),
        s.settle_order(order),
    ensures
        s.settle_run(order).sound(),
    decreases order.len(),
{
    if order.len() > 0 {
        lemma_settle_run_sound(s, order.drop_last());
        lemma_settle_one_sound(s.settle_run(order.drop_last()), order.last());
    }
}

/// `n` differs from `s` in the task `id`, in its output, and in what is free on workers.
pub open spec fn touches_one(s: Model, n: Model, id: TaskId) -> bool {
    let old_task = s.tasks[id];
    let new_task = n.tasks[id];
    let out = old_task.output;
    &&& n.epoch == s.epoch
    &&& n.operations == s.operations
    &&& n.pending_deletes == s.pending_deletes
    &&& n.workers.dom() == s.workers.dom()
    &&& forall|node: NodeId| #[trigger]
        s.workers.contains_key(node) ==> n.workers[node].identity == s.workers[node].identity
            && n.workers[node].state == s.workers[node].state && n.workers[node].total == s.workers[node].total
            && n.workers[node].operations == s.workers[node].operations && is_resource_map(
            n.workers[node].available,
        )
    &&& s.tasks.contains_key(id)
    &&& n.tasks == s.tasks.insert(id, new_task)
    &&& n.objects == s.objects.insert(out, n.objects[out])
    &&& new_task.args == old_task.args
    &&& new_task.output == old_task.output
    &&& forall|x: TaskId| x != id ==> (#[trigger] n.waiting.contains(x) <==> s.waiting.contains(x))
    &&& forall|x: TaskId| x != id ==> (#[trigger] n.cancel_requested.contains(x) <==> s.cancel_requested.contains(x))
    &&& forall|x: TaskId| x != id && s.is_runnable(x) ==> #[trigger] n.runnable.contains(x)
}

/// A change of one task and its output keeps the tables consistent if the two
/// fit together afterwards.
proof fn lemma_touch_consistent(s: Model, n: Model, id: TaskId)
    requires
        s.consistent(),
        touches_one(s, n, id),
        n.task_ok(id),
        n.objects[s.tasks[id].output].id == s.tasks[id].output,
        n.object_ok(s.tasks[id].output),
    ensures
        n.consistent(),
{
    let out = s.tasks[id].output;
    assert(s.task_ok(id));
    assert(n.tasks.dom() =~= s.tasks.dom());
    assert(n.objects.dom() =~= s.objects.dom());
    assert forall|node: NodeId| #[trigger] n.workers.contains_key(node) implies n.worker_ok(node) by {
        assert(s.workers.contains_key(node));
        assert(s.worker_ok(node));
    }
    assert forall|key: KeyModel| #[trigger] n.operations.contains_key(key) implies n.operation_ok(key) by {
        assert(s.operation_ok(key));
    }
    assert forall|x: TaskId| #[trigger] n.tasks.contains_key(x) implies n.task_ok(x) by {
        assert(s.task_ok(x));
        if x != id {
            assert(n.tasks[x] == s.tasks[x]);
            assert(s.tasks[x].output != s.tasks[id].output);
            assert(n.waiting.contains(x) <==> s.waiting.contains(x));
            assert(n.cancel_requested.contains(x) <==> s.cancel_requested.contains(x));
            if s.tasks[x].state is Runnable {
                assert(s.is_runnable(x));
                assert(n.runnable.contains(x));
            }
            assert(n.holder_ok(n.tasks[x])) by {
                assert(s.holder_ok(s.tasks[x]));
            }
            assert(n.output_ok(n.tasks[x]));
        }
    }
    assert forall|x: TaskId| #[trigger] n.waiting.contains(x) implies n.tasks.contains_key(x) by {
        if x != id {
            assert(s.waiting.contains(x));
        }
    }
    assert forall|x: TaskId| #[trigger] n.cancel_requested.contains(x) implies n.tasks.contains_key(x) by {
        if x != id {
            assert(s.cancel_requested.contains(x));
        }
    }
    assert forall|o: ObjectId| #[trigger] n.objects.contains_key(o) implies n.object_ok(o) by {
        if o != out {
            assert(s.object_ok(o));
            if s.objects[o].state == ObjectState::Reserved {
                let t = choose|t: TaskId| #[trigger] s.produces(t, o);
                assert(t != id);
                assert(n.produces(t, o));
            }
        }
    }
    assert forall|a: TaskId, b: TaskId|
        #![trigger n.tasks[a], n.tasks[b]]
        n.tasks.contains_key(a) && n.tasks.contains_key(b) && a != b implies n.tasks[a].output
        != n.tasks[b].output by {
        assert(s.tasks[a].output != s.tasks[b].output);
    }
}

/// A held task's slot and resources can be given back to its worker.
pub proof fn lemma_release_room(s: Model, id: TaskId, node: NodeId)
    requires
        s.sound(),
        s.tasks.contains_key(id),
        s.tasks[id].on_node(node),
    ensures
        s.workers.contains_key(node),
        s.workers[node].free_slots < s.workers[node].slots,
        is_resource_map(s.tasks[id].resources),
        !overfills(s.workers[node].available, s.tasks[id].resources, s.workers[node].total),
        is_resource_map(plus(s.workers[node].available, s.tasks[id].resources)),
        forall|name: Seq<char>| #[trigger]
            amount(plus(s.workers[node].available, s.tasks[id].resources), name) == amount(
                s.workers[node].available,
                name,
            ) + amount(s.tasks[id].resources, name),
{
    let task = s.tasks[id];
    let worker = s.workers[node];
    assert(s.task_ok(id));
    assert(s.workers.contains_key(node));
    assert(s.worker_ok(node));
    assert(s.accounted(node));
    assert forall|x: TaskId| #[trigger] s.tasks.contains_key(x) implies 0 <= slot_weight(node)(s.tasks[x]) by {}
    lemma_sum_at_least(s.tasks, slot_weight(node), id);
    assert forall|name: Seq<char>| #[trigger] task.resources.contains_key(name) implies amount(
        worker.available,
        name,
    ) + task.resources[name] <= amount(worker.total, name) by {
        assert forall|x: TaskId| #[trigger] s.tasks.contains_key(x) implies 0 <= amount_weight(node, name)(
            s.tasks[x],
        ) by {
            assert(s.task_ok(x));
            if s.tasks[x].resources.contains_key(name) {
            }
        }
        lemma_sum_at_least(s.tasks, amount_weight(node, name), id);
        assert(amount(worker.available, name) + s.amount_taken(node, name) == amount(worker.total, name));
    }
    assert forall|name: Seq<char>| #[trigger] task.resources.contains_key(name) implies amount(
        worker.available,
        name,
    ) + task.resources[name] <= i64::MAX by {
        assert(amount(worker.total, name) <= i64::MAX) by {
            if worker.total.contains_key(name) {
            }
        }
    }
    lemma_plus(worker.available, task.resources);
}

/// Taking a task off its worker and freeing what it held keeps the accounts.
proof fn lemma_released_balanced(s: Model, n: Model, id: TaskId, node: NodeId)
    requires
        s.sound(),
        s.tasks.contains_key(id),
        s.tasks[id].on_node(node),
        n.workers == s.released(node, s.tasks[id].resources).workers,
        n.tasks == s.tasks.insert(id, n.tasks[id]),
        n.tasks[id].assigned is None,
    ensures
        n.balanced_except(Set::empty()),
{
    lemma_release_room(s, id, node);
    assert forall|m: NodeId| #[trigger]
        n.workers.contains_key(m) && !Set::<NodeId>::empty().contains(m) implies n.accounted(m) by {
        assert(s.workers.contains_key(m));
        assert(s.accounted(m));
        lemma_sum_insert(s.tasks, slot_weight(m), id, n.tasks[id]);
        assert forall|name: Seq<char>|
            amount(n.workers[m].available, name) + #[trigger] n.amount_taken(m, name) == amount(
                n.workers[m].total,
                name,
            ) by {
            lemma_sum_insert(s.tasks, amount_weight(m, name), id, n.tasks[id]);
            assert(amount(s.workers[m].available, name) + s.amount_taken(m, name) == amount(
                s.workers[m].total,
                name,
            ));
            if m == node {
                assert(amount(n.workers[m].available, name) == amount(s.workers[node].available, name) + amount(
                    s.tasks[id].resources,
                    name,
                ));
            }
        }
    }
}

/// Giving a task to a worker and taking what it needs keeps the accounts.
proof fn lemma_assigned_balanced(s: Model, n: Model, id: TaskId, node: NodeId)
    requires
        s.sound(),
        s.tasks.contains_key(id),
        s.tasks[id].assigned is None,
        s.workers.contains_key(node),
        s.workers[node].free_slots > 0,
        fits(s.workers[node].available, s.tasks[id].resources),
        n.tasks == s.tasks.insert(id, n.tasks[id]),
        n.tasks[id].on_node(node),
        n.tasks[id].resources == s.tasks[id].resources,
        n.workers == s.workers.insert(
            node,
            WorkerModel {
                available: minus(s.workers[node].available, s.tasks[id].resources),
                free_slots: (s.workers[node].free_slots - 1) as u32,
                ..s.workers[node]
            },
        ),
    ensures
        n.balanced_except(Set::empty()),
        is_resource_map(n.workers[node].available),
{
    assert(s.task_ok(id));
    assert(s.worker_ok(node));
    lemma_minus(s.workers[node].available, s.tasks[id].resources);
    assert forall|m: NodeId| #[trigger]
        n.workers.contains_key(m) && !Set::<NodeId>::empty().contains(m) implies n.accounted(m) by {
        assert(s.workers.contains_key(m));
        assert(s.accounted(m));
        lemma_sum_insert(s.tasks, slot_weight(m), id, n.tasks[id]);
        assert forall|name: Seq<char>|
            amount(n.workers[m].available, name) + #[trigger] n.amount_taken(m, name) == amount(
                n.workers[m].total,
                name,
            ) by {
            lemma_sum_insert(s.tasks, amount_weight(m, name), id, n.tasks[id]);
            assert(amount(s.workers[m].available, name) + s.amount_taken(m, name) == amount(
                s.workers[m].total,
                name,
            ));
            if m == node {
                assert(amount(n.workers[m].available, name) == amount(s.workers[node].available, name) - amount(
                    s.tasks[id].resources,
                    name,
                ));
            }
        }
    }
}

/// The dependencies of a task that keeps its arguments stay in the tables.
proof fn lemma_deps_stay(s: Model, n: Model, id: TaskId)
    requires
        s.task_ok(id),
        s.tasks[id].live(),
        n.tasks[id].args == s.tasks[id].args,
        s.objects.dom().subset_of(n.objects.dom()),
    ensures
        forall|dep: ObjectId| #[trigger] n.tasks[id].depends_on(dep) ==> n.objects.contains_key(dep),
{
    assert forall|dep: ObjectId| #[trigger] n.tasks[id].depends_on(dep) implies n.objects.contains_key(dep) by {
        assert(s.tasks[id].depends_on(dep));
        assert(s.objects.dom().contains(dep));
    }
}

/// A report that a task runs keeps the invariant.
pub proof fn law_started_keeps_invariant(s: Model, identity: WorkerIdentity, fence: TaskFence)
    requires
        s.wf(),
        s.started(identity, fence) is Next,
    ensures
        s.started(identity, fence)->Next_0.wf(),
{
    let n = s.started(identity, fence)->Next_0;
    let id = fence.task_id;
    if n != s {
        assert(s.task_ok(id));
        assert(s.object_ok(s.tasks[id].output));
        assert(n.objects =~= s.objects.insert(s.tasks[id].output, n.objects[s.tasks[id].output]));
        assert(n.objects.dom() =~= s.objects.dom());
        lemma_deps_stay(s, n, id);
        assert(touches_one(s, n, id)) by {
            assert forall|node: NodeId| #[trigger] s.workers.contains_key(node) implies is_resource_map(
                n.workers[node].available,
            ) by {
                assert(s.worker_ok(node));
            }
            assert forall|x: TaskId| x != id && s.is_runnable(x) implies #[trigger] n.runnable.contains(x) by {
                assert(s.task_ok(x));
            }
        }
        assert(n.produces(id, s.tasks[id].output));
        lemma_touch_consistent(s, n, id);
        assert(n.tasks.dom() =~= s.tasks.dom());
        lemma_balanced_same(s, n, Set::empty());
        lemma_settled_same(s, n);
    }
}

/// Tasks that still wait, on objects that did not change, stay settled.
proof fn lemma_settled_same(s: Model, n: Model)
    requires
        s.settled(),
        forall|id: TaskId| #[trigger] n.waiting.contains(id) ==> s.waiting.contains(id) && n.tasks[id].args == s.tasks[id].args,
        forall|dep: ObjectId| #[trigger] n.objects.contains_key(dep) <==> s.objects.contains_key(dep),
        forall|dep: ObjectId| #[trigger] n.objects.contains_key(dep) ==> n.objects[dep].state == s.objects[dep].state,
    ensures
        n.settled(),
{
    assert forall|id: TaskId| #[trigger] n.waiting.contains(id) implies !n.must_fail(id) && !n.may_run(id) by {
        assert(s.waiting.contains(id));
        assert(!s.must_fail(id) && !s.may_run(id));
        if n.must_fail(id) {
            let dep = choose|dep: ObjectId| #[trigger] n.tasks[id].depends_on(dep) && n.dep_hopeless(dep);
            assert(s.tasks[id].depends_on(dep));
            assert(n.objects.contains_key(dep) <==> s.objects.contains_key(dep));
            assert(s.dep_hopeless(dep));
        }
        if n.may_run(id) {
            assert forall|dep: ObjectId| #[trigger] s.tasks[id].depends_on(dep) implies s.dep_ready(dep) by {
                assert(n.tasks[id].depends_on(dep));
                assert(n.dep_ready(dep));
                assert(n.objects.contains_key(dep) <==> s.objects.contains_key(dep));
            }
        }
    }
}

/// Settling a sound state gives a well-formed one.
pub proof fn lemma_settles_to_wf(s: Model, n: Model)
    requires
        s.sound(),
        s.settles_to(n),
    ensures
        n.wf(),
{
    let order = choose|order: Seq<TaskId>| #[trigger] s.settle_order(order) && n == s.settle_run(order);
    lemma_settle_run_sound(s, order);
}

/// What holds of the worker and the task when a fence is accepted.
pub proof fn lemma_fence(s: Model, identity: WorkerIdentity, fence: TaskFence)
    requires
        s.fence_fault(identity, fence) is None,
    ensures
        s.tasks.contains_key(fence.task_id),
        s.tasks[fence.task_id].on_node(identity.node_id),
        s.workers.contains_key(identity.node_id),
{
}

proof fn lemma_released_touch(s: Model, n: Model, id: TaskId, node: NodeId)
    requires
        s.sound(),
        s.tasks.contains_key(id),
        s.tasks[id].on_node(node),
        n.epoch == s.epoch,
        n.operations == s.operations,
        n.pending_deletes == s.pending_deletes,
        n.workers == s.released(node, s.tasks[id].resources).workers,
        n.tasks == s.tasks.insert(id, n.tasks[id]),
        n.objects == s.objects.insert(s.tasks[id].output, n.objects[s.tasks[id].output]),
        n.tasks[id].args == s.tasks[id].args,
        n.tasks[id].output == s.tasks[id].output,
        forall|x: TaskId| x != id ==> (#[trigger] n.waiting.contains(x) <==> s.waiting.contains(x)),
        forall|x: TaskId|
            x != id ==> (#[trigger] n.cancel_requested.contains(x) <==> s.cancel_requested.contains(x)),
        forall|x: TaskId| s.runnable.contains(x) ==> #[trigger] n.runnable.contains(x),
    ensures
        touches_one(s, n, id),
{
    lemma_release_room(s, id, node);
    assert(n.workers.dom() =~= s.workers.dom());
    assert forall|m: NodeId| #[trigger] s.workers.contains_key(m) implies is_resource_map(n.workers[m].available) by {
        assert(s.worker_ok(m));
    }
    assert forall|x: TaskId| x != id && s.is_runnable(x) implies #[trigger] n.runnable.contains(x) by {
        assert(s.task_ok(x));
    }
}

/// A completion that is accepted leaves a sound state.
pub proof fn lemma_succeeded_sound(s: Model, identity: WorkerIdentity, report: CompletionModel)
    requires
        s.wf(),
        s.fence_fault(identity, report.fence) is None,
        s.tasks[report.fence.task_id].state is Assigned || s.tasks[report.fence.task_id].state is Running,
    ensures
        s.succeeded(identity, report).sound(),
{
    let id = report.fence.task_id;
    let n = s.succeeded(identity, report);
    lemma_fence(s, identity, report.fence);
    assert(s.task_ok(id));
    assert(s.object_ok(s.tasks[id].output));
    lemma_released_touch(s, n, id, identity.node_id);
    lemma_released_balanced(s, n, id, identity.node_id);
    lemma_touch_consistent(s, n, id);
}

/// A failure that will be retried leaves a well-formed state.
pub proof fn lemma_retried_wf(s: Model, identity: WorkerIdentity, fence: TaskFence, now: u64)
    requires
        s.wf(),
        s.fence_fault(identity, fence) is None,
        s.tasks[fence.task_id].state is Assigned || s.tasks[fence.task_id].state is Running,
        s.tasks[fence.task_id].attempt.0 < s.tasks[fence.task_id].max_attempts,
    ensures
        s.released(identity.node_id, s.tasks[fence.task_id].resources).retried(fence.task_id, now).bump().wf(),
{
    let id = fence.task_id;
    let n = s.released(identity.node_id, s.tasks[id].resources).retried(id, now).bump();
    let out = s.tasks[id].output;
    lemma_fence(s, identity, fence);
    assert(s.task_ok(id));
    assert(s.object_ok(out));
    assert(n.tasks =~= s.tasks.insert(id, n.tasks[id]));
    assert(n.objects =~= s.objects.insert(out, n.objects[out]));
    assert forall|x: TaskId| s.runnable.contains(x) implies #[trigger] n.runnable.contains(x) by {
        let i = s.runnable.index_of(x);
        assert(n.runnable[i] == x);
    }
    assert(n.runnable[n.runnable.len() - 1] == id);
    lemma_released_touch(s, n, id, identity.node_id);
    lemma_released_balanced(s, n, id, identity.node_id);
    lemma_deps_stay(s, n, id);
    assert(n.produces(id, out));
    assert(n.task_ok(id));
    lemma_touch_consistent(s, n, id);
    lemma_settled_same(s, n);
}

/// A failure for good leaves a sound state.
pub proof fn lemma_gave_up_sound(s: Model, identity: WorkerIdentity, fence: TaskFence, message: Seq<char>)
    requires
        s.wf(),
        s.fence_fault(identity, fence) is None,
        s.tasks[fence.task_id].state is Assigned || s.tasks[fence.task_id].state is Running,
    ensures
        s.released(identity.node_id, s.tasks[fence.task_id].resources).gave_up(fence.task_id, message).bump().sound(),
{
    let id = fence.task_id;
    let n = s.released(identity.node_id, s.tasks[id].resources).gave_up(id, message).bump();
    lemma_fence(s, identity, fence);
    assert(s.task_ok(id));
    assert(s.object_ok(s.tasks[id].output));
    lemma_released_touch(s, n, id, identity.node_id);
    lemma_released_balanced(s, n, id, identity.node_id);
    lemma_touch_consistent(s, n, id);
}

/// A worker's word that it dropped a cancelled task leaves a sound state.
pub proof fn lemma_acknowledged_sound(s: Model, identity: WorkerIdentity, fence: TaskFence)
    requires
        s.wf(),
        s.fence_fault(identity, fence) is None,
        s.tasks[fence.task_id].state is CancelRequested,
    ensures
        s.released(identity.node_id, s.tasks[fence.task_id].resources).dropped(fence.task_id).bump().sound(),
{
    let id = fence.task_id;
    let n = s.released(identity.node_id, s.tasks[id].resources).dropped(id).bump();
    lemma_fence(s, identity, fence);
    assert(s.task_ok(id));
    assert(s.object_ok(s.tasks[id].output));
    lemma_released_touch(s, n, id, identity.node_id);
    lemma_released_balanced(s, n, id, identity.node_id);
    lemma_touch_consistent(s, n, id);
}

proof fn lemma_plain_touch(s: Model, n: Model, id: TaskId)
    requires
        s.consistent(),
        s.tasks.contains_key(id),
        n.epoch == s.epoch,
        n.operations == s.operations,
        n.pending_deletes == s.pending_deletes,
        n.workers == s.workers,
        n.tasks == s.tasks.insert(id, n.tasks[id]),
        n.objects == s.objects.insert(s.tasks[id].output, n.objects[s.tasks[id].output]),
        n.tasks[id].args == s.tasks[id].args,
        n.tasks[id].output == s.tasks[id].output,
        forall|x: TaskId| x != id ==> (#[trigger] n.waiting.contains(x) <==> s.waiting.contains(x)),
        forall|x: TaskId|
            x != id ==> (#[trigger] n.cancel_requested.contains(x) <==> s.cancel_requested.contains(x)),
        forall|x: TaskId| s.runnable.contains(x) ==> #[trigger] n.runnable.contains(x),
    ensures
        touches_one(s, n, id),
{
    assert forall|m: NodeId| #[trigger] s.workers.contains_key(m) implies is_resource_map(n.workers[m].available) by {
        assert(s.worker_ok(m));
    }
    assert forall|x: TaskId| x != id && s.is_runnable(x) implies #[trigger] n.runnable.contains(x) by {
        assert(s.task_ok(x));
    }
}

/// Cancelling a task that no worker holds leaves a sound state.
pub proof fn lemma_dropped_sound(s: Model, id: TaskId)
    requires
        s.wf(),
        s.tasks.contains_key(id),
        s.tasks[id].live(),
        s.tasks[id].assigned is None,
    ensures
        s.dropped(id).bump().sound(),
{
    let n = s.dropped(id).bump();
    assert(s.task_ok(id));
    assert(s.object_ok(s.tasks[id].output));
    lemma_plain_touch(s, n, id);
    lemma_touch_consistent(s, n, id);
    assert(n.tasks.dom() =~= s.tasks.dom());
    lemma_balanced_same(s, n, Set::empty());
}

/// Asking a worker to cancel a task it holds leaves a well-formed state.
pub proof fn lemma_cancel_asked_wf(s: Model, id: TaskId)
    requires
        s.wf(),
        s.cancelled(id) is Next,
    ensures
        s.cancelled(id)->Next_0.wf(),
{
    let n = s.cancelled(id)->Next_0;
    if n != s {
        let out = s.tasks[id].output;
        assert(s.task_ok(id));
        assert(s.object_ok(out));
        assert(n.objects =~= s.objects.insert(out, n.objects[out]));
        lemma_plain_touch(s, n, id);
        lemma_deps_stay(s, n, id);
        assert(n.produces(id, out));
        lemma_touch_consistent(s, n, id);
        assert(n.tasks.dom() =~= s.tasks.dom());
        lemma_balanced_same(s, n, Set::empty());
        lemma_settled_same(s, n);
    }
}

/// What a scan finds: everything it hands out can be taken by the worker, and
/// no runnable task of the queue is lost.
pub proof fn lemma_scan(s: Model, node: NodeId, now: u64, queue: Seq<TaskId>, looked: int)
    ensures
        ({
            let scan = s.scan(node, now, queue, looked);
            &&& forall|i: int|
                0 <= i < scan.passed.len() ==> s.is_runnable(#[trigger] scan.passed[i]) && s.servable(
                    node,
                    now,
                    scan.passed[i],
                ) && queue.contains(scan.passed[i])
            &&& scan.local matches Some(id) ==> s.is_runnable(id) && s.servable(node, now, id) && s.is_local(
                node,
                id,
            ) && queue.contains(id)
            &&& forall|x: TaskId| #[trigger]
                queue.contains(x) && s.is_runnable(x) ==> scan.passed.contains(x) || scan.requeue.contains(x)
                    || scan.local == Some(x) || scan.rest.contains(x)
        }),
    decreases queue.len(),
{
    let scan = s.scan(node, now, queue, looked);
    if queue.len() == 0 || looked >= crate::coordinator::LOCALITY_LOOKAHEAD {
    } else {
        let id = queue[0];
        let rest = queue.skip(1);
        let next_looked = if s.is_runnable(id) && s.servable(node, now, id) && !s.is_local(node, id) {
            looked + 1
        } else {
            looked
        };
        lemma_scan(s, node, now, rest, next_looked);
        let tail = s.scan(node, now, rest, next_looked);
        assert(queue.contains(id));
        assert forall|x: TaskId| rest.contains(x) implies queue.contains(x) by {
            let i = rest.index_of(x);
            assert(queue[i + 1] == x);
        }
        assert forall|x: TaskId| #[trigger] queue.contains(x) && s.is_runnable(x) implies scan.passed.contains(x)
            || scan.requeue.contains(x) || scan.local == Some(x) || scan.rest.contains(x) by {
            let i = queue.index_of(x);
            if i > 0 {
                assert(rest[i - 1] == x);
                assert(rest.contains(x));
            }
            if s.is_runnable(id) && !s.servable(node, now, id) {
                assert(scan.requeue[0] == id);
                if tail.requeue.contains(x) {
                    let j = tail.requeue.index_of(x);
                    assert(scan.requeue[j + 1] == x);
                }
            } else if s.is_runnable(id) && !s.is_local(node, id) {
                assert(scan.passed[0] == id);
                if tail.passed.contains(x) {
                    let j = tail.passed.index_of(x);
                    assert(scan.passed[j + 1] == x);
                }
            }
        }
        assert forall|i: int| 0 <= i < scan.passed.len() implies s.is_runnable(#[trigger] scan.passed[i])
            && s.servable(node, now, scan.passed[i]) && queue.contains(scan.passed[i]) by {
            if s.is_runnable(id) && s.servable(node, now, id) && !s.is_local(node, id) {
                if i > 0 {
                    assert(scan.passed[i] == tail.passed[i - 1]);
                }
            } else if s.is_runnable(id) && s.servable(node, now, id) {
            } else {
                assert(scan.passed[i] == tail.passed[i]);
            }
        }
    }
}

/// The task that a scan chooses was in the queue and can be taken by the worker.
pub proof fn law_chosen_is_servable(s: Model, node: NodeId, now: u64)
    ensures
        s.scan(node, now, s.runnable, 0).chosen() matches Some(id) ==> s.is_runnable(id) && s.servable(
            node,
            now,
            id,
        ) && s.runnable.contains(id),
{
    lemma_scan(s, node, now, s.runnable, 0);
}

proof fn lemma_scan_queue(scan: Scan, x: TaskId)
    requires
        scan.chosen() != Some(x),
        scan.passed.contains(x) || scan.requeue.contains(x) || scan.rest.contains(x),
    ensures
        scan.queue().contains(x),
{
    let queue = scan.queue();
    let kept = match scan.chosen() {
        Some(id) => scan.passed.filter(|other: TaskId| other != id),
        None => scan.passed,
    };
    if scan.passed.contains(x) {
        let i = scan.passed.index_of(x);
        if let Some(id) = scan.chosen() {
            let keep = |other: TaskId| other != id;
            scan.passed.lemma_filter_contains(keep, i);
        }
        let j = kept.index_of(x);
        assert(queue[j] == x);
    } else if scan.rest.contains(x) {
        let j = scan.rest.index_of(x);
        assert(queue[kept.len() + j] == x);
    } else {
        let j = scan.requeue.index_of(x);
        assert(queue[kept.len() + scan.rest.len() + j] == x);
    }
}

/// Handing out work keeps the invariant.
pub proof fn law_assignment_keeps_invariant(s: Model, node: NodeId, now: u64, lease: LeaseId)
    requires
        s.wf(),
        s.workers.contains_key(node),
    ensures
        s.assigned_next(node, now, lease).0.wf(),
{
    let (n, got) = s.assigned_next(node, now, lease);
    if s.takes_work(node) {
        let scan = s.scan(node, now, s.runnable, 0);
        lemma_scan(s, node, now, s.runnable, 0);
        assert forall|x: TaskId| s.is_runnable(x) && scan.chosen() != Some(x) implies #[trigger] n.runnable.contains(
            x,
        ) by {
            assert(s.task_ok(x));
            assert(s.runnable.contains(x));
            lemma_scan_queue(scan, x);
        }
        match got {
            Some(id) => {
                let out = s.tasks[id].output;
                assert(s.task_ok(id));
                assert(s.object_ok(out));
                assert(s.worker_ok(node));
                assert(n.objects =~= s.objects.insert(out, n.objects[out]));
                lemma_assigned_balanced(s, n, id, node);
                assert(n.workers.dom() =~= s.workers.dom());
                assert forall|m: NodeId| #[trigger] s.workers.contains_key(m) implies is_resource_map(
                    n.workers[m].available,
                ) by {
                    assert(s.worker_ok(m));
                }
                assert(touches_one(s, n, id));
                lemma_deps_stay(s, n, id);
                assert(n.produces(id, out));
                lemma_touch_consistent(s, n, id);
                lemma_settled_same(s, n);
            },
            None => {
                assert forall|x: TaskId| #[trigger] n.tasks.contains_key(x) implies n.task_ok(x) by {
                    assert(s.task_ok(x));
                    if s.tasks[x].state is Runnable {
                        assert(s.is_runnable(x));
                    }
                }
                assert forall|o: ObjectId| #[trigger] n.objects.contains_key(o) implies n.object_ok(o) by {
                    assert(s.object_ok(o));
                    if s.objects[o].state == ObjectState::Reserved {
                        let t = choose|t: TaskId| #[trigger] s.produces(t, o);
                        assert(n.produces(t, o));
                    }
                }
                assert forall|m: NodeId| #[trigger] n.workers.contains_key(m) implies n.worker_ok(m) by {
                    assert(s.worker_ok(m));
                }
                assert forall|key: KeyModel| #[trigger] n.operations.contains_key(key) implies n.operation_ok(key) by {
                    assert(s.operation_ok(key));
                }
                lemma_balanced_same(s, n, Set::empty());
                lemma_settled_same(s, n);
            },
        }
    }
}

/// Workers keep being well-formed when the tables around them do not change.
proof fn lemma_other_records(s: Model, n: Model)
    requires
        s.consistent(),
        n.operations == s.operations,
        n.epoch == s.epoch,
    ensures
        forall|key: KeyModel| #[trigger] n.operations.contains_key(key) ==> n.operation_ok(key),
        forall|node: NodeId| #[trigger]
            s.workers.contains_key(node) && n.workers[node] == s.workers[node] ==> n.worker_ok(node),
{
    assert forall|key: KeyModel| #[trigger] n.operations.contains_key(key) implies n.operation_ok(key) by {
        assert(s.operation_ok(key));
    }
    assert forall|node: NodeId| #[trigger]
        s.workers.contains_key(node) && n.workers[node] == s.workers[node] implies n.worker_ok(node) by {
        assert(s.worker_ok(node));
    }
}

/// A new object under an unused id changes nothing for the tasks there are.
proof fn lemma_object_added(s: Model, n: Model, id: ObjectId)
    requires
        s.wf(),
        !s.objects.contains_key(id),
        n.objects == s.objects.insert(id, n.objects[id]),
    ensures
        forall|x: TaskId| #[trigger] s.tasks.contains_key(x) && n.tasks[x] == s.tasks[x] ==> n.output_ok(n.tasks[x]),
        forall|x: TaskId| #[trigger] s.waiting.contains(x) && n.tasks[x] == s.tasks[x] ==> !n.must_fail(x)
            && !n.may_run(x),
{
    assert forall|x: TaskId| #[trigger] s.tasks.contains_key(x) && n.tasks[x] == s.tasks[x] implies n.output_ok(
        n.tasks[x],
    ) by {
        assert(s.task_ok(x));
    }
    assert forall|x: TaskId| #[trigger] s.waiting.contains(x) && n.tasks[x] == s.tasks[x] implies !n.must_fail(x)
        && !n.may_run(x) by {
        assert(s.task_ok(x));
        assert(!s.must_fail(x) && !s.may_run(x));
        if n.must_fail(x) {
            let dep = choose|dep: ObjectId| #[trigger] n.tasks[x].depends_on(dep) && n.dep_hopeless(dep);
            assert(s.tasks[x].depends_on(dep));
            assert(s.objects.contains_key(dep));
            assert(s.dep_hopeless(dep));
        }
        if n.may_run(x) {
            assert forall|dep: ObjectId| #[trigger] s.tasks[x].depends_on(dep) implies s.dep_ready(dep) by {
                assert(n.tasks[x].depends_on(dep));
                assert(n.dep_ready(dep));
                assert(s.objects.contains_key(dep));
            }
        }
    }
}

/// Putting an object keeps the invariant.
pub proof fn law_put_keeps_invariant(
    s: Model,
    id: ObjectId,
    codec: crate::operation::Codec,
    size_bytes: u64,
    checksum: [u8; 32],
    bytes: Option<Seq<u8>>,
)
    requires
        s.wf(),
        s.admitted(id, codec, size_bytes, checksum, bytes) is Next,
    ensures
        s.admitted(id, codec, size_bytes, checksum, bytes)->Next_0.wf(),
{
    let n = s.admitted(id, codec, size_bytes, checksum, bytes)->Next_0;
    if !s.objects.contains_key(id) {
        lemma_other_records(s, n);
        assert(n.objects =~= s.objects.insert(id, n.objects[id]));
        lemma_object_added(s, n, id);
        assert forall|x: TaskId| #[trigger] n.tasks.contains_key(x) implies n.task_ok(x) by {
            assert(s.tasks.contains_key(x));
            assert(s.task_ok(x));
        }
        assert forall|o: ObjectId| #[trigger] n.objects.contains_key(o) implies n.object_ok(o) by {
            if o != id {
                assert(s.object_ok(o));
                if s.objects[o].state == ObjectState::Reserved {
                    let t = choose|t: TaskId| #[trigger] s.produces(t, o);
                    assert(n.produces(t, o));
                }
            }
        }
        assert forall|node: NodeId| #[trigger] n.workers.contains_key(node) implies n.worker_ok(node) by {
            assert(s.workers.contains_key(node));
        }
        lemma_balanced_same(s, n, Set::empty());
        assert forall|x: TaskId| #[trigger] n.waiting.contains(x) implies !n.must_fail(x) && !n.may_run(x) by {
            assert(s.waiting.contains(x));
        }
    }
}

proof fn lemma_object_args(s: Model, args: Seq<ArgModel>, input_codec: crate::operation::Codec)
    requires
        s.object_args_fault(args, input_codec) is None,
    ensures
        forall|dep: ObjectId| #[trigger]
            args.contains(ArgModel::Object(dep)) ==> s.objects.contains_key(dep) && !s.dep_hopeless(dep),
    decreases args.len(),
{
    if args.len() > 0 {
        lemma_object_args(s, args.drop_last(), input_codec);
        assert forall|dep: ObjectId| #[trigger] args.contains(ArgModel::Object(dep)) implies s.objects.contains_key(
            dep,
        ) && !s.dep_hopeless(dep) by {
            let i = args.index_of(ArgModel::Object(dep));
            if i < args.len() - 1 {
                assert(args.drop_last()[i] == ArgModel::Object(dep));
                assert(args.drop_last().contains(ArgModel::Object(dep)));
            }
        }
    }
}

/// Submitting a task under unused ids keeps the invariant.
pub proof fn law_submit_keeps_invariant(
    s: Model,
    operation: KeyModel,
    args: Seq<ArgModel>,
    resources: Map<Seq<char>, int>,
    max_attempts: u32,
    id: TaskId,
    output: ObjectId,
)
    requires
        s.wf(),
        is_resource_map(resources),
        s.submitted(operation, args, resources, max_attempts, id, output) is Next,
    ensures
        s.submitted(operation, args, resources, max_attempts, id, output)->Next_0.wf(),
{
    let n = s.submitted(operation, args, resources, max_attempts, id, output)->Next_0;
    let waits = s.must_wait(args);
    lemma_object_args(s, args, s.operations[operation].input_codec);
    lemma_other_records(s, n);
    assert(n.objects =~= s.objects.insert(output, n.objects[output]));
    lemma_object_added(s, n, output);
    assert(!s.waiting.contains(id) && !s.cancel_requested.contains(id));
    assert(n.produces(id, output));
    if !waits {
        assert(n.runnable[n.runnable.len() - 1] == id);
    }
    assert forall|x: TaskId| #[trigger] n.tasks.contains_key(x) implies n.task_ok(x) by {
        if x != id {
            assert(s.tasks.contains_key(x));
            assert(s.task_ok(x));
            if s.runnable.contains(x) {
                let i = s.runnable.index_of(x);
                assert(n.runnable[i] == x);
            }
        } else {
            assert forall|dep: ObjectId| #[trigger] n.tasks[x].depends_on(dep) implies n.objects.contains_key(dep) by {
                assert(args.contains(ArgModel::Object(dep)));
            }
        }
    }
    assert forall|a: TaskId, b: TaskId|
        #![trigger n.tasks[a], n.tasks[b]]
        n.tasks.contains_key(a) && n.tasks.contains_key(b) && a != b implies n.tasks[a].output
        != n.tasks[b].output by {
        if a != id {
            assert(s.task_ok(a));
        }
        if b != id {
            assert(s.task_ok(b));
        }
        if a != id && b != id {
            assert(s.tasks[a].output != s.tasks[b].output);
        }
    }
    assert forall|o: ObjectId| #[trigger] n.objects.contains_key(o) implies n.object_ok(o) by {
        if o != output {
            assert(s.object_ok(o));
            if s.objects[o].state == ObjectState::Reserved {
                let t = choose|t: TaskId| #[trigger] s.produces(t, o);
                assert(n.produces(t, o));
            }
        }
    }
    assert forall|node: NodeId| #[trigger] n.workers.contains_key(node) implies n.worker_ok(node) by {
        assert(s.workers.contains_key(node));
    }
    assert forall|node: NodeId| #[trigger]
        n.workers.contains_key(node) && !Set::<NodeId>::empty().contains(node) implies n.accounted(node) by {
        assert(s.workers.contains_key(node));
        assert(s.accounted(node));
        lemma_sum_insert(s.tasks, slot_weight(node), id, n.tasks[id]);
        assert forall|name: Seq<char>|
            amount(n.workers[node].available, name) + #[trigger] n.amount_taken(node, name) == amount(
                n.workers[node].total,
                name,
            ) by {
            lemma_sum_insert(s.tasks, amount_weight(node, name), id, n.tasks[id]);
            assert(amount(s.workers[node].available, name) + s.amount_taken(node, name) == amount(
                s.workers[node].total,
                name,
            ));
        }
    }
    assert forall|x: TaskId| #[trigger] n.waiting.contains(x) implies !n.must_fail(x) && !n.may_run(x) by {
        if x != id {
            assert(s.waiting.contains(x));
        } else {
            let dep = choose|dep: ObjectId| #[trigger]
                args.contains(ArgModel::Object(dep)) && s.objects.contains_key(dep) && s.objects[dep].state
                    == ObjectState::Reserved;
            assert(n.tasks[id].depends_on(dep));
            assert(!n.dep_ready(dep));
            if n.must_fail(id) {
                let bad = choose|bad: ObjectId| #[trigger] n.tasks[id].depends_on(bad) && n.dep_hopeless(bad);
                assert(args.contains(ArgModel::Object(bad)));
                assert(s.objects.contains_key(bad) && !s.dep_hopeless(bad));
            }
        }
    }
}

/// A task that produces an object which is not reserved has finished.
pub proof fn law_producer_of_filled_object_is_terminal(s: Model, id: TaskId)
    requires
        s.wf(),
        s.tasks.contains_key(id),
        s.objects[s.tasks[id].output].state != ObjectState::Reserved,
    ensures
        s.tasks[id].state.terminal(),
{
    assert(s.task_ok(id));
}

/// Releasing an object keeps the invariant.
pub proof fn law_release_keeps_invariant(s: Model, id: ObjectId)
    requires
        s.wf(),
        s.object_released(id) is Next,
    ensures
        s.object_released(id)->Next_0.wf(),
{
    let n = s.object_released(id)->Next_0;
    if s.objects.contains_key(id) {
        assert(s.object_ok(id));
        lemma_other_records(s, n);
        lemma_dropped_tasks(s, id);
        assert forall|x: TaskId| #[trigger] n.tasks.contains_key(x) implies n.task_ok(x) by {
            assert(s.tasks.contains_key(x));
            assert(s.task_ok(x));
            assert forall|dep: ObjectId| #[trigger] n.tasks[x].depends_on(dep) && n.tasks[x].live() implies n.objects.contains_key(
                dep,
            ) by {
                assert(s.tasks[x].depends_on(dep));
                assert(dep != id);
            }
        }
        assert forall|x: TaskId| #[trigger] n.waiting.contains(x) implies n.tasks.contains_key(x) by {
            assert(s.waiting.contains(x));
            assert(s.task_ok(x));
        }
        assert forall|x: TaskId| #[trigger] n.cancel_requested.contains(x) implies n.tasks.contains_key(x) by {
            assert(s.cancel_requested.contains(x));
            assert(s.task_ok(x));
        }
        assert forall|o: ObjectId| #[trigger] n.objects.contains_key(o) implies n.object_ok(o) by {
            assert(s.objects.contains_key(o));
            assert(s.object_ok(o));
            if s.objects[o].state == ObjectState::Reserved {
                let t = choose|t: TaskId| #[trigger] s.produces(t, o);
                assert(n.produces(t, o));
            }
        }
        assert forall|node: NodeId| #[trigger] n.workers.contains_key(node) implies n.worker_ok(node) by {
            assert(s.workers.contains_key(node));
        }
        assert forall|x: TaskId| #[trigger] n.waiting.contains(x) implies !n.must_fail(x) && !n.may_run(x) by {
            assert(s.waiting.contains(x));
            assert(s.task_ok(x));
            assert(!s.must_fail(x) && !s.may_run(x));
            if n.must_fail(x) {
                let dep = choose|dep: ObjectId| #[trigger] n.tasks[x].depends_on(dep) && n.dep_hopeless(dep);
                assert(s.tasks[x].depends_on(dep));
                assert(dep != id);
                assert(s.dep_hopeless(dep));
            }
            if n.may_run(x) {
                assert forall|dep: ObjectId| #[trigger] s.tasks[x].depends_on(dep) implies s.dep_ready(dep) by {
                    assert(n.tasks[x].depends_on(dep));
                    assert(n.dep_ready(dep));
                }
            }
        }
    }
}

/// Dropping the producer of a finished object leaves the accounts as they were.
proof fn lemma_dropped_tasks(s: Model, id: ObjectId)
    requires
        s.wf(),
        s.objects.contains_key(id),
        s.objects[id].state != ObjectState::Reserved,
    ensures
        s.object_dropped(id).bounded(),
        s.object_dropped(id).balanced_except(Set::empty()),
        forall|x: TaskId| #[trigger]
            s.tasks.contains_key(x) && s.tasks[x].live() ==> s.object_dropped(id).tasks.contains_key(x),
{
    let n = s.object_dropped(id);
    assert forall|x: TaskId| #[trigger] s.tasks.contains_key(x) && s.tasks[x].live() implies n.tasks.contains_key(
        x,
    ) by {
        assert(s.task_ok(x));
    }
    assert(n.objects.dom() =~= s.objects.dom().remove(id));
    if exists|p: TaskId| #[trigger] s.tasks.contains_key(p) && s.tasks[p].output == id {
        let p = choose|p: TaskId| #[trigger] s.tasks.contains_key(p) && s.tasks[p].output == id;
        assert(s.task_ok(p));
        assert(s.tasks[p].assigned is None);
        assert forall|x: TaskId| s.tasks.remove(p).contains_key(x) == n.tasks.contains_key(x) by {
            if s.tasks.contains_key(x) && x != p {
                assert(s.tasks[x].output != s.tasks[p].output);
            }
        }
        assert(n.tasks =~= s.tasks.remove(p));
        assert forall|node: NodeId| #[trigger]
            n.workers.contains_key(node) && !Set::<NodeId>::empty().contains(node) implies n.accounted(node) by {
            assert(s.workers.contains_key(node));
            assert(s.accounted(node));
            lemma_sum_remove(s.tasks, slot_weight(node), p);
            assert forall|name: Seq<char>|
                amount(n.workers[node].available, name) + #[trigger] n.amount_taken(node, name) == amount(
                    n.workers[node].total,
                    name,
                ) by {
                lemma_sum_remove(s.tasks, amount_weight(node, name), p);
                assert(amount(s.workers[node].available, name) + s.amount_taken(node, name) == amount(
                    s.workers[node].total,
                    name,
                ));
            }
        }
    } else {
        assert(n.tasks =~= s.tasks);
        lemma_balanced_same(s, n, Set::empty());
    }
}

/// A worker record that changes only in its lease or in whether it takes work
/// keeps the invariant.
proof fn lemma_worker_touched(s: Model, n: Model, node: NodeId)
    requires
        s.wf(),
        s.workers.contains_key(node),
        n.workers == s.workers.insert(node, n.workers[node]),
        n.workers[node].identity == s.workers[node].identity,
        n.workers[node].state != WorkerState::Dead,
        n.workers[node].total == s.workers[node].total,
        n.workers[node].available == s.workers[node].available,
        n.workers[node].slots == s.workers[node].slots,
        n.workers[node].free_slots == s.workers[node].free_slots,
        n.workers[node].operations == s.workers[node].operations,
        n == (Model { workers: n.workers, revision: n.revision, ..s }),
    ensures
        n.wf(),
{
    assert(n.workers.dom() =~= s.workers.dom());
    lemma_other_records(s, n);
    assert forall|m: NodeId| #[trigger] n.workers.contains_key(m) implies n.worker_ok(m) by {
        assert(s.workers.contains_key(m));
        assert(s.worker_ok(m));
    }
    assert forall|x: TaskId| #[trigger] n.tasks.contains_key(x) implies n.task_ok(x) by {
        assert(s.task_ok(x));
    }
    assert forall|o: ObjectId| #[trigger] n.objects.contains_key(o) implies n.object_ok(o) by {
        assert(s.object_ok(o));
        if s.objects[o].state == ObjectState::Reserved {
            let t = choose|t: TaskId| #[trigger] s.produces(t, o);
            assert(n.produces(t, o));
        }
    }
    assert forall|m: NodeId| #[trigger]
        n.workers.contains_key(m) && !Set::<NodeId>::empty().contains(m) implies n.accounted(m) by {
        assert(s.workers.contains_key(m));
        assert(s.accounted(m));
        lemma_taken_same(s, n, m);
        assert forall|name: Seq<char>|
            amount(n.workers[m].available, name) + #[trigger] n.amount_taken(m, name) == amount(
                n.workers[m].total,
                name,
            ) by {
            assert(s.amount_taken(m, name) == n.amount_taken(m, name));
        }
    }
    lemma_settled_same(s, n);
}

/// A heartbeat keeps the invariant.
pub proof fn law_heartbeat_keeps_invariant(s: Model, identity: WorkerIdentity, now: u64, lease_ms: u64)
    requires
        s.wf(),
        s.heard(identity, now, lease_ms) is Next,
    ensures
        s.heard(identity, now, lease_ms)->Next_0.wf(),
{
    lemma_worker_touched(s, s.heard(identity, now, lease_ms)->Next_0, identity.node_id);
}

/// Draining a worker keeps the invariant.
pub proof fn law_drain_keeps_invariant(s: Model, identity: WorkerIdentity)
    requires
        s.wf(),
        s.draining(identity) is Next,
    ensures
        s.draining(identity)->Next_0.wf(),
{
    lemma_worker_touched(s, s.draining(identity)->Next_0, identity.node_id);
}

/// Descriptors without a fault are valid, agree with the registry, and are
/// found under their own keys.
pub proof fn lemma_descriptors(s: Model, list: Seq<DescriptorModel>)
    requires
        s.descriptors_fault(list) is None,
    ensures
        forall|key: KeyModel| #[trigger]
            by_key(list).contains_key(key) ==> by_key(list)[key].key == key && by_key(list)[key].validated() is Ok && (
            s.operations.contains_key(key) ==> s.operations[key] == by_key(list)[key]),
    decreases list.len(),
{
    if list.len() > 0 {
        lemma_descriptors(s, list.drop_last());
    }
}

/// Registering a worker keeps the invariant.
pub proof fn law_register_keeps_invariant(
    s: Model,
    request: RegisterModel,
    session: WorkerSessionId,
    now: u64,
    lease_ms: u64,
)
    requires
        s.wf(),
        is_resource_map(request.resources),
        s.registered(request, session, now, lease_ms) is Ok,
    ensures
        s.registered(request, session, now, lease_ms)->Ok_0.0.wf(),
{
    let n = s.registered(request, session, now, lease_ms)->Ok_0.0;
    let node = request.node_id;
    if s.workers.contains_key(node) {
        assert(s.worker_ok(node));
        lemma_worker_touched(s, n, node);
    } else {
        let offered = by_key(request.operations);
        lemma_descriptors(s, request.operations);
        assert(n.workers.dom() =~= s.workers.dom().insert(node));
        assert forall|key: KeyModel| #[trigger] n.operations.contains_key(key) implies n.operation_ok(key) by {
            if offered.contains_key(key) {
            } else {
                assert(s.operation_ok(key));
            }
        }
        assert forall|m: NodeId| #[trigger] n.workers.contains_key(m) implies n.worker_ok(m) by {
            if m != node {
                assert(s.worker_ok(m));
                assert forall|key: KeyModel| #[trigger]
                    n.workers[m].operations.contains_key(key) implies n.operations.contains_key(key)
                    && n.operations[key] == n.workers[m].operations[key] by {
                    assert(s.workers[m].operations.contains_key(key));
                    if offered.contains_key(key) {
                    }
                }
            }
        }
        assert forall|x: TaskId| #[trigger] n.tasks.contains_key(x) implies n.task_ok(x) by {
            assert(s.task_ok(x));
        }
        assert forall|o: ObjectId| #[trigger] n.objects.contains_key(o) implies n.object_ok(o) by {
            assert(s.object_ok(o));
            if s.objects[o].state == ObjectState::Reserved {
                let t = choose|t: TaskId| #[trigger] s.produces(t, o);
                assert(n.produces(t, o));
            }
        }
        assert forall|m: NodeId| #[trigger]
            n.workers.contains_key(m) && !Set::<NodeId>::empty().contains(m) implies n.accounted(m) by {
            lemma_taken_same(s, n, m);
            if m != node {
                assert(s.workers.contains_key(m));
                assert(s.accounted(m));
                assert forall|name: Seq<char>|
                    amount(n.workers[m].available, name) + #[trigger] n.amount_taken(m, name) == amount(
                        n.workers[m].total,
                        name,
                    ) by {
                    assert(s.amount_taken(m, name) == n.amount_taken(m, name));
                }
            } else {
                assert forall|x: TaskId| #[trigger] n.tasks.contains_key(x) implies !n.tasks[x].on_node(node) by {
                    assert(s.task_ok(x));
                }
                lemma_sum_zero(n.tasks, slot_weight(node));
                assert forall|name: Seq<char>|
                    amount(n.workers[m].available, name) + #[trigger] n.amount_taken(m, name) == amount(
                        n.workers[m].total,
                        name,
                    ) by {
                    lemma_sum_zero(n.tasks, amount_weight(node, name));
                }
            }
        }
        lemma_settled_same(s, n);
    }
}

/// The fault of a list is that of its first faulty prefix.
pub proof fn lemma_descriptors_first_fault(s: Model, list: Seq<DescriptorModel>, n: int)
    requires
        0 <= n <= list.len(),
        s.descriptors_fault(list.take(n)) is Some,
    ensures
        s.descriptors_fault(list) == s.descriptors_fault(list.take(n)),
    decreases list.len() - n,
{
    if n < list.len() {
        assert(list.take(n + 1).drop_last() =~= list.take(n));
        lemma_descriptors_first_fault(s, list, n + 1);
    } else {
        assert(list.take(n) =~= list);
    }
}

/// The fault of a list of arguments is that of its first faulty prefix.
pub proof fn lemma_object_args_first_fault(s: Model, args: Seq<ArgModel>, codec: crate::operation::Codec, n: int)
    requires
        0 <= n <= args.len(),
        s.object_args_fault(args.take(n), codec) is Some,
    ensures
        s.object_args_fault(args, codec) == s.object_args_fault(args.take(n), codec),
    decreases args.len() - n,
{
    if n < args.len() {
        assert(args.take(n + 1).drop_last() =~= args.take(n));
        lemma_object_args_first_fault(s, args, codec, n + 1);
    } else {
        assert(args.take(n) =~= args);
    }
}

/// Deletions that are no longer pending do not matter to anything else.
pub proof fn lemma_pending_touched(s: Model, n: Model)
    requires
        s.wf(),
        n == (Model { pending_deletes: n.pending_deletes, revision: n.revision, ..s }),
    ensures
        n.wf(),
{
    lemma_other_records(s, n);
    assert forall|m: NodeId| #[trigger] n.workers.contains_key(m) implies n.worker_ok(m) by {
        assert(s.workers.contains_key(m));
    }
    assert forall|x: TaskId| #[trigger] n.tasks.contains_key(x) implies n.task_ok(x) by {
        assert(s.task_ok(x));
    }
    assert forall|o: ObjectId| #[trigger] n.objects.contains_key(o) implies n.object_ok(o) by {
        assert(s.object_ok(o));
        if s.objects[o].state == ObjectState::Reserved {
            let t = choose|t: TaskId| #[trigger] s.produces(t, o);
            assert(n.produces(t, o));
        }
    }
    lemma_balanced_same(s, n, Set::empty());
    lemma_settled_same(s, n);
}

/// Changing tasks without changing who is on the nodes that count leaves the
/// accounts of those nodes as they were.
proof fn lemma_balanced_skip(a: Model, b: Model, skip: Set<NodeId>)
    requires
        a.balanced_except(skip),
        a.tasks.dom().finite(),
        a.tasks.dom() == b.tasks.dom(),
        a.workers == b.workers,
        forall|id: TaskId, node: NodeId|
            #![trigger a.tasks[id].on_node(node)]
            a.tasks.contains_key(id) && !skip.contains(node) ==> a.tasks[id].on_node(node) == b.tasks[id].on_node(
                node,
            ),
        forall|id: TaskId| #[trigger] a.tasks.contains_key(id) ==> a.tasks[id].resources == b.tasks[id].resources,
    ensures
        b.balanced_except(skip),
{
    assert forall|node: NodeId| #[trigger]
        b.workers.contains_key(node) && !skip.contains(node) implies b.accounted(node) by {
        assert(a.workers.contains_key(node));
        lemma_taken_same(a, b, node);
        assert(a.accounted(node));
        assert forall|name: Seq<char>|
            amount(b.workers[node].available, name) + #[trigger] b.amount_taken(node, name) == amount(
                b.workers[node].total,
                name,
            ) by {
            assert(a.amount_taken(node, name) == b.amount_taken(node, name));
        }
    }
}

/// Taking a task off a lost worker keeps everything but that worker's accounts.
pub proof fn lemma_orphaned(s: Model, node: NodeId, id: TaskId, now: u64)
    requires
        s.consistent(),
        s.balanced_except(set![node]),
        s.tasks.contains_key(id),
        s.tasks[id].on_node(node),
    ensures
        ({
            let n = s.orphaned(id, now);
            &&& n.consistent()
            &&& n.balanced_except(set![node])
            &&& n.workers == s.workers
            &&& n.pending_deletes == s.pending_deletes
            &&& n.tasks == s.tasks.insert(id, n.tasks[id])
            &&& n.tasks[id].assigned is None
            &&& sum(n.tasks, held_weight()) == sum(s.tasks, held_weight()) - 1
            &&& n.objects.dom() == s.objects.dom()
            &&& forall|o: ObjectId| #[trigger] s.objects.contains_key(o) ==> n.objects[o].owner == s.objects[o].owner
                && n.objects[o].bytes == s.objects[o].bytes && (n.objects[o].state == ObjectState::Available
                <==> s.objects[o].state == ObjectState::Available)
        }),
{
    let n = s.orphaned(id, now);
    let out = s.tasks[id].output;
    assert(s.task_ok(id));
    assert(s.object_ok(out));
    assert(n.tasks =~= s.tasks.insert(id, n.tasks[id]));
    assert(n.objects =~= s.objects.insert(out, n.objects[out]));
    assert(n.objects.dom() =~= s.objects.dom());
    assert(n.tasks.dom() =~= s.tasks.dom());
    assert forall|x: TaskId| s.runnable.contains(x) implies #[trigger] n.runnable.contains(x) by {
        let i = s.runnable.index_of(x);
        assert(n.runnable[i] == x);
    }
    lemma_plain_touch(s, n, id);
    if n.tasks[id].live() {
        assert(n.runnable[n.runnable.len() - 1] == id);
        lemma_deps_stay(s, n, id);
        assert(n.produces(id, out));
    }
    assert(n.task_ok(id));
    lemma_touch_consistent(s, n, id);
    lemma_sum_insert(s.tasks, held_weight(), id, n.tasks[id]);
    lemma_balanced_skip(s, n, set![node]);
}

/// Taking every task off a lost worker keeps everything but its accounts.
pub proof fn lemma_orphan_run(s: Model, node: NodeId, ids: Seq<TaskId>, now: u64)
    requires
        s.consistent(),
        s.balanced_except(set![node]),
        ids.no_duplicates(),
        forall|i: int| 0 <= i < ids.len() ==> s.tasks.contains_key(#[trigger] ids[i]) && s.tasks[ids[i]].on_node(node),
    ensures
        ({
            let n = s.orphan_run(ids, now);
            &&& n.consistent()
            &&& n.balanced_except(set![node])
            &&& n.workers == s.workers
            &&& n.pending_deletes == s.pending_deletes
            &&& n.tasks.dom() == s.tasks.dom()
            &&& n.objects.dom() == s.objects.dom()
            &&& forall|x: TaskId| !ids.contains(x) ==> #[trigger] n.tasks[x] == s.tasks[x]
            &&& forall|x: TaskId| ids.contains(x) ==> (#[trigger] n.tasks[x]).assigned is None
            &&& forall|o: ObjectId| #[trigger] s.objects.contains_key(o) ==> n.objects[o].owner == s.objects[o].owner
                && n.objects[o].bytes == s.objects[o].bytes && (n.objects[o].state == ObjectState::Available
                <==> s.objects[o].state == ObjectState::Available)
            &&& sum(n.tasks, held_weight()) == sum(s.tasks, held_weight()) - ids.len()
            &&& n.retries_total <= s.retries_total + ids.len()
            &&& n.failures_total <= s.failures_total + ids.len()
            &&& n.revision == s.revision
            &&& n.epoch == s.epoch
        }),
    decreases ids.len(),
{
    if ids.len() > 0 {
        let rest = ids.drop_last();
        let last = ids.last();
        assert forall|i: int| 0 <= i < rest.len() implies s.tasks.contains_key(#[trigger] rest[i]) && s.tasks[rest[i]].on_node(
            node,
        ) by {
            assert(ids[i] == rest[i]);
        }
        lemma_orphan_run(s, node, rest, now);
        let m = s.orphan_run(rest, now);
        assert(ids[ids.len() - 1] == last);
        assert(!rest.contains(last));
        assert(m.tasks[last] == s.tasks[last]);
        assert(m.tasks.dom().contains(last));
        lemma_orphaned(m, node, last, now);
        let n = m.orphaned(last, now);
        assert(n.tasks.dom() =~= s.tasks.dom());
        assert forall|x: TaskId| !ids.contains(x) implies #[trigger] n.tasks[x] == s.tasks[x] by {
            assert(ids.contains(last));
            if rest.contains(x) {
                let i = rest.index_of(x);
                assert(ids[i] == x);
            }
        }
        assert forall|x: TaskId| ids.contains(x) implies (#[trigger] n.tasks[x]).assigned is None by {
            if x != last {
                let i = ids.index_of(x);
                assert(rest[i] == x);
                assert(m.tasks[x].assigned is None);
            }
        }
        assert forall|o: ObjectId| #[trigger] s.objects.contains_key(o) implies n.objects[o].owner
            == s.objects[o].owner && n.objects[o].bytes == s.objects[o].bytes && (n.objects[o].state
            == ObjectState::Available <==> s.objects[o].state == ObjectState::Available) by {
            assert(m.objects.dom().contains(o));
            assert(m.objects.contains_key(o));
        }
    }
}

/// What becomes of each task that is taken off a lost worker.
pub proof fn lemma_orphan_phases(s: Model, node: NodeId, ids: Seq<TaskId>, now: u64, id: TaskId)
    requires
        s.consistent(),
        s.balanced_except(set![node]),
        ids.no_duplicates(),
        forall|i: int| 0 <= i < ids.len() ==> s.tasks.contains_key(#[trigger] ids[i]) && s.tasks[ids[i]].on_node(node),
        ids.contains(id),
    ensures
        s.orphan_run(ids, now).tasks[id].attempt == s.tasks[id].attempt,
        s.orphan_run(ids, now).tasks[id].state == s.orphan_phase(id),
    decreases ids.len(),
{
    let rest = ids.drop_last();
    let last = ids.last();
    assert forall|i: int| 0 <= i < rest.len() implies s.tasks.contains_key(#[trigger] rest[i]) && s.tasks[rest[i]].on_node(
        node,
    ) by {
        assert(ids[i] == rest[i]);
    }
    lemma_orphan_run(s, node, rest, now);
    let m = s.orphan_run(rest, now);
    assert(ids[ids.len() - 1] == last);
    assert(!rest.contains(last));
    assert(m.tasks[last] == s.tasks[last]);
    assert(m.tasks.dom().contains(last));
    if id != last {
        let i = ids.index_of(id);
        assert(rest[i] == id);
        lemma_orphan_phases(s, node, rest, now, id);
        lemma_orphaned(m, node, last, now);
    }
}

/// Losing the objects of a worker keeps the tables consistent.
proof fn lemma_objects_lost(s: Model, node: NodeId)
    requires
        s.consistent(),
        s.balanced_except(set![node]),
    ensures
        s.objects_lost(node).consistent(),
        s.objects_lost(node).balanced_except(set![node]),
        forall|o: ObjectId| #[trigger]
            s.objects_lost(node).objects.contains_key(o) ==> s.objects_lost(node).objects[o].owner != Some(node),
{
    let n = s.objects_lost(node);
    assert(n.objects.dom() =~= s.objects.dom());
    lemma_other_records(s, n);
    assert forall|m: NodeId| #[trigger] n.workers.contains_key(m) implies n.worker_ok(m) by {
        assert(s.workers.contains_key(m));
    }
    assert forall|x: TaskId| #[trigger] n.tasks.contains_key(x) implies n.task_ok(x) by {
        assert(s.task_ok(x));
        assert(n.output_ok(n.tasks[x]));
    }
    assert forall|o: ObjectId| #[trigger] n.objects.contains_key(o) implies n.object_ok(o) && n.objects[o].owner != Some(
        node,
    ) by {
        assert(s.objects.contains_key(o));
        assert(s.object_ok(o));
        if s.objects[o].state == ObjectState::Reserved {
            let t = choose|t: TaskId| #[trigger] s.produces(t, o);
            assert(n.produces(t, o));
        }
    }
    lemma_balanced_same(s, n, set![node]);
}

/// Forgetting a worker leaves a sound state.
pub proof fn lemma_forgotten_sound(s: Model, node: NodeId, ids: Seq<TaskId>, now: u64)
    requires
        s.sound(),
        s.workers.contains_key(node),
        s.holds_exactly(node, ids),
    ensures
        s.forgotten(node, ids, now).sound(),
{
    assert forall|i: int| 0 <= i < ids.len() implies s.tasks.contains_key(#[trigger] ids[i]) && s.tasks[ids[i]].on_node(
        node,
    ) by {
        assert(ids.contains(ids[i]));
    }
    assert(s.balanced_except(set![node]));
    lemma_orphan_run(s, node, ids, now);
    let a = s.orphan_run(ids, now);
    lemma_objects_lost(a, node);
    let b = a.objects_lost(node);
    let n = s.forgotten(node, ids, now);
    assert(n.workers.dom() =~= b.workers.dom().remove(node));
    lemma_other_records(b, n);
    assert forall|m: NodeId| #[trigger] n.workers.contains_key(m) implies n.worker_ok(m) by {
        assert(b.workers.contains_key(m));
    }
    assert forall|x: TaskId| #[trigger] n.tasks.contains_key(x) implies n.task_ok(x) && !n.tasks[x].on_node(node) by {
        assert(b.tasks.contains_key(x));
        assert(b.task_ok(x));
        assert(a.tasks.dom().contains(x));
        assert(s.tasks.contains_key(x));
        if ids.contains(x) {
            assert(a.tasks[x].assigned is None);
        } else {
            assert(a.tasks[x] == s.tasks[x]);
        }
    }
    assert forall|o: ObjectId| #[trigger] n.objects.contains_key(o) implies n.object_ok(o) by {
        assert(b.objects.contains_key(o));
        assert(b.object_ok(o));
        if b.objects[o].state == ObjectState::Reserved {
            let t = choose|t: TaskId| #[trigger] b.produces(t, o);
            assert(n.produces(t, o));
        }
    }
    assert forall|m: NodeId| #[trigger]
        n.workers.contains_key(m) && !Set::<NodeId>::empty().contains(m) implies n.accounted(m) by {
        assert(b.workers.contains_key(m) && !set![node].contains(m));
        assert(b.accounted(m));
        lemma_taken_same(b, n, m);
        assert forall|name: Seq<char>|
            amount(n.workers[m].available, name) + #[trigger] n.amount_taken(m, name) == amount(
                n.workers[m].total,
                name,
            ) by {
            assert(b.amount_taken(m, name) == n.amount_taken(m, name));
        }
    }
}

/// Marking finished tasks with the time keeps the invariant.
pub proof fn lemma_stamped_wf(s: Model, now: u64)
    requires
        s.wf(),
    ensures
        s.stamped(now).wf(),
{
    let n = s.stamped(now);
    assert(n.tasks.dom() =~= s.tasks.dom());
    lemma_other_records(s, n);
    assert forall|m: NodeId| #[trigger] n.workers.contains_key(m) implies n.worker_ok(m) by {
        assert(s.workers.contains_key(m));
    }
    assert forall|x: TaskId| #[trigger] n.tasks.contains_key(x) implies n.task_ok(x) by {
        assert(s.tasks.contains_key(x));
        assert(s.task_ok(x));
        assert forall|dep: ObjectId| #[trigger] n.tasks[x].depends_on(dep) && n.tasks[x].live() implies n.objects.contains_key(
            dep,
        ) by {
            assert(s.tasks[x].depends_on(dep));
        }
    }
    assert forall|a: TaskId, b: TaskId|
        #![trigger n.tasks[a], n.tasks[b]]
        n.tasks.contains_key(a) && n.tasks.contains_key(b) && a != b implies n.tasks[a].output
        != n.tasks[b].output by {
        assert(s.tasks[a].output != s.tasks[b].output);
    }
    assert forall|o: ObjectId| #[trigger] n.objects.contains_key(o) implies n.object_ok(o) by {
        assert(s.object_ok(o));
        if s.objects[o].state == ObjectState::Reserved {
            let t = choose|t: TaskId| #[trigger] s.produces(t, o);
            assert(n.produces(t, o));
        }
    }
    assert forall|x: TaskId| #[trigger] n.waiting.contains(x) implies s.waiting.contains(x) && n.tasks[x].args == s.tasks[x].args by {
        assert(s.tasks.contains_key(x));
    }
    lemma_balanced_same(s, n, Set::empty());
    lemma_settled_same(s, n);
}

/// There are no more held tasks than tasks, and no fewer than none.
pub proof fn lemma_held_range(s: Model)
    requires
        s.tasks.dom().finite(),
    ensures
        0 <= sum(s.tasks, held_weight()) <= s.tasks.dom().len(),
{
    lemma_sum_range(s.tasks, held_weight(), 0, 1);
    assert(0 * s.tasks.dom().len() == 0) by (nonlinear_arith);
    assert(1 * s.tasks.dom().len() == s.tasks.dom().len()) by (nonlinear_arith);
}

/// Distinct tasks of the table are no more than the table has.
pub proof fn lemma_distinct_tasks(s: Model, ids: Seq<TaskId>)
    requires
        s.tasks.dom().finite(),
        ids.no_duplicates(),
        forall|i: int| 0 <= i < ids.len() ==> s.tasks.contains_key(#[trigger] ids[i]),
    ensures
        ids.len() <= s.tasks.dom().len(),
{
    ids.unique_seq_to_set();
    assert(ids.to_set().subset_of(s.tasks.dom())) by {
        assert forall|x: TaskId| ids.to_set().contains(x) implies s.tasks.dom().contains(x) by {
            let i = ids.index_of(x);
            assert(s.tasks.contains_key(ids[i]));
        }
    }
    vstd::set_lib::lemma_len_subset(ids.to_set(), s.tasks.dom());
}

/// Counting a change keeps a state sound.
pub proof fn lemma_bump_sound(s: Model)
    requires
        s.sound(),
    ensures
        s.bump().sound(),
{
    let n = s.bump();
    lemma_other_records(s, n);
    assert forall|m: NodeId| #[trigger] n.workers.contains_key(m) implies n.worker_ok(m) by {
        assert(s.workers.contains_key(m));
    }
    assert forall|x: TaskId| #[trigger] n.tasks.contains_key(x) implies n.task_ok(x) by {
        assert(s.task_ok(x));
    }
    assert forall|o: ObjectId| #[trigger] n.objects.contains_key(o) implies n.object_ok(o) by {
        assert(s.object_ok(o));
        if s.objects[o].state == ObjectState::Reserved {
            let t = choose|t: TaskId| #[trigger] s.produces(t, o);
            assert(n.produces(t, o));
        }
    }
    lemma_balanced_same(s, n, Set::empty());
}

} // verus!
