//! What each request and report does to the records, said of the records before and
//! after.
use vstd::prelude::*;

use vstd::arithmetic::power2::{lemma_pow2_unfold, pow2};

use crate::coordinator::laws::{
    lemma_acknowledged_sound, lemma_dropped_sound, lemma_gave_up_sound, lemma_settle_run_sound,
};
use crate::coordinator::machine::lemma_settles_frame;
use crate::coordinator::model::{backoff, lemma_power_of_two_grows, power_of_two, Model, ObjectModel, Phase, TaskModel};
use crate::coordinator::promises::{gives_back, holds, lemma_gives_back, lemma_holds};
use crate::coordinator::{meets, ObjectState};
use crate::error::ErrorModel;
use crate::ids::{ObjectId, TaskId};
use crate::operation::ArgModel;
use crate::protocol::{FailureClass, TaskFence, WorkerIdentity};

verus! {

// ---- Settling ----

/// The task takes an object that is lost, failed, cancelled or gone.
pub open spec fn input_is_dead(s: Model, id: TaskId) -> bool {
    exists|dep: ObjectId| #[trigger]
        s.tasks[id].args.contains(ArgModel::Object(dep)) && (!s.objects.contains_key(dep) || s.objects[dep].state
            == ObjectState::Lost || s.objects[dep].state == ObjectState::Failed || s.objects[dep].state
            == ObjectState::Cancelled)
}

/// Every object that the task takes is available.
pub open spec fn inputs_are_there(s: Model, id: TaskId) -> bool {
    forall|dep: ObjectId| #[trigger]
        s.tasks[id].args.contains(ArgModel::Object(dep)) ==> s.objects.contains_key(dep) && s.objects[dep].state
            == ObjectState::Available
}

proof fn lemma_inputs(s: Model, id: TaskId)
    requires
        s.waiting.contains(id),
    ensures
        input_is_dead(s, id) <==> s.must_fail(id),
        inputs_are_there(s, id) <==> s.may_run(id),
{
    if input_is_dead(s, id) {
        let dep = choose|dep: ObjectId| #[trigger]
            s.tasks[id].args.contains(ArgModel::Object(dep)) && (!s.objects.contains_key(dep) || s.objects[dep].state
                == ObjectState::Lost || s.objects[dep].state == ObjectState::Failed || s.objects[dep].state
                == ObjectState::Cancelled);
        assert(s.tasks[id].depends_on(dep) && s.dep_hopeless(dep));
    }
    if s.must_fail(id) {
        let dep = choose|dep: ObjectId| #[trigger] s.tasks[id].depends_on(dep) && s.dep_hopeless(dep);
        assert(s.tasks[id].args.contains(ArgModel::Object(dep)));
    }
    if s.may_run(id) {
        assert forall|dep: ObjectId| #[trigger] s.tasks[id].args.contains(ArgModel::Object(dep)) implies
            s.objects.contains_key(dep) && s.objects[dep].state == ObjectState::Available by {
            assert(s.tasks[id].depends_on(dep));
        }
    }
}

proof fn lemma_settle_fates(s: Model, order: Seq<TaskId>)
    requires
        s.sound(),
        s.settle_order(order),
    ensures
        ({
            let n = s.settle_run(order);
            &&& n.tasks.dom() == s.tasks.dom()
            &&& n.objects.dom() == s.objects.dom()
            &&& forall|o: ObjectId|
                s.objects[o].state != ObjectState::Reserved ==> #[trigger] n.objects[o] == s.objects[o]
            &&& forall|id: TaskId| #[trigger]
                s.waiting.contains(id) ==> {
                    ||| n.waiting.contains(id) && n.tasks[id] == s.tasks[id]
                    ||| n.tasks[id] == (TaskModel { state: Phase::Failed("dependency failed"@), ..s.tasks[id] })
                        && input_is_dead(n, id)
                    ||| n.tasks[id] == (TaskModel { state: Phase::Runnable, ..s.tasks[id] }) && inputs_are_there(n, id)
                        && n.runnable.contains(id)
                }
        }),
    decreases order.len(),
{
    if order.len() > 0 {
        let rest = order.drop_last();
        lemma_settle_fates(s, rest);
        lemma_settle_run_sound(s, rest);
        let m = s.settle_run(rest);
        let last = order.last();
        let n = m.settle_one(last);
        let out = m.tasks[last].output;
        assert(m.waiting.contains(last));
        assert(m.task_ok(last));
        lemma_inputs(m, last);
        assert(n.tasks.dom() =~= s.tasks.dom());
        assert(n.objects.dom() =~= s.objects.dom());
        assert forall|o: ObjectId| s.objects[o].state != ObjectState::Reserved implies #[trigger] n.objects[o]
            == s.objects[o] by {
            assert(m.objects[o] == s.objects[o]);
        }
        assert forall|id: TaskId| m.tasks[id].args == n.tasks[id].args && input_is_dead(m, id) implies #[trigger] input_is_dead(
            n,
            id,
        ) by {
            let dep = choose|dep: ObjectId| #[trigger]
                m.tasks[id].args.contains(ArgModel::Object(dep)) && (!m.objects.contains_key(dep)
                    || m.objects[dep].state == ObjectState::Lost || m.objects[dep].state == ObjectState::Failed
                    || m.objects[dep].state == ObjectState::Cancelled);
            assert(n.tasks[id].args.contains(ArgModel::Object(dep)));
        }
        assert forall|id: TaskId|
            m.tasks[id].args == n.tasks[id].args && inputs_are_there(m, id) implies #[trigger] inputs_are_there(
            n,
            id,
        ) by {
            assert forall|dep: ObjectId| #[trigger] n.tasks[id].args.contains(ArgModel::Object(dep)) implies
                n.objects.contains_key(dep) && n.objects[dep].state == ObjectState::Available by {
                assert(m.tasks[id].args.contains(ArgModel::Object(dep)));
            }
        }
        assert forall|id: TaskId| #[trigger] s.waiting.contains(id) implies {
            ||| n.waiting.contains(id) && n.tasks[id] == s.tasks[id]
            ||| n.tasks[id] == (TaskModel { state: Phase::Failed("dependency failed"@), ..s.tasks[id] })
                && input_is_dead(n, id)
            ||| n.tasks[id] == (TaskModel { state: Phase::Runnable, ..s.tasks[id] }) && inputs_are_there(n, id)
                && n.runnable.contains(id)
        } by {
            assert(m.tasks[id].args == s.tasks[id].args);
            assert(n.tasks[id].args == s.tasks[id].args);
            assert(input_is_dead(m, id) ==> input_is_dead(n, id));
            assert(inputs_are_there(m, id) ==> inputs_are_there(n, id));
            if id == last {
                assert(m.waiting.contains(id));
                assert(m.tasks[id] == s.tasks[id]) by {
                    assert(m.tasks.contains_key(id));
                    assert(m.task_ok(id));
                }
                if !m.must_fail(last) {
                    assert(n.runnable[n.runnable.len() - 1] == last);
                }
            } else if m.runnable.contains(id) {
                let i = m.runnable.index_of(id);
                assert(n.runnable[i] == id);
            }
        }
    }
}

/// Whenever tasks are settled, each task that waited either still waits, and then for
/// an object that is yet to come and for none that never will; or has failed because an
/// object that it takes is lost, failed, cancelled or gone; or is queued because all
/// are there. No other record changes but the outputs of those that failed.
pub proof fn law_waiting_tasks_meet_their_fate(s: Model, n: Model, id: TaskId)
    requires
        s.sound(),
        s.settles_to(n),
        s.tasks.contains_key(id),
    ensures
        !(s.tasks[id].state is Waiting) ==> n.tasks[id] == s.tasks[id],
        s.tasks[id].state is Waiting ==> n.tasks[id] == (TaskModel { state: n.tasks[id].state, ..s.tasks[id] }),
        s.tasks[id].state is Waiting ==> {
            ||| n.tasks[id].state is Waiting && !input_is_dead(n, id) && !inputs_are_there(n, id)
            ||| n.tasks[id].state == Phase::Failed("dependency failed"@) && input_is_dead(n, id)
                && n.objects[s.tasks[id].output].state == ObjectState::Failed
            ||| n.tasks[id].state is Runnable && inputs_are_there(n, id) && n.runnable.contains(id)
        },
        n.workers == s.workers,
        forall|o: ObjectId|
            s.objects[o].state != ObjectState::Reserved ==> #[trigger] n.objects[o] == s.objects[o],
{
    let order = choose|order: Seq<TaskId>| #[trigger] s.settle_order(order) && n == s.settle_run(order);
    lemma_settle_fates(s, order);
    lemma_settles_frame(s, n);
    lemma_settle_run_sound(s, order);
    assert(s.task_ok(id));
    assert(n.tasks.contains_key(id));
    assert(n.task_ok(id));
    if n.waiting.contains(id) {
        lemma_inputs(n, id);
    }
}

// ---- Reports ----

/// A worker that holds a task says that it runs: it then does, and nothing else
/// changes.
pub proof fn law_assigned_task_starts(
    s: Model,
    n: Model,
    identity: WorkerIdentity,
    fence: TaskFence,
    r: Result<(), ErrorModel>,
)
    requires
        s.wf(),
        meets(s.started(identity, fence), s, n, r),
    ensures
        r is Ok <==> holds(s, identity, fence) && (s.tasks[fence.task_id].state is Assigned
            || s.tasks[fence.task_id].state is Running),
        r is Ok && s.tasks[fence.task_id].state is Assigned ==> n == (Model {
            tasks: s.tasks.insert(fence.task_id, TaskModel { state: Phase::Running, ..s.tasks[fence.task_id] }),
            revision: s.revision + 1,
            ..s
        }),
        r is Err || s.tasks[fence.task_id].state is Running ==> n == s,
{
    lemma_holds(s, identity, fence);
}

proof fn lemma_powers_agree(n: nat)
    ensures
        power_of_two(n) == pow2(n),
    decreases n,
{
    if n > 0 {
        lemma_powers_agree((n - 1) as nat);
        lemma_pow2_unfold(n);
    } else {
        vstd::arithmetic::power2::lemma2_to64();
    }
}

/// After its `attempt`-th failure a task waits a tenth of a second, doubled for each
/// failure before, and no more than thirty seconds.
pub proof fn law_backoff_doubles(attempt: int)
    requires
        attempt >= 1,
    ensures
        backoff(attempt) == if 100 * pow2((attempt - 1) as nat) <= 30_000 {
            100 * pow2((attempt - 1) as nat) as int
        } else {
            30_000
        },
{
    lemma_powers_agree((attempt - 1) as nat);
    lemma_powers_agree(20);
    if attempt - 1 > 20 {
        lemma_power_of_two_grows(20, (attempt - 1) as nat);
        reveal_with_fuel(power_of_two, 21);
    }
}

/// A transient failure, reported by the worker that holds the task, sends the task
/// back to the end of the queue while it has attempts left: to run no sooner than its
/// backoff allows, and with the worker's slot and resources given back.
pub proof fn law_transient_failure_is_retried(
    s: Model,
    n: Model,
    identity: WorkerIdentity,
    fence: TaskFence,
    message: Seq<char>,
    now: u64,
    r: Result<(), ErrorModel>,
)
    requires
        s.wf(),
        holds(s, identity, fence),
        s.tasks[fence.task_id].state is Assigned || s.tasks[fence.task_id].state is Running,
        1 <= s.tasks[fence.task_id].attempt.0 < s.tasks[fence.task_id].max_attempts,
        meets(s.failed(identity, fence, message, FailureClass::Transient, now), s, n, r),
    ensures
        r is Ok,
        n.tasks == s.tasks.insert(
            fence.task_id,
            TaskModel {
                state: Phase::Runnable,
                assigned: None,
                not_before_ms: n.tasks[fence.task_id].not_before_ms,
                ..s.tasks[fence.task_id]
            },
        ),
        ({
            let doubled = 100 * pow2((s.tasks[fence.task_id].attempt.0 - 1) as nat);
            let wait = if doubled <= 30_000 {
                doubled as int
            } else {
                30_000
            };
            n.tasks[fence.task_id].not_before_ms == if now + wait <= u64::MAX {
                now + wait
            } else {
                u64::MAX as int
            }
        }),
        n.runnable == s.runnable.push(fence.task_id),
        gives_back(s, n, identity.node_id, s.tasks[fence.task_id].resources),
        n.objects == s.objects,
        n.retries_total == s.retries_total + 1,
        n.failures_total == s.failures_total,
        n.revision == s.revision + 1,
{
    lemma_holds(s, identity, fence);
    lemma_gives_back(s, n, identity, fence);
    law_backoff_doubles(s.tasks[fence.task_id].attempt.0 as int);
    assert(s.task_ok(fence.task_id));
}

/// Any other failure, reported by the worker that holds the task, is final: the task
/// has failed with the worker's message, its output with it, and the worker has its
/// slot and resources back. A task that waited for the output has failed too.
pub proof fn law_other_failure_is_final(
    s: Model,
    n: Model,
    identity: WorkerIdentity,
    fence: TaskFence,
    message: Seq<char>,
    class: FailureClass,
    now: u64,
    r: Result<(), ErrorModel>,
    waiter: TaskId,
)
    requires
        s.wf(),
        holds(s, identity, fence),
        s.tasks[fence.task_id].state is Assigned || s.tasks[fence.task_id].state is Running,
        class != FailureClass::Transient || s.tasks[fence.task_id].attempt.0 >= s.tasks[fence.task_id].max_attempts,
        meets(s.failed(identity, fence, message, class, now), s, n, r),
    ensures
        r is Ok,
        n.tasks[fence.task_id] == (TaskModel {
            state: Phase::Failed(message),
            assigned: None,
            ..s.tasks[fence.task_id]
        }),
        n.objects[s.tasks[fence.task_id].output] == (ObjectModel {
            state: ObjectState::Failed,
            ..s.objects[s.tasks[fence.task_id].output]
        }),
        gives_back(s, n, identity.node_id, s.tasks[fence.task_id].resources),
        n.failures_total == s.failures_total + 1,
        n.retries_total == s.retries_total,
        n.revision == s.revision + 1,
        s.tasks.contains_key(waiter) && s.tasks[waiter].state is Waiting && s.tasks[waiter].args.contains(
            ArgModel::Object(s.tasks[fence.task_id].output),
        ) ==> n.tasks[waiter].state == Phase::Failed("dependency failed"@),
{
    let id = fence.task_id;
    let out = s.tasks[id].output;
    lemma_holds(s, identity, fence);
    assert(s.task_ok(id));
    let mid = s.failed(identity, fence, message, class, now)->Settling_0;
    lemma_gave_up_sound(s, identity, fence, message);
    lemma_settles_frame(mid, n);
    lemma_settle_counts(mid, n);
    assert(mid.tasks.contains_key(id));
    assert(mid.task_ok(id));
    assert(n.tasks[id] == mid.tasks[id]);
    assert(mid.objects.contains_key(out));
    lemma_gives_back(s, n, identity, fence);
    if s.tasks.contains_key(waiter) && s.tasks[waiter].state is Waiting {
        assert(mid.tasks.contains_key(waiter));
        assert(mid.tasks[waiter] == s.tasks[waiter]);
        law_waiting_tasks_meet_their_fate(mid, n, waiter);
        if s.tasks[waiter].args.contains(ArgModel::Object(out)) {
            assert(n.tasks[waiter].args.contains(ArgModel::Object(out)));
            assert(n.objects[out].state == ObjectState::Failed);
            assert(input_is_dead(n, waiter));
        }
    }
}

proof fn lemma_settle_run_counts(s: Model, order: Seq<TaskId>)
    ensures
        s.settle_run(order).retries_total == s.retries_total,
        s.settle_run(order).failures_total == s.failures_total,
        s.settle_run(order).cancel_requested == s.cancel_requested,
        s.settle_run(order).sched_assigns == s.sched_assigns,
    decreases order.len(),
{
    if order.len() > 0 {
        lemma_settle_run_counts(s, order.drop_last());
    }
}

proof fn lemma_settle_counts(s: Model, n: Model)
    requires
        s.settles_to(n),
    ensures
        n.retries_total == s.retries_total,
        n.failures_total == s.failures_total,
        n.cancel_requested == s.cancel_requested,
{
    let order = choose|order: Seq<TaskId>| #[trigger] s.settle_order(order) && n == s.settle_run(order);
    lemma_settle_run_counts(s, order);
}

/// A failure of a task that is over is heard and changes nothing; one of a task that
/// the worker does not hold, or was asked to let go of, is refused.
pub proof fn law_failure_is_heard_only_from_the_holder(
    s: Model,
    n: Model,
    identity: WorkerIdentity,
    fence: TaskFence,
    message: Seq<char>,
    class: FailureClass,
    now: u64,
    r: Result<(), ErrorModel>,
)
    requires
        s.wf(),
        meets(s.failed(identity, fence, message, class, now), s, n, r),
    ensures
        s.tasks.contains_key(fence.task_id) && (s.tasks[fence.task_id].state is Succeeded
            || s.tasks[fence.task_id].state is Failed || s.tasks[fence.task_id].state is Cancelled) ==> r is Ok && n == s,
        s.tasks.contains_key(fence.task_id) && s.tasks[fence.task_id].state is CancelRequested ==> r is Err && n == s,
        s.tasks.contains_key(fence.task_id) && (s.tasks[fence.task_id].state is Assigned
            || s.tasks[fence.task_id].state is Running) && !holds(s, identity, fence) ==> r == Err::<(), ErrorModel>(
            ErrorModel::StaleFence,
        ) && n == s,
        !s.tasks.contains_key(fence.task_id) ==> r == Err::<(), ErrorModel>(ErrorModel::TaskNotFound(fence.task_id))
            && n == s,
{
    lemma_holds(s, identity, fence);
}

// ---- Cancellation ----

/// A task that a worker holds is asked back: it stays with the worker, slot and
/// resources included, until the worker lets go. One that nobody holds is cancelled
/// at once, and so is its output. Asking again changes nothing, and a task that is
/// over can not be cancelled.
pub proof fn law_cancel_asks_the_holder_or_ends_the_task(s: Model, n: Model, id: TaskId, r: Result<(), ErrorModel>)
    requires
        s.wf(),
        meets(s.cancelled(id), s, n, r),
    ensures
        !s.tasks.contains_key(id) ==> r == Err::<(), ErrorModel>(ErrorModel::TaskNotFound(id)) && n == s,
        s.tasks.contains_key(id) && (s.tasks[id].state is Succeeded || s.tasks[id].state is Failed
            || s.tasks[id].state is Cancelled) ==> r is Err && n == s,
        s.tasks.contains_key(id) && s.tasks[id].state is CancelRequested ==> r is Ok && n == s,
        s.tasks.contains_key(id) && (s.tasks[id].state is Assigned || s.tasks[id].state is Running) ==> r is Ok && n == (
        Model {
            tasks: s.tasks.insert(id, TaskModel { state: Phase::CancelRequested, ..s.tasks[id] }),
            cancel_requested: s.cancel_requested.insert(id),
            revision: s.revision + 1,
            ..s
        }),
        s.tasks.contains_key(id) && (s.tasks[id].state is Waiting || s.tasks[id].state is Runnable) ==> r is Ok
            && n.tasks[id] == (TaskModel { state: Phase::Cancelled, ..s.tasks[id] })
            && n.objects[s.tasks[id].output] == (ObjectModel {
            state: ObjectState::Cancelled,
            ..s.objects[s.tasks[id].output]
        }) && n.workers == s.workers && n.revision == s.revision + 1,
{
    if s.tasks.contains_key(id) {
        assert(s.task_ok(id));
        if s.tasks[id].state is Waiting || s.tasks[id].state is Runnable {
            let mid = s.cancelled(id)->Settling_0;
            lemma_dropped_sound(s, id);
            lemma_settles_frame(mid, n);
            assert(mid.tasks.contains_key(id));
            assert(mid.task_ok(id));
            assert(n.tasks[id] == mid.tasks[id]);
            assert(mid.objects.contains_key(s.tasks[id].output));
        }
    }
}

/// A worker that holds a task that was asked back lets go of it: the task is
/// cancelled, its output too, and the worker has its slot and resources back. Any
/// other such word is refused, but for a repeated one, which changes nothing.
pub proof fn law_holder_lets_go(
    s: Model,
    n: Model,
    identity: WorkerIdentity,
    fence: TaskFence,
    r: Result<(), ErrorModel>,
)
    requires
        s.wf(),
        meets(s.cancel_acknowledged(identity, fence), s, n, r),
    ensures
        holds(s, identity, fence) && s.tasks[fence.task_id].state is CancelRequested ==> {
            &&& r is Ok
            &&& n.tasks[fence.task_id] == (TaskModel {
                state: Phase::Cancelled,
                assigned: None,
                ..s.tasks[fence.task_id]
            })
            &&& n.objects[s.tasks[fence.task_id].output] == (ObjectModel {
                state: ObjectState::Cancelled,
                ..s.objects[s.tasks[fence.task_id].output]
            })
            &&& gives_back(s, n, identity.node_id, s.tasks[fence.task_id].resources)
            &&& !n.cancel_requested.contains(fence.task_id)
        },
        s.tasks.contains_key(fence.task_id) && s.tasks[fence.task_id].state is Cancelled ==> r is Ok && n == s,
        !s.tasks.contains_key(fence.task_id) || !(s.tasks[fence.task_id].state is Cancelled) && (!holds(
            s,
            identity,
            fence,
        ) || !(s.tasks[fence.task_id].state is CancelRequested)) ==> r is Err && n == s,
{
    lemma_holds(s, identity, fence);
    if holds(s, identity, fence) && s.tasks[fence.task_id].state is CancelRequested {
        let id = fence.task_id;
        assert(s.task_ok(id));
        let mid = s.cancel_acknowledged(identity, fence)->Settling_0;
        lemma_acknowledged_sound(s, identity, fence);
        lemma_settles_frame(mid, n);
        lemma_settle_counts(mid, n);
        assert(mid.tasks.contains_key(id));
        assert(mid.task_ok(id));
        assert(n.tasks[id] == mid.tasks[id]);
        assert(mid.objects.contains_key(s.tasks[id].output));
        lemma_gives_back(s, n, identity, fence);
    }
}

/// A worker is told to let go of a task under a fence exactly if it holds the task
/// under that fence and the task was asked back; and is offered again exactly what it
/// holds and has not started on.
pub proof fn law_worker_hears_of_what_it_holds(s: Model, identity: WorkerIdentity, fence: TaskFence)
    requires
        s.wf(),
        identity.coordinator_epoch == s.epoch,
        s.workers.contains_key(identity.node_id),
        s.workers[identity.node_id].identity == identity,
    ensures
        s.identity_ok(identity),
        s.cancel_due(identity, fence) <==> holds(s, identity, fence) && s.tasks[fence.task_id].state is CancelRequested,
        holds(s, identity, fence) && s.tasks[fence.task_id].state is Assigned ==> s.unstarted(
            identity,
            fence.task_id,
            fence.lease_id,
        ),
        s.unstarted(identity, fence.task_id, fence.lease_id) ==> s.tasks[fence.task_id].state is Assigned && holds(
            s,
            identity,
            TaskFence { attempt: s.tasks[fence.task_id].attempt, ..fence },
        ),
{
    lemma_holds(s, identity, fence);
    lemma_holds(s, identity, TaskFence { attempt: s.tasks[fence.task_id].attempt, ..fence });
    assert(s.worker_ok(identity.node_id));
    if s.tasks.contains_key(fence.task_id) {
        assert(s.task_ok(fence.task_id));
    }
}

} // verus!
