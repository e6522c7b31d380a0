//! The coordinator's state as mathematics: records, transitions, and the
//! invariant that every transition keeps.
use vstd::prelude::*;
use vstd::utf8::encode_utf8;

use crate::coordinator::{
    ObjectState, WorkerExpiry, WorkerState, LOCALITY_LOOKAHEAD, MAX_OBJECTS, MAX_TASKS, RETRY_BACKOFF_BASE_MS,
    RETRY_BACKOFF_CAP_MS, TERMINAL_TASK_TTL_MS,
};
use crate::error::ErrorModel;
use crate::ids::{
    Attempt, CoordinatorEpoch, LeaseId, NodeId, ObjectId, TaskId, WorkerEpoch, WorkerSessionId,
};
use crate::operation::{by_key, ArgModel, Codec, DescriptorModel, KeyModel};
use crate::protocol::{addr_ok, FailureClass, TaskFence, WorkerIdentity, MAX_OBJECT_BYTES};
use crate::resources::{amount, fits, is_resource_map, minus, plus};
use crate::sums::sum;

verus! {

/// Where a task stands.
pub enum Phase {
    Waiting,
    Runnable,
    Assigned,
    Running,
    CancelRequested,
    Succeeded,
    Failed(Seq<char>),
    Cancelled,
}

impl Phase {
    /// Terminal phases are never left.
    pub open spec fn terminal(self) -> bool {
        self is Succeeded || self is Failed || self is Cancelled
    }

    /// A worker holds the task.
    pub open spec fn held(self) -> bool {
        self is Assigned || self is Running || self is CancelRequested
    }
}

pub type Holder = (NodeId, WorkerEpoch, WorkerSessionId, LeaseId);

pub struct TaskModel {
    pub id: TaskId,
    pub operation: KeyModel,
    pub args: Seq<ArgModel>,
    pub output: ObjectId,
    pub resources: Map<Seq<char>, int>,
    pub max_attempts: u32,
    pub attempt: Attempt,
    pub state: Phase,
    pub assigned: Option<Holder>,
    pub not_before_ms: u64,
    pub terminal_since_ms: u64,
}

impl TaskModel {
    pub open spec fn live(self) -> bool {
        !self.state.terminal()
    }

    /// The task is held by the worker at `node`.
    pub open spec fn on_node(self, node: NodeId) -> bool {
        self.assigned matches Some(holder) && holder.0 == node
    }

    /// The task takes the object `id` as an argument.
    pub open spec fn depends_on(self, id: ObjectId) -> bool {
        self.args.contains(ArgModel::Object(id))
    }
}

pub struct ObjectModel {
    pub id: ObjectId,
    pub state: ObjectState,
    pub codec: Option<Codec>,
    pub bytes: Option<Seq<u8>>,
    pub size_bytes: Option<u64>,
    pub checksum: Option<[u8; 32]>,
    pub location: Option<Seq<char>>,
    pub owner: Option<NodeId>,
}

pub struct WorkerModel {
    pub identity: WorkerIdentity,
    pub state: WorkerState,
    pub advertise_addr: Seq<char>,
    pub total: Map<Seq<char>, int>,
    pub available: Map<Seq<char>, int>,
    pub slots: u32,
    pub free_slots: u32,
    pub operations: Map<KeyModel, DescriptorModel>,
    pub lease_deadline_ms: u64,
}

#[verifier::ext_equal]
pub struct Model {
    pub epoch: CoordinatorEpoch,
    pub revision: int,
    pub workers: Map<NodeId, WorkerModel>,
    pub tasks: Map<TaskId, TaskModel>,
    pub objects: Map<ObjectId, ObjectModel>,
    pub operations: Map<KeyModel, DescriptorModel>,
    pub pending_deletes: Map<NodeId, Seq<ObjectId>>,
    pub runnable: Seq<TaskId>,
    pub waiting: Set<TaskId>,
    pub cancel_requested: Set<TaskId>,
    pub sched_assigns: int,
    pub sched_owned_input: int,
    pub sched_local_hits: int,
    pub retries_total: int,
    pub failures_total: int,
}

/// How a report from a worker, or a client's request, changes the state.
pub enum Verdict {
    /// Refused; nothing changes.
    Refused(ErrorModel),
    /// Accepted; the state becomes this.
    Next(Model),
    /// Accepted; the state becomes this and the waiting tasks are then settled.
    Settling(Model),
}

/// The weight of a task in the count of slots taken on `node`.
pub open spec fn slot_weight(node: NodeId) -> spec_fn(TaskModel) -> int {
    |task: TaskModel| if task.on_node(node) {
        1int
    } else {
        0
    }
}

/// The weight of a task in the amount of `name` taken on `node`.
pub open spec fn amount_weight(node: NodeId, name: Seq<char>) -> spec_fn(TaskModel) -> int {
    |task: TaskModel| if task.on_node(node) {
        amount(task.resources, name)
    } else {
        0
    }
}

/// Counts the tasks that some worker holds.
pub open spec fn held_weight() -> spec_fn(TaskModel) -> int {
    |task: TaskModel| if task.assigned is Some {
        1int
    } else {
        0
    }
}

/// Two to the power `n`.
pub open spec fn power_of_two(n: nat) -> nat
    decreases n,
{
    if n == 0 {
        1
    } else {
        2 * power_of_two((n - 1) as nat)
    }
}

pub proof fn lemma_power_of_two_grows(a: nat, b: nat)
    requires
        a <= b,
    ensures
        0 < power_of_two(a) <= power_of_two(b),
    decreases b,
{
    if a < b {
        lemma_power_of_two_grows(a, (b - 1) as nat);
    } else if a > 0 {
        lemma_power_of_two_grows((a - 1) as nat, (a - 1) as nat);
    }
}

/// How long a task waits after its `attempt`-th failure: 100 ms, doubled with
/// every further failure, and no more than 30 s.
pub open spec fn backoff(attempt: int) -> int {
    let doublings = if attempt <= 1 {
        0
    } else if attempt - 1 > 20 {
        20
    } else {
        attempt - 1
    };
    let wait = RETRY_BACKOFF_BASE_MS * power_of_two(doublings as nat);
    if wait > RETRY_BACKOFF_CAP_MS {
        RETRY_BACKOFF_CAP_MS as int
    } else {
        wait
    }
}

pub open spec fn saturating(n: int) -> u64 {
    if n > u64::MAX {
        u64::MAX
    } else {
        n as u64
    }
}

/// What a look at the queue for one worker finds. `passed` are tasks the worker
/// could take, `requeue` those it cannot take now, `local` one whose input it
/// owns, and `rest` what was not looked at.
#[verifier::ext_equal]
pub struct Scan {
    pub passed: Seq<TaskId>,
    pub requeue: Seq<TaskId>,
    pub local: Option<TaskId>,
    pub rest: Seq<TaskId>,
}

impl Scan {
    /// The task to assign: a local one, or else the first that was passed.
    pub open spec fn chosen(self) -> Option<TaskId> {
        if self.local is Some {
            self.local
        } else if self.passed.len() > 0 {
            Some(self.passed[0])
        } else {
            None
        }
    }

    /// The queue afterwards: passed tasks keep their place in front, tasks that
    /// the worker cannot take go to the back.
    pub open spec fn queue(self) -> Seq<TaskId> {
        let kept = match self.chosen() {
            Some(id) => self.passed.filter(|other: TaskId| other != id),
            None => self.passed,
        };
        kept + self.rest + self.requeue
    }
}

/// What becomes of a task whose worker is lost.
pub enum Fate {
    Retried,
    Failed,
    Cancelled,
}

/// The object after the worker at `node` is lost: what the worker owned is lost with
/// it, even if its bytes came along with the report.
pub open spec fn without_owner(object: ObjectModel, node: NodeId) -> ObjectModel {
    if object.owner == Some(node) && object.state == ObjectState::Available {
        ObjectModel { owner: None, location: None, bytes: None, state: ObjectState::Lost, ..object }
    } else {
        object
    }
}

/// Counts the objects that are lost with the worker at `node`.
pub open spec fn lost_weight(node: NodeId) -> spec_fn(ObjectModel) -> int {
    |object: ObjectModel| if object.owner == Some(node) && object.state == ObjectState::Available {
        1int
    } else {
        0
    }
}

pub open spec fn stamp(task: TaskModel, now: u64) -> TaskModel {
    if task.state.terminal() && task.terminal_since_ms == 0 {
        TaskModel { terminal_since_ms: now, ..task }
    } else {
        task
    }
}

/// Counts the tasks in a phase.
pub open spec fn phase_weight(chosen: spec_fn(Phase) -> bool) -> spec_fn(TaskModel) -> int {
    |task: TaskModel| if chosen(task.state) {
        1int
    } else {
        0
    }
}

/// Counts the objects in a state.
pub open spec fn object_weight(state: ObjectState) -> spec_fn(ObjectModel) -> int {
    |object: ObjectModel| if object.state == state {
        1int
    } else {
        0
    }
}

impl Model {
    pub open spec fn empty(epoch: CoordinatorEpoch) -> Model {
        Model {
            epoch,
            revision: 0,
            workers: Map::empty(),
            tasks: Map::empty(),
            objects: Map::empty(),
            operations: Map::empty(),
            pending_deletes: Map::empty(),
            runnable: Seq::empty(),
            waiting: Set::empty(),
            cancel_requested: Set::empty(),
            sched_assigns: 0,
            sched_owned_input: 0,
            sched_local_hits: 0,
            retries_total: 0,
            failures_total: 0,
        }
    }

    // ---- Well-formedness ----

    pub open spec fn slots_taken(self, node: NodeId) -> int {
        sum(self.tasks, slot_weight(node))
    }

    pub open spec fn amount_taken(self, node: NodeId, name: Seq<char>) -> int {
        sum(self.tasks, amount_weight(node, name))
    }

    /// What is free on a worker and what its tasks hold make up its totals.
    pub open spec fn accounted(self, node: NodeId) -> bool {
        let worker = self.workers[node];
        &&& worker.free_slots + self.slots_taken(node) == worker.slots
        &&& forall|name: Seq<char>|
            amount(worker.available, name) + #[trigger] self.amount_taken(node, name) == amount(
                worker.total,
                name,
            )
    }

    pub open spec fn worker_ok(self, node: NodeId) -> bool {
        let worker = self.workers[node];
        &&& worker.identity.node_id == node
        &&& worker.identity.coordinator_epoch == self.epoch
        &&& worker.state != WorkerState::Dead
        &&& is_resource_map(worker.total)
        &&& is_resource_map(worker.available)
        &&& forall|key: KeyModel| #[trigger]
            worker.operations.contains_key(key) ==> self.operations.contains_key(key) && self.operations[key]
                == worker.operations[key]
    }

    pub open spec fn operation_ok(self, key: KeyModel) -> bool {
        &&& self.operations[key].key == key
        &&& self.operations[key].validated() is Ok
    }

    /// The state of a task's output goes with the state of the task.
    pub open spec fn output_ok(self, task: TaskModel) -> bool {
        &&& self.objects.contains_key(task.output)
        &&& match task.state {
            Phase::Succeeded => {
                let state = self.objects[task.output].state;
                state == ObjectState::Available || state == ObjectState::Lost
            },
            Phase::Failed(_) => self.objects[task.output].state == ObjectState::Failed,
            Phase::Cancelled => self.objects[task.output].state == ObjectState::Cancelled,
            _ => self.objects[task.output].state == ObjectState::Reserved,
        }
    }

    /// A held task names the registration of a worker in the table.
    pub open spec fn holder_ok(self, task: TaskModel) -> bool {
        &&& task.assigned is Some <==> task.state.held()
        &&& match task.assigned {
            Some(holder) => {
                &&& self.workers.contains_key(holder.0)
                &&& self.workers[holder.0].identity.worker_epoch == holder.1
                &&& self.workers[holder.0].identity.session_id == holder.2
            },
            None => true,
        }
    }

    pub open spec fn task_ok(self, id: TaskId) -> bool {
        let task = self.tasks[id];
        &&& task.id == id
        &&& is_resource_map(task.resources)
        &&& self.operations.contains_key(task.operation)
        &&& task.attempt.0 <= task.max_attempts
        &&& (task.state is Waiting || task.state is Runnable) ==> task.attempt.0 < task.max_attempts
        &&& task.live() ==> task.terminal_since_ms == 0
        &&& self.holder_ok(task)
        &&& self.output_ok(task)
        &&& self.waiting.contains(id) <==> task.state is Waiting
        &&& self.cancel_requested.contains(id) <==> task.state is CancelRequested
        &&& task.state is Runnable ==> self.runnable.contains(id)
        &&& task.live() ==> forall|dep: ObjectId| #[trigger]
            task.depends_on(dep) ==> self.objects.contains_key(dep)
    }

    /// `id` is a live task that will fill the object `output`.
    pub open spec fn produces(self, id: TaskId, output: ObjectId) -> bool {
        self.tasks.contains_key(id) && self.tasks[id].output == output && self.tasks[id].live()
    }

    pub open spec fn object_ok(self, id: ObjectId) -> bool {
        let object = self.objects[id];
        &&& object.id == id
        &&& object.state == ObjectState::Available ==> object.codec is Some && object.size_bytes is Some
            && object.checksum is Some && object.location is Some
        &&& object.owner matches Some(node) ==> object.state == ObjectState::Available
            && self.workers.contains_key(node)
        &&& object.state == ObjectState::Reserved ==> object.codec is Some && exists|task: TaskId| #[trigger]
            self.produces(task, id)
    }

    pub open spec fn bounded(self) -> bool {
        &&& self.workers.dom().finite()
        &&& self.tasks.dom().finite()
        &&& self.objects.dom().finite()
        &&& self.tasks.dom().len() <= MAX_TASKS
        &&& self.objects.dom().len() <= MAX_OBJECTS
    }

    /// Everything but the accounts of workers, and the settling of waiting tasks.
    pub open spec fn consistent(self) -> bool {
        &&& self.bounded()
        &&& forall|node: NodeId| #[trigger] self.workers.contains_key(node) ==> self.worker_ok(node)
        &&& forall|key: KeyModel| #[trigger] self.operations.contains_key(key) ==> self.operation_ok(key)
        &&& forall|id: TaskId| #[trigger] self.tasks.contains_key(id) ==> self.task_ok(id)
        &&& forall|a: TaskId, b: TaskId|
            #![trigger self.tasks[a], self.tasks[b]]
            self.tasks.contains_key(a) && self.tasks.contains_key(b) && a != b ==> self.tasks[a].output
                != self.tasks[b].output
        &&& forall|id: TaskId| #[trigger] self.waiting.contains(id) ==> self.tasks.contains_key(id)
        &&& forall|id: TaskId| #[trigger] self.cancel_requested.contains(id) ==> self.tasks.contains_key(id)
        &&& forall|id: ObjectId| #[trigger] self.objects.contains_key(id) ==> self.object_ok(id)
    }

    /// Deletions are pending only for workers that are registered.
    pub open spec fn deletes_known(self) -> bool {
        forall|node: NodeId| #[trigger]
            self.pending_deletes.contains_key(node) ==> self.workers.contains_key(node)
    }

    /// The accounts of every worker but those in `skip` balance.
    pub open spec fn balanced_except(self, skip: Set<NodeId>) -> bool {
        forall|node: NodeId| #[trigger]
            self.workers.contains_key(node) && !skip.contains(node) ==> self.accounted(node)
    }

    /// The invariant, but for the settling of waiting tasks.
    pub open spec fn sound(self) -> bool {
        self.consistent() && self.balanced_except(Set::empty())
    }

    /// The invariant that every operation keeps.
    pub open spec fn wf(self) -> bool {
        self.sound() && self.settled()
    }

    // ---- Small changes ----

    pub open spec fn bump(self) -> Model {
        Model { revision: self.revision + 1, ..self }
    }

    pub open spec fn with_task(self, id: TaskId, task: TaskModel) -> Model {
        Model { tasks: self.tasks.insert(id, task), ..self }
    }

    pub open spec fn with_object_state(self, id: ObjectId, state: ObjectState) -> Model {
        Model { objects: self.objects.insert(id, ObjectModel { state, ..self.objects[id] }), ..self }
    }

    pub open spec fn with_worker(self, node: NodeId, worker: WorkerModel) -> Model {
        Model { workers: self.workers.insert(node, worker), ..self }
    }

    /// A slot and `resources` of the worker at `node` become free.
    pub open spec fn released(self, node: NodeId, resources: Map<Seq<char>, int>) -> Model {
        let worker = self.workers[node];
        self.with_worker(
            node,
            WorkerModel {
                free_slots: (worker.free_slots + 1) as u32,
                available: plus(worker.available, resources),
                ..worker
            },
        )
    }

    /// The task becomes runnable and goes to the end of the queue.
    pub open spec fn queued(self, id: TaskId) -> Model {
        Model {
            tasks: self.tasks.insert(id, TaskModel { state: Phase::Runnable, ..self.tasks[id] }),
            waiting: self.waiting.remove(id),
            runnable: self.runnable.push(id),
            ..self
        }
    }

    // ---- Dependencies ----

    pub open spec fn dep_ready(self, dep: ObjectId) -> bool {
        self.objects.contains_key(dep) && self.objects[dep].state == ObjectState::Available
    }

    pub open spec fn dep_hopeless(self, dep: ObjectId) -> bool {
        !self.objects.contains_key(dep) || {
            let state = self.objects[dep].state;
            state != ObjectState::Reserved && state != ObjectState::Available
        }
    }

    /// An input of the waiting task is lost, failed, cancelled or gone.
    pub open spec fn must_fail(self, id: TaskId) -> bool {
        &&& self.waiting.contains(id)
        &&& exists|dep: ObjectId| #[trigger] self.tasks[id].depends_on(dep) && self.dep_hopeless(dep)
    }

    /// Every input of the waiting task is available.
    pub open spec fn may_run(self, id: TaskId) -> bool {
        &&& self.waiting.contains(id)
        &&& forall|dep: ObjectId| #[trigger] self.tasks[id].depends_on(dep) ==> self.dep_ready(dep)
    }

    /// No waiting task is to be failed or run.
    pub open spec fn settled(self) -> bool {
        forall|id: TaskId| #[trigger] self.waiting.contains(id) ==> !self.must_fail(id) && !self.may_run(id)
    }

    pub open spec fn dependency_failed(self, id: TaskId) -> Model {
        let task = self.tasks[id];
        let next = Model {
            tasks: self.tasks.insert(id, TaskModel { state: Phase::Failed("dependency failed"@), ..task }),
            waiting: self.waiting.remove(id),
            ..self
        };
        next.with_object_state(task.output, ObjectState::Failed)
    }

    /// One waiting task leaves the waiting set: failed, or runnable.
    pub open spec fn settle_one(self, id: TaskId) -> Model {
        if self.must_fail(id) {
            self.dependency_failed(id)
        } else {
            self.queued(id)
        }
    }

    /// The waiting tasks in `order` leave the waiting set, one after the other.
    pub open spec fn settle_run(self, order: Seq<TaskId>) -> Model
        decreases order.len(),
    {
        if order.len() == 0 {
            self
        } else {
            self.settle_run(order.drop_last()).settle_one(order.last())
        }
    }

    /// Each task in `order`, when its turn comes, is to be failed or run.
    pub open spec fn settle_order(self, order: Seq<TaskId>) -> bool
        decreases order.len(),
    {
        order.len() > 0 ==> {
            let before = self.settle_run(order.drop_last());
            &&& self.settle_order(order.drop_last())
            &&& before.must_fail(order.last()) || before.may_run(order.last())
        }
    }

    /// `next` is this state after waiting tasks were failed and run, in some
    /// order, until none was left to be.
    pub open spec fn settles_to(self, next: Model) -> bool {
        next.settled() && exists|order: Seq<TaskId>| #[trigger]
            self.settle_order(order) && next == self.settle_run(order)
    }

    // ---- Identity and fences ----

    /// The identity is that of a current registration with this coordinator.
    pub open spec fn identity_ok(self, identity: WorkerIdentity) -> bool {
        &&& identity.coordinator_epoch == self.epoch
        &&& self.workers.contains_key(identity.node_id)
        &&& self.workers[identity.node_id].state != WorkerState::Dead
        &&& self.workers[identity.node_id].identity.worker_epoch == identity.worker_epoch
        &&& self.workers[identity.node_id].identity.session_id == identity.session_id
    }

    /// What is wrong with a report under this identity and fence, if anything.
    pub open spec fn fence_fault(self, identity: WorkerIdentity, fence: TaskFence) -> Option<ErrorModel> {
        if !self.identity_ok(identity) {
            Some(ErrorModel::StaleFence)
        } else if !self.tasks.contains_key(fence.task_id) {
            Some(ErrorModel::TaskNotFound(fence.task_id))
        } else if self.tasks[fence.task_id].assigned != Some(
            (identity.node_id, identity.worker_epoch, identity.session_id, fence.lease_id),
        ) || self.tasks[fence.task_id].attempt != fence.attempt {
            Some(ErrorModel::StaleFence)
        } else {
            None
        }
    }

    // ---- Objects ----

    /// An object that a client puts. The result is the object's id.
    pub open spec fn admitted(
        self,
        id: ObjectId,
        codec: Codec,
        size_bytes: u64,
        checksum: [u8; 32],
        bytes: Option<Seq<u8>>,
    ) -> Verdict {
        if self.objects.contains_key(id) {
            let existing = self.objects[id];
            if existing.state != ObjectState::Available || existing.codec != Some(codec) || existing.size_bytes
                != Some(size_bytes) || existing.checksum != Some(checksum) {
                Verdict::Refused(ErrorModel::ObjectConflict(id))
            } else {
                Verdict::Next(self)
            }
        } else if self.objects.dom().len() >= MAX_OBJECTS {
            Verdict::Refused(ErrorModel::CapacityExceeded("object store limit reached"@))
        } else {
            Verdict::Next(
                Model {
                    objects: self.objects.insert(
                        id,
                        ObjectModel {
                            id,
                            state: ObjectState::Available,
                            codec: Some(codec),
                            bytes,
                            size_bytes: Some(size_bytes),
                            checksum: Some(checksum),
                            location: Some("coordinator"@),
                            owner: None,
                        },
                    ),
                    ..self
                }.bump(),
            )
        }
    }

    /// Why an object has no payload now, if so.
    pub open spec fn unresolved(self, id: ObjectId) -> Option<ErrorModel> {
        if !self.objects.contains_key(id) {
            Some(ErrorModel::Protocol("object unavailable"@))
        } else {
            match self.objects[id].state {
                ObjectState::Available => None,
                ObjectState::Lost => Some(ErrorModel::ObjectLost(id)),
                ObjectState::Reserved => Some(ErrorModel::ObjectPending(id)),
                _ => Some(ErrorModel::Protocol("object unavailable"@)),
            }
        }
    }

    /// A live task takes the object as an argument.
    pub open spec fn in_use(self, id: ObjectId) -> bool {
        exists|task: TaskId| #[trigger]
            self.tasks.contains_key(task) && self.tasks[task].live() && self.tasks[task].depends_on(id)
    }

    /// The object and its producer leave the tables; an owner that is still
    /// registered is to be told.
    pub open spec fn object_dropped(self, id: ObjectId) -> Model {
        let pending = match self.objects[id].owner {
            Some(owner) => if self.workers.contains_key(owner) {
                self.pending_deletes.insert(
                    owner,
                    if self.pending_deletes.contains_key(owner) {
                        self.pending_deletes[owner].push(id)
                    } else {
                        seq![id]
                    },
                )
            } else {
                self.pending_deletes
            },
            None => self.pending_deletes,
        };
        Model {
            objects: self.objects.remove(id),
            tasks: Map::new(
                |task: TaskId| self.tasks.contains_key(task) && self.tasks[task].output != id,
                |task: TaskId| self.tasks[task],
            ),
            pending_deletes: pending,
            ..self
        }.bump()
    }

    pub open spec fn object_released(self, id: ObjectId) -> Verdict {
        if !self.objects.contains_key(id) {
            Verdict::Next(self)
        } else if self.objects[id].state == ObjectState::Reserved || self.in_use(id) {
            Verdict::Refused(ErrorModel::ObjectInUse(id))
        } else {
            Verdict::Next(self.object_dropped(id))
        }
    }

    // ---- Submission ----

    /// What is wrong with an object argument, if anything.
    pub open spec fn object_arg_fault(self, arg: ArgModel, input_codec: Codec) -> Option<ErrorModel> {
        match arg {
            ArgModel::Inline { codec, bytes } => None,
            ArgModel::Object(id) => if !self.objects.contains_key(id) {
                Some(ErrorModel::ObjectNotFound(id))
            } else if self.objects[id].codec is Some && self.objects[id].codec != Some(input_codec) {
                Some(ErrorModel::Protocol("object argument codec mismatch"@))
            } else if self.dep_hopeless(id) {
                Some(ErrorModel::DependencyFailed(id))
            } else {
                None
            },
        }
    }

    /// The fault of the first object argument that has one.
    pub open spec fn object_args_fault(self, args: Seq<ArgModel>, input_codec: Codec) -> Option<ErrorModel>
        decreases args.len(),
    {
        if args.len() == 0 {
            None
        } else {
            match self.object_args_fault(args.drop_last(), input_codec) {
                Some(error) => Some(error),
                None => self.object_arg_fault(args.last(), input_codec),
            }
        }
    }

    /// A registered worker that takes new work could run the task when idle.
    pub open spec fn could_run(self, node: NodeId, operation: KeyModel, resources: Map<Seq<char>, int>) -> bool {
        &&& self.workers.contains_key(node)
        &&& self.workers[node].state == WorkerState::Alive
        &&& self.workers[node].operations.contains_key(operation)
        &&& fits(self.workers[node].total, resources)
    }

    pub open spec fn submit_fault(
        self,
        operation: KeyModel,
        args: Seq<ArgModel>,
        resources: Map<Seq<char>, int>,
        max_attempts: u32,
    ) -> Option<ErrorModel> {
        if max_attempts == 0 {
            Some(ErrorModel::IllegalTransition("max_attempts must be positive"@))
        } else if self.tasks.dom().len() >= MAX_TASKS {
            Some(ErrorModel::CapacityExceeded("task limit reached"@))
        } else if self.objects.dom().len() >= MAX_OBJECTS {
            Some(ErrorModel::CapacityExceeded("object store limit reached"@))
        } else if !self.operations.contains_key(operation) {
            Some(ErrorModel::OperationUnavailable(operation.text()))
        } else if self.operations[operation].args_validated(args) is Err {
            Some(self.operations[operation].args_validated(args)->Err_0)
        } else if !(exists|node: NodeId| #[trigger] self.could_run(node, operation, resources)) {
            Some(ErrorModel::InvalidResource("no registered worker can satisfy task resources"@))
        } else {
            self.object_args_fault(args, self.operations[operation].input_codec)
        }
    }

    /// An input of the task is the output of a task that has not finished.
    pub open spec fn must_wait(self, args: Seq<ArgModel>) -> bool {
        exists|dep: ObjectId| #[trigger]
            args.contains(ArgModel::Object(dep)) && self.objects.contains_key(dep) && self.objects[dep].state
                == ObjectState::Reserved
    }

    /// The task `id` with the reserved output `output` enters the tables.
    pub open spec fn task_added(
        self,
        operation: KeyModel,
        args: Seq<ArgModel>,
        resources: Map<Seq<char>, int>,
        max_attempts: u32,
        id: TaskId,
        output: ObjectId,
    ) -> Model {
        let waits = self.must_wait(args);
        Model {
            objects: self.objects.insert(
                output,
                ObjectModel {
                    id: output,
                    state: ObjectState::Reserved,
                    codec: Some(self.operations[operation].output_codec),
                    bytes: None,
                    size_bytes: None,
                    checksum: None,
                    location: None,
                    owner: None,
                },
            ),
            tasks: self.tasks.insert(
                id,
                TaskModel {
                    id,
                    operation,
                    args,
                    output,
                    resources,
                    max_attempts,
                    attempt: Attempt(0),
                    state: if waits {
                        Phase::Waiting
                    } else {
                        Phase::Runnable
                    },
                    assigned: None,
                    not_before_ms: 0,
                    terminal_since_ms: 0,
                },
            ),
            waiting: if waits {
                self.waiting.insert(id)
            } else {
                self.waiting
            },
            runnable: if waits {
                self.runnable
            } else {
                self.runnable.push(id)
            },
            ..self
        }.bump()
    }

    pub open spec fn submitted(
        self,
        operation: KeyModel,
        args: Seq<ArgModel>,
        resources: Map<Seq<char>, int>,
        max_attempts: u32,
        id: TaskId,
        output: ObjectId,
    ) -> Verdict {
        match self.submit_fault(operation, args, resources, max_attempts) {
            Some(error) => Verdict::Refused(error),
            None => if self.tasks.contains_key(id) || self.objects.contains_key(output) {
                Verdict::Refused(ErrorModel::ObjectConflict(output))
            } else {
                Verdict::Next(self.task_added(operation, args, resources, max_attempts, id, output))
            },
        }
    }

    // ---- Assignment ----

    /// The queue entry still names a runnable task.
    pub open spec fn is_runnable(self, id: TaskId) -> bool {
        self.tasks.contains_key(id) && self.tasks[id].state is Runnable
    }

    /// The worker can take the task now.
    pub open spec fn servable(self, node: NodeId, now: u64, id: TaskId) -> bool {
        &&& self.tasks[id].not_before_ms <= now
        &&& self.workers[node].operations.contains_key(self.tasks[id].operation)
        &&& fits(self.workers[node].available, self.tasks[id].resources)
    }

    pub open spec fn owned_by(self, object: ObjectId, node: NodeId) -> bool {
        self.objects.contains_key(object) && self.objects[object].owner == Some(node)
    }

    /// The worker owns an input of the task.
    pub open spec fn is_local(self, node: NodeId, id: TaskId) -> bool {
        exists|dep: ObjectId| #[trigger] self.tasks[id].depends_on(dep) && self.owned_by(dep, node)
    }

    /// Some worker owns an input of the task.
    pub open spec fn has_owned_input(self, id: TaskId) -> bool {
        exists|dep: ObjectId| #[trigger]
            self.tasks[id].depends_on(dep) && self.objects.contains_key(dep) && self.objects[dep].owner is Some
    }

    /// Looks at the queue from the front, after `looked` tasks that the worker
    /// could take, until one is local or sixteen were seen.
    pub open spec fn scan(self, node: NodeId, now: u64, queue: Seq<TaskId>, looked: int) -> Scan
        decreases queue.len(),
    {
        if queue.len() == 0 || looked >= LOCALITY_LOOKAHEAD {
            Scan { passed: Seq::empty(), requeue: Seq::empty(), local: None, rest: queue }
        } else {
            let id = queue[0];
            let rest = queue.skip(1);
            if !self.is_runnable(id) {
                self.scan(node, now, rest, looked)
            } else if !self.servable(node, now, id) {
                let tail = self.scan(node, now, rest, looked);
                Scan { requeue: seq![id] + tail.requeue, ..tail }
            } else if self.is_local(node, id) {
                Scan { passed: Seq::empty(), requeue: Seq::empty(), local: Some(id), rest }
            } else {
                let tail = self.scan(node, now, rest, looked + 1);
                Scan { passed: seq![id] + tail.passed, ..tail }
            }
        }
    }

    /// The task `id` is given to the worker at `node` under `lease`.
    pub open spec fn assigned_to(self, id: TaskId, node: NodeId, lease: LeaseId, local: bool) -> Model {
        let worker = self.workers[node];
        let task = self.tasks[id];
        Model {
            tasks: self.tasks.insert(
                id,
                TaskModel {
                    attempt: Attempt((task.attempt.0 + 1) as u32),
                    state: Phase::Assigned,
                    assigned: Some((node, worker.identity.worker_epoch, worker.identity.session_id, lease)),
                    ..task
                },
            ),
            workers: self.workers.insert(
                node,
                WorkerModel {
                    available: minus(worker.available, task.resources),
                    free_slots: (worker.free_slots - 1) as u32,
                    ..worker
                },
            ),
            sched_assigns: self.sched_assigns + 1,
            sched_owned_input: self.sched_owned_input + if local || self.has_owned_input(id) {
                1int
            } else {
                0
            },
            sched_local_hits: self.sched_local_hits + if local {
                1int
            } else {
                0
            },
            ..self
        }.bump()
    }

    /// The worker is known and takes new work.
    pub open spec fn takes_work(self, node: NodeId) -> bool {
        self.workers[node].state == WorkerState::Alive && self.workers[node].free_slots > 0
    }

    /// The state after a worker asked for work, and the task it got.
    pub open spec fn assigned_next(self, node: NodeId, now: u64, lease: LeaseId) -> (Model, Option<TaskId>) {
        if !self.takes_work(node) {
            (self, None)
        } else {
            let scan = self.scan(node, now, self.runnable, 0);
            let requeued = Model { runnable: scan.queue(), ..self };
            match scan.chosen() {
                Some(id) => (requeued.assigned_to(id, node, lease, scan.local is Some), Some(id)),
                None => (requeued, None),
            }
        }
    }

    // ---- Reports ----

    pub open spec fn started(self, identity: WorkerIdentity, fence: TaskFence) -> Verdict {
        if !self.tasks.contains_key(fence.task_id) {
            Verdict::Refused(ErrorModel::TaskNotFound(fence.task_id))
        } else {
            match self.fence_fault(identity, fence) {
                Some(error) => Verdict::Refused(error),
                None => {
                    let task = self.tasks[fence.task_id];
                    if task.state is Running {
                        Verdict::Next(self)
                    } else if !(task.state is Assigned) {
                        Verdict::Refused(ErrorModel::IllegalTransition("task not assigned"@))
                    } else {
                        Verdict::Next(
                            self.with_task(fence.task_id, TaskModel { state: Phase::Running, ..task }).bump(),
                        )
                    }
                },
            }
        }
    }

    /// A report of success, for a task whose output is not there yet.
    pub open spec fn output_fault(
        self,
        identity: WorkerIdentity,
        report: CompletionModel,
        digest: Seq<u8>,
    ) -> Option<ErrorModel> {
        let task = self.tasks[report.fence.task_id];
        let conflict = Some(ErrorModel::ObjectConflict(task.output));
        if report.bytes matches Some(bytes) && (bytes.len() != report.size_bytes || digest
            != report.checksum@) {
            conflict
        } else if task.output != report.output_id || report.codec != self.operations[task.operation].output_codec
            || report.location != self.workers[identity.node_id].advertise_addr || report.size_bytes
            > MAX_OBJECT_BYTES {
            conflict
        } else {
            None
        }
    }

    /// The task succeeded and its output is available at the worker.
    pub open spec fn succeeded(self, identity: WorkerIdentity, report: CompletionModel) -> Model {
        let task = self.tasks[report.fence.task_id];
        let freed = self.released(identity.node_id, task.resources);
        Model {
            tasks: freed.tasks.insert(
                report.fence.task_id,
                TaskModel { state: Phase::Succeeded, assigned: None, ..task },
            ),
            objects: freed.objects.insert(
                task.output,
                ObjectModel {
                    id: freed.objects[task.output].id,
                    state: ObjectState::Available,
                    codec: Some(report.codec),
                    bytes: report.bytes,
                    size_bytes: Some(report.size_bytes),
                    checksum: Some(report.checksum),
                    location: Some(report.location),
                    owner: Some(identity.node_id),
                },
            ),
            ..freed
        }.bump()
    }

    /// `digest` is the digest of the report's inline bytes.
    pub open spec fn completed(self, identity: WorkerIdentity, report: CompletionModel, digest: Seq<u8>) -> Verdict {
        let id = report.fence.task_id;
        if !self.tasks.contains_key(id) {
            Verdict::Refused(ErrorModel::TaskNotFound(id))
        } else if self.tasks[id].state is Succeeded {
            let object = self.objects[self.tasks[id].output];
            if object.state == ObjectState::Available && object.checksum == Some(report.checksum)
                && object.size_bytes == Some(report.size_bytes) {
                Verdict::Next(self)
            } else {
                Verdict::Refused(ErrorModel::ObjectConflict(self.tasks[id].output))
            }
        } else {
            match self.fence_fault(identity, report.fence) {
                Some(error) => Verdict::Refused(error),
                None => if !(self.tasks[id].state is Assigned || self.tasks[id].state is Running) {
                    Verdict::Refused(ErrorModel::IllegalTransition("task cannot complete in current state"@))
                } else {
                    match self.output_fault(identity, report, digest) {
                        Some(error) => Verdict::Refused(error),
                        None => Verdict::Settling(self.succeeded(identity, report)),
                    }
                },
            }
        }
    }

    /// The attempt failed and the task is queued again, to run no sooner than
    /// its backoff allows.
    pub open spec fn retried(self, id: TaskId, now: u64) -> Model {
        let queued = self.queued(id);
        let task = queued.tasks[id];
        Model {
            tasks: queued.tasks.insert(
                id,
                TaskModel {
                    assigned: None,
                    not_before_ms: saturating(now + backoff(task.attempt.0 as int)),
                    ..task
                },
            ),
            retries_total: self.retries_total + 1,
            ..queued
        }
    }

    /// The task failed for good, and with it its output.
    pub open spec fn gave_up(self, id: TaskId, message: Seq<char>) -> Model {
        let task = self.tasks[id];
        let next = Model {
            tasks: self.tasks.insert(id, TaskModel { state: Phase::Failed(message), assigned: None, ..task }),
            failures_total: self.failures_total + 1,
            ..self
        };
        next.with_object_state(task.output, ObjectState::Failed)
    }

    /// Only a transient failure is retried, and only while attempts remain.
    pub open spec fn will_retry(self, id: TaskId, class: FailureClass) -> bool {
        class == FailureClass::Transient && self.tasks[id].attempt.0 < self.tasks[id].max_attempts
    }

    pub open spec fn failed(
        self,
        identity: WorkerIdentity,
        fence: TaskFence,
        message: Seq<char>,
        class: FailureClass,
        now: u64,
    ) -> Verdict {
        let id = fence.task_id;
        if !self.tasks.contains_key(id) {
            Verdict::Refused(ErrorModel::TaskNotFound(id))
        } else if self.tasks[id].state.terminal() {
            Verdict::Next(self)
        } else {
            match self.fence_fault(identity, fence) {
                Some(error) => Verdict::Refused(error),
                None => if !(self.tasks[id].state is Assigned || self.tasks[id].state is Running) {
                    Verdict::Refused(ErrorModel::IllegalTransition("task cannot fail in current state"@))
                } else {
                    let freed = self.released(identity.node_id, self.tasks[id].resources);
                    if self.will_retry(id, class) {
                        Verdict::Next(freed.retried(id, now).bump())
                    } else {
                        Verdict::Settling(freed.gave_up(id, message).bump())
                    }
                },
            }
        }
    }

    // ---- Workers ----

    /// What is wrong with a descriptor that is offered after `earlier`, if anything.
    pub open spec fn descriptor_fault(
        self,
        earlier: Map<KeyModel, DescriptorModel>,
        descriptor: DescriptorModel,
    ) -> Option<ErrorModel> {
        let key = descriptor.key;
        if descriptor.validated() is Err {
            Some(descriptor.validated()->Err_0)
        } else if earlier.contains_key(key) && earlier[key] != descriptor {
            Some(ErrorModel::OperationConflict(key.text()))
        } else if self.operations.contains_key(key) && self.operations[key] != descriptor {
            Some(ErrorModel::OperationConflict(key.text()))
        } else {
            None
        }
    }

    /// The fault of the first descriptor that has one.
    pub open spec fn descriptors_fault(self, list: Seq<DescriptorModel>) -> Option<ErrorModel>
        decreases list.len(),
    {
        if list.len() == 0 {
            None
        } else {
            match self.descriptors_fault(list.drop_last()) {
                Some(error) => Some(error),
                None => self.descriptor_fault(by_key(list.drop_last()), list.last()),
            }
        }
    }

    /// An active worker repeats its registration word for word.
    pub open spec fn same_registration(self, request: RegisterModel) -> bool {
        let existing = self.workers[request.node_id];
        &&& existing.identity.worker_epoch == request.worker_epoch
        &&& existing.advertise_addr == request.advertise_addr
        &&& existing.total == request.resources
        &&& existing.slots == request.slots
        &&& existing.operations == by_key(request.operations)
    }

    /// The state after a registration, and the identity it is given.
    pub open spec fn registered(
        self,
        request: RegisterModel,
        session: WorkerSessionId,
        now: u64,
        lease_ms: u64,
    ) -> Result<(Model, WorkerIdentity), ErrorModel> {
        let node = request.node_id;
        let deadline = saturating(now + lease_ms);
        if !addr_ok(encode_utf8(request.advertise_addr)) {
            Err(ErrorModel::InvalidAddress(request.advertise_addr))
        } else if request.slots == 0 {
            Err(ErrorModel::InvalidResource("worker slots must be positive"@))
        } else if self.descriptors_fault(request.operations) is Some {
            Err(self.descriptors_fault(request.operations)->0)
        } else if self.workers.contains_key(node) && self.workers[node].state != WorkerState::Dead {
            if self.same_registration(request) {
                let renewed = WorkerModel { lease_deadline_ms: deadline, ..self.workers[node] };
                Ok((self.with_worker(node, renewed).bump(), self.workers[node].identity))
            } else {
                Err(ErrorModel::Protocol("duplicate active node id"@))
            }
        } else {
            let identity = WorkerIdentity {
                node_id: node,
                worker_epoch: request.worker_epoch,
                session_id: session,
                coordinator_epoch: self.epoch,
            };
            let worker = WorkerModel {
                identity,
                state: WorkerState::Alive,
                advertise_addr: request.advertise_addr,
                total: request.resources,
                available: request.resources,
                slots: request.slots,
                free_slots: request.slots,
                operations: by_key(request.operations),
                lease_deadline_ms: deadline,
            };
            let next = Model {
                operations: self.operations.union_prefer_right(by_key(request.operations)),
                ..self
            };
            Ok((next.with_worker(node, worker).bump(), identity))
        }
    }

    /// The worker's lease runs for another `lease_ms`.
    pub open spec fn heard(self, identity: WorkerIdentity, now: u64, lease_ms: u64) -> Verdict {
        if !self.identity_ok(identity) {
            Verdict::Refused(ErrorModel::StaleFence)
        } else {
            let node = identity.node_id;
            Verdict::Next(
                self.with_worker(
                    node,
                    WorkerModel { lease_deadline_ms: saturating(now + lease_ms), ..self.workers[node] },
                ),
            )
        }
    }

    /// The worker gets no more work.
    pub open spec fn draining(self, identity: WorkerIdentity) -> Verdict {
        if !self.identity_ok(identity) {
            Verdict::Refused(ErrorModel::StaleFence)
        } else {
            let node = identity.node_id;
            Verdict::Next(
                self.with_worker(
                    node,
                    WorkerModel { state: WorkerState::Draining, ..self.workers[node] },
                ).bump(),
            )
        }
    }

    // ---- Expiry ----

    /// The worker's lease has run out.
    pub open spec fn lapsed(self, node: NodeId, now: u64) -> bool {
        &&& self.workers.contains_key(node)
        &&& self.workers[node].state != WorkerState::Dead
        &&& self.workers[node].lease_deadline_ms <= now
    }

    /// A task loses its worker: it is cancelled if that was asked for, queued
    /// again while attempts remain, and failed otherwise.
    pub open spec fn orphaned(self, id: TaskId, now: u64) -> Model {
        if self.tasks[id].state is CancelRequested {
            self.dropped(id)
        } else if self.tasks[id].attempt.0 < self.tasks[id].max_attempts {
            self.retried(id, now)
        } else {
            self.gave_up(id, "worker lease expired"@)
        }
    }

    /// The state of a task that lost its worker.
    pub open spec fn orphan_phase(self, id: TaskId) -> Phase {
        match self.fate(id) {
            Fate::Cancelled => Phase::Cancelled,
            Fate::Retried => Phase::Runnable,
            Fate::Failed => Phase::Failed("worker lease expired"@),
        }
    }

    pub open spec fn orphan_run(self, ids: Seq<TaskId>, now: u64) -> Model
        decreases ids.len(),
    {
        if ids.len() == 0 {
            self
        } else {
            self.orphan_run(ids.drop_last(), now).orphaned(ids.last(), now)
        }
    }

    /// `ids` are the tasks that the worker at `node` holds, each once.
    pub open spec fn holds_exactly(self, node: NodeId, ids: Seq<TaskId>) -> bool {
        &&& ids.no_duplicates()
        &&& forall|id: TaskId| #[trigger]
            ids.contains(id) <==> self.tasks.contains_key(id) && self.tasks[id].on_node(node)
    }

    /// The objects that the worker owned are lost.
    pub open spec fn objects_lost(self, node: NodeId) -> Model {
        Model {
            objects: Map::new(
                |id: ObjectId| self.objects.contains_key(id),
                |id: ObjectId| without_owner(self.objects[id], node),
            ),
            ..self
        }
    }

    /// The worker at `node`, which holds the tasks `ids`, is forgotten.
    pub open spec fn forgotten(self, node: NodeId, ids: Seq<TaskId>, now: u64) -> Model {
        let next = self.orphan_run(ids, now).objects_lost(node);
        Model {
            workers: next.workers.remove(node),
            pending_deletes: next.pending_deletes.remove(node),
            ..next
        }
    }

    /// `next` is this state without the worker at `report.node`, and `report`
    /// counts what became of its tasks and objects.
    pub open spec fn forgets(self, next: Model, now: u64, report: WorkerExpiry) -> bool {
        exists|ids: Seq<TaskId>| #[trigger]
            self.holds_exactly(report.node, ids) && next == self.forgotten(report.node, ids, now)
                && report.retried == self.count(ids, Fate::Retried) && report.failed == self.count(ids, Fate::Failed)
                && report.cancelled == self.count(ids, Fate::Cancelled) && report.objects_lost == sum(
                self.objects,
                lost_weight(report.node),
            )
    }

    /// What becomes of a task that loses its worker.
    pub open spec fn fate(self, id: TaskId) -> Fate {
        if self.tasks[id].state is CancelRequested {
            Fate::Cancelled
        } else if self.tasks[id].attempt.0 < self.tasks[id].max_attempts {
            Fate::Retried
        } else {
            Fate::Failed
        }
    }

    /// How many of the tasks have the fate.
    pub open spec fn count(self, ids: Seq<TaskId>, fate: Fate) -> int
        decreases ids.len(),
    {
        if ids.len() == 0 {
            0
        } else {
            self.count(ids.drop_last(), fate) + if self.fate(ids.last()) == fate {
                1int
            } else {
                0
            }
        }
    }

    /// The states `states` lead from this one to the one after all workers in
    /// `reports` are forgotten, one after the other.
    pub open spec fn forget_run(self, states: Seq<Model>, now: u64, reports: Seq<WorkerExpiry>) -> bool {
        &&& states.len() == reports.len() + 1
        &&& states[0] == self
        &&& forall|i: int| 0 <= i < reports.len() ==> (#[trigger] states[i]).forgets(states[i + 1], now, reports[i])
    }

    /// `reports` has one entry for each worker whose lease has run out.
    pub open spec fn covers_lapsed(self, now: u64, reports: Seq<WorkerExpiry>) -> bool {
        &&& forall|i: int, j: int|
            #![trigger reports[i], reports[j]]
            0 <= i < j < reports.len() ==> reports[i].node != reports[j].node
        &&& forall|i: int| 0 <= i < reports.len() ==> self.lapsed((#[trigger] reports[i]).node, now)
        &&& forall|node: NodeId| #[trigger]
            self.lapsed(node, now) ==> exists|i: int| 0 <= i < reports.len() && (#[trigger] reports[i]).node == node
    }

    /// `next` is this state after the leases that had run out at `now` were
    /// cleared, as `reports` says.
    pub open spec fn expires_to(self, next: Model, now: u64, reports: Seq<WorkerExpiry>) -> bool {
        &&& self.covers_lapsed(now, reports)
        &&& if reports.len() == 0 {
            next == self
        } else {
            exists|states: Seq<Model>| #[trigger]
                self.forget_run(states, now, reports) && states.last().bump().settles_to(next)
        }
    }

    // ---- Reclaim ----

    /// Finished tasks are marked with the time at which they were first seen.
    pub open spec fn stamped(self, now: u64) -> Model {
        Model {
            tasks: Map::new(
                |id: TaskId| self.tasks.contains_key(id),
                |id: TaskId| stamp(self.tasks[id], now),
            ),
            ..self
        }
    }

    /// The task finished long ago and no live task needs its output.
    pub open spec fn overdue(self, id: TaskId, now: u64) -> bool {
        &&& self.tasks.contains_key(id)
        &&& self.tasks[id].state.terminal()
        &&& now - self.tasks[id].terminal_since_ms >= TERMINAL_TASK_TTL_MS
        &&& !self.in_use(self.tasks[id].output)
    }

    pub open spec fn drop_run(self, outputs: Seq<ObjectId>) -> Model
        decreases outputs.len(),
    {
        if outputs.len() == 0 {
            self
        } else {
            self.drop_run(outputs.drop_last()).object_dropped(outputs.last())
        }
    }

    /// `outputs` are the outputs of the overdue tasks, each once.
    pub open spec fn overdue_outputs(self, now: u64, outputs: Seq<ObjectId>) -> bool {
        &&& outputs.no_duplicates()
        &&& forall|id: TaskId| #[trigger] self.overdue(id, now) ==> outputs.contains(self.tasks[id].output)
        &&& forall|i: int| 0 <= i < outputs.len() ==> self.is_overdue_output(now, #[trigger] outputs[i])
    }

    pub open spec fn is_overdue_output(self, now: u64, output: ObjectId) -> bool {
        exists|id: TaskId| #[trigger] self.overdue(id, now) && self.tasks[id].output == output
    }

    /// `next` is this state after finished tasks were marked and `count` overdue
    /// ones were dropped with their outputs.
    pub open spec fn reaps_to(self, next: Model, now: u64, count: int) -> bool {
        exists|outputs: Seq<ObjectId>| #[trigger]
            self.stamped(now).overdue_outputs(now, outputs) && next == self.stamped(now).drop_run(outputs)
                && count == outputs.len()
    }

    // ---- Cancellation ----

    /// A task that no worker holds is cancelled, and with it its output.
    pub open spec fn dropped(self, id: TaskId) -> Model {
        let task = self.tasks[id];
        let next = Model {
            tasks: self.tasks.insert(id, TaskModel { state: Phase::Cancelled, assigned: None, ..task }),
            waiting: self.waiting.remove(id),
            cancel_requested: self.cancel_requested.remove(id),
            ..self
        };
        next.with_object_state(task.output, ObjectState::Cancelled)
    }

    pub open spec fn cancelled(self, id: TaskId) -> Verdict {
        if !self.tasks.contains_key(id) {
            Verdict::Refused(ErrorModel::TaskNotFound(id))
        } else if self.tasks[id].state.terminal() {
            Verdict::Refused(ErrorModel::IllegalTransition("task is already terminal"@))
        } else if self.tasks[id].state is CancelRequested {
            Verdict::Next(self)
        } else if self.tasks[id].assigned is Some {
            Verdict::Next(
                Model {
                    tasks: self.tasks.insert(id, TaskModel { state: Phase::CancelRequested, ..self.tasks[id] }),
                    cancel_requested: self.cancel_requested.insert(id),
                    ..self
                }.bump(),
            )
        } else {
            Verdict::Settling(self.dropped(id).bump())
        }
    }

    pub open spec fn cancel_acknowledged(self, identity: WorkerIdentity, fence: TaskFence) -> Verdict {
        let id = fence.task_id;
        if !self.tasks.contains_key(id) {
            Verdict::Refused(ErrorModel::TaskNotFound(id))
        } else if self.tasks[id].state is Cancelled {
            Verdict::Next(self)
        } else {
            match self.fence_fault(identity, fence) {
                Some(error) => Verdict::Refused(error),
                None => if !(self.tasks[id].state is CancelRequested) {
                    Verdict::Refused(ErrorModel::IllegalTransition("task is not awaiting cancellation"@))
                } else {
                    Verdict::Settling(
                        self.released(identity.node_id, self.tasks[id].resources).dropped(id).bump(),
                    )
                },
            }
        }
    }

    /// The worker holds the task under `lease` and has not started on it.
    pub open spec fn unstarted(self, identity: WorkerIdentity, id: TaskId, lease: LeaseId) -> bool {
        &&& self.tasks.contains_key(id)
        &&& self.tasks[id].state is Assigned
        &&& self.tasks[id].assigned == Some(
            (identity.node_id, identity.worker_epoch, identity.session_id, lease),
        )
    }

    /// `fence` is that of a task that the worker is asked to cancel.
    pub open spec fn cancel_due(self, identity: WorkerIdentity, fence: TaskFence) -> bool {
        &&& self.cancel_requested.contains(fence.task_id)
        &&& self.tasks[fence.task_id].attempt == fence.attempt
        &&& self.tasks[fence.task_id].assigned == Some(
            (identity.node_id, identity.worker_epoch, identity.session_id, fence.lease_id),
        )
    }
}

/// What a worker offers when it registers.
pub struct RegisterModel {
    pub node_id: NodeId,
    pub worker_epoch: WorkerEpoch,
    pub advertise_addr: Seq<char>,
    pub resources: Map<Seq<char>, int>,
    pub slots: u32,
    pub operations: Seq<DescriptorModel>,
}

/// What a report of success says.
pub struct CompletionModel {
    pub fence: TaskFence,
    pub output_id: ObjectId,
    pub codec: Codec,
    pub size_bytes: u64,
    pub checksum: [u8; 32],
    pub location: Seq<char>,
    pub bytes: Option<Seq<u8>>,
}

} // verus!
