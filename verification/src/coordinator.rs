//! The cluster's control plane: one aggregate of tasks, objects and workers.
//!
//! [`CoordinatorState`] does no I/O and reads no clock. Its view is a
//! [`model::Model`]; every operation states its effect as a transition of that
//! model and keeps the model's invariant.
use std::collections::VecDeque;
use std::sync::Arc;
use vstd::prelude::*;
use vstd::string::*;
use vstd::utf8::encode_utf8;

use crate::cluster::checksum;
use crate::error::{outcome, Error, ErrorModel};
use crate::ids::{
    blake3_digest, bytes_equal, Attempt, CoordinatorEpoch, LeaseId, NodeId, ObjectId, Revision, TaskId, WorkerEpoch,
    WorkerSessionId,
};
use crate::operation::{
    args_model, by_key, clone_args, descriptors_model, ArgModel, Codec, KeyModel, OperationKey, Operations, TaskArg,
};
use crate::protocol::{
    addr_ok, validate_advertise_addr, FailureClass, ObjectPayload, RegisterWorker, TaskAssignment, TaskCompletion,
    TaskFence, TaskStatus, WorkerIdentity, MAX_OBJECT_BYTES,
};
use crate::resources::{overfills, ResourceSet};
use crate::sums::{lemma_sum_ends, lemma_sum_next, lemma_sum_same, sum, sum_over};
use crate::table::{Table, TableKey};

pub mod laws;
pub mod machine;
pub mod model;
pub mod outcomes;
pub mod promises;
pub mod reports;
pub mod upkeep;
use model::{
    backoff, held_weight, lost_weight, object_weight, phase_weight, power_of_two, stamp, without_owner,
    CompletionModel, Fate, Model, ObjectModel, Phase, RegisterModel, Scan, TaskModel, Verdict, WorkerModel,
};

verus! {

pub const MAX_TASKS: usize = 16_384;

pub const MAX_OBJECTS: usize = 65_536;

pub const RETRY_BACKOFF_BASE_MS: u64 = 100;

pub const RETRY_BACKOFF_CAP_MS: u64 = 30_000;

/// How long the record and output of a finished task are kept if no client
/// releases them.
pub const TERMINAL_TASK_TTL_MS: u64 = 600_000;

/// How many tasks a worker could take are looked at for one with a local input.
pub const LOCALITY_LOOKAHEAD: usize = 16;

impl TableKey for TaskId {
    fn same(&self, other: &Self) -> (r: bool) {
        *self == *other
    }
}

impl TableKey for ObjectId {
    fn same(&self, other: &Self) -> (r: bool) {
        *self == *other
    }
}

impl TableKey for NodeId {
    fn same(&self, other: &Self) -> (r: bool) {
        *self == *other
    }
}

/// Backoff for the `attempt`-th failure.
pub fn retry_backoff_ms(attempt: u32) -> (r: u64)
    ensures
        r == backoff(attempt as int),
{
    let doublings: u32 = if attempt <= 1 {
        0
    } else if attempt - 1 > 20 {
        20
    } else {
        attempt - 1
    };
    let mut wait: u64 = RETRY_BACKOFF_BASE_MS;
    let mut i: u32 = 0;
    while i < doublings && wait <= RETRY_BACKOFF_CAP_MS
        invariant
            i <= doublings,
            wait == RETRY_BACKOFF_BASE_MS * power_of_two(i as nat),
            wait <= 2 * RETRY_BACKOFF_CAP_MS,
        decreases doublings - i,
    {
        wait = wait * 2;
        i += 1;
    }
    if wait > RETRY_BACKOFF_CAP_MS {
        proof {
            model::lemma_power_of_two_grows(i as nat, doublings as nat);
        }
        RETRY_BACKOFF_CAP_MS
    } else {
        wait
    }
}

#[derive(Debug, Clone, Copy, Eq, PartialEq, Structural)]
pub enum WorkerState {
    Alive,
    /// Gets no new work; work in flight may still be reported.
    Draining,
    Dead,
}

#[derive(Debug, Clone, Eq, PartialEq)]
pub enum TaskState {
    Waiting,
    Runnable,
    Assigned,
    Running,
    CancelRequested,
    Succeeded,
    Failed(String),
    Cancelled,
}

impl View for TaskState {
    type V = Phase;

    open spec fn view(&self) -> Phase {
        match *self {
            TaskState::Waiting => Phase::Waiting,
            TaskState::Runnable => Phase::Runnable,
            TaskState::Assigned => Phase::Assigned,
            TaskState::Running => Phase::Running,
            TaskState::CancelRequested => Phase::CancelRequested,
            TaskState::Succeeded => Phase::Succeeded,
            TaskState::Failed(message) => Phase::Failed(message@),
            TaskState::Cancelled => Phase::Cancelled,
        }
    }
}

/// The phase that a status reports.
pub open spec fn status_phase(status: TaskStatus) -> Phase {
    match status {
        TaskStatus::Waiting => Phase::Waiting,
        TaskStatus::Runnable => Phase::Runnable,
        TaskStatus::Assigned => Phase::Assigned,
        TaskStatus::Running => Phase::Running,
        TaskStatus::CancelRequested => Phase::CancelRequested,
        TaskStatus::Succeeded => Phase::Succeeded,
        TaskStatus::Failed(message) => Phase::Failed(message@),
        TaskStatus::Cancelled => Phase::Cancelled,
    }
}

impl TaskState {
    /// Terminal states are never left.
    pub fn is_terminal(&self) -> (r: bool)
        ensures
            r == self@.terminal(),
    {
        matches!(self, TaskState::Succeeded | TaskState::Failed(_) | TaskState::Cancelled)
    }

    /// The state as it is reported to clients.
    pub fn status(&self) -> (r: TaskStatus)
        ensures
            status_phase(r) == self@,
    {
        match self {
            TaskState::Waiting => TaskStatus::Waiting,
            TaskState::Runnable => TaskStatus::Runnable,
            TaskState::Assigned => TaskStatus::Assigned,
            TaskState::Running => TaskStatus::Running,
            TaskState::CancelRequested => TaskStatus::CancelRequested,
            TaskState::Succeeded => TaskStatus::Succeeded,
            TaskState::Failed(message) => TaskStatus::Failed(message.clone()),
            TaskState::Cancelled => TaskStatus::Cancelled,
        }
    }
}

/// What the expiry of one worker's lease did.
#[derive(Debug, Clone, Copy, Eq, PartialEq)]
pub struct WorkerExpiry {
    pub node: NodeId,
    pub retried: u32,
    pub failed: u32,
    pub cancelled: u32,
    pub objects_lost: u32,
}

/// A put object: its id, the digest of its content, and the stored bytes.
#[derive(Debug)]
pub struct PutOutcome {
    pub id: ObjectId,
    pub checksum: [u8; 32],
    pub stored: Arc<[u8]>,
}

/// The counts are those of the state.
pub open spec fn counted(s: Model, counts: HealthCounts) -> bool {
    &&& counts.tasks == s.tasks.dom().len()
    &&& counts.objects == s.objects.dom().len()
    &&& counts.workers == s.workers.dom().len()
    &&& counts.retries_total == s.retries_total
    &&& counts.failures_total == s.failures_total
    &&& counts.runnable == sum(s.tasks, phase_weight(|p: Phase| p is Runnable))
    &&& counts.running == sum(s.tasks, phase_weight(|p: Phase| p is Running || p is Assigned))
    &&& counts.succeeded == sum(s.tasks, phase_weight(|p: Phase| p is Succeeded))
    &&& counts.failed == sum(s.tasks, phase_weight(|p: Phase| p is Failed))
    &&& counts.available == sum(s.objects, object_weight(ObjectState::Available))
    &&& counts.reserved == sum(s.objects, object_weight(ObjectState::Reserved))
    &&& counts.lost == sum(s.objects, object_weight(ObjectState::Lost))
}

/// Counts for the periodic health report.
#[derive(Debug, Clone, Copy)]
pub struct HealthCounts {
    pub tasks: usize,
    pub runnable: usize,
    pub running: usize,
    pub succeeded: usize,
    pub failed: usize,
    pub objects: usize,
    pub available: usize,
    pub reserved: usize,
    pub lost: usize,
    pub workers: usize,
    pub retries_total: u64,
    pub failures_total: u64,
}

impl Default for HealthCounts {
    fn default() -> (r: Self)
        ensures
            r == (HealthCounts {
                tasks: 0,
                runnable: 0,
                running: 0,
                succeeded: 0,
                failed: 0,
                objects: 0,
                available: 0,
                reserved: 0,
                lost: 0,
                workers: 0,
                retries_total: 0,
                failures_total: 0,
            }),
    {
        HealthCounts {
            tasks: 0,
            runnable: 0,
            running: 0,
            succeeded: 0,
            failed: 0,
            objects: 0,
            available: 0,
            reserved: 0,
            lost: 0,
            workers: 0,
            retries_total: 0,
            failures_total: 0,
        }
    }
}

#[derive(Debug, Clone, Copy, Eq, PartialEq, Structural)]
pub enum ObjectState {
    Reserved,
    Available,
    Failed,
    Cancelled,
    Lost,
}

#[derive(Debug, Clone)]
pub struct WorkerRecord {
    pub identity: WorkerIdentity,
    pub state: WorkerState,
    pub advertise_addr: String,
    pub total: ResourceSet,
    pub available: ResourceSet,
    pub slots: u32,
    pub free_slots: u32,
    pub operations: Operations,
    pub lease_deadline_ms: u64,
}

impl View for WorkerRecord {
    type V = WorkerModel;

    open spec fn view(&self) -> WorkerModel {
        WorkerModel {
            identity: self.identity,
            state: self.state,
            advertise_addr: self.advertise_addr@,
            total: self.total@,
            available: self.available@,
            slots: self.slots,
            free_slots: self.free_slots,
            operations: self.operations@,
            lease_deadline_ms: self.lease_deadline_ms,
        }
    }
}

#[derive(Debug, Clone)]
pub struct TaskRecord {
    pub id: TaskId,
    pub operation: OperationKey,
    pub args: Vec<TaskArg>,
    pub output: ObjectId,
    pub resources: ResourceSet,
    pub max_attempts: u32,
    pub attempt: Attempt,
    pub state: TaskState,
    pub assigned: Option<(NodeId, WorkerEpoch, WorkerSessionId, LeaseId)>,
    /// The task is not assigned before this time.
    pub not_before_ms: u64,
    /// When the task was first seen to be terminal; zero before.
    pub terminal_since_ms: u64,
}

impl View for TaskRecord {
    type V = TaskModel;

    open spec fn view(&self) -> TaskModel {
        TaskModel {
            id: self.id,
            operation: self.operation@,
            args: args_model(self.args@),
            output: self.output,
            resources: self.resources@,
            max_attempts: self.max_attempts,
            attempt: self.attempt,
            state: self.state@,
            assigned: self.assigned,
            not_before_ms: self.not_before_ms,
            terminal_since_ms: self.terminal_since_ms,
        }
    }
}

/// The bytes behind an optional shared slice.
pub open spec fn shared_view(bytes: Option<Arc<[u8]>>) -> Option<Seq<u8>> {
    match bytes {
        Some(shared) => Some(shared@),
        None => None,
    }
}

/// The characters of an optional string.
pub open spec fn text_view(text: Option<String>) -> Option<Seq<char>> {
    match text {
        Some(string) => Some(string@),
        None => None,
    }
}

#[derive(Debug, Clone)]
pub struct ObjectRecord {
    pub id: ObjectId,
    pub state: ObjectState,
    pub codec: Option<Codec>,
    pub bytes: Option<Arc<[u8]>>,
    pub size_bytes: Option<u64>,
    pub checksum: Option<[u8; 32]>,
    pub location: Option<String>,
    pub owner: Option<NodeId>,
}

impl View for ObjectRecord {
    type V = ObjectModel;

    open spec fn view(&self) -> ObjectModel {
        ObjectModel {
            id: self.id,
            state: self.state,
            codec: self.codec,
            bytes: shared_view(self.bytes),
            size_bytes: self.size_bytes,
            checksum: self.checksum,
            location: text_view(self.location),
            owner: self.owner,
        }
    }
}

/// Tasks, objects and workers, with the indices that scheduling needs.
#[derive(Debug, Clone)]
pub struct CoordinatorState {
    pub epoch: CoordinatorEpoch,
    pub revision: Revision,
    pub workers: Table<NodeId, WorkerRecord>,
    pub tasks: Table<TaskId, TaskRecord>,
    pub objects: Table<ObjectId, ObjectRecord>,
    pub operations: Operations,
    pub pending_deletes: Table<NodeId, Vec<ObjectId>>,
    /// Runnable tasks in order; entries of tasks that are no longer runnable are
    /// skipped when they come up.
    pub runnable: VecDeque<TaskId>,
    pub waiting: Table<TaskId, ()>,
    pub cancel_requested: Table<TaskId, ()>,
    pub sched_assigns: u64,
    pub sched_owned_input: u64,
    pub sched_local_hits: u64,
    pub retries_total: u64,
    pub failures_total: u64,
}

impl View for CoordinatorState {
    type V = Model;

    open spec fn view(&self) -> Model {
        Model {
            epoch: self.epoch,
            revision: self.revision.0 as int,
            workers: self.workers@,
            tasks: self.tasks@,
            objects: self.objects@,
            operations: self.operations@,
            pending_deletes: self.pending_deletes@,
            runnable: self.runnable@,
            waiting: self.waiting@.dom(),
            cancel_requested: self.cancel_requested@.dom(),
            sched_assigns: self.sched_assigns as int,
            sched_owned_input: self.sched_owned_input as int,
            sched_local_hits: self.sched_local_hits as int,
            retries_total: self.retries_total as int,
            failures_total: self.failures_total as int,
        }
    }
}

impl CoordinatorState {
    /// No table holds a key twice.
    pub open spec fn tables_ok(&self) -> bool {
        &&& self.workers.wf()
        &&& self.tasks.wf()
        &&& self.objects.wf()
        &&& self.pending_deletes.wf()
        &&& self.waiting.wf()
        &&& self.cancel_requested.wf()
    }

    pub open spec fn wf(&self) -> bool {
        self.tables_ok() && self@.wf()
    }

    /// The counters are far enough from their limit for one more operation.
    pub open spec fn has_headroom(&self) -> bool {
        let limit = u64::MAX - MAX_TASKS - 1;
        &&& self.revision.0 <= limit
        &&& self.sched_assigns <= limit
        &&& self.sched_owned_input <= limit
        &&& self.sched_local_hits <= limit
        &&& self.retries_total <= limit
        &&& self.failures_total <= limit
    }

    pub fn new(epoch: CoordinatorEpoch) -> (r: Self)
        ensures
            r.wf(),
            r@ == Model::empty(epoch),
            r.has_headroom(),
    {
        let r = CoordinatorState {
            epoch,
            revision: Revision(0),
            workers: Table::new(),
            tasks: Table::new(),
            objects: Table::new(),
            operations: Operations::new(),
            pending_deletes: Table::new(),
            runnable: VecDeque::new(),
            waiting: Table::new(),
            cancel_requested: Table::new(),
            sched_assigns: 0,
            sched_owned_input: 0,
            sched_local_hits: 0,
            retries_total: 0,
            failures_total: 0,
        };
        assert(r@ =~= Model::empty(epoch));
        r
    }

    /// Whether the counters leave room for one more operation.
    pub fn check_headroom(&self) -> (r: bool)
        ensures
            r == self.has_headroom(),
    {
        let limit: u64 = u64::MAX - MAX_TASKS as u64 - 1;
        self.revision.0 <= limit && self.sched_assigns <= limit && self.sched_owned_input <= limit
            && self.sched_local_hits <= limit && self.retries_total <= limit && self.failures_total <= limit
    }

    fn changed(&mut self)
        requires
            old(self).revision.0 < u64::MAX,
        ensures
            *final(self) == (CoordinatorState {
                revision: Revision((old(self).revision.0 + 1) as u64),
                ..*old(self)
            }),
    {
        self.revision = Revision(self.revision.0 + 1);
    }

    fn check_identity(&self, identity: &WorkerIdentity) -> (r: bool)
        requires
            self.tables_ok(),
        ensures
            r == self@.identity_ok(*identity),
    {
        if identity.coordinator_epoch != self.epoch {
            return false;
        }
        match self.workers.get(&identity.node_id) {
            None => false,
            Some(worker) => worker.state != WorkerState::Dead && worker.identity.worker_epoch
                == identity.worker_epoch && worker.identity.session_id == identity.session_id,
        }
    }

    fn check_fence(&self, identity: &WorkerIdentity, fence: TaskFence) -> (r: Result<(), Error>)
        requires
            self.tables_ok(),
        ensures
            match r {
                Ok(()) => self@.fence_fault(*identity, fence) is None,
                Err(error) => self@.fence_fault(*identity, fence) == Some(error@),
            },
    {
        if !self.check_identity(identity) {
            return Err(Error::StaleFence);
        }
        let task = match self.tasks.get(&fence.task_id) {
            None => return Err(Error::TaskNotFound(fence.task_id)),
            Some(task) => task,
        };
        let held = match task.assigned {
            None => false,
            Some((node, epoch, session, lease)) => node == identity.node_id && epoch == identity.worker_epoch
                && session == identity.session_id && lease == fence.lease_id,
        };
        if !held || task.attempt != fence.attempt {
            return Err(Error::StaleFence);
        }
        Ok(())
    }

    /// The worker has started on the task. Repeating the report under the same
    /// fence is accepted.
    pub fn started(&mut self, identity: &WorkerIdentity, fence: TaskFence) -> (r: Result<(), Error>)
        requires
            old(self).wf(),
            old(self).has_headroom(),
        ensures
            final(self).wf(),
            meets(old(self)@.started(*identity, fence), old(self)@, final(self)@, outcome(r)),
    {
        proof {
            if self@.started(*identity, fence) is Next {
                laws::law_started_keeps_invariant(self@, *identity, fence);
            }
        }
        match self.tasks.get(&fence.task_id) {
            None => return Err(Error::TaskNotFound(fence.task_id)),
            Some(task) => {
                match self.check_fence(identity, fence) {
                    Ok(()) => {},
                    Err(error) => return Err(error),
                }
                if matches!(task.state, TaskState::Running) {
                    return Ok(());
                }
                if !matches!(task.state, TaskState::Assigned) {
                    return Err(Error::IllegalTransition("task not assigned".to_string()));
                }
            },
        }
        self.set_task_state(&fence.task_id, TaskState::Running);
        self.changed();
        Ok(())
    }

    fn set_task_state(&mut self, id: &TaskId, state: TaskState)
        requires
            old(self).tables_ok(),
            old(self)@.tasks.contains_key(*id),
        ensures
            final(self).tables_ok(),
            final(self).revision == old(self).revision,
            final(self)@ == old(self)@.with_task(*id, TaskModel { state: state@, ..old(self)@.tasks[*id] }),
    {
        if let Some(task) = self.tasks.get_mut(id) {
            task.state = state;
        }
    }

    fn set_object_state(&mut self, id: &ObjectId, state: ObjectState)
        requires
            old(self).tables_ok(),
            old(self)@.objects.contains_key(*id),
        ensures
            final(self).tables_ok(),
            final(self).revision == old(self).revision,
            final(self)@ == old(self)@.with_object_state(*id, state),
    {
        if let Some(object) = self.objects.get_mut(id) {
            object.state = state;
        }
    }

    /// Makes the task runnable and puts it at the end of the queue.
    fn mark_runnable(&mut self, id: TaskId)
        requires
            old(self).tables_ok(),
            old(self)@.tasks.contains_key(id),
        ensures
            final(self).tables_ok(),
            final(self).revision == old(self).revision,
            final(self)@ == old(self)@.queued(id),
    {
        if let Some(task) = self.tasks.get_mut(&id) {
            task.state = TaskState::Runnable;
        }
        self.waiting.remove(&id);
        self.runnable.push_back(id);
        assert(self@ =~= old(self)@.queued(id));
    }

    /// Gives a slot and `resources` back to the worker at `node`.
    fn release(&mut self, node: NodeId, resources: &ResourceSet)
        requires
            old(self).tables_ok(),
            old(self)@.workers.contains_key(node),
            old(self)@.workers[node].free_slots < old(self)@.workers[node].slots,
            !overfills(old(self)@.workers[node].available, resources@, old(self)@.workers[node].total),
        ensures
            final(self).tables_ok(),
            final(self).revision == old(self).revision,
            final(self)@ == old(self)@.released(node, resources@),
    {
        if let Some(worker) = self.workers.get_mut(&node) {
            let mut available = worker.available.clone();
            let added = available.add_capped(resources, &worker.total);
            assert(added is Ok);
            worker.available = available;
            worker.free_slots = worker.free_slots + 1;
        }
    }

    /// What becomes of a waiting task now: `Some(true)` if an input is hopeless,
    /// `Some(false)` if every input is available, `None` if it goes on waiting.
    fn waiting_fate(&self, id: &TaskId) -> (r: Option<bool>)
        requires
            self.tables_ok(),
            self@.waiting.contains(*id),
            self@.tasks.contains_key(*id),
        ensures
            r == Some(true) <==> self@.must_fail(*id),
            r == Some(false) <==> !self@.must_fail(*id) && self@.may_run(*id),
    {
        match self.tasks.get(id) {
            None => None,
            Some(task) => {
                let ghost args = task@.args;
                let mut all_ready = true;
                let mut i: usize = 0;
                while i < task.args.len()
                    invariant
                        i <= task.args@.len(),
                        args == args_model(task.args@),
                        self.tables_ok(),
                        all_ready <==> forall|j: int|
                            0 <= j < i ==> arg_ready(self@, #[trigger] args[j]),
                        forall|j: int|
                            0 <= j < i ==> !arg_hopeless(self@, #[trigger] args[j]),
                        self@.waiting.contains(*id),
                        task@ == self@.tasks[*id],
                        args == task@.args,
                    decreases task.args@.len() - i,
                {
                    assert(args[i as int] == task.args@[i as int]@);
                    if let TaskArg::Object(dep) = &task.args[i] {
                        let state = match self.objects.get(dep) {
                            None => None,
                            Some(object) => Some(object.state),
                        };
                        match state {
                            Some(ObjectState::Available) => {},
                            Some(ObjectState::Reserved) => {
                                all_ready = false;
                            },
                            _ => {
                                assert(args.contains(ArgModel::Object(*dep)));
                                assert(self@.tasks[*id].depends_on(*dep));
                                return Some(true);
                            },
                        }
                    }
                    i += 1;
                }
                proof {
                    if self@.must_fail(*id) {
                        let dep = choose|dep: ObjectId| #[trigger]
                            self@.tasks[*id].depends_on(dep) && self@.dep_hopeless(dep);
                        let j = args.index_of(ArgModel::Object(dep));
                        assert(args[j] == ArgModel::Object(dep));
                    }
                    if all_ready {
                        assert forall|dep: ObjectId| #[trigger]
                            self@.tasks[*id].depends_on(dep) implies self@.dep_ready(dep) by {
                            let j = args.index_of(ArgModel::Object(dep));
                            assert(args[j] == ArgModel::Object(dep));
                        }
                    } else {
                        let j = choose|j: int|
                            0 <= j < i && !arg_ready(self@, #[trigger] args[j]);
                        let dep = args[j]->Object_0;
                        assert(args.contains(args[j]));
                        assert(self@.tasks[*id].depends_on(dep));
                    }
                }
                if all_ready {
                    Some(false)
                } else {
                    None
                }
            },
        }
    }

    /// Fails waiting tasks with a hopeless input and queues those whose inputs
    /// are all available, until neither is left.
    fn reconcile_dependencies(&mut self)
        requires
            old(self).tables_ok(),
            old(self)@.sound(),
        ensures
            final(self).tables_ok(),
            final(self).revision == old(self).revision,
            old(self)@.settles_to(final(self)@),
            final(self)@.wf(),
    {
        let ghost start = self@;
        let ghost mut order: Seq<TaskId> = Seq::empty();
        loop
            invariant
                self.tables_ok(),
                self@.sound(),
                start.sound(),
                start.settle_order(order),
                self@ == start.settle_run(order),
                self.revision == old(self).revision,
                start == old(self)@,
            ensures
                self@.settled(),
            decreases self.waiting@.dom().len(),
        {
            let ghost pass_start = self@;
            let ghost pass_len = self.waiting@.dom().len();
            let mut ids: Vec<TaskId> = Vec::new();
            let mut k: usize = 0;
            while k < self.waiting.len()
                invariant
                    self.tables_ok(),
                    k <= self.waiting.keys().len(),
                    ids@ == self.waiting.keys().take(k as int),
                decreases self.waiting.keys().len() - k,
            {
                let (id, _) = self.waiting.entry_at(k);
                ids.push(*id);
                assert(self.waiting.keys().take(k + 1) =~= self.waiting.keys().take(k as int).push(
                    self.waiting.keys()[k as int],
                ));
                k += 1;
            }
            proof {
                self.waiting.lemma_keys();
                assert(ids@ =~= self.waiting.keys());
            }
            let mut any = false;
            let mut i: usize = 0;
            while i < ids.len()
                invariant
                    i <= ids@.len(),
                    ids@.no_duplicates(),
                    self.tables_ok(),
                    self@.sound(),
                    start.sound(),
                    start.settle_order(order),
                    self@ == start.settle_run(order),
                    self.revision == old(self).revision,
                    forall|j: int| i <= j < ids@.len() ==> self@.waiting.contains(#[trigger] ids@[j]),
                    !any ==> self@ == pass_start,
                    any ==> self.waiting@.dom().len() < pass_len,
                    self.waiting@.dom().len() <= pass_len,
                    self.waiting@.dom().finite(),
                    !any ==> forall|j: int|
                        0 <= j < i ==> !pass_start.must_fail(#[trigger] ids@[j]) && !pass_start.may_run(ids@[j]),
                decreases ids@.len() - i,
            {
                let id = ids[i];
                let ghost before = self@;
                assert(self@.waiting.contains(id));
                assert(self@.tasks.contains_key(id));
                assert(self@.task_ok(id));
                match self.waiting_fate(&id) {
                    None => {},
                    Some(failed) => {
                        if failed {
                            let output = match self.tasks.get(&id) {
                                Some(task) => task.output,
                                None => return,
                            };
                            self.set_task_state(&id, TaskState::Failed("dependency failed".to_string()));
                            self.waiting.remove(&id);
                            self.set_object_state(&output, ObjectState::Failed);
                            assert(self@ =~= before.dependency_failed(id));
                        } else {
                            self.mark_runnable(id);
                        }
                        any = true;
                        proof {
                            let next_order = order.push(id);
                            assert(next_order.drop_last() =~= order);
                            assert(self@ == before.settle_one(id));
                            assert(start.settle_order(next_order));
                            laws::lemma_settle_run_sound(start, next_order);
                            order = next_order;
                            assert(self.waiting@.dom() =~= before.waiting.remove(id));
                            assert forall|j: int| i < j < ids@.len() implies self@.waiting.contains(
                                #[trigger] ids@[j],
                            ) by {
                                assert(before.waiting.contains(ids@[j]));
                            }
                        }
                    },
                }
                i += 1;
            }
            if !any {
                proof {
                    assert forall|id: TaskId| #[trigger] self@.waiting.contains(id) implies !self@.must_fail(id)
                        && !self@.may_run(id) by {
                        assert(self.waiting@.contains_key(id));
                        self.waiting.lemma_keys();
                        assert(pass_start.waiting.contains(id));
                        let j = ids@.index_of(id);
                        assert(ids@.contains(id));
                        assert(ids@[j] == id);
                    }
                }
                break;
            }
        }
        proof {
            assert(start.settle_order(order) && self@ == start.settle_run(order));
            laws::lemma_settle_run_sound(start, order);
        }
    }

    /// Records a worker's result. A repeated report with the same output is
    /// accepted; one that contradicts the record is refused.
    pub fn complete(&mut self, identity: &WorkerIdentity, report: TaskCompletion) -> (r: Result<(), Error>)
        requires
            old(self).wf(),
            old(self).has_headroom(),
        ensures
            final(self).wf(),
            meets(
                old(self)@.completed(*identity, completion_view(report), inline_digest(report)),
                old(self)@,
                final(self)@,
                outcome(r),
            ),
    {
        let ghost before = self@;
        let ghost model = completion_view(report);
        let id = report.fence.task_id;
        let (output, resources) = match self.tasks.get(&id) {
            None => return Err(Error::TaskNotFound(id)),
            Some(task) => {
                assert(self@.task_ok(id));
                if matches!(task.state, TaskState::Succeeded) {
                    let agrees = match self.objects.get(&task.output) {
                        Some(object) => object.state == ObjectState::Available && match object.checksum {
                            Some(checksum) => bytes_equal(&checksum, &report.checksum),
                            None => false,
                        } && object.size_bytes == Some(report.size_bytes),
                        None => true,
                    };
                    if agrees {
                        return Ok(());
                    }
                    return Err(Error::ObjectConflict(task.output));
                }
                match self.check_fence(identity, report.fence) {
                    Ok(()) => {},
                    Err(error) => return Err(error),
                }
                if !matches!(task.state, TaskState::Assigned | TaskState::Running) {
                    return Err(
                        Error::IllegalTransition("task cannot complete in current state".to_string()),
                    );
                }
                proof {
                    laws::lemma_fence(self@, *identity, report.fence);
                }
                let descriptor = match self.operations.get(&task.operation) {
                    None => return Err(Error::OperationUnavailable(task.operation.to_string())),
                    Some(descriptor) => descriptor,
                };
                if let Some(bytes) = &report.bytes {
                    let digest = checksum(bytes);
                    let same = bytes_equal(&digest, &report.checksum);
                    proof {
                        if digest@ == report.checksum@ {
                            lemma_same_array(digest, report.checksum);
                        }
                    }
                    if bytes.len() as u64 != report.size_bytes || !same {
                        return Err(Error::ObjectConflict(task.output));
                    }
                }
                let worker = match self.workers.get(&identity.node_id) {
                    None => return Err(Error::StaleFence),
                    Some(worker) => worker,
                };
                let reserved = match self.objects.get(&task.output) {
                    None => false,
                    Some(object) => object.state == ObjectState::Reserved,
                };
                if task.output != report.output_id || !reserved || report.codec != descriptor.output_codec
                    || report.location != worker.advertise_addr || report.size_bytes > MAX_OBJECT_BYTES as u64 {
                    return Err(Error::ObjectConflict(task.output));
                }
                (task.output, task.resources.clone())
            },
        };
        proof {
            laws::lemma_release_room(self@, id, identity.node_id);
            laws::lemma_succeeded_sound(self@, *identity, model);
        }
        self.release(identity.node_id, &resources);
        if let Some(task) = self.tasks.get_mut(&id) {
            task.state = TaskState::Succeeded;
            task.assigned = None;
        }
        if let Some(object) = self.objects.get_mut(&output) {
            object.state = ObjectState::Available;
            object.codec = Some(report.codec);
            object.size_bytes = Some(report.size_bytes);
            object.checksum = Some(report.checksum);
            object.location = Some(report.location);
            object.owner = Some(identity.node_id);
            object.bytes = report.bytes;
        }
        self.changed();
        assert(self@ =~= before.succeeded(*identity, model));
        self.reconcile_dependencies();
        Ok(())
    }

    /// Records a worker's failure report. `true` says that the task has now
    /// failed for good; `false`, that it is retried or had already finished.
    pub fn fail(
        &mut self,
        identity: &WorkerIdentity,
        fence: TaskFence,
        message: String,
        class: FailureClass,
        now: u64,
    ) -> (r: Result<bool, Error>)
        requires
            old(self).wf(),
            old(self).has_headroom(),
        ensures
            final(self).wf(),
            meets(
                old(self)@.failed(*identity, fence, message@, class, now),
                old(self)@,
                final(self)@,
                match r {
                    Ok(_) => Ok(()),
                    Err(error) => Err(error@),
                },
            ),
            r matches Ok(for_good) ==> for_good == (old(self)@.failed(*identity, fence, message@, class, now)
                is Settling),
    {
        let ghost before = self@;
        let id = fence.task_id;
        let (resources, attempt, max_attempts, output) = match self.tasks.get(&id) {
            None => return Err(Error::TaskNotFound(id)),
            Some(task) => {
                assert(self@.task_ok(id));
                if task.state.is_terminal() {
                    return Ok(false);
                }
                match self.check_fence(identity, fence) {
                    Ok(()) => {},
                    Err(error) => return Err(error),
                }
                if !matches!(task.state, TaskState::Assigned | TaskState::Running) {
                    return Err(Error::IllegalTransition("task cannot fail in current state".to_string()));
                }
                (task.resources.clone(), task.attempt.0, task.max_attempts, task.output)
            },
        };
        let retry = matches!(class, FailureClass::Transient) && attempt < max_attempts;
        proof {
            laws::lemma_fence(self@, *identity, fence);
            laws::lemma_release_room(self@, id, identity.node_id);
            if retry {
                laws::lemma_retried_wf(self@, *identity, fence, now);
            } else {
                laws::lemma_gave_up_sound(self@, *identity, fence, message@);
            }
        }
        self.release(identity.node_id, &resources);
        let ghost freed = self@;
        if retry {
            self.mark_runnable(id);
            if let Some(task) = self.tasks.get_mut(&id) {
                task.assigned = None;
                task.not_before_ms = now.saturating_add(retry_backoff_ms(attempt));
            }
            self.retries_total = self.retries_total + 1;
            self.changed();
            assert(self@ =~= freed.retried(id, now).bump());
            Ok(false)
        } else {
            if let Some(task) = self.tasks.get_mut(&id) {
                task.assigned = None;
                task.state = TaskState::Failed(message);
            }
            self.set_object_state(&output, ObjectState::Failed);
            self.failures_total = self.failures_total + 1;
            self.changed();
            assert(self@ =~= freed.gave_up(id, message@).bump());
            self.reconcile_dependencies();
            Ok(true)
        }
    }

    /// Asks for a task to be cancelled. A held task is cancelled once its worker
    /// has let go of it; another one at once.
    pub fn cancel(&mut self, id: TaskId) -> (r: Result<(), Error>)
        requires
            old(self).wf(),
            old(self).has_headroom(),
        ensures
            final(self).wf(),
            meets(old(self)@.cancelled(id), old(self)@, final(self)@, outcome(r)),
    {
        let ghost before = self@;
        let (output, held) = match self.tasks.get(&id) {
            None => return Err(Error::TaskNotFound(id)),
            Some(task) => {
                assert(self@.task_ok(id));
                if task.state.is_terminal() {
                    return Err(Error::IllegalTransition("task is already terminal".to_string()));
                }
                if matches!(task.state, TaskState::CancelRequested) {
                    return Ok(());
                }
                (task.output, task.assigned.is_some())
            },
        };
        if held {
            proof {
                laws::lemma_cancel_asked_wf(self@, id);
            }
            self.set_task_state(&id, TaskState::CancelRequested);
            self.cancel_requested.insert(id, ());
            self.changed();
            assert(self@ =~= before.cancelled(id)->Next_0);
        } else {
            proof {
                laws::lemma_dropped_sound(self@, id);
            }
            self.set_task_state(&id, TaskState::Cancelled);
            self.waiting.remove(&id);
            self.set_object_state(&output, ObjectState::Cancelled);
            self.changed();
            assert(self@ =~= before.dropped(id).bump());
            self.reconcile_dependencies();
        }
        Ok(())
    }

    /// The worker has let go of a task that was to be cancelled. Repeating the
    /// report is accepted.
    pub fn acknowledge_cancel(&mut self, identity: &WorkerIdentity, fence: TaskFence) -> (r: Result<(), Error>)
        requires
            old(self).wf(),
            old(self).has_headroom(),
        ensures
            final(self).wf(),
            meets(old(self)@.cancel_acknowledged(*identity, fence), old(self)@, final(self)@, outcome(r)),
    {
        let id = fence.task_id;
        let (resources, output) = match self.tasks.get(&id) {
            None => return Err(Error::TaskNotFound(id)),
            Some(task) => {
                assert(self@.task_ok(id));
                if matches!(task.state, TaskState::Cancelled) {
                    return Ok(());
                }
                match self.check_fence(identity, fence) {
                    Ok(()) => {},
                    Err(error) => return Err(error),
                }
                if !matches!(task.state, TaskState::CancelRequested) {
                    return Err(
                        Error::IllegalTransition("task is not awaiting cancellation".to_string()),
                    );
                }
                (task.resources.clone(), task.output)
            },
        };
        proof {
            laws::lemma_fence(self@, *identity, fence);
            laws::lemma_release_room(self@, id, identity.node_id);
            laws::lemma_acknowledged_sound(self@, *identity, fence);
        }
        self.release(identity.node_id, &resources);
        let ghost freed = self@;
        self.cancel_requested.remove(&id);
        if let Some(task) = self.tasks.get_mut(&id) {
            task.state = TaskState::Cancelled;
            task.assigned = None;
        }
        self.set_object_state(&output, ObjectState::Cancelled);
        self.changed();
        assert(self@ =~= freed.dropped(id).bump());
        self.reconcile_dependencies();
        Ok(())
    }

    /// Whether the worker at `node` owns an argument of the task, or, without a
    /// node, whether some worker does.
    fn owns_input(&self, task: &TaskRecord, node: Option<NodeId>) -> (r: bool)
        requires
            self.tables_ok(),
        ensures
            match node {
                Some(node) => r <==> exists|dep: ObjectId| #[trigger]
                    task@.depends_on(dep) && self@.owned_by(dep, node),
                None => r <==> exists|dep: ObjectId| #[trigger]
                    task@.depends_on(dep) && self@.objects.contains_key(dep) && self@.objects[dep].owner is Some,
            },
    {
        let ghost args = task@.args;
        let mut i: usize = 0;
        while i < task.args.len()
            invariant
                i <= task.args@.len(),
                args == args_model(task.args@),
                args == task@.args,
                self.tables_ok(),
                forall|j: int| 0 <= j < i ==> !arg_owned(self@, node, #[trigger] args[j]),
            decreases task.args@.len() - i,
        {
            assert(args[i as int] == task.args@[i as int]@);
            if let TaskArg::Object(dep) = &task.args[i] {
                if let Some(object) = self.objects.get(dep) {
                    let owned = match (object.owner, node) {
                        (Some(owner), Some(node)) => owner == node,
                        (Some(_), None) => true,
                        (None, _) => false,
                    };
                    if owned {
                        assert(args.contains(ArgModel::Object(*dep)));
                        assert(task@.depends_on(*dep));
                        return true;
                    }
                }
            }
            i += 1;
        }
        proof {
            assert forall|dep: ObjectId| #[trigger] task@.depends_on(dep) implies !arg_owned(
                self@,
                node,
                ArgModel::Object(dep),
            ) by {
                let j = args.index_of(ArgModel::Object(dep));
                assert(args[j] == ArgModel::Object(dep));
            }
        }
        false
    }

    /// Gives the worker at `node` the next task it can run, under a new lease.
    pub fn assign_next(&mut self, node_id: NodeId, now: u64) -> (r: Result<Option<TaskAssignment>, Error>)
        requires
            old(self).wf(),
            old(self).has_headroom(),
        ensures
            final(self).wf(),
            exists|lease: LeaseId| #[trigger]
                assignment_met(old(self)@, final(self)@, node_id, now, lease, r),
    {
        let lease = LeaseId::new();
        let r = self.assign_next_as(node_id, now, lease);
        assert(assignment_met(old(self)@, self@, node_id, now, lease, r));
        r
    }

    /// Gives the worker at `node` the next task it can run, under `lease`.
    ///
    /// The queue is looked at from the front. Among the first tasks that the
    /// worker could take, one with an input that it owns comes first; otherwise
    /// the first of them does.
    pub fn assign_next_as(&mut self, node_id: NodeId, now: u64, lease: LeaseId) -> (r: Result<
        Option<TaskAssignment>,
        Error,
    >)
        requires
            old(self).wf(),
            old(self).has_headroom(),
        ensures
            final(self).wf(),
            assignment_met(old(self)@, final(self)@, node_id, now, lease, r),
    {
        let ghost before = self@;
        match self.workers.get(&node_id) {
            None => return Err(Error::StaleFence),
            Some(worker) => {
                if worker.state != WorkerState::Alive || worker.free_slots == 0 {
                    return Ok(None);
                }
            },
        }
        proof {
            laws::law_assignment_keeps_invariant(before, node_id, now, lease);
            laws::lemma_scan(before, node_id, now, before.runnable, 0);
        }
        let ghost whole = before.scan(node_id, now, before.runnable, 0);
        let mut requeue: Vec<TaskId> = Vec::new();
        let mut passed: Vec<TaskId> = Vec::new();
        let mut local: Option<TaskId> = None;
        while passed.len() < LOCALITY_LOOKAHEAD && local.is_none()
            invariant
                self.tables_ok(),
                before.workers.contains_key(node_id),
                self@ == (Model { runnable: self.runnable@, ..before }),
                self.has_headroom() == old(self).has_headroom(),
                passed@.len() <= LOCALITY_LOOKAHEAD,
                local is None ==> ({
                    let tail = before.scan(node_id, now, self.runnable@, passed@.len() as int);
                    &&& whole.passed == passed@ + tail.passed
                    &&& whole.requeue == requeue@ + tail.requeue
                    &&& whole.local == tail.local
                    &&& whole.rest == tail.rest
                }),
                local is Some ==> whole == (Scan {
                    passed: passed@,
                    requeue: requeue@,
                    local,
                    rest: self.runnable@,
                }),
            ensures
                whole == (Scan { passed: passed@, requeue: requeue@, local, rest: self.runnable@ }),
            decreases self.runnable@.len(),
        {
            let ghost queue = self.runnable@;
            let id = match self.runnable.pop_front() {
                Some(id) => id,
                None => {
                    assert(whole =~= Scan {
                        passed: passed@,
                        requeue: requeue@,
                        local,
                        rest: self.runnable@,
                    });
                    break;
                },
            };
            assert(queue.skip(1) =~= self.runnable@);
            let ghost tail = before.scan(node_id, now, queue, passed@.len() as int);
            if let Some(task) = self.tasks.get(&id) {
                if matches!(task.state, TaskState::Runnable) {
                    let servable = match self.workers.get(&node_id) {
                        Some(worker) => task.not_before_ms <= now && worker.operations.contains_key(&task.operation)
                            && worker.available.can_fit(&task.resources),
                        None => false,
                    };
                    if !servable {
                        let ghost rest = before.scan(node_id, now, self.runnable@, passed@.len() as int);
                        let ghost so_far = requeue@;
                        requeue.push(id);
                        assert(so_far + (seq![id] + rest.requeue) =~= requeue@ + rest.requeue);
                    } else if self.owns_input(task, Some(node_id)) {
                        local = Some(id);
                        assert(whole =~= Scan {
                            passed: passed@,
                            requeue: requeue@,
                            local,
                            rest: self.runnable@,
                        });
                    } else {
                        let ghost rest = before.scan(node_id, now, self.runnable@, (passed@.len() + 1) as int);
                        let ghost so_far = passed@;
                        passed.push(id);
                        assert(so_far + (seq![id] + rest.passed) =~= passed@ + rest.passed);
                    }
                }
            }
        }
        let chosen: Option<TaskId> = match local {
            Some(id) => Some(id),
            None => if passed.len() > 0 {
                Some(passed[0])
            } else {
                None
            },
        };
        assert(chosen == whole.chosen());
        let ghost keep = |other: TaskId| chosen != Some(other);
        let ghost rest = self.runnable@;
        let mut i: usize = passed.len();
        assert(passed@.skip(i as int).filter(keep) =~= Seq::<TaskId>::empty()) by {
            reveal(Seq::filter);
        }
        while i > 0
            invariant
                i <= passed@.len(),
                self.tables_ok(),
                self@ == (Model { runnable: self.runnable@, ..before }),
                self.has_headroom() == old(self).has_headroom(),
                keep == (|other: TaskId| chosen != Some(other)),
                self.runnable@ == passed@.skip(i as int).filter(keep) + rest,
            decreases i,
        {
            let id = passed[i - 1];
            proof {
                assert(passed@.skip(i - 1) =~= seq![id] + passed@.skip(i as int));
                Seq::filter_distributes_over_add(seq![id], passed@.skip(i as int), keep);
                assert(seq![id].filter(keep) == if keep(id) {
                    seq![id]
                } else {
                    Seq::empty()
                }) by {
                    reveal(Seq::filter);
                    assert(seq![id].drop_last() =~= Seq::<TaskId>::empty());
                    assert(Seq::<TaskId>::empty().filter(keep) =~= Seq::empty());
                    assert(Seq::<TaskId>::empty().push(id) =~= seq![id]);
                }
            }
            let keep_it = match chosen {
                Some(picked) => picked != id,
                None => true,
            };
            if keep_it {
                self.runnable.push_front(id);
            }
            assert(self.runnable@ =~= passed@.skip(i - 1).filter(keep) + rest);
            i -= 1;
        }
        assert(passed@.skip(0) =~= passed@);
        let ghost front = self.runnable@;
        let mut j: usize = 0;
        while j < requeue.len()
            invariant
                j <= requeue@.len(),
                self.tables_ok(),
                self@ == (Model { runnable: self.runnable@, ..before }),
                self.has_headroom() == old(self).has_headroom(),
                self.runnable@ == front + requeue@.take(j as int),
            decreases requeue@.len() - j,
        {
            self.runnable.push_back(requeue[j]);
            assert(self.runnable@ =~= front + requeue@.take(j + 1));
            j += 1;
        }
        proof {
            assert(requeue@.take(j as int) =~= requeue@);
            match chosen {
                Some(id) => {
                    assert(keep =~= (|other: TaskId| other != id));
                },
                None => {
                    assert(passed@ =~= Seq::<TaskId>::empty());
                    assert(Seq::<TaskId>::empty().filter(keep) =~= Seq::<TaskId>::empty()) by {
                        reveal(Seq::filter);
                    }
                },
            }
            assert(self.runnable@ =~= whole.queue());
        }
        let id = match chosen {
            Some(id) => id,
            None => return Ok(None),
        };
        let ghost requeued = self@;
        proof {
            assert(before.is_runnable(id) && before.servable(node_id, now, id));
            assert(before.task_ok(id));
            assert(before.worker_ok(node_id));
        }
        let local_hit = local.is_some();
        let (attempt, resources, owned_input) = match self.tasks.get(&id) {
            Some(task) => (
                Attempt(task.attempt.0 + 1),
                task.resources.clone(),
                local_hit || self.owns_input(task, None),
            ),
            None => return Ok(None),
        };
        self.sched_assigns = self.sched_assigns + 1;
        if owned_input {
            self.sched_owned_input = self.sched_owned_input + 1;
        }
        if local_hit {
            self.sched_local_hits = self.sched_local_hits + 1;
        }
        let (epoch, session) = match self.workers.get_mut(&node_id) {
            Some(worker) => {
                let taken = worker.available.subtract(&resources);
                assert(taken is Ok);
                worker.free_slots = worker.free_slots - 1;
                (worker.identity.worker_epoch, worker.identity.session_id)
            },
            None => return Ok(None),
        };
        if let Some(task) = self.tasks.get_mut(&id) {
            task.attempt = attempt;
            task.state = TaskState::Assigned;
            task.assigned = Some((node_id, epoch, session, lease));
        }
        self.changed();
        proof {
            assert(before.has_owned_input(id) == requeued.has_owned_input(id));
            assert(self@ =~= requeued.assigned_to(id, node_id, lease, local_hit));
        }
        match self.tasks.get(&id) {
            Some(task) => Ok(Some(task.assignment(lease))),
            None => Ok(None),
        }
    }

    /// Admits a worker, or renews the lease of one that repeats its registration.
    pub fn register_worker(&mut self, request: RegisterWorker, now: u64, lease_ms: u64) -> (r: Result<
        WorkerIdentity,
        Error,
    >)
        requires
            old(self).wf(),
            old(self).has_headroom(),
        ensures
            final(self).wf(),
            exists|session: WorkerSessionId| #[trigger]
                registration_met(old(self)@, final(self)@, register_view(request), session, now, lease_ms, r),
    {
        let session = WorkerSessionId::new();
        let r = self.register_worker_as(request, session, now, lease_ms);
        assert(registration_met(old(self)@, self@, register_view(request), session, now, lease_ms, r));
        r
    }

    /// Admits a worker under the given session.
    pub fn register_worker_as(
        &mut self,
        request: RegisterWorker,
        session: WorkerSessionId,
        now: u64,
        lease_ms: u64,
    ) -> (r: Result<WorkerIdentity, Error>)
        requires
            old(self).wf(),
            old(self).has_headroom(),
        ensures
            final(self).wf(),
            registration_met(old(self)@, final(self)@, register_view(request), session, now, lease_ms, r),
    {
        let ghost before = self@;
        let ghost model = register_view(request);
        request.resources.note_resource_map();
        proof {
            if before.registered(model, session, now, lease_ms) is Ok {
                laws::law_register_keeps_invariant(before, model, session, now, lease_ms);
            }
        }
        match validate_advertise_addr(request.advertise_addr.as_str()) {
            Ok(()) => {},
            Err(error) => return Err(error),
        }
        if request.slots == 0 {
            return Err(Error::InvalidResource("worker slots must be positive".to_string()));
        }
        let mut operations = Operations::new();
        let ghost list = model.operations;
        let mut i: usize = 0;
        while i < request.operations.len()
            invariant
                i <= request.operations@.len(),
                list == descriptors_model(request.operations@),
                self@ == before,
                self.wf(),
                *self == *old(self),
                before.descriptors_fault(list.take(i as int)) is None,
                operations@ == by_key(list.take(i as int)),
                model == register_view(request),
                list == model.operations,
                addr_ok(encode_utf8(model.advertise_addr)),
                model.slots != 0,
            decreases request.operations@.len() - i,
        {
            let descriptor = &request.operations[i];
            proof {
                assert(list.take(i + 1).drop_last() =~= list.take(i as int));
                assert(list.take(i + 1).last() == descriptor@);
                if before.descriptor_fault(by_key(list.take(i as int)), descriptor@) is Some {
                    laws::lemma_descriptors_first_fault(before, list, i + 1);
                }
            }
            match descriptor.validate() {
                Ok(()) => {},
                Err(error) => return Err(error),
            }
            if let Some(previous) = operations.get(&descriptor.key) {
                if !previous.same(descriptor) {
                    return Err(Error::OperationConflict(descriptor.key.to_string()));
                }
            }
            if let Some(existing) = self.operations.get(&descriptor.key) {
                if !existing.same(descriptor) {
                    return Err(Error::OperationConflict(descriptor.key.to_string()));
                }
            }
            operations.insert(descriptor.clone());
            i += 1;
        }
        assert(list.take(i as int) =~= list);
        let deadline: u64 = now.saturating_add(lease_ms);
        match self.workers.get(&request.node_id) {
            Some(existing) => {
                if existing.state != WorkerState::Dead {
                    let same = existing.identity.worker_epoch == request.worker_epoch
                        && existing.advertise_addr == request.advertise_addr && existing.total
                        == request.resources && existing.slots == request.slots && existing.operations.same(
                        &operations,
                    );
                    if !same {
                        return Err(Error::Protocol("duplicate active node id".to_string()));
                    }
                    let identity = existing.identity;
                    if let Some(worker) = self.workers.get_mut(&request.node_id) {
                        worker.lease_deadline_ms = deadline;
                    }
                    self.changed();
                    assert(self@ =~= before.registered(model, session, now, lease_ms)->Ok_0.0);
                    return Ok(identity);
                }
            },
            None => {},
        }
        let identity = WorkerIdentity {
            node_id: request.node_id,
            worker_epoch: request.worker_epoch,
            session_id: session,
            coordinator_epoch: self.epoch,
        };
        self.operations.merge(&operations);
        self.workers.insert(
            request.node_id,
            WorkerRecord {
                identity,
                state: WorkerState::Alive,
                advertise_addr: request.advertise_addr,
                total: request.resources.clone(),
                available: request.resources,
                slots: request.slots,
                free_slots: request.slots,
                operations,
                lease_deadline_ms: deadline,
            },
        );
        self.changed();
        assert(self@ =~= before.registered(model, session, now, lease_ms)->Ok_0.0);
        Ok(identity)
    }

    /// Renews a worker's lease.
    pub fn heartbeat(&mut self, identity: &WorkerIdentity, now: u64, lease_ms: u64) -> (r: Result<(), Error>)
        requires
            old(self).wf(),
        ensures
            final(self).wf(),
            meets(old(self)@.heard(*identity, now, lease_ms), old(self)@, final(self)@, outcome(r)),
            old(self).has_headroom() ==> final(self).has_headroom(),
    {
        proof {
            if self@.identity_ok(*identity) {
                laws::law_heartbeat_keeps_invariant(self@, *identity, now, lease_ms);
            }
        }
        if !self.check_identity(identity) {
            return Err(Error::StaleFence);
        }
        if let Some(worker) = self.workers.get_mut(&identity.node_id) {
            worker.lease_deadline_ms = now.saturating_add(lease_ms);
        }
        Ok(())
    }

    /// Stops giving the worker new tasks.
    pub fn drain(&mut self, identity: &WorkerIdentity) -> (r: Result<(), Error>)
        requires
            old(self).wf(),
            old(self).has_headroom(),
        ensures
            final(self).wf(),
            meets(old(self)@.draining(*identity), old(self)@, final(self)@, outcome(r)),
    {
        proof {
            if self@.identity_ok(*identity) {
                laws::law_drain_keeps_invariant(self@, *identity);
            }
        }
        if !self.check_identity(identity) {
            return Err(Error::StaleFence);
        }
        if let Some(worker) = self.workers.get_mut(&identity.node_id) {
            worker.state = WorkerState::Draining;
        }
        self.changed();
        Ok(())
    }

    /// Stores an object under the digest of its content.
    pub fn put(&mut self, codec: Codec, bytes: Vec<u8>) -> (r: Result<PutOutcome, Error>)
        requires
            old(self).wf(),
            old(self).has_headroom(),
        ensures
            final(self).wf(),
            exists|digest: [u8; 32]| #[trigger]
                put_met(old(self)@, final(self)@, codec, bytes@, digest, r) && digest@ == blake3_digest(bytes@),
    {
        let digest = checksum(bytes.as_slice());
        let r = self.put_as(codec, bytes, digest);
        assert(put_met(old(self)@, self@, codec, bytes@, digest, r));
        r
    }

    /// Stores an object whose content has the digest `digest`.
    pub fn put_as(&mut self, codec: Codec, bytes: Vec<u8>, digest: [u8; 32]) -> (r: Result<PutOutcome, Error>)
        requires
            old(self).wf(),
            old(self).has_headroom(),
        ensures
            final(self).wf(),
            put_met(old(self)@, final(self)@, codec, bytes@, digest, r),
    {
        let id = ObjectId::from_checksum(digest);
        let size_bytes: u64 = bytes.len() as u64;
        let stored = shared_bytes(bytes);
        match self.admit_object(id, codec, size_bytes, digest, Some(stored.clone())) {
            Ok(_) => Ok(PutOutcome { id, checksum: digest, stored }),
            Err(error) => Err(error),
        }
    }

    /// Registers an object whose bytes are in the arena.
    pub fn put_meta(&mut self, id: ObjectId, codec: Codec, size_bytes: u64, checksum: [u8; 32]) -> (r: Result<
        ObjectId,
        Error,
    >)
        requires
            old(self).wf(),
            old(self).has_headroom(),
        ensures
            final(self).wf(),
            meets(
                old(self)@.admitted(id, codec, size_bytes, checksum, None),
                old(self)@,
                final(self)@,
                match r {
                    Ok(_) => Ok(()),
                    Err(error) => Err(error@),
                },
            ),
            r matches Ok(admitted) ==> admitted == id,
    {
        self.admit_object(id, codec, size_bytes, checksum, None)
    }

    fn admit_object(
        &mut self,
        id: ObjectId,
        codec: Codec,
        size_bytes: u64,
        checksum: [u8; 32],
        bytes: Option<Arc<[u8]>>,
    ) -> (r: Result<ObjectId, Error>)
        requires
            old(self).wf(),
            old(self).has_headroom(),
        ensures
            final(self).wf(),
            meets(
                old(self)@.admitted(id, codec, size_bytes, checksum, shared_view(bytes)),
                old(self)@,
                final(self)@,
                match r {
                    Ok(_) => Ok(()),
                    Err(error) => Err(error@),
                },
            ),
            r matches Ok(admitted) ==> admitted == id,
    {
        let ghost before = self@;
        let ghost stored = shared_view(bytes);
        proof {
            if before.admitted(id, codec, size_bytes, checksum, stored) is Next {
                laws::law_put_keeps_invariant(before, id, codec, size_bytes, checksum, stored);
            }
        }
        if let Some(existing) = self.objects.get(&id) {
            let same_codec = match existing.codec {
                Some(existing_codec) => existing_codec == codec,
                None => false,
            };
            let same_checksum = match &existing.checksum {
                Some(existing_checksum) => bytes_equal(existing_checksum, &checksum),
                None => false,
            };
            if existing.state != ObjectState::Available || !same_codec || existing.size_bytes != Some(size_bytes)
                || !same_checksum {
                return Err(Error::ObjectConflict(id));
            }
            return Ok(id);
        }
        if self.objects.len() >= MAX_OBJECTS {
            return Err(Error::CapacityExceeded("object store limit reached".to_string()));
        }
        self.objects.insert(
            id,
            ObjectRecord {
                id,
                state: ObjectState::Available,
                codec: Some(codec),
                bytes,
                size_bytes: Some(size_bytes),
                checksum: Some(checksum),
                location: Some("coordinator".to_string()),
                owner: None,
            },
        );
        self.changed();
        assert(self@ =~= before.admitted(id, codec, size_bytes, checksum, stored)->Next_0);
        Ok(id)
    }

    /// The payload of an available object, or why there is none.
    pub fn resolve_object(&self, id: ObjectId) -> (r: Result<ObjectPayload, Error>)
        requires
            self.wf(),
        ensures
            resolved(self@, id, r),
    {
        match self.objects.get(&id) {
            None => Err(Error::Protocol("object unavailable".to_string())),
            Some(object) => {
                assert(self@.object_ok(id));
                match object.state {
                    ObjectState::Available => {
                        match (object.codec, object.size_bytes, object.checksum, &object.location) {
                            (Some(codec), Some(size_bytes), Some(checksum), Some(location)) => Ok(
                                ObjectPayload {
                                    id,
                                    codec,
                                    size_bytes,
                                    checksum,
                                    location: location.clone(),
                                    bytes: clone_shared(&object.bytes),
                                    arena: None,
                                },
                            ),
                            _ => Err(Error::Protocol("object unavailable".to_string())),
                        }
                    },
                    ObjectState::Lost => Err(Error::ObjectLost(id)),
                    ObjectState::Reserved => Err(Error::ObjectPending(id)),
                    _ => Err(Error::Protocol("object unavailable".to_string())),
                }
            },
        }
    }

    fn some_worker_could_run(&self, operation: &OperationKey, resources: &ResourceSet) -> (r: bool)
        requires
            self.tables_ok(),
        ensures
            r <==> exists|node: NodeId| #[trigger] self@.could_run(node, operation@, resources@),
    {
        let mut i: usize = 0;
        while i < self.workers.len()
            invariant
                self.tables_ok(),
                i <= self.workers.keys().len(),
                forall|j: int|
                    0 <= j < i ==> !self@.could_run(#[trigger] self.workers.keys()[j], operation@, resources@),
            decreases self.workers.keys().len() - i,
        {
            let (node, worker) = self.workers.entry_at(i);
            if worker.state == WorkerState::Alive && worker.operations.contains_key(operation)
                && worker.total.can_fit(resources) {
                assert(self@.could_run(*node, operation@, resources@));
                return true;
            }
            i += 1;
        }
        proof {
            self.workers.lemma_keys();
            assert forall|node: NodeId| !(#[trigger] self@.could_run(node, operation@, resources@)) by {
                if self@.could_run(node, operation@, resources@) {
                    assert(self.workers.keys().contains(node));
                    let j = self.workers.keys().index_of(node);
                    assert(self.workers.keys()[j] == node);
                }
            }
        }
        false
    }

    /// Whether an object argument is pending, or the first fault of one.
    fn check_object_args(&self, args: &Vec<TaskArg>, input_codec: Codec) -> (r: Result<bool, Error>)
        requires
            self.tables_ok(),
        ensures
            match r {
                Ok(waits) => self@.object_args_fault(args_model(args@), input_codec) is None && waits
                    == self@.must_wait(args_model(args@)),
                Err(error) => self@.object_args_fault(args_model(args@), input_codec) == Some(error@),
            },
    {
        let ghost models = args_model(args@);
        let mut waits = false;
        let mut i: usize = 0;
        while i < args.len()
            invariant
                i <= args@.len(),
                self.tables_ok(),
                models == args_model(args@),
                self@.object_args_fault(models.take(i as int), input_codec) is None,
                waits == exists|j: int| 0 <= j < i && arg_pending(self@, #[trigger] models[j]),
            decreases args@.len() - i,
        {
            proof {
                assert(models.take(i + 1).drop_last() =~= models.take(i as int));
                assert(models.take(i + 1).last() == args@[i as int]@);
                assert(models[i as int] == args@[i as int]@);
                if self@.object_arg_fault(models[i as int], input_codec) is Some {
                    laws::lemma_object_args_first_fault(self@, models, input_codec, i + 1);
                }
            }
            if let TaskArg::Object(id) = &args[i] {
                let object = match self.objects.get(id) {
                    Some(object) => object,
                    None => return Err(Error::ObjectNotFound(*id)),
                };
                if let Some(codec) = object.codec {
                    if codec != input_codec {
                        return Err(Error::Protocol("object argument codec mismatch".to_string()));
                    }
                }
                match object.state {
                    ObjectState::Available => {},
                    ObjectState::Reserved => {
                        waits = true;
                        assert(arg_pending(self@, models[i as int]));
                    },
                    _ => return Err(Error::DependencyFailed(*id)),
                }
            }
            i += 1;
        }
        proof {
            assert(models.take(i as int) =~= models);
            if waits {
                let j = choose|j: int| 0 <= j < i && arg_pending(self@, #[trigger] models[j]);
                assert(models.contains(models[j]));
            }
            if self@.must_wait(models) {
                let dep = choose|dep: ObjectId| #[trigger]
                    models.contains(ArgModel::Object(dep)) && self@.objects.contains_key(dep)
                        && self@.objects[dep].state == ObjectState::Reserved;
                let j = models.index_of(ArgModel::Object(dep));
                assert(arg_pending(self@, models[j]));
            }
        }
        Ok(waits)
    }

    /// Admits a task under new random ids.
    pub fn submit(
        &mut self,
        operation: OperationKey,
        args: Vec<TaskArg>,
        resources: ResourceSet,
        max_attempts: u32,
    ) -> (r: Result<(TaskId, ObjectId), Error>)
        requires
            old(self).wf(),
            old(self).revision.0 < u64::MAX,
        ensures
            final(self).wf(),
            exists|id: TaskId, output: ObjectId| #[trigger]
                submit_met(
                    old(self)@,
                    final(self)@,
                    operation@,
                    args_model(args@),
                    resources@,
                    max_attempts,
                    id,
                    output,
                    r,
                ),
    {
        let id = TaskId::new();
        let output = ObjectId::new();
        let r = self.submit_as(operation, args, resources, max_attempts, id, output);
        assert(submit_met(
            old(self)@,
            self@,
            operation@,
            args_model(args@),
            resources@,
            max_attempts,
            id,
            output,
            r,
        ));
        r
    }

    /// Admits a task under the given ids. Ids that are in use are refused.
    pub fn submit_as(
        &mut self,
        operation: OperationKey,
        args: Vec<TaskArg>,
        resources: ResourceSet,
        max_attempts: u32,
        id: TaskId,
        output: ObjectId,
    ) -> (r: Result<(TaskId, ObjectId), Error>)
        requires
            old(self).wf(),
            old(self).revision.0 < u64::MAX,
        ensures
            final(self).wf(),
            submit_met(
                old(self)@,
                final(self)@,
                operation@,
                args_model(args@),
                resources@,
                max_attempts,
                id,
                output,
                r,
            ),
    {
        let ghost before = self@;
        resources.note_resource_map();
        proof {
            let verdict = before.submitted(
                operation@,
                args_model(args@),
                resources@,
                max_attempts,
                id,
                output,
            );
            if verdict is Next {
                laws::law_submit_keeps_invariant(
                    before,
                    operation@,
                    args_model(args@),
                    resources@,
                    max_attempts,
                    id,
                    output,
                );
            }
        }
        if max_attempts == 0 {
            return Err(Error::IllegalTransition("max_attempts must be positive".to_string()));
        }
        if self.tasks.len() >= MAX_TASKS {
            return Err(Error::CapacityExceeded("task limit reached".to_string()));
        }
        if self.objects.len() >= MAX_OBJECTS {
            return Err(Error::CapacityExceeded("object store limit reached".to_string()));
        }
        let (input_codec, output_codec) = match self.operations.get(&operation) {
            None => return Err(Error::OperationUnavailable(operation.to_string())),
            Some(descriptor) => {
                match descriptor.validate_args(args.as_slice()) {
                    Ok(()) => {},
                    Err(error) => return Err(error),
                }
                (descriptor.input_codec, descriptor.output_codec)
            },
        };
        if !self.some_worker_could_run(&operation, &resources) {
            return Err(
                Error::InvalidResource("no registered worker can satisfy task resources".to_string()),
            );
        }
        let waits = match self.check_object_args(&args, input_codec) {
            Ok(waits) => waits,
            Err(error) => return Err(error),
        };
        if self.tasks.contains_key(&id) || self.objects.contains_key(&output) {
            return Err(Error::ObjectConflict(output));
        }
        self.objects.insert(
            output,
            ObjectRecord {
                id: output,
                state: ObjectState::Reserved,
                codec: Some(output_codec),
                bytes: None,
                size_bytes: None,
                checksum: None,
                location: None,
                owner: None,
            },
        );
        self.tasks.insert(
            id,
            TaskRecord {
                id,
                operation,
                args,
                output,
                resources,
                max_attempts,
                attempt: Attempt(0),
                state: if waits {
                    TaskState::Waiting
                } else {
                    TaskState::Runnable
                },
                assigned: None,
                not_before_ms: 0,
                terminal_since_ms: 0,
            },
        );
        if waits {
            self.waiting.insert(id, ());
        } else {
            self.runnable.push_back(id);
        }
        self.changed();
        assert(self@ =~= before.task_added(
            operation@,
            args_model(args@),
            resources@,
            max_attempts,
            id,
            output,
        ));
        Ok((id, output))
    }

    fn object_in_use(&self, id: &ObjectId) -> (r: bool)
        requires
            self.tables_ok(),
        ensures
            r == self@.in_use(*id),
    {
        let mut i: usize = 0;
        while i < self.tasks.len()
            invariant
                self.tables_ok(),
                i <= self.tasks.keys().len(),
                forall|j: int|
                    0 <= j < i ==> {
                        let task = self@.tasks[#[trigger] self.tasks.keys()[j]];
                        !(task.live() && task.depends_on(*id))
                    },
            decreases self.tasks.keys().len() - i,
        {
            let (task_id, task) = self.tasks.entry_at(i);
            if !task.state.is_terminal() && task.takes(id) {
                assert(self@.tasks.contains_key(*task_id));
                return true;
            }
            i += 1;
        }
        proof {
            self.tasks.lemma_keys();
            if self@.in_use(*id) {
                let task = choose|task: TaskId| #[trigger]
                    self@.tasks.contains_key(task) && self@.tasks[task].live() && self@.tasks[task].depends_on(*id);
                assert(self.tasks.keys().contains(task));
                let j = self.tasks.keys().index_of(task);
                assert(self.tasks.keys()[j] == task);
            }
        }
        false
    }

    fn find_producer(&self, output: &ObjectId) -> (r: Option<TaskId>)
        requires
            self.tables_ok(),
        ensures
            match r {
                Some(id) => self@.tasks.contains_key(id) && self@.tasks[id].output == *output,
                None => forall|id: TaskId| #[trigger]
                    self@.tasks.contains_key(id) ==> self@.tasks[id].output != *output,
            },
    {
        let mut i: usize = 0;
        while i < self.tasks.len()
            invariant
                self.tables_ok(),
                i <= self.tasks.keys().len(),
                forall|j: int|
                    0 <= j < i ==> self@.tasks[#[trigger] self.tasks.keys()[j]].output != *output,
            decreases self.tasks.keys().len() - i,
        {
            let (task_id, task) = self.tasks.entry_at(i);
            if task.output == *output {
                return Some(*task_id);
            }
            i += 1;
        }
        proof {
            self.tasks.lemma_keys();
            assert forall|id: TaskId| #[trigger] self@.tasks.contains_key(id) implies self@.tasks[id].output
                != *output by {
                assert(self.tasks.keys().contains(id));
                let j = self.tasks.keys().index_of(id);
                assert(self.tasks.keys()[j] == id);
            }
        }
        None
    }

    /// Drops an object and the finished task that produced it. Releasing what is
    /// not there is accepted; what is pending or in use is kept.
    pub fn release_object(&mut self, id: ObjectId) -> (r: Result<(), Error>)
        requires
            old(self).wf(),
            old(self).revision.0 < u64::MAX,
        ensures
            final(self).wf(),
            meets(old(self)@.object_released(id), old(self)@, final(self)@, outcome(r)),
    {
        self.release_object_once(id)
    }

    fn release_object_once(&mut self, id: ObjectId) -> (r: Result<(), Error>)
        requires
            old(self).wf(),
            old(self).revision.0 < u64::MAX,
        ensures
            final(self).wf(),
            meets(old(self)@.object_released(id), old(self)@, final(self)@, outcome(r)),
            final(self).revision.0 <= old(self).revision.0 + 1,
    {
        let ghost before = self@;
        proof {
            if before.object_released(id) is Next {
                laws::law_release_keeps_invariant(before, id);
            }
        }
        let (state, owner) = match self.objects.get(&id) {
            Some(object) => (object.state, object.owner),
            None => return Ok(()),
        };
        if state == ObjectState::Reserved {
            return Err(Error::ObjectInUse(id));
        }
        if self.object_in_use(&id) {
            return Err(Error::ObjectInUse(id));
        }
        if let Some(owner) = owner {
            if self.workers.contains_key(&owner) {
                if self.pending_deletes.contains_key(&owner) {
                    if let Some(list) = self.pending_deletes.get_mut(&owner) {
                        list.push(id);
                    }
                } else {
                    let mut list: Vec<ObjectId> = Vec::new();
                    list.push(id);
                    assert(list@ =~= seq![id]);
                    self.pending_deletes.insert(owner, list);
                }
            }
        }
        self.objects.remove(&id);
        match self.find_producer(&id) {
            Some(producer) => {
                self.tasks.remove(&producer);
                proof {
                    assert forall|task: TaskId| before.tasks.remove(producer).contains_key(task) == (
                    before.tasks.contains_key(task) && before.tasks[task].output != id) by {
                        if before.tasks.contains_key(task) && task != producer {
                            assert(before.tasks[task].output != before.tasks[producer].output);
                        }
                    }
                    assert(self.tasks@ =~= before.object_dropped(id).tasks);
                }
            },
            None => {
                assert(self.tasks@ =~= before.object_dropped(id).tasks);
            },
        }
        self.changed();
        assert(self@ =~= before.object_dropped(id));
        Ok(())
    }

    /// Takes the objects that the worker at `node` is to delete.
    pub fn take_pending_deletes(&mut self, node: NodeId) -> (r: Vec<ObjectId>)
        requires
            old(self).wf(),
        ensures
            final(self).wf(),
            final(self)@ == (Model {
                pending_deletes: old(self)@.pending_deletes.remove(node),
                ..old(self)@
            }),
            r@ == if old(self)@.pending_deletes.contains_key(node) {
                old(self)@.pending_deletes[node]
            } else {
                Seq::empty()
            },
            old(self).has_headroom() ==> final(self).has_headroom(),
    {
        let ghost before = self@;
        let r = match self.pending_deletes.remove(&node) {
            Some(list) => list,
            None => Vec::new(),
        };
        proof {
            assert(self@ =~= Model { pending_deletes: before.pending_deletes.remove(node), ..before });
            laws::lemma_pending_touched(before, self@);
        }
        r
    }

    /// Puts back objects that the worker at `node`, which has none pending, is
    /// still to delete.
    pub fn put_pending_deletes(&mut self, node: NodeId, list: Vec<ObjectId>)
        requires
            old(self).wf(),
            !old(self)@.pending_deletes.contains_key(node),
        ensures
            final(self).wf(),
            final(self)@ == (Model {
                pending_deletes: old(self)@.pending_deletes.insert(node, list@),
                ..old(self)@
            }),
            old(self).has_headroom() ==> final(self).has_headroom(),
    {
        let ghost before = self@;
        self.pending_deletes.insert(node, list);
        proof {
            assert(self@ =~= Model { pending_deletes: before.pending_deletes.insert(node, list@), ..before });
            laws::lemma_pending_touched(before, self@);
        }
    }

    /// A task held by the worker that it has not started on.
    pub fn assigned_unstarted(&self, identity: &WorkerIdentity) -> (r: Result<Option<TaskAssignment>, Error>)
        requires
            self.wf(),
        ensures
            match r {
                Err(error) => !self@.identity_ok(*identity) && error@ == ErrorModel::StaleFence,
                Ok(Some(assignment)) => self@.identity_ok(*identity) && exists|id: TaskId, lease: LeaseId| #[trigger]
                    self@.unstarted(*identity, id, lease) && assignment_of(assignment, self@.tasks[id], lease),
                Ok(None) => self@.identity_ok(*identity) && forall|id: TaskId, lease: LeaseId|
                    !(#[trigger] self@.unstarted(*identity, id, lease)),
            },
    {
        if !self.check_identity(identity) {
            return Err(Error::StaleFence);
        }
        let mut i: usize = 0;
        while i < self.tasks.len()
            invariant
                self.tables_ok(),
                self@.identity_ok(*identity),
                i <= self.tasks.keys().len(),
                forall|j: int, lease: LeaseId|
                    0 <= j < i ==> !(#[trigger] self@.unstarted(*identity, self.tasks.keys()[j], lease)),
            decreases self.tasks.keys().len() - i,
        {
            let (task_id, task) = self.tasks.entry_at(i);
            if let Some((node, epoch, session, lease)) = task.assigned {
                if matches!(task.state, TaskState::Assigned) && node == identity.node_id && epoch
                    == identity.worker_epoch && session == identity.session_id {
                    assert(self@.unstarted(*identity, *task_id, lease));
                    return Ok(Some(task.assignment(lease)));
                }
            }
            i += 1;
        }
        proof {
            self.tasks.lemma_keys();
            assert forall|id: TaskId, lease: LeaseId| !(#[trigger] self@.unstarted(*identity, id, lease)) by {
                if self@.unstarted(*identity, id, lease) {
                    assert(self.tasks.keys().contains(id));
                    let j = self.tasks.keys().index_of(id);
                    assert(self.tasks.keys()[j] == id);
                }
            }
        }
        Ok(None)
    }

    /// A task that the worker is to let go of.
    pub fn cancellation_for(&self, identity: &WorkerIdentity) -> (r: Result<Option<TaskFence>, Error>)
        requires
            self.wf(),
        ensures
            match r {
                Err(error) => !self@.identity_ok(*identity) && error@ == ErrorModel::StaleFence,
                Ok(Some(fence)) => self@.identity_ok(*identity) && self@.cancel_due(*identity, fence),
                Ok(None) => self@.identity_ok(*identity) && forall|fence: TaskFence|
                    !(#[trigger] self@.cancel_due(*identity, fence)),
            },
    {
        if !self.check_identity(identity) {
            return Err(Error::StaleFence);
        }
        let mut i: usize = 0;
        while i < self.cancel_requested.len()
            invariant
                self.wf(),
                self@.identity_ok(*identity),
                i <= self.cancel_requested.keys().len(),
                forall|fence: TaskFence|
                    self.cancel_requested.keys().take(i as int).contains(fence.task_id) ==> !(#[trigger] self@.cancel_due(*identity, fence)),
            decreases self.cancel_requested.keys().len() - i,
        {
            let (id, _) = self.cancel_requested.entry_at(i);
            let ghost key = *id;
            assert(self.cancel_requested.keys().take(i + 1) =~= self.cancel_requested.keys().take(i as int).push(
                key,
            ));
            if let Some(task) = self.tasks.get(id) {
                assert(self@.cancel_requested.contains(key));
                assert(self@.task_ok(key));
                if let Some((node, epoch, session, lease_id)) = task.assigned {
                    if node == identity.node_id && epoch == identity.worker_epoch && session
                        == identity.session_id {
                        return Ok(Some(TaskFence { task_id: task.id, attempt: task.attempt, lease_id }));
                    }
                }
            }
            assert forall|fence: TaskFence|
                self.cancel_requested.keys().take(i + 1).contains(fence.task_id) implies !(#[trigger] self@.cancel_due(
                *identity,
                fence,
            )) by {
                let grown = self.cancel_requested.keys().take(i + 1);
                let j = grown.index_of(fence.task_id);
                if j < i {
                    assert(self.cancel_requested.keys().take(i as int)[j] == fence.task_id);
                }
            }
            i += 1;
        }
        proof {
            self.cancel_requested.lemma_keys();
            assert(self.cancel_requested.keys().take(i as int) =~= self.cancel_requested.keys());
            assert forall|fence: TaskFence| !(#[trigger] self@.cancel_due(*identity, fence)) by {
                if self@.cancel_due(*identity, fence) {
                    assert(self.cancel_requested.keys().contains(fence.task_id));
                }
            }
        }
        Ok(None)
    }

    fn tasks_on(&self, node: NodeId) -> (r: Vec<TaskId>)
        requires
            self.tables_ok(),
        ensures
            self@.holds_exactly(node, r@),
    {
        let mut r: Vec<TaskId> = Vec::new();
        let mut i: usize = 0;
        proof {
            self.tasks.lemma_keys();
        }
        while i < self.tasks.len()
            invariant
                self.tables_ok(),
                self.tasks.keys().no_duplicates(),
                i <= self.tasks.keys().len(),
                r@.no_duplicates(),
                forall|id: TaskId| #[trigger]
                    r@.contains(id) <==> self.tasks.keys().take(i as int).contains(id) && self@.tasks[id].on_node(
                        node,
                    ),
            decreases self.tasks.keys().len() - i,
        {
            let (id, task) = self.tasks.entry_at(i);
            let ghost seen = self.tasks.keys().take(i as int);
            let ghost before = r@;
            let here = match task.assigned {
                Some(holder) => holder.0 == node,
                None => false,
            };
            if here {
                r.push(*id);
            }
            proof {
                let key = *id;
                let grown = self.tasks.keys().take(i + 1);
                assert(grown =~= seen.push(key));
                lemma_push_contains(seen, key);
                lemma_push_contains(before, key);
                assert(!seen.contains(key)) by {
                    if seen.contains(key) {
                        let j = seen.index_of(key);
                        assert(self.tasks.keys()[j] == key);
                    }
                }
                assert(!before.contains(key));
                assert(task@ == self@.tasks[key]);
                assert forall|other: TaskId| #[trigger] r@.contains(other) <==> grown.contains(other)
                    && self@.tasks[other].on_node(node) by {
                    assert(before.contains(other) <==> seen.contains(other) && self@.tasks[other].on_node(node));
                }
            }
            i += 1;
        }
        proof {
            self.tasks.lemma_keys();
            assert(self.tasks.keys().take(i as int) =~= self.tasks.keys());
        }
        r
    }

    /// Takes the tasks `ids` off the lost worker at `node`.
    fn orphan_tasks(&mut self, node: Ghost<NodeId>, ids: &Vec<TaskId>, now: u64) -> (r: (u32, u32, u32))
        requires
            old(self).tables_ok(),
            old(self)@.sound(),
            old(self)@.holds_exactly(node@, ids@),
            old(self).retries_total + ids@.len() <= u64::MAX,
            old(self).failures_total + ids@.len() <= u64::MAX,
        ensures
            final(self).tables_ok(),
            final(self)@ == old(self)@.orphan_run(ids@, now),
            final(self).revision == old(self).revision,
            r.0 == old(self)@.count(ids@, Fate::Retried),
            r.1 == old(self)@.count(ids@, Fate::Failed),
            r.2 == old(self)@.count(ids@, Fate::Cancelled),
    {
        let ghost start = self@;
        let mut retried: u32 = 0;
        let mut failed: u32 = 0;
        let mut cancelled: u32 = 0;
        proof {
            assert forall|i: int| 0 <= i < ids@.len() implies start.tasks.contains_key(#[trigger] ids@[i])
                && start.tasks[ids@[i]].on_node(node@) by {
                assert(ids@.contains(ids@[i]));
            }
            laws::lemma_distinct_tasks(start, ids@);
            assert(start.balanced_except(set![node@]));
        }
        let mut i: usize = 0;
        while i < ids.len()
            invariant
                i <= ids@.len(),
                ids@.len() <= MAX_TASKS,
                ids@.no_duplicates(),
                forall|j: int|
                    0 <= j < ids@.len() ==> start.tasks.contains_key(#[trigger] ids@[j])
                        && start.tasks[ids@[j]].on_node(node@),
                start.consistent(),
                start.balanced_except(set![node@]),
                self.tables_ok(),
                self@ == start.orphan_run(ids@.take(i as int), now),
                self.revision == old(self).revision,
                self.retries_total <= start.retries_total + i,
                self.failures_total <= start.failures_total + i,
                start.retries_total + ids@.len() <= u64::MAX,
                start.failures_total + ids@.len() <= u64::MAX,
                retried <= i,
                failed <= i,
                cancelled <= i,
                retried == start.count(ids@.take(i as int), Fate::Retried),
                failed == start.count(ids@.take(i as int), Fate::Failed),
                cancelled == start.count(ids@.take(i as int), Fate::Cancelled),
            decreases ids@.len() - i,
        {
            let id = ids[i];
            let ghost before = self@;
            proof {
                let prefix = ids@.take(i as int);
                assert(ids@.take(i + 1).drop_last() =~= prefix);
                assert(ids@.take(i + 1).last() == id);
                assert forall|j: int| 0 <= j < prefix.len() implies start.tasks.contains_key(#[trigger] prefix[j])
                    && start.tasks[prefix[j]].on_node(node@) by {
                    assert(ids@[j] == prefix[j]);
                }
                laws::lemma_orphan_run(start, node@, prefix, now);
                assert(!prefix.contains(id)) by {
                    if prefix.contains(id) {
                        let j = prefix.index_of(id);
                        assert(ids@[j] == id);
                    }
                }
                assert(before.tasks[id] == start.tasks[id]);
                assert(before.tasks.dom().contains(id));
                assert(before.tasks.contains_key(id));
                assert(before.task_ok(id));
            }
            let (output, attempt, max_attempts, asked) = match self.tasks.get(&id) {
                Some(task) => (
                    task.output,
                    task.attempt.0,
                    task.max_attempts,
                    matches!(task.state, TaskState::CancelRequested),
                ),
                None => {
                    return (retried, failed, cancelled);
                },
            };
            if asked {
                if let Some(task) = self.tasks.get_mut(&id) {
                    task.assigned = None;
                    task.state = TaskState::Cancelled;
                }
                self.cancel_requested.remove(&id);
                self.set_object_state(&output, ObjectState::Cancelled);
                cancelled = cancelled + 1;
            } else if attempt < max_attempts {
                self.mark_runnable(id);
                if let Some(task) = self.tasks.get_mut(&id) {
                    task.assigned = None;
                    task.not_before_ms = now.saturating_add(retry_backoff_ms(attempt));
                }
                self.retries_total = self.retries_total + 1;
                retried = retried + 1;
            } else {
                if let Some(task) = self.tasks.get_mut(&id) {
                    task.assigned = None;
                    task.state = TaskState::Failed("worker lease expired".to_string());
                }
                self.set_object_state(&output, ObjectState::Failed);
                self.failures_total = self.failures_total + 1;
                failed = failed + 1;
            }
            assert(self@ =~= before.orphaned(id, now));
            i += 1;
        }
        assert(ids@.take(i as int) =~= ids@);
        (retried, failed, cancelled)
    }

    /// The objects that the lost worker owned are lost with it.
    fn lose_objects(&mut self, node: NodeId) -> (r: u32)
        requires
            old(self).tables_ok(),
            old(self)@.objects.dom().len() <= MAX_OBJECTS,
        ensures
            final(self).tables_ok(),
            final(self)@ == old(self)@.objects_lost(node),
            final(self).revision == old(self).revision,
            r == sum(old(self)@.objects, lost_weight(node)),
    {
        let ghost start = self@;
        let ghost keys = self.objects.keys();
        let mut lost: u32 = 0;
        let mut i: usize = 0;
        proof {
            self.objects.lemma_keys();
            lemma_sum_ends(keys, start.objects, lost_weight(node));
        }
        while i < self.objects.len()
            invariant
                self.tables_ok(),
                i <= keys.len(),
                keys.len() <= MAX_OBJECTS,
                self.objects.keys() == keys,
                keys.no_duplicates(),
                keys.to_set() == start.objects.dom(),
                self@ == (Model { objects: self.objects@, ..start }),
                self.revision == old(self).revision,
                self.objects@.dom() == start.objects.dom(),
                forall|id: ObjectId| #[trigger]
                    start.objects.contains_key(id) ==> self.objects@[id] == if keys.take(i as int).contains(id) {
                        without_owner(start.objects[id], node)
                    } else {
                        start.objects[id]
                    },
                lost <= i,
                lost == sum_over(keys.take(i as int).to_set(), start.objects, lost_weight(node)),
            decreases keys.len() - i,
        {
            let id = *self.objects.entry_at(i).0;
            proof {
                self.objects.lemma_keys();
                lemma_sum_next(keys, start.objects, lost_weight(node), i as int);
                assert(keys.take(i + 1) =~= keys.take(i as int).push(id));
                lemma_push_contains(keys.take(i as int), id);
                assert(!keys.take(i as int).contains(id)) by {
                    if keys.take(i as int).contains(id) {
                        let j = keys.take(i as int).index_of(id);
                        assert(keys[j] == id);
                    }
                }
                assert(start.objects.dom().contains(id));
                assert(self.objects@[id] == start.objects[id]);
            }
            if let Some(object) = self.objects.get_mut(&id) {
                let owned = match object.owner {
                    Some(owner) => owner == node,
                    None => false,
                };
                if owned && object.state == ObjectState::Available {
                    object.owner = None;
                    object.location = None;
                    object.bytes = None;
                    object.state = ObjectState::Lost;
                    lost = lost + 1;
                }
            }
            proof {
                assert(self.objects@[id] == without_owner(start.objects[id], node));
                assert(self.objects@.dom() =~= start.objects.dom());
                assert forall|other: ObjectId| #[trigger] start.objects.contains_key(other) implies self.objects@[other]
                    == if keys.take(i + 1).contains(other) {
                    without_owner(start.objects[other], node)
                } else {
                    start.objects[other]
                } by {}
            }
            i += 1;
        }
        proof {
            assert(keys.take(i as int) =~= keys);
            assert forall|id: ObjectId| #[trigger] start.objects.contains_key(id) implies self.objects@[id] == without_owner(
                start.objects[id],
                node,
            ) by {
                assert(keys.to_set().contains(id));
            }
            assert(self.objects@ =~= start.objects_lost(node).objects);
            assert(self@ =~= start.objects_lost(node));
        }
        lost
    }

    /// Forgets the workers whose leases have run out, and reports what became of
    /// their tasks and objects.
    #[verifier::rlimit(40)]
    pub fn expire_workers(&mut self, now: u64) -> (r: Result<Vec<WorkerExpiry>, Error>)
        requires
            old(self).wf(),
            old(self).has_headroom(),
        ensures
            final(self).wf(),
            r matches Ok(report) && old(self)@.expires_to(final(self)@, now, report@),
    {
        let ghost start = self@;
        let mut expired: Vec<NodeId> = Vec::new();
        let mut i: usize = 0;
        proof {
            self.workers.lemma_keys();
        }
        while i < self.workers.len()
            invariant
                self.tables_ok(),
                self.workers.keys().no_duplicates(),
                i <= self.workers.keys().len(),
                expired@.no_duplicates(),
                forall|node: NodeId| #[trigger]
                    expired@.contains(node) <==> self.workers.keys().take(i as int).contains(node) && self@.lapsed(
                        node,
                        now,
                    ),
            decreases self.workers.keys().len() - i,
        {
            let (node, worker) = self.workers.entry_at(i);
            let ghost seen = self.workers.keys().take(i as int);
            let ghost before = expired@;
            let lapsed = worker.state != WorkerState::Dead && worker.lease_deadline_ms <= now;
            if lapsed {
                expired.push(*node);
            }
            proof {
                let key = *node;
                let grown = self.workers.keys().take(i + 1);
                assert(grown =~= seen.push(key));
                lemma_push_contains(seen, key);
                lemma_push_contains(before, key);
                assert(!seen.contains(key)) by {
                    if seen.contains(key) {
                        let j = seen.index_of(key);
                        assert(self.workers.keys()[j] == key);
                    }
                }
                assert(!before.contains(key));
                assert(lapsed == self@.lapsed(key, now));
                assert forall|other: NodeId| #[trigger] expired@.contains(other) <==> grown.contains(other)
                    && self@.lapsed(other, now) by {
                    assert(before.contains(other) <==> seen.contains(other) && self@.lapsed(other, now));
                }
            }
            i += 1;
        }
        proof {
            self.workers.lemma_keys();
            assert(self.workers.keys().take(i as int) =~= self.workers.keys());
            assert forall|node: NodeId| #[trigger] expired@.contains(node) <==> start.lapsed(node, now) by {
                if start.lapsed(node, now) {
                    assert(self.workers.keys().contains(node));
                }
            }
            assert forall|j: int| 0 <= j < expired@.len() implies start.workers.contains_key(#[trigger] expired@[j]) by {
                assert(expired@.contains(expired@[j]));
            }
            laws::lemma_held_range(start);
        }
        let mut report: Vec<WorkerExpiry> = Vec::new();
        let ghost mut states: Seq<Model> = seq![start];
        let mut k: usize = 0;
        while k < expired.len()
            invariant
                k <= expired@.len(),
                expired@.no_duplicates(),
                forall|node: NodeId| #[trigger] expired@.contains(node) <==> start.lapsed(node, now),
                report@.len() == k,
                forall|j: int| 0 <= j < k ==> (#[trigger] report@[j]).node == expired@[j],
                start.forget_run(states, now, report@),
                states.last() == self@,
                self.tables_ok(),
                self@.sound(),
                self.revision == old(self).revision,
                forall|j: int| k <= j < expired@.len() ==> self@.workers.contains_key(#[trigger] expired@[j]),
                old(self).has_headroom(),
                self.retries_total + sum(self@.tasks, held_weight()) <= old(self).retries_total + MAX_TASKS,
                self.failures_total + sum(self@.tasks, held_weight()) <= old(self).failures_total + MAX_TASKS,
            decreases expired@.len() - k,
        {
            let node = expired[k];
            let ghost before = self@;
            let ids = self.tasks_on(node);
            proof {
                assert forall|j: int| 0 <= j < ids@.len() implies before.tasks.contains_key(#[trigger] ids@[j])
                    && before.tasks[ids@[j]].on_node(node) by {
                    assert(ids@.contains(ids@[j]));
                }
                assert(before.balanced_except(set![node]));
                laws::lemma_orphan_run(before, node, ids@, now);
                laws::lemma_held_range(before);
                laws::lemma_held_range(before.orphan_run(ids@, now));
                laws::lemma_forgotten_sound(before, node, ids@, now);
            }
            let (retried, failed, cancelled) = self.orphan_tasks(Ghost(node), &ids, now);
            let ghost mid = self@;
            let objects_lost = self.lose_objects(node);
            self.workers.remove(&node);
            self.pending_deletes.remove(&node);
            let entry = WorkerExpiry { node, retried, failed, cancelled, objects_lost };
            report.push(entry);
            proof {
                assert(self@ =~= before.forgotten(node, ids@, now));
                lemma_lost_same(before.objects, mid.objects, node);
                assert(before.holds_exactly(entry.node, ids@));
                assert(self@ == before.forgotten(entry.node, ids@, now));
                assert(entry.objects_lost == sum(before.objects, lost_weight(entry.node)));
                assert(before.forgets(self@, now, entry));
                let old_states = states;
                let old_report = report@.drop_last();
                states = states.push(self@);
                assert forall|j: int| 0 <= j < report@.len() implies (#[trigger] states[j]).forgets(
                    states[j + 1],
                    now,
                    report@[j],
                ) by {
                    if j < old_report.len() {
                        assert(old_states[j].forgets(old_states[j + 1], now, old_report[j]));
                    } else {
                        assert(states[j] == before);
                    }
                }
                assert forall|j: int| k < j < expired@.len() implies self@.workers.contains_key(
                    #[trigger] expired@[j],
                ) by {
                    assert(before.workers.contains_key(expired@[j]));
                    assert(expired@[j] != expired@[k as int]);
                }
                assert(self@.tasks == mid.tasks);
            }
            k += 1;
        }
        proof {
            assert forall|node: NodeId| #[trigger] start.lapsed(node, now) implies exists|j: int|
                0 <= j < report@.len() && (#[trigger] report@[j]).node == node by {
                assert(expired@.contains(node));
                let j = expired@.index_of(node);
                assert(report@[j].node == node);
            }
            assert forall|j: int| 0 <= j < report@.len() implies start.lapsed((#[trigger] report@[j]).node, now) by {
                assert(expired@.contains(expired@[j]));
            }
            assert(start.covers_lapsed(now, report@));
        }
        if expired.len() > 0 {
            let ghost mid = self@;
            self.changed();
            proof {
                assert(self@ =~= mid.bump());
                laws::lemma_bump_sound(mid);
            }
            self.reconcile_dependencies();
            proof {
                assert(start.forget_run(states, now, report@) && states.last().bump().settles_to(self@));
            }
        } else {
            assert(states =~= seq![start]);
        }
        Ok(report)
    }

    /// Marks finished tasks that have no mark yet with the time.
    fn stamp_terminal(&mut self, now: u64)
        requires
            old(self).tables_ok(),
        ensures
            final(self).tables_ok(),
            final(self)@ == old(self)@.stamped(now),
            final(self).revision == old(self).revision,
    {
        let ghost start = self@;
        let ghost keys = self.tasks.keys();
        let mut i: usize = 0;
        proof {
            self.tasks.lemma_keys();
        }
        while i < self.tasks.len()
            invariant
                self.tables_ok(),
                i <= keys.len(),
                self.tasks.keys() == keys,
                keys.no_duplicates(),
                keys.to_set() == start.tasks.dom(),
                self@ == (Model { tasks: self.tasks@, ..start }),
                self.revision == old(self).revision,
                self.tasks@.dom() == start.tasks.dom(),
                forall|id: TaskId| #[trigger]
                    start.tasks.contains_key(id) ==> self.tasks@[id] == if keys.take(i as int).contains(id) {
                        stamp(start.tasks[id], now)
                    } else {
                        start.tasks[id]
                    },
            decreases keys.len() - i,
        {
            let id = *self.tasks.entry_at(i).0;
            proof {
                self.tasks.lemma_keys();
                assert(keys.take(i + 1) =~= keys.take(i as int).push(id));
                lemma_push_contains(keys.take(i as int), id);
                assert(!keys.take(i as int).contains(id)) by {
                    if keys.take(i as int).contains(id) {
                        let j = keys.take(i as int).index_of(id);
                        assert(keys[j] == id);
                    }
                }
                assert(start.tasks.dom().contains(id));
                assert(self.tasks@[id] == start.tasks[id]);
            }
            if let Some(task) = self.tasks.get_mut(&id) {
                if task.state.is_terminal() && task.terminal_since_ms == 0 {
                    task.terminal_since_ms = now;
                }
            }
            proof {
                assert(self.tasks@[id] == stamp(start.tasks[id], now));
                assert(self.tasks@.dom() =~= start.tasks.dom());
                assert forall|other: TaskId| #[trigger] start.tasks.contains_key(other) implies self.tasks@[other]
                    == if keys.take(i + 1).contains(other) {
                    stamp(start.tasks[other], now)
                } else {
                    start.tasks[other]
                } by {}
            }
            i += 1;
        }
        proof {
            assert(keys.take(i as int) =~= keys);
            assert forall|id: TaskId| #[trigger] start.tasks.contains_key(id) implies self.tasks@[id] == stamp(
                start.tasks[id],
                now,
            ) by {
                assert(keys.to_set().contains(id));
            }
            assert(self.tasks@ =~= start.stamped(now).tasks);
            assert(self@ =~= start.stamped(now));
        }
    }

    /// The outputs of the tasks that are to be dropped.
    fn overdue_outputs(&self, now: u64) -> (r: Vec<ObjectId>)
        requires
            self.wf(),
        ensures
            self@.overdue_outputs(now, r@),
            r@.len() <= self@.tasks.dom().len(),
    {
        let mut r: Vec<ObjectId> = Vec::new();
        let ghost keys = self.tasks.keys();
        let mut i: usize = 0;
        proof {
            self.tasks.lemma_keys();
        }
        while i < self.tasks.len()
            invariant
                self.wf(),
                keys == self.tasks.keys(),
                keys.no_duplicates(),
                i <= keys.len(),
                r@.no_duplicates(),
                r@.len() <= i,
                forall|id: TaskId| #[trigger]
                    self@.overdue(id, now) && keys.take(i as int).contains(id) ==> r@.contains(
                        self@.tasks[id].output,
                    ),
                forall|j: int| 0 <= j < r@.len() ==> overdue_among(self@, now, keys.take(i as int), #[trigger] r@[j]),
            decreases keys.len() - i,
        {
            let (task_id, task) = self.tasks.entry_at(i);
            let ghost key = *task_id;
            let ghost seen = keys.take(i as int);
            let ghost before = r@;
            let due = task.state.is_terminal() && now >= task.terminal_since_ms && now - task.terminal_since_ms
                >= TERMINAL_TASK_TTL_MS && !self.object_in_use(&task.output);
            assert(due == self@.overdue(key, now));
            if due {
                r.push(task.output);
            }
            proof {
                let grown = keys.take(i + 1);
                assert(grown =~= seen.push(key));
                lemma_push_contains(seen, key);
                lemma_push_contains(before, task.output);
                if due {
                    assert(!before.contains(task.output)) by {
                        if before.contains(task.output) {
                            let j = before.index_of(task.output);
                            assert(overdue_among(self@, now, seen, before[j]));
                            let other = choose|id: TaskId| #[trigger]
                                self@.overdue(id, now) && seen.contains(id) && self@.tasks[id].output == before[j];
                            assert(self@.tasks.contains_key(key));
                            if other != key {
                                assert(self@.tasks[other].output != self@.tasks[key].output);
                            } else {
                                let m = seen.index_of(key);
                                assert(keys[m] == key);
                                assert(keys[i as int] == key);
                            }
                        }
                    }
                }
                assert forall|j: int| 0 <= j < r@.len() implies overdue_among(self@, now, grown, #[trigger] r@[j]) by {
                    if j < before.len() {
                        assert(before[j] == r@[j]);
                        assert(overdue_among(self@, now, seen, before[j]));
                        let other = choose|id: TaskId| #[trigger]
                            self@.overdue(id, now) && seen.contains(id) && self@.tasks[id].output == before[j];
                        assert(self@.overdue(other, now) && grown.contains(other));
                    } else {
                        assert(self@.overdue(key, now) && grown.contains(key));
                    }
                }
            }
            i += 1;
        }
        proof {
            self.tasks.lemma_keys();
            assert(keys.take(i as int) =~= keys);
            assert forall|id: TaskId| #[trigger] self@.overdue(id, now) implies r@.contains(self@.tasks[id].output) by {
                assert(keys.contains(id));
            }
            assert forall|j: int| 0 <= j < r@.len() implies self@.is_overdue_output(now, #[trigger] r@[j]) by {
                assert(overdue_among(self@, now, keys.take(i as int), r@[j]));
            }
        }
        r
    }

    /// Drops tasks that finished long ago and were never released, with their
    /// outputs. Returns how many there were.
    pub fn reap_terminal_tasks(&mut self, now: u64) -> (r: usize)
        requires
            old(self).wf(),
            old(self).has_headroom(),
        ensures
            final(self).wf(),
            old(self)@.reaps_to(final(self)@, now, r as int),
    {
        proof {
            laws::lemma_stamped_wf(self@, now);
        }
        self.stamp_terminal(now);
        let ghost start = self@;
        let due = self.overdue_outputs(now);
        let mut reclaimed: usize = 0;
        let mut i: usize = 0;
        proof {
            assert(due@.take(0) =~= Seq::<ObjectId>::empty());
            assert forall|j: int| 0 <= j < due@.len() implies droppable(self@, #[trigger] due@[j]) by {
                assert(start.is_overdue_output(now, due@[j]));
                let id = choose|id: TaskId| #[trigger] start.overdue(id, now) && start.tasks[id].output == due@[j];
                assert(start.task_ok(id));
            }
        }
        while i < due.len()
            invariant
                i <= due@.len(),
                due@.len() <= MAX_TASKS,
                due@.no_duplicates(),
                self.wf(),
                self@ == start.drop_run(due@.take(i as int)),
                reclaimed == i,
                self.revision.0 <= old(self).revision.0 + i,
                old(self).has_headroom(),
                forall|j: int| i <= j < due@.len() ==> droppable(self@, #[trigger] due@[j]),
            decreases due@.len() - i,
        {
            let output = due[i];
            let ghost before = self@;
            assert(droppable(before, due@[i as int]));
            if self.release_object_once(output).is_ok() {
                reclaimed = reclaimed + 1;
            }
            proof {
                assert(due@.take(i + 1).drop_last() =~= due@.take(i as int));
                assert(due@.take(i + 1).last() == output);
                assert forall|j: int| i < j < due@.len() implies droppable(self@, #[trigger] due@[j]) by {
                    assert(droppable(before, due@[j]));
                    assert(due@[j] != due@[i as int]);
                    if self@.in_use(due@[j]) {
                        let task = choose|task: TaskId| #[trigger]
                            self@.tasks.contains_key(task) && self@.tasks[task].live()
                                && self@.tasks[task].depends_on(due@[j]);
                        assert(before.tasks.contains_key(task) && before.tasks[task].live()
                            && before.tasks[task].depends_on(due@[j]));
                    }
                }
            }
            i += 1;
        }
        proof {
            assert(due@.take(i as int) =~= due@);
            assert(old(self)@.stamped(now).overdue_outputs(now, due@));
        }
        reclaimed
    }

    /// Counts for the health report.
    pub fn health_counts(&self) -> (r: HealthCounts)
        requires
            self.wf(),
        ensures
            counted(self@, r),
    {
        let ghost w_runnable = phase_weight(|p: Phase| p is Runnable);
        let ghost w_running = phase_weight(|p: Phase| p is Running || p is Assigned);
        let ghost w_succeeded = phase_weight(|p: Phase| p is Succeeded);
        let ghost w_failed = phase_weight(|p: Phase| p is Failed);
        let ghost w_available = object_weight(ObjectState::Available);
        let ghost w_reserved = object_weight(ObjectState::Reserved);
        let ghost w_lost = object_weight(ObjectState::Lost);
        let ghost task_keys = self.tasks.keys();
        let ghost object_keys = self.objects.keys();
        proof {
            self.tasks.lemma_keys();
            self.objects.lemma_keys();
            lemma_sum_ends(task_keys, self@.tasks, w_runnable);
            lemma_sum_ends(task_keys, self@.tasks, w_running);
            lemma_sum_ends(task_keys, self@.tasks, w_succeeded);
            lemma_sum_ends(task_keys, self@.tasks, w_failed);
            lemma_sum_ends(object_keys, self@.objects, w_available);
            lemma_sum_ends(object_keys, self@.objects, w_reserved);
            lemma_sum_ends(object_keys, self@.objects, w_lost);
        }
        let mut runnable: usize = 0;
        let mut running: usize = 0;
        let mut succeeded: usize = 0;
        let mut failed: usize = 0;
        let mut i: usize = 0;
        while i < self.tasks.len()
            invariant
                self.wf(),
                task_keys == self.tasks.keys(),
                task_keys.no_duplicates(),
                i <= task_keys.len(),
                task_keys.len() <= MAX_TASKS,
                runnable <= i,
                running <= i,
                succeeded <= i,
                failed <= i,
                w_runnable == phase_weight(|p: Phase| p is Runnable),
                w_running == phase_weight(|p: Phase| p is Running || p is Assigned),
                w_succeeded == phase_weight(|p: Phase| p is Succeeded),
                w_failed == phase_weight(|p: Phase| p is Failed),
                runnable == sum_over(task_keys.take(i as int).to_set(), self@.tasks, w_runnable),
                running == sum_over(task_keys.take(i as int).to_set(), self@.tasks, w_running),
                succeeded == sum_over(task_keys.take(i as int).to_set(), self@.tasks, w_succeeded),
                failed == sum_over(task_keys.take(i as int).to_set(), self@.tasks, w_failed),
            decreases task_keys.len() - i,
        {
            let (_, task) = self.tasks.entry_at(i);
            proof {
                lemma_sum_next(task_keys, self@.tasks, w_runnable, i as int);
                lemma_sum_next(task_keys, self@.tasks, w_running, i as int);
                lemma_sum_next(task_keys, self@.tasks, w_succeeded, i as int);
                lemma_sum_next(task_keys, self@.tasks, w_failed, i as int);
            }
            match task.state {
                TaskState::Runnable => {
                    runnable = runnable + 1;
                },
                TaskState::Running | TaskState::Assigned => {
                    running = running + 1;
                },
                TaskState::Succeeded => {
                    succeeded = succeeded + 1;
                },
                TaskState::Failed(_) => {
                    failed = failed + 1;
                },
                _ => {},
            }
            i += 1;
        }
        let mut available: usize = 0;
        let mut reserved: usize = 0;
        let mut lost: usize = 0;
        let mut k: usize = 0;
        while k < self.objects.len()
            invariant
                self.wf(),
                object_keys == self.objects.keys(),
                object_keys.no_duplicates(),
                k <= object_keys.len(),
                object_keys.len() <= MAX_OBJECTS,
                available <= k,
                reserved <= k,
                lost <= k,
                w_available == object_weight(ObjectState::Available),
                w_reserved == object_weight(ObjectState::Reserved),
                w_lost == object_weight(ObjectState::Lost),
                available == sum_over(object_keys.take(k as int).to_set(), self@.objects, w_available),
                reserved == sum_over(object_keys.take(k as int).to_set(), self@.objects, w_reserved),
                lost == sum_over(object_keys.take(k as int).to_set(), self@.objects, w_lost),
            decreases object_keys.len() - k,
        {
            let (_, object) = self.objects.entry_at(k);
            proof {
                lemma_sum_next(object_keys, self@.objects, w_available, k as int);
                lemma_sum_next(object_keys, self@.objects, w_reserved, k as int);
                lemma_sum_next(object_keys, self@.objects, w_lost, k as int);
            }
            match object.state {
                ObjectState::Available => {
                    available = available + 1;
                },
                ObjectState::Reserved => {
                    reserved = reserved + 1;
                },
                ObjectState::Lost => {
                    lost = lost + 1;
                },
                _ => {},
            }
            k += 1;
        }
        HealthCounts {
            tasks: self.tasks.len(),
            runnable,
            running,
            succeeded,
            failed,
            objects: self.objects.len(),
            available,
            reserved,
            lost,
            workers: self.workers.len(),
            retries_total: self.retries_total,
            failures_total: self.failures_total,
        }
    }
}

pub(crate) proof fn lemma_same_array(a: [u8; 32], b: [u8; 32])
    requires
        a@ == b@,
    ensures
        a == b,
{
    assert forall|i: int| 0 <= i < 32 implies a[i] == b[i] by {
        assert(a@[i] == b@[i]);
    }
    assert(a =~= b);
}

/// What a report of success says.
pub open spec fn completion_view(report: TaskCompletion) -> CompletionModel {
    CompletionModel {
        fence: report.fence,
        output_id: report.output_id,
        codec: report.codec,
        size_bytes: report.size_bytes,
        checksum: report.checksum,
        location: report.location@,
        bytes: shared_view(report.bytes),
    }
}

/// The digest of the bytes that came with a report.
pub open spec fn inline_digest(report: TaskCompletion) -> Seq<u8> {
    match report.bytes {
        Some(bytes) => blake3_digest(bytes@),
        None => Seq::empty(),
    }
}

/// The answer to a request for work: an unknown worker is refused, and
/// otherwise the worker gets the task that the model assigns, if any.
pub open spec fn assignment_met(
    before: Model,
    after: Model,
    node: NodeId,
    now: u64,
    lease: LeaseId,
    r: Result<Option<TaskAssignment>, Error>,
) -> bool {
    if !before.workers.contains_key(node) {
        r matches Err(error) && error@ == ErrorModel::StaleFence && after == before
    } else {
        let (next, got) = before.assigned_next(node, now, lease);
        &&& after == next
        &&& match got {
            Some(id) => r matches Ok(Some(assignment)) && assignment_of(assignment, next.tasks[id], lease),
            None => r matches Ok(None),
        }
    }
}

/// The assignment tells a worker everything it needs to run the task.
pub open spec fn assignment_of(assignment: TaskAssignment, task: TaskModel, lease: LeaseId) -> bool {
    &&& assignment.fence.task_id == task.id
    &&& assignment.fence.attempt == task.attempt
    &&& assignment.fence.lease_id == lease
    &&& assignment.operation@ == task.operation
    &&& args_model(assignment.args@) == task.args
    &&& assignment.output_id == task.output
    &&& assignment.resources@ == task.resources
}

impl TaskRecord {
    fn assignment(&self, lease: LeaseId) -> (r: TaskAssignment)
        ensures
            assignment_of(r, self@, lease),
    {
        TaskAssignment {
            fence: TaskFence { task_id: self.id, attempt: self.attempt, lease_id: lease },
            operation: self.operation.clone(),
            args: clone_args(&self.args),
            output_id: self.output,
            resources: self.resources.clone(),
        }
    }
}

spec fn arg_owned(s: Model, node: Option<NodeId>, arg: ArgModel) -> bool {
    arg matches ArgModel::Object(dep) && s.objects.contains_key(dep) && match node {
        Some(node) => s.objects[dep].owner == Some(node),
        None => s.objects[dep].owner is Some,
    }
}

/// The answer to a registration.
pub open spec fn registration_met(
    before: Model,
    after: Model,
    request: RegisterModel,
    session: WorkerSessionId,
    now: u64,
    lease_ms: u64,
    r: Result<WorkerIdentity, Error>,
) -> bool {
    match before.registered(request, session, now, lease_ms) {
        Ok((next, identity)) => r == Ok::<WorkerIdentity, Error>(identity) && after == next,
        Err(error) => r matches Err(e) && e@ == error && after == before,
    }
}

/// What a worker offers when it registers.
pub open spec fn register_view(request: RegisterWorker) -> RegisterModel {
    RegisterModel {
        node_id: request.node_id,
        worker_epoch: request.worker_epoch,
        advertise_addr: request.advertise_addr@,
        resources: request.resources@,
        slots: request.slots,
        operations: descriptors_model(request.operations@),
    }
}

/// The answer to a put of `bytes`, whose digest is `digest`.
pub open spec fn put_met(
    before: Model,
    after: Model,
    codec: Codec,
    bytes: Seq<u8>,
    digest: [u8; 32],
    r: Result<PutOutcome, Error>,
) -> bool {
    match before.admitted(ObjectId(digest), codec, bytes.len() as u64, digest, Some(bytes)) {
        Verdict::Refused(error) => r matches Err(e) && e@ == error && after == before,
        Verdict::Next(next) => {
            &&& after == next
            &&& r matches Ok(outcome)
            &&& outcome.id == ObjectId(digest)
            &&& outcome.checksum == digest
            &&& outcome.stored@ == bytes
        },
        Verdict::Settling(_) => false,
    }
}

/// The answer to a submission under the ids `id` and `output`.
pub open spec fn submit_met(
    before: Model,
    after: Model,
    operation: KeyModel,
    args: Seq<ArgModel>,
    resources: Map<Seq<char>, int>,
    max_attempts: u32,
    id: TaskId,
    output: ObjectId,
    r: Result<(TaskId, ObjectId), Error>,
) -> bool {
    match before.submitted(operation, args, resources, max_attempts, id, output) {
        Verdict::Refused(error) => r matches Err(e) && e@ == error && after == before,
        Verdict::Next(next) => r == Ok::<(TaskId, ObjectId), Error>((id, output)) && after == next,
        Verdict::Settling(_) => false,
    }
}

/// The answer to a request for an object.
pub open spec fn resolved(s: Model, id: ObjectId, r: Result<ObjectPayload, Error>) -> bool {
    match s.unresolved(id) {
        Some(error) => r matches Err(e) && e@ == error,
        None => {
            let object = s.objects[id];
            &&& r matches Ok(payload)
            &&& payload.id == id
            &&& object.codec == Some(payload.codec)
            &&& object.size_bytes == Some(payload.size_bytes)
            &&& object.checksum == Some(payload.checksum)
            &&& object.location == Some(payload.location@)
            &&& shared_view(payload.bytes) == object.bytes
            &&& payload.arena is None
        },
    }
}

/// `std::sync::Arc::<[u8]>::from`: a shared slice with the bytes of the vector.
#[verifier::external_body]
pub(crate) fn shared_bytes(bytes: Vec<u8>) -> (r: Arc<[u8]>)
    ensures
        r@ == bytes@,
{
    Arc::from(bytes)
}

fn clone_shared(bytes: &Option<Arc<[u8]>>) -> (r: Option<Arc<[u8]>>)
    ensures
        r == *bytes,
{
    match bytes {
        Some(shared) => Some(shared.clone()),
        None => None,
    }
}

impl TaskRecord {
    /// Whether the task takes the object as an argument.
    fn takes(&self, id: &ObjectId) -> (r: bool)
        ensures
            r == self@.depends_on(*id),
    {
        let ghost args = self@.args;
        let mut i: usize = 0;
        while i < self.args.len()
            invariant
                i <= self.args@.len(),
                args == args_model(self.args@),
                forall|j: int| 0 <= j < i ==> args[j] != ArgModel::Object(*id),
            decreases self.args@.len() - i,
        {
            assert(args[i as int] == self.args@[i as int]@);
            if let TaskArg::Object(dep) = &self.args[i] {
                if *dep == *id {
                    assert(args.contains(ArgModel::Object(*id)));
                    return true;
                }
            }
            i += 1;
        }
        false
    }
}

pub(crate) proof fn lemma_push_contains<A>(seq: Seq<A>, a: A)
    ensures
        forall|x: A| #[trigger] seq.push(a).contains(x) <==> seq.contains(x) || x == a,
{
    assert forall|x: A| #[trigger] seq.push(a).contains(x) <==> seq.contains(x) || x == a by {
        let grown = seq.push(a);
        assert(grown[seq.len() as int] == a);
        if seq.contains(x) {
            let i = seq.index_of(x);
            assert(grown[i] == x);
        }
        if grown.contains(x) {
            let i = grown.index_of(x);
            if i < seq.len() {
                assert(seq[i] == x);
            }
        }
    }
}

proof fn lemma_lost_same(a: Map<ObjectId, ObjectModel>, b: Map<ObjectId, ObjectModel>, node: NodeId)
    requires
        a.dom().finite(),
        a.dom() == b.dom(),
        forall|o: ObjectId| #[trigger] a.contains_key(o) ==> b[o].owner == a[o].owner && (
        b[o].state == ObjectState::Available <==> a[o].state == ObjectState::Available),
    ensures
        sum(a, lost_weight(node)) == sum(b, lost_weight(node)),
{
    lemma_sum_same(a, b, lost_weight(node));
}

spec fn overdue_among(s: Model, now: u64, ids: Seq<TaskId>, output: ObjectId) -> bool {
    exists|id: TaskId| #[trigger] s.overdue(id, now) && ids.contains(id) && s.tasks[id].output == output
}

/// The object is there, is not pending, and no live task needs it.
spec fn droppable(s: Model, id: ObjectId) -> bool {
    s.objects.contains_key(id) && s.objects[id].state != ObjectState::Reserved && !s.in_use(id)
}

spec fn arg_pending(s: Model, arg: ArgModel) -> bool {
    arg matches ArgModel::Object(dep) && s.objects.contains_key(dep) && s.objects[dep].state
        == ObjectState::Reserved
}

spec fn arg_ready(s: Model, arg: ArgModel) -> bool {
    arg matches ArgModel::Object(dep) ==> s.dep_ready(dep)
}

spec fn arg_hopeless(s: Model, arg: ArgModel) -> bool {
    arg matches ArgModel::Object(dep) && s.dep_hopeless(dep)
}

/// A result and a state after are what the verdict on the state before says.
pub open spec fn meets(verdict: Verdict, before: Model, after: Model, result: Result<(), ErrorModel>) -> bool {
    match verdict {
        Verdict::Refused(error) => result == Err::<(), ErrorModel>(error) && after == before,
        Verdict::Next(next) => result is Ok && after == next,
        Verdict::Settling(mid) => result is Ok && mid.settles_to(after),
    }
}

} // verus!
