//! The records of the in-process runtime: its objects, actors, tasks and workers.
//!
//! Times are milliseconds that the caller reads from its clock.
use vstd::prelude::*;
use vstd::string::*;

use crate::common::{ActorID, ActorState, ObjectID, TaskID, TaskState};
use crate::node::NodeID;
use crate::sums::{lemma_sum_add, lemma_sum_ends, lemma_sum_next, lemma_sum_range, sum, sum_over};
use crate::table::{Table, TableKey};
use crate::text::same_text;

verus! {

/// With more tasks than this on record, those that are over are dropped.
pub const MAX_TASKS: usize = 100_000;

impl TableKey for usize {
    fn same(&self, other: &Self) -> (r: bool) {
        *self == *other
    }
}

#[derive(Debug, Clone, Copy)]
pub struct ObjectMeta {
    pub id: ObjectID,
    pub size_bytes: usize,
    pub created_at: u64,
    pub owner: Option<TaskID>,
    pub owner_node: Option<NodeID>,
}

impl View for ObjectMeta {
    type V = ObjectMeta;

    open spec fn view(&self) -> ObjectMeta {
        *self
    }
}

#[derive(Debug)]
pub struct ActorMeta {
    pub id: ActorID,
    pub name: String,
    pub state: ActorState,
    pub owner_node: Option<NodeID>,
    pub created_at: u64,
    pub pending_tasks: usize,
    pub completed_tasks: usize,
}

impl View for ActorMeta {
    type V = ActorMeta;

    open spec fn view(&self) -> ActorMeta {
        *self
    }
}

impl Clone for ActorMeta {
    fn clone(&self) -> (r: Self)
        ensures
            r == *self,
    {
        ActorMeta {
            id: self.id,
            name: self.name.clone(),
            state: self.state,
            owner_node: self.owner_node,
            created_at: self.created_at,
            pending_tasks: self.pending_tasks,
            completed_tasks: self.completed_tasks,
        }
    }
}

#[derive(Debug, Clone, Copy)]
pub struct TaskMeta {
    pub id: TaskID,
    pub state: TaskState,
    pub created_at: u64,
    pub finished_at: Option<u64>,
    pub output: Option<ObjectID>,
}

impl View for TaskMeta {
    type V = TaskMeta;

    open spec fn view(&self) -> TaskMeta {
        *self
    }
}

#[derive(Debug, Clone, Copy)]
pub struct WorkerMeta {
    pub id: usize,
    pub busy: bool,
    pub tasks_done: usize,
}

impl View for WorkerMeta {
    type V = WorkerMeta;

    open spec fn view(&self) -> WorkerMeta {
        *self
    }
}

/// The values of a map, one for each of these keys.
pub open spec fn lists_by<K, V>(map: Map<K, V>, keys: Seq<K>, values: Seq<V>) -> bool {
    &&& keys.no_duplicates()
    &&& keys.to_set() == map.dom()
    &&& keys.len() == values.len()
    &&& forall|i: int| 0 <= i < keys.len() ==> #[trigger] values[i] == map[keys[i]]
}

/// The values of a map, each once, in some order.
pub open spec fn lists<K, V>(map: Map<K, V>, values: Seq<V>) -> bool {
    exists|keys: Seq<K>| #[trigger] lists_by(map, keys, values)
}

fn values_of<K: TableKey, T: View<V = T> + Clone>(table: &Table<K, T>) -> (r: Vec<T>)
    requires
        table.wf(),
        forall|a: T| (#[trigger] a@) == a,
        forall|a: T, b: T| #[trigger] cloned(a, b) ==> a == b,
    ensures
        lists(table@, r@),
{
    let mut r: Vec<T> = Vec::new();
    let mut i: usize = 0;
    while i < table.len()
        invariant
            table.wf(),
            i <= table.keys().len(),
            r@.len() == i,
            forall|a: T| (#[trigger] a@) == a,
            forall|a: T, b: T| #[trigger] cloned(a, b) ==> a == b,
            forall|j: int| 0 <= j < i ==> #[trigger] r@[j] == table@[table.keys()[j]],
        decreases table.keys().len() - i,
    {
        let (_, value) = table.entry_at(i);
        let copy = value.clone();
        assert(cloned(*value, copy));
        r.push(copy);
        i += 1;
    }
    proof {
        table.lemma_keys();
        assert(lists_by(table@, table.keys(), r@));
    }
    r
}

/// The view of a [`Gcs`].
#[verifier::ext_equal]
pub struct GcsModel {
    pub objects: Map<ObjectID, ObjectMeta>,
    pub actors: Map<ActorID, ActorMeta>,
    pub tasks: Map<TaskID, TaskMeta>,
    pub workers: Map<usize, WorkerMeta>,
}

/// The tasks that are not over.
pub open spec fn live_tasks(tasks: Map<TaskID, TaskMeta>) -> Map<TaskID, TaskMeta> {
    Map::new(|id: TaskID| tasks.contains_key(id) && !tasks[id].state.is_over(), |id: TaskID| tasks[id])
}

impl GcsModel {
    /// Each record is found under its own id.
    pub open spec fn wf(self) -> bool {
        &&& self.tasks.dom().finite()
        &&& forall|id: ObjectID| #[trigger] self.objects.contains_key(id) ==> self.objects[id].id == id
        &&& forall|id: ActorID| #[trigger] self.actors.contains_key(id) ==> self.actors[id].id == id
        &&& forall|id: TaskID| #[trigger] self.tasks.contains_key(id) ==> self.tasks[id].id == id
        &&& forall|id: usize| #[trigger] self.workers.contains_key(id) ==> self.workers[id].id == id
    }

    pub open spec fn with_task(self, meta: TaskMeta) -> GcsModel {
        let tasks = self.tasks.insert(meta.id, meta);
        GcsModel {
            tasks: if tasks.dom().len() > MAX_TASKS {
                live_tasks(tasks)
            } else {
                tasks
            },
            ..self
        }
    }

    pub open spec fn with_actor_state(self, id: ActorID, state: ActorState) -> GcsModel {
        if self.actors.contains_key(id) {
            GcsModel { actors: self.actors.insert(id, ActorMeta { state, ..self.actors[id] }), ..self }
        } else {
            self
        }
    }

    /// A call of the actor began or, if `completed`, ended.
    pub open spec fn with_actor_task(self, id: ActorID, completed: bool) -> GcsModel {
        if self.actors.contains_key(id) {
            let actor = self.actors[id];
            let next = if completed {
                ActorMeta {
                    completed_tasks: (actor.completed_tasks + 1) as usize,
                    pending_tasks: if actor.pending_tasks > 0 {
                        (actor.pending_tasks - 1) as usize
                    } else {
                        0
                    },
                    ..actor
                }
            } else {
                ActorMeta { pending_tasks: (actor.pending_tasks + 1) as usize, ..actor }
            };
            GcsModel { actors: self.actors.insert(id, next), ..self }
        } else {
            self
        }
    }

    pub open spec fn with_task_state(
        self,
        id: TaskID,
        state: TaskState,
        output: Option<ObjectID>,
        now: u64,
    ) -> GcsModel {
        if self.tasks.contains_key(id) {
            let task = self.tasks[id];
            let next = TaskMeta {
                state,
                finished_at: if state.is_over() {
                    Some(now)
                } else {
                    task.finished_at
                },
                output: if output is Some {
                    output
                } else {
                    task.output
                },
                ..task
            };
            GcsModel { tasks: self.tasks.insert(id, next), ..self }
        } else {
            self
        }
    }

    /// The worker took up a task or, if not `busy`, is done with one.
    pub open spec fn with_worker_busy(self, id: usize, busy: bool) -> GcsModel {
        if self.workers.contains_key(id) {
            let worker = self.workers[id];
            let next = WorkerMeta {
                busy,
                tasks_done: if busy {
                    worker.tasks_done
                } else {
                    (worker.tasks_done + 1) as usize
                },
                ..worker
            };
            GcsModel { workers: self.workers.insert(id, next), ..self }
        } else {
            self
        }
    }
}

/// Counts tasks in a state.
pub open spec fn in_state(state: TaskState) -> spec_fn(TaskMeta) -> int {
    |task: TaskMeta|
        if task.state == state {
            1int
        } else {
            0int
        }
}

/// Counts busy workers.
pub open spec fn busy_weight() -> spec_fn(WorkerMeta) -> int {
    |worker: WorkerMeta|
        if worker.busy {
            1int
        } else {
            0int
        }
}

/// Every task on record is counted in exactly one state.
pub proof fn law_states_add_up(tasks: Map<TaskID, TaskMeta>)
    requires
        tasks.dom().finite(),
    ensures
        sum(tasks, in_state(TaskState::Pending)) + sum(tasks, in_state(TaskState::Running)) + sum(
            tasks,
            in_state(TaskState::Finished),
        ) + sum(tasks, in_state(TaskState::Failed)) + sum(tasks, in_state(TaskState::Cancelled)) == tasks.dom().len(),
{
    let pending = in_state(TaskState::Pending);
    let running = in_state(TaskState::Running);
    let finished = in_state(TaskState::Finished);
    let failed = in_state(TaskState::Failed);
    let cancelled = in_state(TaskState::Cancelled);
    let two = |task: TaskMeta| pending(task) + running(task);
    let three = |task: TaskMeta| two(task) + finished(task);
    let four = |task: TaskMeta| three(task) + failed(task);
    let all = |task: TaskMeta| four(task) + cancelled(task);
    lemma_sum_add(tasks, pending, running, two);
    lemma_sum_add(tasks, two, finished, three);
    lemma_sum_add(tasks, three, failed, four);
    lemma_sum_add(tasks, four, cancelled, all);
    assert forall|id: TaskID| #[trigger] tasks.contains_key(id) implies 1 <= all(tasks[id]) <= 1 by {}
    lemma_sum_range(tasks, all, 1, 1);
}

/// A task that is not over is never dropped from the records.
pub proof fn law_live_tasks_are_kept(m: GcsModel, meta: TaskMeta, id: TaskID)
    requires
        m.tasks.contains_key(id),
        !m.tasks[id].state.is_over(),
        id != meta.id,
    ensures
        m.with_task(meta).tasks.contains_key(id),
        m.with_task(meta).tasks[id] == m.tasks[id],
{
}

/// Tasks are dropped only where too many are on record, and then only those that
/// are over.
pub proof fn law_records_are_bounded(m: GcsModel, meta: TaskMeta)
    requires
        m.wf(),
    ensures
        m.with_task(meta).wf(),
        m.with_task(meta).tasks.dom().len() <= MAX_TASKS || m.with_task(meta).tasks == live_tasks(
            m.tasks.insert(meta.id, meta),
        ),
{
    let tasks = m.tasks.insert(meta.id, meta);
    assert(live_tasks(tasks).dom().subset_of(tasks.dom()));
    vstd::set_lib::lemma_len_subset(live_tasks(tasks).dom(), tasks.dom());
}

/// A task that is pending or running stays on record, as it is, whatever is added;
/// so does every other unless more than a hundred thousand would be on record, and
/// then none that is over stays.
pub proof fn law_only_finished_tasks_are_dropped(m: GcsModel, meta: TaskMeta, id: TaskID)
    requires
        m.tasks.contains_key(id),
        id != meta.id,
    ensures
        m.tasks[id].state == TaskState::Pending || m.tasks[id].state == TaskState::Running ==> m.with_task(
            meta,
        ).tasks.contains_key(id) && m.with_task(meta).tasks[id] == m.tasks[id],
        m.tasks.insert(meta.id, meta).dom().len() <= 100_000 ==> m.with_task(meta).tasks.contains_key(id)
            && m.with_task(meta).tasks[id] == m.tasks[id],
        m.tasks.insert(meta.id, meta).dom().len() > 100_000 && m.tasks[id].state != TaskState::Pending
            && m.tasks[id].state != TaskState::Running ==> !m.with_task(meta).tasks.contains_key(id),
        meta.state == TaskState::Pending ==> m.with_task(meta).tasks.contains_key(meta.id) && m.with_task(
            meta,
        ).tasks[meta.id] == meta,
{
}

/// A change of state is recorded under the task's id: the time of its end when it is
/// finished, failed or cancelled, and an output where one is given. Nothing else
/// changes, and a task that is not on record does not get there.
pub proof fn law_task_state_is_recorded(m: GcsModel, id: TaskID, state: TaskState, output: Option<ObjectID>, now: u64)
    ensures
        !m.tasks.contains_key(id) ==> m.with_task_state(id, state, output, now) == m,
        m.tasks.contains_key(id) ==> {
            let next = m.with_task_state(id, state, output, now);
            &&& next == GcsModel { tasks: m.tasks.insert(id, next.tasks[id]), ..m }
            &&& next.tasks[id].id == m.tasks[id].id
            &&& next.tasks[id].state == state
            &&& next.tasks[id].created_at == m.tasks[id].created_at
            &&& state == TaskState::Pending || state == TaskState::Running ==> next.tasks[id].finished_at
                == m.tasks[id].finished_at
            &&& state == TaskState::Finished || state == TaskState::Failed || state == TaskState::Cancelled
                ==> next.tasks[id].finished_at == Some(now)
            &&& output is Some ==> next.tasks[id].output == output
            &&& output is None ==> next.tasks[id].output == m.tasks[id].output
        },
{
}

/// A worker that took up a task and is done with it has one more task to its count.
pub proof fn law_finished_work_is_counted_once(m: GcsModel, id: usize)
    requires
        m.workers.contains_key(id),
        m.workers[id].tasks_done < usize::MAX,
    ensures
        m.with_worker_busy(id, true).workers[id].busy,
        m.with_worker_busy(id, true).workers[id].tasks_done == m.workers[id].tasks_done,
        ({
            let done = m.with_worker_busy(id, true).with_worker_busy(id, false);
            &&& !done.workers[id].busy
            &&& done.workers[id].tasks_done == m.workers[id].tasks_done + 1
            &&& done == GcsModel { workers: m.workers.insert(id, done.workers[id]), ..m }
        }),
{
}

/// A call of an actor that began and ended is one more completed, and none more is
/// pending than before.
pub proof fn law_actor_calls_are_counted_once(m: GcsModel, id: ActorID)
    requires
        m.actors.contains_key(id),
        m.actors[id].pending_tasks < usize::MAX,
        m.actors[id].completed_tasks < usize::MAX,
    ensures
        m.with_actor_task(id, false).actors[id].pending_tasks == m.actors[id].pending_tasks + 1,
        m.with_actor_task(id, false).actors[id].completed_tasks == m.actors[id].completed_tasks,
        ({
            let done = m.with_actor_task(id, false).with_actor_task(id, true);
            &&& done.actors[id].pending_tasks == m.actors[id].pending_tasks
            &&& done.actors[id].completed_tasks == m.actors[id].completed_tasks + 1
            &&& done.actors[id].state == m.actors[id].state
        }),
{
}

#[derive(Debug)]
pub struct Gcs {
    objects: Table<ObjectID, ObjectMeta>,
    actors: Table<ActorID, ActorMeta>,
    tasks: Table<TaskID, TaskMeta>,
    workers: Table<usize, WorkerMeta>,
}

impl View for Gcs {
    type V = GcsModel;

    closed spec fn view(&self) -> GcsModel {
        GcsModel { objects: self.objects@, actors: self.actors@, tasks: self.tasks@, workers: self.workers@ }
    }
}

impl Gcs {
    pub closed spec fn tables_ok(&self) -> bool {
        &&& self.objects.wf()
        &&& self.actors.wf()
        &&& self.tasks.wf()
        &&& self.workers.wf()
    }

    pub open spec fn wf(&self) -> bool {
        self.tables_ok() && self@.wf()
    }

    pub fn new() -> (r: Self)
        ensures
            r.wf(),
            r@ == (GcsModel {
                objects: Map::empty(),
                actors: Map::empty(),
                tasks: Map::empty(),
                workers: Map::empty(),
            }),
    {
        let r = Gcs {
            objects: Table::new(),
            actors: Table::new(),
            tasks: Table::new(),
            workers: Table::new(),
        };
        proof {
            r.tasks.lemma_keys();
        }
        r
    }

    pub fn add_object(&mut self, meta: ObjectMeta)
        requires
            old(self).wf(),
        ensures
            final(self).wf(),
            final(self)@ == (GcsModel { objects: old(self)@.objects.insert(meta.id, meta), ..old(self)@ }),
    {
        self.objects.insert(meta.id, meta);
    }

    pub fn get_object(&self, id: ObjectID) -> (r: Option<ObjectMeta>)
        requires
            self.wf(),
        ensures
            r == self@.objects.get(id),
    {
        match self.objects.get(&id) {
            Some(meta) => Some(*meta),
            None => None,
        }
    }

    pub fn remove_object(&mut self, id: ObjectID)
        requires
            old(self).wf(),
        ensures
            final(self).wf(),
            final(self)@ == (GcsModel { objects: old(self)@.objects.remove(id), ..old(self)@ }),
    {
        self.objects.remove(&id);
    }

    pub fn objects(&self) -> (r: Vec<ObjectMeta>)
        requires
            self.wf(),
        ensures
            lists(self@.objects, r@),
    {
        values_of(&self.objects)
    }

    pub fn add_actor(&mut self, meta: ActorMeta)
        requires
            old(self).wf(),
        ensures
            final(self).wf(),
            final(self)@ == (GcsModel { actors: old(self)@.actors.insert(meta.id, meta), ..old(self)@ }),
    {
        self.actors.insert(meta.id, meta);
    }

    pub fn get_actor(&self, id: ActorID) -> (r: Option<ActorMeta>)
        requires
            self.wf(),
        ensures
            r == self@.actors.get(id),
    {
        match self.actors.get(&id) {
            Some(meta) => Some(meta.clone()),
            None => None,
        }
    }

    /// An actor with this name. Names need not be unique.
    pub fn get_actor_by_name(&self, name: &str) -> (r: Option<ActorMeta>)
        requires
            self.wf(),
        ensures
            match r {
                Some(meta) => self@.actors.contains_key(meta.id) && meta == self@.actors[meta.id] && meta.name@ == name@,
                None => forall|id: ActorID| #[trigger]
                    self@.actors.contains_key(id) ==> self@.actors[id].name@ != name@,
            },
    {
        let mut i: usize = 0;
        while i < self.actors.len()
            invariant
                self.wf(),
                i <= self.actors.keys().len(),
                forall|j: int| 0 <= j < i ==> self.actors@[#[trigger] self.actors.keys()[j]].name@ != name@,
            decreases self.actors.keys().len() - i,
        {
            let (_, meta) = self.actors.entry_at(i);
            if same_text(meta.name.as_str(), name) {
                return Some(meta.clone());
            }
            i += 1;
        }
        proof {
            self.actors.lemma_keys();
            assert forall|id: ActorID| #[trigger] self@.actors.contains_key(id) implies self@.actors[id].name@
                != name@ by {
                assert(self.actors.keys().contains(id));
                let j = self.actors.keys().index_of(id);
                assert(self.actors.keys()[j] == id);
            }
        }
        None
    }

    pub fn set_actor_state(&mut self, id: ActorID, state: ActorState)
        requires
            old(self).wf(),
        ensures
            final(self).wf(),
            final(self)@ == old(self)@.with_actor_state(id, state),
    {
        let ghost before = self@;
        if let Some(actor) = self.actors.get_mut(&id) {
            actor.state = state;
        }
        assert(self@ =~= before.with_actor_state(id, state));
    }

    /// Counts a call of an actor: as begun or, if `completed`, as ended.
    pub fn record_actor_task(&mut self, id: ActorID, completed: bool)
        requires
            old(self).wf(),
            old(self)@.actors.contains_key(id) ==> old(self)@.actors[id].pending_tasks < usize::MAX && old(
                self,
            )@.actors[id].completed_tasks < usize::MAX,
        ensures
            final(self).wf(),
            final(self)@ == old(self)@.with_actor_task(id, completed),
    {
        let ghost before = self@;
        if let Some(actor) = self.actors.get_mut(&id) {
            if completed {
                actor.completed_tasks = actor.completed_tasks + 1;
                if actor.pending_tasks > 0 {
                    actor.pending_tasks = actor.pending_tasks - 1;
                }
            } else {
                actor.pending_tasks = actor.pending_tasks + 1;
            }
        }
        assert(self@ =~= before.with_actor_task(id, completed));
    }

    pub fn actors(&self) -> (r: Vec<ActorMeta>)
        requires
            self.wf(),
        ensures
            lists(self@.actors, r@),
    {
        values_of(&self.actors)
    }

    /// Puts a task on record. Where that makes too many, those that are over are
    /// dropped.
    pub fn add_task(&mut self, meta: TaskMeta)
        requires
            old(self).wf(),
        ensures
            final(self).wf(),
            final(self)@ == old(self)@.with_task(meta),
    {
        let ghost before = self@;
        self.tasks.insert(meta.id, meta);
        assert(self@.workers == before.workers);
        proof {
            self.tasks.lemma_keys();
        }
        if self.tasks.len() > MAX_TASKS {
            self.drop_finished();
        }
    }

    fn drop_finished(&mut self)
        requires
            old(self).wf(),
        ensures
            final(self).wf(),
            final(self)@ == (GcsModel { tasks: live_tasks(old(self)@.tasks), ..old(self)@ }),
    {
        let ghost before = self.tasks@;
        let mut live: Table<TaskID, TaskMeta> = Table::new();
        let mut i: usize = 0;
        proof {
            self.tasks.lemma_keys();
        }
        while i < self.tasks.len()
            invariant
                self.tasks.wf(),
                live.wf(),
                i <= self.tasks.keys().len(),
                self.tasks.keys().no_duplicates(),
                forall|id: TaskID| #[trigger]
                    live@.contains_key(id) <==> self.tasks.keys().take(i as int).contains(id)
                        && !self.tasks@[id].state.is_over(),
                forall|id: TaskID| #[trigger] live@.contains_key(id) ==> live@[id] == self.tasks@[id],
            decreases self.tasks.keys().len() - i,
        {
            let (id, meta) = self.tasks.entry_at(i);
            let ghost seen = self.tasks.keys().take(i as int);
            let ghost kept = live@;
            if matches!(meta.state, TaskState::Pending | TaskState::Running) {
                live.insert(*id, *meta);
            }
            proof {
                let grown = self.tasks.keys().take(i + 1);
                assert(grown =~= seen.push(*id));
                assert forall|other: TaskID| #[trigger] live@.contains_key(other) <==> grown.contains(other)
                    && !self.tasks@[other].state.is_over() by {
                    assert(grown.contains(other) <==> seen.contains(other) || other == *id) by {
                        if seen.contains(other) {
                            let j = seen.index_of(other);
                            assert(grown[j] == other);
                        }
                        if other == *id {
                            assert(grown[i as int] == other);
                        }
                        if grown.contains(other) {
                            let j = grown.index_of(other);
                            if j < i {
                                assert(seen[j] == other);
                            }
                        }
                    }
                    assert(kept.contains_key(other) <==> seen.contains(other) && !self.tasks@[other].state.is_over());
                }
            }
            i += 1;
        }
        proof {
            self.tasks.lemma_keys();
            assert(self.tasks.keys().take(i as int) =~= self.tasks.keys());
            assert(live@ =~= live_tasks(before));
            live.lemma_keys();
        }
        let ghost workers = self@.workers;
        self.tasks = live;
        assert(self@.workers == workers);
    }

    pub fn set_task_state(&mut self, id: TaskID, state: TaskState, output: Option<ObjectID>, now: u64)
        requires
            old(self).wf(),
        ensures
            final(self).wf(),
            final(self)@ == old(self)@.with_task_state(id, state, output, now),
    {
        let ghost before = self@;
        if let Some(task) = self.tasks.get_mut(&id) {
            task.state = state;
            if matches!(state, TaskState::Finished | TaskState::Failed | TaskState::Cancelled) {
                task.finished_at = Some(now);
            }
            if output.is_some() {
                task.output = output;
            }
        }
        assert(self@ =~= before.with_task_state(id, state, output, now));
        proof {
            self.tasks.lemma_keys();
        }
    }

    pub fn tasks(&self) -> (r: Vec<TaskMeta>)
        requires
            self.wf(),
        ensures
            lists(self@.tasks, r@),
    {
        values_of(&self.tasks)
    }

    /// How many tasks are on record.
    pub fn task_count(&self) -> (r: usize)
        requires
            self.wf(),
        ensures
            r == self@.tasks.dom().len(),
    {
        self.tasks.len()
    }

    /// How many tasks on record are in a state.
    pub fn count_tasks(&self, state: TaskState) -> (r: usize)
        requires
            self.wf(),
        ensures
            r == sum(self@.tasks, in_state(state)),
    {
        let ghost weight = in_state(state);
        let ghost keys = self.tasks.keys();
        let mut count: usize = 0;
        let mut i: usize = 0;
        proof {
            self.tasks.lemma_keys();
            lemma_sum_ends(keys, self@.tasks, weight);
        }
        while i < self.tasks.len()
            invariant
                self.wf(),
                self.tasks.wf(),
                keys == self.tasks.keys(),
                keys.no_duplicates(),
                i <= keys.len(),
                count <= i,
                weight == in_state(state),
                count == sum_over(keys.take(i as int).to_set(), self@.tasks, weight),
            decreases keys.len() - i,
        {
            let (_, task) = self.tasks.entry_at(i);
            proof {
                lemma_sum_next(keys, self@.tasks, weight, i as int);
            }
            if task.state == state {
                count += 1;
            }
            i += 1;
        }
        count
    }

    /// How many workers are busy.
    pub fn count_busy(&self) -> (r: usize)
        requires
            self.wf(),
        ensures
            r == sum(self@.workers, busy_weight()),
            r <= self@.workers.dom().len(),
    {
        let ghost weight = busy_weight();
        let ghost keys = self.workers.keys();
        let mut count: usize = 0;
        let mut i: usize = 0;
        proof {
            self.workers.lemma_keys();
            lemma_sum_ends(keys, self@.workers, weight);
        }
        while i < self.workers.len()
            invariant
                self.wf(),
                self.workers.wf(),
                keys == self.workers.keys(),
                keys.no_duplicates(),
                i <= keys.len(),
                count <= i,
                weight == busy_weight(),
                count == sum_over(keys.take(i as int).to_set(), self@.workers, weight),
            decreases keys.len() - i,
        {
            let (_, worker) = self.workers.entry_at(i);
            proof {
                lemma_sum_next(keys, self@.workers, weight, i as int);
            }
            if worker.busy {
                count += 1;
            }
            i += 1;
        }
        count
    }

    pub fn add_worker(&mut self, id: usize)
        requires
            old(self).wf(),
        ensures
            final(self).wf(),
            final(self)@ == (GcsModel {
                workers: old(self)@.workers.insert(id, WorkerMeta { id, busy: false, tasks_done: 0 }),
                ..old(self)@
            }),
    {
        self.workers.insert(id, WorkerMeta { id, busy: false, tasks_done: 0 });
    }

    /// Notes that a worker is busy, or that it is done with a task.
    pub fn set_worker_busy(&mut self, id: usize, busy: bool)
        requires
            old(self).wf(),
            old(self)@.workers.contains_key(id) ==> old(self)@.workers[id].tasks_done < usize::MAX,
        ensures
            final(self).wf(),
            final(self)@ == old(self)@.with_worker_busy(id, busy),
    {
        if let Some(worker) = self.workers.get_mut(&id) {
            worker.busy = busy;
            if !busy {
                worker.tasks_done = worker.tasks_done + 1;
            }
        }
    }

    pub fn workers(&self) -> (r: Vec<WorkerMeta>)
        requires
            self.wf(),
        ensures
            lists(self@.workers, r@),
    {
        values_of(&self.workers)
    }
}

impl Default for Gcs {
    fn default() -> (r: Self)
        ensures
            r.wf(),
            r@ == (GcsModel {
                objects: Map::empty(),
                actors: Map::empty(),
                tasks: Map::empty(),
                workers: Map::empty(),
            }),
    {
        Gcs::new()
    }
}

/// An actor's state is what was last set; what else is on record of it, and every other
/// actor, stays. Nothing is set of an actor that is not on record.
pub proof fn law_actor_state_is_recorded(m: GcsModel, id: ActorID, state: ActorState)
    ensures
        m.actors.contains_key(id) ==> {
            let actor = m.with_actor_state(id, state).actors[id];
            &&& actor.state == state
            &&& actor.id == m.actors[id].id
            &&& actor.name == m.actors[id].name
            &&& actor.pending_tasks == m.actors[id].pending_tasks
            &&& actor.completed_tasks == m.actors[id].completed_tasks
        },
        m.with_actor_state(id, state).actors.dom() == m.actors.dom(),
        forall|other: ActorID| other != id ==> #[trigger] m.with_actor_state(id, state).actors[other]
            == m.actors[other],
        m.with_actor_state(id, state).tasks == m.tasks,
        m.with_actor_state(id, state).workers == m.workers,
        m.with_actor_state(id, state).objects == m.objects,
{
}

} // verus!
