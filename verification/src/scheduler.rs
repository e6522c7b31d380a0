//! The task queue of the in-process runtime: what is submitted, what waits for a
//! worker, what is cancelled, and what happens when a task has run.
//!
//! Threads, timers and the accounting of what workers can take on are left to the
//! caller, who says which worker, if any, takes a task.
use vstd::prelude::*;
use vstd::string::*;

use crate::common::{CrayonError, FaultModel, ObjectID, TaskID, TaskState};
use crate::gcs::{Gcs, GcsModel, TaskMeta};
use crate::object_store::{lease_met, Aftermath, ObjectStore, ProducerLease, StoreModel};
use crate::table::Table;

verus! {

/// A task that waits or runs. `F` is its code.
#[derive(Debug)]
pub struct Task<F> {
    pub id: TaskID,
    pub output_id: ObjectID,
    pub max_retries: u32,
    pub retries: u32,
    pub priority: u8,
    pub func: F,
}

/// What is known of a submitted task that is not over: whether it was cancelled,
/// whether a worker has begun on it, and the lease for its output.
#[derive(Debug, Clone, Copy)]
pub struct TaskControl {
    pub cancelled: bool,
    pub running: bool,
    pub output_id: ObjectID,
    pub lease: ProducerLease,
}

impl View for TaskControl {
    type V = TaskControl;

    open spec fn view(&self) -> TaskControl {
        *self
    }
}

/// What the caller does with a task.
#[derive(Debug)]
pub enum Dispatch<F> {
    /// Run it on this worker.
    Send(usize, Task<F>),
    /// It waits in the queue.
    Queued,
    /// It was cancelled and is over.
    Dropped,
}

/// What follows the run of a task.
#[derive(Debug)]
pub enum AfterRun<F> {
    Over,
    /// Put it back into the queue after so many milliseconds, unless it is
    /// cancelled meanwhile.
    Retry(Task<F>, u64),
}

/// How long a task waits before its `retries`-th new attempt: a tenth of a second,
/// doubled for each, up to sixty-four times that.
pub open spec fn retry_delay(retries: int) -> int {
    if retries <= 0 {
        100
    } else if retries == 1 {
        200
    } else if retries == 2 {
        400
    } else if retries == 3 {
        800
    } else if retries == 4 {
        1600
    } else if retries == 5 {
        3200
    } else {
        6400
    }
}

/// How long a task waits before its `retries`-th new attempt.
pub fn retry_delay_ms(retries: u32) -> (r: u64)
    ensures
        r == retry_delay(retries as int),
{
    match retries {
        0 => 100,
        1 => 200,
        2 => 400,
        3 => 800,
        4 => 1_600,
        5 => 3_200,
        _ => 6_400,
    }
}

/// Delays never shrink and are bounded.
pub proof fn law_retry_delay_grows(retries: int)
    ensures
        retry_delay(retries) <= retry_delay(retries + 1) <= 6400,
        0 < retries < 6 ==> retry_delay(retries + 1) == 2 * retry_delay(retries),
{
}

/// More urgent tasks come first.
pub open spec fn by_priority<F>(tasks: Seq<Task<F>>) -> bool {
    forall|i: int, j: int|
        0 <= i <= j < tasks.len() ==> (#[trigger] tasks[i]).priority >= (#[trigger] tasks[j]).priority
}

/// The tasks of a queue without those of one id.
pub open spec fn without_task<F>(tasks: Seq<Task<F>>, id: TaskID) -> Seq<Task<F>>
    decreases tasks.len(),
{
    if tasks.len() == 0 {
        Seq::empty()
    } else if tasks.last().id == id {
        without_task(tasks.drop_last(), id)
    } else {
        without_task(tasks.drop_last(), id).push(tasks.last())
    }
}

/// The records and the controls after a task is over.
pub open spec fn over(g: GcsModel, id: TaskID, state: TaskState, now: u64) -> GcsModel {
    g.with_task_state(id, state, None, now)
}

/// The controls after a worker has begun on a task, or is done with it for now.
pub open spec fn with_running(controls: Map<TaskID, TaskControl>, id: TaskID, running: bool) -> Map<
    TaskID,
    TaskControl,
> {
    if controls.contains_key(id) {
        controls.insert(id, TaskControl { running, ..controls[id] })
    } else {
        controls
    }
}

/// Tasks that wait for a worker, and the controls of all that are not over.
#[verifier::reject_recursive_types(F)]
#[derive(Debug)]
pub struct WorkerPool<F> {
    pending: Vec<Task<F>>,
    controls: Table<TaskID, TaskControl>,
    num_workers: usize,
}

impl<F> WorkerPool<F> {
    /// The queue.
    pub closed spec fn pending(&self) -> Seq<Task<F>> {
        self.pending@
    }

    pub closed spec fn controls(&self) -> Map<TaskID, TaskControl> {
        self.controls@
    }

    pub closed spec fn workers(&self) -> usize {
        self.num_workers
    }

    pub closed spec fn wf(&self) -> bool {
        self.controls.wf()
    }

    /// The pool knows the task, and that it was cancelled.
    pub open spec fn is_cancelled(&self, id: TaskID) -> bool {
        self.controls().contains_key(id) && self.controls()[id].cancelled
    }

    /// An empty queue for workers with the numbers up to `num_workers`, which are
    /// put on record.
    pub fn new(num_workers: usize, gcs: &mut Gcs) -> (r: Self)
        requires
            old(gcs).wf(),
        ensures
            final(gcs).wf(),
            final(gcs)@ == with_workers(old(gcs)@, num_workers as nat),
            r.wf(),
            r.pending() == Seq::<Task<F>>::empty(),
            r.controls() == Map::<TaskID, TaskControl>::empty(),
            r.workers() == num_workers,
    {
        let ghost before = gcs@;
        let mut worker: usize = 0;
        while worker < num_workers
            invariant
                gcs.wf(),
                worker <= num_workers,
                gcs@ == with_workers(before, worker as nat),
            decreases num_workers - worker,
        {
            gcs.add_worker(worker);
            worker += 1;
        }
        WorkerPool { pending: Vec::new(), controls: Table::new(), num_workers }
    }

    pub fn num_workers(&self) -> (r: usize)
        ensures
            r == self.workers(),
    {
        self.num_workers
    }

    fn cancelled(&self, id: &TaskID) -> (r: bool)
        requires
            self.wf(),
        ensures
            r == self.is_cancelled(*id),
    {
        match self.controls.get(id) {
            Some(control) => control.cancelled,
            None => false,
        }
    }

    fn terminal(&mut self, gcs: &mut Gcs, id: TaskID, state: TaskState, now: u64)
        requires
            old(self).wf(),
            old(gcs).wf(),
        ensures
            final(self).wf(),
            final(gcs).wf(),
            final(gcs)@ == over(old(gcs)@, id, state, now),
            final(self).pending() == old(self).pending(),
            final(self).controls() == old(self).controls().remove(id),
            final(self).workers() == old(self).workers(),
    {
        gcs.set_task_state(id, state, None, now);
        self.controls.remove(&id);
    }

    /// Takes in a task. `fits` says whether any worker could ever take it;
    /// `needs` is the text of what it needs; `worker` is the worker that takes it
    /// now, if one does.
    pub fn submit(
        &mut self,
        gcs: &mut Gcs,
        task: Task<F>,
        lease: ProducerLease,
        fits: bool,
        needs: &str,
        worker: Option<usize>,
        now: u64,
    ) -> (r: Result<Dispatch<F>, CrayonError>)
        requires
            old(self).wf(),
            old(gcs).wf(),
        ensures
            final(self).wf(),
            final(gcs).wf(),
            submitted(*old(self), *final(self), old(gcs)@, final(gcs)@, task, lease, fits, needs@, worker, now, r),
    {
        if !fits {
            let mut message = "task requires ".to_string();
            message.append(needs);
            message.append(" but no worker has enough total resources");
            return Err(CrayonError::TaskFailed(message));
        }
        self.controls.insert(
            task.id,
            TaskControl { cancelled: false, running: false, output_id: task.output_id, lease },
        );
        gcs.add_task(
            TaskMeta {
                id: task.id,
                state: TaskState::Pending,
                created_at: now,
                finished_at: None,
                output: Some(task.output_id),
            },
        );
        Ok(self.dispatch(gcs, task, worker, now))
    }

    /// Hands a task to the worker that takes it, or queues it. A task that was
    /// cancelled is over.
    pub fn dispatch(&mut self, gcs: &mut Gcs, task: Task<F>, worker: Option<usize>, now: u64) -> (r: Dispatch<F>)
        requires
            old(self).wf(),
            old(gcs).wf(),
        ensures
            final(self).wf(),
            final(gcs).wf(),
            final(self).workers() == old(self).workers(),
            if old(self).is_cancelled(task.id) {
                &&& r is Dropped
                &&& final(gcs)@ == over(old(gcs)@, task.id, TaskState::Cancelled, now)
                &&& final(self).controls() == old(self).controls().remove(task.id)
                &&& final(self).pending() == old(self).pending()
            } else {
                &&& final(gcs)@ == old(gcs)@
                &&& final(self).controls() == old(self).controls()
                &&& match worker {
                    Some(worker) => r == Dispatch::Send(worker, task) && final(self).pending() == old(self).pending(),
                    None => r is Queued && final(self).pending() == old(self).pending().push(task),
                }
            },
    {
        if self.cancelled(&task.id) {
            self.terminal(gcs, task.id, TaskState::Cancelled, now);
            return Dispatch::Dropped;
        }
        match worker {
            Some(worker) => Dispatch::Send(worker, task),
            None => {
                self.pending.push(task);
                Dispatch::Queued
            },
        }
    }

    /// Cancels a task. One that no worker has begun on leaves the queue, and
    /// whoever waits for its output hears of it at once. One that runs is not
    /// interrupted: what it produces is still handed in, but it is not tried again.
    /// A task that is not known, or over, is not cancelled.
    pub fn cancel_task<L>(&mut self, id: TaskID, store: &mut ObjectStore<L>, gcs: &mut Gcs, now: u64) -> (r: Option<
        Aftermath,
    >)
        requires
            old(self).wf(),
            old(store).wf(),
            old(gcs).wf(),
        ensures
            final(self).wf(),
            final(store).wf(),
            final(gcs).wf(),
            cancelled_in(*old(self), *final(self), old(store)@, final(store)@, old(gcs)@, final(gcs)@, id, now, r),
    {
        let mut control: TaskControl = match self.controls.get(&id) {
            Some(control) => *control,
            None => return None,
        };
        let ghost before = control;
        if control.running {
            control.cancelled = true;
            self.controls.insert(id, control);
            return Some(Aftermath { stale: None, spills: Vec::new() });
        }
        let error = CrayonError::TaskCancelled(id);
        let ghost reported: Option<Result<Vec<u8>, CrayonError>> = Some(Err(error));
        let ghost store_before = store@;
        let (kept, aftermath) = control.lease.fail(store, error, now);
        assert(lease_met(store_before, store@, before.lease, reported, None, now, (kept, aftermath)));
        control.cancelled = true;
        self.controls.insert(id, control);
        self.remove_pending(id);
        gcs.set_task_state(id, TaskState::Cancelled, Some(control.output_id), now);
        assert(cancel_reported(store_before, store@, before.lease, id, now, aftermath));
        Some(aftermath)
    }

    fn remove_pending(&mut self, id: TaskID)
        requires
            old(self).wf(),
        ensures
            final(self).wf(),
            final(self).pending() == without_task(old(self).pending(), id),
            final(self).controls() == old(self).controls(),
            final(self).workers() == old(self).workers(),
    {
        let ghost before = self.pending@;
        let mut i: usize = 0;
        let mut seen: Ghost<int> = Ghost(0);
        assert(before.take(0) =~= Seq::<Task<F>>::empty());
        assert(self.pending@ =~= without_task(before.take(0), id) + before.skip(0));
        while i < self.pending.len()
            invariant
                self.controls == old(self).controls,
                self.num_workers == old(self).num_workers,
                0 <= seen@ <= before.len(),
                i == without_task(before.take(seen@), id).len(),
                self.pending@ == without_task(before.take(seen@), id) + before.skip(seen@),
            decreases self.pending@.len() - i,
        {
            proof {
                assert(seen@ < before.len());
                assert(before.take(seen@ + 1).drop_last() =~= before.take(seen@));
                assert(self.pending@[i as int] == before[seen@]);
            }
            let ghost kept = without_task(before.take(seen@), id);
            if self.pending[i].id == id {
                self.pending.remove(i);
                assert(self.pending@ =~= kept + before.skip(seen@ + 1));
            } else {
                i += 1;
                assert(self.pending@ =~= kept.push(before[seen@]) + before.skip(seen@ + 1));
            }
            proof {
                seen@ = seen@ + 1;
            }
        }
        proof {
            assert(before.skip(seen@).len() == 0);
            assert(before.take(seen@) =~= before);
            assert(self.pending@ =~= without_task(before, id));
        }
    }

    /// Takes every task out of the queue, the most urgent first, for the caller to
    /// dispatch anew. Tasks that are equally urgent come in some order.
    pub fn pump_pending(&mut self) -> (r: Vec<Task<F>>)
        requires
            old(self).wf(),
        ensures
            final(self).wf(),
            final(self).pending() == Seq::<Task<F>>::empty(),
            final(self).controls() == old(self).controls(),
            final(self).workers() == old(self).workers(),
            by_priority(r@),
            r@.to_multiset() == old(self).pending().to_multiset(),
    {
        let ghost before = self.pending@;
        let mut r: Vec<Task<F>> = Vec::new();
        proof {
            broadcast use vstd::seq_lib::group_to_multiset_ensures;

            assert(r@.to_multiset().add(self.pending@.to_multiset()) =~= before.to_multiset());
        }
        while self.pending.len() > 0
            invariant
                self.controls == old(self).controls,
                self.num_workers == old(self).num_workers,
                by_priority(r@),
                forall|i: int, j: int|
                    0 <= i < r@.len() && 0 <= j < self.pending@.len() ==> (#[trigger] r@[i]).priority >= (
                    #[trigger] self.pending@[j]).priority,
                r@.to_multiset().add(self.pending@.to_multiset()) == before.to_multiset(),
            decreases self.pending@.len(),
        {
            let best = most_urgent(&self.pending);
            let ghost queue = self.pending@;
            let ghost taken = r@;
            let task = self.pending.remove(best);
            r.push(task);
            proof {
                broadcast use vstd::seq_lib::group_to_multiset_ensures;

                assert(r@.to_multiset().add(self.pending@.to_multiset()) =~= taken.to_multiset().add(
                    queue.to_multiset(),
                ));
                assert forall|i: int, j: int| 0 <= i < r@.len() && 0 <= j < self.pending@.len() implies (
                #[trigger] r@[i]).priority >= (#[trigger] self.pending@[j]).priority by {
                    let at = if j < best {
                        j
                    } else {
                        j + 1
                    };
                    assert(self.pending@[j] == queue[at]);
                    if i < taken.len() {
                        assert(r@[i] == taken[i]);
                    }
                }
            }
        }
        proof {
            broadcast use vstd::seq_lib::group_to_multiset_ensures;

            assert(self.pending@ =~= Seq::<Task<F>>::empty());
            assert(r@.to_multiset() =~= before.to_multiset());
        }
        r
    }

    /// A worker takes up a task. The result says whether it is to run.
    pub fn begin(&mut self, gcs: &mut Gcs, id: TaskID, worker: usize, now: u64) -> (r: bool)
        requires
            old(self).wf(),
            old(gcs).wf(),
            old(gcs)@.workers.contains_key(worker) ==> old(gcs)@.workers[worker].tasks_done < usize::MAX,
        ensures
            final(self).wf(),
            final(gcs).wf(),
            final(self).pending() == old(self).pending(),
            final(self).workers() == old(self).workers(),
            r == !old(self).is_cancelled(id),
            ({
                let busy = old(gcs)@.with_worker_busy(worker, true);
                if r {
                    &&& final(gcs)@ == busy.with_task_state(id, TaskState::Running, None, now)
                    &&& final(self).controls() == with_running(old(self).controls(), id, true)
                } else {
                    &&& final(gcs)@ == over(busy, id, TaskState::Cancelled, now)
                    &&& final(self).controls() == old(self).controls().remove(id)
                }
            }),
    {
        gcs.set_worker_busy(worker, true);
        if self.cancelled(&id) {
            self.terminal(gcs, id, TaskState::Cancelled, now);
            return false;
        }
        gcs.set_task_state(id, TaskState::Running, None, now);
        self.set_running(id, true);
        true
    }

    fn set_running(&mut self, id: TaskID, running: bool)
        requires
            old(self).wf(),
        ensures
            final(self).wf(),
            final(self).pending() == old(self).pending(),
            final(self).workers() == old(self).workers(),
            final(self).controls() == with_running(old(self).controls(), id, running),
    {
        if let Some(control) = self.controls.get_mut(&id) {
            control.running = running;
        }
        assert(self.controls() =~= with_running(old(self).controls(), id, running));
    }

    /// Takes in how a task ended. An output is handed in, also that of a task that
    /// was cancelled while it ran. A failure is handed in once no retry is left; a
    /// task that was cancelled has none left, and its output is the cancellation.
    pub fn after_run<L>(
        &mut self,
        store: &mut ObjectStore<L>,
        gcs: &mut Gcs,
        task: Task<F>,
        outcome: Result<Vec<u8>, CrayonError>,
        now: u64,
    ) -> (r: (AfterRun<F>, Option<Aftermath>))
        requires
            old(self).wf(),
            old(store).wf(),
            old(gcs).wf(),
            old(self).controls().contains_key(task.id),
            outcome is Ok ==> (old(store)@.mem is Some ==> old(store)@.mem->0.total + outcome->Ok_0@.len()
                <= usize::MAX),
        ensures
            final(self).wf(),
            final(store).wf(),
            final(gcs).wf(),
            final(self).pending() == old(self).pending(),
            final(self).workers() == old(self).workers(),
            run_met(
                old(self).controls(),
                final(self).controls(),
                old(store)@,
                final(store)@,
                old(gcs)@,
                final(gcs)@,
                task,
                outcome,
                now,
                r,
            ),
    {
        let id = task.id;
        let control: TaskControl = match self.controls.get(&id) {
            Some(control) => *control,
            None => return (AfterRun::Over, None),
        };
        let mut lease = control.lease;
        if control.cancelled && !(control.running && outcome.is_ok()) {
            let error = CrayonError::TaskCancelled(id);
            let ghost reported: Option<Result<Vec<u8>, CrayonError>> = Some(Err(error));
            let (kept, aftermath) = lease.fail(store, error, now);
            assert(lease_met(old(store)@, store@, control.lease, reported, None, now, (kept, aftermath)));
            assert(cancel_reported(old(store)@, store@, control.lease, id, now, aftermath));
            self.terminal(gcs, id, TaskState::Cancelled, now);
            return (AfterRun::Over, Some(aftermath));
        }
        match outcome {
            Ok(bytes) => {
                let (kept, aftermath) = lease.publish(store, bytes, None, now);
                assert(lease_met(old(store)@, store@, control.lease, Some(outcome), None, now, (kept, aftermath)));
                assert(handed_in(old(store)@, store@, control.lease, outcome, now, aftermath));
                self.terminal(gcs, id, TaskState::Finished, now);
                (AfterRun::Over, Some(aftermath))
            },
            Err(error) => {
                if task.retries < task.max_retries {
                    let retries: u32 = task.retries + 1;
                    let again = Task {
                        id,
                        output_id: task.output_id,
                        max_retries: task.max_retries,
                        retries,
                        priority: task.priority,
                        func: task.func,
                    };
                    gcs.set_task_state(id, TaskState::Pending, None, now);
                    self.set_running(id, false);
                    return (AfterRun::Retry(again, retry_delay_ms(retries)), None);
                }
                let (kept, aftermath) = lease.fail(store, error, now);
                assert(lease_met(old(store)@, store@, control.lease, Some(outcome), None, now, (kept, aftermath)));
                self.terminal(gcs, id, TaskState::Failed, now);
                (AfterRun::Over, Some(aftermath))
            },
        }
    }

    /// Puts a task that waited for its retry back into the queue, unless it was
    /// cancelled meanwhile.
    pub fn requeue(&mut self, task: Task<F>) -> (r: bool)
        requires
            old(self).wf(),
        ensures
            final(self).wf(),
            final(self).controls() == old(self).controls(),
            final(self).workers() == old(self).workers(),
            r == !old(self).is_cancelled(task.id),
            final(self).pending() == if r {
                old(self).pending().push(task)
            } else {
                old(self).pending()
            },
    {
        if self.cancelled(&task.id) {
            return false;
        }
        self.pending.push(task);
        true
    }
}

fn most_urgent<F>(tasks: &Vec<Task<F>>) -> (r: usize)
    requires
        tasks@.len() > 0,
    ensures
        r < tasks@.len(),
        forall|i: int| 0 <= i < tasks@.len() ==> tasks@[r as int].priority >= (#[trigger] tasks@[i]).priority,
{
    let mut best: usize = 0;
    let mut i: usize = 1;
    while i < tasks.len()
        invariant
            best < i <= tasks@.len(),
            forall|j: int| 0 <= j < i ==> tasks@[best as int].priority >= (#[trigger] tasks@[j]).priority,
        decreases tasks@.len() - i,
    {
        if tasks[i].priority > tasks[best].priority {
            best = i;
        }
        i += 1;
    }
    best
}

/// The records with this many workers.
pub open spec fn with_workers(g: GcsModel, count: nat) -> GcsModel
    decreases count,
{
    if count == 0 {
        g
    } else {
        let rest = with_workers(g, (count - 1) as nat);
        let id = (count - 1) as usize;
        GcsModel {
            workers: rest.workers.insert(id, crate::gcs::WorkerMeta { id, busy: false, tasks_done: 0 }),
            ..rest
        }
    }
}

/// The lease was handed the cancellation in place of an output.
pub open spec fn cancel_reported<L>(
    before: StoreModel<L>,
    after: StoreModel<L>,
    lease: ProducerLease,
    id: TaskID,
    now: u64,
    aftermath: Aftermath,
) -> bool {
    exists|error: CrayonError, kept: bool|
        error@ == FaultModel::TaskCancelled(id) && #[trigger] lease_met(
            before,
            after,
            lease,
            Some(Err(error)),
            None,
            now,
            (kept, aftermath),
        )
}

/// The lease was handed what the task ended with.
pub open spec fn handed_in<L>(
    before: StoreModel<L>,
    after: StoreModel<L>,
    lease: ProducerLease,
    outcome: Result<Vec<u8>, CrayonError>,
    now: u64,
    aftermath: Aftermath,
) -> bool {
    exists|kept: bool| #[trigger]
        lease_met(before, after, lease, Some(outcome), None, now, (kept, aftermath))
}

/// What the end of a run leads to.
pub open spec fn run_met<F, L>(
    controls: Map<TaskID, TaskControl>,
    controls_after: Map<TaskID, TaskControl>,
    store: StoreModel<L>,
    store_after: StoreModel<L>,
    g: GcsModel,
    g_after: GcsModel,
    task: Task<F>,
    outcome: Result<Vec<u8>, CrayonError>,
    now: u64,
    r: (AfterRun<F>, Option<Aftermath>),
) -> bool {
    let control = controls[task.id];
    if control.cancelled && !(control.running && outcome is Ok) {
        &&& r.0 is Over
        &&& r.1 is Some
        &&& cancel_reported(store, store_after, control.lease, task.id, now, r.1->0)
        &&& g_after == over(g, task.id, TaskState::Cancelled, now)
        &&& controls_after == controls.remove(task.id)
    } else if outcome is Err && task.retries < task.max_retries {
        &&& r.0 == AfterRun::Retry(
            Task { retries: (task.retries + 1) as u32, ..task },
            retry_delay(task.retries + 1) as u64,
        )
        &&& r.1 is None
        &&& store_after == store
        &&& g_after == g.with_task_state(task.id, TaskState::Pending, None, now)
        &&& controls_after == with_running(controls, task.id, false)
    } else {
        &&& r.0 is Over
        &&& r.1 is Some
        &&& handed_in(store, store_after, control.lease, outcome, now, r.1->0)
        &&& g_after == over(
            g,
            task.id,
            if outcome is Ok {
                TaskState::Finished
            } else {
                TaskState::Failed
            },
            now,
        )
        &&& controls_after == controls.remove(task.id)
    }
}

/// A worker is done with a task, whatever came of it.
pub fn finish_worker(gcs: &mut Gcs, worker: usize)
    requires
        old(gcs).wf(),
        old(gcs)@.workers.contains_key(worker) ==> old(gcs)@.workers[worker].tasks_done < usize::MAX,
    ensures
        final(gcs).wf(),
        final(gcs)@ == old(gcs)@.with_worker_busy(worker, false),
{
    gcs.set_worker_busy(worker, false);
}

/// The pool behind the calls that submit and cancel tasks.
#[verifier::reject_recursive_types(F)]
#[derive(Debug)]
pub struct Scheduler<F> {
    pub pool: WorkerPool<F>,
}

impl<F> Scheduler<F> {
    pub fn new(pool: WorkerPool<F>) -> (r: Self)
        ensures
            r.pool == pool,
    {
        Scheduler { pool }
    }

    /// Takes in a task, as `WorkerPool::submit` does.
    pub fn schedule(
        &mut self,
        gcs: &mut Gcs,
        task: Task<F>,
        lease: ProducerLease,
        fits: bool,
        needs: &str,
        worker: Option<usize>,
        now: u64,
    ) -> (r: Result<Dispatch<F>, CrayonError>)
        requires
            old(self).pool.wf(),
            old(gcs).wf(),
        ensures
            final(self).pool.wf(),
            final(gcs).wf(),
            submitted(
                old(self).pool,
                final(self).pool,
                old(gcs)@,
                final(gcs)@,
                task,
                lease,
                fits,
                needs@,
                worker,
                now,
                r,
            ),
    {
        self.pool.submit(gcs, task, lease, fits, needs, worker, now)
    }

    /// Cancels a task, as `WorkerPool::cancel_task` does.
    pub fn cancel_task<L>(&mut self, id: TaskID, store: &mut ObjectStore<L>, gcs: &mut Gcs, now: u64) -> (r: Option<
        Aftermath,
    >)
        requires
            old(self).pool.wf(),
            old(store).wf(),
            old(gcs).wf(),
        ensures
            final(self).pool.wf(),
            final(store).wf(),
            final(gcs).wf(),
            cancelled_in(
                old(self).pool,
                final(self).pool,
                old(store)@,
                final(store)@,
                old(gcs)@,
                final(gcs)@,
                id,
                now,
                r,
            ),
    {
        self.pool.cancel_task(id, store, gcs, now)
    }

    /// Takes every task out of the queue, as `WorkerPool::pump_pending` does.
    pub fn pump_pending(&mut self) -> (r: Vec<Task<F>>)
        requires
            old(self).pool.wf(),
        ensures
            final(self).pool.wf(),
            final(self).pool.pending() == Seq::<Task<F>>::empty(),
            final(self).pool.controls() == old(self).pool.controls(),
            final(self).pool.workers() == old(self).pool.workers(),
            by_priority(r@),
            r@.to_multiset() == old(self).pool.pending().to_multiset(),
    {
        self.pool.pump_pending()
    }
}

/// What a task that is handed in leads to. One that no worker could ever take is
/// refused and leaves no trace.
pub open spec fn submitted<F>(
    before: WorkerPool<F>,
    after: WorkerPool<F>,
    g: GcsModel,
    g_after: GcsModel,
    task: Task<F>,
    lease: ProducerLease,
    fits: bool,
    needs: Seq<char>,
    worker: Option<usize>,
    now: u64,
    r: Result<Dispatch<F>, CrayonError>,
) -> bool {
    &&& after.workers() == before.workers()
    &&& if !fits {
        &&& r is Err
        &&& r->Err_0@ == FaultModel::TaskFailed(
            "task requires "@ + needs + " but no worker has enough total resources"@,
        )
        &&& g_after == g
        &&& after.pending() == before.pending()
        &&& after.controls() == before.controls()
    } else {
        &&& g_after == g.with_task(
            TaskMeta {
                id: task.id,
                state: TaskState::Pending,
                created_at: now,
                finished_at: None,
                output: Some(task.output_id),
            },
        )
        &&& after.controls() == before.controls().insert(
            task.id,
            TaskControl { cancelled: false, running: false, output_id: task.output_id, lease },
        )
        &&& match worker {
            Some(worker) => {
                &&& r == Ok::<Dispatch<F>, CrayonError>(Dispatch::Send(worker, task))
                &&& after.pending() == before.pending()
            },
            None => {
                &&& r == Ok::<Dispatch<F>, CrayonError>(Dispatch::Queued)
                &&& after.pending() == before.pending().push(task)
            },
        }
    }
}

/// What the call for a task's end leads to.
pub open spec fn cancelled_in<F, L>(
    before: WorkerPool<F>,
    after: WorkerPool<F>,
    store: StoreModel<L>,
    store_after: StoreModel<L>,
    g: GcsModel,
    g_after: GcsModel,
    id: TaskID,
    now: u64,
    r: Option<Aftermath>,
) -> bool {
    &&& after.workers() == before.workers()
    &&& match r {
        Some(aftermath) => {
            let control = before.controls()[id];
            &&& before.controls().contains_key(id)
            &&& if control.running {
                &&& after.controls() == before.controls().insert(id, TaskControl { cancelled: true, ..control })
                &&& after.pending() == before.pending()
                &&& g_after == g
                &&& store_after == store
                &&& aftermath.stale is None
                &&& aftermath.spills@.len() == 0
            } else {
                &&& after.controls() == before.controls().insert(
                    id,
                    TaskControl { cancelled: true, lease: ProducerLease { finished: true, ..control.lease }, ..control },
                )
                &&& after.pending() == without_task(before.pending(), id)
                &&& g_after == g.with_task_state(id, TaskState::Cancelled, Some(control.output_id), now)
                &&& cancel_reported(store, store_after, control.lease, id, now, aftermath)
            }
        },
        None => {
            &&& !before.controls().contains_key(id)
            &&& after.controls() == before.controls()
            &&& after.pending() == before.pending()
            &&& store_after == store
            &&& g_after == g
        },
    }
}

/// A task that was cancelled is not tried again, however a run of it ends.
pub proof fn law_cancelled_task_is_not_retried<F, L>(
    before: WorkerPool<F>,
    cancelled: WorkerPool<F>,
    store: StoreModel<L>,
    store_cancelled: StoreModel<L>,
    g: GcsModel,
    g_cancelled: GcsModel,
    task: Task<F>,
    aftermath: Aftermath,
    at: u64,
    controls_after: Map<TaskID, TaskControl>,
    store_after: StoreModel<L>,
    g_after: GcsModel,
    outcome: Result<Vec<u8>, CrayonError>,
    now: u64,
    r: (AfterRun<F>, Option<Aftermath>),
)
    requires
        cancelled_in(before, cancelled, store, store_cancelled, g, g_cancelled, task.id, at, Some(aftermath)),
        run_met(
            cancelled.controls(),
            controls_after,
            store_cancelled,
            store_after,
            g_cancelled,
            g_after,
            task,
            outcome,
            now,
            r,
        ),
    ensures
        r.0 is Over,
        !controls_after.contains_key(task.id),
{
}

/// A task that was cancelled before a worker began on it does not run any more: it
/// is in no queue, and what would come of it counts for nothing.
pub proof fn law_cancelled_task_is_over<F, L>(
    before: WorkerPool<F>,
    cancelled: WorkerPool<F>,
    store: StoreModel<L>,
    store_cancelled: StoreModel<L>,
    g: GcsModel,
    g_cancelled: GcsModel,
    task: Task<F>,
    aftermath: Aftermath,
    at: u64,
    controls_after: Map<TaskID, TaskControl>,
    store_after: StoreModel<L>,
    g_after: GcsModel,
    outcome: Result<Vec<u8>, CrayonError>,
    now: u64,
    r: (AfterRun<F>, Option<Aftermath>),
)
    requires
        !before.controls()[task.id].running,
        cancelled_in(before, cancelled, store, store_cancelled, g, g_cancelled, task.id, at, Some(aftermath)),
        run_met(
            cancelled.controls(),
            controls_after,
            store_cancelled,
            store_after,
            g_cancelled,
            g_after,
            task,
            outcome,
            now,
            r,
        ),
    ensures
        forall|i: int| 0 <= i < cancelled.pending().len() ==> (#[trigger] cancelled.pending()[i]).id != task.id,
        store_after == store_cancelled,
        r.0 is Over,
{
    lemma_without_task(before.pending(), task.id);
}

/// A task that was cancelled while it ran still hands in what it produced, as if
/// nobody had asked, and ends as finished.
pub proof fn law_running_task_hands_in_its_output<F, L>(
    before: WorkerPool<F>,
    cancelled: WorkerPool<F>,
    store: StoreModel<L>,
    store_cancelled: StoreModel<L>,
    g: GcsModel,
    g_cancelled: GcsModel,
    task: Task<F>,
    aftermath: Aftermath,
    at: u64,
    controls_after: Map<TaskID, TaskControl>,
    store_after: StoreModel<L>,
    g_after: GcsModel,
    outcome: Result<Vec<u8>, CrayonError>,
    now: u64,
    r: (AfterRun<F>, Option<Aftermath>),
)
    requires
        before.controls()[task.id].running,
        outcome is Ok,
        cancelled_in(before, cancelled, store, store_cancelled, g, g_cancelled, task.id, at, Some(aftermath)),
        run_met(
            cancelled.controls(),
            controls_after,
            store_cancelled,
            store_after,
            g_cancelled,
            g_after,
            task,
            outcome,
            now,
            r,
        ),
    ensures
        store_cancelled == store,
        g_cancelled == g,
        r.1 is Some,
        handed_in(store, store_after, before.controls()[task.id].lease, outcome, now, r.1->0),
        g_after == over(g, task.id, TaskState::Finished, now),
{
}

proof fn lemma_without_task<F>(tasks: Seq<Task<F>>, id: TaskID)
    ensures
        forall|i: int| 0 <= i < without_task(tasks, id).len() ==> (#[trigger] without_task(tasks, id)[i]).id != id,
    decreases tasks.len(),
{
    if tasks.len() > 0 {
        lemma_without_task(tasks.drop_last(), id);
        let rest = without_task(tasks.drop_last(), id);
        assert forall|i: int| 0 <= i < without_task(tasks, id).len() implies (#[trigger] without_task(tasks, id)[i]).id
            != id by {
            if i < rest.len() {
                assert(without_task(tasks, id)[i] == rest[i]);
            }
        }
    }
}

/// A task is retried no more often than it may be.
pub proof fn law_retries_are_bounded<F, L>(
    controls: Map<TaskID, TaskControl>,
    controls_after: Map<TaskID, TaskControl>,
    store: StoreModel<L>,
    store_after: StoreModel<L>,
    g: GcsModel,
    g_after: GcsModel,
    task: Task<F>,
    outcome: Result<Vec<u8>, CrayonError>,
    now: u64,
    r: (AfterRun<F>, Option<Aftermath>),
)
    requires
        run_met(controls, controls_after, store, store_after, g, g_after, task, outcome, now, r),
        task.retries <= task.max_retries,
    ensures
        r.0 matches AfterRun::Retry(again, delay) ==> again.retries <= again.max_retries && again.id == task.id,
        outcome is Ok ==> r.0 is Over,
{
}

/// One run of a task: what was on record before and after, how it ended, and what
/// followed.
#[verifier::reject_recursive_types(F)]
#[verifier::reject_recursive_types(L)]
pub struct Run<F, L> {
    pub controls: Map<TaskID, TaskControl>,
    pub controls_after: Map<TaskID, TaskControl>,
    pub store: StoreModel<L>,
    pub store_after: StoreModel<L>,
    pub g: GcsModel,
    pub g_after: GcsModel,
    pub task: Task<F>,
    pub outcome: Result<Vec<u8>, CrayonError>,
    pub now: u64,
    pub result: (AfterRun<F>, Option<Aftermath>),
}

impl<F, L> Run<F, L> {
    /// The run was taken in.
    pub open spec fn taken_in(self) -> bool {
        run_met(
            self.controls,
            self.controls_after,
            self.store,
            self.store_after,
            self.g,
            self.g_after,
            self.task,
            self.outcome,
            self.now,
            self.result,
        )
    }

    /// The task failed in this run, and nobody had cancelled it.
    pub open spec fn failed(self) -> bool {
        self.taken_in() && self.outcome is Err && !self.controls[self.task.id].cancelled
    }
}

/// A run that fails leads to another whenever the task has been retried less often
/// than it may be: the same task, counted once more, after a tenth of a second that
/// doubles with each retry up to the sixth. Meanwhile the task is pending, nobody
/// holds it, and its output is still owed.
pub proof fn law_failed_run_is_retried<F, L>(run: Run<F, L>)
    requires
        run.failed(),
        run.controls.contains_key(run.task.id),
        run.task.retries < run.task.max_retries,
    ensures
        run.result.0 matches AfterRun::Retry(again, delay) && {
            &&& again.id == run.task.id
            &&& again.output_id == run.task.output_id
            &&& again.max_retries == run.task.max_retries
            &&& again.retries == run.task.retries + 1
            &&& again.priority == run.task.priority
            &&& again.func == run.task.func
            &&& again.retries <= 6 ==> delay == 100 * vstd::arithmetic::power2::pow2(again.retries as nat)
            &&& again.retries > 6 ==> delay == 6_400
        },
        run.result.1 is None,
        run.store_after == run.store,
        run.controls_after.contains_key(run.task.id),
        !run.controls_after[run.task.id].cancelled,
        !run.controls_after[run.task.id].running,
        run.controls_after[run.task.id].lease == run.controls[run.task.id].lease,
        run.g.tasks.contains_key(run.task.id) ==> run.g_after.tasks[run.task.id].state == TaskState::Pending,
        forall|other: TaskID|
            other != run.task.id ==> #[trigger] run.controls_after[other] == run.controls[other]
                && run.g_after.tasks[other] == run.g.tasks[other],
{
    vstd::arithmetic::power2::lemma2_to64();
}

/// A run that fails is the last once the task has been retried as often as it may
/// be: the task has failed, and is known no more.
pub proof fn law_failed_run_is_final<F, L>(run: Run<F, L>)
    requires
        run.failed(),
        run.task.retries >= run.task.max_retries,
    ensures
        run.result.0 is Over,
        run.result.1 is Some,
        !run.controls_after.contains_key(run.task.id),
        run.g.tasks.contains_key(run.task.id) ==> run.g_after.tasks[run.task.id].state == TaskState::Failed
            && run.g_after.tasks[run.task.id].finished_at == Some(run.now),
{
}

/// A run that succeeds is the last, whatever retries are left: the task has finished.
pub proof fn law_successful_run_is_final<F, L>(run: Run<F, L>)
    requires
        run.taken_in(),
        run.outcome is Ok,
        !run.controls[run.task.id].cancelled,
    ensures
        run.result.0 is Over,
        run.result.1 is Some,
        !run.controls_after.contains_key(run.task.id),
        run.g.tasks.contains_key(run.task.id) ==> run.g_after.tasks[run.task.id].state == TaskState::Finished
            && run.g_after.tasks[run.task.id].finished_at == Some(run.now),
{
}

/// A task that fails every time is run once, and then once more for every retry that
/// it may have, before it is given up.
pub proof fn law_failing_task_is_run_for_every_retry<F, L>(runs: Seq<Run<F, L>>)
    requires
        runs.len() > 0,
        runs[0].task.retries == 0,
        forall|i: int| 0 <= i < runs.len() ==> (#[trigger] runs[i]).failed() && runs[i].controls.contains_key(runs[i].task.id),
        forall|i: int, j: int|
            0 <= i && j == i + 1 && j < runs.len() ==> ((#[trigger] runs[i]).result.0 matches AfterRun::Retry(again, _)
                && (#[trigger] runs[j]).task == again),
        runs[runs.len() - 1].result.0 is Over,
    ensures
        runs.len() == runs[0].task.max_retries + 1,
{
    let last = runs.len() - 1;
    lemma_retries_count(runs, last);
    if runs[last].task.retries < runs[last].task.max_retries {
        law_failed_run_is_retried(runs[last]);
    }
    if last > 0 {
        lemma_retries_count(runs, last - 1);
        let before = runs[last - 1];
        assert(before.failed());
        assert(runs[last].failed());
        if before.task.retries >= before.task.max_retries {
            law_failed_run_is_final(before);
        }
    }
}

proof fn lemma_retries_count<F, L>(runs: Seq<Run<F, L>>, k: int)
    requires
        0 <= k < runs.len(),
        runs[0].task.retries == 0,
        forall|i: int| 0 <= i < runs.len() ==> (#[trigger] runs[i]).failed() && runs[i].controls.contains_key(runs[i].task.id),
        forall|i: int, j: int|
            0 <= i && j == i + 1 && j < runs.len() ==> ((#[trigger] runs[i]).result.0 matches AfterRun::Retry(again, _)
                && (#[trigger] runs[j]).task == again),
    ensures
        runs[k].task.retries == k,
        runs[k].task.max_retries == runs[0].task.max_retries,
    decreases k,
{
    if k > 0 {
        lemma_retries_count(runs, k - 1);
        let before = runs[k - 1];
        assert(before.result.0 is Retry && runs[k].task == before.result.0->Retry_0);
        if before.task.retries >= before.task.max_retries {
            law_failed_run_is_final(before);
        } else {
            law_failed_run_is_retried(before);
        }
    }
}

/// The wait before a retry is a tenth of a second, doubled with each up to the sixth.
pub proof fn law_retry_delay_doubles(retries: int)
    requires
        retries >= 0,
    ensures
        retries <= 6 ==> retry_delay(retries) == 100 * vstd::arithmetic::power2::pow2(retries as nat),
        retries > 6 ==> retry_delay(retries) == retry_delay(6),
{
    vstd::arithmetic::power2::lemma2_to64();
}

/// Taking a task out of a queue takes out every entry of that id and leaves the
/// others in the order they were in.
pub proof fn law_without_task_keeps_the_others<F>(tasks: Seq<Task<F>>, id: TaskID)
    ensures
        without_task(tasks, id) == tasks.filter(|task: Task<F>| task.id != id),
    decreases tasks.len(),
{
    reveal(Seq::filter);
    if tasks.len() > 0 {
        law_without_task_keeps_the_others(tasks.drop_last(), id);
    }
}

/// A task that some worker could take is accepted, goes to the worker that takes it
/// now or else to the end of the queue, and is on record as pending, not cancelled
/// and not begun. One that none could take is refused and leaves no trace.
pub proof fn law_submitted_task_is_sent_or_queued<F>(
    before: WorkerPool<F>,
    after: WorkerPool<F>,
    g: GcsModel,
    g_after: GcsModel,
    task: Task<F>,
    lease: ProducerLease,
    fits: bool,
    needs: Seq<char>,
    worker: Option<usize>,
    now: u64,
    r: Result<Dispatch<F>, CrayonError>,
)
    requires
        submitted(before, after, g, g_after, task, lease, fits, needs, worker, now, r),
    ensures
        r is Ok <==> fits,
        fits ==> {
            &&& after.controls().contains_key(task.id)
            &&& !after.controls()[task.id].cancelled
            &&& !after.controls()[task.id].running
            &&& after.controls()[task.id].lease == lease
            &&& after.controls()[task.id].output_id == task.output_id
            &&& g_after.tasks.contains_key(task.id)
            &&& g_after.tasks[task.id] == (TaskMeta {
                id: task.id,
                state: TaskState::Pending,
                created_at: now,
                finished_at: None,
                output: Some(task.output_id),
            })
            &&& worker matches Some(chosen) ==> r->Ok_0 == Dispatch::Send(chosen, task) && after.pending()
                == before.pending()
            &&& worker is None ==> r->Ok_0 is Queued && after.pending() == before.pending().push(task)
        },
        !fits ==> after.pending() == before.pending() && after.controls() == before.controls() && g_after == g,
{
}

/// A task is cancelled if and only if it is known. If no worker has begun on it, it
/// leaves the queue, in which the others stay as they were, and is on record as
/// cancelled at once; either way it is marked.
pub proof fn law_known_task_is_cancelled<F, L>(
    before: WorkerPool<F>,
    after: WorkerPool<F>,
    store: StoreModel<L>,
    store_after: StoreModel<L>,
    g: GcsModel,
    g_after: GcsModel,
    id: TaskID,
    now: u64,
    r: Option<Aftermath>,
)
    requires
        cancelled_in(before, after, store, store_after, g, g_after, id, now, r),
    ensures
        r is Some <==> before.controls().contains_key(id),
        r is Some ==> after.is_cancelled(id) && after.controls()[id].running == before.controls()[id].running,
        r is Some && !before.controls()[id].running ==> {
            &&& after.pending() == before.pending().filter(|task: Task<F>| task.id != id)
            &&& g.tasks.contains_key(id) ==> g_after.tasks[id].state == TaskState::Cancelled
                && g_after.tasks[id].finished_at == Some(now)
        },
        r is Some && before.controls()[id].running ==> after.pending() == before.pending() && g_after == g
            && store_after == store,
        forall|other: TaskID| other != id ==> #[trigger] after.controls()[other] == before.controls()[other],
{
    law_without_task_keeps_the_others(before.pending(), id);
}

} // verus!
