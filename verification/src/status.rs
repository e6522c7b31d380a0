//! A snapshot of the in-process runtime for people and dashboards.
use vstd::prelude::*;
use vstd::string::*;

use crate::common::TaskState;
use crate::gcs::{busy_weight, in_state, lists, ActorMeta, Gcs, WorkerMeta};
use crate::object_store::{present_weight, ObjectStore};
use crate::sums::sum;
use crate::text::{decimal, decimal_string, hex_chars, lemma_says, says};

verus! {

#[derive(Debug)]
pub struct SystemStatus {
    pub objects: usize,
    pub actors: Vec<ActorStatus>,
    pub tasks_total: usize,
    pub tasks_finished: usize,
    pub tasks_failed: usize,
    pub tasks_cancelled: usize,
    pub tasks_pending: usize,
    pub tasks_running: usize,
    pub workers: Vec<WorkerStatus>,
    pub busy_workers: usize,
    pub memory_used_bytes: usize,
    pub memory_limit_bytes: usize,
    pub spill_failures: usize,
}

#[derive(Debug)]
pub struct ActorStatus {
    pub id: String,
    pub name: String,
    pub state: String,
    pub pending: usize,
    pub completed: usize,
}

#[derive(Debug)]
pub struct WorkerStatus {
    pub id: usize,
    pub busy: bool,
    pub tasks_done: usize,
}

/// The status says what is on record of an actor.
pub open spec fn tells_actor(status: ActorStatus, meta: ActorMeta) -> bool {
    &&& status.id@ == hex_chars(meta.id.bytes())
    &&& status.name@ == meta.name@
    &&& status.state@ == meta.state.text()
    &&& status.pending == meta.pending_tasks
    &&& status.completed == meta.completed_tasks
}

/// The status says what is on record of a worker.
pub open spec fn tells_worker(status: WorkerStatus, meta: WorkerMeta) -> bool {
    status.id == meta.id && status.busy == meta.busy && status.tasks_done == meta.tasks_done
}

pub open spec fn tells_actors(list: Seq<ActorStatus>, metas: Seq<ActorMeta>) -> bool {
    &&& list.len() == metas.len()
    &&& forall|i: int| 0 <= i < list.len() ==> tells_actor(#[trigger] list[i], metas[i])
}

pub open spec fn tells_workers(list: Seq<WorkerStatus>, metas: Seq<WorkerMeta>) -> bool {
    &&& list.len() == metas.len()
    &&& forall|i: int| 0 <= i < list.len() ==> tells_worker(#[trigger] list[i], metas[i])
}

fn actor_statuses(metas: &Vec<ActorMeta>) -> (r: Vec<ActorStatus>)
    ensures
        tells_actors(r@, metas@),
{
    let mut r: Vec<ActorStatus> = Vec::new();
    let mut i: usize = 0;
    while i < metas.len()
        invariant
            i <= metas@.len(),
            r@.len() == i,
            forall|j: int| 0 <= j < i ==> tells_actor(#[trigger] r@[j], metas@[j]),
        decreases metas@.len() - i,
    {
        let meta = &metas[i];
        r.push(
            ActorStatus {
                id: meta.id.to_string(),
                name: meta.name.clone(),
                state: meta.state.to_string(),
                pending: meta.pending_tasks,
                completed: meta.completed_tasks,
            },
        );
        i += 1;
    }
    r
}

fn worker_statuses(metas: &Vec<WorkerMeta>) -> (r: Vec<WorkerStatus>)
    ensures
        tells_workers(r@, metas@),
{
    let mut r: Vec<WorkerStatus> = Vec::new();
    let mut i: usize = 0;
    while i < metas.len()
        invariant
            i <= metas@.len(),
            r@.len() == i,
            forall|j: int| 0 <= j < i ==> tells_worker(#[trigger] r@[j], metas@[j]),
        decreases metas@.len() - i,
    {
        let meta = &metas[i];
        r.push(WorkerStatus { id: meta.id, busy: meta.busy, tasks_done: meta.tasks_done });
        i += 1;
    }
    r
}

impl SystemStatus {
    /// What the records and the store say now.
    pub fn snapshot<L>(gcs: &Gcs, store: &ObjectStore<L>) -> (r: Self)
        requires
            gcs.wf(),
            store.wf(),
        ensures
            r.objects == sum(store@.entries, present_weight::<L>()),
            match store@.mem {
                Some(mem) => r.memory_used_bytes == mem.total && r.memory_limit_bytes == mem.max && r.spill_failures
                    == mem.failures,
                None => r.memory_used_bytes == 0 && r.memory_limit_bytes == 0 && r.spill_failures == 0,
            },
            r.tasks_total == gcs@.tasks.dom().len(),
            r.tasks_finished == sum(gcs@.tasks, in_state(TaskState::Finished)),
            r.tasks_failed == sum(gcs@.tasks, in_state(TaskState::Failed)),
            r.tasks_cancelled == sum(gcs@.tasks, in_state(TaskState::Cancelled)),
            r.tasks_pending == sum(gcs@.tasks, in_state(TaskState::Pending)),
            r.tasks_running == sum(gcs@.tasks, in_state(TaskState::Running)),
            r.busy_workers == sum(gcs@.workers, busy_weight()),
            exists|metas: Seq<ActorMeta>| #[trigger] lists(gcs@.actors, metas) && tells_actors(r.actors@, metas),
            exists|metas: Seq<WorkerMeta>| #[trigger] lists(gcs@.workers, metas) && tells_workers(r.workers@, metas),
    {
        let (memory_used_bytes, memory_limit_bytes) = store.memory_stats();
        let actors = gcs.actors();
        let workers = gcs.workers();
        let r = SystemStatus {
            objects: store.len(),
            actors: actor_statuses(&actors),
            tasks_total: gcs.task_count(),
            tasks_finished: gcs.count_tasks(TaskState::Finished),
            tasks_failed: gcs.count_tasks(TaskState::Failed),
            tasks_cancelled: gcs.count_tasks(TaskState::Cancelled),
            tasks_pending: gcs.count_tasks(TaskState::Pending),
            tasks_running: gcs.count_tasks(TaskState::Running),
            workers: worker_statuses(&workers),
            busy_workers: gcs.count_busy(),
            memory_used_bytes,
            memory_limit_bytes,
            spill_failures: store.spill_failures(),
        };
        assert(lists(gcs@.actors, actors@) && tells_actors(r.actors@, actors@));
        assert(lists(gcs@.workers, workers@) && tells_workers(r.workers@, workers@));
        r
    }
}

/// Parts of the report that are fractions, as text: how busy the workers are, and
/// how much of the memory is used. They are not computed here.
#[derive(Debug)]
pub struct Percentages<'a> {
    pub utilization: &'a str,
    pub memory_used: &'a str,
    pub memory_limit: &'a str,
    pub memory: &'a str,
}

/// The line about one actor.
pub open spec fn actor_line(actor: ActorStatus) -> Seq<char> {
    "  "@ + actor.name@ + " ["@ + actor.id@ + "] state="@ + actor.state@ + " pending="@ + decimal(
        actor.pending as nat,
    ) + " done="@ + decimal(actor.completed as nat) + "\n"@
}

/// The lines about some actors.
pub open spec fn actor_lines(actors: Seq<ActorStatus>) -> Seq<char>
    decreases actors.len(),
{
    if actors.len() == 0 {
        Seq::empty()
    } else {
        actor_lines(actors.drop_last()) + actor_line(actors.last())
    }
}

/// The line about the tasks.
pub open spec fn task_line(status: SystemStatus) -> Seq<char> {
    "Tasks: "@ + decimal(status.tasks_total as nat) + " total, "@ + decimal(status.tasks_finished as nat)
        + " finished, "@ + decimal(status.tasks_failed as nat) + " failed, "@ + decimal(status.tasks_cancelled as nat)
        + " cancelled, "@ + decimal(status.tasks_running as nat) + " running, "@ + decimal(
        status.tasks_pending as nat,
    ) + " pending\n"@
}

/// The report: objects, tasks, workers; memory if it is limited; actors if there
/// are any.
pub open spec fn report(status: SystemStatus, parts: Percentages) -> Seq<char> {
    "=== Crayon Status ===\n"@ + ("Objects: "@ + decimal(status.objects as nat) + "\n"@) + task_line(status) + (
    "Workers: "@ + decimal(status.workers@.len()) + " (utilization "@ + parts.utilization@ + "%)\n"@) + (
    if status.memory_limit_bytes > 0 {
        "Memory: "@ + parts.memory_used@ + " / "@ + parts.memory_limit@ + " ("@ + parts.memory@ + "%)\n"@
    } else {
        Seq::empty()
    }) + (if status.actors@.len() > 0 {
        "Actors:\n"@ + actor_lines(status.actors@)
    } else {
        Seq::empty()
    })
}

fn append_number(text: &mut String, number: usize)
    ensures
        final(text)@ == old(text)@ + decimal(number as nat),
{
    let digits = decimal_string(number as u64);
    text.append(digits.as_str());
}

impl SystemStatus {
    fn task_text(&self) -> (r: String)
        ensures
            r@ == task_line(*self),
    {
        let mut text = "Tasks: ".to_string();
        append_number(&mut text, self.tasks_total);
        text.append(" total, ");
        append_number(&mut text, self.tasks_finished);
        text.append(" finished, ");
        append_number(&mut text, self.tasks_failed);
        text.append(" failed, ");
        append_number(&mut text, self.tasks_cancelled);
        text.append(" cancelled, ");
        append_number(&mut text, self.tasks_running);
        text.append(" running, ");
        append_number(&mut text, self.tasks_pending);
        text.append(" pending\n");
        text
    }

    fn actor_text(&self) -> (r: String)
        ensures
            r@ == actor_lines(self.actors@),
    {
        let mut text = String::new();
        let mut i: usize = 0;
        assert(self.actors@.take(0) =~= Seq::<ActorStatus>::empty());
        while i < self.actors.len()
            invariant
                i <= self.actors@.len(),
                text@ == actor_lines(self.actors@.take(i as int)),
            decreases self.actors@.len() - i,
        {
            assert(self.actors@.take(i + 1).drop_last() =~= self.actors@.take(i as int));
            let actor = &self.actors[i];
            let mut line = "  ".to_string();
            line.append(actor.name.as_str());
            line.append(" [");
            line.append(actor.id.as_str());
            line.append("] state=");
            line.append(actor.state.as_str());
            line.append(" pending=");
            append_number(&mut line, actor.pending);
            line.append(" done=");
            append_number(&mut line, actor.completed);
            line.append("\n");
            text.append(line.as_str());
            i += 1;
        }
        assert(self.actors@.take(i as int) =~= self.actors@);
        text
    }

    /// The status as a report for people.
    pub fn pretty(&self, parts: &Percentages) -> (r: String)
        ensures
            r@ == report(*self, *parts),
    {
        let mut text = "=== Crayon Status ===\n".to_string();
        let mut objects = "Objects: ".to_string();
        append_number(&mut objects, self.objects);
        objects.append("\n");
        text.append(objects.as_str());
        let tasks = self.task_text();
        text.append(tasks.as_str());
        let mut workers = "Workers: ".to_string();
        append_number(&mut workers, self.workers.len());
        workers.append(" (utilization ");
        workers.append(parts.utilization);
        workers.append("%)\n");
        text.append(workers.as_str());
        let mut memory = String::new();
        if self.memory_limit_bytes > 0 {
            memory = "Memory: ".to_string();
            memory.append(parts.memory_used);
            memory.append(" / ");
            memory.append(parts.memory_limit);
            memory.append(" (");
            memory.append(parts.memory);
            memory.append("%)\n");
        }
        text.append(memory.as_str());
        let mut actors = String::new();
        if self.actors.len() > 0 {
            actors = "Actors:\n".to_string();
            let lines = self.actor_text();
            actors.append(lines.as_str());
        }
        text.append(actors.as_str());
        text
    }
}

/// The report on the system tells each number with what it counts.
pub proof fn law_report_tells_the_counts(status: SystemStatus, parts: Percentages)
    ensures
        ({
            let text = task_line(status);
            &&& says(text, "Tasks: "@ + decimal(status.tasks_total as nat))
            &&& says(text, decimal(status.tasks_finished as nat) + " finished, "@)
            &&& says(text, decimal(status.tasks_failed as nat) + " failed, "@)
            &&& says(text, decimal(status.tasks_cancelled as nat) + " cancelled, "@)
            &&& says(text, decimal(status.tasks_running as nat) + " running, "@)
            &&& says(text, decimal(status.tasks_pending as nat) + " pending\n"@)
        }),
        says(report(status, parts), task_line(status)),
        says(report(status, parts), "Objects: "@ + decimal(status.objects as nat) + "\n"@),
        says(
            report(status, parts),
            "Workers: "@ + decimal(status.workers@.len()) + " (utilization "@ + parts.utilization@ + "%)\n"@,
        ),
        status.memory_limit_bytes > 0 ==> says(
            report(status, parts),
            "Memory: "@ + parts.memory_used@ + " / "@ + parts.memory_limit@ + " ("@ + parts.memory@ + "%)\n"@,
        ),
        status.actors@.len() > 0 ==> says(report(status, parts), "Actors:\n"@ + actor_lines(status.actors@)),
{
    lemma_says();
    let first = "Tasks: "@ + decimal(status.tasks_total as nat);
    assert(says(Seq::<char>::empty() + first, first));
    assert(Seq::<char>::empty() + first =~= first);
}

/// The report has a line for each actor, with its name, id, state and calls.
pub proof fn law_report_has_a_line_for_each_actor(actors: Seq<ActorStatus>, i: int)
    requires
        0 <= i < actors.len(),
    ensures
        says(actor_lines(actors), actor_line(actors[i])),
        ({
            let text = actor_line(actors[i]);
            &&& says(text, "  "@ + actors[i].name@)
            &&& says(text, " ["@ + actors[i].id@)
            &&& says(text, "] state="@ + actors[i].state@)
            &&& says(text, " pending="@ + decimal(actors[i].pending as nat))
            &&& says(text, " done="@ + decimal(actors[i].completed as nat))
        }),
    decreases actors.len(),
{
    lemma_says();
    let first = "  "@ + actors[i].name@;
    assert(says(Seq::<char>::empty() + first, first));
    assert(Seq::<char>::empty() + first =~= first);
    if i < actors.len() - 1 {
        law_report_has_a_line_for_each_actor(actors.drop_last(), i);
        assert(actors.drop_last()[i] == actors[i]);
    }
}

} // verus!
