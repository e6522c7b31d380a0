//! The in-process runtime: objects, memory, versions, tasks, actors, nodes.

use crayon::actor::{remote_answer, spawn_actor, spawn_actor_as, ActorHandle, ActorHandleInner, AfterCall, Route};
use crayon::common::{
    panic_to_error, parse_task_id, ActorID, ActorState, CrayonError, ObjectID, ObjectRef, TaskID, TaskState,
};
use crayon::gcs::{ActorMeta, Gcs, ObjectMeta, TaskMeta, MAX_TASKS};
use crayon::memory::{spill_name, MemoryManager};
use crayon::node::{
    actor_call_reply, keeps_idle, message_header, message_len, object_data, remote_call_result, remote_object_result,
    retries_request, HandleStep, Message, Node, NodeID, PEER_TTL_MS,
};
use crayon::object_store::{Get, GetStep, ObjectStore};
use crayon::scheduler::{finish_worker, retry_delay_ms, AfterRun, Dispatch, Scheduler, Task, WorkerPool};
use crayon::status::{Percentages, SystemStatus};
use crayon::versioning::VersionedStore;

type Store = ObjectStore<String>;

fn object(n: u8) -> ObjectID {
    ObjectID::from_bytes([n; 16])
}

fn store_with(limit: usize) -> Store {
    Store::new().with_memory(MemoryManager::new(limit))
}

fn read(store: &mut Store, id: ObjectID) -> Result<Vec<u8>, CrayonError> {
    match Get::start(id).look(store) {
        GetStep::Done(result) => result.map(|bytes| bytes.to_vec()),
        other => panic!("not settled: {other:?}"),
    }
}

#[test]
fn object_refcount_gc() {
    let mut store = Store::new();
    let (reference, size, _): (ObjectRef<i32>, usize, _) = store.put(42i32.to_le_bytes().to_vec(), 0);
    assert_eq!(size, 4);
    let id = reference.id;
    assert!(store.contains(id));
    store.drop_ref(reference);
    assert!(!store.contains(id));
}

#[test]
fn object_not_found() {
    let mut store = Store::new();
    let id = ObjectID::new();
    let mut get = Get::start(id);
    assert!(matches!(get.look(&mut store), GetStep::FetchRemote));
    let (step, _) = get.remote_answer(&mut store, None, 0);
    assert!(matches!(step, GetStep::Done(Err(CrayonError::ObjectNotFound(missing))) if missing == id));
}

#[test]
fn put_get_roundtrip() {
    let mut store = Store::new();
    let (reference, size, _): (ObjectRef<String>, usize, _) = store.put(b"hello".to_vec(), 0);
    assert_eq!(size, 5);
    assert_eq!(read(&mut store, reference.id).unwrap(), b"hello");
}

#[test]
fn stored_bytes_are_counted_until_they_are_deleted() {
    let mut store = Store::new();
    store.put_bytes(object(1), vec![1, 2, 3], None, 0);
    assert_eq!(read(&mut store, object(1)).unwrap(), vec![1, 2, 3]);
    assert_eq!(store.object_size(object(1)), 3);
    assert_eq!(store.len(), 1);
    assert!(!store.is_empty());
    store.delete(object(1));
    assert!(store.is_empty());
}

#[test]
fn get_waits_for_inflight() {
    let mut store = Store::new();
    let id = ObjectID::new();
    store.reserve(id, 0);
    let mut get = Get::start(id);
    assert!(matches!(get.look(&mut store), GetStep::Wait(_)));
    store.put_with_id(id, 99i32.to_le_bytes().to_vec(), 0);
    assert!(matches!(get.look(&mut store), GetStep::Done(Ok(bytes)) if bytes.to_vec() == 99i32.to_le_bytes()));
}

#[test]
fn object_batch_put_get() {
    let mut store = Store::new();
    let values: Vec<Vec<u8>> = (0..100i32).map(|value| value.to_le_bytes().to_vec()).collect();
    let (refs, aftermaths): (Vec<ObjectRef<i32>>, _) = store.put_batch(values, 0);
    assert_eq!(refs.len(), 100);
    assert_eq!(aftermaths.len(), 100);
    let mut sum: i32 = 0;
    for reference in &refs {
        let bytes = read(&mut store, reference.id).unwrap();
        sum += i32::from_le_bytes([bytes[0], bytes[1], bytes[2], bytes[3]]);
    }
    assert_eq!(sum, (0..100i32).sum::<i32>());
}

#[test]
fn batch_operations() {
    let mut store = Store::new();
    let values: Vec<Vec<u8>> = (0..500u64).map(|value| value.to_le_bytes().to_vec()).collect();
    let (refs, _): (Vec<ObjectRef<u64>>, _) = store.put_batch(values, 0);
    assert_eq!(refs.len(), 500);
    let ids: Vec<ObjectID> = refs.iter().map(|reference| reference.id).collect();
    let results: Vec<_> = ids.iter().map(|id| read(&mut store, *id)).collect();
    assert_eq!(results.len(), 500);
    for (i, result) in results.into_iter().enumerate() {
        assert_eq!(result.unwrap(), (i as u64).to_le_bytes());
    }
}

#[test]
fn a_batch_spills_as_single_puts_do() {
    let mut store = store_with(4096);
    let (refs, aftermaths): (Vec<ObjectRef<()>>, _) = store.put_batch(vec![vec![1; 3000], vec![2; 3000]], 0);
    assert!(aftermaths[0].spills.is_empty());
    assert_eq!(aftermaths[1].spills.len(), 1);
    assert_eq!(aftermaths[1].spills[0].id, refs[0].id);
    assert_eq!(refs[1].generation, refs[0].generation + 1);
}

#[test]
fn large_object() {
    let mut store = Store::new();
    let data: Vec<u8> = vec![42u8; 10 * 1024 * 1024];
    let (reference, _) = store.put_bytes_ref(data.clone(), 0);
    let retrieved = read(&mut store, reference.id).unwrap();
    assert_eq!(retrieved.len(), data.len());
    assert_eq!(retrieved[0], 42);
    assert_eq!(retrieved[retrieved.len() - 1], 42);
    let id = reference.id;
    store.drop_ref(reference);
    assert!(!store.contains(id));
}

#[test]
fn a_remote_object_is_kept_here_too() {
    let mut store = Store::new();
    let mut get = Get::start(object(1));
    assert!(matches!(get.look(&mut store), GetStep::FetchRemote));
    let (step, _) = get.remote_answer(&mut store, Some(vec![9]), 0);
    assert!(matches!(step, GetStep::Done(Ok(bytes)) if bytes.to_vec() == vec![9]));
    assert_eq!(read(&mut store, object(1)).unwrap(), vec![9]);
}

#[test]
fn a_reference_keeps_an_object_until_the_last_is_dropped() {
    let mut store = Store::new();
    let (first, _, _): (ObjectRef<()>, usize, _) = store.put_as(object(1), vec![1], 0);
    let second = store.clone_ref(&first);
    assert!(first.same(&second));
    store.drop_ref(first);
    assert!(store.contains(object(1)));
    store.drop_ref(second);
    assert!(!store.contains(object(1)));
}

#[test]
fn a_pin_keeps_an_object_without_references() {
    let mut store = Store::new();
    let (reference, _, _): (ObjectRef<()>, usize, _) = store.put_as(object(1), vec![1], 0);
    let generation = store.pin(object(1), 0);
    store.drop_ref(reference);
    assert!(store.contains(object(1)));
    store.unpin(object(1), generation);
    assert!(!store.contains(object(1)));
}

#[test]
fn a_reference_to_an_older_generation_drops_nothing() {
    let mut store = Store::new();
    let (old, _, _): (ObjectRef<()>, usize, _) = store.put_as(object(1), vec![1], 0);
    store.put_bytes(object(1), vec![2], None, 0);
    assert_eq!(store.drop_ref(old), None);
    assert_eq!(read(&mut store, object(1)).unwrap(), vec![2]);
}

#[test]
fn local_values_are_not_bytes() {
    let mut store = Store::new();
    store.put_local(object(1), "here".to_string(), 0);
    assert!(store.is_local(object(1)));
    assert_eq!(store.get_local(object(1)).unwrap(), "here");
    assert!(matches!(read(&mut store, object(1)), Err(CrayonError::TypeMismatch)));
    assert!(matches!(store.get_local(object(2)), Err(CrayonError::ObjectNotFound(_))));
}

#[test]
fn a_failed_object_gives_its_error_back() {
    let mut store = Store::new();
    store.put_error(object(1), CrayonError::TaskFailed("no".into()), 0);
    assert!(matches!(read(&mut store, object(1)), Err(CrayonError::TaskFailed(text)) if text == "no"));
    assert!(!store.contains(object(1)));
}

#[test]
fn a_read_waits_for_the_producer() {
    let mut store = Store::new();
    let (reference, mut lease, _) = store.reserve_output::<u64>(object(1), None, 0);
    let mut get = Get::start(object(1));
    let GetStep::Wait(version) = get.look(&mut store) else {
        panic!("nothing to wait for")
    };
    let (kept, _) = lease.publish(&mut store, vec![7], None, 0);
    assert!(kept);
    assert!(matches!(get.look(&mut store), GetStep::Done(Ok(bytes)) if bytes.to_vec() == vec![7]));
    let (again, _) = lease.publish(&mut store, vec![8], None, 0);
    assert!(!again);
    assert_eq!(read(&mut store, object(1)).unwrap(), vec![7]);
    let _ = version;
    store.drop_ref(reference);
    assert!(matches!(get.timed_out(), CrayonError::Timeout(id) if id == object(1)));
}

#[test]
fn dropped_inflight_task_result_is_reinserted_without_owner() {
    let mut store = store_with(1024 * 1024);
    let (reference, mut lease, _) = store.reserve_output::<Vec<u8>>(object(1), None, 0);
    let id = reference.id;
    store.drop_ref(reference);
    assert!(!store.contains(id));
    let (kept, aftermath) = lease.publish(&mut store, vec![7u8; 4096], None, 100);
    assert!(kept);
    assert!(aftermath.spills.is_empty());
    assert!(store.contains(id));
    assert_eq!(store.len(), 1);
    assert!(store.memory_stats().0 >= 4096);
    assert_eq!(store.memory_stats(), (4096, 1024 * 1024));
    assert_eq!(read(&mut store, id).unwrap(), vec![7u8; 4096]);
}

#[test]
fn a_failure_that_nobody_waits_for_leaves_nothing() {
    let mut store = store_with(1 << 20);
    let (reference, mut lease, _) = store.reserve_output::<u64>(object(1), None, 0);
    store.drop_ref(reference);
    let (kept, _) = lease.fail(&mut store, CrayonError::TypeMismatch, 0);
    assert!(!kept);
    assert!(!store.contains(object(1)));
    assert!(matches!(Get::start(object(1)).look(&mut store), GetStep::FetchRemote));
}

#[test]
fn a_lease_that_is_given_up_fails_the_output() {
    let mut store = Store::new();
    let (_reference, mut lease, _) = store.reserve_output::<u64>(object(1), None, 0);
    lease.abandon(&mut store, 0);
    assert!(matches!(read(&mut store, object(1)), Err(CrayonError::ObjectNotFound(id)) if id == object(1)));
}

#[test]
fn disk_spilling() {
    let mut store = store_with(1_500);
    let first = store.put_bytes(object(1), vec![1; 1_000], None, 0);
    assert!(first.spills.is_empty());
    let mut second = store.put_bytes(object(2), vec![2; 1_000], None, 0);
    assert_eq!(second.spills.len(), 1);
    let job = second.spills.remove(0);
    assert_eq!(job.id, object(1));
    assert_eq!(job.bytes.to_vec(), vec![1; 1_000]);
    let file = job.bytes.to_vec();
    let generation = job.generation;
    let mut get = Get::start(object(1));
    assert!(matches!(get.look(&mut store), GetStep::Wait(_)));
    assert!(!store.finish_spill(job, true));
    assert_eq!(store.memory_stats(), (1_000, 1_500));
    assert!(matches!(get.look(&mut store), GetStep::ReadSpill(found) if found == generation));
    let (step, delete, spills) = get.spill_read(&mut store, generation, Ok(file));
    assert!(matches!(step, GetStep::Done(Ok(bytes)) if bytes.to_vec() == vec![1; 1_000]));
    assert!(delete);
    assert_eq!(spills.len(), 1);
    assert_eq!(spills[0].id, object(2));
}

#[test]
fn a_spill_that_fails_puts_the_object_back() {
    let mut store = store_with(1_500);
    store.put_bytes(object(1), vec![1; 1_000], None, 0);
    let mut aftermath = store.put_bytes(object(2), vec![2; 1_000], None, 0);
    let job = aftermath.spills.remove(0);
    store.finish_spill(job, false);
    assert_eq!(store.spill_failures(), 1);
    assert_eq!(store.memory_stats(), (2_000, 1_500));
    assert_eq!(read(&mut store, object(1)).unwrap(), vec![1; 1_000]);
}

#[test]
fn an_unreadable_spill_file_is_an_error() {
    let mut store = store_with(10);
    store.put_bytes(object(1), vec![1; 8], None, 0);
    let mut aftermath = store.put_bytes(object(2), vec![2; 8], None, 0);
    let job = aftermath.spills.remove(0);
    let generation = job.generation;
    store.finish_spill(job, true);
    let mut get = Get::start(object(1));
    assert!(matches!(get.look(&mut store), GetStep::ReadSpill(_)));
    let (step, delete, _) = get.spill_read(&mut store, generation, Err("gone".into()));
    assert!(matches!(step, GetStep::Done(Err(CrayonError::TaskFailed(text))) if text == "gone"));
    assert!(!delete);
}

#[test]
fn least_recently_used_goes_first() {
    let mut memory = MemoryManager::new(30);
    assert!(memory.record_put(object(1), 1, 10).is_empty());
    assert!(memory.record_put(object(2), 2, 10).is_empty());
    assert!(memory.record_put(object(3), 3, 10).is_empty());
    memory.touch(object(1), 1);
    let gone = memory.record_put(object(4), 4, 10);
    assert_eq!(gone.len(), 1);
    assert_eq!((gone[0].id, gone[0].generation, gone[0].size), (object(2), 2, 10));
    assert_eq!(memory.total_bytes(), 30);
    assert_eq!(memory.num_objects(), 3);
    memory.remove(object(3), 3);
    assert_eq!(memory.total_bytes(), 20);
    memory.remove(object(1), 99);
    assert_eq!(memory.total_bytes(), 20);
    assert_eq!(memory.max_memory_bytes(), 30);
}

#[test]
fn spill_files_are_named_by_object_and_generation() {
    assert_eq!(spill_name(object(0xab), 7), format!("{}.7.bin", "ab".repeat(16)));
}

fn values(store: &mut VersionedStore<String>, id: ObjectID) -> Vec<u8> {
    read(store.objects(), id).unwrap()
}

#[test]
fn versioned_store_eviction() {
    let mut versions = VersionedStore::new(Store::new(), 3);
    for i in 0..10u64 {
        versions.put_bytes_with_version("checkpoint", i.to_le_bytes().to_vec(), i, 0, i);
    }
    let history: Vec<u64> = versions.history("checkpoint").iter().map(|m| m.version).collect();
    assert_eq!(history.len(), 3);
    assert_eq!(history, vec![7, 8, 9]);
    let latest = versions.latest("checkpoint").unwrap();
    assert_eq!(values(&mut versions, latest), 9u64.to_le_bytes().to_vec());
    assert!(versions.at_version("checkpoint", 7).is_some());
    assert!(versions.at_version("checkpoint", 6).is_none());
    assert_eq!(versions.latest_version("checkpoint"), 9);
}

#[test]
fn versions_are_counted_up_and_removed() {
    let mut versions = VersionedStore::new(Store::new(), 0);
    assert_eq!(versions.latest_version("w"), 0);
    let (first, _, _) = versions.put("w", vec![1], 0, 100);
    let (second, _, _) = versions.put("w", vec![1, 2], 0, 101);
    assert_eq!((first.version, second.version), (1, 2));
    assert_eq!((second.size_bytes, second.created_at), (2, 101));
    assert_eq!((first.generation, second.generation), (1, 2));
    assert_eq!(versions.history("w").len(), 2);
    versions.remove("w");
    assert!(versions.history("w").is_empty());
    assert!(versions.latest("w").is_none());
    assert!(!versions.objects().contains(first.object_id));
}

fn task_meta(n: u8, state: TaskState) -> TaskMeta {
    TaskMeta { id: TaskID::from_bytes([n; 16]), state, created_at: 0, finished_at: None, output: None }
}

#[test]
fn records_of_tasks() {
    let mut gcs = Gcs::new();
    gcs.add_task(task_meta(1, TaskState::Pending));
    gcs.add_task(task_meta(2, TaskState::Pending));
    let id = TaskID::from_bytes([1; 16]);
    gcs.set_task_state(id, TaskState::Finished, None, 55);
    let tasks = gcs.tasks();
    assert_eq!(tasks.len(), 2);
    let done = tasks.iter().find(|task| task.id == id).unwrap();
    assert_eq!(done.finished_at, Some(55));
    assert_eq!(gcs.count_tasks(TaskState::Finished), 1);
    assert_eq!(gcs.count_tasks(TaskState::Pending), 1);
    assert_eq!(MAX_TASKS, 100_000);
}

#[test]
fn records_of_objects_and_actors() {
    let mut gcs = Gcs::new();
    gcs.add_object(ObjectMeta { id: object(1), size_bytes: 3, created_at: 1, owner: None, owner_node: None });
    assert_eq!(gcs.get_object(object(1)).unwrap().size_bytes, 3);
    gcs.remove_object(object(1));
    assert!(gcs.objects().is_empty());
    let id = ActorID::from_bytes([4; 16]);
    gcs.add_actor(ActorMeta {
        id,
        name: "ps".into(),
        state: ActorState::Pending,
        owner_node: None,
        created_at: 0,
        pending_tasks: 0,
        completed_tasks: 0,
    });
    gcs.set_actor_state(id, ActorState::Running);
    gcs.record_actor_task(id, false);
    gcs.record_actor_task(id, false);
    gcs.record_actor_task(id, true);
    let found = gcs.get_actor_by_name("ps").unwrap();
    assert_eq!(found.state, ActorState::Running);
    assert_eq!((found.pending_tasks, found.completed_tasks), (1, 1));
    assert!(gcs.get_actor_by_name("other").is_none());
    assert!(gcs.get_actor(ActorID::from_bytes([5; 16])).is_none());
}

fn task(n: u8, priority: u8, max_retries: u32) -> Task<u8> {
    Task {
        id: TaskID::from_bytes([n; 16]),
        output_id: object(n),
        max_retries,
        retries: 0,
        priority,
        func: n,
    }
}

struct Tasks {
    gcs: Gcs,
    store: Store,
    pool: WorkerPool<u8>,
}

impl Tasks {
    fn new() -> Self {
        let mut gcs = Gcs::new();
        let pool = WorkerPool::new(1, &mut gcs);
        Tasks { gcs, store: Store::new(), pool }
    }

    fn submit(&mut self, task: Task<u8>, worker: Option<usize>) -> Dispatch<u8> {
        let (reference, lease, _) = self.store.reserve_output::<u8>(task.output_id, Some(task.id), 0);
        assert_eq!(reference.task_id(), Some(task.id));
        self.pool.submit(&mut self.gcs, task, lease, true, "", worker, 0).unwrap()
    }

    fn state(&self, n: u8) -> TaskState {
        let id = TaskID::from_bytes([n; 16]);
        self.gcs.tasks().iter().find(|task| task.id == id).unwrap().state
    }
}

#[test]
fn a_task_runs_and_hands_in_its_output() {
    let mut tasks = Tasks::new();
    assert_eq!(tasks.pool.num_workers(), 1);
    let Dispatch::Send(worker, running) = tasks.submit(task(1, 0, 0), Some(0)) else {
        panic!("not sent")
    };
    assert!(tasks.pool.begin(&mut tasks.gcs, running.id, worker, 1));
    assert_eq!(tasks.state(1), TaskState::Running);
    assert_eq!(tasks.gcs.count_busy(), 1);
    let (next, _) = tasks.pool.after_run(&mut tasks.store, &mut tasks.gcs, running, Ok(vec![42]), 2);
    assert!(matches!(next, AfterRun::Over));
    finish_worker(&mut tasks.gcs, worker);
    assert_eq!(tasks.gcs.count_busy(), 0);
    assert_eq!(tasks.state(1), TaskState::Finished);
    assert_eq!(read(&mut tasks.store, object(1)).unwrap(), vec![42]);
}

#[test]
fn task_retry_on_failure() {
    let mut tasks = Tasks::new();
    let Dispatch::Send(_, mut running) = tasks.submit(task(1, 0, 3), Some(0)) else {
        panic!("not sent")
    };
    let mut delays = Vec::new();
    for _ in 0..2 {
        tasks.pool.begin(&mut tasks.gcs, running.id, 0, 0);
        let failure = Err(panic_to_error(Some("intentional failure".into()), "task panicked"));
        let (next, _) = tasks.pool.after_run(&mut tasks.store, &mut tasks.gcs, running, failure, 0);
        let AfterRun::Retry(again, delay) = next else {
            panic!("not retried")
        };
        delays.push(delay);
        assert_eq!(tasks.state(1), TaskState::Pending);
        assert!(tasks.pool.requeue(again));
        running = tasks.pool.pump_pending().remove(0);
    }
    assert_eq!(delays, vec![200, 400]);
    let (next, _) = tasks.pool.after_run(&mut tasks.store, &mut tasks.gcs, running, Ok(vec![42]), 0);
    assert!(matches!(next, AfterRun::Over));
    assert_eq!(read(&mut tasks.store, object(1)).unwrap(), vec![42]);
}

#[test]
fn task_panic_surfaces_error() {
    let mut tasks = Tasks::new();
    let Dispatch::Send(_, running) = tasks.submit(task(1, 0, 0), Some(0)) else {
        panic!("not sent")
    };
    let failure = Err(panic_to_error(Some("boom".into()), "task panicked"));
    let (next, _) = tasks.pool.after_run(&mut tasks.store, &mut tasks.gcs, running, failure, 0);
    assert!(matches!(next, AfterRun::Over));
    assert_eq!(tasks.state(1), TaskState::Failed);
    assert!(matches!(read(&mut tasks.store, object(1)), Err(CrayonError::TaskFailed(text)) if text == "boom"));
    assert!(matches!(panic_to_error(None, "task panicked"), CrayonError::TaskFailed(text) if text == "task panicked"));
}

#[test]
fn task_resource_too_large_fails_fast() {
    let mut tasks = Tasks::new();
    let (_, lease, _) = tasks.store.reserve_output::<u8>(object(1), None, 0);
    let refused = tasks.pool.submit(&mut tasks.gcs, task(1, 0, 0), lease, false, "2 cpu", None, 0);
    assert!(matches!(
        refused,
        Err(CrayonError::TaskFailed(text)) if text == "task requires 2 cpu but no worker has enough total resources"
    ));
    assert!(tasks.gcs.tasks().is_empty());
}

#[test]
fn waiting_tasks_come_by_priority() {
    let mut tasks = Tasks::new();
    for (n, priority) in [(1, 3), (2, 9), (3, 0), (4, 9)] {
        assert!(matches!(tasks.submit(task(n, priority, 0), None), Dispatch::Queued));
    }
    let order: Vec<u8> = tasks.pool.pump_pending().iter().map(|task| task.priority).collect();
    assert_eq!(order, vec![9, 9, 3, 0]);
    assert!(tasks.pool.pump_pending().is_empty());
}

#[test]
fn task_cancellation() {
    let tasks = Tasks::new();
    let Tasks { mut gcs, mut store, pool } = tasks;
    let mut scheduler = Scheduler::new(pool);
    assert!(scheduler.cancel_task(TaskID::new(), &mut store, &mut gcs, 0).is_none());
    let (_, lease, _) = store.reserve_output::<u8>(object(1), None, 0);
    scheduler.schedule(&mut gcs, task(1, 0, 5), lease, true, "", None, 0).unwrap();
    let id = TaskID::from_bytes([1; 16]);
    assert!(scheduler.cancel_task(id, &mut store, &mut gcs, 9).is_some());
    assert!(scheduler.pump_pending().is_empty());
    assert!(matches!(read(&mut store, object(1)), Err(CrayonError::TaskCancelled(found)) if found == id));
    assert_eq!(gcs.tasks()[0].state, TaskState::Cancelled);
}

#[test]
fn a_task_runs_after_an_unknown_one_was_cancelled() {
    let Tasks { mut gcs, mut store, pool } = Tasks::new();
    let mut scheduler = Scheduler::new(pool);
    assert!(scheduler.cancel_task(TaskID::new(), &mut store, &mut gcs, 0).is_none());
    let (_, lease, _) = store.reserve_output::<u8>(object(2), None, 0);
    let Dispatch::Send(_, running) = scheduler.schedule(&mut gcs, task(2, 0, 0), lease, true, "", Some(0), 0).unwrap()
    else {
        panic!("not sent")
    };
    let (next, _) = scheduler.pool.after_run(&mut store, &mut gcs, running, Ok(vec![42]), 0);
    assert!(matches!(next, AfterRun::Over));
    assert_eq!(read(&mut store, object(2)).unwrap(), vec![42]);
}

#[test]
fn cancel_running_probe() {
    let mut tasks = Tasks::new();
    let Dispatch::Send(_, running) = tasks.submit(task(1, 0, 0), Some(0)) else {
        panic!("not sent")
    };
    let task_id = running.id;
    assert!(tasks.pool.begin(&mut tasks.gcs, task_id, 0, 0));
    assert_eq!(tasks.state(1), TaskState::Running);
    assert!(tasks.pool.cancel_task(task_id, &mut tasks.store, &mut tasks.gcs, 0).is_some());
    let value = 42u64.to_le_bytes().to_vec();
    let (next, _) = tasks.pool.after_run(&mut tasks.store, &mut tasks.gcs, running, Ok(value), 300);
    assert!(matches!(next, AfterRun::Over));
    assert_eq!(read(&mut tasks.store, object(1)).unwrap(), 42u64.to_le_bytes());
    assert_eq!(tasks.state(1), TaskState::Finished);
}

#[test]
fn a_cancelled_run_that_fails_is_not_retried() {
    let mut tasks = Tasks::new();
    let Dispatch::Send(_, running) = tasks.submit(task(1, 0, 5), Some(0)) else {
        panic!("not sent")
    };
    let id = running.id;
    tasks.pool.begin(&mut tasks.gcs, id, 0, 0);
    tasks.pool.cancel_task(id, &mut tasks.store, &mut tasks.gcs, 0);
    let failure = Err(CrayonError::TypeMismatch);
    let (next, _) = tasks.pool.after_run(&mut tasks.store, &mut tasks.gcs, running, failure, 0);
    assert!(matches!(next, AfterRun::Over));
    assert_eq!(tasks.state(1), TaskState::Cancelled);
    assert!(matches!(read(&mut tasks.store, object(1)), Err(CrayonError::TaskCancelled(found)) if found == id));
    assert!(tasks.pool.cancel_task(id, &mut tasks.store, &mut tasks.gcs, 0).is_none());
}

#[test]
fn a_task_that_is_cancelled_between_attempts_does_not_run_again() {
    let mut tasks = Tasks::new();
    let Dispatch::Send(_, running) = tasks.submit(task(1, 0, 5), Some(0)) else {
        panic!("not sent")
    };
    let id = running.id;
    tasks.pool.begin(&mut tasks.gcs, id, 0, 0);
    let failure = Err(CrayonError::TypeMismatch);
    let (next, _) = tasks.pool.after_run(&mut tasks.store, &mut tasks.gcs, running, failure, 0);
    let AfterRun::Retry(again, _) = next else {
        panic!("not retried")
    };
    assert!(tasks.pool.cancel_task(id, &mut tasks.store, &mut tasks.gcs, 0).is_some());
    assert!(!tasks.pool.requeue(again));
    assert_eq!(tasks.state(1), TaskState::Cancelled);
    assert!(matches!(read(&mut tasks.store, object(1)), Err(CrayonError::TaskCancelled(found)) if found == id));
}

#[test]
fn retry_delays_double_up_to_a_limit() {
    assert_eq!(
        [1, 2, 3, 4, 5, 6, 7, 1_000].map(retry_delay_ms),
        [200, 400, 800, 1_600, 3_200, 6_400, 6_400, 6_400]
    );
}

#[test]
fn actor_restart_on_panic() {
    let mut gcs = Gcs::new();
    let (handle, mut life): (ActorHandle<u8>, _) = spawn_actor("f", 2, &mut gcs, None, 0);
    assert!(life.received(&mut gcs, false));
    let (answer, next) = life.ran(&mut gcs, Err(Some("boom".into())));
    assert!(matches!(answer, Err(CrayonError::TaskFailed(text)) if text == "boom"));
    assert_eq!(next, AfterCall::Restart);
    assert_eq!(life.ran(&mut gcs, Ok(vec![0])).1, AfterCall::Continue);
    assert_eq!(life.ran(&mut gcs, Err(None)).1, AfterCall::Restart);
    let (answer, next) = life.ran(&mut gcs, Err(None));
    assert!(matches!(answer, Err(CrayonError::TaskFailed(text)) if text == "actor method panicked"));
    assert_eq!(next, AfterCall::Stop);
    assert_eq!(gcs.get_actor(handle.id()).unwrap().state, ActorState::Dead);
}

#[test]
fn actor_kill_rejects_new_calls() {
    let mut gcs = Gcs::new();
    let id = ActorID::from_bytes([8; 16]);
    let (mut handle, life): (ActorHandle<u8>, _) = spawn_actor_as(id, "c", 0, &mut gcs, None, 0);
    handle.register_method("inc", 5);
    assert_eq!(*handle.inner.call_method("inc").unwrap(), 5);
    assert!(handle.inner.send_call(true).is_ok());
    handle.kill(&mut gcs);
    assert!(matches!(handle.inner.send_call(true), Err(CrayonError::ActorDead(dead)) if dead == id));
    assert!(matches!(handle.inner.call_method("inc"), Err(CrayonError::ActorDead(_))));
    assert_eq!(gcs.get_actor(id).unwrap().state, ActorState::Dead);
    assert!(!life.received(&mut gcs, true));
    life.closed(&mut gcs);
    assert_eq!(gcs.get_actor(id).unwrap().state, ActorState::Dead);
}

#[test]
fn actor_calls_are_counted_and_answered() {
    let mut gcs = Gcs::new();
    let mut store = Store::new();
    let (handle, _): (ActorHandle<u8>, _) = spawn_actor("c", 0, &mut gcs, None, 0);
    let answers: Vec<Option<Result<Vec<u8>, CrayonError>>> =
        vec![Some(Ok(vec![3])), Some(Err(CrayonError::TypeMismatch)), None];
    for (n, answer) in answers.into_iter().enumerate() {
        let reference: ObjectRef<u8> = handle.call(&mut store, &mut gcs, object(n as u8), 0);
        assert_eq!(reference.id, object(n as u8));
        handle.call_ended(&mut store, &mut gcs, object(n as u8), answer, 0);
    }
    assert_eq!(read(&mut store, object(0)).unwrap(), vec![3]);
    assert!(matches!(read(&mut store, object(1)), Err(CrayonError::TypeMismatch)));
    assert!(matches!(read(&mut store, object(2)), Err(CrayonError::ActorDead(id)) if id == handle.id()));
    let meta = gcs.get_actor(handle.id()).unwrap();
    assert_eq!((meta.pending_tasks, meta.completed_tasks), (1, 2));
}

#[test]
fn calls_by_name_go_to_the_owner() {
    let mut gcs = Gcs::new();
    let node = NodeID([3; 16]);
    let id = ActorID::from_bytes([8; 16]);
    let remote: ActorHandle<u8> = ActorHandle::from_inner(ActorHandleInner::remote_proxy(id, node));
    assert_eq!(remote.owner_node(), Some(node));
    assert!(matches!(remote.call_named("inc", true), Route::Remote(owner) if owner == node));
    assert!(matches!(
        remote.call_named("inc", false),
        Route::Local(Err(CrayonError::ActorMethodNotFound(_, name))) if name == "inc"
    ));
    let (mut local, _): (ActorHandle<u8>, _) = spawn_actor("c", 0, &mut gcs, None, 0);
    local.register_method("inc", 1);
    assert!(matches!(local.call_named("inc", true), Route::Local(Ok(1))));
    assert!(matches!(remote_answer(Err("gone".into())), Err(CrayonError::TaskFailed(text)) if text == "gone"));
    assert_eq!(remote_answer(Ok(vec![1])).unwrap(), vec![1]);
}

#[test]
fn status_counts_and_reports() {
    let mut gcs = Gcs::new();
    let mut store = store_with(100);
    store.put_bytes(object(1), vec![0; 10], None, 0);
    gcs.add_worker(0);
    gcs.add_worker(1);
    gcs.set_worker_busy(1, true);
    gcs.add_task(task_meta(1, TaskState::Finished));
    gcs.add_task(task_meta(2, TaskState::Failed));
    gcs.add_task(task_meta(3, TaskState::Running));
    let (handle, _): (ActorHandle<u8>, _) = spawn_actor("ps", 0, &mut gcs, None, 0);
    let status = SystemStatus::snapshot(&gcs, &store);
    assert_eq!((status.objects, status.tasks_total, status.tasks_failed), (1, 3, 1));
    assert_eq!((status.workers.len(), status.busy_workers), (2, 1));
    assert_eq!((status.memory_used_bytes, status.memory_limit_bytes), (10, 100));
    let parts = Percentages { utilization: "50", memory_used: "10.0 B", memory_limit: "100.0 B", memory: "10" };
    assert_eq!(
        status.pretty(&parts),
        format!(
            "=== Crayon Status ===\nObjects: 1\nTasks: 3 total, 1 finished, 1 failed, 0 cancelled, 1 running, 0 pending\n\
             Workers: 2 (utilization 50%)\nMemory: 10.0 B / 100.0 B (10%)\nActors:\n  ps [{}] state=Running pending=0 done=0\n",
            handle.id().to_string()
        )
    );
}

#[test]
fn identifiers_and_errors_as_text() {
    let id = ObjectID::from_bytes([0x0f; 16]);
    assert_eq!(id.to_string(), "0f".repeat(16));
    assert_eq!(id.short_form(), "Obj(0f0f0f0f)");
    let task = TaskID::from_bytes([0xa1; 16]);
    assert_eq!(parse_task_id(&task.to_string()), Ok(task));
    assert_eq!(parse_task_id("A1a1"), Err("task id must be 32 hex chars, got 4".to_string()));
    assert_eq!(parse_task_id("a"), Err("invalid task id 'a': Odd number of digits".to_string()));
    let wrong = "invalid task id 'a1z!': Invalid character 'z' at position 2";
    assert_eq!(parse_task_id("a1z!"), Err(wrong.to_string()));
    for id in [ObjectID::new().as_bytes(), ActorID::default().as_bytes(), TaskID::new().as_bytes(), &NodeID::new().0] {
        assert_eq!((id[6] / 16, id[8] / 64), (4, 2));
    }
    assert_ne!(ObjectID::new(), ObjectID::new());
    assert_eq!(CrayonError::TypeMismatch.to_string(), "object type mismatch");
    assert_eq!(CrayonError::TaskFailed("x".into()).to_string(), "task failed: x");
}

fn node(n: u8, head: bool) -> Node {
    Node::new(NodeID([n; 16]), format!("host{n}"), head)
}

fn reply(step: HandleStep) -> Message {
    match step {
        HandleStep::Reply(message) => message,
        other => panic!("no reply: {other:?}"),
    }
}

#[test]
fn nodes_learn_of_each_other_through_the_head() {
    let mut head = node(1, true);
    let mut member = node(2, false);
    let store = Store::new();
    let list = reply(head.handle(member.membership_message(true), &store, None, 10));
    let Message::NodeList { epoch, nodes } = &list else {
        panic!("no list: {list:?}")
    };
    assert!(*epoch > 0);
    assert_eq!(nodes.len(), 2);
    member.follow(Some(list), 10).unwrap();
    assert_eq!(member.peers(), vec![(NodeID([1; 16]), "host1".to_string())]);
    assert_eq!(member.peer_addr(NodeID([1; 16])).unwrap(), "host1");
    assert!(member.peer_addr(NodeID([9; 16])).is_err());
    assert_eq!(head.peers(), vec![(NodeID([2; 16]), "host2".to_string())]);
    assert!(head.prune(10 + PEER_TTL_MS - 1).is_empty());
    head.prune(10 + PEER_TTL_MS);
    assert!(head.peers().is_empty());
}

#[test]
fn an_older_list_of_nodes_is_ignored() {
    let mut member = node(2, false);
    let newer = Message::NodeList { epoch: 5, nodes: vec![(NodeID([1; 16]), "a".into()), (NodeID([2; 16]), "me".into())] };
    member.follow(Some(newer), 1).unwrap();
    let older = Message::NodeList { epoch: 4, nodes: vec![(NodeID([7; 16]), "b".into())] };
    member.follow(Some(older), 2).unwrap();
    assert_eq!(member.peers(), vec![(NodeID([1; 16]), "a".to_string())]);
    assert!(member.follow(None, 3).is_err());
}

#[test]
fn a_node_serves_objects_and_actor_calls() {
    let mut head = node(1, true);
    let mut store = Store::new();
    store.put_bytes(object(1), vec![4], None, 0);
    assert!(matches!(head.handle(Message::GetObject(object(1)), &store, None, 0), HandleStep::ReadObject(id) if id == object(1)));
    assert!(matches!(reply(head.handle(Message::GetObject(object(2)), &store, None, 0)), Message::ObjectNotFound(id) if id == object(2)));
    assert_eq!(remote_object_result(object(1), object_data(object(1), vec![4])), Ok(vec![4]));
    assert!(remote_object_result(object(1), Message::ObjectNotFound(object(1))).is_err());
    let actor = ActorID::from_bytes([8; 16]);
    let call = || Message::ActorCall { actor_id: actor, method: "inc".into(), args: vec![1] };
    assert!(matches!(reply(head.handle(call(), &store, None, 0)), Message::ActorCallReply(Err(_))));
    head.register_actor(actor);
    assert!(matches!(head.handle(call(), &store, None, 0), HandleStep::CallActor { actor_id, .. } if actor_id == actor));
    assert_eq!(remote_call_result(actor_call_reply(Ok(vec![2]))), Ok(vec![2]));
    assert!(remote_call_result(actor_call_reply(Err(CrayonError::TypeMismatch))).is_err());
}

#[test]
fn distributed_metadata_sync() {
    let mut one = node(1, true);
    let two = node(2, false);
    let mut store = Store::new();
    let mut from = Gcs::new();
    let (reference, size, _): (ObjectRef<i32>, usize, _) = store.put(99i32.to_le_bytes().to_vec(), 0);
    from.add_object(ObjectMeta { id: reference.id, size_bytes: size, created_at: 0, owner: None, owner_node: None });
    from.add_task(task_meta(3, TaskState::Finished));
    let mut to = Gcs::new();
    let answer = one.handle(two.sync_message(&from), &store, Some(&mut to), 0);
    assert!(matches!(reply(answer), Message::Ack));
    let meta = to.get_object(reference.id).unwrap();
    assert_eq!((meta.size_bytes, meta.owner_node), (4, Some(NodeID([2; 16]))));
    assert_eq!(to.count_tasks(TaskState::Finished), 1);
}

#[test]
fn connections_between_nodes() {
    assert_eq!(message_len(8u64.to_be_bytes()), Ok(8));
    assert_eq!(message_header(0x1_0203_0405), Ok(0x1_0203_0405u64.to_be_bytes()));
    assert_eq!(message_header(8_589_934_593), Err("message too large: 8589934593 bytes".to_string()));
    assert!(message_len(u64::MAX.to_be_bytes()).is_err());
    assert!(keeps_idle(15));
    assert!(!keeps_idle(16));
    assert!(retries_request(true, 1, 2));
    assert!(!retries_request(false, 1, 2));
    assert!(!retries_request(true, 2, 2));
}

#[test]
fn what_is_made_by_default_is_empty() {
    let store = Store::default();
    assert!(store.is_empty());
    assert_eq!(store.memory_stats(), (0, 0));
    let gcs = Gcs::default();
    assert!(gcs.tasks().is_empty() && gcs.workers().is_empty() && gcs.actors().is_empty());
}
