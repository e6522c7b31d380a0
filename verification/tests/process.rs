//! A coordinator and its workers, without the network between them.

use crayon::builtin::{add_inputs, add_output, builtin_descriptor, copy_output, detached_arg, detached_descriptor};
use crayon::builtin::{number_arg, offered, sleep_input, sleep_output};
use crayon::client::{accept_local, status_line, worker_line};
use crayon::cluster::CoordinatorServer;
use crayon::data_plane::LocalObjectStore;
use crayon::error::Error;
use crayon::ids::{ClusterId, NodeId, ObjectId, TaskId, WorkerEpoch};
use crayon::operation::{Codec, TaskArg};
use crayon::protocol::{
    ArenaWriteMode, ClientReply, ClientRequest, Envelope, FailureClass, ObjectPayload, RpcReply, RpcRequest, TaskFence,
    WorkerIdentity, WorkerReply, WorkerRequest,
};
use crayon::resources::ResourceSet;
use crayon::serving::{expiry_line, failure_line, frame_header, frame_len, health_line, wakes, Reaper};
use crayon::worker::{
    object_reply, poll_step, register_step, registration, Execution, ExecutionStep, OperationOutcome, PollStep,
    RegisterStep,
};

const CAPACITY: usize = 1 << 20;

fn cpu(cpu: f64) -> ResourceSet {
    ResourceSet::cpu_gpu_milli((cpu * 1000.0).round() as i64, 0).unwrap()
}

fn slot_size(slot: &Result<ObjectPayload, Error>) -> u64 {
    match slot {
        Ok(payload) => 256 + payload.bytes.as_ref().map_or(0, |bytes| bytes.len() as u64),
        Err(_) => 64,
    }
}

struct Worker {
    identity: WorkerIdentity,
    address: String,
    objects: LocalObjectStore,
}

struct Cluster {
    server: CoordinatorServer,
    memory: Vec<u8>,
    now: u64,
}

impl Cluster {
    fn start(lease_ms: u64) -> Self {
        Cluster {
            server: CoordinatorServer::new(ClusterId([0; 16]), lease_ms, "1-ab".to_string(), CAPACITY as u64),
            memory: vec![0; CAPACITY],
            now: 1_000,
        }
    }

    fn call(&mut self, request: RpcRequest) -> RpcReply {
        self.server.dispatch(&mut self.memory, request, self.now, 16, &slot_size)
    }

    fn client(&mut self, request: ClientRequest) -> ClientReply {
        match self.call(RpcRequest::Client(request)) {
            RpcReply::Client(reply) => reply,
            other => panic!("not a reply to a client: {other:?}"),
        }
    }

    fn worker(&mut self, operations: &str, address: &str, processors: f64) -> Worker {
        let request = registration(
            NodeId::new(),
            WorkerEpoch::new(),
            address,
            cpu(processors),
            offered(operations).unwrap(),
        );
        let reply = self.call(RpcRequest::Worker(WorkerRequest::Register(request)));
        match register_step(Ok(reply), "") {
            RegisterStep::Registered(registered) => Worker {
                identity: registered.identity,
                address: address.to_string(),
                objects: LocalObjectStore::new(),
            },
            other => panic!("registration failed: {other:?}"),
        }
    }

    fn submit(&mut self, name: &str, value: u64, id: Option<&str>, processors: f64, attempts: u32) -> Result<(TaskId, ObjectId), Error> {
        let descriptor = detached_descriptor(name)?;
        let arg = detached_arg(descriptor.input_codec, value, id)?;
        match self.client(ClientRequest::Submit {
            operation: descriptor.key,
            args: vec![arg],
            resources: cpu(processors),
            max_attempts: attempts,
        }) {
            ClientReply::Submitted { task_id, output_id } => Ok((task_id, output_id)),
            ClientReply::Error(error) => Err(error),
            other => panic!("unexpected reply: {other:?}"),
        }
    }

    fn status(&mut self, task: TaskId) -> String {
        match self.client(ClientRequest::Status(task)) {
            ClientReply::Status(view) => status_line(&view),
            other => panic!("unexpected reply: {other:?}"),
        }
    }

    fn workers(&mut self) -> String {
        match self.client(ClientRequest::Workers) {
            ClientReply::Workers(list) => {
                let mut text = String::new();
                for view in &list {
                    text.push_str(&worker_line(view));
                    text.push('\n');
                }
                text
            }
            other => panic!("unexpected reply: {other:?}"),
        }
    }

    fn get(&mut self, id: ObjectId) -> Result<Vec<u8>, Error> {
        match self.client(ClientRequest::Get { object: id, wait_ms: 0 }) {
            ClientReply::Object(payload) => match (&payload.bytes, &payload.arena) {
                (Some(bytes), _) => Ok(bytes.to_vec()),
                (None, Some(place)) => {
                    let start = place.offset as usize;
                    Ok(self.memory[start..start + payload.size_bytes as usize].to_vec())
                }
                (None, None) => Err(Error::ObjectLost(id)),
            },
            ClientReply::Error(error) => Err(error),
            other => panic!("unexpected reply: {other:?}"),
        }
    }

    fn number(&mut self, id: ObjectId) -> Result<u64, Error> {
        let bytes = self.get(id)?;
        sleep_input(&[bytes])
    }

    fn poll(&mut self, worker: &Worker) -> PollStep {
        let request = WorkerRequest::Poll { identity: worker.identity, wait_ms: 0 };
        let reply = self.call(RpcRequest::Worker(request));
        poll_step(Ok(reply))
    }

    /// Takes the next task, reports its start, and fetches its inputs.
    fn begin(&mut self, worker: &Worker) -> (Execution, Vec<Vec<u8>>) {
        let PollStep::Execute(assignment) = self.poll(worker) else {
            panic!("no assignment")
        };
        let (mut execution, report) = Execution::start(worker.identity, assignment);
        let reply = self.call(RpcRequest::Worker(report));
        let mut step = execution.started(Ok(reply));
        loop {
            step = match step {
                ExecutionStep::Fetch(id) => {
                    let found = self.get(id);
                    execution.fetched(found)
                }
                ExecutionStep::Run(inputs) => return (execution, inputs),
                other => panic!("unexpected step: {other:?}"),
            }
        }
    }

    fn end(&mut self, worker: &mut Worker, mut execution: Execution, outcome: Result<Vec<u8>, Error>) {
        let codec = builtin_descriptor(&execution.assignment.operation.name).output_codec;
        let step = execution.finished(
            OperationOutcome::Returned(outcome),
            Some(codec),
            &mut worker.objects,
            &worker.address,
        );
        let ExecutionStep::Report(report) = step else {
            panic!("unexpected step: {step:?}")
        };
        let reply = self.call(RpcRequest::Worker(report));
        let ended = execution.reported(Ok(reply));
        assert!(matches!(ended, ExecutionStep::End(Ok(()))));
    }

    fn run_sleep(&mut self, worker: &mut Worker) {
        let (execution, inputs) = self.begin(worker);
        let millis = sleep_input(&inputs).unwrap();
        self.end(worker, execution, sleep_output(millis));
    }

    fn run_copy(&mut self, worker: &mut Worker) {
        let (execution, inputs) = self.begin(worker);
        self.end(worker, execution, copy_output(inputs));
    }
}

#[test]
fn remote_execution_and_typed_readiness() {
    let mut cluster = Cluster::start(5_000);
    let mut worker = cluster.worker("add", "127.0.0.1:1", 1.0);
    let submitted = cluster.client(ClientRequest::Submit {
        operation: builtin_descriptor("add").key,
        args: vec![number_arg(20).unwrap(), number_arg(22).unwrap()],
        resources: cpu(1.0),
        max_attempts: 1,
    });
    let ClientReply::Submitted { output_id, .. } = submitted else {
        panic!("not submitted: {submitted:?}")
    };
    let (execution, inputs) = cluster.begin(&worker);
    let (a, b) = add_inputs(&inputs).unwrap();
    cluster.end(&mut worker, execution, add_output(a, b));
    assert_eq!(cluster.number(output_id), Ok(42));
}

#[test]
fn multi_stage_dag_fetches_worker_local_output() {
    let mut cluster = Cluster::start(5_000);
    let mut worker = cluster.worker("copy", "127.0.0.1:1", 1.0);
    let (first, first_output) = cluster.submit("copy", 41, None, 1.0, 1).unwrap();
    cluster.run_copy(&mut worker);
    assert!(cluster.status(first).contains("Succeeded"));
    let (second, second_output) = cluster.submit("copy", 0, Some(&first_output.to_string()), 1.0, 1).unwrap();
    cluster.run_copy(&mut worker);
    assert!(cluster.status(second).contains("Succeeded"));
    assert_eq!(cluster.number(second_output), Ok(41));
}

#[test]
fn capability_and_resource_routing_are_enforced() {
    let mut cluster = Cluster::start(5_000);
    cluster.worker("copy", "127.0.0.1:1", 0.5);
    cluster.worker("add", "127.0.0.1:2", 1.0);
    let workers = cluster.workers();
    assert!(workers.lines().any(|line| line.contains("127.0.0.1:1") && line.contains("builtin:copy@1")));
    assert!(workers.lines().any(|line| line.contains("127.0.0.1:2") && line.contains("builtin:add@1")));
    let failure = cluster.submit("copy", 1, Some("-"), 1.0, 1);
    assert!(matches!(failure, Err(Error::InvalidResource(_))));
    assert!(failure.unwrap_err().to_string().contains("InvalidResource"));
}

#[test]
fn running_cancellation_releases_capacity_after_ack() {
    let mut cluster = Cluster::start(5_000);
    let worker = cluster.worker("sleep", "127.0.0.1:1", 1.0);
    let (task, output) = cluster.submit("sleep", 5_000, None, 1.0, 1).unwrap();
    let (mut execution, _) = cluster.begin(&worker);
    assert!(cluster.status(task).contains("Running"));
    assert!(matches!(cluster.client(ClientRequest::Cancel(task)), ClientReply::Cancelled));
    assert!(cluster.status(task).contains("CancelRequested"));
    let busy = cluster.call(RpcRequest::Worker(WorkerRequest::Poll { identity: worker.identity, wait_ms: 0 }));
    let ExecutionStep::Abort(report) = execution.polled(Ok(busy)) else {
        panic!("the cancellation was not seen")
    };
    let reply = cluster.call(RpcRequest::Worker(report));
    assert!(matches!(execution.reported(Ok(reply)), ExecutionStep::End(Ok(()))));
    assert!(cluster.status(task).contains("Cancelled"));
    let workers = cluster.workers();
    assert!(workers
        .lines()
        .any(|line| line.contains("127.0.0.1:1") && line.split_whitespace().nth(3) == Some("1")));
    assert!(cluster.get(output).is_err());
}

#[test]
fn worker_loss_retries_and_loses_owned_objects() {
    let mut cluster = Cluster::start(300);
    let first = cluster.worker("sleep", "127.0.0.1:1", 1.0);
    let (task, output) = cluster.submit("sleep", 5_000, None, 1.0, 2).unwrap();
    cluster.begin(&first);
    let status = cluster.status(task);
    let fields: Vec<&str> = status.split_whitespace().collect();
    assert_eq!(fields[2], "Running");
    assert_eq!(fields[4], first.identity.node_id.to_string());
    cluster.now += 301;
    let lost = cluster.server.state.expire_workers(cluster.now).unwrap();
    assert_eq!(lost.len(), 1);
    let mut second = cluster.worker("sleep", "127.0.0.1:2", 1.0);
    cluster.now += 100;
    let (execution, inputs) = cluster.begin(&second);
    let status = cluster.status(task);
    let fields: Vec<&str> = status.split_whitespace().collect();
    assert_eq!(fields[2], "Running");
    assert_eq!(fields[3], "2");
    let millis = sleep_input(&inputs).unwrap();
    cluster.end(&mut second, execution, sleep_output(millis));
    assert!(cluster.status(task).contains("Succeeded"));
    assert_eq!(cluster.number(output), Ok(5_000));
    cluster.now += 301;
    cluster.server.state.expire_workers(cluster.now).unwrap();
    assert_eq!(cluster.get(output), Err(Error::ObjectLost(output)));
}

#[test]
fn protocol_deadline_and_frame_limits_are_bounded() {
    let header = ((8 * 1024 * 1024 + 1) as u32).to_be_bytes();
    assert!(frame_len(header).is_err());
    assert!(frame_header(8 * 1024 * 1024 + 1).is_err());
    assert_eq!(frame_len(frame_header(8 * 1024 * 1024).unwrap()), Ok(8 * 1024 * 1024));
    let mut cluster = Cluster::start(5_000);
    assert_eq!(cluster.workers(), "");
}

#[test]
fn release_of_running_output_is_rejected_and_coordinator_survives() {
    let mut cluster = Cluster::start(5_000);
    let mut worker = cluster.worker("sleep", "127.0.0.1:1", 1.0);
    let (task, output) = cluster.submit("sleep", 1_500, None, 1.0, 1).unwrap();
    let (execution, inputs) = cluster.begin(&worker);
    assert!(cluster.status(task).contains("Running"));
    let release = cluster.client(ClientRequest::Release(output));
    assert!(matches!(release, ClientReply::Error(Error::ObjectInUse(id)) if id == output));
    let millis = sleep_input(&inputs).unwrap();
    cluster.end(&mut worker, execution, sleep_output(millis));
    assert!(cluster.status(task).contains("Succeeded"));
    assert!(cluster.workers().contains("127.0.0.1:1"));
}

#[test]
fn busy_worker_survives_release_of_owned_output() {
    let mut cluster = Cluster::start(5_000);
    let mut worker = cluster.worker("sleep", "127.0.0.1:1", 1.0);
    let (task_a, output_a) = cluster.submit("sleep", 100, None, 1.0, 1).unwrap();
    cluster.run_sleep(&mut worker);
    assert!(cluster.status(task_a).contains("Succeeded"));
    assert!(worker.objects.get(output_a).is_ok());
    let (task_b, _) = cluster.submit("sleep", 3_000, None, 1.0, 1).unwrap();
    let (mut execution, inputs) = cluster.begin(&worker);
    assert!(cluster.status(task_b).contains("Running"));
    assert!(matches!(cluster.client(ClientRequest::Release(output_a)), ClientReply::Released));
    let busy = cluster.call(RpcRequest::Worker(WorkerRequest::Poll { identity: worker.identity, wait_ms: 0 }));
    let ExecutionStep::Delete(id) = execution.polled(Ok(busy)) else {
        panic!("the release was not seen")
    };
    assert_eq!(id, output_a);
    worker.objects.delete(id);
    assert!(worker.objects.get(output_a).is_err());
    let millis = sleep_input(&inputs).unwrap();
    cluster.end(&mut worker, execution, sleep_output(millis));
    assert!(cluster.status(task_b).contains("Succeeded"));
}

#[test]
fn dead_worker_is_evicted_from_registry() {
    let mut cluster = Cluster::start(300);
    cluster.worker("sleep", "127.0.0.1:1", 1.0);
    assert!(cluster.workers().contains("127.0.0.1:1"));
    cluster.now += 301;
    cluster.server.state.expire_workers(cluster.now).unwrap();
    assert!(!cluster.workers().contains("127.0.0.1:1"));
}

#[test]
fn a_worker_serves_its_objects() {
    let mut cluster = Cluster::start(5_000);
    let mut worker = cluster.worker("copy", "127.0.0.1:1", 1.0);
    let (_, output) = cluster.submit("copy", 41, None, 1.0, 1).unwrap();
    cluster.run_copy(&mut worker);
    let ask = |body: RpcRequest| Envelope::new(ClusterId([0; 16]), body, 10_000);
    let request = ask(RpcRequest::Client(ClientRequest::GetLocal(output)));
    let reply = object_reply(&worker.objects, Some(&request), ClusterId([0; 16]), 1_000);
    let RpcReply::Client(ClientReply::Object(found)) = reply else {
        panic!("no object: {reply:?}")
    };
    assert_eq!(found.bytes.as_deref(), Some(&41u64.to_le_bytes()[..]));
    let expected = ObjectPayload { bytes: None, location: "127.0.0.1:1".into(), ..found };
    let again = object_reply(&worker.objects, Some(&request), ClusterId([0; 16]), 1_000);
    assert_eq!(accept_local(&expected, again).unwrap().to_vec(), 41u64.to_le_bytes().to_vec());
    let refused = |reply: RpcReply| {
        matches!(reply, RpcReply::Client(ClientReply::Error(Error::Protocol(text))) if text == "invalid object request")
    };
    assert!(refused(object_reply(&worker.objects, None, ClusterId([0; 16]), 1_000)));
    assert!(refused(object_reply(&worker.objects, Some(&request), ClusterId([1; 16]), 1_000)));
    assert!(refused(object_reply(&worker.objects, Some(&request), ClusterId([0; 16]), 10_001)));
    let other = ask(RpcRequest::Client(ClientRequest::Workers));
    assert!(refused(object_reply(&worker.objects, Some(&other), ClusterId([0; 16]), 1_000)));
    let missing = ask(RpcRequest::Client(ClientRequest::GetLocal(ObjectId([7; 32]))));
    let reply = object_reply(&worker.objects, Some(&missing), ClusterId([0; 16]), 1_000);
    assert!(matches!(reply, RpcReply::Client(ClientReply::Error(Error::ObjectNotFound(id))) if id == ObjectId([7; 32])));
}

#[test]
fn a_failing_operation_is_reported_with_its_class() {
    let mut cluster = Cluster::start(5_000);
    let mut worker = cluster.worker("sleep", "127.0.0.1:1", 1.0);
    let (task, output) = cluster.submit("sleep", 1, None, 1.0, 3).unwrap();
    let (execution, _) = cluster.begin(&worker);
    cluster.end(&mut worker, execution, Err(Error::Protocol("no".into())));
    let status = cluster.status(task);
    assert!(status.contains("Failed(\"Protocol(\\\"no\\\")\")"), "{status}");
    assert_eq!(cluster.get(output), Err(Error::Protocol("object unavailable".into())));
}

#[test]
fn a_draining_worker_gets_no_work() {
    let mut cluster = Cluster::start(5_000);
    let worker = cluster.worker("sleep", "127.0.0.1:1", 1.0);
    cluster.submit("sleep", 1, None, 1.0, 1).unwrap();
    let reply = cluster.call(RpcRequest::Worker(WorkerRequest::Drain(worker.identity)));
    assert!(matches!(reply, RpcReply::Worker(WorkerReply::Accepted)));
    assert!(matches!(cluster.poll(&worker), PollStep::Poll));
}

#[test]
fn a_task_argument_that_is_gone_fails_the_task() {
    let mut cluster = Cluster::start(5_000);
    let worker = cluster.worker("copy", "127.0.0.1:1", 1.0);
    let submitted = cluster.client(ClientRequest::Submit {
        operation: builtin_descriptor("copy").key,
        args: vec![TaskArg::Object(ObjectId([9; 32]))],
        resources: cpu(1.0),
        max_attempts: 1,
    });
    assert!(matches!(submitted, ClientReply::Error(Error::ObjectNotFound(id)) if id == ObjectId([9; 32])));
    assert!(matches!(cluster.poll(&worker), PollStep::Poll));
}

#[test]
fn the_coordinator_looks_after_its_state() {
    let mut cluster = Cluster::start(300);
    let mut worker = cluster.worker("sleep", "127.0.0.1:1", 1.0);
    let (task, output) = cluster.submit("sleep", 1, None, 1.0, 1).unwrap();
    cluster.run_sleep(&mut worker);
    let mut reaper = Reaper::new();
    let quiet = reaper.tick(&mut cluster.server, cluster.now);
    assert!(!wakes(&quiet));
    assert!(quiet.health.is_none() && quiet.reclaimed.is_none() && quiet.locality.is_none());
    cluster.now = 40_000;
    let tick = reaper.tick(&mut cluster.server, cluster.now);
    assert!(wakes(&tick));
    assert_eq!(tick.reclaimed, Some(0));
    assert_eq!(
        expiry_line(&tick.expired[0]),
        format!(
            "crayon.worker_dead node={} retried=0 failed=0 cancelled=0 objects_lost=1",
            worker.identity.node_id.to_string()
        )
    );
    assert_eq!(
        health_line(&tick.health.unwrap(), 7),
        "crayon.health tasks=1 runnable=0 running=0 succeeded=1 failed=0 objects=1 available=0 reserved=0 lost=1 \
         workers=0 arena_bytes=7 retries_total=0 failures_total=0"
    );
    assert_eq!(cluster.get(output), Err(Error::ObjectLost(output)));
    cluster.now += crayon::coordinator::TERMINAL_TASK_TTL_MS;
    let tick = reaper.tick(&mut cluster.server, cluster.now);
    assert_eq!(tick.reclaimed, Some(1));
    assert!(matches!(cluster.client(ClientRequest::Status(task)), ClientReply::Error(Error::TaskNotFound(id)) if id == task));
}

#[test]
fn what_was_put_is_read_back_until_it_is_released() {
    let mut cluster = Cluster::start(5_000);
    let mut ids = Vec::new();
    for text in ["one", "another", ""] {
        let bytes = text.as_bytes().to_vec();
        match cluster.client(ClientRequest::Put { codec: Codec::RawBytes, bytes: bytes.clone() }) {
            ClientReply::Object(payload) => {
                assert_eq!(payload.id.0, *blake3::hash(&bytes).as_bytes());
                assert_eq!(payload.size_bytes, bytes.len() as u64);
                ids.push((payload.id, bytes));
            }
            other => panic!("unexpected reply: {other:?}"),
        }
    }
    for (id, bytes) in &ids {
        assert_eq!(cluster.get(*id), Ok(bytes.clone()));
        match cluster.client(ClientRequest::GetLocal(*id)) {
            ClientReply::Object(payload) => assert_eq!(payload.bytes.unwrap().to_vec(), *bytes),
            other => panic!("unexpected reply: {other:?}"),
        }
    }
    let (first, _) = ids[0].clone();
    assert!(matches!(cluster.client(ClientRequest::Release(first)), ClientReply::Released));
    assert_eq!(cluster.get(first), Err(Error::Protocol("object unavailable".into())));
    let chunk = cluster.client(ClientRequest::GetChunk { id: first, offset: 0, len: 1 });
    assert!(matches!(chunk, ClientReply::Error(Error::Protocol(_))));
    assert_eq!(cluster.get(ids[1].0), Ok(b"another".to_vec()));
}

#[test]
fn what_was_streamed_is_served_in_ranges() {
    let mut cluster = Cluster::start(5_000);
    let payload: Vec<u8> = (0..1000u32).map(|n| (n % 251) as u8).collect();
    let id = ObjectId([7; 32]);
    let reserved = cluster.client(ClientRequest::ArenaReserve {
        id,
        codec: Codec::RawBytes,
        size_bytes: 1000,
        checksum: [0; 32],
        mode: ArenaWriteMode::Streamed,
    });
    let ClientReply::ArenaReserved { reservation, .. } = reserved else {
        panic!("unexpected reply: {reserved:?}")
    };
    let early = cluster.client(ClientRequest::ArenaCommit { id, reservation });
    assert!(matches!(early, ClientReply::Error(Error::Protocol(text)) if text == "arena object incomplete"));
    for (n, chunk) in payload.chunks(300).enumerate() {
        let request = ClientRequest::PutChunk { id, reservation, offset: 300 * n as u64, bytes: chunk.to_vec() };
        assert!(matches!(cluster.client(request), ClientReply::ChunkWritten));
    }
    let committed = cluster.client(ClientRequest::ArenaCommit { id, reservation });
    assert!(matches!(committed, ClientReply::Object(found) if found.id == id && found.size_bytes == 1000));
    assert_eq!(cluster.get(id), Ok(payload.clone()));
    match cluster.client(ClientRequest::GetChunk { id, offset: 299, len: 400 }) {
        ClientReply::Chunk(bytes) => assert_eq!(bytes, payload[299..699].to_vec()),
        other => panic!("unexpected reply: {other:?}"),
    }
    let beyond = cluster.client(ClientRequest::GetChunk { id, offset: 999, len: 2 });
    assert!(matches!(beyond, ClientReply::Error(Error::Protocol(_))));
}

#[test]
fn a_client_hears_what_becomes_of_its_tasks() {
    let mut cluster = Cluster::start(5_000);
    let mut worker = cluster.worker("sleep", "127.0.0.1:1", 1.0);
    let (first, output) = cluster.submit("sleep", 3, None, 1.0, 1).unwrap();
    assert!(cluster.status(first).contains("Runnable 0 -"));
    assert_eq!(cluster.get(output), Err(Error::ObjectPending(output)));
    let (second, unwanted) = cluster.submit("sleep", 4, None, 1.0, 1).unwrap();
    assert!(matches!(cluster.client(ClientRequest::Cancel(second)), ClientReply::Cancelled));
    assert!(cluster.status(second).contains("Cancelled"));
    assert_eq!(cluster.get(unwanted), Err(Error::Protocol("object unavailable".into())));
    let again = cluster.client(ClientRequest::Cancel(second));
    assert!(matches!(again, ClientReply::Error(Error::IllegalTransition(_))));
    cluster.run_sleep(&mut worker);
    assert!(cluster.status(first).contains("Succeeded 1 -"));
    assert_eq!(cluster.number(output), Ok(3));
    let (third, _) = cluster.submit("sleep", 5, None, 1.0, 1).unwrap();
    let (_, _) = cluster.begin(&worker);
    assert!(matches!(cluster.client(ClientRequest::Cancel(third)), ClientReply::Cancelled));
    assert!(cluster.status(third).contains("CancelRequested 1"));
}

#[test]
fn a_failure_for_good_is_reported_in_a_line() {
    let mut cluster = Cluster::start(5_000);
    let worker = cluster.worker("sleep", "127.0.0.1:1", 1.0);
    cluster.submit("sleep", 1, None, 1.0, 2).unwrap();
    let mut lines = Vec::new();
    for _ in 0..2 {
        cluster.now += 60_000;
        let (execution, _) = cluster.begin(&worker);
        let fence: TaskFence = execution.assignment.fence;
        let request = RpcRequest::Worker(WorkerRequest::Failed {
            identity: worker.identity,
            fence,
            message: "a \"b\"".to_string(),
            class: FailureClass::Transient,
        });
        let before = cluster.server.state.failures_total;
        cluster.call(request.clone());
        lines.push((fence, failure_line(&request, before, cluster.server.state.failures_total)));
    }
    assert_eq!(lines[0].1, None);
    let expected = format!(
        "crayon.task_failed task={} attempt=2 class=Transient reason=\"a \\\"b\\\"\"",
        lines[1].0.task_id.to_string()
    );
    assert_eq!(lines[1].1, Some(expected));
}

#[test]
fn resources_are_listed_by_name() {
    let set = ResourceSet::cpu_gpu_milli(1_500, 0).unwrap();
    assert_eq!(set.entries(), vec![("cpu".to_string(), 1_500)]);
    let read = ResourceSet::from_entries(&set.entries()).unwrap();
    assert_eq!(read.entries(), set.entries());
    assert!(ResourceSet::from_entries(&vec![("cpu".to_string(), -1)]).is_err());
}
