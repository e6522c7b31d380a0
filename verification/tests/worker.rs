//! What workers and servers decide.

use crayon::builtin::{
    add_inputs, add_output, builtin_descriptor, copy_output, detached_arg, detached_descriptor, llm_descriptor, offered,
    number_output, rl_descriptor, rollout_input, sleep_input, sleep_output,
};
use crayon::cluster::{now_ms, unix_ms, CoordinatorServer};
use crayon::data_plane::LocalObjectStore;
use crayon::error::Error;
use crayon::ids::{
    Attempt, ClusterId, CoordinatorEpoch, LeaseId, NodeId, ObjectId, Revision, TaskId, WorkerEpoch, WorkerSessionId,
};
use crayon::judge::{
    judge, judge_answer, judge_golds, last_integer, llm_problem, model_rollout_input, pair_rollouts, take_golds,
    weights_are_stale, weights_to_load, LlmRollout,
};
use crayon::operation::{Codec, TaskArg};
use crayon::protocol::{
    ClientReply, ClientRequest, FailureClass, RegisteredWorker, RpcReply, RpcRequest, TaskAssignment, TaskFence,
    WorkerIdentity, WorkerReply, WorkerRequest,
};
use crayon::resources::ResourceSet;
use crayon::serving::{
    attempt_window, check_bind, frame_header, frame_len, keeps_connection, long_poll_step, parking, request_step,
    AttemptOutcome, Parking, Reaper, RequestStep,
};
use crayon::sidecar::{accept_reply, completions, read_reply, SidecarReply};
use crayon::worker::{
    after_session, bind_addr_for_advertise, execution_end, heartbeat_goes_on, heartbeat_period_ms, idle_step,
    poll_step, register_step, registration, report_result, AfterSession, Execution, ExecutionStage, ExecutionStep,
    OperationOutcome, OperationRegistry, PollStep, RegisterStep, WorkerSessionEnd,
};

fn identity() -> WorkerIdentity {
    WorkerIdentity {
        node_id: NodeId([1; 16]),
        worker_epoch: WorkerEpoch([2; 16]),
        session_id: WorkerSessionId([3; 16]),
        coordinator_epoch: CoordinatorEpoch([4; 16]),
    }
}

fn fence() -> TaskFence {
    TaskFence { task_id: TaskId([5; 16]), attempt: Attempt(1), lease_id: LeaseId([6; 16]) }
}

fn assignment(args: Vec<TaskArg>) -> TaskAssignment {
    TaskAssignment {
        fence: fence(),
        operation: builtin_descriptor("copy").key,
        args,
        output_id: ObjectId([7; 32]),
        resources: ResourceSet::default(),
    }
}

fn accepted() -> Result<RpcReply, Error> {
    Ok(RpcReply::Worker(WorkerReply::Accepted))
}

fn refused(error: Error) -> Result<RpcReply, Error> {
    Ok(RpcReply::Worker(WorkerReply::Error(error)))
}

#[test]
fn operations_are_registered_once() {
    let mut registry: OperationRegistry<fn(Vec<Vec<u8>>) -> usize> = OperationRegistry::new();
    registry.register(builtin_descriptor("copy"), |args| args.len()).unwrap();
    assert_eq!(
        registry.register(builtin_descriptor("copy"), |_| 0),
        Err(Error::OperationConflict("builtin:copy@1".into()))
    );
    let mut bad = builtin_descriptor("x");
    bad.key.version = 0;
    assert_eq!(
        registry.register(bad, |_| 0),
        Err(Error::Protocol("operation version must be positive".into()))
    );
    assert_eq!(registry.descriptors().len(), 1);
    assert_eq!(registry.execute(&assignment(vec![]), vec![vec![1], vec![2]]), Ok(2));
    let mut other = assignment(vec![]);
    other.operation = builtin_descriptor("add").key;
    assert_eq!(registry.execute(&other, vec![]), Err(Error::OperationUnavailable("builtin:add@1".into())));
    assert!(registry.descriptor(&builtin_descriptor("copy").key).is_some());
    assert!(registry.descriptor(&rl_descriptor().key).is_none());
}

#[test]
fn workers_offer_what_they_are_told() {
    let names = |operations: &str| -> Vec<String> {
        offered(operations).unwrap().iter().map(|descriptor| descriptor.key.to_string()).collect()
    };
    assert_eq!(names("all"), ["builtin:add@1", "builtin:copy@1", "builtin:sleep@1", "rl:rollout@1"]);
    assert_eq!(names("copy"), ["builtin:copy@1"]);
    assert_eq!(names("rl"), ["rl:rollout@1"]);
    assert_eq!(names("llm-actor"), ["llm:rollout@1"]);
    assert_eq!(names("llm-judge"), ["llm:judge@1"]);
    assert!(matches!(offered("none"), Err(Error::OperationUnavailable(name)) if name == "none"));
    assert_eq!(builtin_descriptor("copy").max_inline_arg_bytes, 65_536);
    assert_eq!(builtin_descriptor("add").max_inline_arg_bytes, 1_024);
    assert_eq!(llm_descriptor("judge").input_codec, Codec::JsonV1);
}

#[test]
fn builtin_operations_compute() {
    let number = |n: i64| n.to_le_bytes().to_vec();
    assert_eq!(add_inputs(&[number(-3), number(5)]), Ok((-3, 5)));
    assert_eq!(add_output(-3, 5), Ok(number(2)));
    assert_eq!(add_output(-3, 1), Ok(number(-2)));
    assert_eq!(add_inputs(&[number(1)]), Err(Error::Protocol("add expects two arguments".into())));
    assert!(matches!(add_inputs(&[number(1), vec![1]]), Err(Error::Serialization(_))));
    assert_eq!(copy_output(vec![vec![1, 2]]), Ok(vec![1, 2]));
    assert_eq!(copy_output(vec![]), Err(Error::Protocol("copy expects one argument".into())));
    assert_eq!(sleep_input(&[300u64.to_le_bytes().to_vec()]), Ok(300));
    assert!(matches!(sleep_input(&[vec![0; 7]]), Err(Error::Serialization(text)) if text == bincode::deserialize::<u64>(&[0; 7]).unwrap_err().to_string()));
    assert_eq!(sleep_input(&[]), Err(Error::Protocol("sleep expects one argument".into())));
    assert_eq!(sleep_output(300), Ok(bincode::serialize(&300u64).unwrap()));
}

#[test]
fn detached_tasks_take_a_number_or_an_object() {
    assert_eq!(detached_descriptor("copy").unwrap().key.to_string(), "builtin:copy@1");
    assert!(matches!(detached_descriptor("add"), Err(Error::OperationUnavailable(name)) if name == "add"));
    let inline = detached_arg(Codec::RawBytes, 7, None).unwrap();
    assert_eq!(inline, TaskArg::Inline { codec: Codec::RawBytes, bytes: 7u64.to_le_bytes().to_vec() });
    assert_eq!(detached_arg(Codec::RawBytes, 7, Some("-")).unwrap(), inline);
    let id = ObjectId([0xab; 32]);
    assert_eq!(detached_arg(Codec::RawBytes, 7, Some(&id.to_string())).unwrap(), TaskArg::Object(id));
    assert!(matches!(detached_arg(Codec::RawBytes, 7, Some("zz")), Err(Error::Protocol(_))));
}

#[test]
fn the_last_integer_of_a_completion_counts() {
    assert_eq!(last_integer("so 3 + 4 = 7."), Some(7));
    assert_eq!(last_integer("1,200"), Some(1_200));
    assert_eq!(last_integer("x -12 y"), Some(-12));
    assert_eq!(last_integer("none - at -- all"), None);
    assert_eq!(last_integer("5 then 123456789012"), Some(5));
    assert_eq!(last_integer("7 then 1-2"), None);
    assert_eq!(last_integer("--5"), Some(-5));
    assert_eq!(last_integer(""), None);
}

#[test]
fn completions_are_judged() {
    assert_eq!(llm_problem(0), (50, 50));
    assert_eq!(llm_problem(256 * 7 + 3), (57, 50 + (256 * 7 + 3) % 900));
    let rollouts = pair_rollouts(&vec![0, 1], vec!["it is 100".into(), "no idea".into(), "unused".into()]);
    assert_eq!(rollouts.len(), 2);
    assert_eq!(judge(&rollouts, None), vec![true, false]);
    assert_eq!(judge(&rollouts, Some(vec![(0, 5), (0, 100)])), vec![true, true]);
    assert_eq!(judge(&rollouts, Some(vec![(0, 100), (0, 5), (1, 1)])), vec![false, false]);
    let silent = vec![LlmRollout { seed: 9, completion: "none".into() }];
    assert_eq!(judge(&silent, Some(vec![])), vec![true]);
    assert!(!weights_are_stale("", 2, 1));
    assert!(weights_are_stale("ab", 2, 1));
    assert!(!weights_are_stale("ab", 2, 2));
}

#[test]
fn weights_are_named_by_an_object_id() {
    let id = ObjectId([0xab; 32]);
    assert_eq!(weights_to_load(&id.to_string(), 2, 1), Ok(Some(id)));
    assert_eq!(weights_to_load(&id.to_string(), 2, 2), Ok(None));
    assert_eq!(weights_to_load("", 2, 1), Ok(None));
    let fault = "llm.rollout weights id: object id must contain 64 hexadecimal characters";
    assert_eq!(weights_to_load("ab", 2, 1), Err(Error::Protocol(fault.into())));
}

#[test]
fn rollouts_take_one_argument() {
    assert_eq!(rollout_input(vec![vec![1, 2]]), Ok(vec![1, 2]));
    assert_eq!(rollout_input(vec![]), Err(Error::Protocol("rl.rollout expects one argument".into())));
    assert_eq!(model_rollout_input(vec![vec![3]]), Ok(vec![3]));
    assert_eq!(
        model_rollout_input(vec![vec![3], vec![4]]),
        Err(Error::Protocol("llm.rollout expects [config]".into()))
    );
}

fn right_answer() -> Result<Vec<LlmRollout>, String> {
    Ok(vec![LlmRollout { seed: 0, completion: "it is 100".into() }])
}

#[test]
fn answers_to_judge_by_are_read_from_json() {
    let wrong = Err(Error::Protocol("llm.judge expects [rollouts, golds?]".into()));
    assert_eq!(judge_golds(&vec![]), wrong);
    assert_eq!(judge_golds(&vec![vec![], vec![], vec![]]), wrong);
    assert_eq!(judge_golds(&vec![vec![]]), Ok(None));
    assert_eq!(judge_golds(&vec![vec![], b"[[0, 5], [7, -3]]".to_vec()]), Ok(Some(vec![(0, 5), (7, -3)])));
    let fault = serde_json::from_slice::<Vec<(u64, i64)>>(b"[[0]]").unwrap_err();
    assert_eq!(
        judge_golds(&vec![vec![], b"[[0]]".to_vec()]),
        Err(Error::Protocol(format!("llm.judge golds: {fault}")))
    );
    assert_eq!(take_golds(Some(Err("no".into()))), Err(Error::Protocol("llm.judge golds: no".into())));
    assert_eq!(take_golds(Some(Ok(vec![(1, 2)]))), Ok(Some(vec![(1, 2)])));
}

#[test]
fn a_judge_answers_or_says_what_is_wrong() {
    let args = |golds: &[u8]| vec![vec![], golds.to_vec()];
    assert_eq!(judge_answer(&vec![vec![]], right_answer()), Ok(vec![true]));
    assert_eq!(judge_answer(&args(b"[[0,5]]"), right_answer()), Ok(vec![false]));
    assert_eq!(judge_answer(&args(b"[[0,100]]"), right_answer()), Ok(vec![true]));
    assert_eq!(
        judge_answer(&args(b"nothing"), Err("eof".into())),
        Err(Error::Protocol("llm.judge input: eof".into()))
    );
    assert!(matches!(
        judge_answer(&args(b"nothing"), right_answer()),
        Err(Error::Protocol(text)) if text.starts_with("llm.judge golds: ")
    ));
    assert_eq!(
        judge_answer(&vec![], Err("eof".into())),
        Err(Error::Protocol("llm.judge expects [rollouts, golds?]".into()))
    );
}

#[test]
fn a_model_process_answers_in_lines() {
    let reply = read_reply("{\"rollouts\": [{\"completion\": \"100\"}, {\"completion\": 3}, {}]}").unwrap();
    assert_eq!(reply.error, None);
    assert_eq!(completions(reply), Ok(vec!["100".to_string(), String::new(), String::new()]));
    let ready = read_reply("{\"ok\": true}").unwrap();
    assert_eq!(completions(ready), Err(Error::Protocol("sidecar rollout reply malformed".into())));
    assert!(matches!(
        read_reply("{\"error\": \"no model\"}"),
        Err(Error::Protocol(text)) if text == "sidecar: \"no model\""
    ));
    assert!(matches!(read_reply("{\"error\": null}"), Err(Error::Protocol(text)) if text == "sidecar: null"));
    assert!(matches!(read_reply(""), Err(Error::Protocol(text)) if text.starts_with("sidecar reply: ")));
    assert!(matches!(
        accept_reply(Err("bad".into())),
        Err(Error::Protocol(text)) if text == "sidecar reply: bad"
    ));
    assert!(accept_reply(Ok(SidecarReply { error: None, completions: None })).is_ok());
}

#[test]
fn a_number_is_read_from_an_output() {
    assert_eq!(number_output(&[42, 0, 0, 0, 0, 0, 0, 0]), Ok(42));
    assert_eq!(number_output(&[1, 1, 0, 0, 0, 0, 0, 0, 9]), Ok(257));
    let fault = bincode::deserialize::<u64>(&[1]).unwrap_err();
    assert_eq!(number_output(&[1]), Err(Error::Serialization(fault.to_string())));
}

#[test]
fn a_worker_listens_on_every_interface() {
    assert_eq!(bind_addr_for_advertise("10.0.0.7:7001"), "0.0.0.0:7001");
    assert_eq!(bind_addr_for_advertise("[::1]:9"), "0.0.0.0:9");
    assert_eq!(bind_addr_for_advertise("7001"), "0.0.0.0:7001");
}

#[test]
fn a_worker_registers() {
    let request = registration(NodeId([1; 16]), WorkerEpoch([2; 16]), "h:1", ResourceSet::default(), offered("copy").unwrap());
    assert_eq!((request.slots, request.advertise_addr.as_str()), (1, "h:1"));
    let registered = RegisteredWorker { identity: identity(), revision: Revision(1), lease_timeout_ms: 9 };
    let reply = Ok(RpcReply::Worker(WorkerReply::Registered(registered)));
    assert!(matches!(register_step(reply, ""), RegisterStep::Registered(found) if found.lease_timeout_ms == 9));
    assert!(matches!(register_step(Err(Error::DeadlineExceeded), ""), RegisterStep::Retry));
    assert!(matches!(
        register_step(accepted(), "Worker(Accepted)"),
        RegisterStep::End(WorkerSessionEnd::Fatal(Error::Protocol(text))) if text == "registration failed: Worker(Accepted)"
    ));
}

#[test]
fn heartbeats_outpace_the_lease() {
    assert_eq!(heartbeat_period_ms(5_000), 1_666);
    assert_eq!(heartbeat_period_ms(3), 10);
    assert!(heartbeat_goes_on(&accepted()));
    assert!(heartbeat_goes_on(&Err(Error::Io("x".into()))));
    assert!(heartbeat_goes_on(&Err(Error::DeadlineExceeded)));
    assert!(!heartbeat_goes_on(&Err(Error::StaleEpoch)));
    assert!(!heartbeat_goes_on(&refused(Error::StaleFence)));
}

#[test]
fn an_idle_worker_polls() {
    assert!(matches!(idle_step(false, identity()), Ok(WorkerRequest::Poll { wait_ms: 2_000, .. })));
    assert!(matches!(idle_step(true, identity()), Err(PollStep::End(Ok(())))));
    assert!(matches!(poll_step(Err(Error::Io("x".into()))), PollStep::Pause));
    assert!(matches!(poll_step(Err(Error::StaleEpoch)), PollStep::End(Err(WorkerSessionEnd::Reconnect))));
    assert!(matches!(poll_step(Err(Error::Protocol("x".into()))), PollStep::End(Err(WorkerSessionEnd::Reconnect))));
    assert!(matches!(poll_step(refused(Error::StaleFence)), PollStep::End(Err(WorkerSessionEnd::Reconnect))));
    assert!(matches!(poll_step(refused(Error::Protocol("x".into()))), PollStep::Pause));
    assert!(matches!(poll_step(Ok(RpcReply::Worker(WorkerReply::Assignment(None)))), PollStep::Poll));
    assert!(matches!(
        poll_step(Ok(RpcReply::Worker(WorkerReply::Assignment(Some(assignment(vec![])))))),
        PollStep::Execute(_)
    ));
    assert!(matches!(poll_step(Ok(RpcReply::Worker(WorkerReply::Cancel(fence())))), PollStep::Cancelled(found) if found == fence()));
    assert!(matches!(poll_step(Ok(RpcReply::Worker(WorkerReply::DeleteObject(ObjectId([1; 32]))))), PollStep::Delete(_)));
    assert!(matches!(poll_step(Ok(RpcReply::Client(ClientReply::Released))), PollStep::Pause));
}

#[test]
fn sessions_end_and_begin_again() {
    assert!(execution_end(Ok(())).is_none());
    assert!(matches!(execution_end(Err(Error::Io("x".into()))), Some(WorkerSessionEnd::Reconnect)));
    assert!(matches!(execution_end(Err(Error::Protocol("x".into()))), Some(WorkerSessionEnd::Fatal(_))));
    assert!(matches!(after_session(Ok(()), false, 0, 0), AfterSession::Return(Ok(()))));
    let reconnect = || Err(WorkerSessionEnd::Reconnect);
    assert!(matches!(after_session(reconnect(), true, 0, 0), AfterSession::Return(Ok(()))));
    assert!(matches!(
        after_session(reconnect(), false, 0, 30),
        AfterSession::Reconnect { backoff_ms: 100, delay_ms: 105 }
    ));
    assert!(matches!(
        after_session(reconnect(), false, 3_000, 0),
        AfterSession::Reconnect { backoff_ms: 5_000, delay_ms: 5_000 }
    ));
    assert!(matches!(
        after_session(Err(WorkerSessionEnd::Fatal(Error::StaleEpoch)), false, 0, 0),
        AfterSession::Return(Err(Error::StaleEpoch))
    ));
}

#[test]
fn a_report_that_is_known_already_is_no_error() {
    assert_eq!(report_result(accepted()), Ok(()));
    assert_eq!(report_result(refused(Error::StaleFence)), Ok(()));
    assert_eq!(report_result(refused(Error::StaleEpoch)), Ok(()));
    assert_eq!(report_result(refused(Error::IllegalTransition("x".into()))), Ok(()));
    assert_eq!(report_result(refused(Error::DeadlineExceeded)), Err(Error::DeadlineExceeded));
    assert_eq!(report_result(Err(Error::StaleFence)), Err(Error::StaleFence));
    assert_eq!(
        report_result(Ok(RpcReply::Client(ClientReply::Released))),
        Err(Error::Protocol("coordinator did not accept worker report".into()))
    );
}

#[test]
fn an_execution_fetches_runs_and_reports() {
    let inline = TaskArg::Inline { codec: Codec::RawBytes, bytes: vec![1] };
    let (mut run, report) = Execution::start(identity(), assignment(vec![inline, TaskArg::Object(ObjectId([8; 32]))]));
    assert!(matches!(report, WorkerRequest::Started { .. }));
    assert!(matches!(run.started(accepted()), ExecutionStep::Fetch(id) if id == ObjectId([8; 32])));
    assert!(matches!(run.fetched(Ok(vec![2])), ExecutionStep::Run(inputs) if inputs == vec![vec![1], vec![2]]));
    assert!(matches!(run.polled(Ok(RpcReply::Worker(WorkerReply::Assignment(None)))), ExecutionStep::KeepRunning));
    assert!(matches!(run.polled(Err(Error::DeadlineExceeded)), ExecutionStep::KeepRunning));
    let mut objects = LocalObjectStore::new();
    let step = run.finished(OperationOutcome::Returned(Ok(vec![3])), Some(Codec::RawBytes), &mut objects, "h:1");
    let ExecutionStep::Report(WorkerRequest::Completed { report, .. }) = step else {
        panic!("not reported: {step:?}")
    };
    assert_eq!((report.size_bytes, report.location.as_str()), (1, "h:1"));
    assert_eq!(report.bytes.as_deref(), Some(&[3u8][..]));
    assert_eq!(report.checksum, crayon::cluster::checksum(&[3]));
    assert!(objects.get(ObjectId([7; 32])).is_ok());
    assert!(matches!(run.reported(accepted()), ExecutionStep::End(Ok(()))));
    assert_eq!(run.stage, ExecutionStage::Over);
}

#[test]
fn large_outputs_stay_with_the_worker() {
    for (len, inline) in [(65_536, true), (65_537, false)] {
        let (mut run, _) = Execution::start(identity(), assignment(vec![]));
        run.started(accepted());
        let mut objects = LocalObjectStore::new();
        let step = run.finished(OperationOutcome::Returned(Ok(vec![0; len])), Some(Codec::RawBytes), &mut objects, "h:1");
        let ExecutionStep::Report(WorkerRequest::Completed { report, .. }) = step else {
            panic!("not reported: {step:?}")
        };
        assert_eq!(report.bytes.is_some(), inline);
        assert_eq!(report.size_bytes, len as u64);
    }
}

#[test]
fn failures_are_reported_with_their_class() {
    let ended = |outcome: OperationOutcome| {
        let (mut run, _) = Execution::start(identity(), assignment(vec![]));
        run.started(accepted());
        match run.finished(outcome, Some(Codec::RawBytes), &mut LocalObjectStore::new(), "h:1") {
            ExecutionStep::Report(WorkerRequest::Failed { message, class, .. }) => (message, class),
            other => panic!("not reported: {other:?}"),
        }
    };
    assert_eq!(ended(OperationOutcome::Panicked), ("Protocol(\"operation panicked\")".into(), FailureClass::Permanent));
    assert_eq!(ended(OperationOutcome::Aborted), ("Protocol(\"operation task aborted\")".into(), FailureClass::Transient));
    assert_eq!(
        ended(OperationOutcome::Returned(Err(Error::Io("x".into())))),
        ("Io(\"x\")".into(), FailureClass::Transient)
    );
    let (mut run, _) = Execution::start(identity(), assignment(vec![TaskArg::Object(ObjectId([8; 32]))]));
    run.started(accepted());
    let lost = Error::ObjectLost(ObjectId([8; 32]));
    let message = lost.to_string();
    assert!(matches!(
        run.fetched(Err(lost)),
        ExecutionStep::Report(WorkerRequest::Failed { message: found, class: FailureClass::Permanent, .. }) if found == message
    ));
}

#[test]
fn a_busy_worker_watches_for_cancellation() {
    let begun = || {
        let (mut run, _) = Execution::start(identity(), assignment(vec![]));
        run.started(accepted());
        run
    };
    assert!(matches!(
        begun().polled(Ok(RpcReply::Worker(WorkerReply::Cancel(fence())))),
        ExecutionStep::Abort(WorkerRequest::Cancelled { fence: found, .. }) if found == fence()
    ));
    assert!(matches!(begun().polled(refused(Error::StaleEpoch)), ExecutionStep::End(Err(Error::StaleEpoch))));
    assert!(matches!(begun().polled(Err(Error::StaleFence)), ExecutionStep::End(Err(Error::StaleFence))));
    let stray = Ok(RpcReply::Worker(WorkerReply::Assignment(Some(assignment(vec![])))));
    assert!(matches!(
        begun().polled(stray),
        ExecutionStep::End(Err(Error::Protocol(text))) if text == "worker received assignment while busy"
    ));
    assert!(matches!(
        begun().polled(Ok(RpcReply::Worker(WorkerReply::DeleteObject(ObjectId([1; 32]))))),
        ExecutionStep::Delete(_)
    ));
}

#[test]
fn frames_start_with_their_length() {
    assert_eq!(frame_header(258), Ok([0, 0, 1, 2]));
    assert_eq!(frame_len([0, 0, 1, 2]), Ok(258));
    assert!(frame_len([0xff; 4]).is_err());
}

#[test]
fn requests_that_may_wait_are_parked() {
    let poll = RpcRequest::Worker(WorkerRequest::Poll { identity: identity(), wait_ms: 2_000 });
    assert_eq!(parking(&poll), Some(Parking { wait_ms: 2_000, wakes: true }));
    let get = |wait_ms: u64| RpcRequest::Client(ClientRequest::Get { object: ObjectId([1; 32]), wait_ms });
    assert_eq!(parking(&get(9_000)), Some(Parking { wait_ms: 4_000, wakes: false }));
    assert_eq!(parking(&get(0)), None);
    assert_eq!(parking(&RpcRequest::Client(ClientRequest::Workers)), None);
    let pending = RpcReply::Client(ClientReply::Error(Error::ObjectPending(ObjectId([1; 32]))));
    assert_eq!(long_poll_step(&get(1), &pending, 1_000_000_000), Some(250_000_000));
    assert_eq!(long_poll_step(&get(1), &pending, 0), None);
    let lost = RpcReply::Client(ClientReply::Error(Error::ObjectLost(ObjectId([1; 32]))));
    assert_eq!(long_poll_step(&get(1), &lost, 1_000_000_000), None);
}

#[test]
fn a_request_is_tried_twice_within_its_deadline() {
    assert_eq!(attempt_window(10, 4), Ok(6));
    assert_eq!(attempt_window(10, 10), Err(Error::DeadlineExceeded));
    let failed = || AttemptOutcome::Failed(Error::Io("x".into()));
    assert!(matches!(request_step(true, failed(), 100, 4), RequestStep::Retry(25)));
    assert!(matches!(request_step(false, failed(), 100, 4), RequestStep::Return(Err(Error::Io(_)))));
    assert!(matches!(request_step(true, AttemptOutcome::TimedOut, 10, 10), RequestStep::Return(Err(Error::DeadlineExceeded))));
    let reply = RpcReply::Worker(WorkerReply::Accepted);
    assert!(matches!(request_step(true, AttemptOutcome::Replied(reply), 10, 10), RequestStep::Return(Ok(_))));
    assert!(keeps_connection(7));
    assert!(!keeps_connection(8));
}

#[test]
fn the_reaper_keeps_its_rhythm() {
    assert_eq!(Reaper::period_ms(5_000), 1_666);
    assert_eq!(Reaper::period_ms(3), 10);
    let mut reaper = Reaper::new();
    assert!(reaper.report_due(40_000));
    assert!(!reaper.report_due(69_999));
    assert!(reaper.report_due(70_000));
    assert!(!reaper.locality_due(1_023));
    assert!(reaper.locality_due(1_024));
    assert!(!reaper.locality_due(1_025));
}

#[test]
fn only_a_server_that_allows_it_listens_to_other_hosts() {
    let server = || CoordinatorServer::new(ClusterId([0; 16]), 1, "t".into(), 0);
    assert!(check_bind(&server(), "127.0.0.1:7000").is_ok());
    assert!(check_bind(&server(), "0.0.0.0:7000").is_err());
    assert!(check_bind(&server().allow_remote_bind(), "0.0.0.0:7000").is_ok());
}

#[test]
fn a_clock_reading_is_counted_in_milliseconds() {
    assert_eq!(unix_ms(None), 0);
    assert_eq!(unix_ms(Some((0, 999_999))), 0);
    assert_eq!(unix_ms(Some((1, 1_000_000))), 1_001);
    assert_eq!(unix_ms(Some((1_600_000_000, 123_456_789))), 1_600_000_000_123);
    assert_eq!(unix_ms(Some((u64::MAX, 0))), (u64::MAX as u128 * 1_000) as u64);
    assert!(now_ms() > 1_600_000_000_000);
}
