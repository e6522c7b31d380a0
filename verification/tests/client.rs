//! What a client makes of the replies it gets.

use std::sync::Arc;

use crayon::arena::ArenaRef;
use crayon::client::{
    arena_target, batch_step, cancel_result, check_decodable, client_reply, connect_result, get_result, plan_payload,
    put_path, put_result, release_result, remaining_wait_ms, status_result, submit_batch_result, submit_result,
    terminal_error, verify_object, wait_step, workers_result, ArenaPut, BatchStep, ChunkedGet, ChunkedPut, GetStep,
    ObjectRef, PayloadPlan, PutPath, PutStage, PutStep, WaitStep,
};
use crayon::cluster::checksum;
use crayon::error::Error;
use crayon::ids::{Attempt, CoordinatorEpoch, ObjectId, RequestId, TaskId};
use crayon::operation::Codec;
use crayon::protocol::{
    ArenaWriteMode, ClientReply, ClientRequest, ObjectPayload, RpcReply, TaskStatus, TaskView, WorkerReply,
    MAX_OBJECT_BYTES,
};

fn protocol(text: &str) -> Error {
    Error::Protocol(text.into())
}

fn payload(bytes: Option<&[u8]>, arena: Option<u64>, size_bytes: u64) -> ObjectPayload {
    ObjectPayload {
        id: ObjectId([1; 32]),
        codec: Codec::RawBytes,
        size_bytes,
        checksum: bytes.map_or([0; 32], checksum),
        location: "worker:1".into(),
        bytes: bytes.map(Arc::from),
        arena: arena.map(|offset| ArenaRef { token: "t".into(), offset }),
    }
}

fn arena_put() -> ArenaPut {
    ArenaPut::start(4, Codec::RawBytes, ObjectId([1; 32]), [0; 32]).0
}

fn reserved(offset: u64) -> ClientReply {
    ClientReply::ArenaReserved { id: ObjectId([1; 32]), offset, reservation: RequestId([7; 16]) }
}

#[test]
fn a_put_through_the_arena_writes_and_commits() {
    let mut put = arena_put();
    assert!(matches!(put.step(reserved(8), Some(12)), PutStep::Write(8)));
    assert!(matches!(
        put.wrote(),
        ClientRequest::ArenaCommit { id, reservation } if id == ObjectId([1; 32]) && reservation == RequestId([7; 16])
    ));
    let refused = put.step(ClientReply::Error(Error::StaleFence), Some(12));
    assert!(matches!(refused, PutStep::Done(Err(Error::StaleFence))));
    assert!(matches!(put.stage, PutStage::Over));
}

#[test]
fn a_put_through_the_arena_that_ended_is_over() {
    for (reply, mapped, text) in [
        (reserved(8), None, "arena writer lost after reserve"),
        (reserved(9), Some(12), "arena offset out of bounds"),
        (ClientReply::ChunkWritten, Some(12), "unexpected reserve reply"),
    ] {
        let mut put = arena_put();
        let step = put.step(reply, mapped);
        assert!(matches!(step, PutStep::Done(Err(Error::Protocol(found))) if found == text));
        assert!(matches!(put.stage, PutStage::Over));
        let again = put.step(reserved(0), Some(12));
        assert!(matches!(again, PutStep::Done(Err(Error::Protocol(found))) if found == "unexpected commit reply"));
    }
}

#[test]
fn a_put_in_chunks_sends_everything_in_order() {
    let mut bytes = vec![7u8; MAX_OBJECT_BYTES + 3];
    bytes[MAX_OBJECT_BYTES] = 8;
    let (mut put, first) = ChunkedPut::start(bytes.clone(), Codec::RawBytes, ObjectId([1; 32]));
    assert!(matches!(
        first,
        ClientRequest::ArenaReserve { size_bytes, mode: ArenaWriteMode::Streamed, checksum, .. }
            if size_bytes == bytes.len() as u64 && checksum == [0; 32]
    ));
    let mut sent = Vec::new();
    let mut reply = reserved(0);
    loop {
        match put.step(reply) {
            PutStep::Send(ClientRequest::PutChunk { offset, bytes, .. }) => {
                assert_eq!(offset, sent.len() as u64);
                sent.extend(bytes);
                reply = ClientReply::ChunkWritten;
            }
            PutStep::Send(ClientRequest::ArenaCommit { reservation, .. }) => {
                assert_eq!(reservation, RequestId([7; 16]));
                reply = ClientReply::Object(payload(None, Some(0), 0));
            }
            PutStep::Done(result) => {
                assert_eq!(result, Ok(ObjectId([1; 32])));
                break;
            }
            other => panic!("unexpected {other:?}"),
        }
    }
    assert_eq!(sent, bytes);
    assert!(matches!(put.stage, PutStage::Over));
}

#[test]
fn a_put_in_chunks_ends_with_an_error() {
    let start = || ChunkedPut::start(vec![1], Codec::RawBytes, ObjectId([1; 32])).0;
    let mut put = start();
    assert!(matches!(put.step(ClientReply::Error(Error::StaleFence)), PutStep::Done(Err(Error::StaleFence))));
    let mut put = start();
    put.step(reserved(0));
    let PutStep::Done(Err(error)) = put.step(ClientReply::Released) else {
        panic!("not over")
    };
    assert_eq!(error, protocol("unexpected put chunk reply"));
    assert!(matches!(put.stage, PutStage::Over));
}

#[test]
fn a_get_in_chunks_puts_the_object_together() {
    let content: Vec<u8> = (0..MAX_OBJECT_BYTES + 5).map(|i| (i % 251) as u8).collect();
    let mut get = ChunkedGet::start(ObjectId([1; 32]), content.len() as u64);
    let chunk = |bytes: &[u8]| RpcReply::Client(ClientReply::Chunk(bytes.to_vec()));
    let whole = loop {
        match get.next() {
            GetStep::Send(ClientRequest::GetChunk { offset, len, .. }) => {
                let range = offset as usize..(offset + len) as usize;
                get.take(chunk(&content[range])).unwrap();
            }
            GetStep::Done(result) => break result.unwrap(),
            other => panic!("unexpected {other:?}"),
        }
    };
    assert_eq!(whole, content);
    let mut short = ChunkedGet::start(ObjectId([1; 32]), 4);
    assert_eq!(short.take(chunk(&[1])), Err(Error::ObjectConflict(ObjectId([1; 32]))));
    assert_eq!(short.take(RpcReply::Client(ClientReply::Error(Error::StaleEpoch))), Err(Error::StaleEpoch));
}

#[test]
fn payloads_take_the_shortest_way() {
    assert_eq!(put_path(true, 0), PutPath::Arena);
    assert_eq!(put_path(false, MAX_OBJECT_BYTES), PutPath::Inline);
    assert_eq!(put_path(false, MAX_OBJECT_BYTES + 1), PutPath::Chunked);
    let small = arena_target(b"crayon", ObjectId([9; 32]));
    assert_eq!(small, (ObjectId(checksum(b"crayon")), checksum(b"crayon")));
    let large = arena_target(&vec![0; 1 << 20], ObjectId([9; 32]));
    assert_eq!(large, (ObjectId([9; 32]), [0; 32]));
}

#[test]
fn bytes_come_from_where_they_are() {
    let plan = |payload: &ObjectPayload, mapped| plan_payload(payload, mapped, "coordinator:1");
    assert!(matches!(plan(&payload(Some(b"ab"), None, 2), None), PayloadPlan::Inline(bytes) if *bytes == *b"ab"));
    assert!(matches!(plan(&payload(Some(b"ab"), None, 3), None), PayloadPlan::Failed(Error::ObjectConflict(_))));
    assert!(matches!(plan(&payload(None, Some(8), 4), Some(12)), PayloadPlan::Mapped { start: 8, end: 12 }));
    assert!(matches!(
        plan(&payload(None, Some(9), 4), Some(12)),
        PayloadPlan::Fetch { source } if source == "coordinator:1"
    ));
    assert!(matches!(
        plan(&payload(None, Some(0), MAX_OBJECT_BYTES as u64 + 1), None),
        PayloadPlan::Chunked { source } if source == "coordinator:1"
    ));
    assert!(matches!(plan(&payload(None, None, 4), None), PayloadPlan::Fetch { source } if source == "worker:1"));
}

#[test]
fn fetched_bytes_are_checked() {
    let id = ObjectId([1; 32]);
    let digest = checksum(b"ab");
    assert_eq!(verify_object(id, id, b"ab", digest, 2), Ok(()));
    assert_eq!(verify_object(id, id, b"zz", [0; 32], 2), Ok(()));
    let conflict = Err(Error::ObjectConflict(id));
    assert_eq!(verify_object(id, id, b"ac", digest, 2), conflict);
    assert_eq!(verify_object(id, id, b"ab", digest, 3), conflict);
    assert_eq!(verify_object(id, ObjectId([2; 32]), b"ab", digest, 2), conflict);
}

#[test]
fn waiting_goes_on_until_enough_is_there() {
    assert_eq!(remaining_wait_ms(0), Err(Error::DeadlineExceeded));
    assert_eq!(remaining_wait_ms(1), Ok(1));
    assert_eq!(remaining_wait_ms(2_999_999), Ok(2));
    assert_eq!(remaining_wait_ms(u128::MAX), Ok(u64::MAX));
    let id = ObjectId([1; 32]);
    let batch = || ClientReply::ObjectBatch(vec![Err(Error::ObjectPending(id)), Ok(payload(None, None, 1))]);
    assert!(matches!(batch_step(batch(), 2), BatchStep::Again));
    assert!(matches!(batch_step(batch(), 1), BatchStep::Done(Ok(results)) if results.len() == 2));
    assert!(matches!(batch_step(ClientReply::Released, 0), BatchStep::Done(Err(Error::Protocol(_)))));
    assert!(matches!(wait_step(Error::ObjectPending(id)), WaitStep::Again));
    assert!(matches!(wait_step(protocol("lost")), WaitStep::AskStatus));
    assert!(matches!(wait_step(Error::StaleFence), WaitStep::Failed(Error::StaleFence)));
}

#[test]
fn a_task_that_failed_says_why() {
    let task = TaskId([1; 16]);
    let output = ObjectId([2; 32]);
    let view = |state| {
        Ok(TaskView { task_id: task, output_id: output, state, attempt: Attempt(1), worker: None })
    };
    let failed = terminal_error(task, output, view(TaskStatus::Failed("boom".into())));
    assert_eq!(failed, Error::TaskFailed(task, "boom".into()));
    assert_eq!(terminal_error(task, output, view(TaskStatus::Cancelled)), Error::TaskCancelled(task));
    assert_eq!(terminal_error(task, output, view(TaskStatus::Succeeded)), Error::ObjectConflict(output));
    assert_eq!(terminal_error(task, output, Err(Error::StaleEpoch)), Error::StaleEpoch);
}

#[test]
fn replies_are_read_as_what_was_asked_for() {
    assert_eq!(check_decodable(Codec::BincodeV1), Ok(()));
    assert!(matches!(
        check_decodable(Codec::RawBytes),
        Err(Error::Protocol(text)) if text.starts_with("unsupported codec for get: ")
    ));
    let worker = client_reply(RpcReply::Worker(WorkerReply::Error(Error::StaleFence)));
    assert!(matches!(worker, Err(error) if error == protocol("unexpected worker reply")));
    assert!(matches!(client_reply(RpcReply::Client(ClientReply::Released)), Ok(ClientReply::Released)));
    let connected = ClientReply::Connected { coordinator_epoch: CoordinatorEpoch([3; 16]), arena_token: "t".into() };
    assert_eq!(connect_result(connected), Ok((CoordinatorEpoch([3; 16]), "t".to_string())));
    assert_eq!(connect_result(ClientReply::Released), Err(protocol("unexpected connect reply")));
    assert_eq!(put_result(ClientReply::Object(payload(None, None, 1))), Ok(ObjectId([1; 32])));
    assert_eq!(put_result(ClientReply::Error(Error::StaleEpoch)), Err(Error::StaleEpoch));
    let submitted = ClientReply::Submitted { task_id: TaskId([4; 16]), output_id: ObjectId([5; 32]) };
    assert!(matches!(submit_result(submitted), Ok(task) if task.task_id == TaskId([4; 16])));
    assert!(matches!(submit_result(ClientReply::Released), Err(e) if e == protocol("unexpected submit reply")));
    assert!(matches!(submit_batch_result(ClientReply::SubmittedBatch(vec![])), Ok(list) if list.is_empty()));
    assert!(matches!(get_result(ClientReply::Object(payload(None, None, 6))), Ok(found) if found.size_bytes == 6));
    assert!(matches!(get_result(ClientReply::Cancelled), Err(e) if e == protocol("unexpected get reply")));
    assert!(matches!(status_result(ClientReply::Cancelled), Err(e) if e == protocol("unexpected status reply")));
    assert!(matches!(workers_result(ClientReply::Workers(vec![])), Ok(list) if list.is_empty()));
    assert_eq!(cancel_result(ClientReply::Cancelled), Ok(()));
    assert_eq!(cancel_result(ClientReply::Released), Err(protocol("unexpected cancel reply")));
    assert_eq!(release_result(ClientReply::Released), Ok(()));
    assert_eq!(release_result(ClientReply::Cancelled), Err(protocol("unexpected release reply")));
}

#[test]
fn replies_and_references_can_be_copied() {
    let reference: ObjectRef<String> = ObjectRef::new(ObjectId([1; 32]));
    let copy = reference;
    assert_eq!(copy, reference);
    assert_eq!(copy.clone().id(), ObjectId([1; 32]));
    let reply = RpcReply::Client(ClientReply::Object(payload(Some(b"ab"), Some(8), 2)));
    let RpcReply::Client(ClientReply::Object(found)) = reply.clone() else {
        panic!("not an object")
    };
    assert_eq!((found.id, found.size_bytes), (ObjectId([1; 32]), 2));
    assert_eq!(found.bytes.as_deref(), Some(&b"ab"[..]));
    assert_eq!(TaskStatus::Failed("x".into()).clone(), TaskStatus::Failed("x".into()));
}
