use std::sync::Arc;

use crayon::cluster::{checksum, client_get_batch_ready, now_ms, CoordinatorServer};
use crayon::error::Error;
use crayon::ids::{ClusterId, CoordinatorEpoch, NodeId, ObjectId, RequestId, WorkerEpoch, WorkerSessionId};
use crayon::operation::{Codec, OperationDescriptor, OperationKey, TaskArg};
use crayon::protocol::{
    ClientReply, ClientRequest, Envelope, ObjectPayload, RegisterWorker, RpcReply, RpcRequest, TaskCompletion,
    TaskStatus, WorkerIdentity, WorkerReply, WorkerRequest, MAX_OBJECT_BYTES,
};
use crayon::replay::{ReplayCache, ReplayEntry, MAX_REPLAY_TTL_MS, REPLAY_ENTRY_OVERHEAD};
use crayon::resources::ResourceSet;

const CAPACITY: usize = 16 << 20;

fn cpu_gpu(cpu: f64, gpu: f64) -> ResourceSet {
    ResourceSet::cpu_gpu_milli((cpu * 1000.0).round() as i64, (gpu * 1000.0).round() as i64).unwrap()
}

fn descriptor() -> OperationDescriptor {
    OperationDescriptor {
        key: OperationKey::new("test", "copy", 1),
        input_codec: Codec::RawBytes,
        output_codec: Codec::RawBytes,
        max_inline_arg_bytes: 8,
    }
}

/// The size of one slot of a batch reply in bincode.
fn slot_size(slot: &Result<ObjectPayload, Error>) -> u64 {
    match slot {
        Ok(payload) => {
            let bytes = payload.bytes.as_ref().map_or(0, |bytes| 8 + bytes.len());
            let arena = payload.arena.as_ref().map_or(0, |place| 8 + place.token.len() + 8);
            (4 + 32 + 4 + 8 + 32 + 8 + payload.location.len() + 1 + bytes + 1 + arena) as u64
        }
        Err(error) => 4 + error.to_string().len() as u64,
    }
}

/// A server with its memory.
struct Server {
    inner: CoordinatorServer,
    memory: Vec<u8>,
}

impl Server {
    fn new(cluster: ClusterId, lease_ms: u64) -> Self {
        Server {
            inner: CoordinatorServer::new(cluster, lease_ms, "0123".to_string(), CAPACITY as u64),
            memory: vec![0; CAPACITY],
        }
    }
    fn dispatch_once(&mut self, envelope: &Envelope) -> Result<Arc<RpcReply>, Error> {
        let body = format!("{:?}", envelope.body).into_bytes();
        self.inner.dispatch_once(
            &mut self.memory,
            envelope.clone(),
            &body,
            now_ms(),
            16,
            &slot_size,
            &|_: &RpcReply| 64,
        )
    }
}

fn future_envelope(cluster: ClusterId, body: RpcRequest) -> Envelope {
    Envelope::new(cluster, body, now_ms().saturating_add(10_000))
}

fn with_epoch(server: &Server, mut envelope: Envelope) -> Envelope {
    envelope.coordinator_epoch = Some(server.inner.state.epoch);
    envelope
}

fn registered_server() -> (Server, WorkerIdentity) {
    let cluster = ClusterId::new();
    let mut server = Server::new(cluster, 5_000);
    let request = future_envelope(
        cluster,
        RpcRequest::Worker(WorkerRequest::Register(RegisterWorker {
            node_id: NodeId::new(),
            worker_epoch: WorkerEpoch::new(),
            advertise_addr: "127.0.0.1:9001".into(),
            resources: cpu_gpu(1.0, 0.0),
            slots: 1,
            operations: vec![descriptor()],
        })),
    );
    let reply = server.dispatch_once(&request).unwrap();
    let RpcReply::Worker(WorkerReply::Registered(registered)) = &*reply else {
        panic!("registration failed")
    };
    (server, registered.identity)
}

#[test]
fn duplicate_submit_is_dispatched_once() {
    let (mut server, _) = registered_server();
    let request = with_epoch(
        &server,
        future_envelope(
            server.inner.cluster_id,
            RpcRequest::Client(ClientRequest::Submit {
                operation: descriptor().key,
                args: vec![TaskArg::Inline {
                    codec: Codec::RawBytes,
                    bytes: vec![1],
                }],
                resources: ResourceSet::default(),
                max_attempts: 1,
            }),
        ),
    );
    let first = server.dispatch_once(&request).unwrap();
    let second = server.dispatch_once(&request).unwrap();
    let submitted = |reply: &RpcReply| match reply {
        RpcReply::Client(ClientReply::Submitted { task_id, output_id }) => (*task_id, *output_id),
        _ => panic!("submit failed"),
    };
    assert_eq!(submitted(&first), submitted(&second));
    assert_eq!(server.inner.state.tasks.len(), 1);
}

#[test]
fn request_id_cannot_be_reused_with_another_body() {
    let (mut server, _) = registered_server();
    let first = with_epoch(
        &server,
        future_envelope(
            server.inner.cluster_id,
            RpcRequest::Client(ClientRequest::Submit {
                operation: descriptor().key,
                args: vec![],
                resources: ResourceSet::default(),
                max_attempts: 1,
            }),
        ),
    );
    server.dispatch_once(&first).unwrap();
    let mut conflicting = with_epoch(
        &server,
        future_envelope(
            server.inner.cluster_id,
            RpcRequest::Client(ClientRequest::Submit {
                operation: descriptor().key,
                args: vec![TaskArg::Inline {
                    codec: Codec::RawBytes,
                    bytes: vec![1],
                }],
                resources: ResourceSet::default(),
                max_attempts: 1,
            }),
        ),
    );
    conflicting.request_id = first.request_id;
    assert!(matches!(
        &*server.dispatch_once(&conflicting).unwrap(),
        RpcReply::Client(ClientReply::Error(Error::Protocol(_)))
    ));
}

#[test]
fn completion_reply_is_replayed_without_releasing_twice() {
    let (mut server, identity) = registered_server();
    let request = with_epoch(&server,
            future_envelope(
                server.inner.cluster_id,
                RpcRequest::Client(ClientRequest::Submit {
                    operation: descriptor().key,
                    args: vec![],
                    resources: cpu_gpu(1.0, 0.0),
                    max_attempts: 1,
                }),
            ),
        );
    let submit = server.dispatch_once(&request).unwrap();
    let (task_id, output_id) = match &*submit {
        RpcReply::Client(ClientReply::Submitted { task_id, output_id }) => (*task_id, *output_id),
        _ => panic!("submit failed"),
    };
    let assignment = server
        .inner
        .state
        .assign_next(identity.node_id, 0)
        .unwrap()
        .unwrap();
    server
        .inner
        .state
        .started(&identity, assignment.fence)
        .unwrap();
    let node_id = identity.node_id;
    let completion = with_epoch(
        &server,
        future_envelope(
            server.inner.cluster_id,
            RpcRequest::Worker(WorkerRequest::Completed {
                identity,
                report: TaskCompletion {
                    fence: assignment.fence,
                    output_id,
                    codec: Codec::RawBytes,
                    size_bytes: 1,
                    checksum: checksum(&[7]),
                    location: "127.0.0.1:9001".into(),
                    bytes: Some(vec![7].into()),
                },
            }),
        ),
    );
    assert!(matches!(
        &*server.dispatch_once(&completion).unwrap(),
        RpcReply::Worker(WorkerReply::Accepted)
    ));
    assert!(matches!(
        &*server.dispatch_once(&completion).unwrap(),
        RpcReply::Worker(WorkerReply::Accepted)
    ));
    let status = future_envelope(server.inner.cluster_id, RpcRequest::Client(ClientRequest::Status(task_id)));
    match &*server.dispatch_once(&status).unwrap() {
        RpcReply::Client(ClientReply::Status(view)) => assert_eq!(view.state, TaskStatus::Succeeded),
        _ => panic!("expected a status"),
    }
    assert_eq!(server.inner.state.workers.get(&node_id).unwrap().free_slots, 1);
}

// a GetBatch must not clone unbounded inline bytes. Cumulative inline
// payload is capped at one frame (MAX_OBJECT_BYTES); overflow slots return
// CapacityExceeded so the reply always fits a frame regardless of how many
// duplicate ids a single request packs in.
#[test]
fn get_batch_response_bytes_are_bounded() {
    let (mut server, _) = registered_server();
    // ~3 MB object: two copies fit under MAX_OBJECT_BYTES (~8.13 MB), the
    // third pushes over, so later slots overflow.
    let object_size = 3_000_000usize;
    let id = server
        .inner
        .state
        .put(Codec::RawBytes, vec![7u8; object_size])
        .unwrap()
        .id;
    let request = future_envelope(
            server.inner.cluster_id,
            RpcRequest::Client(ClientRequest::GetBatch {
                objects: vec![id; 6],
                wait_ms: 0,
                min_ready: 6,
            }),
        );
    let reply = server.dispatch_once(&request).unwrap();
    let RpcReply::Client(ClientReply::ObjectBatch(results)) = &*reply else {
        panic!("expected object batch")
    };
    // One entry per requested id, in order.
    assert_eq!(results.len(), 6);
    let ok_count = MAX_OBJECT_BYTES / object_size;
    assert_eq!(results.iter().filter(|r| r.is_ok()).count(), ok_count);
    assert!(results[0].is_ok());
    assert!(results[1].is_ok());
    for result in &results[ok_count..] {
        assert!(matches!(result, Err(Error::CapacityExceeded(_))));
    }
    // Cumulative cloned inline bytes never exceed one frame.
    let cloned: usize = results
        .iter()
        .filter_map(|r| r.as_ref().ok())
        .map(|p| p.bytes.as_ref().map_or(0, |b| b.len()))
        .sum();
    assert!(cloned <= MAX_OBJECT_BYTES);
}

// a dispatched mutation is always cached. Filling MAX_REPLAY_ENTRIES is
// too expensive to hit directly, so assert the invariant: a successful Submit
// leaves exactly one task AND a replay entry, so a retry replays instead of
// re-dispatching (which would duplicate the task).
#[test]
fn mutation_not_dispatched_when_replay_full() {
    let (mut server, _) = registered_server();
    let request = with_epoch(
        &server,
        future_envelope(
            server.inner.cluster_id,
            RpcRequest::Client(ClientRequest::Submit {
                operation: descriptor().key,
                args: vec![],
                resources: ResourceSet::default(),
                max_attempts: 1,
            }),
        ),
    );
    let first = server.dispatch_once(&request).unwrap();
    // Dispatched => cached: the entry is present before any retry.
    assert!(server.inner.replay.get(&request.request_id).is_some());
    let second = server.dispatch_once(&request).unwrap();
    let task_id = |reply: &RpcReply| match reply {
        RpcReply::Client(ClientReply::Submitted { task_id, .. }) => *task_id,
        _ => panic!("submit failed"),
    };
    assert_eq!(task_id(&first), task_id(&second));
    assert_eq!(server.inner.state.tasks.len(), 1);
}

// replay retention is clamped to a server ceiling, so a client-chosen
// far-future deadline cannot pin an entry indefinitely.
#[test]
fn replay_ttl_is_server_clamped() {
    let (mut server, _) = registered_server();
    let mut request = with_epoch(
        &server,
        future_envelope(
            server.inner.cluster_id,
            RpcRequest::Client(ClientRequest::Submit {
                operation: descriptor().key,
                args: vec![],
                resources: ResourceSet::default(),
                max_attempts: 1,
            }),
        ),
    );
    // Deadline ~10 years out; the server must ignore it for retention.
    let ten_years_ms: u64 = 10 * 365 * 24 * 60 * 60 * 1_000;
    request.deadline_unix_ms = now_ms().saturating_add(ten_years_ms);
    server.dispatch_once(&request).unwrap();
    let entry = server.inner.replay.get(&request.request_id).expect("mutation cached");
    // Capped at now + MAX_REPLAY_TTL_MS (+ slack for clock movement across
    // the two now_ms() reads), far below the 10-year envelope deadline.
    assert!(entry.expires_at_ms <= now_ms() + MAX_REPLAY_TTL_MS + 1_000);
}

// the running byte counter stays exact across insert / remove / sweep,
// so the O(1) capacity check never drifts from the true stored size.
#[test]
fn replay_used_bytes_tracks_entries() {
    let entry = |expires_at_ms| ReplayEntry {
        body_hash: [0u8; 32],
        reply: Arc::new(RpcReply::Client(ClientReply::Released)),
        expires_at_ms,
        bytes: 100,
    };
    let step = 100 + REPLAY_ENTRY_OVERHEAD;
    let mut cache = ReplayCache::new();
    let ids: Vec<RequestId> = (0..3).map(|_| RequestId::new()).collect();

    cache.insert(ids[0], entry(50)); // expires early
    cache.insert(ids[1], entry(200));
    cache.insert(ids[2], entry(200));
    assert_eq!(cache.used_bytes(), 3 * step);

    cache.remove(&ids[1]);
    assert_eq!(cache.used_bytes(), 2 * step);
    cache.remove(&ids[1]); // idempotent: no double-subtract
    assert_eq!(cache.used_bytes(), 2 * step);

    cache.sweep(100); // drops ids[0] (expires 50), keeps ids[2]
    assert_eq!(cache.len(), 1);
    assert_eq!(cache.used_bytes(), step);
}

// first-K-ready (ray.wait) — the batch is ready once `min_ready` slots
// resolve, even while others are still pending; min_ready==len is ray.get.
#[test]
fn get_batch_ready_honors_min_ready() {
    let pending = || Err(Error::ObjectPending(ObjectId::new()));
    let done = || Err(Error::ObjectLost(ObjectId::new())); // any non-pending slot
    let reply = |slots: Vec<Result<ObjectPayload, Error>>| {
        RpcReply::Client(ClientReply::ObjectBatch(slots))
    };

    // 1 of 3 resolved.
    let one_ready = reply(vec![done(), pending(), pending()]);
    assert!(client_get_batch_ready(&one_ready, 1));
    assert!(!client_get_batch_ready(&one_ready, 2));

    // all pending: never ready unless min_ready is 0.
    let none_ready = reply(vec![pending(), pending()]);
    assert!(!client_get_batch_ready(&none_ready, 1));
    assert!(client_get_batch_ready(&none_ready, 0));

    // all resolved: ray.get case.
    let all_ready = reply(vec![done(), done()]);
    assert!(client_get_batch_ready(&all_ready, 2));
}

// A client Put over the TCP path returns metadata only (no echoed payload), and
// the object still round-trips through a Get. Guards the copy-cut: the put reply
// must carry bytes: None, yet the stored object must be intact and fetchable.
#[test]
fn tcp_put_reply_is_metadata_only_and_round_trips() {
    let (mut server, _) = registered_server();
    let payload = b"hello crayon tcp put".to_vec();
    let expected_id = ObjectId::from_checksum(checksum(&payload));

    let request = with_epoch(&server,
            future_envelope(
                server.inner.cluster_id,
                RpcRequest::Client(ClientRequest::Put {
                    codec: Codec::RawBytes,
                    bytes: payload.clone(),
                }),
            ),
        );
    let put = server.dispatch_once(&request).unwrap();
    let RpcReply::Client(ClientReply::Object(meta)) = &*put else {
        panic!("expected object reply from put")
    };
    // Metadata-only reply: no payload echoed back, but id/size/checksum are set.
    assert!(meta.bytes.is_none(), "put reply must not echo the payload");
    assert_eq!(meta.id, expected_id);
    assert_eq!(meta.size_bytes, payload.len() as u64);
    assert_eq!(meta.checksum, checksum(&payload));

    // The object is intact and fetchable. In this single-process server the
    // coordinator's arena holds the payload, so Get resolves to the same-host
    // zero-copy form (bytes dropped, arena offset set) rather than inline bytes;
    // either way the object round-trips with matching id/size/checksum.
    let request = future_envelope(
            server.inner.cluster_id,
            RpcRequest::Client(ClientRequest::Get {
                object: meta.id,
                wait_ms: 0,
            }),
        );
    let get = server.dispatch_once(&request).unwrap();
    let RpcReply::Client(ClientReply::Object(fetched)) = &*get else {
        panic!("expected object reply from get")
    };
    assert_eq!(fetched.id, expected_id);
    assert_eq!(fetched.size_bytes, payload.len() as u64);
    assert_eq!(fetched.checksum, checksum(&payload));
    // Resolvable: inline bytes match, or an arena ref locates the payload.
    match (fetched.bytes.as_deref(), &fetched.arena) {
        (Some(bytes), _) => assert_eq!(bytes, payload.as_slice()),
        (None, Some(_)) => {} // same-host arena ref; bytes read zero-copy client-side
        (None, None) => panic!("get reply resolved to neither bytes nor an arena ref"),
    }
}

#[test]
fn a_fresh_server_has_handed_out_nothing() {
    assert_eq!(Server::new(ClusterId([0; 16]), 5_000).inner.arena_used_bytes(), 0);
}

#[test]
fn one_deletion_is_handed_out_per_poll() {
    let mut server = Server::new(ClusterId([0; 16]), 5_000);
    let node = NodeId([1; 16]);
    server.inner.state.put_pending_deletes(node, vec![ObjectId([2; 32]), ObjectId([3; 32])]);
    let identity = WorkerIdentity {
        node_id: node,
        worker_epoch: WorkerEpoch([0; 16]),
        session_id: WorkerSessionId([0; 16]),
        coordinator_epoch: CoordinatorEpoch([0; 16]),
    };
    let mut poll = || {
        let request = RpcRequest::Worker(WorkerRequest::Poll { identity, wait_ms: 0 });
        let reply = server.inner.dispatch(&mut server.memory, request, 0, 16, &slot_size);
        (reply, server.inner.state.pending_deletes.get(&node).cloned())
    };
    let (first, left) = poll();
    assert!(matches!(first, RpcReply::Worker(WorkerReply::DeleteObject(id)) if id == ObjectId([2; 32])));
    assert_eq!(left, Some(vec![ObjectId([3; 32])]));
    let (second, left) = poll();
    assert!(matches!(second, RpcReply::Worker(WorkerReply::DeleteObject(id)) if id == ObjectId([3; 32])));
    assert_eq!(left, None);
    assert!(matches!(poll().0, RpcReply::Worker(WorkerReply::Error(Error::StaleFence))));
}
