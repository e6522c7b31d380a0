//! What a client decides: where a payload goes, how large objects are cut into
//! chunks, how replies are read, and when a fetched object is what was asked for.
//!
//! Sending a request and awaiting its reply is left to the caller. A put or get
//! that takes several round trips is a value that hands out the next request and
//! takes in the reply.
use std::marker::PhantomData;
use std::sync::Arc;
use vstd::prelude::*;
use vstd::string::*;

use crate::cluster::{checksum, ready_count};
use crate::coordinator::lemma_same_array;
use crate::error::{outcome, Error, ErrorModel};
use crate::ids::{blake3_digest, bytes_equal, CoordinatorEpoch, ObjectId, RequestId, TaskId};
use crate::operation::{Codec, OperationDescriptor};
use crate::protocol::{
    ArenaWriteMode, ClientReply, ClientRequest, ObjectPayload, RpcReply, SubmittedTask, TaskStatus, TaskView,
    WorkerView, MAX_OBJECT_BYTES,
};
use crate::text::{decimal, decimal_string, hex_chars, lemma_says, says};

verus! {

/// Smaller payloads are hashed and stored under their digest.
pub const HASHED_BELOW_BYTES: usize = 1_048_576;

/// One slot of a `wait`: a task's result, or the place of one that is pending.
#[derive(Debug)]
pub enum Ready<T> {
    Done(usize, Result<T, Error>),
    Pending(usize),
}

/// An object id with the type of its content.
#[derive(Debug, Eq, PartialEq, Hash)]
pub struct ObjectRef<T> {
    pub id: ObjectId,
    marker: PhantomData<T>,
}

impl<T> Clone for ObjectRef<T> {
    fn clone(&self) -> (r: Self)
        ensures
            r == *self,
    {
        *self
    }
}

impl<T> Copy for ObjectRef<T> {
}

impl<T> ObjectRef<T> {
    pub closed spec fn spec_id(&self) -> ObjectId {
        self.id
    }

    pub fn new(id: ObjectId) -> (r: Self)
        ensures
            r.spec_id() == id,
    {
        ObjectRef { id, marker: PhantomData }
    }

    pub fn id(&self) -> (r: ObjectId)
        ensures
            r == self.spec_id(),
    {
        self.id
    }
}

/// A checksum that says that the content is not hashed.
pub open spec fn unhashed(checksum: [u8; 32]) -> bool {
    forall|i: int| 0 <= i < 32 ==> #[trigger] checksum@[i] == 0
}

/// The fetched bytes are those of the requested object.
pub open spec fn is_object(
    requested: ObjectId,
    returned: ObjectId,
    bytes: Seq<u8>,
    expected: [u8; 32],
    size: u64,
) -> bool {
    &&& requested == returned
    &&& bytes.len() == size
    &&& unhashed(expected) || blake3_digest(bytes) == expected@
}

fn is_unhashed(checksum: &[u8; 32]) -> (r: bool)
    ensures
        r == unhashed(*checksum),
{
    let mut i: usize = 0;
    while i < 32
        invariant
            i <= 32,
            forall|j: int| 0 <= j < i ==> #[trigger] checksum@[j] == 0,
        decreases 32 - i,
    {
        if checksum[i] != 0 {
            assert(checksum@[i as int] != 0);
            return false;
        }
        i += 1;
    }
    true
}

/// Checks fetched bytes against the id, size and digest that were asked for. Of
/// an object that was stored without a digest only the size can be checked.
pub fn verify_object(
    requested: ObjectId,
    returned: ObjectId,
    bytes: &[u8],
    expected: [u8; 32],
    size: u64,
) -> (r: Result<(), Error>)
    ensures
        outcome(r) == if is_object(requested, returned, bytes@, expected, size) {
            Ok::<(), ErrorModel>(())
        } else {
            Err(ErrorModel::ObjectConflict(requested))
        },
{
    if requested != returned || bytes.len() as u64 != size {
        return Err(Error::ObjectConflict(requested));
    }
    if !is_unhashed(&expected) {
        let digest = checksum(bytes);
        let same = bytes_equal(&digest, &expected);
        proof {
            if digest@ == expected@ {
                lemma_same_array(digest, expected);
            }
        }
        if !same {
            return Err(Error::ObjectConflict(requested));
        }
    }
    Ok(())
}

/// How a payload gets to the coordinator.
#[derive(Debug, Clone, Copy, Eq, PartialEq, Structural)]
pub enum PutPath {
    /// Through shared memory, on the same host.
    Arena,
    /// In chunks, each in a frame.
    Chunked,
    /// In one frame.
    Inline,
}

/// Shared memory if the arena is mapped here, one frame if it fits, chunks otherwise.
pub fn put_path(arena_mapped: bool, len: usize) -> (r: PutPath)
    ensures
        r == if arena_mapped {
            PutPath::Arena
        } else if len > MAX_OBJECT_BYTES {
            PutPath::Chunked
        } else {
            PutPath::Inline
        },
{
    if arena_mapped {
        PutPath::Arena
    } else if len > MAX_OBJECT_BYTES {
        PutPath::Chunked
    } else {
        PutPath::Inline
    }
}

/// The id and checksum under which a payload is put into the arena: its digest
/// if it is small, and otherwise the id `fresh` with no digest.
pub fn arena_target(bytes: &[u8], fresh: ObjectId) -> (r: (ObjectId, [u8; 32]))
    ensures
        if bytes@.len() < HASHED_BELOW_BYTES {
            r.0 == ObjectId(r.1) && r.1@ == blake3_digest(bytes@)
        } else {
            r.0 == fresh && unhashed(r.1)
        },
{
    if bytes.len() < HASHED_BELOW_BYTES {
        let digest = checksum(bytes);
        (ObjectId::from_checksum(digest), digest)
    } else {
        let zeros: [u8; 32] = [0; 32];
        (fresh, zeros)
    }
}

/// What a put over several round trips does next.
#[derive(Debug)]
pub enum PutStep {
    /// Send this request and hand back the reply.
    Send(ClientRequest),
    /// Write the payload into the mapped arena at this offset, then go on.
    Write(u64),
    /// The put is over.
    Done(Result<ObjectId, Error>),
}

#[derive(Debug, Clone, Copy, Eq, PartialEq, Structural)]
pub enum PutStage {
    Reserving,
    Writing,
    Committing,
    Over,
}

/// A put in chunks: reserve, write the chunks in order, commit.
#[derive(Debug)]
pub struct ChunkedPut {
    pub bytes: Vec<u8>,
    pub codec: Codec,
    pub id: ObjectId,
    pub reservation: RequestId,
    /// How much has been acknowledged.
    pub written: usize,
    /// How much was sent with the last chunk.
    pub in_flight: usize,
    pub stage: PutStage,
}

/// The length of the chunk that starts at `at`.
pub open spec fn chunk_len(total: int, at: int) -> int {
    if total - at > MAX_OBJECT_BYTES {
        MAX_OBJECT_BYTES as int
    } else {
        total - at
    }
}

impl ChunkedPut {
    pub open spec fn wf(&self) -> bool {
        &&& self.written + self.in_flight <= self.bytes@.len()
        &&& self.stage == PutStage::Committing ==> self.written == self.bytes@.len()
    }

    /// A put of `bytes` under the unhashed id `id`, and its first request.
    pub fn start(bytes: Vec<u8>, codec: Codec, id: ObjectId) -> (r: (ChunkedPut, ClientRequest))
        ensures
            r.0.wf(),
            r.0.bytes == bytes,
            r.0.codec == codec,
            r.0.id == id,
            r.0.written == 0,
            r.0.stage == PutStage::Reserving,
            r.1 matches ClientRequest::ArenaReserve { id: asked, codec: asked_codec, size_bytes, checksum, mode }
                && asked == id && asked_codec == codec && size_bytes == bytes@.len() && unhashed(checksum) && mode
                == ArenaWriteMode::Streamed,
    {
        let size_bytes: u64 = bytes.len() as u64;
        let checksum: [u8; 32] = [0; 32];
        let put = ChunkedPut {
            bytes,
            codec,
            id,
            reservation: RequestId([0; 16]),
            written: 0,
            in_flight: 0,
            stage: PutStage::Reserving,
        };
        (put, ClientRequest::ArenaReserve { id, codec, size_bytes, checksum, mode: ArenaWriteMode::Streamed })
    }

    /// The request after `written` bytes have been acknowledged.
    fn next_request(&mut self) -> (r: ClientRequest)
        requires
            old(self).written <= old(self).bytes@.len(),
        ensures
            final(self).wf(),
            final(self).bytes == old(self).bytes,
            final(self).codec == old(self).codec,
            final(self).id == old(self).id,
            final(self).reservation == old(self).reservation,
            final(self).written == old(self).written,
            continues(*final(self), r),
    {
        let total = self.bytes.len();
        if self.written < total {
            let left: usize = total - self.written;
            let len: usize = if left > MAX_OBJECT_BYTES {
                MAX_OBJECT_BYTES
            } else {
                left
            };
            self.in_flight = len;
            self.stage = PutStage::Writing;
            let chunk = vstd::slice::slice_to_vec(
                vstd::slice::slice_subrange(self.bytes.as_slice(), self.written, self.written + len),
            );
            ClientRequest::PutChunk {
                id: self.id,
                reservation: self.reservation,
                offset: self.written as u64,
                bytes: chunk,
            }
        } else {
            self.in_flight = 0;
            self.stage = PutStage::Committing;
            ClientRequest::ArenaCommit { id: self.id, reservation: self.reservation }
        }
    }

    /// Takes in the reply to the last request.
    pub fn step(&mut self, reply: ClientReply) -> (r: PutStep)
        requires
            old(self).wf(),
        ensures
            final(self).wf(),
            final(self).bytes == old(self).bytes,
            final(self).codec == old(self).codec,
            chunked_put_met(*old(self), *final(self), reply, r),
    {
        match self.stage {
            PutStage::Reserving => match reply {
                ClientReply::Object(payload) => {
                    self.stage = PutStage::Over;
                    PutStep::Done(Ok(payload.id))
                },
                ClientReply::ArenaReserved { id, reservation, .. } => {
                    self.id = id;
                    self.reservation = reservation;
                    self.in_flight = 0;
                    PutStep::Send(self.next_request())
                },
                ClientReply::Error(error) => {
                    self.stage = PutStage::Over;
                    PutStep::Done(Err(error))
                },
                _ => {
                    self.stage = PutStage::Over;
                    PutStep::Done(Err(Error::Protocol("unexpected reserve reply".to_string())))
                },
            },
            PutStage::Writing => match reply {
                ClientReply::ChunkWritten => {
                    let total: usize = self.bytes.len();
                    assert(self.written + self.in_flight <= total);
                    self.written = self.written + self.in_flight;
                    self.in_flight = 0;
                    PutStep::Send(self.next_request())
                },
                ClientReply::Error(error) => {
                    self.stage = PutStage::Over;
                    PutStep::Done(Err(error))
                },
                _ => {
                    self.stage = PutStage::Over;
                    PutStep::Done(Err(Error::Protocol("unexpected put chunk reply".to_string())))
                },
            },
            PutStage::Committing => {
                self.stage = PutStage::Over;
                PutStep::Done(commit_result(reply))
            },
            PutStage::Over => PutStep::Done(Err(Error::Protocol("unexpected commit reply".to_string()))),
        }
    }
}

/// `request` is what a put goes on with: the next chunk, or the commit once all
/// has been acknowledged.
pub open spec fn continues(put: ChunkedPut, request: ClientRequest) -> bool {
    if put.written < put.bytes@.len() {
        let len = chunk_len(put.bytes@.len() as int, put.written as int);
        &&& put.stage == PutStage::Writing
        &&& put.in_flight == len
        &&& request matches ClientRequest::PutChunk { id, reservation, offset, bytes }
        &&& id == put.id
        &&& reservation == put.reservation
        &&& offset == put.written
        &&& bytes@ == put.bytes@.subrange(put.written as int, put.written + len)
    } else {
        &&& put.stage == PutStage::Committing
        &&& request == ClientRequest::ArenaCommit { id: put.id, reservation: put.reservation }
    }
}

/// The put is over with this error.
pub open spec fn put_failed(step: PutStep, error: ErrorModel) -> bool {
    step matches PutStep::Done(Err(e)) && e@ == error
}

/// How a chunked put takes in a reply.
pub open spec fn chunked_put_met(before: ChunkedPut, after: ChunkedPut, reply: ClientReply, step: PutStep) -> bool {
    match before.stage {
        PutStage::Reserving => match reply {
            ClientReply::Object(payload) => step == PutStep::Done(Ok(payload.id)) && after.stage == PutStage::Over,
            ClientReply::ArenaReserved { id, offset, reservation } => {
                &&& after.id == id
                &&& after.reservation == reservation
                &&& after.written == before.written
                &&& step matches PutStep::Send(request) && continues(after, request)
            },
            ClientReply::Error(error) => put_failed(step, error@) && after.stage == PutStage::Over,
            _ => put_failed(step, ErrorModel::Protocol("unexpected reserve reply"@)) && after.stage == PutStage::Over,
        },
        PutStage::Writing => match reply {
            ClientReply::ChunkWritten => {
                &&& after.id == before.id
                &&& after.reservation == before.reservation
                &&& after.written == before.written + before.in_flight
                &&& step matches PutStep::Send(request) && continues(after, request)
            },
            ClientReply::Error(error) => put_failed(step, error@) && after.stage == PutStage::Over,
            _ => put_failed(step, ErrorModel::Protocol("unexpected put chunk reply"@)) && after.stage
                == PutStage::Over,
        },
        PutStage::Committing => {
            &&& after.stage == PutStage::Over
            &&& step matches PutStep::Done(result) && committed_as(reply, result)
        },
        PutStage::Over => put_failed(step, ErrorModel::Protocol("unexpected commit reply"@)) && after == before,
    }
}

/// What a reply to a commit says.
pub open spec fn committed_as(reply: ClientReply, result: Result<ObjectId, Error>) -> bool {
    match reply {
        ClientReply::Object(payload) => result == Ok::<ObjectId, Error>(payload.id),
        ClientReply::Error(error) => result == Err::<ObjectId, Error>(error),
        _ => result matches Err(e) && e@ == ErrorModel::Protocol("unexpected commit reply"@),
    }
}

fn commit_result(reply: ClientReply) -> (r: Result<ObjectId, Error>)
    ensures
        committed_as(reply, r),
{
    match reply {
        ClientReply::Object(payload) => Ok(payload.id),
        ClientReply::Error(error) => Err(error),
        _ => Err(Error::Protocol("unexpected commit reply".to_string())),
    }
}

/// The chunks acknowledged so far, together with the next, are a prefix of the
/// payload: nothing is skipped, sent twice, or out of order.
pub proof fn law_chunks_make_up_the_payload(put: ChunkedPut, request: ClientRequest)
    requires
        put.wf(),
        continues(put, request),
    ensures
        request matches ClientRequest::PutChunk { bytes, .. } ==> put.bytes@.take(put.written as int) + bytes@
            == put.bytes@.take(put.written + put.in_flight) && 0 < bytes@.len() <= MAX_OBJECT_BYTES,
        request is ArenaCommit ==> put.written == put.bytes@.len(),
{
    if let ClientRequest::PutChunk { bytes, .. } = request {
        assert(put.bytes@.take(put.written as int) + bytes@ =~= put.bytes@.take(put.written + put.in_flight));
    }
}

/// A put through the mapped arena: reserve, write the bytes in place, commit.
#[derive(Debug)]
pub struct ArenaPut {
    pub size: u64,
    pub id: ObjectId,
    pub reservation: RequestId,
    pub stage: PutStage,
}

impl ArenaPut {
    /// A put of `size` bytes, and its first request.
    pub fn start(size: u64, codec: Codec, id: ObjectId, checksum: [u8; 32]) -> (r: (ArenaPut, ClientRequest))
        ensures
            r.0.size == size,
            r.0.id == id,
            r.0.stage == PutStage::Reserving,
            r.1 == (ClientRequest::ArenaReserve {
                id,
                codec,
                size_bytes: size,
                checksum,
                mode: ArenaWriteMode::Direct,
            }),
    {
        let put = ArenaPut { size, id, reservation: RequestId([0; 16]), stage: PutStage::Reserving };
        (put, ClientRequest::ArenaReserve { id, codec, size_bytes: size, checksum, mode: ArenaWriteMode::Direct })
    }

    /// Takes in the reply to the last request. `mapped` is the size of the mapped
    /// arena, if it is still mapped.
    pub fn step(&mut self, reply: ClientReply, mapped: Option<u64>) -> (r: PutStep)
        ensures
            arena_put_step(*old(self), *final(self), reply, mapped, r),
    {
        match self.stage {
            PutStage::Reserving => match reply {
                ClientReply::Object(payload) => {
                    self.stage = PutStage::Over;
                    PutStep::Done(Ok(payload.id))
                },
                ClientReply::ArenaReserved { id, offset, reservation } => {
                    let length: u64 = match mapped {
                        Some(length) => length,
                        None => {
                            self.stage = PutStage::Over;
                            return PutStep::Done(
                                Err(Error::Protocol("arena writer lost after reserve".to_string())),
                            );
                        },
                    };
                    if offset > length || self.size > length - offset {
                        self.stage = PutStage::Over;
                        return PutStep::Done(Err(Error::Protocol("arena offset out of bounds".to_string())));
                    }
                    self.id = id;
                    self.reservation = reservation;
                    self.stage = PutStage::Writing;
                    PutStep::Write(offset)
                },
                ClientReply::Error(error) => {
                    self.stage = PutStage::Over;
                    PutStep::Done(Err(error))
                },
                _ => {
                    self.stage = PutStage::Over;
                    PutStep::Done(Err(Error::Protocol("unexpected reserve reply".to_string())))
                },
            },
            PutStage::Committing => {
                self.stage = PutStage::Over;
                PutStep::Done(commit_result(reply))
            },
            _ => {
                self.stage = PutStage::Over;
                PutStep::Done(Err(Error::Protocol("unexpected commit reply".to_string())))
            },
        }
    }

    /// The bytes have been written; the request that makes them readable.
    pub fn wrote(&mut self) -> (r: ClientRequest)
        requires
            old(self).stage == PutStage::Writing,
        ensures
            *final(self) == (ArenaPut { stage: PutStage::Committing, ..*old(self) }),
            r == (ClientRequest::ArenaCommit { id: old(self).id, reservation: old(self).reservation }),
    {
        self.stage = PutStage::Committing;
        ClientRequest::ArenaCommit { id: self.id, reservation: self.reservation }
    }
}

/// How a put through the arena takes in a reply.
pub open spec fn arena_put_step(
    before: ArenaPut,
    after: ArenaPut,
    reply: ClientReply,
    mapped: Option<u64>,
    step: PutStep,
) -> bool {
    let over = ArenaPut { stage: PutStage::Over, ..before };
    match before.stage {
        PutStage::Reserving => match reply {
            ClientReply::Object(payload) => step == PutStep::Done(Ok(payload.id)) && after == over,
            ClientReply::ArenaReserved { id, offset, reservation } => match mapped {
                None => put_failed(step, ErrorModel::Protocol("arena writer lost after reserve"@)) && after == over,
                Some(length) => if offset + before.size > length {
                    put_failed(step, ErrorModel::Protocol("arena offset out of bounds"@)) && after == over
                } else {
                    &&& step == PutStep::Write(offset)
                    &&& after == (ArenaPut { id, reservation, stage: PutStage::Writing, ..before })
                },
            },
            ClientReply::Error(error) => put_failed(step, error@) && after == over,
            _ => put_failed(step, ErrorModel::Protocol("unexpected reserve reply"@)) && after == over,
        },
        PutStage::Committing => {
            &&& after == over
            &&& step matches PutStep::Done(result) && committed_as(reply, result)
        },
        _ => put_failed(step, ErrorModel::Protocol("unexpected commit reply"@)) && after == over,
    }
}

/// What a get in chunks does next.
#[derive(Debug)]
pub enum GetStep {
    Send(ClientRequest),
    Done(Result<Vec<u8>, Error>),
}

/// A get in chunks: ranges in order, each no longer than a frame allows.
#[derive(Debug)]
pub struct ChunkedGet {
    pub id: ObjectId,
    pub size: u64,
    pub received: Vec<u8>,
}

impl ChunkedGet {
    pub open spec fn wf(&self) -> bool {
        self.received@.len() <= self.size
    }

    pub fn start(id: ObjectId, size: u64) -> (r: Self)
        ensures
            r.wf(),
            r.id == id,
            r.size == size,
            r.received@ == Seq::<u8>::empty(),
    {
        ChunkedGet { id, size, received: Vec::new() }
    }

    /// The next request, or the whole object.
    pub fn next(&mut self) -> (r: GetStep)
        requires
            old(self).wf(),
        ensures
            final(self).wf(),
            final(self).id == old(self).id,
            final(self).size == old(self).size,
            if old(self).received@.len() < old(self).size {
                &&& *final(self) == *old(self)
                &&& r == GetStep::Send(
                    ClientRequest::GetChunk {
                        id: old(self).id,
                        offset: old(self).received@.len() as u64,
                        len: chunk_len(old(self).size as int, old(self).received@.len() as int) as u64,
                    },
                )
            } else {
                &&& r matches GetStep::Done(Ok(bytes)) && bytes@ == old(self).received@
                &&& final(self).received@ == Seq::<u8>::empty()
            },
    {
        let offset: u64 = self.received.len() as u64;
        if offset < self.size {
            let left: u64 = self.size - offset;
            let len: u64 = if left > MAX_OBJECT_BYTES as u64 {
                MAX_OBJECT_BYTES as u64
            } else {
                left
            };
            GetStep::Send(ClientRequest::GetChunk { id: self.id, offset, len })
        } else {
            let mut bytes: Vec<u8> = Vec::new();
            std::mem::swap(&mut bytes, &mut self.received);
            GetStep::Done(Ok(bytes))
        }
    }

    /// Takes in the reply to the last request.
    pub fn take(&mut self, reply: RpcReply) -> (r: Result<(), Error>)
        requires
            old(self).wf(),
            old(self).received@.len() < old(self).size,
        ensures
            final(self).wf(),
            final(self).id == old(self).id,
            final(self).size == old(self).size,
            chunk_taken_as(*old(self), *final(self), reply, r),
    {
        let offset: u64 = self.received.len() as u64;
        let left: u64 = self.size - offset;
        let len: u64 = if left > MAX_OBJECT_BYTES as u64 {
            MAX_OBJECT_BYTES as u64
        } else {
            left
        };
        match reply {
            RpcReply::Client(ClientReply::Chunk(chunk)) => {
                if chunk.len() as u64 != len {
                    return Err(Error::ObjectConflict(self.id));
                }
                let ghost before = self.received@;
                let mut chunk = chunk;
                self.received.append(&mut chunk);
                Ok(())
            },
            RpcReply::Client(ClientReply::Error(error)) => Err(error),
            _ => Err(Error::ObjectConflict(self.id)),
        }
    }
}

/// How a chunked get takes in a reply: a chunk of the length that was asked for
/// is appended.
pub open spec fn chunk_taken_as(
    before: ChunkedGet,
    after: ChunkedGet,
    reply: RpcReply,
    r: Result<(), Error>,
) -> bool {
    let len = chunk_len(before.size as int, before.received@.len() as int);
    match reply {
        RpcReply::Client(ClientReply::Chunk(chunk)) => if chunk@.len() == len {
            r is Ok && after.received@ == before.received@ + chunk@
        } else {
            after.received@ == before.received@ && (r matches Err(e) && e@ == ErrorModel::ObjectConflict(before.id))
        },
        RpcReply::Client(ClientReply::Error(error)) => after.received@ == before.received@ && (r matches Err(e) && e@
            == error@),
        _ => after.received@ == before.received@ && (r matches Err(e) && e@ == ErrorModel::ObjectConflict(before.id)),
    }
}

/// If every chunk is the range that was asked for, what has been received stays
/// a prefix of the object, and in the end is the object.
pub proof fn law_chunked_get_reassembles(before: ChunkedGet, after: ChunkedGet, content: Seq<u8>, chunk: Vec<u8>)
    requires
        before.wf(),
        content.len() == before.size,
        before.received@.len() < before.size,
        before.received@ == content.take(before.received@.len() as int),
        chunk@ == content.subrange(
            before.received@.len() as int,
            before.received@.len() + chunk_len(before.size as int, before.received@.len() as int),
        ),
        chunk_taken_as(before, after, RpcReply::Client(ClientReply::Chunk(chunk)), Ok(())),
    ensures
        after.received@ == content.take(after.received@.len() as int),
        after.received@.len() > before.received@.len(),
        after.received@.len() == content.len() ==> after.received@ == content,
{
    assert(after.received@ =~= content.take(after.received@.len() as int));
    if after.received@.len() == content.len() {
        assert(content.take(content.len() as int) =~= content);
    }
}

/// Where the bytes of a resolved object come from.
#[derive(Debug)]
pub enum PayloadPlan {
    /// They came with the payload.
    Inline(Arc<[u8]>),
    /// They are in the mapped arena, from `start` to `end`.
    Mapped { start: u64, end: u64 },
    /// They are to be fetched from `source` in chunks.
    Chunked { source: String },
    /// They are to be fetched from `source` in one frame.
    Fetch { source: String },
    Failed(Error),
}

/// Decides where the bytes of `payload` come from. `mapped` is the size of the
/// arena that it names, if that arena can be mapped here; `coordinator` is the
/// coordinator's address.
pub fn plan_payload(payload: &ObjectPayload, mapped: Option<u64>, coordinator: &str) -> (r: PayloadPlan)
    ensures
        payload_planned(*payload, mapped, coordinator@, r),
{
    if let Some(bytes) = &payload.bytes {
        return match verify_object(payload.id, payload.id, bytes, payload.checksum, payload.size_bytes) {
            Ok(()) => PayloadPlan::Inline(bytes.clone()),
            Err(error) => PayloadPlan::Failed(error),
        };
    }
    match &payload.arena {
        Some(place) => {
            if let Some(length) = mapped {
                if place.offset <= length && payload.size_bytes <= length - place.offset {
                    return PayloadPlan::Mapped {
                        start: place.offset,
                        end: place.offset + payload.size_bytes,
                    };
                }
            }
            if payload.size_bytes > MAX_OBJECT_BYTES as u64 {
                PayloadPlan::Chunked { source: coordinator.to_string() }
            } else {
                PayloadPlan::Fetch { source: coordinator.to_string() }
            }
        },
        None => PayloadPlan::Fetch { source: payload.location.clone() },
    }
}

/// Inline bytes must check out; then shared memory; then the network, in chunks
/// where one frame is too small.
pub open spec fn payload_planned(
    payload: ObjectPayload,
    mapped: Option<u64>,
    coordinator: Seq<char>,
    plan: PayloadPlan,
) -> bool {
    match payload.bytes {
        Some(bytes) => if is_object(payload.id, payload.id, bytes@, payload.checksum, payload.size_bytes) {
            plan == PayloadPlan::Inline(bytes)
        } else {
            plan matches PayloadPlan::Failed(error) && error@ == ErrorModel::ObjectConflict(payload.id)
        },
        None => match payload.arena {
            Some(place) => if mapped matches Some(length) && place.offset + payload.size_bytes <= length {
                plan == (PayloadPlan::Mapped {
                    start: place.offset,
                    end: (place.offset + payload.size_bytes) as u64,
                })
            } else if payload.size_bytes > MAX_OBJECT_BYTES {
                plan matches PayloadPlan::Chunked { source } && source@ == coordinator
            } else {
                plan matches PayloadPlan::Fetch { source } && source@ == coordinator
            },
            None => plan matches PayloadPlan::Fetch { source } && source@ == payload.location@,
        },
    }
}

/// Accepts the reply to a fetch of `payload` if it is the same object, whole.
pub fn accept_local(payload: &ObjectPayload, reply: RpcReply) -> (r: Result<Arc<[u8]>, Error>)
    ensures
        match r {
            Ok(bytes) => {
                &&& reply matches RpcReply::Client(ClientReply::Object(found))
                &&& found.bytes == Some(bytes)
                &&& local_matches(*payload, found, bytes@)
            },
            Err(error) => {
                &&& error@ == ErrorModel::ObjectConflict(payload.id)
                &&& !(reply matches RpcReply::Client(ClientReply::Object(found)) && (found.bytes matches Some(bytes)
                    && local_matches(*payload, found, bytes@)))
            },
        },
{
    match reply {
        RpcReply::Client(ClientReply::Object(found)) => match found.bytes {
            Some(bytes) => {
                if found.codec == payload.codec && bytes_equal(&found.checksum, &payload.checksum)
                    && found.size_bytes == payload.size_bytes {
                    match verify_object(payload.id, found.id, &bytes, payload.checksum, payload.size_bytes) {
                        Ok(()) => Ok(bytes),
                        Err(error) => Err(error),
                    }
                } else {
                    Err(Error::ObjectConflict(payload.id))
                }
            },
            None => Err(Error::ObjectConflict(payload.id)),
        },
        _ => Err(Error::ObjectConflict(payload.id)),
    }
}

/// The fetched object is the one that the coordinator described.
pub open spec fn local_matches(payload: ObjectPayload, found: ObjectPayload, bytes: Seq<u8>) -> bool {
    &&& found.codec == payload.codec
    &&& found.checksum == payload.checksum
    &&& found.size_bytes == payload.size_bytes
    &&& is_object(payload.id, found.id, bytes, payload.checksum, payload.size_bytes)
}

/// The wait to ask for with `remaining` nanoseconds left: whole milliseconds, at
/// least one; none left is an error.
pub fn remaining_wait_ms(remaining_nanos: u128) -> (r: Result<u64, Error>)
    ensures
        match r {
            Ok(wait) => {
                &&& remaining_nanos > 0
                &&& wait == if remaining_nanos < 1_000_000 {
                    1
                } else if remaining_nanos / 1_000_000 > u64::MAX {
                    u64::MAX as int
                } else {
                    (remaining_nanos / 1_000_000) as int
                }
            },
            Err(error) => remaining_nanos == 0 && error@ == ErrorModel::DeadlineExceeded,
        },
{
    if remaining_nanos == 0 {
        return Err(Error::DeadlineExceeded);
    }
    let millis: u128 = remaining_nanos / 1_000_000;
    if millis == 0 {
        Ok(1)
    } else if millis > u64::MAX as u128 {
        Ok(u64::MAX)
    } else {
        Ok(millis as u64)
    }
}

/// The name of a codec in a message.
pub open spec fn codec_name(codec: Codec) -> Seq<char> {
    match codec {
        Codec::BincodeV1 => "BincodeV1"@,
        Codec::PythonPickleV1 => "PythonPickleV1"@,
        Codec::JsonV1 => "JsonV1"@,
        Codec::RawBytes => "RawBytes"@,
    }
}

/// Typed values are read from bincode only.
pub fn check_decodable(codec: Codec) -> (r: Result<(), Error>)
    ensures
        outcome(r) == if codec == Codec::BincodeV1 {
            Ok::<(), ErrorModel>(())
        } else {
            Err(ErrorModel::Protocol("unsupported codec for get: "@ + codec_name(codec)))
        },
{
    let name = match codec {
        Codec::BincodeV1 => return Ok(()),
        Codec::PythonPickleV1 => "PythonPickleV1",
        Codec::JsonV1 => "JsonV1",
        Codec::RawBytes => "RawBytes",
    };
    let mut message = "unsupported codec for get: ".to_string();
    message.append(name);
    Err(Error::Protocol(message))
}

/// What to do with a reply to a batch of gets.
#[derive(Debug)]
pub enum BatchStep {
    /// Too few slots have resolved; ask again.
    Again,
    Done(Result<Vec<Result<ObjectPayload, Error>>, Error>),
}

/// Takes in a reply to a batch of gets that waits for `min_ready` slots.
pub fn batch_step(reply: ClientReply, min_ready: usize) -> (r: BatchStep)
    ensures
        match reply {
            ClientReply::ObjectBatch(results) => if ready_count(results@) < min_ready {
                r is Again
            } else {
                r == BatchStep::Done(Ok(results))
            },
            ClientReply::Error(error) => r == BatchStep::Done(Err(error)),
            _ => r matches BatchStep::Done(Err(e)) && e@ == ErrorModel::Protocol("unexpected get batch reply"@),
        },
{
    match reply {
        ClientReply::ObjectBatch(results) => {
            let mut ready: usize = 0;
            let mut i: usize = 0;
            while i < results.len()
                invariant
                    i <= results@.len(),
                    ready <= i,
                    ready == ready_count(results@.take(i as int)),
                decreases results@.len() - i,
            {
                assert(results@.take(i + 1).drop_last() =~= results@.take(i as int));
                if !matches!(&results[i], Err(Error::ObjectPending(_))) {
                    ready = ready + 1;
                }
                i += 1;
            }
            assert(results@.take(i as int) =~= results@);
            if ready < min_ready {
                BatchStep::Again
            } else {
                BatchStep::Done(Ok(results))
            }
        },
        ClientReply::Error(error) => BatchStep::Done(Err(error)),
        _ => BatchStep::Done(Err(Error::Protocol("unexpected get batch reply".to_string()))),
    }
}

/// What a failed fetch of a task's output means to someone who waits for it.
#[derive(Debug)]
pub enum WaitStep {
    /// Still pending; ask again.
    Again,
    /// The output will not come; the task's status says why.
    AskStatus,
    Failed(Error),
}

pub fn wait_step(error: Error) -> (r: WaitStep)
    ensures
        match error {
            Error::ObjectPending(_) => r is Again,
            Error::Protocol(_) => r is AskStatus,
            _ => r == WaitStep::Failed(error),
        },
{
    match error {
        Error::ObjectPending(_) => WaitStep::Again,
        Error::Protocol(_) => WaitStep::AskStatus,
        other => WaitStep::Failed(other),
    }
}

/// The error that a finished task without an output amounts to.
pub fn terminal_error(task_id: TaskId, output: ObjectId, status: Result<TaskView, Error>) -> (r: Error)
    ensures
        r@ == match status {
            Ok(view) => match view.state {
                TaskStatus::Failed(message) => ErrorModel::TaskFailed(task_id, message@),
                TaskStatus::Cancelled => ErrorModel::TaskCancelled(task_id),
                _ => ErrorModel::ObjectConflict(output),
            },
            Err(error) => error@,
        },
{
    match status {
        Ok(view) => match view.state {
            TaskStatus::Failed(message) => Error::TaskFailed(task_id, message),
            TaskStatus::Cancelled => Error::TaskCancelled(task_id),
            _ => Error::ObjectConflict(output),
        },
        Err(error) => error,
    }
}

/// The reply is not one to this kind of request.
pub open spec fn unexpected<T>(r: Result<T, Error>, message: Seq<char>) -> bool {
    r matches Err(e) && e@ == ErrorModel::Protocol(message)
}

/// The reply of the coordinator, and not that of a worker.
pub fn client_reply(reply: RpcReply) -> (r: Result<ClientReply, Error>)
    ensures
        match reply {
            RpcReply::Client(inner) => r == Ok::<ClientReply, Error>(inner),
            RpcReply::Worker(_) => unexpected(r, "unexpected worker reply"@),
        },
{
    match reply {
        RpcReply::Client(inner) => Ok(inner),
        RpcReply::Worker(_) => Err(Error::Protocol("unexpected worker reply".to_string())),
    }
}

pub fn connect_result(reply: ClientReply) -> (r: Result<(CoordinatorEpoch, String), Error>)
    ensures
        match reply {
            ClientReply::Connected { coordinator_epoch, arena_token } => r == Ok::<(CoordinatorEpoch, String), Error>(
                (coordinator_epoch, arena_token),
            ),
            ClientReply::Error(error) => r == Err::<(CoordinatorEpoch, String), Error>(error),
            _ => unexpected(r, "unexpected connect reply"@),
        },
{
    match reply {
        ClientReply::Connected { coordinator_epoch, arena_token } => Ok((coordinator_epoch, arena_token)),
        ClientReply::Error(error) => Err(error),
        _ => Err(Error::Protocol("unexpected connect reply".to_string())),
    }
}

pub fn put_result(reply: ClientReply) -> (r: Result<ObjectId, Error>)
    ensures
        match reply {
            ClientReply::Object(payload) => r == Ok::<ObjectId, Error>(payload.id),
            ClientReply::Error(error) => r == Err::<ObjectId, Error>(error),
            _ => unexpected(r, "unexpected put reply"@),
        },
{
    match reply {
        ClientReply::Object(payload) => Ok(payload.id),
        ClientReply::Error(error) => Err(error),
        _ => Err(Error::Protocol("unexpected put reply".to_string())),
    }
}

pub fn submit_result(reply: ClientReply) -> (r: Result<SubmittedTask, Error>)
    ensures
        match reply {
            ClientReply::Submitted { task_id, output_id } => r matches Ok(task) && task.task_id == task_id
                && task.output_id == output_id,
            ClientReply::Error(error) => r == Err::<SubmittedTask, Error>(error),
            _ => unexpected(r, "unexpected submit reply"@),
        },
{
    match reply {
        ClientReply::Submitted { task_id, output_id } => Ok(SubmittedTask { task_id, output_id }),
        ClientReply::Error(error) => Err(error),
        _ => Err(Error::Protocol("unexpected submit reply".to_string())),
    }
}

pub fn submit_batch_result(reply: ClientReply) -> (r: Result<Vec<Result<SubmittedTask, Error>>, Error>)
    ensures
        match reply {
            ClientReply::SubmittedBatch(results) => r == Ok::<Vec<Result<SubmittedTask, Error>>, Error>(results),
            ClientReply::Error(error) => r == Err::<Vec<Result<SubmittedTask, Error>>, Error>(error),
            _ => unexpected(r, "unexpected submit batch reply"@),
        },
{
    match reply {
        ClientReply::SubmittedBatch(results) => Ok(results),
        ClientReply::Error(error) => Err(error),
        _ => Err(Error::Protocol("unexpected submit batch reply".to_string())),
    }
}

pub fn get_result(reply: ClientReply) -> (r: Result<ObjectPayload, Error>)
    ensures
        match reply {
            ClientReply::Object(payload) => r == Ok::<ObjectPayload, Error>(payload),
            ClientReply::Error(error) => r == Err::<ObjectPayload, Error>(error),
            _ => unexpected(r, "unexpected get reply"@),
        },
{
    match reply {
        ClientReply::Object(payload) => Ok(payload),
        ClientReply::Error(error) => Err(error),
        _ => Err(Error::Protocol("unexpected get reply".to_string())),
    }
}

pub fn status_result(reply: ClientReply) -> (r: Result<TaskView, Error>)
    ensures
        match reply {
            ClientReply::Status(view) => r == Ok::<TaskView, Error>(view),
            ClientReply::Error(error) => r == Err::<TaskView, Error>(error),
            _ => unexpected(r, "unexpected status reply"@),
        },
{
    match reply {
        ClientReply::Status(view) => Ok(view),
        ClientReply::Error(error) => Err(error),
        _ => Err(Error::Protocol("unexpected status reply".to_string())),
    }
}

pub fn workers_result(reply: ClientReply) -> (r: Result<Vec<WorkerView>, Error>)
    ensures
        match reply {
            ClientReply::Workers(views) => r == Ok::<Vec<WorkerView>, Error>(views),
            ClientReply::Error(error) => r == Err::<Vec<WorkerView>, Error>(error),
            _ => unexpected(r, "unexpected workers reply"@),
        },
{
    match reply {
        ClientReply::Workers(views) => Ok(views),
        ClientReply::Error(error) => Err(error),
        _ => Err(Error::Protocol("unexpected workers reply".to_string())),
    }
}

pub fn cancel_result(reply: ClientReply) -> (r: Result<(), Error>)
    ensures
        match reply {
            ClientReply::Cancelled => r is Ok,
            ClientReply::Error(error) => r == Err::<(), Error>(error),
            _ => unexpected(r, "unexpected cancel reply"@),
        },
{
    match reply {
        ClientReply::Cancelled => Ok(()),
        ClientReply::Error(error) => Err(error),
        _ => Err(Error::Protocol("unexpected cancel reply".to_string())),
    }
}

pub fn release_result(reply: ClientReply) -> (r: Result<(), Error>)
    ensures
        match reply {
            ClientReply::Released => r is Ok,
            ClientReply::Error(error) => r == Err::<(), Error>(error),
            _ => unexpected(r, "unexpected release reply"@),
        },
{
    match reply {
        ClientReply::Released => Ok(()),
        ClientReply::Error(error) => Err(error),
        _ => Err(Error::Protocol("unexpected release reply".to_string())),
    }
}

/// A task on one line: its id, its output, how it stands, at which attempt, and
/// where.
pub open spec fn status_text(view: TaskView) -> Seq<char> {
    hex_chars(view.task_id.0@) + " "@ + hex_chars(view.output_id.0@) + " "@ + view.state.text() + " "@ + decimal(
        view.attempt.0 as nat,
    ) + " "@ + match view.worker {
        Some(worker) => hex_chars(worker.0@),
        None => "-"@,
    }
}

/// Puts a task on one line.
pub fn status_line(view: &TaskView) -> (r: String)
    ensures
        r@ == status_text(*view),
{
    let mut line = view.task_id.to_string();
    line.append(" ");
    let output = view.output_id.to_string();
    line.append(output.as_str());
    line.append(" ");
    let state = view.state.to_string();
    line.append(state.as_str());
    line.append(" ");
    let attempt = decimal_string(view.attempt.0 as u64);
    line.append(attempt.as_str());
    line.append(" ");
    match view.worker {
        Some(worker) => {
            let worker = worker.to_string();
            line.append(worker.as_str());
        },
        None => line.append("-"),
    }
    line
}

/// The keys of some operations with commas between them.
pub open spec fn keys_text(operations: Seq<OperationDescriptor>) -> Seq<char>
    decreases operations.len(),
{
    if operations.len() == 0 {
        Seq::empty()
    } else if operations.len() == 1 {
        operations[0]@.key.text()
    } else {
        keys_text(operations.drop_last()) + ","@ + operations.last()@.key.text()
    }
}

/// A worker on one line: who it is, where, whether it is alive, how many slots are
/// free, and what it offers.
pub open spec fn worker_text(view: WorkerView) -> Seq<char> {
    hex_chars(view.identity.node_id.0@) + " "@ + view.advertise_addr@ + " "@ + (if view.alive {
        "true"@
    } else {
        "false"@
    }) + " "@ + decimal(view.free_slots as nat) + " "@ + keys_text(view.operations@)
}

/// Puts a worker on one line.
pub fn worker_line(view: &WorkerView) -> (r: String)
    ensures
        r@ == worker_text(*view),
{
    let mut keys = String::new();
    let mut i: usize = 0;
    assert(view.operations@.take(0) =~= Seq::<OperationDescriptor>::empty());
    while i < view.operations.len()
        invariant
            i <= view.operations@.len(),
            keys@ == keys_text(view.operations@.take(i as int)),
        decreases view.operations@.len() - i,
    {
        assert(view.operations@.take(i + 1).drop_last() =~= view.operations@.take(i as int));
        if i > 0 {
            keys.append(",");
        }
        let key = view.operations[i].key.to_string();
        keys.append(key.as_str());
        assert(keys@ =~= keys_text(view.operations@.take(i + 1)));
        i += 1;
    }
    assert(view.operations@.take(i as int) =~= view.operations@);
    let mut line = view.identity.node_id.to_string();
    line.append(" ");
    line.append(view.advertise_addr.as_str());
    line.append(" ");
    line.append(
        if view.alive {
            "true"
        } else {
            "false"
        },
    );
    line.append(" ");
    let slots = decimal_string(view.free_slots as u64);
    line.append(slots.as_str());
    line.append(" ");
    line.append(keys.as_str());
    line
}

/// Bytes are taken for an object exactly if they are under the id that was asked for,
/// as many as were announced, and of the announced digest; a digest of zeros announces
/// none.
pub proof fn law_only_the_object_asked_for_is_taken(
    requested: ObjectId,
    returned: ObjectId,
    bytes: &[u8],
    expected: [u8; 32],
    size: u64,
    r: Result<(), Error>,
)
    requires
        call_ensures(verify_object, (requested, returned, bytes, expected, size), r),
    ensures
        r is Ok <==> returned == requested && bytes@.len() == size && ((forall|i: int|
            0 <= i < 32 ==> #[trigger] expected@[i] == 0) || blake3_digest(bytes@) == expected@),
        r is Err ==> r->Err_0@ == ErrorModel::ObjectConflict(requested),
{
}

/// A put goes through the arena where that is mapped, in chunks where it does not fit a
/// message, and in one message otherwise.
pub proof fn law_put_takes_the_shortest_path(arena_mapped: bool, len: usize, path: PutPath)
    requires
        call_ensures(put_path, (arena_mapped, len), path),
    ensures
        arena_mapped ==> path is Arena,
        !arena_mapped && len <= 8_323_072 ==> path is Inline,
        !arena_mapped && len > 8_323_072 ==> path is Chunked,
{
}

/// A payload below one MiB is stored under its digest; a larger one under a fresh id,
/// with no digest announced.
pub proof fn law_small_payloads_are_addressed_by_content(bytes: &[u8], fresh: ObjectId, target: (ObjectId, [u8; 32]))
    requires
        call_ensures(arena_target, (bytes, fresh), target),
    ensures
        bytes@.len() < 1_048_576 ==> target.1@ == blake3_digest(bytes@) && target.0 == ObjectId(target.1),
        bytes@.len() >= 1_048_576 ==> target.0 == fresh && forall|i: int| 0 <= i < 32 ==> #[trigger] target.1@[i] == 0,
{
}

/// Every chunk but the last is as large as a message can carry, and the last is what
/// is left.
pub proof fn law_chunks_are_full_but_the_last(total: int, at: int)
    requires
        0 <= at < total,
    ensures
        0 < chunk_len(total, at) <= 8_323_072,
        at + chunk_len(total, at) <= total,
        chunk_len(total, at) < 8_323_072 ==> at + chunk_len(total, at) == total,
{
}

/// A chunked put asks for all of its bytes, sends them in order and without gaps, each
/// chunk where the one before ended, and commits under the same reservation once all
/// are there.
pub proof fn law_chunked_put_sends_everything(before: ChunkedPut, after: ChunkedPut, reply: ClientReply, step: PutStep)
    requires
        before.wf(),
        after.wf(),
        after.bytes == before.bytes,
        chunked_put_met(before, after, reply, step),
        before.stage == PutStage::Writing,
        reply is ChunkWritten,
    ensures
        after.id == before.id,
        after.reservation == before.reservation,
        after.written == before.written + before.in_flight,
        after.written < before.bytes@.len() ==> {
            &&& step matches PutStep::Send(ClientRequest::PutChunk { id, reservation, offset, bytes })
            &&& id == before.id
            &&& reservation == before.reservation
            &&& offset == after.written
            &&& bytes@.len() == after.in_flight
            &&& 0 < bytes@.len() <= 8_323_072
            &&& bytes@ == before.bytes@.subrange(offset as int, offset + bytes@.len())
        },
        after.written == before.bytes@.len() ==> step == PutStep::Send(
            ClientRequest::ArenaCommit { id: before.id, reservation: before.reservation },
        ),
{
}

/// A put into the mapped arena writes where it was told to, if all of its bytes fit
/// there, and nowhere else.
pub proof fn law_arena_put_stays_in_bounds(
    before: ArenaPut,
    after: ArenaPut,
    reply: ClientReply,
    mapped: Option<u64>,
    step: PutStep,
)
    requires
        arena_put_step(before, after, reply, mapped, step),
        before.stage == PutStage::Reserving,
    ensures
        step matches PutStep::Write(at) ==> {
            &&& reply matches ClientReply::ArenaReserved { id, offset, reservation }
            &&& offset == at
            &&& after.id == id
            &&& after.reservation == reservation
            &&& mapped is Some
            &&& at + before.size <= mapped->0
        },
        (reply matches ClientReply::ArenaReserved { id, offset, reservation } && mapped is Some && offset + before.size
            <= mapped->0) ==> step is Write && after.stage == PutStage::Writing,
        reply matches ClientReply::Object(payload) ==> step == PutStep::Done(Ok(payload.id)),
{
}

/// Bytes that came along are used if they are the object; those in a mapped arena are
/// read there if all of them are; and otherwise they are fetched, in chunks where they
/// do not fit a message, from the coordinator where they are in its arena, and from
/// their own place where they are not.
pub proof fn law_payload_is_had_from_the_nearest_place(
    payload: &ObjectPayload,
    mapped: Option<u64>,
    coordinator: &str,
    plan: PayloadPlan,
)
    requires
        call_ensures(plan_payload, (payload, mapped, coordinator), plan),
    ensures
        payload.bytes matches Some(bytes) ==> {
            let fine = bytes@.len() == payload.size_bytes && ((forall|i: int|
                0 <= i < 32 ==> #[trigger] payload.checksum@[i] == 0) || blake3_digest(bytes@) == payload.checksum@);
            &&& fine ==> plan == PayloadPlan::Inline(bytes)
            &&& !fine ==> plan is Failed
        },
        payload.bytes is None && payload.arena is None ==> (plan matches PayloadPlan::Fetch { source } && source@
            == payload.location@),
        payload.bytes is None && payload.arena is Some ==> {
            let offset = payload.arena->0.offset;
            let there = mapped is Some && offset + payload.size_bytes <= mapped->0;
            &&& there ==> plan == (PayloadPlan::Mapped { start: offset, end: (offset + payload.size_bytes) as u64 })
            &&& !there && payload.size_bytes > 8_323_072 ==> (plan matches PayloadPlan::Chunked { source } && source@
                == coordinator@)
            &&& !there && payload.size_bytes <= 8_323_072 ==> (plan matches PayloadPlan::Fetch { source } && source@
                == coordinator@)
        },
{
}

/// What another worker sent is taken exactly if it is the object that was described,
/// in codec, size and digest.
pub proof fn law_fetched_object_matches_its_description(
    payload: &ObjectPayload,
    reply: RpcReply,
    r: Result<Arc<[u8]>, Error>,
)
    requires
        call_ensures(accept_local, (payload, reply), r),
    ensures
        r is Ok <==> (reply matches RpcReply::Client(ClientReply::Object(found)) && found.bytes is Some && found.id
            == payload.id && found.codec == payload.codec && found.checksum == payload.checksum && found.size_bytes
            == payload.size_bytes && found.bytes->0@.len() == payload.size_bytes && ((forall|i: int|
            0 <= i < 32 ==> #[trigger] payload.checksum@[i] == 0) || blake3_digest(found.bytes->0@)
            == payload.checksum@)),
        r matches Ok(bytes) ==> (reply matches RpcReply::Client(ClientReply::Object(found)) && found.bytes == Some(
            bytes,
        )),
{
}

/// A wait is never longer than the time that is left, but for a last millisecond, and
/// none is begun when no time is left.
pub proof fn law_waits_end_with_the_deadline(remaining_nanos: u128, r: Result<u64, Error>)
    requires
        call_ensures(remaining_wait_ms, (remaining_nanos,), r),
    ensures
        r is Err <==> remaining_nanos == 0,
        r matches Ok(wait) ==> wait >= 1 && (wait - 1) * 1_000_000 <= remaining_nanos,
        r matches Ok(wait) ==> wait == 1 || wait * 1_000_000 <= remaining_nanos,
        r matches Ok(wait) ==> wait == u64::MAX || (wait + 1) * 1_000_000 > remaining_nanos,
{
}

/// A batch is done once as many objects as were asked for have been settled.
pub proof fn law_batch_waits_for_enough(reply: ClientReply, min_ready: usize, step: BatchStep)
    requires
        call_ensures(batch_step, (reply, min_ready), step),
        reply is ObjectBatch,
    ensures
        step is Again <==> ready_count(reply->ObjectBatch_0@) < min_ready,
        !(step is Again) ==> step == BatchStep::Done(Ok(reply->ObjectBatch_0)),
{
}

/// A task's end is told apart: failed with its message, cancelled, or over without the
/// output that was asked for.
pub proof fn law_task_end_is_told(task_id: TaskId, output: ObjectId, status: Result<TaskView, Error>, r: Error)
    requires
        call_ensures(terminal_error, (task_id, output, status), r),
    ensures
        status matches Ok(view) ==> {
            &&& view.state matches TaskStatus::Failed(message) ==> r@ == ErrorModel::TaskFailed(task_id, message@)
            &&& view.state is Cancelled ==> r@ == ErrorModel::TaskCancelled(task_id)
            &&& view.state is Succeeded ==> r@ == ErrorModel::ObjectConflict(output)
        },
        status matches Err(error) ==> r@ == error@,
{
}

/// An object that is fetched in chunks grows by full chunks, the last of which holds the
/// rest. A chunk of any other length, or any other answer, adds nothing and is an error.
pub proof fn law_chunk_is_as_long_as_asked(before: ChunkedGet, after: ChunkedGet, reply: RpcReply, r: Result<(), Error>)
    requires
        before.received@.len() < before.size,
        chunk_taken_as(before, after, reply, r),
    ensures
        ({
            let rest = before.size - before.received@.len();
            let wanted = if rest < MAX_OBJECT_BYTES {
                rest
            } else {
                MAX_OBJECT_BYTES as int
            };
            &&& r is Ok ==> (reply matches RpcReply::Client(ClientReply::Chunk(chunk)) && chunk@.len() == wanted
                && after.received@ == before.received@ + chunk@)
            &&& reply matches RpcReply::Client(ClientReply::Chunk(chunk)) ==> chunk@.len() == wanted ==> r is Ok
            &&& r is Err ==> after.received@ == before.received@
        }),
{
}

/// The line on a task tells its id, its output, its state, its attempt and its worker, in
/// this order.
pub proof fn law_status_line_tells_the_task(view: TaskView)
    ensures
        hex_chars(view.task_id.0@).is_prefix_of(status_text(view)),
        says(status_text(view), " "@ + hex_chars(view.output_id.0@)),
        says(status_text(view), " "@ + view.state.text()),
        says(status_text(view), " "@ + decimal(view.attempt.0 as nat)),
        view.worker matches Some(worker) ==> says(status_text(view), " "@ + hex_chars(worker.0@)),
        view.worker is None ==> says(status_text(view), " "@ + "-"@),
{
    lemma_says();
    let id = hex_chars(view.task_id.0@);
    assert(id =~= status_text(view).take(id.len() as int));
}

/// The line on a worker tells its node, its address, whether it is alive, its free slots
/// and the operations that it offers.
pub proof fn law_worker_line_tells_the_worker(view: WorkerView)
    ensures
        hex_chars(view.identity.node_id.0@).is_prefix_of(worker_text(view)),
        says(worker_text(view), " "@ + view.advertise_addr@),
        view.alive ==> says(worker_text(view), " "@ + "true"@),
        !view.alive ==> says(worker_text(view), " "@ + "false"@),
        says(worker_text(view), " "@ + decimal(view.free_slots as nat)),
        says(worker_text(view), " "@ + keys_text(view.operations@)),
{
    lemma_says();
    let id = hex_chars(view.identity.node_id.0@);
    assert(id =~= worker_text(view).take(id.len() as int));
}

/// The text on a worker's operations tells the key of each of them.
pub proof fn law_every_operation_is_told(operations: Seq<OperationDescriptor>, i: int)
    requires
        0 <= i < operations.len(),
    ensures
        says(keys_text(operations), operations[i]@.key.text()),
    decreases operations.len(),
{
    lemma_says();
    let key = operations[i]@.key.text();
    if operations.len() == 1 {
        assert(Seq::<char>::empty() + key =~= key);
        assert(says(Seq::<char>::empty() + key, key));
    } else if i < operations.len() - 1 {
        law_every_operation_is_told(operations.drop_last(), i);
        assert(operations.drop_last()[i] == operations[i]);
    }
}

} // verus!
