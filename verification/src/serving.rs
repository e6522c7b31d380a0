//! What a coordinator and its callers decide around a request: how messages are
//! framed, when a request is parked, when it is sent again, and when the
//! coordinator looks after its state.
//!
//! Sockets, timers and locks are left to the caller.
use std::sync::Arc;
use vstd::prelude::*;
use vstd::string::*;

use crate::cluster::{
    batch_run, client_error, client_get_batch_ready, client_get_ready, dispatch_met, mutates, once_met, only_state,
    ready_count, remembered, remembered_met, submits, worker_poll_ready, CoordinatorServer, ServerModel,
    LONG_POLL_SLICE_MS, MAX_LONG_POLL_MS,
};
use crate::coordinator::machine::{law_revision_never_decreases, Event};
use crate::coordinator::model::Model;
use crate::coordinator::{counted, HealthCounts, WorkerExpiry, MAX_TASKS};
use crate::error::{outcome, Error, ErrorModel};
use crate::ids::{blake3_digest, RequestId};
use crate::protocol::{
    loopback_checked, require_loopback_addr, ClientReply, ClientRequest, Envelope, FailureClass, ObjectPayload,
    RpcReply, RpcRequest, SubmitSpec, SubmittedTask, TaskFence, WorkerReply, WorkerRequest, MAX_FRAME_BYTES,
};
use crate::replay::{admission, considered, expiry, is_full, Admission, Entries};
use crate::text::{debug_quoted, decimal, decimal_string, hex_chars, lemma_says, quoted, says};

verus! {

/// How many connections a coordinator serves at a time.
pub const MAX_CONNECTIONS: usize = 256;

/// How long a caller waits before it sends a request again.
pub const RETRY_DELAY_MS: u64 = 25;

/// How many idle connections are kept per address.
pub const POOL_MAX_PER_ADDR: usize = 8;

/// How often the coordinator reclaims finished tasks and reports its health.
pub const HEALTH_PERIOD_MS: u64 = 30_000;

/// How many assignments lie between two reports of locality.
pub const LOCALITY_PERIOD: u64 = 1_024;

/// The number that four bytes spell, most significant byte first.
pub open spec fn big_endian(bytes: [u8; 4]) -> int {
    bytes@[0] * 0x100_0000 + bytes@[1] * 0x1_0000 + bytes@[2] * 0x100 + bytes@[3]
}

/// The four bytes that announce a message of `len` bytes.
pub fn frame_header(len: usize) -> (r: Result<[u8; 4], Error>)
    ensures
        match r {
            Ok(header) => len <= MAX_FRAME_BYTES && big_endian(header) == len,
            Err(error) => len > MAX_FRAME_BYTES && error@ == ErrorModel::Protocol("frame too large"@),
        },
{
    if len > MAX_FRAME_BYTES {
        return Err(Error::Protocol("frame too large".to_string()));
    }
    let n: u32 = len as u32;
    let header: [u8; 4] = [
        (n / 0x100_0000) as u8,
        (n / 0x1_0000 % 0x100) as u8,
        (n / 0x100 % 0x100) as u8,
        (n % 0x100) as u8,
    ];
    Ok(header)
}

/// How many bytes follow a header.
pub fn frame_len(header: [u8; 4]) -> (r: Result<usize, Error>)
    ensures
        match r {
            Ok(len) => len == big_endian(header) && len <= MAX_FRAME_BYTES,
            Err(error) => big_endian(header) > MAX_FRAME_BYTES && error@ == ErrorModel::Protocol("frame too large"@),
        },
{
    let len: u32 = header[0] as u32 * 0x100_0000 + header[1] as u32 * 0x1_0000 + header[2] as u32 * 0x100
        + header[3] as u32;
    if len as usize > MAX_FRAME_BYTES {
        Err(Error::Protocol("frame too large".to_string()))
    } else {
        Ok(len as usize)
    }
}

/// A header announces one length only.
pub proof fn law_header_is_unambiguous(a: [u8; 4], b: [u8; 4])
    requires
        big_endian(a) == big_endian(b),
    ensures
        a == b,
{
    lemma_same_digits(a@[0], a@[1], a@[2], a@[3], b@[0], b@[1], b@[2], b@[3]);
    assert(a@ =~= b@);
    assert(a =~= b);
}

proof fn lemma_same_digits(a0: u8, a1: u8, a2: u8, a3: u8, b0: u8, b1: u8, b2: u8, b3: u8)
    requires
        a0 * 0x100_0000 + a1 * 0x1_0000 + a2 * 0x100 + a3 == b0 * 0x100_0000 + b1 * 0x1_0000 + b2 * 0x100 + b3,
    ensures
        a0 == b0,
        a1 == b1,
        a2 == b2,
        a3 == b3,
{
    assert(a0 == b0);
    assert(a1 == b1);
    assert(a2 == b2);
}

/// How a request is held until it can be answered.
#[derive(Debug, Clone, Copy, Eq, PartialEq, Structural)]
pub struct Parking {
    /// How long it is held at most.
    pub wait_ms: u64,
    /// Whether answering it may change state, so that other held requests are to
    /// be looked at again.
    pub wakes: bool,
}

pub open spec fn parked(request: RpcRequest) -> Option<Parking> {
    match request {
        RpcRequest::Worker(WorkerRequest::Poll { identity, wait_ms }) => Some(
            Parking { wait_ms: at_most(wait_ms, MAX_LONG_POLL_MS), wakes: true },
        ),
        RpcRequest::Client(ClientRequest::Get { object, wait_ms }) => if wait_ms > 0 {
            Some(Parking { wait_ms: at_most(wait_ms, MAX_LONG_POLL_MS), wakes: false })
        } else {
            None
        },
        RpcRequest::Client(ClientRequest::GetBatch { objects, wait_ms, min_ready }) => if wait_ms > 0 {
            Some(Parking { wait_ms: at_most(wait_ms, MAX_LONG_POLL_MS), wakes: false })
        } else {
            None
        },
        _ => None,
    }
}

pub open spec fn at_most(value: u64, limit: u64) -> u64 {
    if value < limit {
        value
    } else {
        limit
    }
}

fn smaller(value: u64, limit: u64) -> (r: u64)
    ensures
        r == at_most(value, limit),
{
    if value < limit {
        value
    } else {
        limit
    }
}

/// Whether and how a request is held. A poll for work and a get that waits are;
/// everything else is answered at once.
pub fn parking(request: &RpcRequest) -> (r: Option<Parking>)
    ensures
        r == parked(*request),
{
    match request {
        RpcRequest::Worker(WorkerRequest::Poll { wait_ms, .. }) => Some(
            Parking { wait_ms: smaller(*wait_ms, MAX_LONG_POLL_MS), wakes: true },
        ),
        RpcRequest::Client(ClientRequest::Get { wait_ms, .. }) => if *wait_ms > 0 {
            Some(Parking { wait_ms: smaller(*wait_ms, MAX_LONG_POLL_MS), wakes: false })
        } else {
            None
        },
        RpcRequest::Client(ClientRequest::GetBatch { wait_ms, .. }) => if *wait_ms > 0 {
            Some(Parking { wait_ms: smaller(*wait_ms, MAX_LONG_POLL_MS), wakes: false })
        } else {
            None
        },
        _ => None,
    }
}

/// The reply need not be waited for any longer.
pub open spec fn answered(request: RpcRequest, reply: RpcReply) -> bool {
    match request {
        RpcRequest::Worker(WorkerRequest::Poll { identity, wait_ms }) => reply != RpcReply::Worker(
            WorkerReply::Assignment(None),
        ),
        RpcRequest::Client(ClientRequest::Get { object, wait_ms }) => !(reply matches RpcReply::Client(
            ClientReply::Error(Error::ObjectPending(_)),
        )),
        RpcRequest::Client(ClientRequest::GetBatch { objects, wait_ms, min_ready }) => match reply {
            RpcReply::Client(ClientReply::ObjectBatch(results)) => ready_count(results@) >= min_ready,
            _ => true,
        },
        _ => true,
    }
}

/// What to do with a reply to a held request: hand it over, or look again after
/// at most so many nanoseconds. `remaining_nanos` is what is left of the wait.
pub fn long_poll_step(request: &RpcRequest, reply: &RpcReply, remaining_nanos: u64) -> (r: Option<u64>)
    ensures
        r == if answered(*request, *reply) || remaining_nanos == 0 {
            None::<u64>
        } else {
            Some(at_most(remaining_nanos, (LONG_POLL_SLICE_MS * 1_000_000) as u64))
        },
{
    let done = match request {
        RpcRequest::Worker(WorkerRequest::Poll { .. }) => worker_poll_ready(reply),
        RpcRequest::Client(ClientRequest::Get { .. }) => client_get_ready(reply),
        RpcRequest::Client(ClientRequest::GetBatch { min_ready, .. }) => client_get_batch_ready(reply, *min_ready),
        _ => true,
    };
    if done || remaining_nanos == 0 {
        None
    } else {
        Some(smaller(remaining_nanos, LONG_POLL_SLICE_MS * 1_000_000))
    }
}

/// How one attempt at a request ended.
#[derive(Debug)]
pub enum AttemptOutcome {
    Replied(RpcReply),
    Failed(Error),
    TimedOut,
}

/// What a caller does after an attempt.
#[derive(Debug)]
pub enum RequestStep {
    Return(Result<RpcReply, Error>),
    /// Try once more, on a new connection, after so many milliseconds.
    Retry(u64),
}

/// How long an attempt that starts at `now` may take.
pub fn attempt_window(deadline: u64, now: u64) -> (r: Result<u64, Error>)
    ensures
        match r {
            Ok(window) => now < deadline && window == deadline - now,
            Err(error) => deadline <= now && error@ == ErrorModel::DeadlineExceeded,
        },
{
    if deadline <= now {
        Err(Error::DeadlineExceeded)
    } else {
        Ok(deadline - now)
    }
}

/// What follows an attempt. Only a transport fault of the first attempt is worth
/// another; the deadline holds for both together.
pub fn request_step(first: bool, attempt: AttemptOutcome, deadline: u64, now: u64) -> (r: RequestStep)
    ensures
        match attempt {
            AttemptOutcome::Replied(reply) => r == RequestStep::Return(Ok(reply)),
            AttemptOutcome::TimedOut => r matches RequestStep::Return(Err(error)) && error@
                == ErrorModel::DeadlineExceeded,
            AttemptOutcome::Failed(error) => if first && error is Io {
                if deadline <= now {
                    r matches RequestStep::Return(Err(e)) && e@ == ErrorModel::DeadlineExceeded
                } else {
                    r == RequestStep::Retry(at_most((deadline - now) as u64, RETRY_DELAY_MS))
                }
            } else {
                r == RequestStep::Return(Err(error))
            },
        },
{
    match attempt {
        AttemptOutcome::Replied(reply) => RequestStep::Return(Ok(reply)),
        AttemptOutcome::TimedOut => RequestStep::Return(Err(Error::DeadlineExceeded)),
        AttemptOutcome::Failed(error) => {
            if !first {
                return RequestStep::Return(Err(error));
            }
            match error {
                Error::Io(_) => if deadline <= now {
                    RequestStep::Return(Err(Error::DeadlineExceeded))
                } else {
                    RequestStep::Retry(smaller(deadline - now, RETRY_DELAY_MS))
                },
                error => RequestStep::Return(Err(error)),
            }
        },
    }
}

/// Whether a connection on which a reply came is kept, if `idle` are kept for
/// the address already.
pub fn keeps_connection(idle: usize) -> (r: bool)
    ensures
        r == (idle < POOL_MAX_PER_ADDR),
{
    idle < POOL_MAX_PER_ADDR
}

/// When the coordinator looks after its state. Leases are checked on every tick;
/// the scans of whole tables come less often.
#[derive(Debug)]
pub struct Reaper {
    pub locality_logged: u64,
    pub health_logged_ms: u64,
}

impl Reaper {
    pub fn new() -> (r: Self)
        ensures
            r.locality_logged == 0,
            r.health_logged_ms == 0,
    {
        Reaper { locality_logged: 0, health_logged_ms: 0 }
    }

    /// How long a tick takes: a third of a lease, and at least ten milliseconds.
    pub fn period_ms(lease_ms: u64) -> (r: u64)
        ensures
            r == if lease_ms / 3 > 10 {
                lease_ms / 3
            } else {
                10
            },
    {
        if lease_ms / 3 > 10 {
            lease_ms / 3
        } else {
            10
        }
    }

    /// Whether finished tasks are to be reclaimed and health to be reported now.
    pub fn report_due(&mut self, now: u64) -> (r: bool)
        ensures
            r == (now - old(self).health_logged_ms >= HEALTH_PERIOD_MS),
            final(self).locality_logged == old(self).locality_logged,
            final(self).health_logged_ms == if r {
                now
            } else {
                old(self).health_logged_ms
            },
    {
        let due = now >= self.health_logged_ms && now - self.health_logged_ms >= HEALTH_PERIOD_MS;
        if due {
            self.health_logged_ms = now;
        }
        due
    }

    /// Whether the share of local placements is to be reported, after `assigns`
    /// assignments in all.
    pub fn locality_due(&mut self, assigns: u64) -> (r: bool)
        ensures
            r == (assigns - old(self).locality_logged >= LOCALITY_PERIOD),
            final(self).health_logged_ms == old(self).health_logged_ms,
            final(self).locality_logged == if r {
                assigns
            } else {
                old(self).locality_logged
            },
    {
        let due = assigns >= self.locality_logged && assigns - self.locality_logged >= LOCALITY_PERIOD;
        if due {
            self.locality_logged = assigns;
        }
        due
    }
}

/// What one look at the coordinator's state found and did.
#[derive(Debug)]
pub struct Tick {
    /// The workers whose leases had run out.
    pub expired: Vec<WorkerExpiry>,
    /// How many finished tasks were dropped, if it was time for that.
    pub reclaimed: Option<usize>,
    /// Of all assignments so far: placed at their input, with an input that some
    /// worker owns, and all; if it was time to report that.
    pub locality: Option<(u64, u64, u64)>,
    /// Counts for the health report, if it was time for that.
    pub health: Option<HealthCounts>,
}

/// The counters are far enough from their limit for one more operation.
pub open spec fn roomy(s: Model) -> bool {
    let limit = u64::MAX - MAX_TASKS - 1;
    &&& s.revision <= limit
    &&& s.sched_assigns <= limit
    &&& s.sched_owned_input <= limit
    &&& s.sched_local_hits <= limit
    &&& s.retries_total <= limit
    &&& s.failures_total <= limit
}

/// `mid` is the state without the expired workers; `n` is that state without the
/// finished tasks that were to be dropped.
pub open spec fn tidied(s: Model, mid: Model, n: Model, now: u64, due: bool, tick: Tick) -> bool {
    &&& s.expires_to(mid, now, tick.expired@)
    &&& match tick.reclaimed {
        Some(count) => due && roomy(mid) && mid.reaps_to(n, now, count as int),
        None => n == mid && (due ==> !roomy(mid)),
    }
}

/// What one look at the state does: expired workers are forgotten every time;
/// finished tasks are dropped and the health is counted when a report is due, the
/// former unless a counter is about to overflow; and the placements are reported
/// after every so many.
pub open spec fn ticked(before: Reaper, after: Reaper, s: Model, n: Model, now: u64, tick: Tick) -> bool {
    let due = now - before.health_logged_ms >= HEALTH_PERIOD_MS;
    let local = n.sched_assigns - before.locality_logged >= LOCALITY_PERIOD;
    &&& after.health_logged_ms == if due {
        now
    } else {
        before.health_logged_ms
    }
    &&& after.locality_logged == if local {
        n.sched_assigns
    } else {
        before.locality_logged as int
    }
    &&& exists|mid: Model| #[trigger] tidied(s, mid, n, now, due, tick)
    &&& match tick.locality {
        Some((hits, owned, assigns)) => {
            &&& local
            &&& hits == n.sched_local_hits
            &&& owned == n.sched_owned_input
            &&& assigns == n.sched_assigns
        },
        None => !local,
    }
    &&& match tick.health {
        Some(counts) => due && counted(n, counts),
        None => !due,
    }
}

impl Reaper {
    /// Looks after the state.
    pub fn tick(&mut self, server: &mut CoordinatorServer, now: u64) -> (r: Tick)
        requires
            old(server).wf(),
            old(server).has_headroom(),
        ensures
            final(server).wf(),
            only_state(old(server)@, final(server)@),
            final(server).entries() == old(server).entries(),
            final(server).cluster_id == old(server).cluster_id,
            ticked(*old(self), *final(self), old(server)@.state, final(server)@.state, now, r),
    {
        let due = self.report_due(now);
        let ghost start = server.state@;
        let expired: Vec<WorkerExpiry> = match server.state.expire_workers(now) {
            Ok(list) => list,
            Err(_) => Vec::new(),
        };
        let ghost mid = server.state@;
        assert(start.expires_to(mid, now, expired@));
        let mut reclaimed: Option<usize> = None;
        let roomy_now = server.state.check_headroom();
        assert(roomy_now == roomy(mid));
        if due && roomy_now {
            reclaimed = Some(server.state.reap_terminal_tasks(now));
        }
        let health: Option<HealthCounts> = if due {
            Some(server.state.health_counts())
        } else {
            None
        };
        let assigns: u64 = server.state.sched_assigns;
        let locality: Option<(u64, u64, u64)> = if self.locality_due(assigns) {
            Some((server.state.sched_local_hits, server.state.sched_owned_input, assigns))
        } else {
            None
        };
        let r = Tick { expired, reclaimed, locality, health };
        assert(tidied(start, mid, server.state@, now, due, r));
        r
    }
}

/// Whether those who wait for a change are to be woken after a look at the state.
pub fn wakes(tick: &Tick) -> (r: bool)
    ensures
        r == (tick.expired@.len() > 0),
{
    tick.expired.len() > 0
}

/// The line that reports the health.
pub open spec fn health_text(counts: HealthCounts, arena_bytes: u64) -> Seq<char> {
    "crayon.health tasks="@ + decimal(counts.tasks as nat) + " runnable="@ + decimal(counts.runnable as nat)
        + " running="@ + decimal(counts.running as nat) + " succeeded="@ + decimal(counts.succeeded as nat)
        + " failed="@ + decimal(counts.failed as nat) + " objects="@ + decimal(counts.objects as nat)
        + " available="@ + decimal(counts.available as nat) + " reserved="@ + decimal(counts.reserved as nat)
        + " lost="@ + decimal(counts.lost as nat) + " workers="@ + decimal(counts.workers as nat)
        + " arena_bytes="@ + decimal(arena_bytes as nat) + " retries_total="@ + decimal(counts.retries_total as nat)
        + " failures_total="@ + decimal(counts.failures_total as nat)
}

fn append_field(line: &mut String, name: &str, value: u64)
    ensures
        final(line)@ == old(line)@ + name@ + decimal(value as nat),
{
    line.append(name);
    let digits = decimal_string(value);
    line.append(digits.as_str());
}

/// Formats the line that reports the health.
pub fn health_line(counts: &HealthCounts, arena_bytes: u64) -> (r: String)
    ensures
        r@ == health_text(*counts, arena_bytes),
{
    let mut line = "crayon.health tasks=".to_string();
    let tasks = decimal_string(counts.tasks as u64);
    line.append(tasks.as_str());
    append_field(&mut line, " runnable=", counts.runnable as u64);
    append_field(&mut line, " running=", counts.running as u64);
    append_field(&mut line, " succeeded=", counts.succeeded as u64);
    append_field(&mut line, " failed=", counts.failed as u64);
    append_field(&mut line, " objects=", counts.objects as u64);
    append_field(&mut line, " available=", counts.available as u64);
    append_field(&mut line, " reserved=", counts.reserved as u64);
    append_field(&mut line, " lost=", counts.lost as u64);
    append_field(&mut line, " workers=", counts.workers as u64);
    append_field(&mut line, " arena_bytes=", arena_bytes);
    append_field(&mut line, " retries_total=", counts.retries_total);
    append_field(&mut line, " failures_total=", counts.failures_total);
    line
}

/// The line that reports a lost worker.
pub open spec fn expiry_text(expiry: WorkerExpiry) -> Seq<char> {
    "crayon.worker_dead node="@ + hex_chars(expiry.node.0@) + " retried="@ + decimal(expiry.retried as nat)
        + " failed="@ + decimal(expiry.failed as nat) + " cancelled="@ + decimal(expiry.cancelled as nat)
        + " objects_lost="@ + decimal(expiry.objects_lost as nat)
}

/// Formats the line that reports a lost worker.
pub fn expiry_line(expiry: &WorkerExpiry) -> (r: String)
    ensures
        r@ == expiry_text(*expiry),
{
    let mut line = "crayon.worker_dead node=".to_string();
    let node = expiry.node.to_string();
    line.append(node.as_str());
    append_field(&mut line, " retried=", expiry.retried as u64);
    append_field(&mut line, " failed=", expiry.failed as u64);
    append_field(&mut line, " cancelled=", expiry.cancelled as u64);
    append_field(&mut line, " objects_lost=", expiry.objects_lost as u64);
    line
}

/// The line that reports a task which failed for good.
pub open spec fn failure_text(fence: TaskFence, message: Seq<char>, class: FailureClass) -> Seq<char> {
    "crayon.task_failed task="@ + hex_chars(fence.task_id.0@) + " attempt="@ + decimal(fence.attempt.0 as nat)
        + " class="@ + (match class {
        FailureClass::Transient => "Transient"@,
        FailureClass::Permanent => "Permanent"@,
    }) + " reason="@ + debug_quoted(message)
}

/// Formats the line that reports a task which failed for good: one for a worker's
/// report of a failure that made the count of such failures go up.
pub fn failure_line(request: &RpcRequest, failures_before: u64, failures_after: u64) -> (r: Option<String>)
    ensures
        match *request {
            RpcRequest::Worker(WorkerRequest::Failed { identity, fence, message, class }) => if failures_after
                > failures_before {
                r is Some && r->0@ == failure_text(fence, message@, class)
            } else {
                r is None
            },
            _ => r is None,
        },
{
    match request {
        RpcRequest::Worker(WorkerRequest::Failed { identity: _, fence, message, class }) => {
            if failures_after <= failures_before {
                return None;
            }
            let mut line = "crayon.task_failed task=".to_string();
            let task = fence.task_id.to_string();
            line.append(task.as_str());
            append_field(&mut line, " attempt=", fence.attempt.0 as u64);
            line.append(" class=");
            line.append(
                match class {
                    FailureClass::Transient => "Transient",
                    FailureClass::Permanent => "Permanent",
                },
            );
            line.append(" reason=");
            let reason = quoted(message.as_str());
            line.append(reason.as_str());
            Some(line)
        },
        _ => None,
    }
}

impl Default for Reaper {
    fn default() -> (r: Self)
        ensures
            r.locality_logged == 0,
            r.health_logged_ms == 0,
    {
        Reaper::new()
    }
}

/// Whether a server may listen on this address: one that keeps to its own
/// machine may listen on loopback addresses only.
pub fn check_bind(server: &CoordinatorServer, bind: &str) -> (r: Result<(), Error>)
    ensures
        outcome(r) == if server@.require_loopback {
            loopback_checked(bind@)
        } else {
            Ok::<(), ErrorModel>(())
        },
{
    if server.requires_loopback() {
        require_loopback_addr(bind)
    } else {
        Ok(())
    }
}

/// A mutation that names another epoch changes nothing and is refused.
pub proof fn law_stale_epoch_changes_nothing<F: Fn(&Result<ObjectPayload, Error>) -> u64, G: Fn(&RpcReply) -> usize>(
    before: ServerModel,
    after: ServerModel,
    entries: Entries,
    entries_after: Entries,
    memory: Seq<u8>,
    memory_after: Seq<u8>,
    envelope: Envelope,
    body: Seq<u8>,
    now: u64,
    base: u64,
    size_of: F,
    reply_size: G,
    r: Result<Arc<RpcReply>, Error>,
)
    requires
        once_met(
            before,
            after,
            entries,
            entries_after,
            memory,
            memory_after,
            envelope,
            body,
            now,
            base,
            size_of,
            reply_size,
            r,
        ),
        mutates(envelope.body),
        envelope.coordinator_epoch != Some(before.state.epoch),
    ensures
        after == before,
        entries_after == entries,
        memory_after == memory,
        r is Err,
        envelope.coordinator_epoch is Some ==> r->Err_0@ == ErrorModel::StaleEpoch,
{
}

proof fn lemma_batch_keeps_epoch(states: Seq<Model>, specs: Seq<SubmitSpec>, results: Seq<Result<SubmittedTask, Error>>)
    requires
        batch_run(states, specs, results),
    ensures
        states.last().epoch == states[0].epoch,
    decreases specs.len(),
{
    if specs.len() > 0 {
        let n = specs.len() - 1;
        assert forall|i: int| 0 <= i < n implies submits(
            #[trigger] states.drop_last()[i],
            states.drop_last()[i + 1],
            specs.drop_last()[i],
            results.drop_last()[i],
        ) by {
            assert(submits(states[i], states[i + 1], specs[i], results[i]));
        }
        lemma_batch_keeps_epoch(states.drop_last(), specs.drop_last(), results.drop_last());
        assert(submits(states[n], states[n + 1], specs[n], results[n]));
    }
}

/// No reply is kept under the id any more, and there is room to keep one.
pub open spec fn is_new(entries: Entries, id: RequestId, now: u64) -> bool {
    let left = considered(entries, id, now);
    !left.contains_key(id) && !is_full(left)
}

/// A shared reply by itself.
spec fn plain(reply: Arc<RpcReply>) -> RpcReply {
    *reply
}

/// A request whose reply is remembered does not begin a new epoch.
proof fn lemma_epoch_kept<F: Fn(&Result<ObjectPayload, Error>) -> u64>(
    before: ServerModel,
    after: ServerModel,
    memory: Seq<u8>,
    memory_after: Seq<u8>,
    request: RpcRequest,
    now: u64,
    base: u64,
    size_of: F,
    reply: Arc<RpcReply>,
)
    requires
        before.state.wf(),
        remembered(request),
        dispatch_met(before, after, memory, memory_after, request, now, base, size_of, *reply),
    ensures
        after.state.epoch == before.state.epoch,
{
    let client = request->Client_0;
    if let ClientRequest::SubmitBatch(specs) = client {
        let results = plain(reply)->Client_0->SubmittedBatch_0@;
        let states = choose|states: Seq<Model>| #[trigger]
            batch_run(states, specs@, results) && states[0] == before.state && states.last() == after.state;
        lemma_batch_keeps_epoch(states, specs@, results);
    }
    if let ClientRequest::Cancel(id) = client {
        law_revision_never_decreases(before.state, Event::Cancel { id }, after.state);
    }
}

/// What is remembered of a request that was not known before: it was applied, and
/// its reply is kept with the digest of its bytes until it expires.
proof fn lemma_first_is_applied<F: Fn(&Result<ObjectPayload, Error>) -> u64, G: Fn(&RpcReply) -> usize>(
    before: ServerModel,
    after: ServerModel,
    entries: Entries,
    entries_after: Entries,
    memory: Seq<u8>,
    memory_after: Seq<u8>,
    envelope: Envelope,
    body: Seq<u8>,
    now: u64,
    base: u64,
    size_of: F,
    reply_size: G,
    r: Result<Arc<RpcReply>, Error>,
) -> (hash: [u8; 32])
    requires
        before.state.wf(),
        once_met(
            before,
            after,
            entries,
            entries_after,
            memory,
            memory_after,
            envelope,
            body,
            now,
            base,
            size_of,
            reply_size,
            r,
        ),
        remembered(envelope.body),
        envelope.coordinator_epoch == Some(before.state.epoch),
        is_new(entries, envelope.request_id, now),
    ensures
        r is Ok,
        hash@ == blake3_digest(body),
        after.state.epoch == before.state.epoch,
        dispatch_met(before, after, memory, memory_after, envelope.body, now, base, size_of, *r->Ok_0),
        entries_after.contains_key(envelope.request_id),
        entries_after[envelope.request_id].body_hash == hash,
        entries_after[envelope.request_id].reply == r->Ok_0,
        entries_after[envelope.request_id].expires_at_ms == expiry(envelope.deadline_unix_ms, now),
{
    let reply = r->Ok_0;
    let (hash, bytes) = choose|hash: [u8; 32], bytes: usize| #[trigger]
        remembered_met(
            before,
            after,
            entries,
            entries_after,
            memory,
            memory_after,
            envelope,
            now,
            base,
            size_of,
            reply_size,
            hash,
            bytes,
            reply,
        ) && hash@ == blake3_digest(body);
    assert(admission(entries, envelope.request_id, hash, now) is Fresh);
    lemma_epoch_kept(before, after, memory, memory_after, envelope.body, now, base, size_of, reply);
    hash
}

/// A client mutation that is new to the server is applied, and sent again,
/// unchanged, before its reply expires it gets the same reply and is not applied
/// again.
pub proof fn law_retry_is_not_applied_again<F: Fn(&Result<ObjectPayload, Error>) -> u64, G: Fn(&RpcReply) -> usize>(
    first: ServerModel,
    second: ServerModel,
    third: ServerModel,
    entries: Seq<Entries>,
    memories: Seq<Seq<u8>>,
    envelope: Envelope,
    body: Seq<u8>,
    now: u64,
    later: u64,
    base: u64,
    size_of: F,
    reply_size: G,
    answer: Result<Arc<RpcReply>, Error>,
    again: Result<Arc<RpcReply>, Error>,
)
    requires
        entries.len() == 3,
        memories.len() == 3,
        first.state.wf(),
        once_met(
            first,
            second,
            entries[0],
            entries[1],
            memories[0],
            memories[1],
            envelope,
            body,
            now,
            base,
            size_of,
            reply_size,
            answer,
        ),
        once_met(
            second,
            third,
            entries[1],
            entries[2],
            memories[1],
            memories[2],
            envelope,
            body,
            later,
            base,
            size_of,
            reply_size,
            again,
        ),
        remembered(envelope.body),
        envelope.coordinator_epoch == Some(first.state.epoch),
        is_new(entries[0], envelope.request_id, now),
        later < expiry(envelope.deadline_unix_ms, now),
    ensures
        answer is Ok,
        dispatch_met(first, second, memories[0], memories[1], envelope.body, now, base, size_of, *answer->Ok_0),
        again == answer,
        third == second,
        memories[2] == memories[1],
        entries[2] == entries[1],
{
    let hash = lemma_first_is_applied(
        first,
        second,
        entries[0],
        entries[1],
        memories[0],
        memories[1],
        envelope,
        body,
        now,
        base,
        size_of,
        reply_size,
        answer,
    );
    let reply = again->Ok_0;
    let (hash2, bytes2) = choose|hash: [u8; 32], bytes: usize| #[trigger]
        remembered_met(
            second,
            third,
            entries[1],
            entries[2],
            memories[1],
            memories[2],
            envelope,
            later,
            base,
            size_of,
            reply_size,
            hash,
            bytes,
            reply,
        ) && hash@ == blake3_digest(body);
    assert(hash =~= hash2);
    assert(admission(entries[1], envelope.request_id, hash2, later) == Admission::Replay(answer->Ok_0));
}

/// Another request under the id of a client mutation that was applied is refused
/// before the reply to that one expires, and changes nothing. What tells the two
/// requests apart is the digest of their bytes.
pub proof fn law_another_body_is_refused<F: Fn(&Result<ObjectPayload, Error>) -> u64, G: Fn(&RpcReply) -> usize>(
    first: ServerModel,
    second: ServerModel,
    third: ServerModel,
    entries: Seq<Entries>,
    memories: Seq<Seq<u8>>,
    envelope: Envelope,
    body: Seq<u8>,
    other: Envelope,
    other_body: Seq<u8>,
    now: u64,
    later: u64,
    base: u64,
    size_of: F,
    reply_size: G,
    answer: Result<Arc<RpcReply>, Error>,
    refusal: Result<Arc<RpcReply>, Error>,
)
    requires
        entries.len() == 3,
        memories.len() == 3,
        first.state.wf(),
        once_met(
            first,
            second,
            entries[0],
            entries[1],
            memories[0],
            memories[1],
            envelope,
            body,
            now,
            base,
            size_of,
            reply_size,
            answer,
        ),
        once_met(
            second,
            third,
            entries[1],
            entries[2],
            memories[1],
            memories[2],
            other,
            other_body,
            later,
            base,
            size_of,
            reply_size,
            refusal,
        ),
        remembered(envelope.body),
        remembered(other.body),
        other.request_id == envelope.request_id,
        blake3_digest(other_body) != blake3_digest(body),
        envelope.coordinator_epoch == Some(first.state.epoch),
        other.coordinator_epoch == Some(first.state.epoch),
        is_new(entries[0], envelope.request_id, now),
        later < expiry(envelope.deadline_unix_ms, now),
    ensures
        refusal is Ok,
        client_error(*refusal->Ok_0, ErrorModel::Protocol("request id reused with different body"@)),
        third == second,
        memories[2] == memories[1],
        entries[2] == entries[1],
{
    let hash = lemma_first_is_applied(
        first,
        second,
        entries[0],
        entries[1],
        memories[0],
        memories[1],
        envelope,
        body,
        now,
        base,
        size_of,
        reply_size,
        answer,
    );
    let reply = refusal->Ok_0;
    let (hash2, bytes2) = choose|hash: [u8; 32], bytes: usize| #[trigger]
        remembered_met(
            second,
            third,
            entries[1],
            entries[2],
            memories[1],
            memories[2],
            other,
            later,
            base,
            size_of,
            reply_size,
            hash,
            bytes,
            reply,
        ) && hash@ == blake3_digest(other_body);
    assert(hash != hash2);
    assert(admission(entries[1], envelope.request_id, hash2, later) is Reused);
}

/// A submission that is sent twice adds one task: the one that both replies name.
/// If the first is refused, none is added.
pub proof fn law_submit_adds_one_task<F: Fn(&Result<ObjectPayload, Error>) -> u64, G: Fn(&RpcReply) -> usize>(
    first: ServerModel,
    second: ServerModel,
    third: ServerModel,
    entries: Seq<Entries>,
    memories: Seq<Seq<u8>>,
    envelope: Envelope,
    body: Seq<u8>,
    now: u64,
    later: u64,
    base: u64,
    size_of: F,
    reply_size: G,
    answer: Result<Arc<RpcReply>, Error>,
    again: Result<Arc<RpcReply>, Error>,
)
    requires
        entries.len() == 3,
        memories.len() == 3,
        first.state.wf(),
        once_met(
            first,
            second,
            entries[0],
            entries[1],
            memories[0],
            memories[1],
            envelope,
            body,
            now,
            base,
            size_of,
            reply_size,
            answer,
        ),
        once_met(
            second,
            third,
            entries[1],
            entries[2],
            memories[1],
            memories[2],
            envelope,
            body,
            later,
            base,
            size_of,
            reply_size,
            again,
        ),
        envelope.body matches RpcRequest::Client(client) && client is Submit,
        envelope.coordinator_epoch == Some(first.state.epoch),
        is_new(entries[0], envelope.request_id, now),
        later < expiry(envelope.deadline_unix_ms, now),
    ensures
        answer is Ok,
        again == answer,
        match *answer->Ok_0 {
            RpcReply::Client(ClientReply::Submitted { task_id, output_id }) => {
                &&& !first.state.tasks.contains_key(task_id)
                &&& third.state.tasks.dom() == first.state.tasks.dom().insert(task_id)
                &&& third.state.tasks[task_id].output == output_id
            },
            _ => third.state == first.state,
        },
{
    law_retry_is_not_applied_again(
        first,
        second,
        third,
        entries,
        memories,
        envelope,
        body,
        now,
        later,
        base,
        size_of,
        reply_size,
        answer,
        again,
    );
    let client = plain(answer->Ok_0)->Client_0;
    if client is Submitted {
        assert(third.state.tasks.dom() =~= first.state.tasks.dom().insert(client->task_id));
    }
}

/// The line on the coordinator's health tells each count under its name.
pub proof fn law_health_line_tells_the_counts(counts: HealthCounts, arena_bytes: u64)
    ensures
        ({
            let text = health_text(counts, arena_bytes);
            &&& says(text, "crayon.health tasks="@ + decimal(counts.tasks as nat))
            &&& says(text, " runnable="@ + decimal(counts.runnable as nat))
            &&& says(text, " running="@ + decimal(counts.running as nat))
            &&& says(text, " succeeded="@ + decimal(counts.succeeded as nat))
            &&& says(text, " failed="@ + decimal(counts.failed as nat))
            &&& says(text, " objects="@ + decimal(counts.objects as nat))
            &&& says(text, " available="@ + decimal(counts.available as nat))
            &&& says(text, " reserved="@ + decimal(counts.reserved as nat))
            &&& says(text, " lost="@ + decimal(counts.lost as nat))
            &&& says(text, " workers="@ + decimal(counts.workers as nat))
            &&& says(text, " arena_bytes="@ + decimal(arena_bytes as nat))
            &&& says(text, " retries_total="@ + decimal(counts.retries_total as nat))
            &&& says(text, " failures_total="@ + decimal(counts.failures_total as nat))
        }),
{
    lemma_says();
    let first = "crayon.health tasks="@ + decimal(counts.tasks as nat);
    assert(says(Seq::<char>::empty() + first, first));
    assert(Seq::<char>::empty() + first =~= first);
}

/// The line on a worker that is gone names it and tells what became of its tasks and
/// objects.
pub proof fn law_expiry_line_tells_what_was_lost(expiry: WorkerExpiry)
    ensures
        ({
            let text = expiry_text(expiry);
            &&& says(text, "crayon.worker_dead node="@ + hex_chars(expiry.node.0@))
            &&& says(text, " retried="@ + decimal(expiry.retried as nat))
            &&& says(text, " failed="@ + decimal(expiry.failed as nat))
            &&& says(text, " cancelled="@ + decimal(expiry.cancelled as nat))
            &&& says(text, " objects_lost="@ + decimal(expiry.objects_lost as nat))
        }),
{
    lemma_says();
    let first = "crayon.worker_dead node="@ + hex_chars(expiry.node.0@);
    assert(says(Seq::<char>::empty() + first, first));
    assert(Seq::<char>::empty() + first =~= first);
}

/// The line on a failed attempt names the task and the attempt, says whether trying again
/// may help, and gives the reason.
pub proof fn law_failure_line_gives_the_reason(fence: TaskFence, message: Seq<char>, class: FailureClass)
    ensures
        ({
            let text = failure_text(fence, message, class);
            &&& says(text, "crayon.task_failed task="@ + hex_chars(fence.task_id.0@))
            &&& says(text, " attempt="@ + decimal(fence.attempt.0 as nat))
            &&& class == FailureClass::Transient ==> says(text, " class="@ + "Transient"@)
            &&& class == FailureClass::Permanent ==> says(text, " class="@ + "Permanent"@)
            &&& says(text, " reason="@ + debug_quoted(message))
        }),
{
    lemma_says();
    let first = "crayon.task_failed task="@ + hex_chars(fence.task_id.0@);
    assert(says(Seq::<char>::empty() + first, first));
    assert(Seq::<char>::empty() + first =~= first);
}

} // verus!
