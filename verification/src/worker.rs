//! A worker: the operations it offers, and what it decides from registration to
//! the end of a session.
//!
//! Sending requests, sleeping and running operations is left to the caller. Each
//! reply goes through a function here, which says what to do next.
use vstd::prelude::*;
use vstd::string::*;

use crate::data_plane::{LocalObject, LocalObjectStore};
use crate::error::{is_transient, outcome, Error, ErrorModel};
use crate::ids::{ClusterId, NodeId, ObjectId, WorkerEpoch};
use crate::ids::blake3_digest;
use crate::operation::{
    by_key, descriptors_model, Codec, DescriptorModel, KeyModel, OperationDescriptor, OperationKey, Operations, TaskArg,
};
use crate::protocol::{
    ClientReply, ClientRequest, Envelope, FailureClass, ObjectPayload, RegisterWorker, RegisteredWorker, RpcReply,
    RpcRequest, TaskAssignment, TaskCompletion, TaskFence, WorkerIdentity, WorkerReply, WorkerRequest,
};
use crate::resources::ResourceSet;
use crate::table::Table;

verus! {

/// How long a poll for work waits at the coordinator.
pub const WORKER_POLL_WAIT_MS: u64 = 2_000;

/// Outputs up to this size are sent along with the completion report.
pub const INLINE_RESULT_MAX_BYTES: usize = 65_536;

/// How long a draining worker may take to finish its task.
pub const WORKER_DRAIN_GRACE_MS: u64 = 20_000;

/// How long a worker pauses before it tries again.
pub const WORKER_RETRY_MS: u64 = 1_000;

/// How often a busy worker asks whether its task was cancelled.
pub const BUSY_POLL_MS: u64 = 50;

/// An operation's code, as a value of the map from keys.
#[derive(Debug)]
struct Handler<F> {
    run: F,
}

impl<F> View for Handler<F> {
    type V = F;

    closed spec fn view(&self) -> F {
        self.run
    }
}

/// Operations by key: what each takes and returns, and the code that runs it.
#[derive(Debug)]
pub struct OperationRegistry<F> {
    offered: Operations,
    handlers: Table<OperationKey, Handler<F>>,
}

impl<F> OperationRegistry<F> {
    /// The descriptors by key.
    pub closed spec fn offered(&self) -> Map<KeyModel, DescriptorModel> {
        self.offered@
    }

    /// The code by key.
    pub closed spec fn handlers(&self) -> Map<KeyModel, F> {
        self.handlers@
    }

    pub closed spec fn tables_ok(&self) -> bool {
        self.handlers.wf()
    }

    /// Every descriptor has its code, and the other way round.
    pub open spec fn wf(&self) -> bool {
        self.tables_ok() && self.offered().dom() == self.handlers().dom()
    }

    pub fn new() -> (r: Self)
        ensures
            r.wf(),
            r.offered() == Map::<KeyModel, DescriptorModel>::empty(),
            r.handlers() == Map::<KeyModel, F>::empty(),
    {
        let r = OperationRegistry { offered: Operations::new(), handlers: Table::new() };
        assert(r.offered@.dom() =~= r.handlers@.dom());
        r
    }

    /// Adds an operation. A key can be registered once.
    pub fn register(&mut self, descriptor: OperationDescriptor, operation: F) -> (r: Result<(), Error>)
        requires
            old(self).wf(),
        ensures
            final(self).wf(),
            outcome(r) == match descriptor@.validated() {
                Err(error) => Err(error),
                Ok(()) => if old(self).offered().contains_key(descriptor@.key) {
                    Err(ErrorModel::OperationConflict(descriptor@.key.text()))
                } else {
                    Ok(())
                },
            },
            if r is Ok {
                &&& final(self).offered() == old(self).offered().insert(descriptor@.key, descriptor@)
                &&& final(self).handlers() == old(self).handlers().insert(descriptor@.key, operation)
            } else {
                &&& final(self).offered() == old(self).offered()
                &&& final(self).handlers() == old(self).handlers()
            },
    {
        match descriptor.validate() {
            Ok(()) => {},
            Err(error) => return Err(error),
        }
        if self.offered.contains_key(&descriptor.key) {
            return Err(Error::OperationConflict(descriptor.key.to_string()));
        }
        let key = descriptor.key.clone();
        self.offered.insert(descriptor);
        self.handlers.insert(key, Handler { run: operation });
        assert(self.offered@.dom() =~= self.handlers@.dom());
        Ok(())
    }

    /// Every descriptor, each once.
    pub fn descriptors(&self) -> (r: Vec<OperationDescriptor>)
        ensures
            by_key(descriptors_model(r@)) == self.offered(),
            r@.len() == self.offered().dom().len(),
    {
        self.offered.list()
    }

    /// The descriptor under a key.
    pub fn descriptor(&self, key: &OperationKey) -> (r: Option<&OperationDescriptor>)
        ensures
            match r {
                Some(descriptor) => self.offered().contains_key(key@) && descriptor@ == self.offered()[key@],
                None => !self.offered().contains_key(key@),
            },
    {
        self.offered.get(key)
    }

    /// Runs the operation that an assignment names on its inputs, and hands back
    /// what the operation hands back.
    pub fn execute<O>(&self, assignment: &TaskAssignment, inputs: Vec<Vec<u8>>) -> (r: Result<O, Error>) where
        F: Fn(Vec<Vec<u8>>) -> O,

        requires
            self.wf(),
            self.handlers().contains_key(assignment.operation@) ==> call_requires(
                self.handlers()[assignment.operation@],
                (inputs,),
            ),
        ensures
            match r {
                Ok(output) => {
                    &&& self.offered().contains_key(assignment.operation@)
                    &&& call_ensures(self.handlers()[assignment.operation@], (inputs,), output)
                },
                Err(error) => {
                    &&& !self.offered().contains_key(assignment.operation@)
                    &&& error@ == ErrorModel::OperationUnavailable(assignment.operation@.text())
                },
            },
    {
        assert(self.offered@.contains_key(assignment.operation@) == self.offered@.dom().contains(assignment.operation@));
        assert(self.handlers@.contains_key(assignment.operation@) == self.handlers@.dom().contains(
            assignment.operation@,
        ));
        match self.handlers.get(&assignment.operation) {
            Some(handler) => {
                let run = &handler.run;
                Ok(run(inputs))
            },
            None => Err(Error::OperationUnavailable(assignment.operation.to_string())),
        }
    }
}

impl<F> Default for OperationRegistry<F> {
    fn default() -> (r: Self)
        ensures
            r.wf(),
            r.offered() == Map::<KeyModel, DescriptorModel>::empty(),
            r.handlers() == Map::<KeyModel, F>::empty(),
    {
        OperationRegistry::new()
    }
}

/// What follows the last colon; all of a text without one.
pub open spec fn after_last_colon(text: Seq<char>) -> Seq<char>
    decreases text.len(),
{
    if text.len() == 0 || text.last() == ':' {
        Seq::empty()
    } else {
        after_last_colon(text.drop_last()).push(text.last())
    }
}

/// The address to listen on for an advertised one: every interface, same port.
pub fn bind_addr_for_advertise(advertise: &str) -> (r: String)
    ensures
        r@ == "0.0.0.0:"@ + after_last_colon(advertise@),
{
    let len: usize = advertise.unicode_len();
    let mut start: usize = len;
    assert(advertise@.take(len as int) =~= advertise@);
    assert(advertise@.subrange(len as int, len as int) =~= Seq::<char>::empty());
    assert(after_last_colon(advertise@) =~= after_last_colon(advertise@.take(start as int)) + advertise@.subrange(
        start as int,
        len as int,
    ));
    while start > 0 && advertise.get_char(start - 1) != ':'
        invariant
            start <= len,
            len == advertise@.len(),
            after_last_colon(advertise@) == after_last_colon(advertise@.take(start as int)) + advertise@.subrange(
                start as int,
                len as int,
            ),
        decreases start,
    {
        assert(advertise@.take(start as int).drop_last() =~= advertise@.take(start - 1));
        assert(after_last_colon(advertise@.take(start - 1)).push(advertise@[start - 1]) + advertise@.subrange(
            start as int,
            len as int,
        ) =~= after_last_colon(advertise@.take(start - 1)) + advertise@.subrange(start - 1, len as int));
        start -= 1;
    }
    assert(after_last_colon(advertise@.take(start as int)) =~= Seq::<char>::empty());
    assert(after_last_colon(advertise@) =~= advertise@.subrange(start as int, len as int));
    let mut out = "0.0.0.0:".to_string();
    out.append(advertise.substring_char(start, len));
    out
}

/// The registration that a session starts with.
pub fn registration(
    node_id: NodeId,
    worker_epoch: WorkerEpoch,
    advertise: &str,
    resources: ResourceSet,
    operations: Vec<OperationDescriptor>,
) -> (r: RegisterWorker)
    ensures
        r.node_id == node_id,
        r.worker_epoch == worker_epoch,
        r.advertise_addr@ == advertise@,
        r.resources == resources,
        r.slots == 1,
        r.operations == operations,
{
    RegisterWorker {
        node_id,
        worker_epoch,
        advertise_addr: advertise.to_string(),
        resources,
        slots: 1,
        operations,
    }
}

/// Why a session ended without the worker being drained.
#[derive(Debug)]
pub enum WorkerSessionEnd {
    /// Register anew.
    Reconnect,
    Fatal(Error),
}

/// What to do with the reply to a registration.
#[derive(Debug)]
pub enum RegisterStep {
    Registered(RegisteredWorker),
    /// Register again after a pause.
    Retry,
    End(WorkerSessionEnd),
}

/// Takes in the reply to a registration; `shown` is its text. A registration
/// that could not be delivered is sent again; any other answer is fatal.
pub fn register_step(reply: Result<RpcReply, Error>, shown: &str) -> (r: RegisterStep)
    ensures
        match reply {
            Ok(RpcReply::Worker(WorkerReply::Registered(worker))) => r == RegisterStep::Registered(worker),
            Ok(_) => r matches RegisterStep::End(WorkerSessionEnd::Fatal(error)) && error@ == ErrorModel::Protocol(
                "registration failed: "@ + shown@,
            ),
            Err(_) => r is Retry,
        },
{
    match reply {
        Ok(RpcReply::Worker(WorkerReply::Registered(worker))) => RegisterStep::Registered(worker),
        Ok(_) => {
            let mut message = "registration failed: ".to_string();
            message.append(shown);
            RegisterStep::End(WorkerSessionEnd::Fatal(Error::Protocol(message)))
        },
        Err(_) => RegisterStep::Retry,
    }
}

/// How often a worker tells that it is alive: three times per lease, and at
/// least ten milliseconds apart.
pub fn heartbeat_period_ms(lease_timeout_ms: u64) -> (r: u64)
    ensures
        r == if lease_timeout_ms / 3 > 10 {
            lease_timeout_ms / 3
        } else {
            10
        },
{
    let period: u64 = lease_timeout_ms / 3;
    if period > 10 {
        period
    } else {
        10
    }
}

/// A heartbeat that comes every third of a lease keeps the lease, for leases of
/// at least thirty milliseconds.
pub proof fn law_two_heartbeats_may_be_lost(lease_ms: u64, period: u64)
    requires
        lease_ms >= 30,
        period == if lease_ms / 3 > 10 {
            lease_ms / 3
        } else {
            10
        },
    ensures
        3 * period <= lease_ms,
{
}

pub open spec fn undelivered(error: ErrorModel) -> bool {
    error is Io || error is DeadlineExceeded
}

pub open spec fn fenced(error: ErrorModel) -> bool {
    error is StaleEpoch || error is StaleFence
}

/// Whether heartbeats go on after this reply: one that was accepted or not
/// delivered says nothing against it.
pub fn heartbeat_goes_on(reply: &Result<RpcReply, Error>) -> (r: bool)
    ensures
        r == match *reply {
            Ok(RpcReply::Worker(WorkerReply::Accepted)) => true,
            Ok(_) => false,
            Err(error) => undelivered(error@),
        },
{
    match reply {
        Ok(RpcReply::Worker(WorkerReply::Accepted)) => true,
        Ok(_) => false,
        Err(Error::Io(_)) => true,
        Err(Error::DeadlineExceeded) => true,
        Err(_) => false,
    }
}

/// What an idle worker does next.
#[derive(Debug)]
pub enum PollStep {
    /// Poll again at once.
    Poll,
    /// Poll again after a pause.
    Pause,
    Execute(TaskAssignment),
    /// Report that the task with this fence was cancelled.
    Cancelled(TaskFence),
    /// Delete this object, then poll again.
    Delete(ObjectId),
    /// The session is over: drained, or for the reason given.
    End(Result<(), WorkerSessionEnd>),
}

/// The poll that an idle worker sends, unless it is draining.
pub fn idle_step(draining: bool, identity: WorkerIdentity) -> (r: Result<WorkerRequest, PollStep>)
    ensures
        if draining {
            r == Err::<WorkerRequest, PollStep>(PollStep::End(Ok(())))
        } else {
            r == Ok::<WorkerRequest, PollStep>(WorkerRequest::Poll { identity, wait_ms: WORKER_POLL_WAIT_MS })
        },
{
    if draining {
        Err(PollStep::End(Ok(())))
    } else {
        Ok(WorkerRequest::Poll { identity, wait_ms: WORKER_POLL_WAIT_MS })
    }
}

pub open spec fn polled(reply: Result<RpcReply, Error>) -> PollStep {
    match reply {
        Err(error) => if undelivered(error@) {
            PollStep::Pause
        } else {
            PollStep::End(Err(WorkerSessionEnd::Reconnect))
        },
        Ok(RpcReply::Worker(answer)) => match answer {
            WorkerReply::Assignment(Some(assignment)) => PollStep::Execute(assignment),
            WorkerReply::Assignment(None) => PollStep::Poll,
            WorkerReply::Cancel(fence) => PollStep::Cancelled(fence),
            WorkerReply::DeleteObject(id) => PollStep::Delete(id),
            WorkerReply::Error(error) => if fenced(error@) {
                PollStep::End(Err(WorkerSessionEnd::Reconnect))
            } else {
                PollStep::Pause
            },
            _ => PollStep::Pause,
        },
        Ok(RpcReply::Client(_)) => PollStep::Pause,
    }
}

/// Takes in the reply to an idle worker's poll.
pub fn poll_step(reply: Result<RpcReply, Error>) -> (r: PollStep)
    ensures
        r == polled(reply),
{
    match reply {
        Err(Error::Io(_)) => PollStep::Pause,
        Err(Error::DeadlineExceeded) => PollStep::Pause,
        Err(_) => PollStep::End(Err(WorkerSessionEnd::Reconnect)),
        Ok(RpcReply::Worker(WorkerReply::Assignment(Some(assignment)))) => PollStep::Execute(assignment),
        Ok(RpcReply::Worker(WorkerReply::Assignment(None))) => PollStep::Poll,
        Ok(RpcReply::Worker(WorkerReply::Cancel(fence))) => PollStep::Cancelled(fence),
        Ok(RpcReply::Worker(WorkerReply::DeleteObject(id))) => PollStep::Delete(id),
        Ok(RpcReply::Worker(WorkerReply::Error(Error::StaleEpoch))) => PollStep::End(
            Err(WorkerSessionEnd::Reconnect),
        ),
        Ok(RpcReply::Worker(WorkerReply::Error(Error::StaleFence))) => PollStep::End(
            Err(WorkerSessionEnd::Reconnect),
        ),
        Ok(_) => PollStep::Pause,
    }
}

/// What the end of an execution means for the session: a lost lease or a
/// transport fault ends it, to register anew; any other error is fatal.
pub fn execution_end(result: Result<(), Error>) -> (r: Option<WorkerSessionEnd>)
    ensures
        match result {
            Ok(()) => r is None,
            Err(error) => r == Some(
                if fenced(error@) || undelivered(error@) {
                    WorkerSessionEnd::Reconnect
                } else {
                    WorkerSessionEnd::Fatal(error)
                },
            ),
        },
{
    match result {
        Ok(()) => None,
        Err(Error::StaleEpoch) => Some(WorkerSessionEnd::Reconnect),
        Err(Error::StaleFence) => Some(WorkerSessionEnd::Reconnect),
        Err(Error::Io(_)) => Some(WorkerSessionEnd::Reconnect),
        Err(Error::DeadlineExceeded) => Some(WorkerSessionEnd::Reconnect),
        Err(error) => Some(WorkerSessionEnd::Fatal(error)),
    }
}

/// What a worker does after a session.
#[derive(Debug)]
pub enum AfterSession {
    Return(Result<(), Error>),
    /// Start another session after `delay_ms`; `backoff_ms` goes into the next
    /// decision.
    Reconnect { backoff_ms: u64, delay_ms: u64 },
}

/// The backoff that follows `backoff_ms`: doubled from a tenth of a second up to
/// five seconds.
pub open spec fn next_backoff(backoff_ms: int) -> int {
    if backoff_ms == 0 {
        100
    } else if 2 * backoff_ms < 5000 {
        2 * backoff_ms
    } else {
        5000
    }
}

/// A backoff that a worker can have reached.
pub open spec fn is_backoff(backoff_ms: int) -> bool {
    backoff_ms == 0 || 100 <= backoff_ms <= 5000
}

/// Decides what follows a session. `jitter` spreads the reconnects of many
/// workers over a quarter of the backoff.
pub fn after_session(
    end: Result<(), WorkerSessionEnd>,
    draining: bool,
    backoff_ms: u64,
    jitter: u64,
) -> (r: AfterSession)
    requires
        is_backoff(backoff_ms as int),
    ensures
        match end {
            Ok(()) => r == AfterSession::Return(Ok(())),
            Err(WorkerSessionEnd::Fatal(error)) => r == AfterSession::Return(Err(error)),
            Err(WorkerSessionEnd::Reconnect) => if draining {
                r == AfterSession::Return(Ok(()))
            } else {
                &&& r matches AfterSession::Reconnect { backoff_ms: next, delay_ms }
                &&& next == next_backoff(backoff_ms as int)
                &&& is_backoff(next as int)
                &&& delay_ms == next + jitter as int % (next as int / 4)
            },
        },
{
    match end {
        Ok(()) => AfterSession::Return(Ok(())),
        Err(WorkerSessionEnd::Fatal(error)) => AfterSession::Return(Err(error)),
        Err(WorkerSessionEnd::Reconnect) => {
            if draining {
                return AfterSession::Return(Ok(()));
            }
            let next: u64 = if backoff_ms == 0 {
                100
            } else if backoff_ms * 2 < 5_000 {
                backoff_ms * 2
            } else {
                5_000
            };
            let spread: u64 = next / 4;
            AfterSession::Reconnect { backoff_ms: next, delay_ms: next + jitter % spread }
        },
    }
}

/// Backoffs never shrink, and the delay is at least the backoff and less than
/// five quarters of it.
pub proof fn law_backoff_grows_to_a_limit(backoff_ms: int, jitter: int)
    requires
        is_backoff(backoff_ms),
        jitter >= 0,
    ensures
        is_backoff(next_backoff(backoff_ms)),
        backoff_ms <= next_backoff(backoff_ms) <= 5000,
        backoff_ms < 5000 ==> backoff_ms < next_backoff(backoff_ms),
        ({
            let next = next_backoff(backoff_ms);
            4 * next <= 4 * (next + jitter % (next / 4)) < 5 * next
        }),
{
    let next = next_backoff(backoff_ms);
    assert(0 <= jitter % (next / 4) < next / 4) by (nonlinear_arith)
        requires
            next / 4 > 0,
            jitter >= 0,
    ;
}

/// What the coordinator made of a report. That the task moved on without this
/// worker is no error: the report is moot.
pub open spec fn report_accepted(reply: Result<RpcReply, Error>) -> Result<(), ErrorModel> {
    match reply {
        Err(error) => Err(error@),
        Ok(RpcReply::Worker(WorkerReply::Accepted)) => Ok(()),
        Ok(RpcReply::Worker(WorkerReply::Error(error))) => if error is IllegalTransition || fenced(error@) {
            Ok(())
        } else {
            Err(error@)
        },
        Ok(_) => Err(ErrorModel::Protocol("coordinator did not accept worker report"@)),
    }
}

/// Takes in the reply to a report.
pub fn report_result(reply: Result<RpcReply, Error>) -> (r: Result<(), Error>)
    ensures
        outcome(r) == report_accepted(reply),
{
    match reply {
        Err(error) => Err(error),
        Ok(RpcReply::Worker(WorkerReply::Accepted)) => Ok(()),
        Ok(RpcReply::Worker(WorkerReply::Error(Error::IllegalTransition(_)))) => Ok(()),
        Ok(RpcReply::Worker(WorkerReply::Error(Error::StaleFence))) => Ok(()),
        Ok(RpcReply::Worker(WorkerReply::Error(Error::StaleEpoch))) => Ok(()),
        Ok(RpcReply::Worker(WorkerReply::Error(error))) => Err(error),
        Ok(_) => Err(Error::Protocol("coordinator did not accept worker report".to_string())),
    }
}

/// How far the execution of an assignment has got.
#[derive(Debug, Clone, Copy, Eq, PartialEq, Structural)]
pub enum ExecutionStage {
    /// The start is being reported.
    Starting,
    /// Arguments are being fetched.
    Fetching,
    /// The operation runs.
    Running,
    /// The end is being reported.
    Reporting,
    Over,
}

impl ExecutionStage {
    pub open spec fn rank(self) -> int {
        match self {
            ExecutionStage::Starting => 0,
            ExecutionStage::Fetching => 1,
            ExecutionStage::Running => 2,
            ExecutionStage::Reporting => 3,
            ExecutionStage::Over => 4,
        }
    }
}

/// How an operation ended.
#[derive(Debug)]
pub enum OperationOutcome {
    Returned(Result<Vec<u8>, Error>),
    Panicked,
    Aborted,
}

/// What a worker that executes an assignment does next.
#[derive(Debug)]
pub enum ExecutionStep {
    /// Fetch this object and hand back its bytes.
    Fetch(ObjectId),
    /// Run the operation on these inputs, and poll while it runs.
    Run(Vec<Vec<u8>>),
    /// The operation goes on.
    KeepRunning,
    /// Delete this object; the operation goes on.
    Delete(ObjectId),
    /// Stop the operation and, once it has stopped, send this report.
    Abort(WorkerRequest),
    /// Send this report and hand back the reply.
    Report(WorkerRequest),
    /// The execution is over.
    End(Result<(), Error>),
}

/// An assignment that is being executed. The start is reported before anything
/// else; then the arguments are fetched in order; then the operation runs, with
/// a poll every now and then to hear of a cancellation; then the end is reported.
#[derive(Debug)]
pub struct Execution {
    pub identity: WorkerIdentity,
    pub assignment: TaskAssignment,
    /// The bytes of the first arguments.
    pub inputs: Vec<Vec<u8>>,
    pub stage: ExecutionStage,
}

/// The inputs are the bytes of the first arguments, as far as those were given
/// inline.
pub open spec fn inputs_match(args: Seq<TaskArg>, inputs: Seq<Vec<u8>>) -> bool {
    &&& inputs.len() <= args.len()
    &&& forall|i: int|
        0 <= i < inputs.len() ==> ((#[trigger] args[i]) matches TaskArg::Inline { codec, bytes } ==> inputs[i]@
            == bytes@)
}

/// The place of the first argument from `from` on that is an object; the number
/// of arguments if there is none.
pub open spec fn next_object(args: Seq<TaskArg>, from: int) -> int
    decreases args.len() - from,
{
    if from < 0 || from >= args.len() || args[from] is Object {
        from
    } else {
        next_object(args, from + 1)
    }
}

/// The report of a failure of the execution.
pub open spec fn reports_failure(
    execution: Execution,
    request: WorkerRequest,
    error: ErrorModel,
    class: FailureClass,
) -> bool {
    &&& request matches WorkerRequest::Failed { identity, fence, message, class: reported }
    &&& identity == execution.identity
    &&& fence == execution.assignment.fence
    &&& message@ == error.text()
    &&& reported == class
}

pub open spec fn class_of(error: ErrorModel) -> FailureClass {
    if is_transient(error) {
        FailureClass::Transient
    } else {
        FailureClass::Permanent
    }
}

pub open spec fn reports_cancelled(execution: Execution, request: WorkerRequest) -> bool {
    request == (WorkerRequest::Cancelled { identity: execution.identity, fence: execution.assignment.fence })
}

/// The step sends the report of the end of the execution.
pub open spec fn is_final_report(step: ExecutionStep) -> bool {
    step is Report || step is Abort
}

/// Stages follow one another in order; the final report is sent on the way into
/// the stage that awaits its reply, and nothing but the end follows that.
pub open spec fn moves(before: ExecutionStage, after: ExecutionStage, step: ExecutionStep) -> bool {
    &&& before.rank() <= after.rank()
    &&& is_final_report(step) <==> before.rank() < 3 && after == ExecutionStage::Reporting
    &&& step is End <==> before.rank() < 4 && after == ExecutionStage::Over
    &&& before == ExecutionStage::Reporting ==> after == ExecutionStage::Over
}

/// However an execution goes, at most one final report is sent.
pub proof fn law_execution_reports_once(stages: Seq<ExecutionStage>, steps: Seq<ExecutionStep>)
    requires
        stages.len() == steps.len() + 1,
        forall|i: int| 0 <= i < steps.len() ==> moves(stages[i], stages[i + 1], #[trigger] steps[i]),
    ensures
        forall|i: int, j: int|
            0 <= i < j < steps.len() && is_final_report(#[trigger] steps[i]) ==> !is_final_report(
                #[trigger] steps[j],
            ),
{
    assert forall|i: int, j: int|
        0 <= i < j < steps.len() && is_final_report(#[trigger] steps[i]) implies !is_final_report(
        #[trigger] steps[j],
    ) by {
        lemma_ranks_grow(stages, steps, i + 1, j);
    }
}

proof fn lemma_ranks_grow(stages: Seq<ExecutionStage>, steps: Seq<ExecutionStep>, from: int, to: int)
    requires
        stages.len() == steps.len() + 1,
        forall|i: int| 0 <= i < steps.len() ==> moves(stages[i], stages[i + 1], #[trigger] steps[i]),
        0 <= from <= to < stages.len(),
    ensures
        stages[from].rank() <= stages[to].rank(),
    decreases to - from,
{
    if from < to {
        lemma_ranks_grow(stages, steps, from, to - 1);
        assert(moves(stages[to - 1], stages[to], steps[to - 1]));
    }
}

impl Execution {
    pub open spec fn wf(&self) -> bool {
        inputs_match(self.assignment.args@, self.inputs@)
    }

    /// An object is being fetched for the next argument.
    pub open spec fn awaits_input(&self) -> bool {
        &&& self.stage == ExecutionStage::Fetching
        &&& self.inputs@.len() < self.assignment.args@.len()
        &&& self.assignment.args@[self.inputs@.len() as int] is Object
    }

    /// An execution of `assignment`, and the report of its start.
    pub fn start(identity: WorkerIdentity, assignment: TaskAssignment) -> (r: (Self, WorkerRequest))
        ensures
            r.0.wf(),
            r.0.identity == identity,
            r.0.assignment == assignment,
            r.0.inputs@.len() == 0,
            r.0.stage == ExecutionStage::Starting,
            r.1 == (WorkerRequest::Started { identity, fence: assignment.fence }),
    {
        let request = WorkerRequest::Started { identity, fence: assignment.fence };
        (Execution { identity, assignment, inputs: Vec::new(), stage: ExecutionStage::Starting }, request)
    }

    /// Takes in inline arguments up to the next object; runs the operation if
    /// there is none.
    fn gather(&mut self) -> (r: ExecutionStep)
        requires
            old(self).wf(),
            old(self).stage.rank() <= 1,
        ensures
            gathered(*old(self), *final(self), r),
    {
        let ghost from = self.inputs@.len() as int;
        self.stage = ExecutionStage::Fetching;
        while self.inputs.len() < self.assignment.args.len()
            invariant
                self.wf(),
                self.identity == old(self).identity,
                self.assignment == old(self).assignment,
                self.stage == ExecutionStage::Fetching,
                old(self).inputs@ == self.inputs@.take(from),
                from == old(self).inputs@.len(),
                from <= self.inputs@.len() <= self.assignment.args@.len(),
                next_object(self.assignment.args@, from) == next_object(
                    self.assignment.args@,
                    self.inputs@.len() as int,
                ),
            decreases self.assignment.args@.len() - self.inputs@.len(),
        {
            let at: usize = self.inputs.len();
            match &self.assignment.args[at] {
                TaskArg::Inline { codec: _, bytes } => {
                    let copy = bytes.clone();
                    assert(copy@ =~= bytes@);
                    self.inputs.push(copy);
                    assert(self.inputs@.take(from) =~= old(self).inputs@);
                },
                TaskArg::Object(id) => return ExecutionStep::Fetch(*id),
            }
        }
        self.stage = ExecutionStage::Running;
        let mut inputs: Vec<Vec<u8>> = Vec::new();
        std::mem::swap(&mut self.inputs, &mut inputs);
        ExecutionStep::Run(inputs)
    }

    /// Takes in the reply to the report of the start.
    pub fn started(&mut self, reply: Result<RpcReply, Error>) -> (r: ExecutionStep)
        requires
            old(self).wf(),
            old(self).stage == ExecutionStage::Starting,
        ensures
            moves(old(self).stage, final(self).stage, r),
            match report_accepted(reply) {
                Ok(()) => gathered(*old(self), *final(self), r),
                Err(error) => ended(*old(self), *final(self), r, Err(error)),
            },
    {
        match report_result(reply) {
            Ok(()) => self.gather(),
            Err(error) => {
                self.stage = ExecutionStage::Over;
                ExecutionStep::End(Err(error))
            },
        }
    }

    fn fail(&mut self, error: Error, class: FailureClass) -> (r: ExecutionStep)
        requires
            old(self).stage.rank() < 3,
        ensures
            *final(self) == (Execution { stage: ExecutionStage::Reporting, ..*old(self) }),
            r matches ExecutionStep::Report(request) && reports_failure(*old(self), request, error@, class),
    {
        self.stage = ExecutionStage::Reporting;
        ExecutionStep::Report(
            WorkerRequest::Failed {
                identity: self.identity,
                fence: self.assignment.fence,
                message: error.to_string(),
                class,
            },
        )
    }

    /// Takes in the bytes of the object that was to be fetched, or why they could
    /// not be had. A failed fetch fails the attempt: for good if the object is
    /// lost, and to be tried again if it may yet come.
    pub fn fetched(&mut self, result: Result<Vec<u8>, Error>) -> (r: ExecutionStep)
        requires
            old(self).wf(),
            old(self).awaits_input(),
        ensures
            moves(old(self).stage, final(self).stage, r),
            match result {
                Ok(bytes) => exists|with: Execution| #[trigger]
                    gathered(with, *final(self), r) && with.identity == old(self).identity && with.assignment
                        == old(self).assignment && with.inputs@ == old(self).inputs@.push(bytes),
                Err(error) => {
                    &&& *final(self) == (Execution { stage: ExecutionStage::Reporting, ..*old(self) })
                    &&& r matches ExecutionStep::Report(request)
                    &&& reports_failure(*old(self), request, error@, class_of(error@))
                },
            },
    {
        match result {
            Ok(bytes) => {
                self.inputs.push(bytes);
                let ghost with = *self;
                let r = self.gather();
                assert(gathered(with, *self, r));
                r
            },
            Err(error) => {
                let class = error.failure_class();
                self.fail(error, class)
            },
        }
    }

    /// Takes in the reply to a poll while the operation runs. Only the
    /// cancellation of this very assignment stops the operation; work for a busy
    /// worker is a fault.
    pub fn polled(&mut self, reply: Result<RpcReply, Error>) -> (r: ExecutionStep)
        requires
            old(self).stage == ExecutionStage::Running,
        ensures
            moves(old(self).stage, final(self).stage, r),
            busy_polled(*old(self), *final(self), reply, r),
    {
        match reply {
            Ok(RpcReply::Worker(WorkerReply::Cancel(fence))) if fence.task_id == self.assignment.fence.task_id
                && fence.attempt == self.assignment.fence.attempt && fence.lease_id == self.assignment.fence.lease_id => {
                self.stage = ExecutionStage::Reporting;
                ExecutionStep::Abort(
                    WorkerRequest::Cancelled { identity: self.identity, fence: self.assignment.fence },
                )
            },
            Ok(RpcReply::Worker(WorkerReply::Assignment(None))) => ExecutionStep::KeepRunning,
            Ok(RpcReply::Worker(WorkerReply::DeleteObject(id))) => ExecutionStep::Delete(id),
            Ok(RpcReply::Worker(WorkerReply::Error(error))) => {
                self.stage = ExecutionStage::Over;
                ExecutionStep::End(Err(error))
            },
            Ok(_) => {
                self.stage = ExecutionStage::Over;
                ExecutionStep::End(Err(Error::Protocol("worker received assignment while busy".to_string())))
            },
            Err(Error::Io(_)) => ExecutionStep::KeepRunning,
            Err(Error::DeadlineExceeded) => ExecutionStep::KeepRunning,
            Err(error) => {
                self.stage = ExecutionStage::Over;
                ExecutionStep::End(Err(error))
            },
        }
    }

    /// Takes in how the operation ended. `codec` is that of the operation's
    /// output, if the operation is registered. An output is stored among the
    /// worker's objects, and sent along with the report if it is small. A panic
    /// would come again; an operation that was stopped may be tried again.
    pub fn finished(
        &mut self,
        result: OperationOutcome,
        codec: Option<Codec>,
        objects: &mut LocalObjectStore,
        advertise: &str,
    ) -> (r: ExecutionStep)
        requires
            old(self).stage == ExecutionStage::Running,
            old(objects).wf(),
        ensures
            final(objects).wf(),
            moves(old(self).stage, final(self).stage, r),
            final(self).identity == old(self).identity,
            final(self).assignment == old(self).assignment,
            match result {
                OperationOutcome::Returned(Ok(bytes)) => output_stored(
                    *old(self),
                    *final(self),
                    bytes@,
                    codec,
                    old(objects)@,
                    final(objects)@,
                    advertise@,
                    r,
                ),
                OperationOutcome::Returned(Err(error)) => {
                    &&& final(objects)@ == old(objects)@
                    &&& r matches ExecutionStep::Report(request)
                    &&& reports_failure(*old(self), request, error@, class_of(error@))
                },
                OperationOutcome::Panicked => {
                    &&& final(objects)@ == old(objects)@
                    &&& r matches ExecutionStep::Report(request)
                    &&& reports_failure(
                        *old(self),
                        request,
                        ErrorModel::Protocol("operation panicked"@),
                        FailureClass::Permanent,
                    )
                },
                OperationOutcome::Aborted => {
                    &&& final(objects)@ == old(objects)@
                    &&& r matches ExecutionStep::Report(request)
                    &&& reports_failure(
                        *old(self),
                        request,
                        ErrorModel::Protocol("operation task aborted"@),
                        FailureClass::Transient,
                    )
                },
            },
    {
        match result {
            OperationOutcome::Returned(Ok(bytes)) => {
                let output_id = self.assignment.output_id;
                let codec: Codec = match codec {
                    Some(codec) => codec,
                    None => {
                        self.stage = ExecutionStage::Over;
                        return ExecutionStep::End(
                            Err(Error::OperationUnavailable(self.assignment.operation.to_string())),
                        );
                    },
                };
                match objects.put(output_id, codec, bytes) {
                    Ok(object) => {
                        assert(objects@ =~= old(objects)@.insert(output_id, object));
                        self.stage = ExecutionStage::Reporting;
                        let size: usize = object.bytes.len();
                        let inline = if size <= INLINE_RESULT_MAX_BYTES {
                            Some(object.bytes.clone())
                        } else {
                            None
                        };
                        ExecutionStep::Report(
                            WorkerRequest::Completed {
                                identity: self.identity,
                                report: TaskCompletion {
                                    fence: self.assignment.fence,
                                    output_id,
                                    codec: object.codec,
                                    size_bytes: size as u64,
                                    checksum: object.checksum,
                                    location: advertise.to_string(),
                                    bytes: inline,
                                },
                            },
                        )
                    },
                    Err(error) => {
                        self.stage = ExecutionStage::Over;
                        ExecutionStep::End(Err(error))
                    },
                }
            },
            OperationOutcome::Returned(Err(error)) => {
                let class = error.failure_class();
                self.fail(error, class)
            },
            OperationOutcome::Panicked => self.fail(
                Error::Protocol("operation panicked".to_string()),
                FailureClass::Permanent,
            ),
            OperationOutcome::Aborted => self.fail(
                Error::Protocol("operation task aborted".to_string()),
                FailureClass::Transient,
            ),
        }
    }

    /// Takes in the reply to the final report.
    pub fn reported(&mut self, reply: Result<RpcReply, Error>) -> (r: ExecutionStep)
        requires
            old(self).stage == ExecutionStage::Reporting,
        ensures
            moves(old(self).stage, final(self).stage, r),
            ended(*old(self), *final(self), r, report_accepted(reply)),
    {
        self.stage = ExecutionStage::Over;
        ExecutionStep::End(report_result(reply))
    }
}

/// The execution is over with this result.
pub open spec fn ended(before: Execution, after: Execution, step: ExecutionStep, result: Result<(), ErrorModel>) -> bool {
    &&& after == (Execution { stage: ExecutionStage::Over, ..before })
    &&& step matches ExecutionStep::End(r)
    &&& outcome(r) == result
}

/// The inline arguments up to the next object have been taken in; the object is
/// fetched, or the operation runs on all the inputs.
pub open spec fn gathered(before: Execution, after: Execution, step: ExecutionStep) -> bool {
    let args = before.assignment.args@;
    let next = next_object(args, before.inputs@.len() as int);
    &&& after.wf()
    &&& after.identity == before.identity
    &&& after.assignment == before.assignment
    &&& if next < args.len() {
        &&& after.stage == ExecutionStage::Fetching
        &&& after.awaits_input()
        &&& after.inputs@.len() == next
        &&& after.inputs@.take(before.inputs@.len() as int) == before.inputs@
        &&& step == ExecutionStep::Fetch(args[next]->Object_0)
    } else {
        &&& after.stage == ExecutionStage::Running
        &&& step matches ExecutionStep::Run(inputs)
        &&& inputs@.len() == args.len()
        &&& inputs_match(args, inputs@)
        &&& inputs@.take(before.inputs@.len() as int) == before.inputs@
    }
}

pub open spec fn busy_polled(
    before: Execution,
    after: Execution,
    reply: Result<RpcReply, Error>,
    step: ExecutionStep,
) -> bool {
    match reply {
        Ok(RpcReply::Worker(WorkerReply::Assignment(None))) => after == before && step is KeepRunning,
        Ok(RpcReply::Worker(WorkerReply::DeleteObject(id))) => after == before && step == ExecutionStep::Delete(id),
        Ok(RpcReply::Worker(WorkerReply::Error(error))) => ended(before, after, step, Err(error@)),
        Ok(other) => if other == RpcReply::Worker(WorkerReply::Cancel(before.assignment.fence)) {
            &&& after == (Execution { stage: ExecutionStage::Reporting, ..before })
            &&& step matches ExecutionStep::Abort(request)
            &&& reports_cancelled(before, request)
        } else {
            ended(before, after, step, Err(ErrorModel::Protocol("worker received assignment while busy"@)))
        },
        Err(error) => if undelivered(error@) {
            after == before && step is KeepRunning
        } else {
            ended(before, after, step, Err(error@))
        },
    }
}

/// The output has been stored under the assignment's output id, and its report
/// says what was stored.
pub open spec fn output_stored(
    before: Execution,
    after: Execution,
    bytes: Seq<u8>,
    codec: Option<Codec>,
    stored: Map<ObjectId, LocalObject>,
    storing: Map<ObjectId, LocalObject>,
    advertise: Seq<char>,
    step: ExecutionStep,
) -> bool {
    let id = before.assignment.output_id;
    match codec {
        None => {
            &&& storing == stored
            &&& ended(
                before,
                after,
                step,
                Err(ErrorModel::OperationUnavailable(before.assignment.operation@.text())),
            )
        },
        Some(codec) => if stored.contains_key(id) && !(stored[id].codec == codec && stored[id].checksum@
            == blake3_digest(bytes)) {
            &&& storing == stored
            &&& ended(before, after, step, Err(ErrorModel::ObjectConflict(id)))
        } else {
            &&& storing.contains_key(id)
            &&& storing == stored.insert(id, storing[id])
            &&& stored.contains_key(id) ==> storing[id] == stored[id]
            &&& !stored.contains_key(id) ==> storing[id].bytes@ == bytes
            &&& storing[id].codec == codec
            &&& storing[id].checksum@ == blake3_digest(bytes)
            &&& step matches ExecutionStep::Report(WorkerRequest::Completed { identity, report })
            &&& identity == before.identity
            &&& report.fence == before.assignment.fence
            &&& report.output_id == id
            &&& report.codec == codec
            &&& report.size_bytes == storing[id].bytes@.len()
            &&& report.checksum == storing[id].checksum
            &&& report.location@ == advertise
            &&& report.bytes == if storing[id].bytes@.len() <= INLINE_RESULT_MAX_BYTES {
                Some(storing[id].bytes)
            } else {
                None
            }
        },
    }
}

/// The answer to a request for one of the worker's objects: `envelope` is what
/// was read from the connection, if anything was.
pub fn object_reply(objects: &LocalObjectStore, envelope: Option<&Envelope>, cluster_id: ClusterId, now: u64) -> (r:
    RpcReply)
    requires
        objects.wf(),
    ensures
        object_answered(objects@, envelope, cluster_id, now, r),
{
    if let Some(envelope) = envelope {
        if envelope.validate(cluster_id, now).is_ok() {
            if let RpcRequest::Client(ClientRequest::GetLocal(id)) = &envelope.body {
                let id: ObjectId = *id;
                return match objects.get(id) {
                    Ok(object) => {
                        let size_bytes: u64 = object.bytes.len() as u64;
                        RpcReply::Client(
                            ClientReply::Object(
                                ObjectPayload {
                                    id,
                                    codec: object.codec,
                                    size_bytes,
                                    checksum: object.checksum,
                                    location: String::new(),
                                    bytes: Some(object.bytes),
                                    arena: None,
                                },
                            ),
                        )
                    },
                    Err(error) => RpcReply::Client(ClientReply::Error(error)),
                };
            }
        }
    }
    RpcReply::Client(ClientReply::Error(Error::Protocol("invalid object request".to_string())))
}

/// A valid request for an object that is held is answered with the whole object;
/// for one that is not held, with an error; anything else is refused.
pub open spec fn object_answered(
    objects: Map<ObjectId, LocalObject>,
    envelope: Option<&Envelope>,
    cluster_id: ClusterId,
    now: u64,
    reply: RpcReply,
) -> bool {
    if envelope is Some && envelope->0.validated(cluster_id, now) is Ok && envelope->0.body is Client
        && envelope->0.body->Client_0 is GetLocal {
        let id = envelope->0.body->Client_0->GetLocal_0;
        if objects.contains_key(id) {
            let object = objects[id];
            &&& reply matches RpcReply::Client(ClientReply::Object(payload))
            &&& payload.id == id
            &&& payload.codec == object.codec
            &&& payload.size_bytes == object.bytes@.len()
            &&& payload.checksum == object.checksum
            &&& payload.location@.len() == 0
            &&& payload.bytes == Some(object.bytes)
            &&& payload.arena is None
        } else {
            reply matches RpcReply::Client(ClientReply::Error(error)) && error@ == ErrorModel::ObjectNotFound(id)
        }
    } else {
        reply matches RpcReply::Client(ClientReply::Error(error)) && error@ == ErrorModel::Protocol(
            "invalid object request"@,
        )
    }
}

/// A worker that misses two heartbeats in a row is still in its lease when the third
/// comes, for any lease of thirty milliseconds or more; and it does not send them more
/// often than that asks for, nor more often than every ten milliseconds.
pub proof fn law_heartbeats_fit_the_lease(lease_timeout_ms: u64, period: u64)
    requires
        call_ensures(heartbeat_period_ms, (lease_timeout_ms,), period),
    ensures
        period >= 10,
        lease_timeout_ms >= 30 ==> 3 * period <= lease_timeout_ms,
        lease_timeout_ms >= 33 ==> 3 * period + 3 > lease_timeout_ms,
{
}

proof fn lemma_after_last_colon(host: Seq<char>, port: Seq<char>)
    requires
        forall|i: int| 0 <= i < port.len() ==> #[trigger] port[i] != ':',
    ensures
        after_last_colon(host.push(':') + port) == port,
    decreases port.len(),
{
    let text = host.push(':') + port;
    if port.len() > 0 {
        let rest = port.drop_last();
        assert forall|i: int| 0 <= i < rest.len() implies #[trigger] rest[i] != ':' by {
            assert(rest[i] == port[i]);
        }
        lemma_after_last_colon(host, rest);
        assert(text.drop_last() =~= host.push(':') + rest);
        assert(text.last() == port[port.len() - 1]);
        assert(rest.push(port.last()) =~= port);
    } else {
        assert(text =~= host.push(':'));
    }
}

/// A worker listens on every interface, at the port that it advertises.
pub proof fn law_worker_listens_on_its_port(host: Seq<char>, port: Seq<char>, advertise: &str, r: String)
    requires
        advertise@ == host.push(':') + port,
        forall|i: int| 0 <= i < port.len() ==> #[trigger] port[i] != ':',
        call_ensures(bind_addr_for_advertise, (advertise,), r),
    ensures
        r@ == "0.0.0.0:"@ + port,
{
    lemma_after_last_colon(host, port);
}

/// Heartbeats go on while they are accepted or just not delivered, and stop once the
/// coordinator answers anything else.
pub proof fn law_heartbeats_stop_when_refused(reply: &Result<RpcReply, Error>, goes_on: bool)
    requires
        call_ensures(heartbeat_goes_on, (reply,), goes_on),
    ensures
        (*reply matches Ok(answer) ==> (goes_on <==> answer == RpcReply::Worker(WorkerReply::Accepted))),
        (*reply matches Err(error) ==> (goes_on <==> error@ is Io || error@ is DeadlineExceeded)),
{
}

/// An idle worker does what the coordinator's answer says: it executes the task that it
/// is given, lets go, or deletes, and asks again where there is nothing to do. It asks
/// again after a pause where the answer did not come through, and starts a new session
/// where it is not recognised.
pub proof fn law_idle_worker_follows_the_answer(reply: Result<RpcReply, Error>, step: PollStep)
    requires
        call_ensures(poll_step, (reply,), step),
    ensures
        reply matches Err(error) ==> {
            &&& error@ is Io || error@ is DeadlineExceeded ==> step is Pause
            &&& !(error@ is Io || error@ is DeadlineExceeded) ==> step == PollStep::End(
                Err(WorkerSessionEnd::Reconnect),
            )
        },
        reply matches Ok(RpcReply::Worker(WorkerReply::Assignment(Some(assignment)))) ==> step == PollStep::Execute(
            assignment,
        ),
        reply matches Ok(RpcReply::Worker(WorkerReply::Assignment(None))) ==> step is Poll,
        reply matches Ok(RpcReply::Worker(WorkerReply::Cancel(fence))) ==> step == PollStep::Cancelled(fence),
        reply matches Ok(RpcReply::Worker(WorkerReply::DeleteObject(id))) ==> step == PollStep::Delete(id),
        reply matches Ok(RpcReply::Worker(WorkerReply::Error(error))) ==> {
            &&& error@ is StaleFence || error@ is StaleEpoch ==> step == PollStep::End(
                Err(WorkerSessionEnd::Reconnect),
            )
            &&& !(error@ is StaleFence || error@ is StaleEpoch) ==> step is Pause
        },
{
}

/// A worker asks for work until it drains.
pub proof fn law_draining_worker_asks_no_more(
    draining: bool,
    identity: WorkerIdentity,
    r: Result<WorkerRequest, PollStep>,
)
    requires
        call_ensures(idle_step, (draining, identity), r),
    ensures
        draining ==> r == Err::<WorkerRequest, PollStep>(PollStep::End(Ok(()))),
        !draining ==> r == Ok::<WorkerRequest, PollStep>(WorkerRequest::Poll { identity, wait_ms: 2_000 }),
{
}

/// A session that ends well, or fatally, is the last. One that lost the coordinator is
/// followed by another, unless the worker drains: after a tenth of a second the first
/// time, twice as long each time after, and five seconds at most, with up to a quarter
/// of that added by chance.
pub proof fn law_worker_reconnects_with_backoff(
    end: Result<(), WorkerSessionEnd>,
    draining: bool,
    backoff_ms: u64,
    jitter: u64,
    r: AfterSession,
)
    requires
        backoff_ms == 0 || 100 <= backoff_ms <= 5_000,
        call_ensures(after_session, (end, draining, backoff_ms, jitter), r),
    ensures
        end is Ok ==> r == AfterSession::Return(Ok(())),
        end matches Err(WorkerSessionEnd::Fatal(error)) ==> r == AfterSession::Return(Err(error)),
        end == Err::<(), WorkerSessionEnd>(WorkerSessionEnd::Reconnect) && draining ==> r == AfterSession::Return(
            Ok(()),
        ),
        end == Err::<(), WorkerSessionEnd>(WorkerSessionEnd::Reconnect) && !draining ==> {
            &&& r matches AfterSession::Reconnect { backoff_ms: next, delay_ms }
            &&& backoff_ms == 0 ==> next == 100
            &&& 100 <= backoff_ms <= 2_500 ==> next == 2 * backoff_ms
            &&& backoff_ms > 2_500 ==> next == 5_000
            &&& next <= delay_ms
            &&& 4 * delay_ms < 5 * next
        },
{
    law_backoff_grows_to_a_limit(backoff_ms as int, jitter as int);
}

/// A report is done with once it is accepted, or once the coordinator has moved on
/// without it; any other answer is an error.
pub proof fn law_superseded_report_is_no_error(reply: Result<RpcReply, Error>, r: Result<(), Error>)
    requires
        call_ensures(report_result, (reply,), r),
    ensures
        reply matches Ok(RpcReply::Worker(WorkerReply::Accepted)) ==> r is Ok,
        reply matches Ok(RpcReply::Worker(WorkerReply::Error(error))) ==> (r is Ok <==> error@ is IllegalTransition
            || error@ is StaleFence || error@ is StaleEpoch),
        reply matches Ok(RpcReply::Worker(WorkerReply::Error(error))) ==> (r is Err ==> r->Err_0@ == error@),
        reply matches Err(error) ==> r is Err && r->Err_0@ == error@,
        reply is Ok && reply->Ok_0 != RpcReply::Worker(WorkerReply::Accepted) && !(reply matches Ok(
            RpcReply::Worker(WorkerReply::Error(_)),
        )) ==> r is Err,
{
}

/// A session goes on after a task that was reported; it is begun anew where the
/// coordinator was lost or does not recognise the worker, and ends for good otherwise.
pub proof fn law_session_outlives_reported_tasks(result: Result<(), Error>, end: Option<WorkerSessionEnd>)
    requires
        call_ensures(execution_end, (result,), end),
    ensures
        result is Ok ==> end is None,
        result matches Err(error) ==> {
            let lost = error@ is Io || error@ is DeadlineExceeded || error@ is StaleFence || error@ is StaleEpoch;
            &&& lost ==> end == Some(WorkerSessionEnd::Reconnect)
            &&& !lost ==> end == Some(WorkerSessionEnd::Fatal(error))
        },
{
}

/// The arguments are fetched in order: the next one is the first that is not inline.
pub proof fn law_next_fetch_is_the_first_object(args: Seq<TaskArg>, from: int, i: int)
    requires
        0 <= from <= args.len(),
    ensures
        from <= next_object(args, from) <= args.len(),
        next_object(args, from) < args.len() ==> args[next_object(args, from)] is Object,
        from <= i < next_object(args, from) ==> !(args[i] is Object),
    decreases args.len() - from,
{
    if from < args.len() && !(args[from] is Object) {
        law_next_fetch_is_the_first_object(args, from + 1, i);
    }
}

/// A failure is worth another attempt where the reason may pass: the connection, the
/// time, a fence, an object that is not there yet or in use, or a full table.
pub proof fn law_passing_reasons_are_transient(error: ErrorModel)
    ensures
        class_of(error) == FailureClass::Transient <==> error is Io || error is DeadlineExceeded || error is StaleEpoch
            || error is StaleFence || error is ObjectNotFound || error is ObjectPending || error is ObjectInUse
            || error is CapacityExceeded,
{
}

/// A result of up to 64 KiB is sent along with the report of success, and a larger one
/// is only described. Either way the report describes what the worker stored, under the
/// task's own fence and output.
pub proof fn law_small_results_are_sent_along(
    before: Execution,
    after: Execution,
    bytes: Seq<u8>,
    codec: Codec,
    stored: Map<ObjectId, LocalObject>,
    storing: Map<ObjectId, LocalObject>,
    advertise: Seq<char>,
    step: ExecutionStep,
)
    requires
        output_stored(before, after, bytes, Some(codec), stored, storing, advertise, step),
        !stored.contains_key(before.assignment.output_id),
    ensures
        step matches ExecutionStep::Report(WorkerRequest::Completed { identity, report }) && {
            &&& identity == before.identity
            &&& report.fence == before.assignment.fence
            &&& report.output_id == before.assignment.output_id
            &&& report.codec == codec
            &&& report.size_bytes == bytes.len()
            &&& report.checksum@ == blake3_digest(bytes)
            &&& report.location@ == advertise
            &&& bytes.len() <= 65_536 ==> report.bytes is Some && report.bytes->0@ == bytes
            &&& bytes.len() > 65_536 ==> report.bytes is None
        },
        storing.contains_key(before.assignment.output_id),
        storing[before.assignment.output_id].bytes@ == bytes,
        storing[before.assignment.output_id].codec == codec,
{
}

/// While an operation runs, the worker stops it only when told to under the task's own
/// fence; it goes on when there is nothing new or nothing came through, and any other
/// answer ends the execution.
pub proof fn law_running_task_is_stopped_only_by_its_fence(
    before: Execution,
    after: Execution,
    reply: Result<RpcReply, Error>,
    step: ExecutionStep,
)
    requires
        busy_polled(before, after, reply, step),
    ensures
        step is Abort <==> reply == Ok::<RpcReply, Error>(
            RpcReply::Worker(WorkerReply::Cancel(before.assignment.fence)),
        ),
        step matches ExecutionStep::Abort(request) ==> request == (WorkerRequest::Cancelled {
            identity: before.identity,
            fence: before.assignment.fence,
        }),
        step is KeepRunning <==> reply == Ok::<RpcReply, Error>(RpcReply::Worker(WorkerReply::Assignment(None))) || (
        reply is Err && (reply->Err_0@ is Io || reply->Err_0@ is DeadlineExceeded)),
        reply matches Ok(RpcReply::Worker(WorkerReply::DeleteObject(id))) ==> step == ExecutionStep::Delete(id)
            && after == before,
        step is KeepRunning ==> after == before,
{
}

/// A worker answers a request for an object that it has with that object as it is, one
/// that it lacks with a refusal, and anything else, late, from another cluster or of
/// another kind, with an error.
pub proof fn law_worker_serves_its_objects(
    objects: Map<ObjectId, LocalObject>,
    envelope: Option<&Envelope>,
    cluster_id: ClusterId,
    now: u64,
    reply: RpcReply,
    id: ObjectId,
)
    requires
        object_answered(objects, envelope, cluster_id, now, reply),
    ensures
        envelope is Some && envelope->0.validated(cluster_id, now) is Ok && envelope->0.body == RpcRequest::Client(
            ClientRequest::GetLocal(id),
        ) ==> {
            &&& objects.contains_key(id) ==> {
                &&& reply matches RpcReply::Client(ClientReply::Object(payload))
                &&& payload.id == id
                &&& payload.codec == objects[id].codec
                &&& payload.checksum == objects[id].checksum
                &&& payload.size_bytes == objects[id].bytes@.len()
                &&& payload.bytes == Some(objects[id].bytes)
            }
            &&& !objects.contains_key(id) ==> (reply matches RpcReply::Client(ClientReply::Error(error)) && error@
                == ErrorModel::ObjectNotFound(id))
        },
        envelope is None || envelope->0.validated(cluster_id, now) is Err ==> reply matches RpcReply::Client(
            ClientReply::Error(error),
        ),
{
}

/// An output that was stored before is not stored again: one with other bytes or in
/// another codec is a conflict, and the same one is reported as it was stored.
pub proof fn law_stored_output_is_not_replaced(
    before: Execution,
    after: Execution,
    bytes: Seq<u8>,
    codec: Codec,
    stored: Map<ObjectId, LocalObject>,
    storing: Map<ObjectId, LocalObject>,
    advertise: Seq<char>,
    step: ExecutionStep,
)
    requires
        output_stored(before, after, bytes, Some(codec), stored, storing, advertise, step),
        stored.contains_key(before.assignment.output_id),
    ensures
        storing == stored,
        ({
            let object = stored[before.assignment.output_id];
            let same = object.codec == codec && object.checksum@ == blake3_digest(bytes);
            &&& !same ==> (step matches ExecutionStep::End(Err(error)) && error@ == ErrorModel::ObjectConflict(
                before.assignment.output_id,
            ))
            &&& same ==> (step matches ExecutionStep::Report(WorkerRequest::Completed { identity, report })
                && report.checksum == object.checksum && report.size_bytes == object.bytes@.len())
        }),
{
    if stored[before.assignment.output_id].codec == codec && stored[before.assignment.output_id].checksum@
        == blake3_digest(bytes) {
        assert(storing =~= stored);
    }
}

} // verus!
