//! Actors: state that is used by one call at a time.
//!
//! A handle knows the actor's methods and whether it still takes calls; a life
//! follows the actor through its calls and restarts. The mailbox, the state and
//! the code of the methods are the caller's.
use vstd::prelude::*;
use vstd::string::*;

use crate::common::{panic_to_error, settled, ActorID, ActorState, CrayonError, FaultModel, ObjectID, ObjectRef};
use crate::gcs::{ActorMeta, Gcs, GcsModel};
use crate::node::NodeID;
use crate::object_store::{ensured, replaced_met, Aftermath, EntryModel, ObjectStore, StateModel};
use crate::table::Table;

verus! {

/// How many calls wait in an actor's mailbox before further callers have to wait.
pub const ACTOR_MAILBOX_SIZE: usize = 256;

/// A method's code, as a value of the map from names.
#[derive(Debug)]
struct Method<M> {
    run: M,
}

impl<M> View for Method<M> {
    type V = M;

    closed spec fn view(&self) -> M {
        self.run
    }
}

/// What a handle is about.
pub ghost struct ActorModel<M> {
    pub id: ActorID,
    /// It takes no more calls.
    pub shutdown: bool,
    pub methods: Map<Seq<char>, M>,
    /// The node that it lives on, if that is known.
    pub owner_node: Option<NodeID>,
}

/// An actor, without the type of its state. `M` is the code of a method.
#[derive(Debug)]
pub struct ActorHandleInner<M> {
    id: ActorID,
    shutdown: bool,
    methods: Table<String, Method<M>>,
    owner_node: Option<NodeID>,
}

impl<M> View for ActorHandleInner<M> {
    type V = ActorModel<M>;

    closed spec fn view(&self) -> ActorModel<M> {
        ActorModel {
            id: self.id,
            shutdown: self.shutdown,
            methods: self.methods@,
            owner_node: self.owner_node,
        }
    }
}

/// The answer to a call of a method by name.
pub open spec fn method_found<M>(actor: ActorModel<M>, name: Seq<char>) -> Result<M, FaultModel> {
    if actor.shutdown {
        Err(FaultModel::ActorDead(actor.id))
    } else if actor.methods.contains_key(name) {
        Ok(actor.methods[name])
    } else {
        Err(FaultModel::ActorMethodNotFound(actor.id, name))
    }
}

impl<M> ActorHandleInner<M> {
    pub closed spec fn wf(&self) -> bool {
        self.methods.wf()
    }

    fn make(id: ActorID, owner_node: Option<NodeID>) -> (r: Self)
        ensures
            r.wf(),
            r@ == (ActorModel { id, shutdown: false, methods: Map::<Seq<char>, M>::empty(), owner_node }),
    {
        ActorHandleInner { id, shutdown: false, methods: Table::new(), owner_node }
    }

    /// A handle to an actor that lives on another node. It has no methods of its
    /// own.
    pub fn remote_proxy(id: ActorID, owner_node: NodeID) -> (r: Self)
        ensures
            r.wf(),
            r@ == (ActorModel { id, shutdown: false, methods: Map::<Seq<char>, M>::empty(), owner_node: Some(owner_node) }),
    {
        Self::make(id, Some(owner_node))
    }

    /// The result of putting a call into the mailbox. `delivered` says whether
    /// the mailbox took it.
    pub fn send_call(&self, delivered: bool) -> (r: Result<(), CrayonError>)
        ensures
            settled(r) == if self@.shutdown || !delivered {
                Err(FaultModel::ActorDead(self@.id))
            } else {
                Ok(())
            },
    {
        if self.shutdown || !delivered {
            Err(CrayonError::ActorDead(self.id))
        } else {
            Ok(())
        }
    }

    /// Ends the actor: it takes no more calls.
    pub fn shutdown(&mut self)
        requires
            old(self).wf(),
        ensures
            final(self).wf(),
            final(self)@ == (ActorModel { shutdown: true, ..old(self)@ }),
    {
        self.shutdown = true;
    }

    /// Makes a method callable by name. A later one with the same name replaces it.
    pub fn register_method(&mut self, name: &str, func: M)
        requires
            old(self).wf(),
        ensures
            final(self).wf(),
            final(self)@ == (ActorModel { methods: old(self)@.methods.insert(name@, func), ..old(self)@ }),
    {
        self.methods.insert(name.to_string(), Method { run: func });
    }

    /// The code to run for a call by name.
    pub fn call_method(&self, name: &str) -> (r: Result<&M, CrayonError>)
        requires
            self.wf(),
        ensures
            match (r, method_found(self@, name@)) {
                (Ok(func), Ok(found)) => *func == found,
                (Err(error), Err(fault)) => error@ == fault,
                _ => false,
            },
    {
        if self.shutdown {
            return Err(CrayonError::ActorDead(self.id));
        }
        let key = name.to_string();
        match self.methods.get(&key) {
            Some(method) => Ok(&method.run),
            None => Err(CrayonError::ActorMethodNotFound(self.id, key)),
        }
    }
}

/// Where a call by name goes.
#[derive(Debug)]
pub enum Route<'a, M> {
    /// To this node.
    Remote(NodeID),
    /// Into the mailbox, to run this code, or nowhere.
    Local(Result<&'a M, CrayonError>),
}

/// A handle to an actor.
#[derive(Debug)]
pub struct ActorHandle<M> {
    pub inner: ActorHandleInner<M>,
}

impl<M> ActorHandle<M> {
    /// A handle to what is known without the type of the state.
    pub fn from_inner(inner: ActorHandleInner<M>) -> (r: Self)
        ensures
            r.inner == inner,
    {
        ActorHandle { inner }
    }

    pub fn id(&self) -> (r: ActorID)
        ensures
            r == self.inner@.id,
    {
        self.inner.id
    }

    /// The node that the actor lives on, if that is known.
    pub fn owner_node(&self) -> (r: Option<NodeID>)
        ensures
            r == self.inner@.owner_node,
    {
        self.inner.owner_node
    }

    /// Makes a method callable by name.
    pub fn register_method(&mut self, name: &str, func: M)
        requires
            old(self).inner.wf(),
        ensures
            final(self).inner.wf(),
            final(self).inner@ == (ActorModel {
                methods: old(self).inner@.methods.insert(name@, func),
                ..old(self).inner@
            }),
    {
        self.inner.register_method(name, func);
    }

    /// Ends the actor. Calls that are under way go on; new ones fail.
    pub fn kill(&mut self, gcs: &mut Gcs)
        requires
            old(self).inner.wf(),
            old(gcs).wf(),
        ensures
            final(self).inner.wf(),
            final(gcs).wf(),
            final(self).inner@ == (ActorModel { shutdown: true, ..old(self).inner@ }),
            final(gcs)@ == old(gcs)@.with_actor_state(old(self).inner@.id, ActorState::Dead),
    {
        self.inner.shutdown();
        gcs.set_actor_state(self.inner.id, ActorState::Dead);
    }

    /// Begins a call: counts it, and hands out a reference to what it will return.
    pub fn call<T, L>(&self, store: &mut ObjectStore<L>, gcs: &mut Gcs, output_id: ObjectID, now: u64) -> (r: ObjectRef<
        T,
    >)
        requires
            old(store).wf(),
            old(gcs).wf(),
            !old(store)@.entries.contains_key(output_id) ==> old(store)@.has_room(0),
            old(store)@.entries.contains_key(output_id) ==> old(store)@.entries[output_id].refcount < usize::MAX,
            countable(old(gcs)@, self.inner@.id),
        ensures
            final(store).wf(),
            final(gcs).wf(),
            final(gcs)@ == old(gcs)@.with_actor_task(self.inner@.id, false),
            r.id == output_id,
            r.generation == ensured(old(store)@, output_id).entries[output_id].generation,
            r.task_id is None,
            ({
                let mid = ensured(old(store)@, output_id);
                let entry = mid.entries[output_id];
                final(store)@ == mid.with_entry(
                    output_id,
                    EntryModel { refcount: (entry.refcount + 1) as usize, ..entry },
                )
            }),
    {
        let r = store.reserve_ref(output_id, now);
        gcs.record_actor_task(self.inner.id, false);
        r
    }

    /// Ends a call: stores what came back. With no answer at all the actor has
    /// died meanwhile.
    pub fn call_ended<L>(
        &self,
        store: &mut ObjectStore<L>,
        gcs: &mut Gcs,
        output_id: ObjectID,
        answer: Option<Result<Vec<u8>, CrayonError>>,
        now: u64,
    ) -> (r: Aftermath)
        requires
            old(store).wf(),
            old(gcs).wf(),
            old(store)@.has_room(answer_size(answer)),
            countable(old(gcs)@, self.inner@.id),
        ensures
            final(store).wf(),
            final(gcs).wf(),
            final(gcs)@ == if answer is Some {
                old(gcs)@.with_actor_task(self.inner@.id, true)
            } else {
                old(gcs)@
            },
            replaced_met(
                old(store)@,
                final(store)@,
                output_id,
                old(store)@.new_entry(answer_state(self.inner@.id, answer), answer_size(answer), 0, None),
                now,
                r,
            ),
    {
        match answer {
            Some(Ok(bytes)) => {
                let r = store.put_bytes(output_id, bytes, None, now);
                gcs.record_actor_task(self.inner.id, true);
                r
            },
            Some(Err(error)) => {
                let r = store.put_error(output_id, error, now);
                gcs.record_actor_task(self.inner.id, true);
                r
            },
            None => store.put_error(output_id, CrayonError::ActorDead(self.inner.id), now),
        }
    }

    /// Where a call by name goes: to the actor's node if it is known and there is
    /// a node here to ask, else into the mailbox.
    pub fn call_named(&self, method: &str, has_node: bool) -> (r: Route<'_, M>)
        requires
            self.inner.wf(),
        ensures
            if has_node && self.inner@.owner_node is Some {
                r == Route::<M>::Remote(self.inner@.owner_node->0)
            } else {
                r is Local && match (r->Local_0, method_found(self.inner@, method@)) {
                    (Ok(func), Ok(found)) => *func == found,
                    (Err(error), Err(fault)) => error@ == fault,
                    _ => false,
                }
            },
    {
        match self.inner.owner_node {
            Some(owner) if has_node => Route::Remote(owner),
            _ => Route::Local(self.inner.call_method(method)),
        }
    }
}

/// The counts of the actor can take one more call.
pub open spec fn countable(g: GcsModel, id: ActorID) -> bool {
    g.actors.contains_key(id) ==> g.actors[id].pending_tasks < usize::MAX && g.actors[id].completed_tasks < usize::MAX
}

/// What is stored for a call that was answered so.
pub open spec fn answer_state<L>(id: ActorID, answer: Option<Result<Vec<u8>, CrayonError>>) -> StateModel<L> {
    match answer {
        Some(Ok(bytes)) => StateModel::Bytes(bytes@),
        Some(Err(error)) => StateModel::Failed(error@),
        None => StateModel::Failed(FaultModel::ActorDead(id)),
    }
}

pub open spec fn answer_size(answer: Option<Result<Vec<u8>, CrayonError>>) -> usize {
    match answer {
        Some(Ok(bytes)) => bytes@.len() as usize,
        _ => 0,
    }
}

/// The answer to a call by name that went to another node.
pub fn remote_answer(result: Result<Vec<u8>, String>) -> (r: Result<Vec<u8>, CrayonError>)
    ensures
        settled(r) == match result {
            Ok(bytes) => Ok(bytes),
            Err(text) => Err(FaultModel::TaskFailed(text@)),
        },
{
    match result {
        Ok(bytes) => Ok(bytes),
        Err(text) => Err(CrayonError::TaskFailed(text)),
    }
}

/// What an actor does after a call.
#[derive(Debug, Clone, Copy, PartialEq, Eq, Structural)]
pub enum AfterCall {
    /// Takes the next call.
    Continue,
    /// Begins anew with its first state, and takes the next call.
    Restart,
    /// Ends.
    Stop,
}

/// An actor's calls, one after the other.
#[derive(Debug)]
pub struct ActorLife {
    pub id: ActorID,
    pub restarts: u32,
    pub max_restarts: u32,
}

impl ActorLife {
    /// A call has come. The result says whether it is run; if not, the actor ends.
    pub fn received(&self, gcs: &mut Gcs, shutdown: bool) -> (r: bool)
        requires
            old(gcs).wf(),
        ensures
            final(gcs).wf(),
            r == !shutdown,
            final(gcs)@ == old(gcs)@.with_actor_state(
                self.id,
                if shutdown {
                    ActorState::Dead
                } else {
                    ActorState::Running
                },
            ),
    {
        if shutdown {
            gcs.set_actor_state(self.id, ActorState::Dead);
            return false;
        }
        gcs.set_actor_state(self.id, ActorState::Running);
        true
    }

    /// A call has run: it returned bytes, or panicked with a message that may be
    /// text. The result is the answer to the caller, and what the actor does next.
    pub fn ran(&mut self, gcs: &mut Gcs, outcome: Result<Vec<u8>, Option<String>>) -> (r: (
        Result<Vec<u8>, CrayonError>,
        AfterCall,
    ))
        requires
            old(gcs).wf(),
        ensures
            final(gcs).wf(),
            life_met(*old(self), *final(self), old(gcs)@, final(gcs)@, outcome, r),
    {
        match outcome {
            Ok(bytes) => (Ok(bytes), AfterCall::Continue),
            Err(message) => {
                let error = panic_to_error(message, "actor method panicked");
                if self.restarts < self.max_restarts {
                    self.restarts = self.restarts + 1;
                    gcs.set_actor_state(self.id, ActorState::Running);
                    (Err(error), AfterCall::Restart)
                } else {
                    gcs.set_actor_state(self.id, ActorState::Dead);
                    (Err(error), AfterCall::Stop)
                }
            },
        }
    }

    /// No handle is left, so no call will come.
    pub fn closed(&self, gcs: &mut Gcs)
        requires
            old(gcs).wf(),
        ensures
            final(gcs).wf(),
            final(gcs)@ == old(gcs)@.with_actor_state(self.id, ActorState::Dead),
    {
        gcs.set_actor_state(self.id, ActorState::Dead);
    }
}

/// What the end of a call means for the actor.
pub open spec fn life_met(
    before: ActorLife,
    after: ActorLife,
    g: GcsModel,
    g_after: GcsModel,
    outcome: Result<Vec<u8>, Option<String>>,
    r: (Result<Vec<u8>, CrayonError>, AfterCall),
) -> bool {
    match outcome {
        Ok(bytes) => {
            &&& r.0 == Ok::<Vec<u8>, CrayonError>(bytes)
            &&& r.1 == AfterCall::Continue
            &&& after == before
            &&& g_after == g
        },
        Err(message) => {
            &&& r.0 is Err
            &&& r.0->Err_0@ == FaultModel::TaskFailed(
                match message {
                    Some(text) => text@,
                    None => "actor method panicked"@,
                },
            )
            &&& if before.restarts < before.max_restarts {
                &&& r.1 == AfterCall::Restart
                &&& after == (ActorLife { restarts: (before.restarts + 1) as u32, ..before })
                &&& g_after == g.with_actor_state(before.id, ActorState::Running)
            } else {
                &&& r.1 == AfterCall::Stop
                &&& after == before
                &&& g_after == g.with_actor_state(before.id, ActorState::Dead)
            }
        },
    }
}

/// Puts a new actor on record under the id `id`.
pub fn spawn_actor_as<M>(
    id: ActorID,
    name: &str,
    max_restarts: u32,
    gcs: &mut Gcs,
    owner_node: Option<NodeID>,
    now: u64,
) -> (r: (ActorHandle<M>, ActorLife))
    requires
        old(gcs).wf(),
    ensures
        final(gcs).wf(),
        spawned(old(gcs)@, final(gcs)@, id, name@, max_restarts, owner_node, now, r),
{
    let meta = ActorMeta {
        id,
        name: name.to_string(),
        state: ActorState::Running,
        owner_node,
        created_at: now,
        pending_tasks: 0,
        completed_tasks: 0,
    };
    let ghost recorded = meta;
    gcs.add_actor(meta);
    assert(gcs@.actors[id] == recorded);
    (
        ActorHandle { inner: ActorHandleInner::make(id, owner_node) },
        ActorLife { id, restarts: 0, max_restarts },
    )
}

/// Puts a new actor on record under a random id.
pub fn spawn_actor<M>(
    name: &str,
    max_restarts: u32,
    gcs: &mut Gcs,
    owner_node: Option<NodeID>,
    now: u64,
) -> (r: (ActorHandle<M>, ActorLife))
    requires
        old(gcs).wf(),
    ensures
        final(gcs).wf(),
        spawned(old(gcs)@, final(gcs)@, r.1.id, name@, max_restarts, owner_node, now, r),
{
    spawn_actor_as(ActorID::new(), name, max_restarts, gcs, owner_node, now)
}

/// There is a new actor with this name, which runs and has taken no call yet.
pub open spec fn spawned<M>(
    g: GcsModel,
    g_after: GcsModel,
    id: ActorID,
    name: Seq<char>,
    max_restarts: u32,
    owner_node: Option<NodeID>,
    now: u64,
    r: (ActorHandle<M>, ActorLife),
) -> bool {
    let meta = g_after.actors[id];
    &&& g_after == (GcsModel { actors: g.actors.insert(id, meta), ..g })
    &&& meta.id == id
    &&& meta.name@ == name
    &&& meta.state == ActorState::Running
    &&& meta.owner_node == owner_node
    &&& meta.created_at == now
    &&& meta.pending_tasks == 0
    &&& meta.completed_tasks == 0
    &&& r.0.inner.wf()
    &&& r.0.inner@ == (ActorModel { id, shutdown: false, methods: Map::<Seq<char>, M>::empty(), owner_node })
    &&& r.1 == (ActorLife { id, restarts: 0, max_restarts })
}

/// An actor is restarted no more often than it may be; once it panics with no
/// restart left it is dead and ends.
pub proof fn law_restarts_are_bounded(
    before: ActorLife,
    after: ActorLife,
    g: GcsModel,
    g_after: GcsModel,
    outcome: Result<Vec<u8>, Option<String>>,
    r: (Result<Vec<u8>, CrayonError>, AfterCall),
)
    requires
        life_met(before, after, g, g_after, outcome, r),
        before.restarts <= before.max_restarts,
    ensures
        after.restarts <= after.max_restarts,
        after.max_restarts == before.max_restarts,
        r.1 is Restart ==> after.restarts == before.restarts + 1,
        r.1 is Stop ==> g.actors.contains_key(before.id) ==> g_after.actors[before.id].state == ActorState::Dead,
        r.1 is Stop <==> outcome is Err && before.restarts == before.max_restarts,
{
}

/// A killed actor takes no call, whatever its methods.
pub proof fn law_killed_actor_takes_no_calls<M>(before: ActorModel<M>, name: Seq<char>)
    ensures
        method_found(ActorModel { shutdown: true, ..before }, name) == Err::<M, FaultModel>(
            FaultModel::ActorDead(before.id),
        ),
{
}

/// A method that was registered is found under its name until the actor is killed,
/// and the others stay as they were.
pub proof fn law_registered_method_is_found<M>(before: ActorModel<M>, name: Seq<char>, func: M, other: Seq<char>)
    requires
        !before.shutdown,
    ensures
        ({
            let after = ActorModel { methods: before.methods.insert(name, func), ..before };
            &&& method_found(after, name) == Ok::<M, FaultModel>(func)
            &&& other != name ==> method_found(after, other) == method_found(before, other)
        }),
{
}

/// The answer to a call is what its output holds: the bytes, or the error, and that the
/// actor is dead where no answer came.
pub proof fn law_call_output_is_its_answer<L>(id: ActorID, answer: Option<Result<Vec<u8>, CrayonError>>)
    ensures
        answer matches Some(Ok(bytes)) ==> answer_state::<L>(id, answer) == StateModel::<L>::Bytes(bytes@)
            && (bytes@.len() <= usize::MAX ==> answer_size(answer) == bytes@.len()),
        answer matches Some(Err(error)) ==> answer_state::<L>(id, answer) == StateModel::<L>::Failed(error@)
            && answer_size(answer) == 0,
        answer is None ==> answer_state::<L>(id, answer) == StateModel::<L>::Failed(FaultModel::ActorDead(id))
            && answer_size(answer) == 0,
{
}

/// A call that panics leaves its caller with a failed task and the actor with a restart
/// while it has one left; after the last it is dead. A call that ends well leaves the
/// actor as it is.
pub proof fn law_panicking_actor_is_restarted(
    before: ActorLife,
    after: ActorLife,
    g: GcsModel,
    g_after: GcsModel,
    outcome: Result<Vec<u8>, Option<String>>,
    r: (Result<Vec<u8>, CrayonError>, AfterCall),
)
    requires
        life_met(before, after, g, g_after, outcome, r),
    ensures
        outcome matches Ok(bytes) ==> r.0 == Ok::<Vec<u8>, CrayonError>(bytes) && r.1 is Continue && after == before
            && g_after == g,
        outcome is Err && before.restarts < before.max_restarts ==> r.1 is Restart && after.restarts == before.restarts
            + 1 && (g.actors.contains_key(before.id) ==> g_after.actors[before.id].state == ActorState::Running),
        outcome is Err && before.restarts >= before.max_restarts ==> r.1 is Stop && (g.actors.contains_key(before.id)
            ==> g_after.actors[before.id].state == ActorState::Dead),
        outcome is Err ==> r.0 is Err && r.0->Err_0@ is TaskFailed,
{
}

} // verus!
