//! Nodes of the in-process runtime that share objects and actors: who belongs to
//! the group, and what a node answers to the others.
//!
//! One node is the head and keeps the list of nodes; the others follow it.
//! Connections, waiting and running actors are left to the caller. Times are
//! milliseconds that the caller reads from its clock.
use vstd::prelude::*;
use vstd::string::*;

use crate::common::{ActorID, ActorState, CrayonError, ObjectID, TaskID, TaskState};
use crate::gcs::{ActorMeta, Gcs, GcsModel, ObjectMeta, TaskMeta};
use crate::ids::{bytes_equal, is_v4, uuid_v4};
use crate::object_store::ObjectStore;
use crate::table::{Table, TableKey};
use crate::text::{decimal, decimal_string, hex, hex_chars, same_text};

verus! {

/// Names a node.
#[derive(Clone, Copy, Debug, Eq, Hash)]
pub struct NodeID(pub [u8; 16]);

impl PartialEq for NodeID {
    fn eq(&self, other: &Self) -> (r: bool) {
        bytes_equal(&self.0, &other.0)
    }
}

impl vstd::std_specs::cmp::PartialEqSpecImpl for NodeID {
    open spec fn obeys_eq_spec() -> bool {
        true
    }

    open spec fn eq_spec(&self, other: &Self) -> bool {
        *self == *other
    }
}

impl View for NodeID {
    type V = NodeID;

    open spec fn view(&self) -> NodeID {
        *self
    }
}

impl TableKey for NodeID {
    fn same(&self, other: &Self) -> (r: bool) {
        *self == *other
    }
}

impl NodeID {
    /// A new random identifier.
    pub fn new() -> (r: Self)
        ensures
            is_v4(r.0@),
    {
        NodeID(uuid_v4())
    }

    /// Thirty-two lower-case hexadecimal digits.
    pub fn to_string(&self) -> (r: String)
        ensures
            r@ == hex_chars(self.0@),
    {
        hex(self.0.as_slice())
    }
}

impl Default for NodeID {
    fn default() -> (r: Self)
        ensures
            is_v4(r.0@),
    {
        NodeID::new()
    }
}

/// No message between nodes is longer.
pub const MAX_MESSAGE_SIZE: u64 = 8_589_934_592;

/// How many idle connections are kept per address.
pub const MAX_CONNS_PER_ADDR: usize = 16;

/// A node that the head has not heard of for this long is dropped.
pub const PEER_TTL_MS: u64 = 15_000;

/// What nodes say to one another.
#[derive(Debug)]
pub enum Message {
    RegisterNode { id: NodeID, addr: String },
    NodeList { epoch: u64, nodes: Vec<(NodeID, String)> },
    Ping { id: NodeID, addr: String },
    GetObject(ObjectID),
    ObjectData(ObjectID, Vec<u8>),
    ObjectNotFound(ObjectID),
    GcsSync {
        source: NodeID,
        objects: Vec<(ObjectID, usize)>,
        tasks: Vec<(TaskID, TaskState)>,
        actors: Vec<(ActorID, String, ActorState, Option<NodeID>)>,
    },
    ActorCall { actor_id: ActorID, method: String, args: Vec<u8> },
    ActorCallReply(Result<Vec<u8>, String>),
    Ack,
}

/// Another node.
#[derive(Debug)]
pub struct Peer {
    pub addr: String,
    pub last_seen: u64,
}

impl View for Peer {
    type V = Peer;

    open spec fn view(&self) -> Peer {
        *self
    }
}

pub type Peers = Map<NodeID, Peer>;

/// The nodes of a list, each with its address, in the order of `keys`.
pub open spec fn lists_peers_by(nodes: Seq<(NodeID, String)>, peers: Peers, keys: Seq<NodeID>) -> bool {
    &&& keys.no_duplicates()
    &&& keys.to_set() == peers.dom()
    &&& nodes.len() == keys.len()
    &&& forall|i: int|
        0 <= i < nodes.len() ==> (#[trigger] nodes[i]).0 == keys[i] && nodes[i].1@ == peers[keys[i]].addr@
}

/// The list names every peer once, with its address.
pub open spec fn lists_peers(nodes: Seq<(NodeID, String)>, peers: Peers) -> bool {
    exists|keys: Seq<NodeID>| #[trigger] lists_peers_by(nodes, peers, keys)
}

/// The peers that a list of nodes makes: all but the node itself; of two entries
/// for one node, the later.
pub open spec fn listed_peers(nodes: Seq<(NodeID, String)>, own: NodeID, now: u64) -> Peers
    decreases nodes.len(),
{
    if nodes.len() == 0 {
        Map::empty()
    } else {
        let rest = listed_peers(nodes.drop_last(), own, now);
        let last = nodes.last();
        if last.0 == own {
            rest
        } else {
            rest.insert(last.0, Peer { addr: last.1, last_seen: now })
        }
    }
}

/// The view of a [`Node`].
#[verifier::ext_equal]
pub struct NodeModel {
    pub id: NodeID,
    pub addr: String,
    pub peers: Peers,
    pub epoch: u64,
    pub is_head: bool,
    pub actors: Set<ActorID>,
}

impl NodeModel {
    /// The head heard of a node. The epoch moves on if the node is new or has
    /// moved.
    pub open spec fn heard(self, id: NodeID, addr: String, now: u64) -> NodeModel {
        let changed = !self.peers.contains_key(id) || self.peers[id].addr@ != addr@;
        NodeModel {
            peers: self.peers.insert(id, Peer { addr, last_seen: now }),
            epoch: if changed {
                (self.epoch + 1) as u64
            } else {
                self.epoch
            },
            ..self
        }
    }

    /// A node follows a list from the head, unless it is an older one.
    pub open spec fn followed(self, epoch: u64, nodes: Seq<(NodeID, String)>, now: u64) -> NodeModel {
        if epoch < self.epoch {
            self
        } else {
            NodeModel { peers: listed_peers(nodes, self.id, now), epoch, ..self }
        }
    }

    /// The head has not heard of a node for too long.
    pub open spec fn lapsed(self, id: NodeID, now: u64) -> bool {
        self.peers.contains_key(id) && self.peers[id].last_seen + PEER_TTL_MS <= now
    }

    /// The nodes that the head still hears of.
    pub open spec fn pruned(self, now: u64) -> NodeModel {
        let kept = Map::new(
            |id: NodeID| self.peers.contains_key(id) && !self.lapsed(id, now),
            |id: NodeID| self.peers[id],
        );
        NodeModel {
            peers: kept,
            epoch: if exists|id: NodeID| self.lapsed(id, now) {
                (self.epoch + 1) as u64
            } else {
                self.epoch
            },
            ..self
        }
    }
}

/// The epoch of the membership never goes back.
pub proof fn law_epoch_never_goes_back(
    m: NodeModel,
    id: NodeID,
    addr: String,
    epoch: u64,
    nodes: Seq<(NodeID, String)>,
    now: u64,
)
    requires
        m.epoch < u64::MAX,
    ensures
        m.heard(id, addr, now).epoch >= m.epoch,
        m.followed(epoch, nodes, now).epoch >= m.epoch,
        m.pruned(now).epoch >= m.epoch,
{
}

/// A list that is older than what a node knows changes nothing.
pub proof fn law_older_list_is_ignored(m: NodeModel, epoch: u64, nodes: Seq<(NodeID, String)>, now: u64)
    requires
        epoch < m.epoch,
    ensures
        m.followed(epoch, nodes, now) == m,
{
}

/// A node is never its own peer after it followed a list.
pub proof fn law_not_its_own_peer(nodes: Seq<(NodeID, String)>, own: NodeID, now: u64)
    ensures
        !listed_peers(nodes, own, now).contains_key(own),
    decreases nodes.len(),
{
    if nodes.len() > 0 {
        law_not_its_own_peer(nodes.drop_last(), own, now);
    }
}

/// A node that the head heard of lately stays in the group.
pub proof fn law_heard_of_node_stays(m: NodeModel, id: NodeID, addr: String, now: u64, later: u64)
    requires
        later < now + PEER_TTL_MS,
    ensures
        m.heard(id, addr, now).pruned(later).peers.contains_key(id),
        m.heard(id, addr, now).pruned(later).peers[id].addr == addr,
{
}

/// One node: what it knows of the others, and which actors live on it.
#[derive(Debug)]
pub struct Node {
    pub id: NodeID,
    pub addr: String,
    is_head: bool,
    epoch: u64,
    peers: Table<NodeID, Peer>,
    actors: Table<ActorID, ()>,
}

impl View for Node {
    type V = NodeModel;

    closed spec fn view(&self) -> NodeModel {
        NodeModel {
            id: self.id,
            addr: self.addr,
            peers: self.peers@,
            epoch: self.epoch,
            is_head: self.is_head,
            actors: self.actors@.dom(),
        }
    }
}

/// What a node does with a request of another.
#[derive(Debug)]
pub enum HandleStep {
    Reply(Message),
    /// Read this object, and answer with `object_data`.
    ReadObject(ObjectID),
    /// Call this actor, and answer with `actor_call_reply`.
    CallActor { actor_id: ActorID, method: String, args: Vec<u8> },
    /// Close the connection.
    Fail(String),
}

/// The records with the objects of another node.
pub open spec fn with_objects(g: GcsModel, list: Seq<(ObjectID, usize)>, source: NodeID, now: u64) -> GcsModel
    decreases list.len(),
{
    if list.len() == 0 {
        g
    } else {
        let rest = with_objects(g, list.drop_last(), source, now);
        let meta = ObjectMeta {
            id: list.last().0,
            size_bytes: list.last().1,
            created_at: now,
            owner: None,
            owner_node: Some(source),
        };
        GcsModel { objects: rest.objects.insert(meta.id, meta), ..rest }
    }
}

/// The records with the tasks of another node.
pub open spec fn with_tasks(g: GcsModel, list: Seq<(TaskID, TaskState)>, now: u64) -> GcsModel
    decreases list.len(),
{
    if list.len() == 0 {
        g
    } else {
        with_tasks(g, list.drop_last(), now).with_task(
            TaskMeta {
                id: list.last().0,
                state: list.last().1,
                created_at: now,
                finished_at: None,
                output: None,
            },
        )
    }
}

/// The records with an actor of another node: its state, if it is on record
/// already.
pub open spec fn with_actor(
    g: GcsModel,
    actor: (ActorID, String, ActorState, Option<NodeID>),
    source: NodeID,
    now: u64,
) -> GcsModel {
    if g.actors.contains_key(actor.0) {
        g.with_actor_state(actor.0, actor.2)
    } else {
        let meta = ActorMeta {
            id: actor.0,
            name: actor.1,
            state: actor.2,
            owner_node: if actor.3 is Some {
                actor.3
            } else {
                Some(source)
            },
            created_at: now,
            pending_tasks: 0,
            completed_tasks: 0,
        };
        GcsModel { actors: g.actors.insert(actor.0, meta), ..g }
    }
}

pub open spec fn with_actors(
    g: GcsModel,
    list: Seq<(ActorID, String, ActorState, Option<NodeID>)>,
    source: NodeID,
    now: u64,
) -> GcsModel
    decreases list.len(),
{
    if list.len() == 0 {
        g
    } else {
        with_actor(with_actors(g, list.drop_last(), source, now), list.last(), source, now)
    }
}

fn record_objects(gcs: &mut Gcs, list: &Vec<(ObjectID, usize)>, source: NodeID, now: u64)
    requires
        old(gcs).wf(),
    ensures
        final(gcs).wf(),
        final(gcs)@ == with_objects(old(gcs)@, list@, source, now),
{
    let ghost before = gcs@;
    let mut i: usize = 0;
    assert(list@.take(0) =~= Seq::<(ObjectID, usize)>::empty());
    while i < list.len()
        invariant
            gcs.wf(),
            i <= list@.len(),
            gcs@ == with_objects(before, list@.take(i as int), source, now),
        decreases list@.len() - i,
    {
        assert(list@.take(i + 1).drop_last() =~= list@.take(i as int));
        gcs.add_object(
            ObjectMeta {
                id: list[i].0,
                size_bytes: list[i].1,
                created_at: now,
                owner: None,
                owner_node: Some(source),
            },
        );
        i += 1;
    }
    assert(list@.take(i as int) =~= list@);
}

fn record_tasks(gcs: &mut Gcs, list: &Vec<(TaskID, TaskState)>, now: u64)
    requires
        old(gcs).wf(),
    ensures
        final(gcs).wf(),
        final(gcs)@ == with_tasks(old(gcs)@, list@, now),
{
    let ghost before = gcs@;
    let mut i: usize = 0;
    assert(list@.take(0) =~= Seq::<(TaskID, TaskState)>::empty());
    while i < list.len()
        invariant
            gcs.wf(),
            i <= list@.len(),
            gcs@ == with_tasks(before, list@.take(i as int), now),
        decreases list@.len() - i,
    {
        assert(list@.take(i + 1).drop_last() =~= list@.take(i as int));
        gcs.add_task(
            TaskMeta { id: list[i].0, state: list[i].1, created_at: now, finished_at: None, output: None },
        );
        i += 1;
    }
    assert(list@.take(i as int) =~= list@);
}

fn record_actors(gcs: &mut Gcs, list: &Vec<(ActorID, String, ActorState, Option<NodeID>)>, source: NodeID, now: u64)
    requires
        old(gcs).wf(),
    ensures
        final(gcs).wf(),
        final(gcs)@ == with_actors(old(gcs)@, list@, source, now),
{
    let ghost before = gcs@;
    let mut i: usize = 0;
    assert(list@.take(0) =~= Seq::<(ActorID, String, ActorState, Option<NodeID>)>::empty());
    while i < list.len()
        invariant
            gcs.wf(),
            i <= list@.len(),
            gcs@ == with_actors(before, list@.take(i as int), source, now),
        decreases list@.len() - i,
    {
        assert(list@.take(i + 1).drop_last() =~= list@.take(i as int));
        let actor = &list[i];
        if gcs.get_actor(actor.0).is_some() {
            gcs.set_actor_state(actor.0, actor.2);
        } else {
            let owner_node: Option<NodeID> = match actor.3 {
                Some(node) => Some(node),
                None => Some(source),
            };
            gcs.add_actor(
                ActorMeta {
                    id: actor.0,
                    name: actor.1.clone(),
                    state: actor.2,
                    owner_node,
                    created_at: now,
                    pending_tasks: 0,
                    completed_tasks: 0,
                },
            );
        }
        i += 1;
    }
    assert(list@.take(i as int) =~= list@);
}

impl Node {
    pub closed spec fn wf(&self) -> bool {
        self.peers.wf() && self.actors.wf()
    }

    /// A node that knows of no other. Without a head to follow it is the head.
    pub fn new(id: NodeID, addr: String, is_head: bool) -> (r: Self)
        ensures
            r.wf(),
            r@ == (NodeModel { id, addr, peers: Map::empty(), epoch: 1, is_head, actors: Set::empty() }),
    {
        let r = Node { id, addr, is_head, epoch: 1, peers: Table::new(), actors: Table::new() };
        assert(r@.actors =~= Set::<ActorID>::empty());
        r
    }

    /// Makes an actor of this node reachable for the others.
    pub fn register_actor(&mut self, id: ActorID)
        requires
            old(self).wf(),
        ensures
            final(self).wf(),
            final(self)@ == (NodeModel { actors: old(self)@.actors.insert(id), ..old(self)@ }),
    {
        let ghost before = self@;
        self.actors.insert(id, ());
        assert(self@.actors =~= before.actors.insert(id));
    }

    /// Every other node with its address.
    pub fn peers(&self) -> (r: Vec<(NodeID, String)>)
        requires
            self.wf(),
        ensures
            lists_peers(r@, self@.peers),
    {
        let mut r: Vec<(NodeID, String)> = Vec::new();
        let mut i: usize = 0;
        while i < self.peers.len()
            invariant
                self.peers.wf(),
                i <= self.peers.keys().len(),
                r@.len() == i,
                forall|j: int|
                    0 <= j < i ==> (#[trigger] r@[j]).0 == self.peers.keys()[j] && r@[j].1@
                        == self.peers@[self.peers.keys()[j]].addr@,
            decreases self.peers.keys().len() - i,
        {
            let (id, peer) = self.peers.entry_at(i);
            r.push((*id, peer.addr.clone()));
            i += 1;
        }
        proof {
            self.peers.lemma_keys();
            assert(lists_peers_by(r@, self@.peers, self.peers.keys()));
        }
        r
    }

    /// The address of another node.
    pub fn peer_addr(&self, id: NodeID) -> (r: Result<String, String>)
        requires
            self.wf(),
        ensures
            match r {
                Ok(addr) => self@.peers.contains_key(id) && addr@ == self@.peers[id].addr@,
                Err(message) => !self@.peers.contains_key(id) && message@ == "no peer with node id "@ + hex_chars(
                    id.0@,
                ),
            },
    {
        match self.peers.get(&id) {
            Some(peer) => Ok(peer.addr.clone()),
            None => {
                let mut message = "no peer with node id ".to_string();
                let text = id.to_string();
                message.append(text.as_str());
                Err(message)
            },
        }
    }

    /// The message with which a node tells the head of itself: at first to
    /// register, and then to show that it is still there.
    pub fn membership_message(&self, register: bool) -> (r: Message)
        ensures
            if register {
                r == (Message::RegisterNode { id: self@.id, addr: self@.addr })
            } else {
                r == (Message::Ping { id: self@.id, addr: self@.addr })
            },
    {
        if register {
            Message::RegisterNode { id: self.id, addr: self.addr.clone() }
        } else {
            Message::Ping { id: self.id, addr: self.addr.clone() }
        }
    }

    /// The addresses of the peers that are not among `next`.
    fn addrs_missing_in(&self, next: &Table<NodeID, Peer>) -> (r: Vec<String>)
        requires
            self.wf(),
            next.wf(),
        ensures
            forall|addr: Seq<char>| #[trigger]
                has_text(r@, addr) <==> exists|id: NodeID| #[trigger]
                    self@.peers.contains_key(id) && !next@.contains_key(id) && self@.peers[id].addr@ == addr,
    {
        let mut r: Vec<String> = Vec::new();
        let mut i: usize = 0;
        while i < self.peers.len()
            invariant
                self.peers.wf(),
                next.wf(),
                i <= self.peers.keys().len(),
                forall|addr: Seq<char>| #[trigger]
                    has_text(r@, addr) <==> exists|j: int|
                        0 <= j < i && !next@.contains_key(#[trigger] self.peers.keys()[j])
                            && self.peers@[self.peers.keys()[j]].addr@ == addr,
            decreases self.peers.keys().len() - i,
        {
            let (id, peer) = self.peers.entry_at(i);
            let ghost before = r@;
            if !next.contains_key(id) {
                r.push(peer.addr.clone());
                proof {
                    lemma_has_text_push(before, r@[r@.len() - 1]);
                }
            }
            proof {
                assert forall|addr: Seq<char>| #[trigger] has_text(r@, addr) <==> exists|j: int|
                    0 <= j < i + 1 && !next@.contains_key(#[trigger] self.peers.keys()[j])
                        && self.peers@[self.peers.keys()[j]].addr@ == addr by {
                    if has_text(before, addr) {
                        let j = choose|j: int|
                            0 <= j < i && !next@.contains_key(#[trigger] self.peers.keys()[j])
                                && self.peers@[self.peers.keys()[j]].addr@ == addr;
                        assert(0 <= j < i + 1 && !next@.contains_key(self.peers.keys()[j]));
                    }
                    if exists|j: int|
                        0 <= j < i + 1 && !next@.contains_key(#[trigger] self.peers.keys()[j])
                            && self.peers@[self.peers.keys()[j]].addr@ == addr {
                        let j = choose|j: int|
                            0 <= j < i + 1 && !next@.contains_key(#[trigger] self.peers.keys()[j])
                                && self.peers@[self.peers.keys()[j]].addr@ == addr;
                        if j < i {
                            assert(has_text(before, addr));
                        }
                    }
                    assert(self.peers.keys()[i as int] == id@);
                }
            }
            i += 1;
        }
        proof {
            self.peers.lemma_keys();
            assert forall|addr: Seq<char>| #[trigger] has_text(r@, addr) <==> exists|id: NodeID| #[trigger]
                self@.peers.contains_key(id) && !next@.contains_key(id) && self@.peers[id].addr@ == addr by {
                if has_text(r@, addr) {
                    let j = choose|j: int|
                        0 <= j < i && !next@.contains_key(#[trigger] self.peers.keys()[j])
                            && self.peers@[self.peers.keys()[j]].addr@ == addr;
                    assert(self@.peers.contains_key(self.peers.keys()[j]));
                }
                if exists|id: NodeID| #[trigger]
                    self@.peers.contains_key(id) && !next@.contains_key(id) && self@.peers[id].addr@ == addr {
                    let id = choose|id: NodeID| #[trigger]
                        self@.peers.contains_key(id) && !next@.contains_key(id) && self@.peers[id].addr@ == addr;
                    assert(self.peers.keys().contains(id));
                    let j = self.peers.keys().index_of(id);
                    assert(self.peers.keys()[j] == id);
                    assert(0 <= j < i && !next@.contains_key(self.peers.keys()[j]));
                }
            }
        }
        r
    }

    /// Takes in the head's answer. The result names the addresses whose
    /// connections are to be closed: those of nodes that are no longer there.
    pub fn follow(&mut self, reply: Option<Message>, now: u64) -> (r: Result<Vec<String>, String>)
        requires
            old(self).wf(),
        ensures
            final(self).wf(),
            if reply is Some && reply->0 is NodeList {
                let epoch = reply->0->NodeList_epoch;
                let nodes = reply->0->NodeList_nodes@;
                &&& final(self)@ == old(self)@.followed(epoch, nodes, now)
                &&& r is Ok
                &&& forall|addr: Seq<char>| #[trigger]
                    has_text(r->Ok_0@, addr) <==> exists|id: NodeID| #[trigger]
                        old(self)@.peers.contains_key(id) && !final(self)@.peers.contains_key(id)
                            && old(self)@.peers[id].addr@ == addr
            } else {
                final(self)@ == old(self)@ && r is Err && r->Err_0@ == "invalid membership reply"@
            },
    {
        match reply {
            Some(Message::NodeList { epoch, nodes }) => {
                if epoch < self.epoch {
                    let none: Vec<String> = Vec::new();
                    assert(forall|addr: Seq<char>| !has_text(none@, addr));
                    return Ok(none);
                }
                let mut next: Table<NodeID, Peer> = Table::new();
                let mut i: usize = 0;
                assert(nodes@.take(0) =~= Seq::<(NodeID, String)>::empty());
                while i < nodes.len()
                    invariant
                        next.wf(),
                        i <= nodes@.len(),
                        next@ == listed_peers(nodes@.take(i as int), self.id, now),
                    decreases nodes@.len() - i,
                {
                    assert(nodes@.take(i + 1).drop_last() =~= nodes@.take(i as int));
                    let id = nodes[i].0;
                    if id != self.id {
                        next.insert(id, Peer { addr: nodes[i].1.clone(), last_seen: now });
                    }
                    i += 1;
                }
                assert(nodes@.take(i as int) =~= nodes@);
                let removed = self.addrs_missing_in(&next);
                self.epoch = epoch;
                self.peers = next;
                Ok(removed)
            },
            _ => Err("invalid membership reply".to_string()),
        }
    }

    /// Drops the nodes that the head has not heard of for too long. The result
    /// names the addresses whose connections are to be closed.
    pub fn prune(&mut self, now: u64) -> (r: Vec<String>)
        requires
            old(self).wf(),
            old(self)@.epoch < u64::MAX,
        ensures
            final(self).wf(),
            final(self)@ == old(self)@.pruned(now),
            forall|addr: Seq<char>| #[trigger]
                has_text(r@, addr) <==> exists|id: NodeID| #[trigger]
                    old(self)@.peers.contains_key(id) && !final(self)@.peers.contains_key(id)
                        && old(self)@.peers[id].addr@ == addr,
    {
        let ghost before = self@;
        let mut kept: Table<NodeID, Peer> = Table::new();
        let mut lapsed = false;
        let mut i: usize = 0;
        proof {
            self.peers.lemma_keys();
        }
        while i < self.peers.len()
            invariant
                self.wf(),
                self@ == before,
                self.peers.wf(),
                kept.wf(),
                i <= self.peers.keys().len(),
                self.peers.keys().no_duplicates(),
                lapsed <==> exists|j: int| 0 <= j < i && before.lapsed(#[trigger] self.peers.keys()[j], now),
                forall|id: NodeID| #[trigger]
                    kept@.contains_key(id) <==> self.peers.keys().take(i as int).contains(id) && !before.lapsed(id, now),
                forall|id: NodeID| #[trigger] kept@.contains_key(id) ==> kept@[id] == before.peers[id],
            decreases self.peers.keys().len() - i,
        {
            let (id, peer) = self.peers.entry_at(i);
            let ghost seen = self.peers.keys().take(i as int);
            let ghost so_far = kept@;
            if now >= PEER_TTL_MS && peer.last_seen <= now - PEER_TTL_MS {
                assert(before.lapsed(self.peers.keys()[i as int], now));
                lapsed = true;
            } else {
                kept.insert(*id, Peer { addr: peer.addr.clone(), last_seen: peer.last_seen });
            }
            proof {
                let grown = self.peers.keys().take(i + 1);
                assert(grown =~= seen.push(*id));
                crate::coordinator::lemma_push_contains(seen, *id);
                assert forall|other: NodeID| #[trigger] kept@.contains_key(other) <==> grown.contains(other)
                    && !before.lapsed(other, now) by {
                    assert(so_far.contains_key(other) <==> seen.contains(other) && !before.lapsed(other, now));
                }
            }
            i += 1;
        }
        let removed = self.addrs_missing_in(&kept);
        proof {
            self.peers.lemma_keys();
            assert(self.peers.keys().take(i as int) =~= self.peers.keys());
            assert(kept@ =~= before.pruned(now).peers);
            if exists|id: NodeID| before.lapsed(id, now) {
                let id = choose|id: NodeID| before.lapsed(id, now);
                assert(self.peers.keys().contains(id));
                let j = self.peers.keys().index_of(id);
                assert(before.lapsed(self.peers.keys()[j], now));
            }
        }
        self.peers = kept;
        if lapsed {
            self.epoch = self.epoch + 1;
        }
        assert(self@ =~= before.pruned(now));
        removed
    }

    /// The records of this node, for the others: its own objects and actors, and
    /// every task.
    pub fn sync_message(&self, gcs: &Gcs) -> (r: Message)
        requires
            gcs.wf(),
        ensures
            r is GcsSync,
            r->source == self@.id,
            own_objects(r->objects@, gcs@, self@.id),
            own_actors(r->actors@, gcs@, self@.id),
            all_tasks(r->tasks@, gcs@),
    {
        let metas = gcs.objects();
        let mut objects: Vec<(ObjectID, usize)> = Vec::new();
        let mut i: usize = 0;
        while i < metas.len()
            invariant
                i <= metas@.len(),
                objects@ == own_sizes(metas@.take(i as int), self.id),
            decreases metas@.len() - i,
        {
            assert(metas@.take(i + 1).drop_last() =~= metas@.take(i as int));
            let meta = metas[i];
            let own = match meta.owner_node {
                Some(node) => node == self.id,
                None => true,
            };
            if own {
                objects.push((meta.id, meta.size_bytes));
            }
            i += 1;
        }
        assert(metas@.take(i as int) =~= metas@);
        assert(crate::gcs::lists(gcs@.objects, metas@) && objects@ == own_sizes(metas@, self.id));
        let task_metas = gcs.tasks();
        let mut tasks: Vec<(TaskID, TaskState)> = Vec::new();
        let mut j: usize = 0;
        while j < task_metas.len()
            invariant
                j <= task_metas@.len(),
                tasks@.len() == j,
                forall|k: int|
                    0 <= k < j ==> #[trigger] tasks@[k] == (task_metas@[k].id, task_metas@[k].state),
            decreases task_metas@.len() - j,
        {
            let meta = task_metas[j];
            tasks.push((meta.id, meta.state));
            j += 1;
        }
        assert(crate::gcs::lists(gcs@.tasks, task_metas@) && states_of(tasks@, task_metas@));
        let actor_metas = gcs.actors();
        let mut actors: Vec<(ActorID, String, ActorState, Option<NodeID>)> = Vec::new();
        let mut k: usize = 0;
        while k < actor_metas.len()
            invariant
                k <= actor_metas@.len(),
                actors@ == own_states(actor_metas@.take(k as int), self.id),
            decreases actor_metas@.len() - k,
        {
            assert(actor_metas@.take(k + 1).drop_last() =~= actor_metas@.take(k as int));
            let meta = &actor_metas[k];
            let own = match meta.owner_node {
                Some(node) => node == self.id,
                None => true,
            };
            if own {
                actors.push((meta.id, meta.name.clone(), meta.state, meta.owner_node));
            }
            k += 1;
        }
        assert(actor_metas@.take(k as int) =~= actor_metas@);
        assert(crate::gcs::lists(gcs@.actors, actor_metas@) && actors@ == own_states(actor_metas@, self.id));
        Message::GcsSync { source: self.id, objects, tasks, actors }
    }

    /// Answers a request of another node, or says what has to be done before it
    /// can be answered. `gcs` is where the node keeps its records, if it does.
    pub fn handle<L>(&mut self, message: Message, store: &ObjectStore<L>, gcs: Option<&mut Gcs>, now: u64) -> (r:
        HandleStep)
        requires
            old(self).wf(),
            old(self)@.epoch < u64::MAX,
            store.wf(),
            gcs is Some ==> gcs->0.wf(),
        ensures
            final(self).wf(),
            gcs is Some ==> final(gcs->0).wf(),
            gcs is Some ==> (final(gcs->0))@ == synced(gcs->0@, message, now),
            handled(
                old(self)@,
                final(self)@,
                store@.entries.contains_key(message->GetObject_0)
                    && store@.entries[message->GetObject_0].present(),
                message,
                now,
                r,
            ),
    {
        match message {
            Message::RegisterNode { id, addr } => self.hear(id, addr, now),
            Message::Ping { id, addr } => self.hear(id, addr, now),
            Message::GetObject(id) => if store.contains(id) {
                HandleStep::ReadObject(id)
            } else {
                HandleStep::Reply(Message::ObjectNotFound(id))
            },
            Message::GcsSync { source, objects, tasks, actors } => {
                if let Some(gcs) = gcs {
                    record_objects(gcs, &objects, source, now);
                    record_tasks(gcs, &tasks, now);
                    record_actors(gcs, &actors, source, now);
                }
                HandleStep::Reply(Message::Ack)
            },
            Message::ActorCall { actor_id, method, args } => if self.actors.contains_key(&actor_id) {
                HandleStep::CallActor { actor_id, method, args }
            } else {
                let mut text = "actor ".to_string();
                let id = actor_id.to_string();
                text.append(id.as_str());
                text.append(" not found on this node");
                HandleStep::Reply(Message::ActorCallReply(Err(text)))
            },
            _ => HandleStep::Fail("unexpected request message".to_string()),
        }
    }

    fn hear(&mut self, id: NodeID, addr: String, now: u64) -> (r: HandleStep)
        requires
            old(self).wf(),
            old(self)@.epoch < u64::MAX,
        ensures
            final(self).wf(),
            membership_handled(old(self)@, final(self)@, id, addr, now, r),
    {
        if !self.is_head {
            return HandleStep::Fail("membership request sent to worker".to_string());
        }
        let ghost before = self@;
        let changed = match self.peers.get(&id) {
            Some(peer) => !same_text(peer.addr.as_str(), addr.as_str()),
            None => true,
        };
        self.peers.insert(id, Peer { addr, last_seen: now });
        if changed {
            self.epoch = self.epoch + 1;
        }
        assert(self@ =~= before.heard(id, addr, now));
        let mut nodes = self.peers();
        let ghost others = nodes@;
        nodes.push((self.id, self.addr.clone()));
        assert(nodes@.drop_last() =~= others);
        HandleStep::Reply(Message::NodeList { epoch: self.epoch, nodes })
    }
}

pub open spec fn has_text(list: Seq<String>, text: Seq<char>) -> bool {
    exists|i: int| 0 <= i < list.len() && (#[trigger] list[i])@ == text
}

proof fn lemma_has_text_push(list: Seq<String>, last: String)
    ensures
        forall|text: Seq<char>| #[trigger] has_text(list.push(last), text) <==> has_text(list, text) || last@ == text,
{
    let longer = list.push(last);
    assert forall|text: Seq<char>| #[trigger] has_text(longer, text) <==> has_text(list, text) || last@ == text by {
        if has_text(list, text) {
            let i = choose|i: int| 0 <= i < list.len() && (#[trigger] list[i])@ == text;
            assert(longer[i]@ == text);
        }
        if last@ == text {
            assert(longer[list.len() as int]@ == text);
        }
        if has_text(longer, text) {
            let i = choose|i: int| 0 <= i < longer.len() && (#[trigger] longer[i])@ == text;
            if i < list.len() {
                assert(list[i]@ == text);
            }
        }
    }
}

pub open spec fn is_own(owner: Option<NodeID>, own: NodeID) -> bool {
    owner is None || owner == Some(own)
}

/// The ids and sizes of a node's own objects.
pub open spec fn own_sizes(metas: Seq<ObjectMeta>, own: NodeID) -> Seq<(ObjectID, usize)>
    decreases metas.len(),
{
    if metas.len() == 0 {
        Seq::empty()
    } else if is_own(metas.last().owner_node, own) {
        own_sizes(metas.drop_last(), own).push((metas.last().id, metas.last().size_bytes))
    } else {
        own_sizes(metas.drop_last(), own)
    }
}

/// What is said of a node's own actors.
pub open spec fn own_states(metas: Seq<ActorMeta>, own: NodeID) -> Seq<(ActorID, String, ActorState, Option<NodeID>)>
    decreases metas.len(),
{
    if metas.len() == 0 {
        Seq::empty()
    } else if is_own(metas.last().owner_node, own) {
        own_states(metas.drop_last(), own).push(
            (metas.last().id, metas.last().name, metas.last().state, metas.last().owner_node),
        )
    } else {
        own_states(metas.drop_last(), own)
    }
}

pub open spec fn states_of(list: Seq<(TaskID, TaskState)>, metas: Seq<TaskMeta>) -> bool {
    &&& list.len() == metas.len()
    &&& forall|i: int| 0 <= i < list.len() ==> #[trigger] list[i] == (metas[i].id, metas[i].state)
}

pub open spec fn own_objects(list: Seq<(ObjectID, usize)>, g: GcsModel, own: NodeID) -> bool {
    exists|metas: Seq<ObjectMeta>| #[trigger] crate::gcs::lists(g.objects, metas) && list == own_sizes(metas, own)
}

pub open spec fn own_actors(
    list: Seq<(ActorID, String, ActorState, Option<NodeID>)>,
    g: GcsModel,
    own: NodeID,
) -> bool {
    exists|metas: Seq<ActorMeta>| #[trigger] crate::gcs::lists(g.actors, metas) && list == own_states(metas, own)
}

pub open spec fn all_tasks(list: Seq<(TaskID, TaskState)>, g: GcsModel) -> bool {
    exists|metas: Seq<TaskMeta>| #[trigger] crate::gcs::lists(g.tasks, metas) && states_of(list, metas)
}

/// The records after a message: a list of another node's records is taken in.
pub open spec fn synced(g: GcsModel, message: Message, now: u64) -> GcsModel {
    match message {
        Message::GcsSync { source, objects, tasks, actors } => with_actors(
            with_tasks(with_objects(g, objects@, source, now), tasks@, now),
            actors@,
            source,
            now,
        ),
        _ => g,
    }
}

/// The answer to a node that tells of itself: the head answers with every node,
/// itself last; others refuse.
pub open spec fn membership_handled(
    before: NodeModel,
    after: NodeModel,
    id: NodeID,
    addr: String,
    now: u64,
    step: HandleStep,
) -> bool {
    if before.is_head {
        &&& after == before.heard(id, addr, now)
        &&& step matches HandleStep::Reply(Message::NodeList { epoch, nodes })
        &&& epoch == after.epoch
        &&& nodes@.len() > 0
        &&& nodes@.last().0 == before.id
        &&& nodes@.last().1@ == before.addr@
        &&& lists_peers(nodes@.drop_last(), after.peers)
    } else {
        &&& after == before
        &&& step matches HandleStep::Fail(message)
        &&& message@ == "membership request sent to worker"@
    }
}

/// The answer to a request of another node. `present` says whether the object
/// that is asked for is there.
pub open spec fn handled(
    before: NodeModel,
    after: NodeModel,
    present: bool,
    message: Message,
    now: u64,
    step: HandleStep,
) -> bool {
    match message {
        Message::RegisterNode { id, addr } => membership_handled(before, after, id, addr, now, step),
        Message::Ping { id, addr } => membership_handled(before, after, id, addr, now, step),
        Message::GetObject(id) => after == before && if present {
            step == HandleStep::ReadObject(id)
        } else {
            step == HandleStep::Reply(Message::ObjectNotFound(id))
        },
        Message::GcsSync { source, objects, tasks, actors } => after == before && step == HandleStep::Reply(
            Message::Ack,
        ),
        Message::ActorCall { actor_id, method, args } => after == before && if before.actors.contains(actor_id) {
            step == (HandleStep::CallActor { actor_id, method, args })
        } else {
            &&& step matches HandleStep::Reply(Message::ActorCallReply(Err(text)))
            &&& text@ == "actor "@ + hex_chars(actor_id.bytes()) + " not found on this node"@
        },
        _ => after == before && (step matches HandleStep::Fail(text) && text@ == "unexpected request message"@),
    }
}

/// The answer to a request for an object that was read.
pub fn object_data(id: ObjectID, bytes: Vec<u8>) -> (r: Message)
    ensures
        r == Message::ObjectData(id, bytes),
{
    Message::ObjectData(id, bytes)
}

/// The answer to a call of an actor.
pub fn actor_call_reply(result: Result<Vec<u8>, CrayonError>) -> (r: Message)
    ensures
        match result {
            Ok(bytes) => r == Message::ActorCallReply(Ok(bytes)),
            Err(error) => r matches Message::ActorCallReply(Err(text)) && text@ == error@.text(),
        },
{
    match result {
        Ok(bytes) => Message::ActorCallReply(Ok(bytes)),
        Err(error) => Message::ActorCallReply(Err(error.to_string())),
    }
}

/// What another node answered to the call of an actor.
pub fn remote_call_result(reply: Message) -> (r: Result<Vec<u8>, String>)
    ensures
        match reply {
            Message::ActorCallReply(result) => r == result,
            _ => r is Err && r->Err_0@ == "unexpected actor reply"@,
        },
{
    match reply {
        Message::ActorCallReply(result) => result,
        _ => Err("unexpected actor reply".to_string()),
    }
}

/// What another node answered to the request for an object.
pub fn remote_object_result(id: ObjectID, reply: Message) -> (r: Result<Vec<u8>, String>)
    ensures
        if reply is ObjectData && reply->ObjectData_0 == id {
            r == Ok::<Vec<u8>, String>(reply->ObjectData_1)
        } else {
            r is Err && r->Err_0@ == "object not found on peer"@
        },
{
    match reply {
        Message::ObjectData(returned, bytes) => if returned == id {
            Ok(bytes)
        } else {
            Err("object not found on peer".to_string())
        },
        _ => Err("object not found on peer".to_string()),
    }
}

/// Whether a failed request is sent once more, on a new connection.
pub fn retries_request(first: bool, now: u64, deadline: u64) -> (r: bool)
    ensures
        r == (first && now < deadline),
{
    first && now < deadline
}

/// Whether a connection is kept if `idle` are kept for its address already.
pub fn keeps_idle(idle: usize) -> (r: bool)
    ensures
        r == (idle < MAX_CONNS_PER_ADDR),
{
    idle < MAX_CONNS_PER_ADDR
}

/// The number that eight bytes spell, most significant byte first.
pub open spec fn big_endian(bytes: Seq<u8>) -> int
    decreases bytes.len(),
{
    if bytes.len() == 0 {
        0
    } else {
        256 * big_endian(bytes.drop_last()) + bytes.last()
    }
}

/// How many bytes follow a header.
pub fn message_len(header: [u8; 8]) -> (r: Result<u64, String>)
    ensures
        match r {
            Ok(len) => len == big_endian(header@) && len <= MAX_MESSAGE_SIZE,
            Err(message) => big_endian(header@) > MAX_MESSAGE_SIZE && message@ == "message too large"@,
        },
{
    let mut value: u128 = 0;
    let mut i: usize = 0;
    let ghost mut bound: int = 1;
    assert(header@.take(0) =~= Seq::<u8>::empty());
    while i < 8
        invariant
            i <= 8,
            value == big_endian(header@.take(i as int)),
            0 <= value < bound,
            bound <= 0x1_0000_0000_0000_0000,
            i == 0 ==> bound == 1,
            i == 1 ==> bound == 0x100,
            i == 2 ==> bound == 0x1_0000,
            i == 3 ==> bound == 0x100_0000,
            i == 4 ==> bound == 0x1_0000_0000,
            i == 5 ==> bound == 0x100_0000_0000,
            i == 6 ==> bound == 0x1_0000_0000_0000,
            i == 7 ==> bound == 0x100_0000_0000_0000,
            i == 8 ==> bound == 0x1_0000_0000_0000_0000,
        decreases 8 - i,
    {
        assert(header@.take(i + 1).drop_last() =~= header@.take(i as int));
        value = value * 256 + header[i] as u128;
        proof {
            bound = bound * 256;
        }
        i += 1;
    }
    assert(header@.take(8) =~= header@);
    if value > MAX_MESSAGE_SIZE as u128 {
        Err("message too large".to_string())
    } else {
        Ok(value as u64)
    }
}

/// The eight bytes that announce a message of `len` bytes.
#[verifier::spinoff_prover]
#[verifier::rlimit(40)]
pub fn message_header(len: u64) -> (r: Result<[u8; 8], String>)
    ensures
        match r {
            Ok(header) => len <= MAX_MESSAGE_SIZE && big_endian(header@) == len,
            Err(message) => len > MAX_MESSAGE_SIZE && message@ == "message too large: "@ + decimal(len as nat)
                + " bytes"@,
        },
{
    if len > MAX_MESSAGE_SIZE {
        let mut message = "message too large: ".to_string();
        let digits = decimal_string(len);
        message.append(digits.as_str());
        message.append(" bytes");
        return Err(message);
    }
    let header: [u8; 8] = [
        (len / 0x100_0000_0000_0000) as u8,
        (len / 0x1_0000_0000_0000 % 0x100) as u8,
        (len / 0x100_0000_0000 % 0x100) as u8,
        (len / 0x1_0000_0000 % 0x100) as u8,
        (len / 0x100_0000 % 0x100) as u8,
        (len / 0x1_0000 % 0x100) as u8,
        (len / 0x100 % 0x100) as u8,
        (len % 0x100) as u8,
    ];
    proof {
        lemma_big_endian(header@);
        lemma_bytes_of(len);
    }
    Ok(header)
}

proof fn lemma_bytes_of(len: u64)
    ensures
        len == len / 0x100_0000_0000_0000 * 0x100_0000_0000_0000 + len / 0x1_0000_0000_0000 % 0x100
            * 0x1_0000_0000_0000 + len / 0x100_0000_0000 % 0x100 * 0x100_0000_0000 + len / 0x1_0000_0000 % 0x100
            * 0x1_0000_0000 + len / 0x100_0000 % 0x100 * 0x100_0000 + len / 0x1_0000 % 0x100 * 0x1_0000 + len / 0x100
            % 0x100 * 0x100 + len % 0x100,
        len / 0x100_0000_0000_0000 < 0x100,
{
    let a = len / 0x100;
    let b = len / 0x1_0000;
    let c = len / 0x100_0000;
    let d = len / 0x1_0000_0000;
    let e = len / 0x100_0000_0000;
    let f = len / 0x1_0000_0000_0000;
    let g = len / 0x100_0000_0000_0000;
    assert(len == a * 0x100 + len % 0x100);
    assert(a == b * 0x100 + a % 0x100) by {
        assert(b == a / 0x100);
    }
    assert(b == c * 0x100 + b % 0x100) by {
        assert(c == b / 0x100);
    }
    assert(c == d * 0x100 + c % 0x100) by {
        assert(d == c / 0x100);
    }
    assert(d == e * 0x100 + d % 0x100) by {
        assert(e == d / 0x100);
    }
    assert(e == f * 0x100 + e % 0x100) by {
        assert(f == e / 0x100);
    }
    assert(f == g * 0x100 + f % 0x100) by {
        assert(g == f / 0x100);
    }
}

proof fn lemma_big_endian(bytes: Seq<u8>)
    requires
        bytes.len() == 8,
    ensures
        big_endian(bytes) == bytes[0] * 0x100_0000_0000_0000 + bytes[1] * 0x1_0000_0000_0000 + bytes[2]
            * 0x100_0000_0000 + bytes[3] * 0x1_0000_0000 + bytes[4] * 0x100_0000 + bytes[5] * 0x1_0000 + bytes[6] * 0x100
            + bytes[7],
{
    reveal_with_fuel(big_endian, 9);
    assert(bytes.drop_last() =~= bytes.take(7));
    assert(bytes.take(7).drop_last() =~= bytes.take(6));
    assert(bytes.take(6).drop_last() =~= bytes.take(5));
    assert(bytes.take(5).drop_last() =~= bytes.take(4));
    assert(bytes.take(4).drop_last() =~= bytes.take(3));
    assert(bytes.take(3).drop_last() =~= bytes.take(2));
    assert(bytes.take(2).drop_last() =~= bytes.take(1));
    assert(bytes.take(1).drop_last() =~= bytes.take(0));
}

/// A peer is dropped once it has not been heard of for fifteen seconds, and not before;
/// the membership has a new epoch exactly if one was dropped.
pub proof fn law_silent_peers_are_dropped(m: NodeModel, now: u64, id: NodeID)
    requires
        m.epoch < u64::MAX,
    ensures
        m.pruned(now).peers.contains_key(id) <==> m.peers.contains_key(id) && now < m.peers[id].last_seen + 15_000,
        m.pruned(now).peers.contains_key(id) ==> m.pruned(now).peers[id] == m.peers[id],
        m.peers.contains_key(id) && now >= m.peers[id].last_seen + 15_000 ==> m.pruned(now).epoch == m.epoch + 1,
        (forall|other: NodeID| #[trigger]
            m.peers.contains_key(other) ==> now < m.peers[other].last_seen + 15_000) ==> m.pruned(now).epoch == m.epoch,
        m.pruned(now).id == m.id,
        m.pruned(now).addr == m.addr,
{
    if m.peers.contains_key(id) && now >= m.peers[id].last_seen + 15_000 {
        assert(m.lapsed(id, now));
    }
}

/// A node that is heard of is a peer, under the address that it gave, as of now; the
/// others are as they were. The membership has a new epoch exactly if the node is new or
/// has moved.
pub proof fn law_node_heard_of_is_a_peer(m: NodeModel, id: NodeID, addr: String, now: u64)
    requires
        m.epoch < u64::MAX,
    ensures
        m.heard(id, addr, now).peers == m.peers.insert(id, Peer { addr, last_seen: now }),
        m.peers.contains_key(id) && m.peers[id].addr@ == addr@ ==> m.heard(id, addr, now).epoch == m.epoch,
        !m.peers.contains_key(id) || m.peers[id].addr@ != addr@ ==> m.heard(id, addr, now).epoch == m.epoch + 1,
        m.heard(id, addr, now).id == m.id,
        m.heard(id, addr, now).is_head == m.is_head,
{
}

/// A list that is not older than what is known is taken over: the peers are those in
/// it, but for the node itself, under the last address that it gives for each.
pub proof fn law_membership_is_taken_over(
    m: NodeModel,
    epoch: u64,
    nodes: Seq<(NodeID, String)>,
    now: u64,
    i: int,
    id: NodeID,
)
    requires
        epoch >= m.epoch,
    ensures
        m.followed(epoch, nodes, now).epoch == epoch,
        0 <= i < nodes.len() && nodes[i].0 != m.id && (forall|j: int|
            i < j < nodes.len() ==> (#[trigger] nodes[j]).0 != nodes[i].0) ==> {
            &&& m.followed(epoch, nodes, now).peers.contains_key(nodes[i].0)
            &&& m.followed(epoch, nodes, now).peers[nodes[i].0] == (Peer { addr: nodes[i].1, last_seen: now })
        },
        (forall|j: int| 0 <= j < nodes.len() ==> (#[trigger] nodes[j]).0 != id) ==> !m.followed(
            epoch,
            nodes,
            now,
        ).peers.contains_key(id),
        !m.followed(epoch, nodes, now).peers.contains_key(m.id),
    decreases nodes.len(),
{
    law_not_its_own_peer(nodes, m.id, now);
    if nodes.len() > 0 {
        let rest = nodes.drop_last();
        let last = nodes.len() - 1;
        law_membership_is_taken_over(m, epoch, rest, now, i, id);
        if 0 <= i < nodes.len() && (forall|j: int| i < j < nodes.len() ==> (#[trigger] nodes[j]).0 != nodes[i].0) {
            if i < last {
                assert(rest[i] == nodes[i]);
                assert forall|j: int| i < j < rest.len() implies (#[trigger] rest[j]).0 != rest[i].0 by {
                    assert(nodes[j].0 != nodes[i].0);
                }
                assert(nodes[last].0 != nodes[i].0);
            }
        }
        if forall|j: int| 0 <= j < nodes.len() ==> (#[trigger] nodes[j]).0 != id {
            assert forall|j: int| 0 <= j < rest.len() implies (#[trigger] rest[j]).0 != id by {
                assert(nodes[j].0 != id);
            }
            assert(nodes[last].0 != id);
        }
    }
}

/// A node that reports to the head is answered with the members: itself, under the
/// address that it gave, and the head. A worker does not answer for the membership.
pub proof fn law_head_answers_with_the_members(
    before: NodeModel,
    after: NodeModel,
    present: bool,
    id: NodeID,
    addr: String,
    now: u64,
    step: HandleStep,
    ping: bool,
)
    requires
        handled(
            before,
            after,
            present,
            if ping {
                Message::Ping { id, addr }
            } else {
                Message::RegisterNode { id, addr }
            },
            now,
            step,
        ),
    ensures
        before.is_head ==> {
            &&& step matches HandleStep::Reply(Message::NodeList { epoch, nodes })
            &&& epoch == after.epoch
            &&& exists|i: int| 0 <= i < nodes@.len() && (#[trigger] nodes@[i]).0 == id && nodes@[i].1@ == addr@
            &&& exists|i: int| 0 <= i < nodes@.len() && (#[trigger] nodes@[i]).0 == before.id && nodes@[i].1@
                == before.addr@
            &&& after.peers.contains_key(id)
            &&& after.peers[id].last_seen == now
        },
        !before.is_head ==> after == before && step is Fail,
{
    if before.is_head {
        let nodes = step->Reply_0->NodeList_nodes;
        let rest = nodes@.drop_last();
        let keys = choose|keys: Seq<NodeID>| #[trigger] lists_peers_by(rest, after.peers, keys);
        assert(keys.to_set().contains(id));
        let i = keys.index_of(id);
        assert(rest[i].0 == keys[i]);
        assert(nodes@[i] == rest[i]);
        assert(nodes@[nodes@.len() - 1] == nodes@.last());
    }
}

/// A node that is asked for an object reads it where it has it, and says so where not;
/// a call of an actor is carried out where the actor lives here, and refused where not.
pub proof fn law_node_answers_for_what_it_has(
    before: NodeModel,
    after: NodeModel,
    present: bool,
    message: Message,
    now: u64,
    step: HandleStep,
)
    requires
        handled(before, after, present, message, now, step),
    ensures
        message matches Message::GetObject(id) ==> after == before && (present ==> step == HandleStep::ReadObject(id))
            && (!present ==> step == HandleStep::Reply(Message::ObjectNotFound(id))),
        message matches Message::ActorCall { actor_id, method, args } ==> after == before && (before.actors.contains(
            actor_id,
        ) <==> step == (HandleStep::CallActor { actor_id, method, args })),
        message is GcsSync ==> after == before && step == HandleStep::Reply(Message::Ack),
{
}

/// What another node reports of its objects is on record as that node's, the last word
/// on each counting; nothing else is touched.
pub proof fn law_reported_objects_are_on_record(
    g: GcsModel,
    list: Seq<(ObjectID, usize)>,
    source: NodeID,
    now: u64,
    i: int,
    id: ObjectID,
)
    ensures
        0 <= i < list.len() && (forall|j: int| i < j < list.len() ==> (#[trigger] list[j]).0 != list[i].0) ==> {
            let n = with_objects(g, list, source, now);
            &&& n.objects.contains_key(list[i].0)
            &&& n.objects[list[i].0].size_bytes == list[i].1
            &&& n.objects[list[i].0].owner_node == Some(source)
            &&& n.objects[list[i].0].created_at == now
        },
        (forall|j: int| 0 <= j < list.len() ==> (#[trigger] list[j]).0 != id) ==> {
            let n = with_objects(g, list, source, now);
            &&& n.objects.contains_key(id) <==> g.objects.contains_key(id)
            &&& n.objects[id] == g.objects[id]
        },
        with_objects(g, list, source, now).tasks == g.tasks,
        with_objects(g, list, source, now).actors == g.actors,
    decreases list.len(),
{
    if list.len() > 0 {
        let rest = list.drop_last();
        let last = list.len() - 1;
        law_reported_objects_are_on_record(g, rest, source, now, i, id);
        if 0 <= i < list.len() && (forall|j: int| i < j < list.len() ==> (#[trigger] list[j]).0 != list[i].0) {
            if i < last {
                assert(rest[i] == list[i]);
                assert forall|j: int| i < j < rest.len() implies (#[trigger] rest[j]).0 != rest[i].0 by {
                    assert(list[j].0 != list[i].0);
                }
                assert(list[last].0 != list[i].0);
            }
        }
        if forall|j: int| 0 <= j < list.len() ==> (#[trigger] list[j]).0 != id {
            assert forall|j: int| 0 <= j < rest.len() implies (#[trigger] rest[j]).0 != id by {
                assert(list[j].0 != id);
            }
            assert(list[last].0 != id);
        }
    }
}

/// What another node reports of an actor changes the state of one that is on record,
/// and puts one that is not on record, as its owner's or else the reporting node's.
pub proof fn law_reported_actor_is_on_record(
    g: GcsModel,
    actor: (ActorID, String, ActorState, Option<NodeID>),
    source: NodeID,
    now: u64,
)
    ensures
        ({
            let n = with_actor(g, actor, source, now);
            &&& n.actors.contains_key(actor.0)
            &&& n.actors[actor.0].state == actor.2
            &&& g.actors.contains_key(actor.0) ==> n.actors[actor.0] == (ActorMeta {
                state: actor.2,
                ..g.actors[actor.0]
            })
            &&& !g.actors.contains_key(actor.0) ==> {
                &&& n.actors[actor.0].id == actor.0
                &&& n.actors[actor.0].name == actor.1
                &&& actor.3 is Some ==> n.actors[actor.0].owner_node == actor.3
                &&& actor.3 is None ==> n.actors[actor.0].owner_node == Some(source)
                &&& n.actors[actor.0].pending_tasks == 0
                &&& n.actors[actor.0].completed_tasks == 0
            }
            &&& n == GcsModel { actors: g.actors.insert(actor.0, n.actors[actor.0]), ..g }
        }),
{
}

proof fn lemma_own_sizes(metas: Seq<ObjectMeta>, own: NodeID, id: ObjectID, size: usize)
    ensures
        own_sizes(metas, own).contains((id, size)) <==> exists|i: int|
            0 <= i < metas.len() && (#[trigger] metas[i]).id == id && metas[i].size_bytes == size && (
            metas[i].owner_node is None || metas[i].owner_node == Some(own)),
    decreases metas.len(),
{
    let list = own_sizes(metas, own);
    if metas.len() > 0 {
        let rest = metas.drop_last();
        let last = metas.last();
        lemma_own_sizes(rest, own, id, size);
        let sizes = own_sizes(rest, own);
        crate::coordinator::lemma_push_contains(sizes, (last.id, last.size_bytes));
        if exists|i: int|
            0 <= i < metas.len() && (#[trigger] metas[i]).id == id && metas[i].size_bytes == size && (
            metas[i].owner_node is None || metas[i].owner_node == Some(own)) {
            let i = choose|i: int|
                0 <= i < metas.len() && (#[trigger] metas[i]).id == id && metas[i].size_bytes == size && (
                metas[i].owner_node is None || metas[i].owner_node == Some(own));
            if i < rest.len() {
                assert(rest[i] == metas[i]);
            }
        }
        if exists|i: int|
            0 <= i < rest.len() && (#[trigger] rest[i]).id == id && rest[i].size_bytes == size && (
            rest[i].owner_node is None || rest[i].owner_node == Some(own)) {
            let i = choose|i: int|
                0 <= i < rest.len() && (#[trigger] rest[i]).id == id && rest[i].size_bytes == size && (
                rest[i].owner_node is None || rest[i].owner_node == Some(own));
            assert(metas[i] == rest[i]);
        }
        assert(metas[metas.len() - 1] == last);
    }
}

/// A node reports exactly the objects that are its own, or that nobody is known to own,
/// each with its size.
pub proof fn law_node_reports_its_own_objects(
    list: Seq<(ObjectID, usize)>,
    g: GcsModel,
    own: NodeID,
    id: ObjectID,
    size: usize,
)
    requires
        g.wf(),
        own_objects(list, g, own),
    ensures
        list.contains((id, size)) <==> g.objects.contains_key(id) && g.objects[id].size_bytes == size && (
        g.objects[id].owner_node is None || g.objects[id].owner_node == Some(own)),
{
    let metas = choose|metas: Seq<ObjectMeta>| #[trigger]
        crate::gcs::lists(g.objects, metas) && list == own_sizes(metas, own);
    let keys = choose|keys: Seq<ObjectID>| #[trigger] crate::gcs::lists_by(g.objects, keys, metas);
    lemma_own_sizes(metas, own, id, size);
    if g.objects.contains_key(id) {
        assert(keys.to_set().contains(id));
        let i = keys.index_of(id);
        assert(metas[i] == g.objects[keys[i]]);
    }
    if list.contains((id, size)) {
        let i = choose|i: int|
            0 <= i < metas.len() && (#[trigger] metas[i]).id == id && metas[i].size_bytes == size && (
            metas[i].owner_node is None || metas[i].owner_node == Some(own));
        assert(metas[i] == g.objects[keys[i]]);
        assert(keys.to_set().contains(keys[i]));
        assert(g.objects.contains_key(keys[i]));
    }
}

/// The length of a message is read back from its header, up to 8 GiB; no longer message
/// is sent or taken.
pub proof fn law_message_length_is_read_back(len: u64, header: Result<[u8; 8], String>, read: Result<u64, String>)
    requires
        call_ensures(message_header, (len,), header),
        header is Ok ==> call_ensures(message_len, (header->Ok_0,), read),
    ensures
        header is Ok <==> len <= 8_589_934_592,
        header is Ok ==> read == Ok::<u64, String>(len),
{
}

/// A peer's answer is taken only for the object that was asked for.
pub proof fn law_only_the_asked_object_is_taken(id: ObjectID, reply: Message, r: Result<Vec<u8>, String>)
    requires
        call_ensures(remote_object_result, (id, reply), r),
    ensures
        r is Ok <==> (reply matches Message::ObjectData(found, bytes) && found == id),
        reply matches Message::ObjectData(found, bytes) ==> (found == id ==> r == Ok::<Vec<u8>, String>(bytes)),
{
}

/// A request to a peer is tried once more while there is time, and up to sixteen idle
/// connections to each peer are kept.
pub proof fn law_peer_requests(first: bool, now: u64, deadline: u64, again: bool, idle: usize, kept: bool)
    requires
        call_ensures(retries_request, (first, now, deadline), again),
        call_ensures(keeps_idle, (idle,), kept),
    ensures
        again <==> first && now < deadline,
        kept <==> idle < 16,
{
}

proof fn lemma_with_tasks_keeps(g: GcsModel, list: Seq<(TaskID, TaskState)>, now: u64)
    ensures
        with_tasks(g, list, now) == (GcsModel { tasks: with_tasks(g, list, now).tasks, ..g }),
    decreases list.len(),
{
    if list.len() > 0 {
        lemma_with_tasks_keeps(g, list.drop_last(), now);
    }
}

/// The task that was reported last is on record in the state reported, and one that is
/// not over is always kept. Nothing but tasks is put on record with them.
pub proof fn law_reported_tasks_are_on_record(g: GcsModel, list: Seq<(TaskID, TaskState)>, now: u64)
    requires
        list.len() > 0,
    ensures
        ({
            let n = with_tasks(g, list, now);
            let (id, state) = list.last();
            &&& !state.is_over() ==> n.tasks.contains_key(id)
            &&& n.tasks.contains_key(id) ==> n.tasks[id] == (TaskMeta {
                id,
                state,
                created_at: now,
                finished_at: None,
                output: None,
            })
            &&& n.objects == g.objects
            &&& n.actors == g.actors
            &&& n.workers == g.workers
        }),
{
    lemma_with_tasks_keeps(g, list, now);
}

proof fn lemma_own_states(metas: Seq<ActorMeta>, own: NodeID, id: ActorID)
    ensures
        (exists|j: int| 0 <= j < own_states(metas, own).len() && (#[trigger] own_states(metas, own)[j]).0 == id) <==> (
        exists|i: int|
            0 <= i < metas.len() && (#[trigger] metas[i]).id == id && (metas[i].owner_node is None
                || metas[i].owner_node == Some(own))),
        forall|j: int| 0 <= j < own_states(metas, own).len() ==> exists|i: int|
            0 <= i < metas.len() && (#[trigger] metas[i]).id == (#[trigger] own_states(metas, own)[j]).0
                && metas[i].name == own_states(metas, own)[j].1 && metas[i].state == own_states(metas, own)[j].2
                && metas[i].owner_node == own_states(metas, own)[j].3,
    decreases metas.len(),
{
    if metas.len() > 0 {
        let rest = metas.drop_last();
        let last = metas.last();
        let less = own_states(rest, own);
        let all = own_states(metas, own);
        lemma_own_states(rest, own, id);
        assert(metas[metas.len() - 1] == last);
        assert forall|i: int| 0 <= i < rest.len() implies #[trigger] rest[i] == metas[i] by {}
        assert forall|j: int| 0 <= j < all.len() implies exists|i: int|
            0 <= i < metas.len() && (#[trigger] metas[i]).id == (#[trigger] all[j]).0 && metas[i].name == all[j].1
                && metas[i].state == all[j].2 && metas[i].owner_node == all[j].3 by {
            if j < less.len() {
                assert(all[j] == less[j]);
                let i = choose|i: int|
                    0 <= i < rest.len() && (#[trigger] rest[i]).id == less[j].0 && rest[i].name == less[j].1
                        && rest[i].state == less[j].2 && rest[i].owner_node == less[j].3;
                assert(metas[i] == rest[i]);
            } else {
                assert(metas[metas.len() - 1].id == all[j].0);
            }
        }
        if exists|i: int|
            0 <= i < metas.len() && (#[trigger] metas[i]).id == id && (metas[i].owner_node is None
                || metas[i].owner_node == Some(own)) {
            let i = choose|i: int|
                0 <= i < metas.len() && (#[trigger] metas[i]).id == id && (metas[i].owner_node is None
                    || metas[i].owner_node == Some(own));
            if i < rest.len() {
                assert(rest[i] == metas[i]);
                let j = choose|j: int| 0 <= j < less.len() && (#[trigger] less[j]).0 == id;
                assert(all[j] == less[j]);
            } else {
                assert(all[all.len() - 1].0 == id);
            }
        }
        if exists|j: int| 0 <= j < all.len() && (#[trigger] all[j]).0 == id {
            let j = choose|j: int| 0 <= j < all.len() && (#[trigger] all[j]).0 == id;
            if j < less.len() {
                assert(less[j] == all[j]);
                let i = choose|i: int|
                    0 <= i < rest.len() && (#[trigger] rest[i]).id == id && (rest[i].owner_node is None
                        || rest[i].owner_node == Some(own));
                assert(metas[i] == rest[i]);
            }
        }
    }
}

/// A node reports exactly the actors that are its own, or that nobody is known to own,
/// each as it is on record.
pub proof fn law_node_reports_its_own_actors(
    list: Seq<(ActorID, String, ActorState, Option<NodeID>)>,
    g: GcsModel,
    own: NodeID,
    id: ActorID,
)
    requires
        g.wf(),
        own_actors(list, g, own),
    ensures
        (exists|j: int| 0 <= j < list.len() && (#[trigger] list[j]).0 == id) <==> g.actors.contains_key(id) && (
        g.actors[id].owner_node is None || g.actors[id].owner_node == Some(own)),
        forall|j: int| 0 <= j < list.len() ==> {
            let reported = #[trigger] list[j];
            &&& g.actors.contains_key(reported.0)
            &&& reported.1 == g.actors[reported.0].name
            &&& reported.2 == g.actors[reported.0].state
            &&& reported.3 == g.actors[reported.0].owner_node
        },
{
    let metas = choose|metas: Seq<ActorMeta>| #[trigger]
        crate::gcs::lists(g.actors, metas) && list == own_states(metas, own);
    let keys = choose|keys: Seq<ActorID>| #[trigger] crate::gcs::lists_by(g.actors, keys, metas);
    lemma_own_states(metas, own, id);
    assert forall|i: int| 0 <= i < metas.len() implies g.actors.contains_key((#[trigger] metas[i]).id) && metas[i]
        == g.actors[metas[i].id] by {
        assert(metas[i] == g.actors[keys[i]]);
        assert(keys.to_set().contains(keys[i]));
        assert(g.actors.contains_key(keys[i]));
    }
    if g.actors.contains_key(id) {
        assert(keys.to_set().contains(id));
        let i = keys.index_of(id);
        assert(metas[i] == g.actors[keys[i]]);
    }
}

/// A node reports every task on record, each once and in its state.
pub proof fn law_node_reports_every_task(list: Seq<(TaskID, TaskState)>, g: GcsModel, id: TaskID, state: TaskState)
    requires
        g.wf(),
        all_tasks(list, g),
    ensures
        list.contains((id, state)) <==> g.tasks.contains_key(id) && g.tasks[id].state == state,
        list.no_duplicates(),
{
    let metas = choose|metas: Seq<TaskMeta>| #[trigger] crate::gcs::lists(g.tasks, metas) && states_of(list, metas);
    let keys = choose|keys: Seq<TaskID>| #[trigger] crate::gcs::lists_by(g.tasks, keys, metas);
    assert forall|i: int| 0 <= i < list.len() implies #[trigger] list[i] == (keys[i], g.tasks[keys[i]].state)
        && g.tasks.contains_key(keys[i]) by {
        assert(metas[i] == g.tasks[keys[i]]);
        assert(keys.to_set().contains(keys[i]));
        assert(g.tasks.contains_key(keys[i]));
    }
    if g.tasks.contains_key(id) {
        assert(keys.to_set().contains(id));
        let i = keys.index_of(id);
        assert(list[i] == (keys[i], g.tasks[keys[i]].state));
    }
}

} // verus!
