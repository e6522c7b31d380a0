//! The object store of one process: counted references to generations of
//! objects, outputs that producers owe, and spilling to disk.
//!
//! Every time an id is given new content it gets a new generation, and whoever
//! holds an older one can no longer change anything. File access, locks and
//! waiting are left to the caller: an operation hands back which objects are to
//! be written out and which file is stale, and a read that has to wait, to load a
//! file or to ask another node is a value that says so.
use bytes::Bytes;
use vstd::prelude::*;

use crate::common::{CrayonError, FaultModel, ObjectID, ObjectRef, TaskID};
use crate::gcs::{Gcs, GcsModel, ObjectMeta};
use crate::memory::{law_restored_keeps_accounts, Eviction, MemoryManager, MemoryModel};
use crate::node::NodeID;
use crate::sums::{lemma_sum_ends, lemma_sum_next, sum, sum_over};
use crate::table::Table;

verus! {

/// Shared bytes.
#[verifier::external_type_specification]
#[verifier::external_body]
pub struct ExBytes(bytes::Bytes);

/// The content of shared bytes.
pub uninterp spec fn held_bytes(bytes: bytes::Bytes) -> Seq<u8>;

/// Calls `bytes::Bytes::from` on a vector. The bytes are those of the vector.
#[verifier::external_body]
fn hold(bytes: Vec<u8>) -> (r: Bytes)
    ensures
        held_bytes(r) == bytes@,
{
    Bytes::from(bytes)
}

/// Calls `bytes::Bytes::clone`. Both have the same content.
#[verifier::external_body]
fn hold_too(bytes: &Bytes) -> (r: Bytes)
    ensures
        held_bytes(r) == held_bytes(*bytes),
{
    bytes.clone()
}

/// What is known of an object's content. `L` is what a caller keeps in the store
/// without turning it into bytes.
#[derive(Debug)]
pub enum EntryState<L> {
    Pending,
    Bytes(Bytes),
    Local(L),
    /// Being written out.
    Spilling,
    /// In its spill file.
    Spilled,
    Failed(CrayonError),
}

/// The view of an [`EntryState`].
pub enum StateModel<L> {
    Pending,
    Bytes(Seq<u8>),
    Local(L),
    Spilling,
    Spilled,
    Failed(FaultModel),
}

impl<L> View for EntryState<L> {
    type V = StateModel<L>;

    open spec fn view(&self) -> StateModel<L> {
        match *self {
            EntryState::Pending => StateModel::Pending,
            EntryState::Bytes(bytes) => StateModel::Bytes(held_bytes(bytes)),
            EntryState::Local(value) => StateModel::Local(value),
            EntryState::Spilling => StateModel::Spilling,
            EntryState::Spilled => StateModel::Spilled,
            EntryState::Failed(error) => StateModel::Failed(error@),
        }
    }
}

/// One generation of an object.
#[derive(Debug)]
struct Entry<L> {
    generation: u64,
    state: EntryState<L>,
    /// Counts the changes of the state, for those who wait for one.
    version: u64,
    refcount: usize,
    producers: usize,
    pins: usize,
    owner_node: Option<NodeID>,
    size_bytes: usize,
}

/// The view of an entry of the store.
pub struct EntryModel<L> {
    pub generation: u64,
    pub state: StateModel<L>,
    pub version: u64,
    pub refcount: usize,
    pub producers: usize,
    pub pins: usize,
    pub owner_node: Option<NodeID>,
    pub size: usize,
}

impl<L> View for Entry<L> {
    type V = EntryModel<L>;

    closed spec fn view(&self) -> EntryModel<L> {
        EntryModel {
            generation: self.generation,
            state: self.state@,
            version: self.version,
            refcount: self.refcount,
            producers: self.producers,
            pins: self.pins,
            owner_node: self.owner_node,
            size: self.size_bytes,
        }
    }
}

pub open spec fn next_version(version: u64) -> u64 {
    if version == u64::MAX {
        0
    } else {
        (version + 1) as u64
    }
}

impl<L> EntryModel<L> {
    /// The state changed, and those who wait are told.
    pub open spec fn turned(self, state: StateModel<L>) -> EntryModel<L> {
        EntryModel { state, version: next_version(self.version), ..self }
    }

    /// Nothing keeps this generation any more.
    pub open spec fn unused(self) -> bool {
        self.refcount == 0 && self.producers == 0 && self.pins == 0
    }

    /// There is content.
    pub open spec fn present(self) -> bool {
        self.state is Bytes || self.state is Local || self.state is Spilling || self.state is Spilled
    }
}

/// An object that is to be written to its spill file.
#[derive(Debug)]
pub struct SpillJob {
    pub id: ObjectID,
    pub generation: u64,
    pub size: usize,
    pub bytes: Bytes,
}

/// The view of a [`SpillJob`].
pub struct JobModel {
    pub id: ObjectID,
    pub generation: u64,
    pub size: usize,
    pub bytes: Seq<u8>,
}

impl View for SpillJob {
    type V = JobModel;

    open spec fn view(&self) -> JobModel {
        JobModel { id: self.id, generation: self.generation, size: self.size, bytes: held_bytes(self.bytes) }
    }
}

pub open spec fn jobs_model(jobs: Seq<SpillJob>) -> Seq<JobModel> {
    jobs.map_values(|job: SpillJob| job@)
}

/// What the caller has to do on disk after an operation.
#[derive(Debug)]
pub struct Aftermath {
    /// The spill file of this generation, if there is one, is to be deleted.
    pub stale: Option<(ObjectID, u64)>,
    pub spills: Vec<SpillJob>,
}

/// The view of a store.
#[verifier::reject_recursive_types(L)]
#[verifier::ext_equal]
pub struct StoreModel<L> {
    pub entries: Map<ObjectID, EntryModel<L>>,
    pub next_generation: u64,
    pub mem: Option<MemoryModel>,
    pub gcs: Option<GcsModel>,
}

impl<L> StoreModel<L> {
    pub open spec fn holds(self, id: ObjectID, generation: u64) -> bool {
        self.entries.contains_key(id) && self.entries[id].generation == generation
    }

    /// Generations are given out once; the accounts are in order.
    pub open spec fn wf(self) -> bool {
        &&& self.entries.dom().finite()
        &&& forall|id: ObjectID| #[trigger]
            self.entries.contains_key(id) ==> self.entries[id].generation < self.next_generation
        &&& self.mem is Some ==> self.mem->0.wf()
        &&& self.gcs is Some ==> self.gcs->0.wf()
    }

    pub open spec fn with_entry(self, id: ObjectID, entry: EntryModel<L>) -> StoreModel<L> {
        StoreModel { entries: self.entries.insert(id, entry), ..self }
    }

    /// A generation is gone from the accounts.
    pub open spec fn unaccounted(self, id: ObjectID, generation: u64) -> StoreModel<L> {
        StoreModel {
            mem: match self.mem {
                Some(mem) => Some(mem.removed(id, generation)),
                None => None,
            },
            ..self
        }
    }

    pub open spec fn published(self, id: ObjectID, size: usize, owner_node: Option<NodeID>, now: u64) -> StoreModel<L> {
        StoreModel {
            gcs: match self.gcs {
                Some(gcs) => Some(
                    GcsModel {
                        objects: gcs.objects.insert(
                            id,
                            ObjectMeta { id, size_bytes: size, created_at: now, owner: None, owner_node },
                        ),
                        ..gcs
                    },
                ),
                None => None,
            },
            ..self
        }
    }

    /// The object is counted as resident; what is chosen for that is not spilled
    /// yet.
    pub open spec fn accounted(self, id: ObjectID, generation: u64, size: usize) -> StoreModel<L> {
        StoreModel {
            mem: match self.mem {
                Some(mem) => Some(mem.stored(id, generation, size).trimmed()),
                None => None,
            },
            ..self
        }
    }

    /// What is chosen when the object is counted.
    pub open spec fn choices(self, id: ObjectID, generation: u64, size: usize) -> Seq<Eviction> {
        match self.mem {
            Some(mem) => mem.stored(id, generation, size).chosen(),
            None => Seq::empty(),
        }
    }

    /// A chosen object is still what it was, and its bytes can be written out.
    pub open spec fn can_spill(self, eviction: Eviction) -> bool {
        self.holds(eviction.id, eviction.generation) && self.entries[eviction.id].state is Bytes
    }

    pub open spec fn begin(self, eviction: Eviction) -> StoreModel<L> {
        if self.can_spill(eviction) {
            self.with_entry(eviction.id, self.entries[eviction.id].turned(StateModel::Spilling))
        } else {
            self
        }
    }

    /// The chosen objects are being written out.
    pub open spec fn begun(self, list: Seq<Eviction>) -> StoreModel<L>
        decreases list.len(),
    {
        if list.len() == 0 {
            self
        } else {
            self.begun(list.drop_last()).begin(list.last())
        }
    }

    /// What is to be written out.
    pub open spec fn jobs(self, list: Seq<Eviction>) -> Seq<JobModel>
        decreases list.len(),
    {
        if list.len() == 0 {
            Seq::empty()
        } else {
            let before = self.begun(list.drop_last());
            let last = list.last();
            if before.can_spill(last) {
                self.jobs(list.drop_last()).push(
                    JobModel {
                        id: last.id,
                        generation: last.generation,
                        size: last.size,
                        bytes: before.entries[last.id].state->Bytes_0,
                    },
                )
            } else {
                self.jobs(list.drop_last())
            }
        }
    }

    /// A new generation took the place of what was under the id.
    pub open spec fn renewed(self, id: ObjectID, entry: EntryModel<L>) -> StoreModel<L> {
        let next = StoreModel { next_generation: (self.next_generation + 1) as u64, ..self.with_entry(id, entry) };
        if self.entries.contains_key(id) {
            next.unaccounted(id, self.entries[id].generation)
        } else {
            next
        }
    }

    /// A new generation is in place, published and counted.
    pub open spec fn placed(self, id: ObjectID, entry: EntryModel<L>, now: u64) -> StoreModel<L> {
        let next = self.renewed(id, entry);
        if entry.size > 0 {
            let known = next.published(id, entry.size, entry.owner_node, now);
            if entry.state is Bytes {
                known.accounted(id, entry.generation, entry.size)
            } else {
                known
            }
        } else {
            next
        }
    }

    pub open spec fn placing(self, id: ObjectID, entry: EntryModel<L>) -> Seq<Eviction> {
        if entry.size > 0 && entry.state is Bytes {
            self.renewed(id, entry).choices(id, entry.generation, entry.size)
        } else {
            Seq::empty()
        }
    }

    pub open spec fn new_entry(
        self,
        state: StateModel<L>,
        size: usize,
        producers: usize,
        owner_node: Option<NodeID>,
    ) -> EntryModel<L> {
        EntryModel {
            generation: self.next_generation,
            state,
            version: 0,
            refcount: 0,
            producers,
            pins: 0,
            owner_node,
            size,
        }
    }

    /// There is room for one more generation and for `size` more bytes.
    pub open spec fn has_room(self, size: usize) -> bool {
        &&& self.next_generation < u64::MAX
        &&& self.mem is Some ==> self.mem->0.total + size <= usize::MAX
    }

    /// There is room for values to be stored one after the other.
    pub open spec fn has_room_for(self, values: Seq<Vec<u8>>) -> bool {
        &&& self.next_generation + values.len() <= u64::MAX
        &&& self.mem is Some ==> self.mem->0.total + bytes_in(values) <= usize::MAX
    }

    /// A generation is gone: from the store, the accounts and the records.
    pub open spec fn dropped(self, id: ObjectID, generation: u64) -> StoreModel<L> {
        if self.holds(id, generation) {
            let next = StoreModel { entries: self.entries.remove(id), ..self }.unaccounted(id, generation);
            StoreModel {
                gcs: match next.gcs {
                    Some(gcs) => Some(GcsModel { objects: gcs.objects.remove(id), ..gcs }),
                    None => None,
                },
                ..next
            }
        } else {
            self
        }
    }

    pub open spec fn dropped_if_unused(self, id: ObjectID) -> StoreModel<L> {
        if self.entries[id].unused() {
            self.dropped(id, self.entries[id].generation)
        } else {
            self
        }
    }
}

/// Whoever holds an older generation can drop nothing.
pub proof fn law_older_generation_drops_nothing<L>(s: StoreModel<L>, id: ObjectID, generation: u64)
    requires
        !s.holds(id, generation),
    ensures
        s.dropped(id, generation) == s,
{
}

/// New content gets a generation that no earlier holder can have.
pub proof fn law_generations_are_new<L>(s: StoreModel<L>, id: ObjectID, entry: EntryModel<L>, other: ObjectID)
    requires
        s.wf(),
        entry.generation == s.next_generation,
        s.next_generation < u64::MAX,
        s.entries.contains_key(other),
    ensures
        s.entries[other].generation < entry.generation,
        s.renewed(id, entry).next_generation > entry.generation,
{
}

proof fn lemma_begin<L>(s: StoreModel<L>, eviction: Eviction)
    requires
        s.wf(),
    ensures
        s.begin(eviction).wf(),
        s.begin(eviction).mem == s.mem,
        s.begin(eviction).gcs == s.gcs,
        s.begin(eviction).next_generation == s.next_generation,
        s.begin(eviction).entries.dom() == s.entries.dom(),
{
    assert(s.begin(eviction).entries.dom() =~= s.entries.dom());
}

/// Writing objects out changes nothing but the state of those objects, and no
/// byte is lost: what leaves memory is what is to be written.
pub proof fn law_spilling_keeps_the_rest<L>(s: StoreModel<L>, list: Seq<Eviction>, id: ObjectID)
    requires
        s.wf(),
        s.entries.contains_key(id),
    ensures
        s.begun(list).wf(),
        s.begun(list).mem == s.mem,
        s.begun(list).gcs == s.gcs,
        s.begun(list).next_generation == s.next_generation,
        s.begun(list).entries.dom() == s.entries.dom(),
        ({
            let before = s.entries[id];
            let after = s.begun(list).entries[id];
            ||| after == before
            ||| {
                &&& before.state is Bytes
                &&& after.state is Spilling
                &&& after.generation == before.generation
                &&& after.refcount == before.refcount
                &&& after.producers == before.producers
                &&& after.pins == before.pins
                &&& after.size == before.size
                &&& exists|i: int|
                    0 <= i < s.jobs(list).len() && (#[trigger] s.jobs(list)[i]).id == id && s.jobs(list)[i].generation
                        == before.generation && s.jobs(list)[i].bytes == before.state->Bytes_0
            }
        }),
    decreases list.len(),
{
    if list.len() > 0 {
        let rest = list.drop_last();
        law_spilling_keeps_the_rest(s, rest, id);
        lemma_begin(s.begun(rest), list.last());
        let mid = s.begun(rest).entries[id];
        if mid != s.entries[id] {
            let i = choose|i: int|
                0 <= i < s.jobs(rest).len() && (#[trigger] s.jobs(rest)[i]).id == id && s.jobs(rest)[i].generation
                    == s.entries[id].generation && s.jobs(rest)[i].bytes == s.entries[id].state->Bytes_0;
            assert(s.jobs(list)[i] == s.jobs(rest)[i]);
        } else if s.begun(list).entries[id] != mid {
            let i = s.jobs(rest).len() as int;
            assert(s.jobs(list)[i].id == id);
        }
    }
}

proof fn lemma_begun<L>(s: StoreModel<L>, list: Seq<Eviction>)
    requires
        s.wf(),
    ensures
        s.begun(list).wf(),
        s.begun(list).mem == s.mem,
        s.begun(list).gcs == s.gcs,
        s.begun(list).next_generation == s.next_generation,
    decreases list.len(),
{
    if list.len() > 0 {
        lemma_begun(s, list.drop_last());
        lemma_begin(s.begun(list.drop_last()), list.last());
    }
}

/// The objects of one process.
#[verifier::reject_recursive_types(L)]
#[derive(Debug)]
pub struct ObjectStore<L> {
    map: Table<ObjectID, Entry<L>>,
    next_generation: u64,
    mem: Option<MemoryManager>,
    gcs: Option<Gcs>,
}

impl<L> View for ObjectStore<L> {
    type V = StoreModel<L>;

    closed spec fn view(&self) -> StoreModel<L> {
        StoreModel {
            entries: self.map@,
            next_generation: self.next_generation,
            mem: match self.mem {
                Some(mem) => Some(mem@),
                None => None,
            },
            gcs: match self.gcs {
                Some(gcs) => Some(gcs@),
                None => None,
            },
        }
    }
}

fn bump(version: u64) -> (r: u64)
    ensures
        r == next_version(version),
{
    if version == u64::MAX {
        0
    } else {
        version + 1
    }
}

impl<L> ObjectStore<L> {
    pub closed spec fn tables_ok(&self) -> bool {
        &&& self.map.wf()
        &&& self.mem is Some ==> self.mem->0.wf()
        &&& self.gcs is Some ==> self.gcs->0.wf()
    }

    pub open spec fn wf(&self) -> bool {
        self.tables_ok() && self@.wf()
    }

    /// An empty store, without a memory budget and without records.
    pub fn new() -> (r: Self)
        ensures
            r.wf(),
            r@ == (StoreModel::<L> { entries: Map::empty(), next_generation: 1, mem: None, gcs: None }),
    {
        let r: ObjectStore<L> = ObjectStore { map: Table::new(), next_generation: 1, mem: None, gcs: None };
        proof {
            r.map.lemma_keys();
        }
        r
    }

    /// Keeps what is resident within a budget.
    pub fn with_memory(self, mem: MemoryManager) -> (r: Self)
        requires
            self.wf(),
            mem.wf(),
        ensures
            r.wf(),
            r@ == (StoreModel { mem: Some(mem@), ..self@ }),
    {
        let mut store = self;
        store.mem = Some(mem);
        store
    }

    /// Keeps records of the objects.
    pub fn with_gcs(self, gcs: Gcs) -> (r: Self)
        requires
            self.wf(),
            gcs.wf(),
        ensures
            r.wf(),
            r@ == (StoreModel { gcs: Some(gcs@), ..self@ }),
    {
        let mut store = self;
        store.gcs = Some(gcs);
        store
    }

    fn begin_spill(&mut self, eviction: Eviction) -> (r: Option<SpillJob>)
        requires
            old(self).wf(),
        ensures
            final(self).wf(),
            final(self)@ == old(self)@.begin(eviction),
            match r {
                Some(job) => {
                    &&& old(self)@.can_spill(eviction)
                    &&& job.id == eviction.id
                    &&& job.generation == eviction.generation
                    &&& job.size == eviction.size
                    &&& held_bytes(job.bytes) == old(self)@.entries[eviction.id].state->Bytes_0
                },
                None => !old(self)@.can_spill(eviction),
            },
    {
        let ghost before = self@;
        proof {
            lemma_begin(before, eviction);
        }
        let mut r: Option<SpillJob> = None;
        if let Some(entry) = self.map.get_mut(&eviction.id) {
            if entry.generation == eviction.generation {
                let found = match &entry.state {
                    EntryState::Bytes(bytes) => Some(hold_too(bytes)),
                    _ => None,
                };
                if let Some(bytes) = found {
                    entry.state = EntryState::Spilling;
                    entry.version = bump(entry.version);
                    r = Some(
                        SpillJob {
                            id: eviction.id,
                            generation: eviction.generation,
                            size: eviction.size,
                            bytes,
                        },
                    );
                }
            }
        }
        assert(self@ =~= before.begin(eviction));
        r
    }

    fn begin_spills(&mut self, list: Vec<Eviction>) -> (r: Vec<SpillJob>)
        requires
            old(self).wf(),
        ensures
            final(self).wf(),
            final(self)@ == old(self)@.begun(list@),
            jobs_model(r@) == old(self)@.jobs(list@),
    {
        let ghost before = self@;
        let mut jobs: Vec<SpillJob> = Vec::new();
        let mut i: usize = 0;
        assert(list@.take(0) =~= Seq::<Eviction>::empty());
        assert(jobs_model(jobs@) =~= before.jobs(list@.take(0)));
        while i < list.len()
            invariant
                self.wf(),
                i <= list@.len(),
                self@ == before.begun(list@.take(i as int)),
                jobs_model(jobs@) == before.jobs(list@.take(i as int)),
            decreases list@.len() - i,
        {
            let ghost so_far = jobs@;
            assert(list@.take(i + 1).drop_last() =~= list@.take(i as int));
            if let Some(job) = self.begin_spill(list[i]) {
                jobs.push(job);
                assert(jobs_model(jobs@) =~= jobs_model(so_far).push(job@));
            }
            i += 1;
        }
        assert(list@.take(i as int) =~= list@);
        jobs
    }

    fn forget_memory(&mut self, id: ObjectID, generation: u64) -> (r: Option<(ObjectID, u64)>)
        requires
            old(self).wf(),
        ensures
            final(self).wf(),
            final(self)@ == old(self)@.unaccounted(id, generation),
            r == if old(self)@.mem is Some {
                Some((id, generation))
            } else {
                None
            },
    {
        let ghost before = self@;
        let mut r: Option<(ObjectID, u64)> = None;
        if let Some(mem) = &mut self.mem {
            mem.remove(id, generation);
            r = Some((id, generation));
        }
        assert(self@ =~= before.unaccounted(id, generation));
        r
    }

    fn publish_metadata(&mut self, id: ObjectID, size: usize, owner_node: Option<NodeID>, now: u64)
        requires
            old(self).wf(),
        ensures
            final(self).wf(),
            final(self)@ == old(self)@.published(id, size, owner_node, now),
    {
        let ghost before = self@;
        if let Some(gcs) = &mut self.gcs {
            gcs.add_object(ObjectMeta { id, size_bytes: size, created_at: now, owner: None, owner_node });
        }
        assert(self@ =~= before.published(id, size, owner_node, now));
    }

    fn record_memory(&mut self, id: ObjectID, generation: u64, size: usize) -> (r: Vec<Eviction>)
        requires
            old(self).wf(),
            old(self)@.mem is Some ==> old(self)@.mem->0.stored(id, generation, size).total <= usize::MAX,
        ensures
            final(self).wf(),
            final(self)@ == old(self)@.accounted(id, generation, size),
            r@ == old(self)@.choices(id, generation, size),
    {
        let ghost before = self@;
        let mut r: Vec<Eviction> = Vec::new();
        if let Some(mem) = &mut self.mem {
            r = mem.record_put(id, generation, size);
        }
        assert(self@ =~= before.accounted(id, generation, size));
        assert(r@ =~= before.choices(id, generation, size));
        r
    }

    /// Puts a new generation under an id.
    fn replace_entry(
        &mut self,
        id: ObjectID,
        owner_node: Option<NodeID>,
        state: EntryState<L>,
        size: usize,
        producers: usize,
        now: u64,
    ) -> (r: (u64, Aftermath))
        requires
            old(self).wf(),
            old(self)@.has_room(size),
        ensures
            final(self).wf(),
            r.0 == old(self)@.next_generation,
            replaced_met(
                old(self)@,
                final(self)@,
                id,
                old(self)@.new_entry(state@, size, producers, owner_node),
                now,
                r.1,
            ),
    {
        let ghost before = self@;
        let ghost made = before.new_entry(state@, size, producers, owner_node);
        let generation: u64 = self.next_generation;
        let in_memory = matches!(&state, EntryState::Bytes(_));
        self.next_generation = generation + 1;
        let entry = Entry {
            generation,
            state,
            version: 0,
            refcount: 0,
            producers,
            pins: 0,
            owner_node,
            size_bytes: size,
        };
        let previous = self.map.insert(id, entry);
        proof {
            self.map.lemma_keys();
        }
        let mut stale: Option<(ObjectID, u64)> = None;
        if let Some(previous) = previous {
            stale = self.forget_memory(id, previous.generation);
        }
        assert(self@ =~= before.renewed(id, made));
        let mut spills: Vec<SpillJob> = Vec::new();
        if size > 0 {
            self.publish_metadata(id, size, owner_node, now);
            if in_memory {
                let chosen = self.record_memory(id, generation, size);
                let ghost placed = self@;
                spills = self.begin_spills(chosen);
                assert(self@ == placed.begun(chosen@));
            }
        }
        assert(before.placing(id, made).len() == 0 ==> jobs_model(spills@) =~= Seq::<JobModel>::empty());
        (generation, Aftermath { stale, spills })
    }

    /// Stores bytes under an id.
    pub fn put_bytes(&mut self, id: ObjectID, bytes: Vec<u8>, owner_node: Option<NodeID>, now: u64) -> (r: Aftermath)
        requires
            old(self).wf(),
            old(self)@.has_room(bytes@.len() as usize),
        ensures
            final(self).wf(),
            replaced_met(
                old(self)@,
                final(self)@,
                id,
                old(self)@.new_entry(StateModel::Bytes(bytes@), bytes@.len() as usize, 0, owner_node),
                now,
                r,
            ),
    {
        let size: usize = bytes.len();
        let (_, aftermath) = self.replace_entry(id, owner_node, EntryState::Bytes(hold(bytes)), size, 0, now);
        aftermath
    }

    /// Stores bytes under the new id `id`, and hands out a reference to them.
    pub fn put_as<T>(&mut self, id: ObjectID, bytes: Vec<u8>, now: u64) -> (r: (ObjectRef<T>, usize, Aftermath))
        requires
            old(self).wf(),
            old(self)@.has_room(bytes@.len() as usize),
        ensures
            final(self).wf(),
            r.0.id == id,
            r.0.generation == old(self)@.next_generation,
            r.0.task_id is None,
            r.1 == bytes@.len(),
            put_met(old(self)@, final(self)@, id, bytes@, now, r.2),
    {
        let size: usize = bytes.len();
        let ghost before = self@;
        let ghost made = before.new_entry(StateModel::Bytes(bytes@), size, 0, None);
        let (generation, aftermath) = self.replace_entry(
            id,
            None,
            EntryState::Bytes(hold(bytes)),
            size,
            0,
            now,
        );
        let ghost mid = self@;
        proof {
            lemma_placed(before, id, made, now);
            let placed = before.placed(id, made, now);
            law_spilling_keeps_the_rest(placed, before.placing(id, made), id);
        }
        let reference = self.add_ref(id, generation, None);
        let r = (reference, size, aftermath);
        assert(replaced_met(before, mid, id, made, now, r.2));
        r
    }

    /// Stores bytes under a new random id, and hands out a reference to them.
    pub fn put<T>(&mut self, bytes: Vec<u8>, now: u64) -> (r: (ObjectRef<T>, usize, Aftermath))
        requires
            old(self).wf(),
            old(self)@.has_room(bytes@.len() as usize),
        ensures
            final(self).wf(),
            r.0.generation == old(self)@.next_generation,
            r.0.task_id is None,
            r.1 == bytes@.len(),
            put_met(old(self)@, final(self)@, r.0.id, bytes@, now, r.2),
    {
        self.put_as(ObjectID::new(), bytes, now)
    }

    /// Stores each value's bytes under a new random id, in turn, and hands out
    /// a reference to each.
    pub fn put_batch<T>(&mut self, values: Vec<Vec<u8>>, now: u64) -> (r: (Vec<ObjectRef<T>>, Vec<Aftermath>))
        requires
            old(self).wf(),
            old(self)@.has_room_for(values@),
        ensures
            final(self).wf(),
            exists|states: Seq<StoreModel<L>>| #[trigger]
                batch_met(old(self)@, final(self)@, states, values@, now, r.0@, r.1@),
    {
        let ghost before = self@;
        let ghost all = values@;
        let ghost mut states = seq![before];
        assert(all.skip(0) =~= all);
        let mut references: Vec<ObjectRef<T>> = Vec::new();
        let mut aftermaths: Vec<Aftermath> = Vec::new();
        for value in iter: values
            invariant
                self.wf(),
                iter.seq() == all,
                references@.len() == iter.index(),
                self@.has_room_for(all.skip(iter.index())),
                batch_met(before, self@, states, all.take(iter.index()), now, references@, aftermaths@),
        {
            let ghost done = iter.index();
            let ghost earlier = self@;
            let ghost bytes = value@;
            proof {
                lemma_has_room_for_first(earlier, all.skip(done));
            }
            let (reference, _, aftermath) = self.put(value, now);
            proof {
                lemma_put_room(earlier, self@, reference.id, bytes, now, aftermath);
                states = states.push(self@);
                assert(all.skip(done + 1) =~= all.skip(done).drop_first());
                assert(all.take(done + 1) =~= all.take(done).push(all[done]));
            }
            references.push(reference);
            aftermaths.push(aftermath);
        }
        assert(all.take(all.len() as int) =~= all);
        let r = (references, aftermaths);
        assert(batch_met(before, self@, states, all, now, r.0@, r.1@));
        r
    }

    /// Stores a value's bytes under an id of the caller's.
    pub fn put_with_id(&mut self, id: ObjectID, bytes: Vec<u8>, now: u64) -> (r: Aftermath)
        requires
            old(self).wf(),
            old(self)@.has_room(bytes@.len() as usize),
        ensures
            final(self).wf(),
            replaced_met(
                old(self)@,
                final(self)@,
                id,
                old(self)@.new_entry(StateModel::Bytes(bytes@), bytes@.len() as usize, 0, None),
                now,
                r,
            ),
    {
        self.put_bytes(id, bytes, None, now)
    }

    /// Stores raw bytes under a new random id, and hands out a reference to them.
    pub fn put_bytes_ref(&mut self, bytes: Vec<u8>, now: u64) -> (r: (ObjectRef<Vec<u8>>, Aftermath))
        requires
            old(self).wf(),
            old(self)@.has_room(bytes@.len() as usize),
        ensures
            final(self).wf(),
            r.0.generation == old(self)@.next_generation,
            r.0.task_id is None,
            put_met(old(self)@, final(self)@, r.0.id, bytes@, now, r.1),
    {
        let (reference, _, aftermath) = self.put(bytes, now);
        (reference, aftermath)
    }

    /// Records that an object could not be made.
    pub fn put_error(&mut self, id: ObjectID, error: CrayonError, now: u64) -> (r: Aftermath)
        requires
            old(self).wf(),
            old(self)@.has_room(0),
        ensures
            final(self).wf(),
            replaced_met(
                old(self)@,
                final(self)@,
                id,
                old(self)@.new_entry(StateModel::Failed(error@), 0, 0, None),
                now,
                r,
            ),
    {
        let (_, aftermath) = self.replace_entry(id, None, EntryState::Failed(error), 0, 0, now);
        aftermath
    }

    /// Stores a value of the caller's, which is not turned into bytes.
    pub fn put_local(&mut self, id: ObjectID, value: L, now: u64) -> (r: Aftermath)
        requires
            old(self).wf(),
            old(self)@.has_room(0),
        ensures
            final(self).wf(),
            replaced_met(
                old(self)@,
                final(self)@,
                id,
                old(self)@.new_entry(StateModel::Local(value), 0, 0, None),
                now,
                r,
            ),
    {
        let (_, aftermath) = self.replace_entry(id, None, EntryState::Local(value), 0, 0, now);
        aftermath
    }

    /// The value that was stored without being turned into bytes.
    pub fn get_local(&self, id: ObjectID) -> (r: Result<&L, CrayonError>)
        requires
            self.wf(),
        ensures
            match r {
                Ok(value) => self@.entries.contains_key(id) && self@.entries[id].state == StateModel::Local(*value),
                Err(error) => {
                    &&& error@ == FaultModel::ObjectNotFound(id)
                    &&& !(self@.entries.contains_key(id) && self@.entries[id].state is Local)
                },
            },
    {
        match self.map.get(&id) {
            Some(entry) => match &entry.state {
                EntryState::Local(value) => Ok(value),
                _ => Err(CrayonError::ObjectNotFound(id)),
            },
            None => Err(CrayonError::ObjectNotFound(id)),
        }
    }

    pub fn is_local(&self, id: ObjectID) -> (r: bool)
        requires
            self.wf(),
        ensures
            r == (self@.entries.contains_key(id) && self@.entries[id].state is Local),
    {
        match self.map.get(&id) {
            Some(entry) => matches!(&entry.state, EntryState::Local(_)),
            None => false,
        }
    }

    /// Counts one more reference to the current generation.
    fn add_ref<T>(&mut self, id: ObjectID, generation: u64, task_id: Option<TaskID>) -> (r: ObjectRef<T>)
        requires
            old(self).wf(),
            old(self)@.holds(id, generation),
            old(self)@.entries[id].refcount < usize::MAX,
        ensures
            final(self).wf(),
            r.id == id,
            r.generation == generation,
            r.task_id == task_id,
            final(self)@ == old(self)@.with_entry(
                id,
                EntryModel { refcount: (old(self)@.entries[id].refcount + 1) as usize, ..old(self)@.entries[id] },
            ),
    {
        let ghost before = self@;
        if let Some(entry) = self.map.get_mut(&id) {
            entry.refcount = entry.refcount + 1;
        }
        proof {
            self.map.lemma_keys();
        }
        assert(self@ =~= before.with_entry(
            id,
            EntryModel { refcount: (before.entries[id].refcount + 1) as usize, ..before.entries[id] },
        ));
        ObjectRef::new(id, generation, task_id)
    }

    /// Another reference to what `reference` refers to.
    pub fn clone_ref<T>(&mut self, reference: &ObjectRef<T>) -> (r: ObjectRef<T>)
        requires
            old(self).wf(),
            old(self)@.holds(reference.id, reference.generation) ==> old(self)@.entries[reference.id].refcount
                < usize::MAX,
        ensures
            final(self).wf(),
            r.id == reference.id,
            r.generation == reference.generation,
            r.task_id == reference.task_id,
            final(self)@ == if old(self)@.holds(reference.id, reference.generation) {
                let entry = old(self)@.entries[reference.id];
                old(self)@.with_entry(
                    reference.id,
                    EntryModel { refcount: (entry.refcount + 1) as usize, ..entry },
                )
            } else {
                old(self)@
            },
    {
        if self.is_current(reference.id, reference.generation) {
            self.add_ref(reference.id, reference.generation, reference.task_id)
        } else {
            ObjectRef::new(reference.id, reference.generation, reference.task_id)
        }
    }

    fn is_current(&self, id: ObjectID, generation: u64) -> (r: bool)
        requires
            self.wf(),
        ensures
            r == self@.holds(id, generation),
    {
        match self.map.get(&id) {
            Some(entry) => entry.generation == generation,
            None => false,
        }
    }

    /// Reserves an id for the output of a task: a reference for whoever waits for
    /// it, and a lease for whoever is to produce it.
    pub fn reserve_output<T>(&mut self, id: ObjectID, task_id: Option<TaskID>, now: u64) -> (r: (
        ObjectRef<T>,
        ProducerLease,
        Aftermath,
    ))
        requires
            old(self).wf(),
            old(self)@.has_room(0),
        ensures
            final(self).wf(),
            r.0.id == id,
            r.0.generation == old(self)@.next_generation,
            r.0.task_id == task_id,
            r.1 == (ProducerLease { id, generation: old(self)@.next_generation, finished: false }),
            r.2.spills@.len() == 0,
            replaced_met(
                old(self)@,
                old(self)@.renewed(id, old(self)@.new_entry(StateModel::Pending, 0, 1, None)),
                id,
                old(self)@.new_entry(StateModel::Pending, 0, 1, None),
                now,
                r.2,
            ),
            final(self)@ == old(self)@.renewed(
                id,
                EntryModel { refcount: 1, ..old(self)@.new_entry(StateModel::Pending, 0, 1, None) },
            ),
    {
        let ghost before = self@;
        let ghost made = before.new_entry(StateModel::<L>::Pending, 0, 1, None);
        let (generation, aftermath) = self.replace_entry(id, None, EntryState::Pending, 0, 1, now);
        assert(self@ == before.renewed(id, made));
        proof {
            assert(jobs_model(aftermath.spills@).len() == 0);
        }
        let reference = self.add_ref(id, generation, task_id);
        assert(self@ =~= before.renewed(id, EntryModel { refcount: 1, ..made }));
        (reference, ProducerLease { id, generation, finished: false }, aftermath)
    }

    /// The generation under an id; a pending one is made if there is none.
    fn ensure_entry(&mut self, id: ObjectID, now: u64) -> (r: u64)
        requires
            old(self).wf(),
            !old(self)@.entries.contains_key(id) ==> old(self)@.has_room(0),
        ensures
            final(self).wf(),
            final(self)@ == ensured(old(self)@, id),
            r == final(self)@.entries[id].generation,
    {
        if let Some(entry) = self.map.get(&id) {
            return entry.generation;
        }
        let (generation, _) = self.replace_entry(id, None, EntryState::Pending, 0, 0, now);
        generation
    }

    /// Makes sure that there is something to wait for under an id.
    pub fn reserve(&mut self, id: ObjectID, now: u64)
        requires
            old(self).wf(),
            !old(self)@.entries.contains_key(id) ==> old(self)@.has_room(0),
        ensures
            final(self).wf(),
            final(self)@ == ensured(old(self)@, id),
    {
        self.ensure_entry(id, now);
    }

    /// A reference to what is, or will be, under an id.
    pub fn reserve_ref<T>(&mut self, id: ObjectID, now: u64) -> (r: ObjectRef<T>)
        requires
            old(self).wf(),
            !old(self)@.entries.contains_key(id) ==> old(self)@.has_room(0),
            old(self)@.entries.contains_key(id) ==> old(self)@.entries[id].refcount < usize::MAX,
        ensures
            final(self).wf(),
            r.id == id,
            r.generation == ensured(old(self)@, id).entries[id].generation,
            r.task_id is None,
            ({
                let mid = ensured(old(self)@, id);
                final(self)@ == mid.with_entry(
                    id,
                    EntryModel { refcount: (mid.entries[id].refcount + 1) as usize, ..mid.entries[id] },
                )
            }),
    {
        let generation = self.ensure_entry(id, now);
        self.add_ref(id, generation, None)
    }

    /// Keeps an object whether or not there are references to it.
    pub fn pin(&mut self, id: ObjectID, now: u64) -> (r: u64)
        requires
            old(self).wf(),
            !old(self)@.entries.contains_key(id) ==> old(self)@.has_room(0),
            old(self)@.entries.contains_key(id) ==> old(self)@.entries[id].pins < usize::MAX,
        ensures
            final(self).wf(),
            r == ensured(old(self)@, id).entries[id].generation,
            ({
                let mid = ensured(old(self)@, id);
                final(self)@ == mid.with_entry(
                    id,
                    EntryModel { pins: (mid.entries[id].pins + 1) as usize, ..mid.entries[id] },
                )
            }),
    {
        let ghost before = self@;
        let generation = self.ensure_entry(id, now);
        let ghost mid = self@;
        if let Some(entry) = self.map.get_mut(&id) {
            entry.pins = entry.pins + 1;
        }
        proof {
            self.map.lemma_keys();
        }
        assert(self@ =~= mid.with_entry(
            id,
            EntryModel { pins: (mid.entries[id].pins + 1) as usize, ..mid.entries[id] },
        ));
        generation
    }

    /// Drops one generation of an object from the store, the accounts and the
    /// records.
    fn remove_generation(&mut self, id: ObjectID, generation: u64) -> (r: Option<(ObjectID, u64)>)
        requires
            old(self).wf(),
        ensures
            final(self).wf(),
            final(self)@ == old(self)@.dropped(id, generation),
            r == stale_file(old(self)@, id, generation),
    {
        let ghost before = self@;
        if !self.is_current(id, generation) {
            return None;
        }
        self.map.remove(&id);
        proof {
            self.map.lemma_keys();
        }
        let stale = self.forget_memory(id, generation);
        if let Some(gcs) = &mut self.gcs {
            gcs.remove_object(id);
        }
        assert(self@ =~= before.dropped(id, generation));
        stale
    }

    /// Takes back one pin of a generation.
    pub fn unpin(&mut self, id: ObjectID, generation: u64) -> (r: Option<(ObjectID, u64)>)
        requires
            old(self).wf(),
        ensures
            final(self).wf(),
            final(self)@ == unpinned(old(self)@, id, generation),
            r == if final(self)@.entries.contains_key(id) {
                None
            } else {
                stale_file(old(self)@, id, generation)
            },
    {
        let ghost before = self@;
        let mut unused = false;
        if let Some(entry) = self.map.get_mut(&id) {
            if entry.generation == generation {
                if entry.pins > 0 {
                    entry.pins = entry.pins - 1;
                }
                unused = entry.pins == 0 && entry.producers == 0 && entry.refcount == 0;
            }
        }
        proof {
            self.map.lemma_keys();
        }
        let ghost mid = self@;
        assert(before.holds(id, generation) ==> mid =~= before.with_entry(
            id,
            EntryModel { pins: less_one(before.entries[id].pins), ..before.entries[id] },
        ));
        assert(!before.holds(id, generation) ==> mid =~= before);
        if unused {
            self.remove_generation(id, generation)
        } else {
            None
        }
    }

    /// Takes back a reference. The last one to go takes the object with it,
    /// unless it is pinned or owed by a producer.
    pub fn drop_ref<T>(&mut self, reference: ObjectRef<T>) -> (r: Option<(ObjectID, u64)>)
        requires
            old(self).wf(),
        ensures
            final(self).wf(),
            final(self)@ == unreferenced(old(self)@, reference.id, reference.generation),
            r == if final(self)@.entries.contains_key(reference.id) {
                None
            } else {
                stale_file(old(self)@, reference.id, reference.generation)
            },
    {
        let ghost before = self@;
        let id = reference.id;
        let generation: u64 = reference.generation;
        let mut unused = false;
        if let Some(entry) = self.map.get_mut(&id) {
            if entry.generation == generation && entry.refcount > 0 {
                entry.refcount = entry.refcount - 1;
                unused = entry.pins == 0 && entry.producers == 0 && entry.refcount == 0;
            }
        }
        proof {
            self.map.lemma_keys();
        }
        let ghost mid = self@;
        assert(before.holds(id, generation) && before.entries[id].refcount > 0 ==> mid =~= before.with_entry(
            id,
            EntryModel { refcount: less_one(before.entries[id].refcount), ..before.entries[id] },
        ));
        assert(!(before.holds(id, generation) && before.entries[id].refcount > 0) ==> mid =~= before);
        if unused {
            self.remove_generation(id, generation)
        } else {
            None
        }
    }

    /// Drops whatever is under an id.
    pub fn delete(&mut self, id: ObjectID) -> (r: Option<(ObjectID, u64)>)
        requires
            old(self).wf(),
        ensures
            final(self).wf(),
            if old(self)@.entries.contains_key(id) {
                let generation = old(self)@.entries[id].generation;
                final(self)@ == old(self)@.dropped(id, generation) && r == stale_file(old(self)@, id, generation)
            } else {
                final(self)@ == old(self)@ && r is None
            },
    {
        let generation: u64 = match self.map.get(&id) {
            Some(entry) => entry.generation,
            None => return None,
        };
        self.remove_generation(id, generation)
    }

    /// Whether an object has content.
    pub fn contains(&self, id: ObjectID) -> (r: bool)
        requires
            self.wf(),
        ensures
            r == (self@.entries.contains_key(id) && self@.entries[id].present()),
    {
        match self.map.get(&id) {
            Some(entry) => matches!(
                &entry.state,
                EntryState::Bytes(_) | EntryState::Local(_) | EntryState::Spilling | EntryState::Spilled,
            ),
            None => false,
        }
    }

    /// The node that an object came from.
    pub fn owner_node(&self, id: ObjectID) -> (r: Option<NodeID>)
        requires
            self.wf(),
        ensures
            r == if self@.entries.contains_key(id) {
                self@.entries[id].owner_node
            } else {
                None
            },
    {
        match self.map.get(&id) {
            Some(entry) => entry.owner_node,
            None => None,
        }
    }

    /// The size of an object's bytes; zero for what is not there.
    pub fn object_size(&self, id: ObjectID) -> (r: usize)
        requires
            self.wf(),
        ensures
            r == if self@.entries.contains_key(id) {
                self@.entries[id].size
            } else {
                0
            },
    {
        match self.map.get(&id) {
            Some(entry) => entry.size_bytes,
            None => 0,
        }
    }

    /// How many objects have content.
    pub fn len(&self) -> (r: usize)
        requires
            self.wf(),
        ensures
            r == sum(self@.entries, present_weight::<L>()),
    {
        let ghost weight = present_weight::<L>();
        let ghost keys = self.map.keys();
        let mut count: usize = 0;
        let mut i: usize = 0;
        proof {
            self.map.lemma_keys();
            lemma_sum_ends(keys, self@.entries, weight);
        }
        while i < self.map.len()
            invariant
                self.wf(),
                self.map.wf(),
                keys == self.map.keys(),
                keys.no_duplicates(),
                i <= keys.len(),
                count <= i,
                weight == present_weight::<L>(),
                count == sum_over(keys.take(i as int).to_set(), self@.entries, weight),
            decreases keys.len() - i,
        {
            let (_, entry) = self.map.entry_at(i);
            proof {
                lemma_sum_next(keys, self@.entries, weight, i as int);
            }
            if matches!(
                &entry.state,
                EntryState::Bytes(_) | EntryState::Local(_) | EntryState::Spilling | EntryState::Spilled,
            ) {
                count += 1;
            }
            i += 1;
        }
        count
    }

    pub fn is_empty(&self) -> (r: bool)
        requires
            self.wf(),
        ensures
            r == (sum(self@.entries, present_weight::<L>()) == 0),
    {
        self.len() == 0
    }

    /// How many bytes are resident, and how many may be.
    pub fn memory_stats(&self) -> (r: (usize, usize))
        ensures
            match self@.mem {
                Some(mem) => r.0 == mem.total && r.1 == mem.max,
                None => r == (0usize, 0usize),
            },
    {
        match &self.mem {
            Some(mem) => (mem.total_bytes(), mem.max_memory_bytes()),
            None => (0, 0),
        }
    }

    /// How many objects could not be written out.
    pub fn spill_failures(&self) -> (r: usize)
        ensures
            r == match self@.mem {
                Some(mem) => mem.failures,
                None => 0,
            },
    {
        match &self.mem {
            Some(mem) => mem.spill_failures(),
            None => 0,
        }
    }

    /// Takes in whether an object could be written out. The result says that the
    /// file is to be deleted: the generation that it belongs to is gone.
    pub fn finish_spill(&mut self, job: SpillJob, written: bool) -> (r: bool)
        requires
            old(self).wf(),
            old(self)@.mem is Some ==> old(self)@.mem->0.total + job.size <= usize::MAX && old(self)@.mem->0.failures
                < usize::MAX,
        ensures
            final(self).wf(),
            r == (!old(self)@.holds(job.id, job.generation) && old(self)@.mem is Some),
            final(self)@ == spill_finished(old(self)@, job@, written),
    {
        let ghost before = self@;
        if !self.is_current(job.id, job.generation) {
            return self.mem.is_some();
        }
        proof {
            if before.mem is Some {
                law_restored_keeps_accounts(before.mem->0, job.id, job.generation, job.size);
            }
        }
        if let Some(entry) = self.map.get_mut(&job.id) {
            if written {
                entry.state = EntryState::Spilled;
            } else {
                entry.state = EntryState::Bytes(job.bytes);
            }
            entry.version = bump(entry.version);
        }
        proof {
            self.map.lemma_keys();
        }
        if !written {
            if let Some(mem) = &mut self.mem {
                mem.restore_after_spill_failure(job.id, job.generation, job.size);
            }
        }
        assert(self@ =~= spill_finished(before, job@, written));
        false
    }

    /// Takes in what a producer made of its output: bytes, an error, or nothing.
    /// The first result says whether it was taken in.
    fn finish_producer(
        &mut self,
        id: ObjectID,
        generation: u64,
        result: Option<Result<Vec<u8>, CrayonError>>,
        owner_node: Option<NodeID>,
        now: u64,
    ) -> (r: (bool, Aftermath))
        requires
            old(self).wf(),
            result matches Some(Ok(bytes)) ==> (old(self)@.mem is Some ==> old(self)@.mem->0.total + bytes@.len()
                <= usize::MAX),
        ensures
            final(self).wf(),
            finished_met(old(self)@, final(self)@, id, generation, result, owner_node, now, r),
    {
        let ghost before = self@;
        let produced = matches!(&result, Some(Ok(_)));
        let mut abandoned = false;
        let mut owed = false;
        if let Some(entry) = self.map.get_mut(&id) {
            if entry.generation == generation && entry.producers > 0 {
                owed = true;
                entry.producers = entry.producers - 1;
                abandoned = !produced && entry.refcount == 0 && entry.pins == 0;
            }
        }
        proof {
            self.map.lemma_keys();
        }
        let mut aftermath = Aftermath { stale: None, spills: Vec::new() };
        if !owed {
            assert(self@ =~= before);
            assert(jobs_model(aftermath.spills@) =~= Seq::<JobModel>::empty());
            return (false, aftermath);
        }
        let ghost owing = before.with_entry(
            id,
            EntryModel { producers: less_one(before.entries[id].producers), ..before.entries[id] },
        );
        assert(self@ =~= owing);
        if abandoned {
            aftermath.stale = self.remove_generation(id, generation);
            assert(jobs_model(aftermath.spills@) =~= Seq::<JobModel>::empty());
            return (false, aftermath);
        }
        match result {
            Some(Ok(bytes)) => {
                let size: usize = bytes.len();
                let ghost content = bytes@;
                let shared = hold(bytes);
                if let Some(entry) = self.map.get_mut(&id) {
                    entry.state = EntryState::Bytes(shared);
                    entry.owner_node = owner_node;
                    entry.size_bytes = size;
                    entry.version = bump(entry.version);
                }
                proof {
                    self.map.lemma_keys();
                }
                let ghost filled = owing.with_entry(
                    id,
                    EntryModel { owner_node, size, ..owing.entries[id].turned(StateModel::Bytes(content)) },
                );
                assert(self@ =~= filled);
                self.publish_metadata(id, size, owner_node, now);
                let chosen = self.record_memory(id, generation, size);
                aftermath.spills = self.begin_spills(chosen);
            },
            Some(Err(error)) => {
                let ghost fault = error@;
                if let Some(entry) = self.map.get_mut(&id) {
                    entry.state = EntryState::Failed(error);
                    entry.version = bump(entry.version);
                }
                proof {
                    self.map.lemma_keys();
                }
                assert(self@ =~= owing.with_entry(id, owing.entries[id].turned(StateModel::Failed(fault))));
                assert(jobs_model(aftermath.spills@) =~= Seq::<JobModel>::empty());
            },
            None => {
                if let Some(entry) = self.map.get_mut(&id) {
                    if entry.producers == 0 {
                        entry.state = EntryState::Failed(CrayonError::ObjectNotFound(id));
                        entry.version = bump(entry.version);
                    }
                }
                proof {
                    self.map.lemma_keys();
                }
                assert(owing.entries[id].producers == 0 ==> self@ =~= owing.with_entry(
                    id,
                    owing.entries[id].turned(StateModel::Failed(FaultModel::ObjectNotFound(id))),
                ));
                assert(owing.entries[id].producers > 0 ==> self@ =~= owing);
                assert(jobs_model(aftermath.spills@) =~= Seq::<JobModel>::empty());
            },
        }
        (true, aftermath)
    }
}

impl<L> Default for ObjectStore<L> {
    fn default() -> (r: Self)
        ensures
            r.wf(),
            r@ == (StoreModel::<L> { entries: Map::empty(), next_generation: 1, mem: None, gcs: None }),
    {
        ObjectStore::new()
    }
}

/// Counts entries that have content.
pub open spec fn present_weight<L>() -> spec_fn(EntryModel<L>) -> int {
    |entry: EntryModel<L>|
        if entry.present() {
            1int
        } else {
            0int
        }
}

/// A generation has been written out, or is back in memory.
pub open spec fn spill_finished<L>(s: StoreModel<L>, job: JobModel, written: bool) -> StoreModel<L> {
    if !s.holds(job.id, job.generation) {
        s
    } else if written {
        s.with_entry(job.id, s.entries[job.id].turned(StateModel::Spilled))
    } else {
        StoreModel {
            mem: match s.mem {
                Some(mem) => Some(mem.restored(job.id, job.generation, job.size)),
                None => None,
            },
            ..s.with_entry(job.id, s.entries[job.id].turned(StateModel::Bytes(job.bytes)))
        }
    }
}

/// No byte is lost by a spill, whether or not it succeeds: the object is in its
/// file or back in memory as it was.
pub proof fn law_failed_spill_restores<L>(s: StoreModel<L>, job: JobModel)
    requires
        s.holds(job.id, job.generation),
    ensures
        spill_finished(s, job, true).entries[job.id].state is Spilled,
        spill_finished(s, job, false).entries[job.id].state == StateModel::<L>::Bytes(job.bytes),
{
}

/// Takes in what a producer made of its output. A result for an older generation,
/// or for one that is not owed, counts for nothing. Bytes are stored whether or not
/// anyone refers to them still; where nobody does, an entry that came to nothing is
/// dropped.
pub open spec fn finished_met<L>(
    before: StoreModel<L>,
    after: StoreModel<L>,
    id: ObjectID,
    generation: u64,
    result: Option<Result<Vec<u8>, CrayonError>>,
    owner_node: Option<NodeID>,
    now: u64,
    r: (bool, Aftermath),
) -> bool {
    let none = Seq::<JobModel>::empty();
    if !(before.holds(id, generation) && before.entries[id].producers > 0) {
        &&& after == before
        &&& r.0 == false
        &&& r.1.stale is None
        &&& jobs_model(r.1.spills@) == none
    } else {
        let entry = before.entries[id];
        let owing = before.with_entry(id, EntryModel { producers: less_one(entry.producers), ..entry });
        if !(result matches Some(Ok(_))) && entry.refcount == 0 && entry.pins == 0 {
            &&& after == owing.dropped(id, generation)
            &&& r.0 == false
            &&& r.1.stale == stale_file(before, id, generation)
            &&& jobs_model(r.1.spills@) == none
        } else {
            &&& r.0 == true
            &&& r.1.stale is None
            &&& match result {
                Some(Ok(bytes)) => {
                    let size = bytes@.len() as usize;
                    let filled = owing.with_entry(
                        id,
                        EntryModel { owner_node, size, ..owing.entries[id].turned(StateModel::Bytes(bytes@)) },
                    ).published(id, size, owner_node, now);
                    let counted = filled.accounted(id, generation, size);
                    let chosen = filled.choices(id, generation, size);
                    &&& after == counted.begun(chosen)
                    &&& jobs_model(r.1.spills@) == counted.jobs(chosen)
                },
                Some(Err(error)) => {
                    &&& after == owing.with_entry(id, owing.entries[id].turned(StateModel::Failed(error@)))
                    &&& jobs_model(r.1.spills@) == none
                },
                None => {
                    &&& after == if owing.entries[id].producers == 0 {
                        owing.with_entry(
                            id,
                            owing.entries[id].turned(StateModel::Failed(FaultModel::ObjectNotFound(id))),
                        )
                    } else {
                        owing
                    }
                    &&& jobs_model(r.1.spills@) == none
                },
            }
        }
    }
}

/// A lease that was used has no effect any more.
pub open spec fn lease_met<L>(
    before: StoreModel<L>,
    after: StoreModel<L>,
    lease: ProducerLease,
    result: Option<Result<Vec<u8>, CrayonError>>,
    owner_node: Option<NodeID>,
    now: u64,
    r: (bool, Aftermath),
) -> bool {
    if lease.finished {
        &&& after == before
        &&& r.0 == false
        &&& r.1.stale is None
        &&& r.1.spills@.len() == 0
    } else {
        finished_met(before, after, lease.id, lease.generation, result, owner_node, now, r)
    }
}

impl ProducerLease {
    fn finish<L>(
        &mut self,
        store: &mut ObjectStore<L>,
        result: Option<Result<Vec<u8>, CrayonError>>,
        owner_node: Option<NodeID>,
        now: u64,
    ) -> (r: (bool, Aftermath))
        requires
            old(store).wf(),
            result matches Some(Ok(bytes)) ==> (old(store)@.mem is Some ==> old(store)@.mem->0.total + bytes@.len()
                <= usize::MAX),
        ensures
            final(store).wf(),
            *final(self) == (ProducerLease { finished: true, ..*old(self) }),
            lease_met(old(store)@, final(store)@, *old(self), result, owner_node, now, r),
    {
        if self.finished {
            return (false, Aftermath { stale: None, spills: Vec::new() });
        }
        self.finished = true;
        store.finish_producer(self.id, self.generation, result, owner_node, now)
    }

    /// Hands in the output.
    pub fn publish<L>(
        &mut self,
        store: &mut ObjectStore<L>,
        bytes: Vec<u8>,
        owner_node: Option<NodeID>,
        now: u64,
    ) -> (r: (bool, Aftermath))
        requires
            old(store).wf(),
            old(store)@.mem is Some ==> old(store)@.mem->0.total + bytes@.len() <= usize::MAX,
        ensures
            final(store).wf(),
            *final(self) == (ProducerLease { finished: true, ..*old(self) }),
            lease_met(old(store)@, final(store)@, *old(self), Some(Ok(bytes)), owner_node, now, r),
    {
        self.finish(store, Some(Ok(bytes)), owner_node, now)
    }

    /// Hands in an error in place of the output.
    pub fn fail<L>(&mut self, store: &mut ObjectStore<L>, error: CrayonError, now: u64) -> (r: (bool, Aftermath))
        requires
            old(store).wf(),
        ensures
            final(store).wf(),
            *final(self) == (ProducerLease { finished: true, ..*old(self) }),
            lease_met(old(store)@, final(store)@, *old(self), Some(Err(error)), None, now, r),
    {
        self.finish(store, Some(Err(error)), None, now)
    }

    /// Gives the lease back unused. Whoever waits for the output hears of it once
    /// no producer is left.
    pub fn abandon<L>(&mut self, store: &mut ObjectStore<L>, now: u64) -> (r: (bool, Aftermath))
        requires
            old(store).wf(),
        ensures
            final(store).wf(),
            *final(self) == (ProducerLease { finished: true, ..*old(self) }),
            lease_met(old(store)@, final(store)@, *old(self), None, None, now, r),
    {
        self.finish(store, None, None, now)
    }
}

/// A producer of an older generation cannot change anything.
pub proof fn law_older_producer_changes_nothing<L>(
    before: StoreModel<L>,
    after: StoreModel<L>,
    lease: ProducerLease,
    result: Option<Result<Vec<u8>, CrayonError>>,
    owner_node: Option<NodeID>,
    now: u64,
    r: (bool, Aftermath),
)
    requires
        lease_met(before, after, lease, result, owner_node, now, r),
        !before.holds(lease.id, lease.generation),
    ensures
        after == before,
        !r.0,
{
}

/// An output is stored when it comes, even if nobody refers to it any more: it is
/// in memory, or on its way to disk with all its bytes.
pub proof fn law_output_is_stored<L>(
    before: StoreModel<L>,
    after: StoreModel<L>,
    lease: ProducerLease,
    bytes: Vec<u8>,
    owner_node: Option<NodeID>,
    now: u64,
    r: (bool, Aftermath),
)
    requires
        before.wf(),
        lease_met(before, after, lease, Some(Ok(bytes)), owner_node, now, r),
        !lease.finished,
        before.holds(lease.id, lease.generation),
        before.entries[lease.id].producers > 0,
    ensures
        r.0,
        after.holds(lease.id, lease.generation),
        after.entries[lease.id].present(),
        after.entries[lease.id].size == bytes@.len(),
        after.entries[lease.id].refcount == before.entries[lease.id].refcount,
        after.entries[lease.id].state == StateModel::<L>::Bytes(bytes@) || {
            &&& after.entries[lease.id].state is Spilling
            &&& exists|i: int|
                0 <= i < r.1.spills@.len() && (#[trigger] r.1.spills@[i]).id == lease.id && r.1.spills@[i].generation
                    == lease.generation && held_bytes(r.1.spills@[i].bytes) == bytes@
        },
        before.mem is Some && before.mem->0.total + bytes@.len() <= before.mem->0.max ==> {
            &&& after.entries[lease.id].state == StateModel::<L>::Bytes(bytes@)
            &&& after.mem->0.holds(lease.id, lease.generation)
            &&& after.mem->0.total >= bytes@.len()
        },
{
    let id = lease.id;
    let generation = lease.generation;
    let size = bytes@.len() as usize;
    assert(bytes.len() == size);
    let entry = before.entries[id];
    let owing = before.with_entry(id, EntryModel { producers: less_one(entry.producers), ..entry });
    let stored = EntryModel { owner_node, size, ..owing.entries[id].turned(StateModel::Bytes(bytes@)) };
    let filled = owing.with_entry(id, stored).published(id, size, owner_node, now);
    let counted = filled.accounted(id, generation, size);
    let chosen = filled.choices(id, generation, size);
    if before.mem is Some {
        let mem = before.mem->0;
        crate::memory::law_stored_keeps_accounts(mem, id, generation, size);
        crate::memory::law_spills_least_recently_used(mem.stored(id, generation, size));
        let sizes = mem.stored(id, generation, size).sizes;
        crate::sums::lemma_sum_at_least(sizes, crate::memory::size_weight(), id);
        if mem.sizes.contains_key(id) {
            crate::sums::lemma_sum_at_least(mem.sizes, crate::memory::size_weight(), id);
        }
    }
    law_spilling_keeps_the_rest(counted, chosen, id);
    if after.entries[id] != stored {
        let jobs = counted.jobs(chosen);
        let i = choose|i: int|
            0 <= i < jobs.len() && (#[trigger] jobs[i]).id == id && jobs[i].generation == generation && jobs[i].bytes
                == bytes@;
        assert(jobs_model(r.1.spills@)[i] == r.1.spills@[i]@);
    }
}

/// Where nobody refers to it any more, an entry whose producer failed or gave up is
/// dropped.
pub proof fn law_unwanted_failure_is_dropped<L>(
    before: StoreModel<L>,
    after: StoreModel<L>,
    lease: ProducerLease,
    result: Option<Result<Vec<u8>, CrayonError>>,
    owner_node: Option<NodeID>,
    now: u64,
    r: (bool, Aftermath),
)
    requires
        lease_met(before, after, lease, result, owner_node, now, r),
        !(result matches Some(Ok(_))),
        !lease.finished,
        before.holds(lease.id, lease.generation),
        before.entries[lease.id].producers > 0,
        before.entries[lease.id].refcount == 0,
        before.entries[lease.id].pins == 0,
    ensures
        !after.entries.contains_key(lease.id),
{
}

/// The right to produce one generation of an object, once.
#[derive(Debug, Clone, Copy)]
pub struct ProducerLease {
    pub id: ObjectID,
    pub generation: u64,
    pub finished: bool,
}

pub open spec fn less_one(count: usize) -> usize {
    if count > 0 {
        (count - 1) as usize
    } else {
        0
    }
}

/// There is something under the id: what was there, or a pending generation.
pub open spec fn ensured<L>(s: StoreModel<L>, id: ObjectID) -> StoreModel<L> {
    if s.entries.contains_key(id) {
        s
    } else {
        s.renewed(id, s.new_entry(StateModel::Pending, 0, 0, None))
    }
}

/// The file that a generation that is dropped may have left.
pub open spec fn stale_file<L>(s: StoreModel<L>, id: ObjectID, generation: u64) -> Option<(ObjectID, u64)> {
    if s.holds(id, generation) && s.mem is Some {
        Some((id, generation))
    } else {
        None
    }
}

pub open spec fn unpinned<L>(s: StoreModel<L>, id: ObjectID, generation: u64) -> StoreModel<L> {
    if s.holds(id, generation) {
        s.with_entry(id, EntryModel { pins: less_one(s.entries[id].pins), ..s.entries[id] }).dropped_if_unused(id)
    } else {
        s
    }
}

pub open spec fn unreferenced<L>(s: StoreModel<L>, id: ObjectID, generation: u64) -> StoreModel<L> {
    if s.holds(id, generation) && s.entries[id].refcount > 0 {
        s.with_entry(id, EntryModel { refcount: less_one(s.entries[id].refcount), ..s.entries[id] }).dropped_if_unused(
            id,
        )
    } else {
        s
    }
}

/// Placing a new generation keeps the accounts in order and changes no other
/// entry.
pub proof fn lemma_placed<L>(s: StoreModel<L>, id: ObjectID, entry: EntryModel<L>, now: u64)
    requires
        s.wf(),
        entry.generation == s.next_generation,
        s.next_generation < u64::MAX,
    ensures
        s.placed(id, entry, now).wf(),
        s.placed(id, entry, now).entries == s.entries.insert(id, entry),
        s.placed(id, entry, now).next_generation == s.next_generation + 1,
{
    if s.mem is Some {
        let mem = s.mem->0;
        if s.entries.contains_key(id) {
            crate::memory::law_removed_keeps_accounts(mem, id, s.entries[id].generation);
        }
        let cleaned = s.renewed(id, entry).mem->0;
        crate::memory::law_stored_keeps_accounts(cleaned, id, entry.generation, entry.size);
        crate::memory::law_spills_least_recently_used(cleaned.stored(id, entry.generation, entry.size));
    }
}

/// What was stored is what is there: in memory, or on its way to disk with all
/// its bytes.
pub proof fn law_stored_bytes_are_there<L>(
    before: StoreModel<L>,
    after: StoreModel<L>,
    id: ObjectID,
    bytes: Seq<u8>,
    owner_node: Option<NodeID>,
    now: u64,
    aftermath: Aftermath,
)
    requires
        before.wf(),
        before.next_generation < u64::MAX,
        bytes.len() <= usize::MAX,
        replaced_met(
            before,
            after,
            id,
            before.new_entry(StateModel::Bytes(bytes), bytes.len() as usize, 0, owner_node),
            now,
            aftermath,
        ),
    ensures
        after.holds(id, before.next_generation),
        after.entries[id].state == StateModel::<L>::Bytes(bytes) || {
            &&& after.entries[id].state is Spilling
            &&& exists|i: int|
                0 <= i < aftermath.spills@.len() && (#[trigger] aftermath.spills@[i]).id == id
                    && aftermath.spills@[i].generation == before.next_generation && held_bytes(aftermath.spills@[i].bytes)
                    == bytes
        },
{
    let entry = before.new_entry(StateModel::Bytes(bytes), bytes.len() as usize, 0, owner_node);
    let placed = before.placed(id, entry, now);
    let chosen = before.placing(id, entry);
    lemma_placed(before, id, entry, now);
    law_spilling_keeps_the_rest(placed, chosen, id);
    if after.entries[id] != entry {
        let jobs = placed.jobs(chosen);
        let i = choose|i: int|
            0 <= i < jobs.len() && (#[trigger] jobs[i]).id == id && jobs[i].generation == entry.generation
                && jobs[i].bytes == bytes;
        assert(jobs_model(aftermath.spills@)[i] == aftermath.spills@[i]@);
    }
}

/// A generation that is referred to, pinned or owed is not dropped by taking back
/// a reference or a pin of another kind.
pub proof fn law_kept_while_needed<L>(s: StoreModel<L>, id: ObjectID, generation: u64)
    requires
        s.holds(id, generation),
    ensures
        s.entries[id].producers > 0 || s.entries[id].pins > 0 || s.entries[id].refcount > 1 ==> unreferenced(
            s,
            id,
            generation,
        ).holds(id, generation),
        s.entries[id].producers > 0 || s.entries[id].refcount > 0 || s.entries[id].pins > 1 ==> unpinned(
            s,
            id,
            generation,
        ).holds(id, generation),
{
}

/// The last reference to go takes an unpinned object that nobody produces with
/// it.
pub proof fn law_last_reference_drops<L>(s: StoreModel<L>, id: ObjectID, generation: u64)
    requires
        s.holds(id, generation),
        s.entries[id].refcount == 1,
        s.entries[id].producers == 0,
        s.entries[id].pins == 0,
    ensures
        !unreferenced(s, id, generation).entries.contains_key(id),
{
}


/// A new generation took the place of what was under an id; what had to leave
/// memory for it is being written out.
pub open spec fn replaced_met<L>(
    before: StoreModel<L>,
    after: StoreModel<L>,
    id: ObjectID,
    entry: EntryModel<L>,
    now: u64,
    aftermath: Aftermath,
) -> bool {
    let placed = before.placed(id, entry, now);
    let chosen = before.placing(id, entry);
    &&& after == placed.begun(chosen)
    &&& jobs_model(aftermath.spills@) == placed.jobs(chosen)
    &&& aftermath.stale == if before.entries.contains_key(id) && before.mem is Some {
        Some((id, before.entries[id].generation))
    } else {
        None
    }
}

/// What it means for bytes to have been stored under an id and a reference to
/// have been handed out.
pub open spec fn put_met<L>(
    before: StoreModel<L>,
    after: StoreModel<L>,
    id: ObjectID,
    bytes: Seq<u8>,
    now: u64,
    aftermath: Aftermath,
) -> bool {
    exists|mid: StoreModel<L>| #[trigger]
        replaced_met(
            before,
            mid,
            id,
            before.new_entry(StateModel::Bytes(bytes), bytes.len() as usize, 0, None),
            now,
            aftermath,
        ) && after == mid.with_entry(
            id,
            EntryModel { refcount: (mid.entries[id].refcount + 1) as usize, ..mid.entries[id] },
        )
}

/// How many bytes values have together.
pub open spec fn bytes_in(values: Seq<Vec<u8>>) -> nat
    decreases values.len(),
{
    if values.len() == 0 {
        0
    } else {
        values[0]@.len() + bytes_in(values.drop_first())
    }
}

/// What it means for values to have been stored one after the other: `states`
/// are the stores before the first, between any two, and after the last.
pub open spec fn batch_met<L, T>(
    before: StoreModel<L>,
    after: StoreModel<L>,
    states: Seq<StoreModel<L>>,
    values: Seq<Vec<u8>>,
    now: u64,
    references: Seq<ObjectRef<T>>,
    aftermaths: Seq<Aftermath>,
) -> bool {
    &&& references.len() == values.len()
    &&& aftermaths.len() == values.len()
    &&& states.len() == values.len() + 1
    &&& states[0] == before
    &&& states.last() == after
    &&& forall|i: int| #![trigger references[i]]
        0 <= i < values.len() ==> {
            &&& references[i].generation == states[i].next_generation
            &&& references[i].task_id is None
            &&& put_met(states[i], states[i + 1], references[i].id, values[i]@, now, aftermaths[i])
        }
}

proof fn lemma_has_room_for_first<L>(s: StoreModel<L>, values: Seq<Vec<u8>>)
    requires
        values.len() > 0,
        s.has_room_for(values),
    ensures
        s.has_room(values[0]@.len() as usize),
{
    assert(values[0].len() == values[0]@.len());
}

/// Storing bytes takes one generation, and no more room than the bytes have.
proof fn lemma_put_room<L>(
    before: StoreModel<L>,
    after: StoreModel<L>,
    id: ObjectID,
    bytes: Seq<u8>,
    now: u64,
    aftermath: Aftermath,
)
    requires
        before.wf(),
        bytes.len() <= usize::MAX,
        before.has_room(bytes.len() as usize),
        put_met(before, after, id, bytes, now, aftermath),
    ensures
        after.next_generation == before.next_generation + 1,
        after.mem is Some <==> before.mem is Some,
        before.mem is Some ==> after.mem->0.total <= before.mem->0.total + bytes.len(),
{
    let made = before.new_entry(StateModel::Bytes(bytes), bytes.len() as usize, 0, None);
    lemma_placed(before, id, made, now);
    law_spilling_keeps_the_rest(before.placed(id, made, now), before.placing(id, made), id);
    if before.mem is Some {
        let cleaned = before.renewed(id, made).mem->0;
        crate::memory::lemma_trimmed_is_no_larger(cleaned.stored(id, made.generation, made.size));
    }
}

/// What a read of an object does next.
#[derive(Debug)]
pub enum GetStep {
    Done(Result<Bytes, CrayonError>),
    /// Read the spill file of this generation and hand back its content.
    ReadSpill(u64),
    /// Ask the other nodes and hand back what they have.
    FetchRemote,
    /// Wait until the entry is at another version, or gone; then look again.
    Wait(u64),
}

/// The view of a [`GetStep`].
pub enum GetModel {
    Done(Result<Seq<u8>, FaultModel>),
    ReadSpill(u64),
    FetchRemote,
    Wait(u64),
}

impl View for GetStep {
    type V = GetModel;

    open spec fn view(&self) -> GetModel {
        match *self {
            GetStep::Done(Ok(bytes)) => GetModel::Done(Ok(held_bytes(bytes))),
            GetStep::Done(Err(error)) => GetModel::Done(Err(error@)),
            GetStep::ReadSpill(generation) => GetModel::ReadSpill(generation),
            GetStep::FetchRemote => GetModel::FetchRemote,
            GetStep::Wait(version) => GetModel::Wait(version),
        }
    }
}

/// A read of an object's bytes. It looks at the store, and as long as that does
/// not settle it, waits, loads a spill file, or asks the other nodes, which it
/// does once at most.
#[derive(Debug)]
pub struct Get {
    pub id: ObjectID,
    pub tried_remote: bool,
}

/// What a look at the store says.
pub open spec fn looked<L>(s: StoreModel<L>, get: Get) -> GetModel {
    if s.entries.contains_key(get.id) {
        let entry = s.entries[get.id];
        match entry.state {
            StateModel::Bytes(bytes) => GetModel::Done(Ok(bytes)),
            StateModel::Failed(error) => GetModel::Done(Err(error)),
            StateModel::Local(_) => GetModel::Done(Err(FaultModel::TypeMismatch)),
            StateModel::Pending => GetModel::Wait(entry.version),
            StateModel::Spilling => GetModel::Wait(entry.version),
            StateModel::Spilled => if s.mem is Some {
                GetModel::ReadSpill(entry.generation)
            } else if !get.tried_remote {
                GetModel::FetchRemote
            } else {
                GetModel::Wait(entry.version)
            },
        }
    } else if get.tried_remote {
        GetModel::Done(Err(FaultModel::ObjectNotFound(get.id)))
    } else {
        GetModel::FetchRemote
    }
}

/// What is left to do once a spilled object cannot be loaded.
pub open spec fn unloadable<L>(s: StoreModel<L>, get: Get) -> GetModel {
    if !get.tried_remote {
        GetModel::FetchRemote
    } else if s.entries.contains_key(get.id) {
        GetModel::Wait(s.entries[get.id].version)
    } else {
        GetModel::Done(Err(FaultModel::ObjectNotFound(get.id)))
    }
}

/// A use of the object is noted.
pub open spec fn used<L>(s: StoreModel<L>, id: ObjectID) -> StoreModel<L> {
    if s.entries.contains_key(id) && s.entries[id].state is Bytes {
        StoreModel {
            mem: match s.mem {
                Some(mem) => Some(mem.touched(id, s.entries[id].generation)),
                None => None,
            },
            ..s
        }
    } else {
        s
    }
}

/// The generation is still spilled.
pub open spec fn is_spilled<L>(s: StoreModel<L>, id: ObjectID, generation: u64) -> bool {
    s.holds(id, generation) && s.entries[id].state is Spilled
}

/// A spilled object is in memory again.
pub open spec fn reloaded<L>(s: StoreModel<L>, id: ObjectID, bytes: Seq<u8>) -> StoreModel<L> {
    s.with_entry(
        id,
        EntryModel { size: bytes.len() as usize, ..s.entries[id].turned(StateModel::Bytes(bytes)) },
    )
}

impl<L> ObjectStore<L> {
    fn touch(&mut self, id: ObjectID, generation: u64)
        requires
            old(self).wf(),
            old(self)@.holds(id, generation),
            old(self)@.entries[id].state is Bytes,
        ensures
            final(self).wf(),
            final(self)@ == used(old(self)@, id),
    {
        let ghost before = self@;
        if let Some(mem) = &mut self.mem {
            mem.touch(id, generation);
        }
        assert(self@ =~= used(before, id));
    }

    /// Puts the content of a spill file back into memory, if its generation is
    /// still spilled. The first result says whether it was; the second, whether
    /// the file is to be deleted.
    fn load_from_disk(&mut self, id: ObjectID, generation: u64, bytes: Bytes, size: usize) -> (r: (
        bool,
        bool,
        Vec<SpillJob>,
    ))
        requires
            size == held_bytes(bytes).len(),
            old(self).wf(),
            old(self)@.mem is Some,
            old(self)@.mem->0.total + size <= usize::MAX,
        ensures
            final(self).wf(),
            r.0 == is_spilled(old(self)@, id, generation),
            r.1 == (r.0 || !old(self)@.entries.contains_key(id)),
            if r.0 {
                let filled = reloaded(old(self)@, id, held_bytes(bytes));
                let chosen = filled.choices(id, generation, size);
                &&& final(self)@ == filled.accounted(id, generation, size).begun(chosen)
                &&& jobs_model(r.2@) == filled.accounted(id, generation, size).jobs(chosen)
            } else {
                final(self)@ == old(self)@ && r.2@.len() == 0
            },
    {
        let ghost before = self@;
        let ghost content = held_bytes(bytes);
        let mut loaded = false;
        let mut missing = true;
        if let Some(entry) = self.map.get_mut(&id) {
            missing = false;
            if entry.generation == generation && matches!(&entry.state, EntryState::Spilled) {
                loaded = true;
                entry.state = EntryState::Bytes(bytes);
                entry.size_bytes = size;
                entry.version = bump(entry.version);
            }
        }
        proof {
            self.map.lemma_keys();
        }
        if !loaded {
            assert(self@ =~= before);
            return (false, missing, Vec::new());
        }
        assert(self@ =~= reloaded(before, id, content));
        let chosen = self.record_memory(id, generation, size);
        let spills = self.begin_spills(chosen);
        (true, true, spills)
    }
}

impl Get {
    /// A read of the object under an id.
    pub fn start(id: ObjectID) -> (r: Self)
        ensures
            r.id == id,
            !r.tried_remote,
    {
        Get { id, tried_remote: false }
    }

    /// Looks at the store. An object that is found counts as used.
    pub fn look<L>(&mut self, store: &mut ObjectStore<L>) -> (r: GetStep)
        requires
            old(store).wf(),
        ensures
            final(store).wf(),
            final(store)@ == used(old(store)@, old(self).id),
            r@ == looked(old(store)@, *old(self)),
            final(self).id == old(self).id,
            final(self).tried_remote == (old(self).tried_remote || (r is FetchRemote && old(
                store,
            )@.entries.contains_key(old(self).id))),
    {
        let ghost before = store@;
        let has_memory = store.mem.is_some();
        let (generation, step): (u64, GetStep) = match store.map.get(&self.id) {
            None => (
                0,
                if self.tried_remote {
                    GetStep::Done(Err(CrayonError::ObjectNotFound(self.id)))
                } else {
                    GetStep::FetchRemote
                },
            ),
            Some(entry) => {
                let step = match &entry.state {
                    EntryState::Bytes(bytes) => GetStep::Done(Ok(hold_too(bytes))),
                    EntryState::Failed(error) => GetStep::Done(Err(error.clone())),
                    EntryState::Local(_) => GetStep::Done(Err(CrayonError::TypeMismatch)),
                    EntryState::Pending => GetStep::Wait(entry.version),
                    EntryState::Spilling => GetStep::Wait(entry.version),
                    EntryState::Spilled => if has_memory {
                        GetStep::ReadSpill(entry.generation)
                    } else if !self.tried_remote {
                        GetStep::FetchRemote
                    } else {
                        GetStep::Wait(entry.version)
                    },
                };
                if matches!(&step, GetStep::FetchRemote) {
                    self.tried_remote = true;
                }
                (entry.generation, step)
            },
        };
        if matches!(&step, GetStep::Done(Ok(_))) {
            store.touch(self.id, generation);
        } else {
            assert(store@ =~= used(before, self.id));
        }
        step
    }

    /// Takes in the content of the spill file of a generation, or why it could
    /// not be read. The second result says whether the file is to be deleted.
    pub fn spill_read<L>(
        &mut self,
        store: &mut ObjectStore<L>,
        generation: u64,
        content: Result<Vec<u8>, String>,
    ) -> (r: (GetStep, bool, Vec<SpillJob>))
        requires
            old(store).wf(),
            old(store)@.mem is Some,
            content is Ok ==> old(store)@.mem->0.total + content->Ok_0@.len() <= usize::MAX,
        ensures
            final(store).wf(),
            final(self).id == old(self).id,
            spill_read_met(old(store)@, final(store)@, *old(self), *final(self), generation, content, r),
    {
        match content {
            Err(message) => (GetStep::Done(Err(CrayonError::TaskFailed(message))), false, Vec::new()),
            Ok(bytes) => {
                let size: usize = bytes.len();
                let shared = hold(bytes);
                let (loaded, delete, spills) = store.load_from_disk(self.id, generation, hold_too(&shared), size);
                if loaded {
                    return (GetStep::Done(Ok(shared)), delete, spills);
                }
                if !self.tried_remote {
                    self.tried_remote = true;
                    return (GetStep::FetchRemote, delete, spills);
                }
                let step = match store.map.get(&self.id) {
                    Some(entry) => GetStep::Wait(entry.version),
                    None => GetStep::Done(Err(CrayonError::ObjectNotFound(self.id))),
                };
                (step, delete, spills)
            },
        }
    }

    /// Takes in what the other nodes have of the object. What one of them had is
    /// stored here too.
    pub fn remote_answer<L>(&mut self, store: &mut ObjectStore<L>, bytes: Option<Vec<u8>>, now: u64) -> (r: (
        GetStep,
        Aftermath,
    ))
        requires
            old(store).wf(),
            bytes is Some ==> old(store)@.has_room(bytes->0@.len() as usize),
        ensures
            final(store).wf(),
            *final(self) == *old(self),
            match bytes {
                Some(content) => {
                    &&& r.0@ == GetModel::Done(Ok(content@))
                    &&& replaced_met(
                        old(store)@,
                        final(store)@,
                        old(self).id,
                        old(store)@.new_entry(StateModel::Bytes(content@), content@.len() as usize, 0, None),
                        now,
                        r.1,
                    )
                },
                None => {
                    &&& final(store)@ == old(store)@
                    &&& r.1.stale is None
                    &&& r.1.spills@.len() == 0
                    &&& r.0@ == if old(self).tried_remote && old(store)@.entries.contains_key(old(self).id) {
                        GetModel::Wait(old(store)@.entries[old(self).id].version)
                    } else {
                        GetModel::Done(Err(FaultModel::ObjectNotFound(old(self).id)))
                    }
                },
            },
    {
        match bytes {
            Some(content) => {
                let size: usize = content.len();
                let shared = hold(content);
                let (_, aftermath) = store.replace_entry(
                    self.id,
                    None,
                    EntryState::Bytes(hold_too(&shared)),
                    size,
                    0,
                    now,
                );
                (GetStep::Done(Ok(shared)), aftermath)
            },
            None => {
                let aftermath = Aftermath { stale: None, spills: Vec::new() };
                if self.tried_remote {
                    if let Some(entry) = store.map.get(&self.id) {
                        return (GetStep::Wait(entry.version), aftermath);
                    }
                }
                (GetStep::Done(Err(CrayonError::ObjectNotFound(self.id))), aftermath)
            },
        }
    }

    /// The error of a read that waited for too long.
    pub fn timed_out(&self) -> (r: CrayonError)
        ensures
            r@ == FaultModel::Timeout(self.id),
    {
        CrayonError::Timeout(self.id)
    }
}

/// What the content of a spill file leads to.
pub open spec fn spill_read_met<L>(
    before: StoreModel<L>,
    after: StoreModel<L>,
    get: Get,
    get_after: Get,
    generation: u64,
    content: Result<Vec<u8>, String>,
    r: (GetStep, bool, Vec<SpillJob>),
) -> bool {
    match content {
        Err(message) => {
            &&& after == before
            &&& get_after == get
            &&& r.0@ == GetModel::Done(Err(FaultModel::TaskFailed(message@)))
            &&& !r.1
            &&& r.2@.len() == 0
        },
        Ok(bytes) => if is_spilled(before, get.id, generation) {
            let size = bytes@.len() as usize;
            let filled = reloaded(before, get.id, bytes@);
            let chosen = filled.choices(get.id, generation, size);
            &&& get_after == get
            &&& r.0@ == GetModel::Done(Ok(bytes@))
            &&& r.1
            &&& after == filled.accounted(get.id, generation, size).begun(chosen)
            &&& jobs_model(r.2@) == filled.accounted(get.id, generation, size).jobs(chosen)
        } else {
            &&& after == before
            &&& get_after.tried_remote
            &&& r.0@ == unloadable(before, get)
            &&& r.1 == !before.entries.contains_key(get.id)
            &&& r.2@.len() == 0
        },
    }
}

/// What is in the store in memory is what a read gives, and the store stays as it
/// was but for the order of use.
pub proof fn law_read_gives_back_stored<L>(s: StoreModel<L>, get: Get, bytes: Seq<u8>)
    requires
        s.entries.contains_key(get.id),
        s.entries[get.id].state == StateModel::<L>::Bytes(bytes),
    ensures
        looked(s, get) == GetModel::Done(Ok(bytes)),
        used(s, get.id).entries == s.entries,
{
}

/// A spilled object whose file holds what was written is read back whole.
pub proof fn law_spill_round_trip<L>(
    spilling: StoreModel<L>,
    job: JobModel,
    after: StoreModel<L>,
    get: Get,
    get_after: Get,
    content: Vec<u8>,
    r: (GetStep, bool, Vec<SpillJob>),
)
    requires
        spilling.holds(job.id, job.generation),
        spilling.mem is Some,
        get.id == job.id,
        content@ == job.bytes,
        spill_read_met(
            spill_finished(spilling, job, true),
            after,
            get,
            get_after,
            job.generation,
            Ok(content),
            r,
        ),
    ensures
        looked(spill_finished(spilling, job, true), get) == GetModel::ReadSpill(job.generation),
        r.0@ == GetModel::Done(Ok(job.bytes)),
{
}

/// Letting go of a reference, or of a pin, to the current generation takes one off its
/// count; and where that was the last use of any kind, nothing of the object is left:
/// no entry, no record, and no memory accounted to it. Other objects are as they were.
pub proof fn law_last_use_leaves_no_trace<L>(s: StoreModel<L>, id: ObjectID, generation: u64)
    requires
        s.wf(),
        s.entries.contains_key(id),
        s.entries[id].generation == generation,
    ensures
        s.entries[id].refcount > 0 ==> {
            let n = unreferenced(s, id, generation);
            if s.entries[id].refcount == 1 && s.entries[id].pins == 0 && s.entries[id].producers == 0 {
                &&& n.entries == s.entries.remove(id)
                &&& s.gcs is Some ==> n.gcs->0.objects == s.gcs->0.objects.remove(id) && n.gcs->0.tasks
                    == s.gcs->0.tasks
                &&& s.mem is Some ==> n.mem->0 == s.mem->0.removed(id, generation)
            } else {
                n == StoreModel {
                    entries: s.entries.insert(
                        id,
                        EntryModel { refcount: (s.entries[id].refcount - 1) as usize, ..s.entries[id] },
                    ),
                    ..s
                }
            }
        },
        s.entries[id].pins > 0 ==> {
            let n = unpinned(s, id, generation);
            if s.entries[id].pins == 1 && s.entries[id].refcount == 0 && s.entries[id].producers == 0 {
                &&& n.entries == s.entries.remove(id)
                &&& s.gcs is Some ==> n.gcs->0.objects == s.gcs->0.objects.remove(id) && n.gcs->0.tasks
                    == s.gcs->0.tasks
                &&& s.mem is Some ==> n.mem->0 == s.mem->0.removed(id, generation)
            } else {
                n == StoreModel {
                    entries: s.entries.insert(
                        id,
                        EntryModel { pins: (s.entries[id].pins - 1) as usize, ..s.entries[id] },
                    ),
                    ..s
                }
            }
        },
{
    let fewer = s.with_entry(id, EntryModel { refcount: less_one(s.entries[id].refcount), ..s.entries[id] });
    assert(fewer.entries.remove(id) =~= s.entries.remove(id));
    let unpinned_once = s.with_entry(id, EntryModel { pins: less_one(s.entries[id].pins), ..s.entries[id] });
    assert(unpinned_once.entries.remove(id) =~= s.entries.remove(id));
}

/// A reference or a pin to an earlier generation counts for nothing.
pub proof fn law_old_uses_count_for_nothing<L>(s: StoreModel<L>, id: ObjectID, generation: u64)
    requires
        !s.entries.contains_key(id) || s.entries[id].generation != generation,
    ensures
        unreferenced(s, id, generation) == s,
        unpinned(s, id, generation) == s,
        s.dropped(id, generation) == s,
{
}

/// A read is answered by the state of the object: its bytes, or what went wrong, at
/// once; that a local value can not be read so; and otherwise a wait while it is still
/// to come or on its way to disk, the file where it was written, and the other nodes,
/// once, where it is not here.
pub proof fn law_read_follows_the_state<L>(s: StoreModel<L>, get: Get)
    ensures
        !s.entries.contains_key(get.id) && !get.tried_remote ==> looked(s, get) is FetchRemote,
        !s.entries.contains_key(get.id) && get.tried_remote ==> looked(s, get) == GetModel::Done(
            Err(FaultModel::ObjectNotFound(get.id)),
        ),
        s.entries.contains_key(get.id) ==> {
            let entry = s.entries[get.id];
            &&& entry.state matches StateModel::Bytes(bytes) ==> looked(s, get) == GetModel::Done(Ok(bytes))
            &&& entry.state matches StateModel::Failed(error) ==> looked(s, get) == GetModel::Done(Err(error))
            &&& entry.state is Local ==> looked(s, get) == GetModel::Done(Err(FaultModel::TypeMismatch))
            &&& entry.state is Pending || entry.state is Spilling ==> looked(s, get) == GetModel::Wait(entry.version)
            &&& entry.state is Spilled && s.mem is Some ==> looked(s, get) == GetModel::ReadSpill(entry.generation)
            &&& entry.state is Spilled && s.mem is None && !get.tried_remote ==> looked(s, get) is FetchRemote
            &&& entry.state is Spilled && s.mem is None && get.tried_remote ==> looked(s, get) == GetModel::Wait(
                entry.version,
            )
        },
{
}

/// A waiting reader can tell that something happened: whenever the state of an entry
/// changes, so does its version.
pub proof fn law_versions_tell_of_changes<L>(entry: EntryModel<L>, state: StateModel<L>)
    ensures
        entry.turned(state).version != entry.version,
        entry.turned(state) == (EntryModel { state, version: entry.turned(state).version, ..entry }),
        entry.version < u64::MAX ==> entry.turned(state).version == entry.version + 1,
{
}

/// What is on disk after all is read from there; what could not be written has its
/// bytes and its place in the accounts back. A file of an earlier generation changes
/// nothing.
pub proof fn law_spill_ends_on_disk_or_in_memory<L>(s: StoreModel<L>, job: JobModel, written: bool)
    ensures
        !s.entries.contains_key(job.id) || s.entries[job.id].generation != job.generation ==> spill_finished(
            s,
            job,
            written,
        ) == s,
        s.entries.contains_key(job.id) && s.entries[job.id].generation == job.generation ==> {
            let n = spill_finished(s, job, written);
            &&& n.entries == s.entries.insert(
                job.id,
                EntryModel {
                    state: if written {
                        StateModel::Spilled
                    } else {
                        StateModel::Bytes(job.bytes)
                    },
                    version: n.entries[job.id].version,
                    ..s.entries[job.id]
                },
            )
            &&& n.entries[job.id].version != s.entries[job.id].version
            &&& written ==> n.mem == s.mem
            &&& !written && s.mem is Some ==> n.mem == Some(s.mem->0.restored(job.id, job.generation, job.size))
            &&& n.gcs == s.gcs
            &&& n.next_generation == s.next_generation
        },
{
}

/// A producer that fails leaves its error, for as long as somebody refers to the object
/// or has pinned it. One that gives up leaves the object as it is while there are other
/// producers, and as not found if it was the last. Either way one producer fewer is
/// owed.
pub proof fn law_failed_producer_leaves_its_error<L>(
    before: StoreModel<L>,
    after: StoreModel<L>,
    lease: ProducerLease,
    result: Option<Result<Vec<u8>, CrayonError>>,
    owner_node: Option<NodeID>,
    now: u64,
    r: (bool, Aftermath),
)
    requires
        lease_met(before, after, lease, result, owner_node, now, r),
        !(result matches Some(Ok(_))),
        !lease.finished,
        before.entries.contains_key(lease.id),
        before.entries[lease.id].generation == lease.generation,
        before.entries[lease.id].producers > 0,
        before.entries[lease.id].refcount > 0 || before.entries[lease.id].pins > 0,
    ensures
        r.0,
        ({
            let entry = before.entries[lease.id];
            let next = after.entries[lease.id];
            &&& after == StoreModel { entries: before.entries.insert(lease.id, next), ..before }
            &&& next.producers == entry.producers - 1
            &&& next.refcount == entry.refcount
            &&& next.pins == entry.pins
            &&& next.generation == entry.generation
            &&& result matches Some(Err(error)) ==> next.state == StateModel::<L>::Failed(error@)
            &&& result is None && entry.producers == 1 ==> next.state == StateModel::<L>::Failed(
                FaultModel::ObjectNotFound(lease.id),
            )
            &&& result is None && entry.producers > 1 ==> next.state == entry.state && next.version == entry.version
        }),
{
    let entry = before.entries[lease.id];
    let owing = before.with_entry(lease.id, EntryModel { producers: less_one(entry.producers), ..entry });
    assert(after.entries =~= before.entries.insert(lease.id, after.entries[lease.id]));
}

/// A lease that has handed in its result, or is of an earlier generation, or for which
/// no producer is owed any more, changes nothing.
pub proof fn law_spent_lease_changes_nothing<L>(
    before: StoreModel<L>,
    after: StoreModel<L>,
    lease: ProducerLease,
    result: Option<Result<Vec<u8>, CrayonError>>,
    owner_node: Option<NodeID>,
    now: u64,
    r: (bool, Aftermath),
)
    requires
        lease_met(before, after, lease, result, owner_node, now, r),
        lease.finished || !before.entries.contains_key(lease.id) || before.entries[lease.id].generation
            != lease.generation || before.entries[lease.id].producers == 0,
    ensures
        after == before,
        !r.0,
        r.1.stale is None,
        r.1.spills@.len() == 0,
{
    assert(jobs_model(r.1.spills@).len() == r.1.spills@.len());
}

/// An output is on record with its size, its node and the time at which it came, and
/// one producer fewer is owed for it.
pub proof fn law_output_is_on_record<L>(
    before: StoreModel<L>,
    after: StoreModel<L>,
    lease: ProducerLease,
    bytes: Vec<u8>,
    owner_node: Option<NodeID>,
    now: u64,
    r: (bool, Aftermath),
)
    requires
        before.wf(),
        lease_met(before, after, lease, Some(Ok(bytes)), owner_node, now, r),
        !lease.finished,
        before.entries.contains_key(lease.id),
        before.entries[lease.id].generation == lease.generation,
        before.entries[lease.id].producers > 0,
    ensures
        r.0,
        after.entries[lease.id].producers == before.entries[lease.id].producers - 1,
        after.entries[lease.id].pins == before.entries[lease.id].pins,
        after.entries[lease.id].owner_node == owner_node,
        before.gcs is Some ==> after.gcs->0.objects.contains_key(lease.id) && after.gcs->0.objects[lease.id] == (
        ObjectMeta { id: lease.id, size_bytes: bytes@.len() as usize, created_at: now, owner: None, owner_node }),
{
    let entry = before.entries[lease.id];
    let size = bytes@.len() as usize;
    let owing = before.with_entry(lease.id, EntryModel { producers: less_one(entry.producers), ..entry });
    let filled = owing.with_entry(
        lease.id,
        EntryModel { owner_node, size, ..owing.entries[lease.id].turned(StateModel::Bytes(bytes@)) },
    ).published(lease.id, size, owner_node, now);
    let counted = filled.accounted(lease.id, lease.generation, size);
    let chosen = filled.choices(lease.id, lease.generation, size);
    lemma_begun_keeps(counted, chosen, lease.id);
}

proof fn lemma_begun_keeps<L>(s: StoreModel<L>, list: Seq<Eviction>, id: ObjectID)
    requires
        s.entries.contains_key(id),
    ensures
        s.begun(list).mem == s.mem,
        s.begun(list).gcs == s.gcs,
        s.begun(list).next_generation == s.next_generation,
        s.begun(list).entries.contains_key(id),
        s.begun(list).entries[id].generation == s.entries[id].generation,
        s.begun(list).entries[id].refcount == s.entries[id].refcount,
        s.begun(list).entries[id].producers == s.entries[id].producers,
        s.begun(list).entries[id].pins == s.entries[id].pins,
        s.begun(list).entries[id].owner_node == s.entries[id].owner_node,
        s.begun(list).entries[id].size == s.entries[id].size,
    decreases list.len(),
{
    if list.len() > 0 {
        lemma_begun_keeps(s, list.drop_last(), id);
    }
}

/// Bytes that are put replace whatever was under their id, as a new generation with
/// nobody's claim on it; they are on record with their size, node and time; and the file
/// of what they replace is stale.
pub proof fn law_put_starts_a_new_generation<L>(
    before: StoreModel<L>,
    after: StoreModel<L>,
    id: ObjectID,
    bytes: Seq<u8>,
    owner_node: Option<NodeID>,
    now: u64,
    aftermath: Aftermath,
)
    requires
        before.wf(),
        before.next_generation < u64::MAX,
        0 < bytes.len() <= usize::MAX,
        replaced_met(
            before,
            after,
            id,
            before.new_entry(StateModel::Bytes(bytes), bytes.len() as usize, 0, owner_node),
            now,
            aftermath,
        ),
    ensures
        after.next_generation == before.next_generation + 1,
        after.entries.contains_key(id),
        after.entries[id].generation == before.next_generation,
        after.entries[id].refcount == 0,
        after.entries[id].producers == 0,
        after.entries[id].pins == 0,
        after.entries[id].owner_node == owner_node,
        after.entries[id].size == bytes.len(),
        before.gcs is Some ==> after.gcs->0.objects.contains_key(id) && after.gcs->0.objects[id] == (ObjectMeta {
            id,
            size_bytes: bytes.len() as usize,
            created_at: now,
            owner: None,
            owner_node,
        }),
        aftermath.stale is Some <==> before.entries.contains_key(id) && before.mem is Some,
        aftermath.stale is Some ==> aftermath.stale == Some((id, before.entries[id].generation)),
{
    let entry = before.new_entry(StateModel::Bytes(bytes), bytes.len() as usize, 0, owner_node);
    let placed = before.placed(id, entry, now);
    lemma_placed(before, id, entry, now);
    lemma_begun_keeps(placed, before.placing(id, entry), id);
}

/// An object is there, and is counted, from the moment its bytes or value came, also
/// while they are on their way to disk or there; not while it is still to come, nor when
/// it failed.
pub proof fn law_present_objects<L>(entry: EntryModel<L>)
    ensures
        entry.present() <==> !(entry.state is Pending) && !(entry.state is Failed),
        entry.present() ==> present_weight::<L>()(entry) == 1,
        !entry.present() ==> present_weight::<L>()(entry) == 0,
{
}

/// Bytes that are put for a caller come with one reference, which is the caller's; what
/// else the entry says is what a put says.
pub proof fn law_put_gives_one_reference<L>(
    before: StoreModel<L>,
    after: StoreModel<L>,
    id: ObjectID,
    bytes: Seq<u8>,
    now: u64,
    aftermath: Aftermath,
)
    requires
        before.wf(),
        before.next_generation < u64::MAX,
        0 < bytes.len() <= usize::MAX,
        put_met(before, after, id, bytes, now, aftermath),
    ensures
        after.next_generation == before.next_generation + 1,
        after.entries.contains_key(id),
        after.entries[id].generation == before.next_generation,
        after.entries[id].refcount == 1,
        after.entries[id].producers == 0,
        after.entries[id].pins == 0,
        after.entries[id].size == bytes.len(),
{
    let entry = before.new_entry(StateModel::Bytes(bytes), bytes.len() as usize, 0, None);
    let mid = choose|mid: StoreModel<L>| #[trigger]
        replaced_met(before, mid, id, entry, now, aftermath) && after == mid.with_entry(
            id,
            EntryModel { refcount: (mid.entries[id].refcount + 1) as usize, ..mid.entries[id] },
        );
    law_put_starts_a_new_generation(before, mid, id, bytes, None, now, aftermath);
}

/// What replaces an object without bytes in memory takes no memory, and what it replaces
/// is not counted any more.
pub proof fn law_replaced_object_takes_no_memory<L>(
    before: StoreModel<L>,
    after: StoreModel<L>,
    id: ObjectID,
    entry: EntryModel<L>,
    now: u64,
    aftermath: Aftermath,
)
    requires
        before.wf(),
        before.mem is Some,
        before.entries.contains_key(id),
        !(entry.state is Bytes),
        replaced_met(before, after, id, entry, now, aftermath),
    ensures
        after.entries == before.entries.insert(id, entry),
        after.mem is Some,
        ({
            let mem = before.mem->0;
            let left = after.mem->0;
            let counted = mem.sizes.contains_key(id) && mem.sizes[id].generation == before.entries[id].generation;
            &&& counted ==> !left.sizes.contains_key(id) && left.total == mem.total - mem.sizes[id].size
            &&& !counted ==> left.sizes == mem.sizes && left.total == mem.total
            &&& forall|other: ObjectID| other != id ==> #[trigger] left.sizes.contains_key(other)
                == mem.sizes.contains_key(other)
        }),
        aftermath.spills@.len() == 0,
{
    assert(jobs_model(aftermath.spills@).len() == aftermath.spills@.len());
}

/// A file is stale exactly when the generation that it holds leaves a store that spills.
pub proof fn law_file_is_stale_with_its_object<L>(s: StoreModel<L>, id: ObjectID, generation: u64)
    ensures
        stale_file(s, id, generation) is Some <==> s.mem is Some && s.entries.contains_key(id)
            && s.entries[id].generation == generation,
        stale_file(s, id, generation) matches Some(file) ==> file.0 == id && file.1 == generation,
{
}

/// An object that is reserved is there afterwards: as it was if it was there, and
/// otherwise as one still to come that nobody has a claim on. No other is touched.
pub proof fn law_reserved_object_is_to_come<L>(s: StoreModel<L>, id: ObjectID)
    requires
        s.next_generation < u64::MAX,
    ensures
        ensured(s, id).entries.contains_key(id),
        s.entries.contains_key(id) ==> ensured(s, id) == s,
        !s.entries.contains_key(id) ==> {
            let entry = ensured(s, id).entries[id];
            &&& entry.state is Pending
            &&& entry.generation == s.next_generation
            &&& ensured(s, id).next_generation == s.next_generation + 1
            &&& entry.refcount == 0 && entry.producers == 0 && entry.pins == 0 && entry.size == 0
            &&& entry.owner_node is None
            &&& ensured(s, id).mem == s.mem
            &&& ensured(s, id).gcs == s.gcs
        },
        forall|other: ObjectID| other != id ==> #[trigger] ensured(s, id).entries.contains_key(other)
            == s.entries.contains_key(other) && ensured(s, id).entries[other] == s.entries[other],
{
}

/// To read bytes that are in memory is to use them: they are the last to be spilled. A
/// read changes nothing else, and of anything else nothing at all.
pub proof fn law_reading_is_using<L>(s: StoreModel<L>, id: ObjectID)
    ensures
        used(s, id).entries == s.entries,
        used(s, id).gcs == s.gcs,
        used(s, id).next_generation == s.next_generation,
        !(s.entries.contains_key(id) && s.entries[id].state is Bytes) ==> used(s, id) == s,
        s.entries.contains_key(id) && s.entries[id].state is Bytes && s.mem is Some ==> {
            let generation = s.entries[id].generation;
            let mem = s.mem->0;
            let left = used(s, id).mem->0;
            &&& used(s, id).mem is Some
            &&& left.sizes == mem.sizes && left.total == mem.total
            &&& mem.sizes.contains_key(id) && mem.sizes[id].generation == generation ==> left.lru.len() > 0
                && left.lru.last() == (id, generation)
        },
{
}

/// A spilled object whose file was read is answered with what the file held. If that fits
/// in memory it is there again, counted with its size, and nothing is spilled for it.
pub proof fn law_spilled_object_is_read_back<L>(
    before: StoreModel<L>,
    after: StoreModel<L>,
    get: Get,
    get_after: Get,
    generation: u64,
    bytes: Vec<u8>,
    r: (GetStep, bool, Vec<SpillJob>),
)
    requires
        before.wf(),
        before.mem is Some,
        before.entries.contains_key(get.id),
        before.entries[get.id].generation == generation,
        before.entries[get.id].state is Spilled,
        !before.mem->0.sizes.contains_key(get.id),
        bytes@.len() <= usize::MAX,
        spill_read_met(before, after, get, get_after, generation, Ok(bytes), r),
    ensures
        r.0@ == GetModel::Done(Ok::<Seq<u8>, FaultModel>(bytes@)),
        r.1,
        get_after == get,
        before.mem->0.total + bytes@.len() <= before.mem->0.max ==> {
            let entry = after.entries[get.id];
            let mem = after.mem->0;
            &&& r.2@.len() == 0
            &&& after.entries.contains_key(get.id)
            &&& entry.state == StateModel::<L>::Bytes(bytes@)
            &&& entry.size == bytes@.len()
            &&& entry.refcount == before.entries[get.id].refcount
            &&& entry.pins == before.entries[get.id].pins
            &&& entry.version != before.entries[get.id].version
            &&& after.mem is Some
            &&& mem.sizes.contains_key(get.id)
            &&& mem.sizes[get.id].size == bytes@.len()
            &&& mem.sizes[get.id].generation == generation
            &&& mem.total == before.mem->0.total + bytes@.len()
        },
{
    let filled = reloaded(before, get.id, bytes@);
    let stored = before.mem->0.stored(get.id, generation, bytes@.len() as usize);
    if before.mem->0.total + bytes@.len() <= before.mem->0.max {
        assert(!stored.over_budget());
        assert(filled.choices(get.id, generation, bytes@.len() as usize) =~= Seq::empty());
        assert(jobs_model(r.2@).len() == r.2@.len());
    }
}

/// A file that no longer belongs to the object that is read is of no use: nothing is
/// stored, the object is asked for elsewhere if it was not yet, and otherwise it is waited
/// for if it is still to come. The file may go if the object is gone.
pub proof fn law_outdated_file_is_not_read<L>(
    before: StoreModel<L>,
    after: StoreModel<L>,
    get: Get,
    get_after: Get,
    generation: u64,
    bytes: Vec<u8>,
    r: (GetStep, bool, Vec<SpillJob>),
)
    requires
        !(before.entries.contains_key(get.id) && before.entries[get.id].generation == generation
            && before.entries[get.id].state is Spilled),
        spill_read_met(before, after, get, get_after, generation, Ok(bytes), r),
    ensures
        after == before,
        get_after.tried_remote,
        !get.tried_remote ==> r.0@ is FetchRemote,
        get.tried_remote && before.entries.contains_key(get.id) ==> r.0@ == GetModel::Wait(
            before.entries[get.id].version,
        ),
        get.tried_remote && !before.entries.contains_key(get.id) ==> r.0@ == GetModel::Done(
            Err::<Seq<u8>, FaultModel>(FaultModel::ObjectNotFound(get.id)),
        ),
        r.1 <==> !before.entries.contains_key(get.id),
        r.2@.len() == 0,
{
}

/// A file that could not be read fails the read with the reason, and changes nothing.
pub proof fn law_unreadable_file_fails_the_read<L>(
    before: StoreModel<L>,
    after: StoreModel<L>,
    get: Get,
    get_after: Get,
    generation: u64,
    message: String,
    r: (GetStep, bool, Vec<SpillJob>),
)
    requires
        spill_read_met(before, after, get, get_after, generation, Err(message), r),
    ensures
        after == before,
        get_after == get,
        r.0@ == GetModel::Done(Err::<Seq<u8>, FaultModel>(FaultModel::TaskFailed(message@))),
        !r.1,
        r.2@.len() == 0,
{
}

} // verus!
