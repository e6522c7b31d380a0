//! Named artifacts in numbered versions, with a bounded history per name.
//!
//! The content of each version is pinned in the object store for as long as the
//! version is in the history.
use vstd::prelude::*;
use vstd::string::*;

use crate::common::ObjectID;
use crate::object_store::{
    law_spilling_keeps_the_rest, lemma_placed, replaced_met, stale_file, unpinned, Aftermath, EntryModel, ObjectStore,
    StateModel, StoreModel,
};
use crate::table::Table;

verus! {

/// One version of an artifact.
#[derive(Debug)]
pub struct VersionMeta {
    pub name: String,
    pub version: u64,
    /// When it was stored, in seconds.
    pub created_at: u64,
    pub object_id: ObjectID,
    pub generation: u64,
    pub size_bytes: usize,
}

impl Clone for VersionMeta {
    fn clone(&self) -> (r: Self)
        ensures
            r == *self,
    {
        VersionMeta {
            name: self.name.clone(),
            version: self.version,
            created_at: self.created_at,
            object_id: self.object_id,
            generation: self.generation,
            size_bytes: self.size_bytes,
        }
    }
}

pub type History = Seq<VersionMeta>;

/// The place of a version in a history; the length if it is not there.
pub open spec fn place_of(history: History, version: u64) -> int
    decreases history.len(),
{
    if history.len() == 0 {
        0
    } else if history[0].version == version {
        0
    } else {
        1 + place_of(history.drop_first(), version)
    }
}

/// A history without a version.
pub open spec fn without(history: History, version: u64) -> History {
    let place = place_of(history, version);
    if place < history.len() {
        history.remove(place)
    } else {
        history
    }
}

/// A history with a new version at its end, cut to the last `keep` if `keep` is
/// not zero.
pub open spec fn extended(history: History, meta: VersionMeta, keep: int) -> History {
    let longer = without(history, meta.version).push(meta);
    if keep > 0 && longer.len() > keep {
        longer.skip(longer.len() - keep)
    } else {
        longer
    }
}

/// The versions that leave the history when one is added: the one that it takes
/// the place of, and then the oldest.
pub open spec fn leaving(history: History, meta: VersionMeta, keep: int) -> History {
    let place = place_of(history, meta.version);
    let replaced = if place < history.len() {
        seq![history[place]]
    } else {
        Seq::empty()
    };
    let longer = without(history, meta.version).push(meta);
    if keep > 0 && longer.len() > keep {
        replaced + longer.take(longer.len() - keep)
    } else {
        replaced
    }
}

/// No version is in the history twice.
pub open spec fn distinct(history: History) -> bool {
    forall|i: int, j: int|
        0 <= i < j < history.len() ==> (#[trigger] history[i]).version != (#[trigger] history[j]).version
}

proof fn lemma_place(history: History, version: u64)
    ensures
        0 <= place_of(history, version) <= history.len(),
        place_of(history, version) < history.len() ==> history[place_of(history, version)].version == version,
        forall|i: int| 0 <= i < place_of(history, version) ==> (#[trigger] history[i]).version != version,
    decreases history.len(),
{
    if history.len() > 0 && history[0].version != version {
        lemma_place(history.drop_first(), version);
        let rest = history.drop_first();
        assert forall|i: int| 0 <= i < place_of(history, version) implies (#[trigger] history[i]).version != version by {
            if i > 0 {
                assert(rest[i - 1] == history[i]);
            }
        }
    }
}

proof fn lemma_place_is(history: History, version: u64, place: int)
    requires
        0 <= place <= history.len(),
        forall|i: int| 0 <= i < place ==> (#[trigger] history[i]).version != version,
        place < history.len() ==> history[place].version == version,
    ensures
        place_of(history, version) == place,
    decreases history.len(),
{
    if place > 0 {
        assert(history[0].version != version);
        let rest = history.drop_first();
        assert forall|i: int| 0 <= i < place - 1 implies (#[trigger] rest[i]).version != version by {
            assert(rest[i] == history[i + 1]);
        }
        lemma_place_is(rest, version, place - 1);
    }
}

/// However versions are added, a history holds each at most once, ends with the
/// latest, and is no longer than what is to be kept.
pub proof fn law_history_is_bounded(history: History, meta: VersionMeta, keep: int)
    requires
        distinct(history),
        keep >= 0,
        keep > 0 ==> history.len() <= keep,
    ensures
        distinct(extended(history, meta, keep)),
        extended(history, meta, keep).last() == meta,
        extended(history, meta, keep).len() > 0,
        keep > 0 ==> extended(history, meta, keep).len() <= keep,
{
    let place = place_of(history, meta.version);
    lemma_place(history, meta.version);
    let rest = without(history, meta.version);
    let longer = rest.push(meta);
    assert forall|i: int| 0 <= i < rest.len() implies (#[trigger] rest[i]).version != meta.version by {
        if place < history.len() {
            if i < place {
                assert(rest[i] == history[i]);
            } else {
                assert(rest[i] == history[i + 1]);
                assert(history[place].version != history[i + 1].version);
            }
        }
    }
    assert forall|i: int, j: int| 0 <= i < j < longer.len() implies (#[trigger] longer[i]).version != (
    #[trigger] longer[j]).version by {
        if j < rest.len() {
            let a = if place < history.len() && i >= place {
                i + 1
            } else {
                i
            };
            let b = if place < history.len() && j >= place {
                j + 1
            } else {
                j
            };
            assert(rest[i] == history[a] && rest[j] == history[b]);
            assert(history[a].version != history[b].version);
        } else {
            assert(longer[i] == rest[i]);
        }
    }
    let cut = extended(history, meta, keep);
    if keep > 0 && longer.len() > keep {
        let by = longer.len() - keep;
        assert forall|i: int, j: int| 0 <= i < j < cut.len() implies (#[trigger] cut[i]).version != (
        #[trigger] cut[j]).version by {
            assert(cut[i] == longer[i + by] && cut[j] == longer[j + by]);
        }
    }
}

/// A version that was added is found under its number, and the versions that
/// stay are those that were there.
pub proof fn law_added_version_is_found(history: History, meta: VersionMeta, keep: int)
    requires
        distinct(history),
        keep >= 0,
        keep > 0 ==> history.len() <= keep,
    ensures
        ({
            let next = extended(history, meta, keep);
            &&& place_of(next, meta.version) == next.len() - 1
            &&& next[place_of(next, meta.version)] == meta
        }),
{
    law_history_is_bounded(history, meta, keep);
    let next = extended(history, meta, keep);
    assert forall|i: int| 0 <= i < next.len() - 1 implies (#[trigger] next[i]).version != meta.version by {
        assert(next[i].version != next[next.len() - 1].version);
    }
    lemma_place_is(next, meta.version, next.len() - 1);
}

/// The store after the content of these versions is no longer pinned.
pub open spec fn unpinned_all<L>(s: StoreModel<L>, list: History) -> StoreModel<L>
    decreases list.len(),
{
    if list.len() == 0 {
        s
    } else {
        unpinned(unpinned_all(s, list.drop_last()), list.last().object_id, list.last().generation)
    }
}

/// The spill files that may be left when these versions are no longer pinned.
pub open spec fn left_files<L>(s: StoreModel<L>, list: History) -> Seq<(ObjectID, u64)>
    decreases list.len(),
{
    if list.len() == 0 {
        Seq::empty()
    } else {
        let before = unpinned_all(s, list.drop_last());
        let last = list.last();
        let files = left_files(s, list.drop_last());
        if !unpinned(before, last.object_id, last.generation).entries.contains_key(last.object_id) && stale_file(
            before,
            last.object_id,
            last.generation,
        ) is Some {
            files.push((last.object_id, last.generation))
        } else {
            files
        }
    }
}

/// Versioned artifacts on top of an object store.
#[verifier::reject_recursive_types(L)]
#[derive(Debug)]
pub struct VersionedStore<L> {
    store: ObjectStore<L>,
    versions: Table<String, Vec<VersionMeta>>,
    keep_last: usize,
}

impl<L> VersionedStore<L> {
    pub closed spec fn store(&self) -> StoreModel<L> {
        self.store@
    }

    /// The history under each name.
    pub closed spec fn versions(&self) -> Map<Seq<char>, History> {
        self.versions@
    }

    pub closed spec fn keep(&self) -> usize {
        self.keep_last
    }

    pub closed spec fn tables_ok(&self) -> bool {
        self.versions.wf() && self.store.wf()
    }

    /// Every history is bounded, holds no version twice, and is not empty.
    pub open spec fn wf(&self) -> bool {
        &&& self.tables_ok()
        &&& self.store().wf()
        &&& forall|name: Seq<char>| #[trigger]
            self.versions().contains_key(name) ==> {
                &&& distinct(self.versions()[name])
                &&& self.versions()[name].len() > 0
                &&& self.keep() > 0 ==> self.versions()[name].len() <= self.keep()
            }
    }

    /// The history under a name; empty if there is none.
    pub open spec fn spec_history(&self, name: Seq<char>) -> History {
        if self.versions().contains_key(name) {
            self.versions()[name]
        } else {
            Seq::empty()
        }
    }

    /// Keeps the last `keep_last` versions of each name; all of them if that is
    /// zero.
    pub fn new(store: ObjectStore<L>, keep_last: usize) -> (r: Self)
        requires
            store.wf(),
        ensures
            r.wf(),
            r.store() == store@,
            r.versions() == Map::<Seq<char>, History>::empty(),
            r.keep() == keep_last,
    {
        VersionedStore { store, versions: Table::new(), keep_last }
    }

    /// The objects behind the versions, to read from.
    pub fn objects(&mut self) -> (r: &mut ObjectStore<L>)
        requires
            old(self).wf(),
        ensures
            r.wf(),
            r@ == old(self).store(),
            final(self).store() == final(r)@,
            final(self).versions() == old(self).versions(),
            final(self).keep() == old(self).keep(),
            final(r).wf() ==> final(self).wf(),
    {
        proof {
            let before = *self;
            assert forall|after: Self|
                after.versions == before.versions && after.keep_last == before.keep_last && (
                #[trigger] after.store).wf() implies after.wf() by {
                assert(after.versions() == before.versions());
            }
        }
        &mut self.store
    }

    /// The versions of a name that are kept, oldest first.
    pub fn history(&self, name: &str) -> (r: Vec<VersionMeta>)
        requires
            self.wf(),
        ensures
            r@ == self.spec_history(name@),
    {
        match self.versions.get(&name.to_string()) {
            Some(list) => {
                let r = list.clone();
                assert forall|i: int| 0 <= i < list@.len() implies r@[i] == list@[i] by {
                    assert(cloned(list@[i], r@[i]));
                }
                assert(r@ =~= list@);
                r
            },
            None => Vec::new(),
        }
    }

    /// The number of the latest version of a name; zero if there is none.
    pub fn latest_version(&self, name: &str) -> (r: u64)
        requires
            self.wf(),
        ensures
            r == if self.spec_history(name@).len() > 0 {
                self.spec_history(name@).last().version
            } else {
                0
            },
    {
        match self.versions.get(&name.to_string()) {
            Some(list) => if list.len() > 0 {
                list[list.len() - 1].version
            } else {
                0
            },
            None => 0,
        }
    }

    /// The object that holds the latest version of a name.
    pub fn latest(&self, name: &str) -> (r: Option<ObjectID>)
        requires
            self.wf(),
        ensures
            r == if self.spec_history(name@).len() > 0 {
                Some(self.spec_history(name@).last().object_id)
            } else {
                None
            },
    {
        match self.versions.get(&name.to_string()) {
            Some(list) => if list.len() > 0 {
                Some(list[list.len() - 1].object_id)
            } else {
                None
            },
            None => None,
        }
    }

    /// The object that holds one version of a name.
    pub fn at_version(&self, name: &str, version: u64) -> (r: Option<ObjectID>)
        requires
            self.wf(),
        ensures
            ({
                let history = self.spec_history(name@);
                let place = place_of(history, version);
                r == if place < history.len() {
                    Some(history[place].object_id)
                } else {
                    None
                }
            }),
    {
        match self.versions.get(&name.to_string()) {
            Some(list) => match find_version(list, version) {
                Some(place) => Some(list[place].object_id),
                None => None,
            },
            None => None,
        }
    }

    fn unpin_list(&mut self, list: Vec<VersionMeta>) -> (r: Vec<(ObjectID, u64)>)
        requires
            old(self).wf(),
        ensures
            final(self).wf(),
            final(self).store() == unpinned_all(old(self).store(), list@),
            r@ == left_files(old(self).store(), list@),
            final(self).versions() == old(self).versions(),
            final(self).keep() == old(self).keep(),
    {
        let ghost before = self.store@;
        let mut stale: Vec<(ObjectID, u64)> = Vec::new();
        let mut i: usize = 0;
        assert(list@.take(0) =~= Seq::<VersionMeta>::empty());
        while i < list.len()
            invariant
                self.wf(),
                i <= list@.len(),
                self.store@ == unpinned_all(before, list@.take(i as int)),
                stale@ == left_files(before, list@.take(i as int)),
                self.versions() == old(self).versions(),
                self.keep() == old(self).keep(),
            decreases list@.len() - i,
        {
            assert(list@.take(i + 1).drop_last() =~= list@.take(i as int));
            if let Some(file) = self.store.unpin(list[i].object_id, list[i].generation) {
                stale.push(file);
            }
            i += 1;
        }
        assert(list@.take(i as int) =~= list@);
        stale
    }

    /// Stores a version of an artifact under the new object id `id`. A version
    /// that is there already is replaced; versions beyond the window are dropped.
    pub fn put_as(&mut self, name: &str, bytes: Vec<u8>, version: u64, id: ObjectID, now: u64, seconds: u64) -> (r: (
        VersionMeta,
        Aftermath,
        Vec<(ObjectID, u64)>,
    ))
        requires
            old(self).wf(),
            old(self).store().has_room(bytes@.len() as usize),
        ensures
            final(self).wf(),
            final(self).keep() == old(self).keep(),
            r.0.name@ == name@,
            r.0.version == version,
            r.0.created_at == seconds,
            r.0.object_id == id,
            r.0.generation == old(self).store().next_generation,
            r.0.size_bytes == bytes@.len(),
            final(self).versions() == old(self).versions().insert(
                name@,
                extended(old(self).spec_history(name@), r.0, old(self).keep() as int),
            ),
            version_stored(
                old(self).store(),
                final(self).store(),
                bytes@,
                leaving(old(self).spec_history(name@), r.0, old(self).keep() as int),
                now,
                r,
            ),
    {
        let ghost before = self.store@;
        let ghost history = self.spec_history(name@);
        let ghost keep = self.keep() as int;
        let size: usize = bytes.len();
        let ghost entry = before.new_entry(StateModel::<L>::Bytes(bytes@), size, 0, None);
        let aftermath = self.store.put_bytes(id, bytes, None, now);
        let ghost placed = self.store@;
        proof {
            lemma_put_is_there(before, placed, id, entry, now, aftermath);
        }
        let generation = self.store.pin(id, now);
        let ghost pinned = self.store@;
        let meta = VersionMeta {
            name: name.to_string(),
            version,
            created_at: seconds,
            object_id: id,
            generation,
            size_bytes: size,
        };
        proof {
            law_history_is_bounded(history, meta, keep);
        }
        let key = name.to_string();
        let mut list: Vec<VersionMeta> = match self.versions.remove(&key) {
            Some(list) => list,
            None => Vec::new(),
        };
        assert(list@ =~= history);
        let mut gone: Vec<VersionMeta> = Vec::new();
        if let Some(place) = find_version(&list, version) {
            gone.push(list.remove(place));
        }
        assert(list@ =~= without(history, version));
        list.push(meta.clone());
        let ghost longer = list@;
        assert(longer =~= without(history, version).push(meta));
        let ghost replaced = gone@;
        if self.keep_last > 0 {
            while list.len() > self.keep_last
                invariant
                    self.keep_last > 0,
                    self.keep_last == keep,
                    list@.len() <= longer.len(),
                    longer.len() > keep ==> list@.len() >= keep,
                    longer.len() <= keep ==> list@ == longer,
                    list@ == longer.skip(longer.len() - list@.len()),
                    gone@ == replaced + longer.take(longer.len() - list@.len()),
                decreases list@.len(),
            {
                let ghost cut = longer.len() - list@.len();
                let ghost so_far = gone@;
                let oldest = list.remove(0);
                assert(oldest == longer[cut]);
                gone.push(oldest);
                assert(list@ =~= longer.skip(cut + 1));
                assert(gone@ =~= replaced + longer.take(cut + 1));
            }
        }
        assert(gone@ =~= leaving(history, meta, keep));
        assert(list@ =~= extended(history, meta, keep));
        self.versions.insert(key, list);
        assert(self.versions@ =~= old(self).versions().insert(name@, extended(history, meta, keep)));
        let stale = self.unpin_list(gone);
        let r = (meta, aftermath, stale);
        assert(replaced_met(before, placed, id, entry, now, r.1));
        r
    }

    /// Stores a version of an artifact under a new object id.
    pub fn put_bytes_with_version(&mut self, name: &str, bytes: Vec<u8>, version: u64, now: u64, seconds: u64) -> (r: (
        VersionMeta,
        Aftermath,
        Vec<(ObjectID, u64)>,
    ))
        requires
            old(self).wf(),
            old(self).store().has_room(bytes@.len() as usize),
        ensures
            final(self).wf(),
            final(self).keep() == old(self).keep(),
            r.0.name@ == name@,
            r.0.version == version,
            r.0.created_at == seconds,
            r.0.generation == old(self).store().next_generation,
            r.0.size_bytes == bytes@.len(),
            final(self).versions() == old(self).versions().insert(
                name@,
                extended(old(self).spec_history(name@), r.0, old(self).keep() as int),
            ),
            version_stored(
                old(self).store(),
                final(self).store(),
                bytes@,
                leaving(old(self).spec_history(name@), r.0, old(self).keep() as int),
                now,
                r,
            ),
    {
        self.put_as(name, bytes, version, ObjectID::new(), now, seconds)
    }

    /// Stores the next version of an artifact: one more than the latest.
    pub fn put(&mut self, name: &str, bytes: Vec<u8>, now: u64, seconds: u64) -> (r: (
        VersionMeta,
        Aftermath,
        Vec<(ObjectID, u64)>,
    ))
        requires
            old(self).wf(),
            old(self).store().has_room(bytes@.len() as usize),
            old(self).spec_history(name@).len() > 0 ==> old(self).spec_history(name@).last().version < u64::MAX,
        ensures
            final(self).wf(),
            final(self).keep() == old(self).keep(),
            r.0.name@ == name@,
            r.0.version == if old(self).spec_history(name@).len() > 0 {
                old(self).spec_history(name@).last().version + 1
            } else {
                1
            },
            r.0.created_at == seconds,
            r.0.generation == old(self).store().next_generation,
            r.0.size_bytes == bytes@.len(),
            final(self).versions() == old(self).versions().insert(
                name@,
                extended(old(self).spec_history(name@), r.0, old(self).keep() as int),
            ),
            version_stored(
                old(self).store(),
                final(self).store(),
                bytes@,
                leaving(old(self).spec_history(name@), r.0, old(self).keep() as int),
                now,
                r,
            ),
    {
        let version: u64 = self.latest_version(name) + 1;
        self.put_bytes_with_version(name, bytes, version, now, seconds)
    }

    /// Forgets every version of a name. The spill files that may be left are to be
    /// deleted.
    pub fn remove(&mut self, name: &str) -> (r: Vec<(ObjectID, u64)>)
        requires
            old(self).wf(),
        ensures
            final(self).wf(),
            final(self).versions() == old(self).versions().remove(name@),
            final(self).keep() == old(self).keep(),
            final(self).store() == unpinned_all(old(self).store(), old(self).spec_history(name@)),
            r@ == left_files(old(self).store(), old(self).spec_history(name@)),
    {
        match self.versions.remove(&name.to_string()) {
            Some(list) => self.unpin_list(list),
            None => Vec::new(),
        }
    }
}

/// The store with one more pin on an object.
pub open spec fn with_pin<L>(s: StoreModel<L>, id: ObjectID) -> StoreModel<L> {
    s.with_entry(id, EntryModel { pins: (s.entries[id].pins + 1) as usize, ..s.entries[id] })
}

/// The content of a version was stored and pinned; then what leaves the history
/// was unpinned.
pub open spec fn version_stored<L>(
    before: StoreModel<L>,
    after: StoreModel<L>,
    bytes: Seq<u8>,
    gone: History,
    now: u64,
    r: (VersionMeta, Aftermath, Vec<(ObjectID, u64)>),
) -> bool {
    let id = r.0.object_id;
    exists|placed: StoreModel<L>| #[trigger]
        replaced_met(
            before,
            placed,
            id,
            before.new_entry(StateModel::Bytes(bytes), bytes.len() as usize, 0, None),
            now,
            r.1,
        ) && after == unpinned_all(with_pin(placed, id), gone) && r.2@ == left_files(with_pin(placed, id), gone)
}

/// What was stored is there, in its own generation, without a pin.
proof fn lemma_put_is_there<L>(
    before: StoreModel<L>,
    after: StoreModel<L>,
    id: ObjectID,
    entry: EntryModel<L>,
    now: u64,
    aftermath: Aftermath,
)
    requires
        before.wf(),
        before.next_generation < u64::MAX,
        entry.generation == before.next_generation,
        entry.pins == 0,
        replaced_met(before, after, id, entry, now, aftermath),
    ensures
        after.entries.contains_key(id),
        after.entries[id].generation == entry.generation,
        after.entries[id].pins == 0,
{
    let placed = before.placed(id, entry, now);
    lemma_placed(before, id, entry, now);
    law_spilling_keeps_the_rest(placed, before.placing(id, entry), id);
}

fn find_version(list: &Vec<VersionMeta>, version: u64) -> (r: Option<usize>)
    ensures
        match r {
            Some(place) => place < list@.len() && place == place_of(list@, version),
            None => place_of(list@, version) == list@.len(),
        },
{
    let mut i: usize = 0;
    while i < list.len()
        invariant
            i <= list@.len(),
            forall|j: int| 0 <= j < i ==> (#[trigger] list@[j]).version != version,
        decreases list@.len() - i,
    {
        if list[i].version == version {
            proof {
                lemma_place_is(list@, version, i as int);
            }
            return Some(i);
        }
        i += 1;
    }
    proof {
        lemma_place_is(list@, version, i as int);
    }
    None
}

proof fn lemma_place_of(history: History, version: u64)
    ensures
        0 <= place_of(history, version) <= history.len(),
        place_of(history, version) < history.len() ==> history[place_of(history, version)].version == version,
        forall|i: int| 0 <= i < place_of(history, version) ==> (#[trigger] history[i]).version != version,
    decreases history.len(),
{
    if history.len() > 0 && history[0].version != version {
        let rest = history.drop_first();
        lemma_place_of(rest, version);
        let place = place_of(rest, version);
        if place < rest.len() {
            assert(rest[place] == history[place + 1]);
        }
        assert forall|i: int| 0 <= i < place + 1 implies (#[trigger] history[i]).version != version by {
            if i > 0 {
                assert(rest[i - 1] == history[i]);
            }
        }
    }
}

/// A version is found where it is kept, and only there.
pub proof fn law_kept_versions_are_found(history: History, version: u64, i: int)
    requires
        distinct(history),
    ensures
        0 <= i < history.len() && history[i].version == version ==> place_of(history, version) == i,
        (forall|j: int| 0 <= j < history.len() ==> (#[trigger] history[j]).version != version) ==> place_of(
            history,
            version,
        ) == history.len(),
{
    lemma_place_of(history, version);
    let place = place_of(history, version);
    if 0 <= i < history.len() && history[i].version == version && place != i {
        if place < i {
            assert(history[place].version != history[i].version);
        }
    }
}

/// A new version comes after those that are kept. Where that would be more than are to
/// be kept, the oldest goes, and it alone; where none is to go, none does.
pub proof fn law_new_version_ousts_the_oldest(history: History, meta: VersionMeta, keep: int)
    requires
        forall|i: int| 0 <= i < history.len() ==> (#[trigger] history[i]).version != meta.version,
        keep >= 0,
        keep > 0 ==> history.len() <= keep,
    ensures
        keep == 0 || history.len() < keep ==> extended(history, meta, keep) == history.push(meta) && leaving(
            history,
            meta,
            keep,
        ).len() == 0,
        keep > 0 && history.len() == keep ==> extended(history, meta, keep) == history.skip(1).push(meta) && leaving(
            history,
            meta,
            keep,
        ) == seq![history[0]],
{
    lemma_place_of(history, meta.version);
    let longer = history.push(meta);
    assert(without(history, meta.version) == history);
    if keep > 0 && history.len() == keep {
        assert(longer.skip(1) =~= history.skip(1).push(meta));
        assert(longer.take(1) =~= seq![history[0]]);
        assert(Seq::<VersionMeta>::empty() + longer.take(1) =~= seq![history[0]]);
    }
}

/// A version that is put again takes the place of the one that had its number: that one
/// goes, and no other.
pub proof fn law_put_again_replaces(history: History, meta: VersionMeta, keep: int, i: int)
    requires
        distinct(history),
        0 <= i < history.len(),
        history[i].version == meta.version,
        keep >= 0,
        keep > 0 ==> history.len() <= keep,
    ensures
        extended(history, meta, keep) == history.remove(i).push(meta),
        leaving(history, meta, keep) == seq![history[i]],
{
    law_kept_versions_are_found(history, meta.version, i);
}

proof fn lemma_unpinned_all_keeps<L>(s: StoreModel<L>, list: History, id: ObjectID)
    requires
        s.entries.contains_key(id),
        forall|i: int| 0 <= i < list.len() ==> (#[trigger] list[i]).object_id != id || list[i].generation
            != s.entries[id].generation,
    ensures
        unpinned_all(s, list).entries.contains_key(id),
        unpinned_all(s, list).entries[id] == s.entries[id],
    decreases list.len(),
{
    if list.len() > 0 {
        let rest = list.drop_last();
        assert forall|i: int| 0 <= i < rest.len() implies (#[trigger] rest[i]).object_id != id || rest[i].generation
            != s.entries[id].generation by {
            assert(rest[i] == list[i]);
        }
        lemma_unpinned_all_keeps(s, rest, id);
        assert(list[list.len() - 1] == list.last());
    }
}

/// A version that was put is pinned, and so kept, until it goes: whatever else goes at
/// the same time does not take it along.
pub proof fn law_stored_version_is_pinned<L>(
    before: StoreModel<L>,
    after: StoreModel<L>,
    bytes: Seq<u8>,
    gone: History,
    now: u64,
    r: (VersionMeta, Aftermath, Vec<(ObjectID, u64)>),
)
    requires
        before.wf(),
        before.next_generation < u64::MAX,
        0 < bytes.len() <= usize::MAX,
        version_stored(before, after, bytes, gone, now, r),
        forall|i: int| 0 <= i < gone.len() ==> (#[trigger] gone[i]).generation < before.next_generation,
    ensures
        after.entries.contains_key(r.0.object_id),
        after.entries[r.0.object_id].pins == 1,
        after.entries[r.0.object_id].generation == before.next_generation,
        after.entries[r.0.object_id].size == bytes.len(),
{
    let id = r.0.object_id;
    let placed = choose|placed: StoreModel<L>| #[trigger]
        replaced_met(
            before,
            placed,
            id,
            before.new_entry(StateModel::Bytes(bytes), bytes.len() as usize, 0, None),
            now,
            r.1,
        ) && after == unpinned_all(with_pin(placed, id), gone);
    crate::object_store::law_put_starts_a_new_generation(before, placed, id, bytes, None, now, r.1);
    lemma_unpinned_all_keeps(with_pin(placed, id), gone, id);
}

proof fn lemma_left_files<L>(s: StoreModel<L>, list: History)
    ensures
        (unpinned_all(s, list).mem is Some) == (s.mem is Some),
        forall|id: ObjectID| #[trigger] unpinned_all(s, list).entries.contains_key(id) ==> s.entries.contains_key(id)
            && unpinned_all(s, list).entries[id].generation == s.entries[id].generation,
        forall|id: ObjectID, generation: u64| #[trigger]
            left_files(s, list).contains((id, generation)) <==> s.mem is Some && s.entries.contains_key(id)
                && s.entries[id].generation == generation && !unpinned_all(s, list).entries.contains_key(id),
    decreases list.len(),
{
    if list.len() > 0 {
        lemma_left_files(s, list.drop_last());
        let before = unpinned_all(s, list.drop_last());
        let after = unpinned_all(s, list);
        let last = list.last();
        let files = left_files(s, list.drop_last());
        assert forall|id: ObjectID, generation: u64| #[trigger]
            left_files(s, list).contains((id, generation)) <==> s.mem is Some && s.entries.contains_key(id)
                && s.entries[id].generation == generation && !after.entries.contains_key(id) by {
            assert(files.contains((id, generation)) <==> s.mem is Some && s.entries.contains_key(id)
                && s.entries[id].generation == generation && !before.entries.contains_key(id));
            let file = (last.object_id, last.generation);
            if left_files(s, list) != files {
                assert(left_files(s, list) == files.push(file));
                assert(files.push(file)[files.len() as int] == file);
                if files.contains((id, generation)) {
                    let i = choose|i: int| 0 <= i < files.len() && files[i] == (id, generation);
                    assert(files.push(file)[i] == (id, generation));
                }
                if files.push(file).contains((id, generation)) && (id, generation) != file {
                    let i = choose|i: int| 0 <= i < files.push(file).len() && files.push(file)[i] == (id, generation);
                    assert(files[i] == (id, generation));
                }
            }
        }
    }
}

/// The files that older versions leave behind are those of exactly the objects that leave
/// the store with them.
pub proof fn law_files_go_with_their_versions<L>(s: StoreModel<L>, gone: History, id: ObjectID, generation: u64)
    ensures
        left_files(s, gone).contains((id, generation)) <==> s.mem is Some && s.entries.contains_key(id)
            && s.entries[id].generation == generation && !unpinned_all(s, gone).entries.contains_key(id),
{
    lemma_left_files(s, gone);
}

} // verus!
