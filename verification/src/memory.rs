//! Accounting of resident objects, and the choice of what to spill when they
//! take up too much memory.
//!
//! Writing and deleting spill files is left to the caller.
use vstd::prelude::*;
use vstd::string::*;

use crate::common::ObjectID;
use crate::sums::{lemma_sum_at_least, lemma_sum_insert, lemma_sum_remove, sum};
use crate::table::Table;
use crate::text::{decimal, decimal_string, hex_chars, law_decimal_is_read_back, law_hex_is_unambiguous};

verus! {

/// An object that is to be spilled.
#[derive(Debug, Clone, Copy)]
pub struct Eviction {
    pub id: ObjectID,
    pub generation: u64,
    pub size: usize,
}

/// What is known of a resident object.
#[derive(Debug, Clone, Copy)]
pub struct Resident {
    pub generation: u64,
    pub size: usize,
}

impl View for Resident {
    type V = Resident;

    open spec fn view(&self) -> Resident {
        *self
    }
}

pub type Uses = Seq<(ObjectID, u64)>;

pub open spec fn size_weight() -> spec_fn(Resident) -> int {
    |resident: Resident| resident.size as int
}

pub open spec fn other_than(id: ObjectID) -> spec_fn((ObjectID, u64)) -> bool {
    |entry: (ObjectID, u64)| entry.0 != id
}

pub open spec fn other_generation(id: ObjectID, generation: u64) -> spec_fn((ObjectID, u64)) -> bool {
    |entry: (ObjectID, u64)| entry.0 != id || entry.1 != generation
}

/// The uses without those of an object.
pub open spec fn without(uses: Uses, id: ObjectID) -> Uses {
    uses.filter(other_than(id))
}

/// The uses without those of one generation of an object.
pub open spec fn without_generation(uses: Uses, id: ObjectID, generation: u64) -> Uses {
    uses.filter(other_generation(id, generation))
}

/// No object is listed twice.
pub open spec fn distinct(uses: Uses) -> bool {
    forall|i: int, j: int| 0 <= i < j < uses.len() ==> (#[trigger] uses[i]).0 != (#[trigger] uses[j]).0
}

/// The view of a [`MemoryManager`].
#[verifier::ext_equal]
pub struct MemoryModel {
    /// The resident objects.
    pub sizes: Map<ObjectID, Resident>,
    /// Those that may be spilled, least recently used first.
    pub lru: Uses,
    pub total: int,
    pub max: int,
    pub failures: int,
}

impl MemoryModel {
    pub open spec fn holds(self, id: ObjectID, generation: u64) -> bool {
        self.sizes.contains_key(id) && self.sizes[id].generation == generation
    }

    /// The sizes are finitely many and add up to no more than the total; each
    /// object is listed at most once, in its current generation.
    pub open spec fn wf(self) -> bool {
        &&& self.sizes.dom().finite()
        &&& sum(self.sizes, size_weight()) <= self.total
        &&& distinct(self.lru)
        &&& forall|i: int| 0 <= i < self.lru.len() ==> self.holds((#[trigger] self.lru[i]).0, self.lru[i].1)
    }

    /// The total is exactly what the resident objects take up.
    pub open spec fn exact(self) -> bool {
        self.total == sum(self.sizes, size_weight())
    }

    /// An object was stored; nothing has been spilled yet.
    pub open spec fn stored(self, id: ObjectID, generation: u64, size: usize) -> MemoryModel {
        MemoryModel {
            sizes: self.sizes.insert(id, Resident { generation, size }),
            lru: without(self.lru, id).push((id, generation)),
            total: self.total + size - if self.sizes.contains_key(id) {
                self.sizes[id].size as int
            } else {
                0
            },
            ..self
        }
    }

    /// The least recently used object has been chosen.
    pub open spec fn evict_first(self) -> MemoryModel {
        MemoryModel {
            sizes: self.sizes.remove(self.lru[0].0),
            lru: self.lru.drop_first(),
            total: self.total - self.sizes[self.lru[0].0].size,
            ..self
        }
    }

    pub open spec fn first_eviction(self) -> Eviction {
        Eviction { id: self.lru[0].0, generation: self.lru[0].1, size: self.sizes[self.lru[0].0].size }
    }

    pub open spec fn over_budget(self) -> bool {
        self.total > self.max && self.lru.len() > 0
    }

    /// Objects have been chosen, least recently used first, until the others fit.
    pub open spec fn trimmed(self) -> MemoryModel
        decreases self.lru.len(),
    {
        if self.over_budget() {
            self.evict_first().trimmed()
        } else {
            self
        }
    }

    /// The objects that are chosen.
    pub open spec fn chosen(self) -> Seq<Eviction>
        decreases self.lru.len(),
    {
        if self.over_budget() {
            seq![self.first_eviction()] + self.evict_first().chosen()
        } else {
            Seq::empty()
        }
    }

    /// A chosen object could not be written out: it is resident again, and is not
    /// chosen any more.
    pub open spec fn restored(self, id: ObjectID, generation: u64, size: usize) -> MemoryModel {
        let back = if self.holds(id, generation) {
            self
        } else {
            MemoryModel {
                sizes: self.sizes.insert(id, Resident { generation, size }),
                total: self.total + size,
                ..self
            }
        };
        MemoryModel { lru: without(self.lru, id), failures: self.failures + 1, ..back }
    }

    /// An object was used.
    pub open spec fn touched(self, id: ObjectID, generation: u64) -> MemoryModel {
        if self.holds(id, generation) {
            MemoryModel { lru: without(self.lru, id).push((id, generation)), ..self }
        } else {
            self
        }
    }

    /// A generation of an object is gone.
    pub open spec fn removed(self, id: ObjectID, generation: u64) -> MemoryModel {
        let gone = if self.holds(id, generation) {
            MemoryModel { sizes: self.sizes.remove(id), total: self.total - self.sizes[id].size, ..self }
        } else {
            self
        };
        MemoryModel { lru: without_generation(self.lru, id, generation), ..gone }
    }
}

/// Choosing objects to spill leaves no more in memory than there was.
pub proof fn lemma_trimmed_is_no_larger(m: MemoryModel)
    ensures
        m.trimmed().total <= m.total,
    decreases m.lru.len(),
{
    if m.over_budget() {
        lemma_trimmed_is_no_larger(m.evict_first());
    }
}

proof fn lemma_filter(uses: Uses, keep: spec_fn((ObjectID, u64)) -> bool)
    ensures
        forall|i: int|
            0 <= i < uses.filter(keep).len() ==> uses.contains(#[trigger] uses.filter(keep)[i]) && keep(
                uses.filter(keep)[i],
            ),
        distinct(uses) ==> distinct(uses.filter(keep)),
        (forall|i: int| 0 <= i < uses.len() ==> keep(#[trigger] uses[i])) ==> uses.filter(keep) == uses,
    decreases uses.len(),
{
    reveal(Seq::filter);
    if uses.len() > 0 {
        let rest = uses.drop_last();
        let last = uses.last();
        lemma_filter(rest, keep);
        let kept = uses.filter(keep);
        assert forall|i: int| 0 <= i < kept.len() implies uses.contains(#[trigger] kept[i]) && keep(kept[i]) by {
            if i < rest.filter(keep).len() {
                assert(rest.contains(rest.filter(keep)[i]));
                let j = rest.index_of(kept[i]);
                assert(uses[j] == kept[i]);
            } else {
                assert(uses[uses.len() - 1] == kept[i]);
            }
        }
        if distinct(uses) {
            assert(distinct(rest)) by {
                assert forall|i: int, j: int| 0 <= i < j < rest.len() implies (#[trigger] rest[i]).0 != (
                #[trigger] rest[j]).0 by {
                    assert(uses[i].0 != uses[j].0);
                }
            }
            assert forall|i: int, j: int| 0 <= i < j < kept.len() implies (#[trigger] kept[i]).0 != (
            #[trigger] kept[j]).0 by {
                if j < rest.filter(keep).len() {
                    assert(rest.filter(keep)[i].0 != rest.filter(keep)[j].0);
                } else {
                    assert(rest.contains(rest.filter(keep)[i]));
                    let k = rest.index_of(kept[i]);
                    assert(uses[k].0 != uses[uses.len() - 1].0);
                }
            }
        }
        if forall|i: int| 0 <= i < uses.len() ==> keep(#[trigger] uses[i]) {
            assert forall|i: int| 0 <= i < rest.len() implies keep(#[trigger] rest[i]) by {
                assert(keep(uses[i]));
            }
            assert(keep(uses[uses.len() - 1]));
            assert(kept =~= uses);
        }
    } else {
        assert(uses.filter(keep) =~= uses);
    }
}

proof fn lemma_kept(m: MemoryModel, keep: spec_fn((ObjectID, u64)) -> bool)
    requires
        m.wf(),
    ensures
        distinct(m.lru.filter(keep)),
        forall|i: int|
            0 <= i < m.lru.filter(keep).len() ==> m.holds(
                (#[trigger] m.lru.filter(keep)[i]).0,
                m.lru.filter(keep)[i].1,
            ) && keep(m.lru.filter(keep)[i]),
{
    let kept = m.lru.filter(keep);
    lemma_filter(m.lru, keep);
    assert forall|i: int| 0 <= i < kept.len() implies m.holds((#[trigger] kept[i]).0, kept[i].1) && keep(kept[i]) by {
        assert(m.lru.contains(kept[i]));
        let j = m.lru.index_of(kept[i]);
        assert(m.holds(m.lru[j].0, m.lru[j].1));
    }
}

/// Storing an object keeps the accounts in order.
pub proof fn law_stored_keeps_accounts(m: MemoryModel, id: ObjectID, generation: u64, size: usize)
    requires
        m.wf(),
    ensures
        m.stored(id, generation, size).wf(),
        m.exact() ==> m.stored(id, generation, size).exact(),
{
    let next = m.stored(id, generation, size);
    lemma_sum_insert(m.sizes, size_weight(), id, Resident { generation, size });
    let keep = other_than(id);
    lemma_kept(m, keep);
    assert forall|i: int| 0 <= i < next.lru.len() implies next.holds((#[trigger] next.lru[i]).0, next.lru[i].1) by {
        if i < next.lru.len() - 1 {
            assert(next.lru[i] == without(m.lru, id)[i]);
        }
    }
    assert forall|i: int, j: int| 0 <= i < j < next.lru.len() implies (#[trigger] next.lru[i]).0 != (
    #[trigger] next.lru[j]).0 by {
        assert(next.lru[i] == without(m.lru, id)[i]);
        if j < next.lru.len() - 1 {
            assert(next.lru[j] == without(m.lru, id)[j]);
        }
    }
}

/// Using an object keeps the accounts in order, and makes it the last to be
/// spilled.
pub proof fn law_touched_goes_last(m: MemoryModel, id: ObjectID, generation: u64)
    requires
        m.wf(),
    ensures
        m.touched(id, generation).wf(),
        m.exact() ==> m.touched(id, generation).exact(),
        m.holds(id, generation) ==> m.touched(id, generation).lru.last() == (id, generation),
{
    if m.holds(id, generation) {
        let next = m.touched(id, generation);
        let keep = other_than(id);
        lemma_kept(m, keep);
        assert forall|i: int| 0 <= i < next.lru.len() implies next.holds((#[trigger] next.lru[i]).0, next.lru[i].1) by {
            if i < next.lru.len() - 1 {
                assert(next.lru[i] == without(m.lru, id)[i]);
            }
        }
        assert forall|i: int, j: int| 0 <= i < j < next.lru.len() implies (#[trigger] next.lru[i]).0 != (
        #[trigger] next.lru[j]).0 by {
            assert(next.lru[i] == without(m.lru, id)[i]);
            if j < next.lru.len() - 1 {
                assert(next.lru[j] == without(m.lru, id)[j]);
            }
        }
    }
}

/// Taking an object back after a failed spill keeps the accounts in order; they
/// stay exact unless another generation of the object was stored meanwhile.
pub proof fn law_restored_keeps_accounts(m: MemoryModel, id: ObjectID, generation: u64, size: usize)
    requires
        m.wf(),
    ensures
        m.restored(id, generation, size).wf(),
        m.exact() && (m.sizes.contains_key(id) ==> m.sizes[id].generation == generation) ==> m.restored(
            id,
            generation,
            size,
        ).exact(),
{
    let next = m.restored(id, generation, size);
    lemma_sum_insert(m.sizes, size_weight(), id, Resident { generation, size });
    let keep = other_than(id);
    lemma_kept(m, keep);
    assert forall|i: int| 0 <= i < next.lru.len() implies next.holds((#[trigger] next.lru[i]).0, next.lru[i].1) by {
        assert(next.lru[i] == without(m.lru, id)[i]);
    }
}

/// Removing a generation of an object keeps the accounts in order.
pub proof fn law_removed_keeps_accounts(m: MemoryModel, id: ObjectID, generation: u64)
    requires
        m.wf(),
    ensures
        m.removed(id, generation).wf(),
        m.exact() ==> m.removed(id, generation).exact(),
        !m.removed(id, generation).holds(id, generation),
{
    let next = m.removed(id, generation);
    if m.holds(id, generation) {
        lemma_sum_remove(m.sizes, size_weight(), id);
    }
    let keep = other_generation(id, generation);
    lemma_kept(m, keep);
    assert forall|i: int| 0 <= i < next.lru.len() implies next.holds((#[trigger] next.lru[i]).0, next.lru[i].1) by {
        assert(next.lru[i] == without_generation(m.lru, id, generation)[i]);
        assert(m.holds(next.lru[i].0, next.lru[i].1));
    }
}

proof fn lemma_evict_first(m: MemoryModel)
    requires
        m.wf(),
        m.lru.len() > 0,
    ensures
        m.evict_first().wf(),
        m.exact() ==> m.evict_first().exact(),
        m.holds(m.lru[0].0, m.lru[0].1),
        m.sizes[m.lru[0].0].size <= m.total,
{
    let next = m.evict_first();
    assert(m.holds(m.lru[0].0, m.lru[0].1));
    lemma_sum_remove(m.sizes, size_weight(), m.lru[0].0);
    lemma_sum_at_least(m.sizes, size_weight(), m.lru[0].0);
    assert forall|i: int| 0 <= i < next.lru.len() implies next.holds((#[trigger] next.lru[i]).0, next.lru[i].1) by {
        assert(next.lru[i] == m.lru[i + 1]);
        assert(m.holds(m.lru[i + 1].0, m.lru[i + 1].1));
        assert(m.lru[0].0 != m.lru[i + 1].0);
    }
    assert forall|i: int, j: int| 0 <= i < j < next.lru.len() implies (#[trigger] next.lru[i]).0 != (
    #[trigger] next.lru[j]).0 by {
        assert(next.lru[i] == m.lru[i + 1] && next.lru[j] == m.lru[j + 1]);
    }
}

/// Choosing what to spill keeps the accounts in order. The chosen objects are
/// the least recently used, in that order; afterwards the rest fits, or nothing
/// is left to choose; and no object is chosen once the rest fits.
pub proof fn law_spills_least_recently_used(m: MemoryModel)
    requires
        m.wf(),
    ensures
        m.trimmed().wf(),
        m.exact() ==> m.trimmed().exact(),
        m.trimmed().total <= m.max || m.trimmed().lru.len() == 0,
        m.trimmed().max == m.max,
        m.chosen().len() <= m.lru.len(),
        m.trimmed().lru == m.lru.skip(m.chosen().len() as int),
        forall|i: int|
            0 <= i < m.chosen().len() ==> (#[trigger] m.chosen()[i]).id == m.lru[i].0 && m.chosen()[i].generation
                == m.lru[i].1 && m.chosen()[i].size == m.sizes[m.lru[i].0].size,
        m.chosen().len() > 0 ==> m.trimmed().total + m.chosen().last().size > m.max,
    decreases m.lru.len(),
{
    if m.over_budget() {
        lemma_evict_first(m);
        let next = m.evict_first();
        law_spills_least_recently_used(next);
        let chosen = m.chosen();
        assert(m.trimmed().lru =~= m.lru.skip(chosen.len() as int));
        assert forall|i: int| 0 <= i < chosen.len() implies (#[trigger] chosen[i]).id == m.lru[i].0
            && chosen[i].generation == m.lru[i].1 && chosen[i].size == m.sizes[m.lru[i].0].size by {
            if i > 0 {
                assert(chosen[i] == next.chosen()[i - 1]);
                assert(next.lru[i - 1] == m.lru[i]);
                assert(m.lru[0].0 != m.lru[i].0);
            }
        }
        if next.chosen().len() > 0 {
            assert(chosen.last() == next.chosen().last());
        } else {
            assert(chosen.last() == m.first_eviction());
        }
    } else {
        assert(m.lru.skip(0) =~= m.lru);
    }
}

/// Tracks resident objects up to a budget of bytes.
#[derive(Debug)]
pub struct MemoryManager {
    sizes: Table<ObjectID, Resident>,
    lru: Vec<(ObjectID, u64)>,
    total_bytes: usize,
    max_memory_bytes: usize,
    spill_failures: usize,
}

impl View for MemoryManager {
    type V = MemoryModel;

    closed spec fn view(&self) -> MemoryModel {
        MemoryModel {
            sizes: self.sizes@,
            lru: self.lru@,
            total: self.total_bytes as int,
            max: self.max_memory_bytes as int,
            failures: self.spill_failures as int,
        }
    }
}

fn keep_others(uses: &Vec<(ObjectID, u64)>, id: ObjectID) -> (r: Vec<(ObjectID, u64)>)
    ensures
        r@ == without(uses@, id),
{
    let ghost keep = other_than(id);
    let mut r: Vec<(ObjectID, u64)> = Vec::new();
    let mut i: usize = 0;
    assert(uses@.take(0).filter(keep) =~= Seq::<(ObjectID, u64)>::empty()) by {
        reveal(Seq::filter);
    }
    while i < uses.len()
        invariant
            i <= uses@.len(),
            keep == other_than(id),
            r@ == uses@.take(i as int).filter(keep),
        decreases uses@.len() - i,
    {
        proof {
            assert(uses@.take(i + 1).drop_last() =~= uses@.take(i as int));
            reveal(Seq::filter);
        }
        let entry = uses[i];
        if entry.0 != id {
            r.push(entry);
        }
        i += 1;
    }
    assert(uses@.take(i as int) =~= uses@);
    r
}

fn keep_other_generations(uses: &Vec<(ObjectID, u64)>, id: ObjectID, generation: u64) -> (r: Vec<(ObjectID, u64)>)
    ensures
        r@ == without_generation(uses@, id, generation),
{
    let ghost keep = other_generation(id, generation);
    let mut r: Vec<(ObjectID, u64)> = Vec::new();
    let mut i: usize = 0;
    assert(uses@.take(0).filter(keep) =~= Seq::<(ObjectID, u64)>::empty()) by {
        reveal(Seq::filter);
    }
    while i < uses.len()
        invariant
            i <= uses@.len(),
            keep == other_generation(id, generation),
            r@ == uses@.take(i as int).filter(keep),
        decreases uses@.len() - i,
    {
        proof {
            assert(uses@.take(i + 1).drop_last() =~= uses@.take(i as int));
            reveal(Seq::filter);
        }
        let entry = uses[i];
        if entry.0 != id || entry.1 != generation {
            r.push(entry);
        }
        i += 1;
    }
    assert(uses@.take(i as int) =~= uses@);
    r
}

impl MemoryManager {
    pub closed spec fn tables_ok(&self) -> bool {
        self.sizes.wf()
    }

    pub open spec fn wf(&self) -> bool {
        self.tables_ok() && self@.wf()
    }

    pub fn new(max_memory_bytes: usize) -> (r: Self)
        ensures
            r.wf(),
            r@ == (MemoryModel {
                sizes: Map::empty(),
                lru: Seq::empty(),
                total: 0,
                max: max_memory_bytes as int,
                failures: 0,
            }),
            r@.exact(),
    {
        let r = MemoryManager {
            sizes: Table::new(),
            lru: Vec::new(),
            total_bytes: 0,
            max_memory_bytes,
            spill_failures: 0,
        };
        assert(r@.lru =~= Seq::empty());
        r
    }

    fn holds(&self, id: ObjectID, generation: u64) -> (r: bool)
        requires
            self.wf(),
        ensures
            r == self@.holds(id, generation),
    {
        match self.sizes.get(&id) {
            Some(resident) => resident.generation == generation,
            None => false,
        }
    }

    /// Counts a stored object, and chooses what is to be spilled.
    pub fn record_put(&mut self, id: ObjectID, generation: u64, size: usize) -> (r: Vec<Eviction>)
        requires
            old(self).wf(),
            old(self)@.stored(id, generation, size).total <= usize::MAX,
        ensures
            final(self).wf(),
            final(self)@ == old(self)@.stored(id, generation, size).trimmed(),
            r@ == old(self)@.stored(id, generation, size).chosen(),
    {
        let ghost before = self@;
        proof {
            law_stored_keeps_accounts(before, id, generation, size);
            if before.sizes.contains_key(id) {
                lemma_sum_at_least(before.sizes, size_weight(), id);
            }
        }
        if let Some(previous) = self.sizes.insert(id, Resident { generation, size }) {
            self.total_bytes = self.total_bytes - previous.size;
        }
        self.total_bytes = self.total_bytes + size;
        self.lru = keep_others(&self.lru, id);
        self.lru.push((id, generation));
        assert(self@ == before.stored(id, generation, size));
        self.select_evictions()
    }

    fn select_evictions(&mut self) -> (r: Vec<Eviction>)
        requires
            old(self).wf(),
        ensures
            final(self).wf(),
            final(self)@ == old(self)@.trimmed(),
            r@ == old(self)@.chosen(),
    {
        let ghost before = self@;
        let mut evicted: Vec<Eviction> = Vec::new();
        assert(evicted@ + self@.chosen() =~= before.chosen());
        while self.total_bytes > self.max_memory_bytes && self.lru.len() > 0
            invariant
                self.wf(),
                before.trimmed() == self@.trimmed(),
                before.chosen() == evicted@ + self@.chosen(),
            decreases self.lru@.len(),
        {
            let ghost now = self@;
            proof {
                lemma_evict_first(now);
            }
            let (id, generation) = self.lru.remove(0);
            assert(self.lru@ =~= now.lru.drop_first());
            if let Some(resident) = self.sizes.get(&id) {
                let size: usize = resident.size;
                self.sizes.remove(&id);
                self.total_bytes = self.total_bytes - size;
                assert(self@ =~= now.evict_first());
                evicted.push(Eviction { id, generation, size });
                assert(evicted@ + self@.chosen() =~= before.chosen());
            }
        }
        assert(evicted@ =~= before.chosen());
        evicted
    }

    /// Takes back a chosen object that could not be written out.
    pub fn restore_after_spill_failure(&mut self, id: ObjectID, generation: u64, size: usize)
        requires
            old(self).wf(),
            old(self)@.total + size <= usize::MAX,
            old(self)@.failures < usize::MAX,
        ensures
            final(self).wf(),
            final(self)@ == old(self)@.restored(id, generation, size),
    {
        let ghost before = self@;
        proof {
            law_restored_keeps_accounts(before, id, generation, size);
        }
        if !self.holds(id, generation) {
            self.sizes.insert(id, Resident { generation, size });
            self.total_bytes = self.total_bytes + size;
        }
        self.lru = keep_others(&self.lru, id);
        self.spill_failures = self.spill_failures + 1;
        assert(self@ =~= before.restored(id, generation, size));
    }

    /// Notes that an object was used.
    pub fn touch(&mut self, id: ObjectID, generation: u64)
        requires
            old(self).wf(),
        ensures
            final(self).wf(),
            final(self)@ == old(self)@.touched(id, generation),
    {
        proof {
            law_touched_goes_last(self@, id, generation);
        }
        if self.holds(id, generation) {
            self.lru = keep_others(&self.lru, id);
            self.lru.push((id, generation));
        }
    }

    /// Forgets a generation of an object. Its spill file is to be deleted.
    pub fn remove(&mut self, id: ObjectID, generation: u64)
        requires
            old(self).wf(),
        ensures
            final(self).wf(),
            final(self)@ == old(self)@.removed(id, generation),
    {
        let ghost before = self@;
        proof {
            law_removed_keeps_accounts(before, id, generation);
            if before.holds(id, generation) {
                lemma_sum_at_least(before.sizes, size_weight(), id);
            }
        }
        if self.holds(id, generation) {
            if let Some(resident) = self.sizes.remove(&id) {
                self.total_bytes = self.total_bytes - resident.size;
            }
        }
        self.lru = keep_other_generations(&self.lru, id, generation);
        assert(self@ =~= before.removed(id, generation));
    }

    pub fn total_bytes(&self) -> (r: usize)
        ensures
            r == self@.total,
    {
        self.total_bytes
    }

    pub fn max_memory_bytes(&self) -> (r: usize)
        ensures
            r == self@.max,
    {
        self.max_memory_bytes
    }

    /// How many objects are resident.
    pub fn num_objects(&self) -> (r: usize)
        requires
            self.wf(),
        ensures
            r == self@.sizes.dom().len(),
    {
        self.sizes.len()
    }

    pub fn spill_failures(&self) -> (r: usize)
        ensures
            r == self@.failures,
    {
        self.spill_failures
    }
}

/// The name of the file that a generation of an object is spilled to.
pub open spec fn spill_file(id: ObjectID, generation: u64) -> Seq<char> {
    hex_chars(id.bytes()) + "."@ + decimal(generation as nat) + ".bin"@
}

/// The name of the file that a generation of an object is spilled to.
pub fn spill_name(id: ObjectID, generation: u64) -> (r: String)
    ensures
        r@ == spill_file(id, generation),
{
    let mut name = id.to_string();
    name.append(".");
    let number = decimal_string(generation);
    name.append(number.as_str());
    name.append(".bin");
    name
}

/// What is stored is resident with its size, the last to be spilled, and counted once,
/// in place of what was stored under its id before. The others are as they were, and in
/// the order in which they were used.
pub proof fn law_stored_is_most_recent(m: MemoryModel, id: ObjectID, generation: u64, size: usize)
    requires
        m.wf(),
    ensures
        ({
            let n = m.stored(id, generation, size);
            &&& n.sizes == m.sizes.insert(id, Resident { generation, size })
            &&& n.lru == m.lru.filter(|entry: (ObjectID, u64)| entry.0 != id).push((id, generation))
            &&& m.sizes.contains_key(id) ==> n.total == m.total - m.sizes[id].size + size
            &&& !m.sizes.contains_key(id) ==> n.total == m.total + size
            &&& n.max == m.max
            &&& n.failures == m.failures
        }),
{
    assert(other_than(id) =~= |entry: (ObjectID, u64)| entry.0 != id);
}

/// An object that was used is the last to be spilled; the rest keep their order, and
/// nothing is counted anew. A generation that is not resident is not used.
pub proof fn law_use_only_reorders(m: MemoryModel, id: ObjectID, generation: u64)
    ensures
        ({
            let n = m.touched(id, generation);
            &&& n == MemoryModel { lru: n.lru, ..m }
            &&& m.sizes.contains_key(id) && m.sizes[id].generation == generation ==> n.lru == m.lru.filter(
                |entry: (ObjectID, u64)| entry.0 != id,
            ).push((id, generation))
            &&& !(m.sizes.contains_key(id) && m.sizes[id].generation == generation) ==> n.lru == m.lru
        }),
{
    assert(other_than(id) =~= |entry: (ObjectID, u64)| entry.0 != id);
}

/// An object that could not be spilled is counted again, and one more failure with it,
/// and it is not chosen for spilling any more.
pub proof fn law_failed_spill_is_not_tried_again(m: MemoryModel, id: ObjectID, generation: u64, size: usize)
    requires
        m.wf(),
        !m.sizes.contains_key(id),
    ensures
        ({
            let n = m.restored(id, generation, size);
            &&& n.sizes == m.sizes.insert(id, Resident { generation, size })
            &&& n.total == m.total + size
            &&& n.failures == m.failures + 1
            &&& n.max == m.max
            &&& forall|i: int| 0 <= i < n.lru.len() ==> (#[trigger] n.lru[i]).0 != id
            &&& forall|i: int| 0 <= i < n.chosen().len() ==> (#[trigger] n.chosen()[i]).id != id
        }),
{
    let n = m.restored(id, generation, size);
    law_restored_keeps_accounts(m, id, generation, size);
    assert forall|i: int| 0 <= i < n.lru.len() implies (#[trigger] n.lru[i]).0 != id by {
        m.lru.lemma_filter_pred(other_than(id), i);
    }
    law_spills_least_recently_used(n);
}

/// An object that is removed is not resident any more, nor counted, nor to be spilled,
/// unless it is of another generation; the others are as they were.
pub proof fn law_removal_takes_one_object(m: MemoryModel, id: ObjectID, generation: u64)
    requires
        m.wf(),
    ensures
        ({
            let n = m.removed(id, generation);
            &&& n.max == m.max
            &&& n.failures == m.failures
            &&& m.sizes.contains_key(id) && m.sizes[id].generation == generation ==> n.sizes == m.sizes.remove(id)
                && n.total == m.total - m.sizes[id].size
            &&& !(m.sizes.contains_key(id) && m.sizes[id].generation == generation) ==> n.sizes == m.sizes && n.total
                == m.total
            &&& n.lru == m.lru.filter(|entry: (ObjectID, u64)| !(entry.0 == id && entry.1 == generation))
        }),
{
    assert(other_generation(id, generation) =~= |entry: (ObjectID, u64)| !(entry.0 == id && entry.1 == generation));
}

/// No two generations of objects are spilled to the same file.
pub proof fn law_spill_files_are_distinct(a: ObjectID, b: ObjectID, first: u64, second: u64)
    requires
        a.bytes().len() == b.bytes().len(),
        spill_file(a, first) == spill_file(b, second),
    ensures
        a.bytes() == b.bytes(),
        first == second,
{
    let one = spill_file(a, first);
    let other = spill_file(b, second);
    let split = hex_chars(a.bytes()).len() as int;
    let end = one.len() - ".bin"@.len();
    assert(hex_chars(a.bytes()) =~= one.take(split));
    assert(hex_chars(b.bytes()) =~= other.take(split));
    law_hex_is_unambiguous(a.bytes(), b.bytes());
    assert(decimal(first as nat) =~= one.subrange(split + "."@.len(), end));
    assert(decimal(second as nat) =~= other.subrange(split + "."@.len(), end));
    law_decimal_is_read_back(first as nat);
    law_decimal_is_read_back(second as nat);
}

} // verus!
