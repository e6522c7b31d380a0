//! The allocator of the shared-memory arena.
//!
//! One mapped region of memory holds payloads at byte offsets. A writer reserves
//! a slot, fills it, and commits; a committed object is not written again until
//! it is released. Slots are cut from the end of the used part, or reused from
//! released slots of exactly the same size. The region itself belongs to the
//! caller and is passed in as a slice.
use vstd::prelude::*;
use vstd::string::*;

use crate::coordinator::lemma_push_contains;
use crate::error::{Error, ErrorModel};
use crate::fields::{
    lemma_first_piece, law_written_number_is_read, number_upto, parse_u32, pieces, split, texts, without_prefix,
};
use crate::ids::{bytes_equal, ObjectId, RequestId};
use crate::operation::Codec;
use crate::protocol::{slices_equal, ArenaWriteMode};
use crate::table::{Table, TableKey};
use crate::text::{decimal, decimal_string};

verus! {

/// The size of a full arena: 64 GiB of address space.
pub const ARENA_BYTES: u64 = 68_719_476_736;

/// A reservation that is neither committed nor written to for this long is
/// given up.
pub const RESERVE_TTL_MS: u64 = 60_000;

impl TableKey for u64 {
    fn same(&self, other: &Self) -> (r: bool) {
        *self == *other
    }
}

/// Where a reader finds an object: which arena, and at what offset.
#[derive(Debug, Clone)]
pub struct ArenaRef {
    pub token: String,
    pub offset: u64,
}

/// A slot in use.
#[derive(Debug, Clone, Copy)]
pub struct Entry {
    pub offset: u64,
    pub size: u64,
    pub slot: u64,
    pub codec: Codec,
    pub checksum: [u8; 32],
    pub reservation: RequestId,
    pub mode: ArenaWriteMode,
    /// How much of a streamed object has been written.
    pub written_until: u64,
    pub committed: bool,
    /// When the reservation was made or last written to; none once committed.
    pub reserved_at_ms: Option<u64>,
}

impl View for Entry {
    type V = Entry;

    open spec fn view(&self) -> Entry {
        *self
    }
}

#[derive(Debug, Clone, Copy)]
pub struct Reservation {
    pub offset: u64,
    pub reservation: RequestId,
    pub committed: bool,
}

/// What a reply about a committed object says.
#[derive(Debug, Clone, Copy)]
pub struct Meta {
    pub offset: u64,
    pub size: u64,
    pub codec: Codec,
    pub checksum: [u8; 32],
}

/// The slot size for an object: its size, at least one, rounded up to eight.
pub open spec fn slot_for(size: int) -> int {
    let bytes = if size < 1 {
        1
    } else {
        size
    };
    (bytes + 7) / 8 * 8
}

/// A part of the arena: the slot of a live object, or an entry of a free list.
pub enum Region {
    Live(ObjectId),
    Free(u64, int),
}

#[verifier::ext_equal]
pub struct ArenaModel {
    pub capacity: int,
    pub top: int,
    pub free: Map<u64, Seq<u64>>,
    pub live: Map<ObjectId, Entry>,
}

impl ArenaModel {
    /// Start and length of a region.
    pub open spec fn extent(self, region: Region) -> Option<(int, int)> {
        match region {
            Region::Live(id) => if self.live.contains_key(id) {
                Some((self.live[id].offset as int, self.live[id].slot as int))
            } else {
                None
            },
            Region::Free(slot, i) => if self.free.contains_key(slot) && 0 <= i < self.free[slot].len() {
                Some((self.free[slot][i] as int, slot as int))
            } else {
                None
            },
        }
    }

    /// Regions lie in the used part and do not overlap.
    pub open spec fn regions_ok(self) -> bool {
        &&& forall|region: Region| (#[trigger] self.extent(region)) is Some ==> within(self.extent(region)->0, self.top)
        &&& forall|a: Region, b: Region|
            #![trigger self.extent(a), self.extent(b)]
            a != b && self.extent(a) is Some && self.extent(b) is Some ==> apart(
                self.extent(a)->0,
                self.extent(b)->0,
            )
    }

    /// Every used byte belongs to some region.
    pub open spec fn covered(self) -> bool {
        forall|at: int| 0 <= at < self.top ==> #[trigger] self.is_held(at)
    }

    /// The byte belongs to some region.
    pub open spec fn is_held(self, at: int) -> bool {
        exists|region: Region| #[trigger] self.holds(region, at)
    }

    pub open spec fn holds(self, region: Region, at: int) -> bool {
        self.extent(region) matches Some((start, len)) && start <= at < start + len
    }

    pub open spec fn entry_ok(self, id: ObjectId) -> bool {
        let entry = self.live[id];
        &&& entry.slot == slot_for(entry.size as int)
        &&& entry.written_until <= entry.size
        &&& entry.committed <==> entry.reserved_at_ms is None
        &&& entry.committed && entry.mode == ArenaWriteMode::Streamed ==> entry.written_until == entry.size
    }

    pub open spec fn wf(self) -> bool {
        &&& 0 <= self.top <= self.capacity <= u64::MAX
        &&& self.regions_ok()
        &&& self.covered()
        &&& forall|id: ObjectId| #[trigger] self.live.contains_key(id) ==> self.entry_ok(id)
        &&& self.live.dom().finite()
    }

    /// The slot of `id` goes to the free list of its size.
    pub open spec fn freed(self, id: ObjectId) -> ArenaModel {
        let entry = self.live[id];
        ArenaModel {
            live: self.live.remove(id),
            free: self.free.insert(
                entry.slot,
                if self.free.contains_key(entry.slot) {
                    self.free[entry.slot].push(entry.offset)
                } else {
                    seq![entry.offset]
                },
            ),
            ..self
        }
    }

    /// There is a released slot of this size.
    pub open spec fn has_free(self, slot: u64) -> bool {
        self.free.contains_key(slot) && self.free[slot].len() > 0
    }

    /// The reservation has been left alone for too long.
    pub open spec fn abandoned(self, id: ObjectId, now: u64) -> bool {
        &&& self.live.contains_key(id)
        &&& self.live[id].reserved_at_ms matches Some(at) && now - at >= RESERVE_TTL_MS
    }

    pub open spec fn free_run(self, ids: Seq<ObjectId>) -> ArenaModel
        decreases ids.len(),
    {
        if ids.len() == 0 {
            self
        } else {
            self.free_run(ids.drop_last()).freed(ids.last())
        }
    }

    /// `ids` are the abandoned reservations, each once.
    pub open spec fn abandoned_exactly(self, now: u64, ids: Seq<ObjectId>) -> bool {
        &&& ids.no_duplicates()
        &&& forall|id: ObjectId| #[trigger] ids.contains(id) <==> self.abandoned(id, now)
    }

    /// `next` is this state without its abandoned reservations.
    pub open spec fn reaps_to(self, next: ArenaModel, now: u64) -> bool {
        exists|ids: Seq<ObjectId>| #[trigger] self.abandoned_exactly(now, ids) && next == self.free_run(ids)
    }

    /// A new entry for `id` at `offset`.
    pub open spec fn entered(
        self,
        id: ObjectId,
        offset: u64,
        size: u64,
        codec: Codec,
        checksum: [u8; 32],
        mode: ArenaWriteMode,
        reservation: RequestId,
        now: u64,
    ) -> ArenaModel {
        ArenaModel {
            live: self.live.insert(
                id,
                Entry {
                    offset,
                    size,
                    slot: slot_for(size as int) as u64,
                    codec,
                    checksum,
                    reservation,
                    mode,
                    written_until: 0,
                    committed: false,
                    reserved_at_ms: Some(now),
                },
            ),
            ..self
        }
    }

    /// A reservation, abandoned ones having been cleared.
    pub open spec fn reserved(
        self,
        id: ObjectId,
        size: u64,
        codec: Codec,
        checksum: [u8; 32],
        mode: ArenaWriteMode,
        reservation: RequestId,
        now: u64,
    ) -> (ArenaModel, Result<Reservation, ErrorModel>) {
        let slot = slot_for(size as int);
        if self.live.contains_key(id) {
            let entry = self.live[id];
            if entry.size != size || entry.codec != codec || entry.checksum != checksum || entry.mode != mode {
                (self, Err(ErrorModel::ObjectConflict(id)))
            } else {
                (
                    self,
                    Ok(
                        Reservation {
                            offset: entry.offset,
                            reservation: entry.reservation,
                            committed: entry.committed,
                        },
                    ),
                )
            }
        } else if slot <= u64::MAX && self.has_free(slot as u64) {
            let list = self.free[slot as u64];
            let popped = ArenaModel { free: self.free.insert(slot as u64, list.drop_last()), ..self };
            (
                popped.entered(id, list.last(), size, codec, checksum, mode, reservation, now),
                Ok(Reservation { offset: list.last(), reservation, committed: false }),
            )
        } else if self.top + slot > self.capacity {
            (self, Err(ErrorModel::CapacityExceeded("arena exhausted"@)))
        } else {
            let cut = ArenaModel { top: self.top + slot, ..self };
            (
                cut.entered(id, self.top as u64, size, codec, checksum, mode, reservation, now),
                Ok(Reservation { offset: self.top as u64, reservation, committed: false }),
            )
        }
    }

    pub open spec fn commit_fault(self, id: ObjectId, reservation: RequestId) -> Option<ErrorModel> {
        if !self.live.contains_key(id) {
            Some(ErrorModel::ObjectNotFound(id))
        } else if self.live[id].reservation != reservation {
            Some(ErrorModel::StaleFence)
        } else if self.live[id].mode == ArenaWriteMode::Streamed && self.live[id].written_until
            != self.live[id].size {
            Some(ErrorModel::Protocol("arena object incomplete"@))
        } else {
            None
        }
    }

    pub open spec fn committed(self, id: ObjectId) -> ArenaModel {
        ArenaModel {
            live: self.live.insert(
                id,
                Entry { committed: true, reserved_at_ms: None, ..self.live[id] },
            ),
            ..self
        }
    }

    pub open spec fn is_committed(self, id: ObjectId) -> bool {
        self.live.contains_key(id) && self.live[id].committed
    }

    pub open spec fn rollback_fault(self, id: ObjectId, reservation: RequestId) -> Option<ErrorModel> {
        if !self.live.contains_key(id) {
            Some(ErrorModel::ObjectNotFound(id))
        } else if self.live[id].reservation != reservation || !self.live[id].committed {
            Some(ErrorModel::StaleFence)
        } else {
            None
        }
    }

    /// The bytes of a live object in the memory of the arena.
    pub open spec fn content(self, memory: Seq<u8>, id: ObjectId) -> Seq<u8> {
        let entry = self.live[id];
        memory.subrange(entry.offset as int, entry.offset + entry.size)
    }

    /// What is wrong with a chunk for a reserved object, if anything; `memory`
    /// holds what has been written so far.
    pub open spec fn chunk_fault(
        self,
        memory: Seq<u8>,
        id: ObjectId,
        reservation: RequestId,
        offset: u64,
        bytes: Seq<u8>,
    ) -> Option<ErrorModel> {
        let entry = self.live[id];
        let end = offset + bytes.len();
        if !self.live.contains_key(id) {
            Some(ErrorModel::ObjectNotFound(id))
        } else if entry.reservation != reservation || entry.committed {
            Some(ErrorModel::StaleFence)
        } else if entry.mode != ArenaWriteMode::Streamed {
            Some(ErrorModel::Protocol("arena reservation is not streamed"@))
        } else if end > entry.size {
            Some(ErrorModel::Protocol("put chunk out of bounds"@))
        } else if offset == entry.written_until {
            None
        } else if end <= entry.written_until {
            if self.content(memory, id).subrange(offset as int, end) == bytes {
                None
            } else {
                Some(ErrorModel::ObjectConflict(id))
            }
        } else {
            Some(ErrorModel::Protocol("put chunk must be contiguous"@))
        }
    }

    /// A chunk is taken: one that continues the object extends it, one that
    /// repeats what is there changes nothing.
    pub open spec fn chunk_taken(self, id: ObjectId, offset: u64, len: nat, now: u64) -> ArenaModel {
        let entry = self.live[id];
        if offset == entry.written_until {
            ArenaModel {
                live: self.live.insert(
                    id,
                    Entry {
                        written_until: (offset + len) as u64,
                        reserved_at_ms: Some(now),
                        ..entry
                    },
                ),
                ..self
            }
        } else {
            self
        }
    }
}

/// A region with some length that ends no later than `top`.
pub open spec fn within(extent: (int, int), top: int) -> bool {
    0 <= extent.0 && 0 < extent.1 && extent.0 + extent.1 <= top
}

/// Two regions that do not overlap.
pub open spec fn apart(a: (int, int), b: (int, int)) -> bool {
    a.0 + a.1 <= b.0 || b.0 + b.1 <= a.0
}

/// The memory after `bytes` were written at `offset`.
pub open spec fn written(memory: Seq<u8>, offset: int, bytes: Seq<u8>) -> Seq<u8> {
    Seq::new(
        memory.len(),
        |i: int| if offset <= i < offset + bytes.len() {
            bytes[i - offset]
        } else {
            memory[i]
        },
    )
}

proof fn lemma_slot(size: int)
    requires
        0 <= size,
    ensures
        size <= slot_for(size),
        0 < slot_for(size) <= size + 8,
        slot_for(size) % 8 == 0,
{
    let bytes = if size < 1 {
        1
    } else {
        size
    };
    let q = (bytes + 7) / 8;
    assert(slot_for(size) == q * 8);
}

proof fn lemma_freed_wf(s: ArenaModel, id: ObjectId)
    requires
        s.wf(),
        s.live.contains_key(id),
    ensures
        s.freed(id).wf(),
{
    let n = s.freed(id);
    let entry = s.live[id];
    let slot = entry.slot;
    let last: int = n.free[slot].len() - 1;
    assert(s.entry_ok(id));
    // Each region of `n` is a region of `s`; only the freed slot changes its name.
    assert forall|region: Region| (#[trigger] n.extent(region)) is Some implies s.extent(old_name(region, id, slot, last))
        == n.extent(region) by {
        match region {
            Region::Live(x) => {
                assert(s.live.contains_key(x));
            },
            Region::Free(k, i) => {
                if k == slot && i == last {
                    assert(n.free[slot][last] == entry.offset);
                } else if k == slot {
                    assert(s.free.contains_key(slot));
                    assert(n.free[slot][i] == s.free[slot][i]);
                }
            },
        }
    }
    assert forall|region: Region| (#[trigger] n.extent(region)) is Some implies within(n.extent(region)->0, n.top) by {
        assert(s.extent(old_name(region, id, slot, last)) is Some);
    }
    assert forall|a: Region, b: Region|
        #![trigger n.extent(a), n.extent(b)]
        a != b && n.extent(a) is Some && n.extent(b) is Some implies apart(n.extent(a)->0, n.extent(b)->0) by {
        let x = old_name(a, id, slot, last);
        let y = old_name(b, id, slot, last);
        assert(s.extent(x) == n.extent(a));
        assert(s.extent(y) == n.extent(b));
        assert(x != y);
    }
    assert forall|at: int| 0 <= at < n.top implies #[trigger] n.is_held(at) by {
        assert(s.is_held(at));
        let region = choose|region: Region| #[trigger] s.holds(region, at);
        match region {
            Region::Live(x) => {
                if x == id {
                    assert(n.free[slot][last] == entry.offset);
                    assert(n.holds(Region::Free(slot, last), at));
                } else {
                    assert(n.holds(region, at));
                }
            },
            Region::Free(k, i) => {
                if k == slot {
                    assert(n.free[slot][i] == s.free[slot][i]);
                }
                assert(n.holds(region, at));
            },
        }
    }
    assert forall|x: ObjectId| #[trigger] n.live.contains_key(x) implies n.entry_ok(x) by {
        assert(s.entry_ok(x));
    }
}

/// The name before a slot was freed of a region after it.
spec fn old_name(region: Region, id: ObjectId, slot: u64, last: int) -> Region {
    if region == Region::Free(slot, last) {
        Region::Live(id)
    } else {
        region
    }
}

proof fn lemma_free_run_wf(s: ArenaModel, ids: Seq<ObjectId>)
    requires
        s.wf(),
        ids.no_duplicates(),
        forall|i: int| 0 <= i < ids.len() ==> s.live.contains_key(#[trigger] ids[i]),
    ensures
        s.free_run(ids).wf(),
        s.free_run(ids).top == s.top,
        s.free_run(ids).capacity == s.capacity,
        forall|id: ObjectId| #[trigger]
            s.free_run(ids).live.contains_key(id) <==> s.live.contains_key(id) && !ids.contains(id),
        forall|id: ObjectId| #[trigger]
            s.free_run(ids).live.contains_key(id) ==> s.free_run(ids).live[id] == s.live[id],
    decreases ids.len(),
{
    if ids.len() > 0 {
        let rest = ids.drop_last();
        let last = ids.last();
        assert forall|i: int| 0 <= i < rest.len() implies s.live.contains_key(#[trigger] rest[i]) by {
            assert(ids[i] == rest[i]);
        }
        lemma_free_run_wf(s, rest);
        let m = s.free_run(rest);
        assert(!rest.contains(last));
        assert(s.live.contains_key(ids[ids.len() - 1]));
        lemma_freed_wf(m, last);
        let n = m.freed(last);
        assert forall|id: ObjectId| #[trigger] n.live.contains_key(id) <==> s.live.contains_key(id) && !ids.contains(
            id,
        ) by {
            if ids.contains(id) && id != last {
                let i = ids.index_of(id);
                assert(rest[i] == id);
                assert(rest.contains(id));
            }
            if rest.contains(id) {
                let i = rest.index_of(id);
                assert(ids[i] == id);
            }
            assert(ids.contains(last));
        }
    }
}

/// A reservation keeps the invariant.
pub proof fn law_reserve_keeps_invariant(
    s: ArenaModel,
    id: ObjectId,
    size: u64,
    codec: Codec,
    checksum: [u8; 32],
    mode: ArenaWriteMode,
    reservation: RequestId,
    now: u64,
)
    requires
        s.wf(),
    ensures
        s.reserved(id, size, codec, checksum, mode, reservation, now).0.wf(),
{
    let (n, _) = s.reserved(id, size, codec, checksum, mode, reservation, now);
    let slot = slot_for(size as int);
    lemma_slot(size as int);
    if !s.live.contains_key(id) {
        if slot <= u64::MAX && s.free.contains_key(slot as u64) && s.free[slot as u64].len() > 0 {
            let k = slot as u64;
            let last: int = s.free[k].len() - 1;
            let taken = Region::Free(k, last);
            assert(s.extent(taken) is Some);
            assert forall|region: Region| (#[trigger] n.extent(region)) is Some implies s.extent(
                free_name(region, id, k, last),
            ) == n.extent(region) by {
                match region {
                    Region::Live(x) => {},
                    Region::Free(j, i) => {
                        if j == k {
                            assert(n.free[k][i] == s.free[k][i]);
                        }
                    },
                }
            }
            assert forall|region: Region| (#[trigger] n.extent(region)) is Some implies within(n.extent(region)->0, n.top) by {
                assert(s.extent(free_name(region, id, k, last)) is Some);
            }
            assert forall|a: Region, b: Region|
                #![trigger n.extent(a), n.extent(b)]
                a != b && n.extent(a) is Some && n.extent(b) is Some implies apart(
                n.extent(a)->0,
                n.extent(b)->0,
            ) by {
                let x = free_name(a, id, k, last);
                let y = free_name(b, id, k, last);
                assert(s.extent(x) == n.extent(a));
                assert(s.extent(y) == n.extent(b));
                assert(x != y);
            }
            assert forall|at: int| 0 <= at < n.top implies #[trigger] n.is_held(at) by {
                assert(s.is_held(at));
        let region = choose|region: Region| #[trigger] s.holds(region, at);
                if region == taken {
                    assert(n.holds(Region::Live(id), at));
                } else {
                    match region {
                        Region::Live(x) => {},
                        Region::Free(j, i) => {
                            if j == k {
                                assert(n.free[k][i] == s.free[k][i]);
                            }
                        },
                    }
                    assert(n.holds(region, at));
                }
            }
        } else if s.top + slot <= s.capacity {
            assert forall|region: Region| region != Region::Live(id) implies #[trigger] n.extent(region) == s.extent(
                region,
            ) by {}
            assert(n.extent(Region::Live(id)) == Some((s.top, slot)));
            assert forall|region: Region| (#[trigger] n.extent(region)) is Some implies within(n.extent(region)->0, n.top) by {
                if region != Region::Live(id) {
                    assert(s.extent(region) is Some);
                }
            }
            assert forall|a: Region, b: Region|
                #![trigger n.extent(a), n.extent(b)]
                a != b && n.extent(a) is Some && n.extent(b) is Some implies apart(
                n.extent(a)->0,
                n.extent(b)->0,
            ) by {
                if a != Region::Live(id) {
                    assert(s.extent(a) == n.extent(a));
                }
                if b != Region::Live(id) {
                    assert(s.extent(b) == n.extent(b));
                }
            }
            assert forall|at: int| 0 <= at < n.top implies #[trigger] n.is_held(at) by {
                if at < s.top {
                    assert(s.is_held(at));
        let region = choose|region: Region| #[trigger] s.holds(region, at);
                    assert(n.extent(region) == s.extent(region));
                    assert(n.holds(region, at));
                } else {
                    assert(n.holds(Region::Live(id), at));
                }
            }
        }
        assert forall|x: ObjectId| #[trigger] n.live.contains_key(x) implies n.entry_ok(x) by {
            if x != id {
                assert(s.live.contains_key(x));
                assert(s.entry_ok(x));
            }
        }
    }
}

/// The name before a free slot was taken of a region after it.
spec fn free_name(region: Region, id: ObjectId, slot: u64, last: int) -> Region {
    if region == Region::Live(id) {
        Region::Free(slot, last)
    } else {
        region
    }
}

/// Changing an entry without moving it keeps the regions as they are.
proof fn lemma_entry_touched(s: ArenaModel, n: ArenaModel, id: ObjectId)
    requires
        s.wf(),
        s.live.contains_key(id),
        n == (ArenaModel { live: s.live.insert(id, n.live[id]), ..s }),
        n.live[id].offset == s.live[id].offset,
        n.live[id].slot == s.live[id].slot,
        n.entry_ok(id),
    ensures
        n.wf(),
{
    assert forall|region: Region| #[trigger] n.extent(region) == s.extent(region) by {}
    assert forall|at: int| 0 <= at < n.top implies #[trigger] n.is_held(at) by {
        assert(s.is_held(at));
        let region = choose|region: Region| #[trigger] s.holds(region, at);
        assert(n.extent(region) == s.extent(region));
        assert(n.holds(region, at));
    }
    assert forall|x: ObjectId| #[trigger] n.live.contains_key(x) implies n.entry_ok(x) by {
        if x != id {
            assert(s.entry_ok(x));
        }
    }
    assert forall|a: Region, b: Region|
        #![trigger n.extent(a), n.extent(b)]
        a != b && n.extent(a) is Some && n.extent(b) is Some implies apart(n.extent(a)->0, n.extent(b)->0) by {
        assert(s.extent(a) == n.extent(a));
        assert(s.extent(b) == n.extent(b));
    }
    assert forall|region: Region| (#[trigger] n.extent(region)) is Some implies within(n.extent(region)->0, n.top) by {
        assert(s.extent(region) == n.extent(region));
    }
}

/// Writing inside the slot of one object leaves the bytes of every other live
/// object as they were.
pub proof fn law_write_stays_in_slot(
    s: ArenaModel,
    memory: Seq<u8>,
    id: ObjectId,
    other: ObjectId,
    start: int,
    bytes: Seq<u8>,
)
    requires
        s.wf(),
        memory.len() == s.capacity,
        s.live.contains_key(id),
        s.live.contains_key(other),
        other != id,
        s.live[id].offset <= start,
        start + bytes.len() <= s.live[id].offset + s.live[id].slot,
    ensures
        s.content(written(memory, start, bytes), other) == s.content(memory, other),
{
    let a = Region::Live(id);
    let b = Region::Live(other);
    assert(s.entry_ok(other));
    lemma_slot(s.live[other].size as int);
    assert(s.extent(a) is Some && s.extent(b) is Some);
    assert(apart(s.extent(a)->0, s.extent(b)->0));
    assert(s.content(written(memory, start, bytes), other) =~= s.content(memory, other));
}

/// The allocator: which slots are taken, by what, and which are free.
#[derive(Debug)]
pub struct ArenaStore {
    token: String,
    capacity: u64,
    top: u64,
    free: Table<u64, Vec<u64>>,
    live: Table<ObjectId, Entry>,
}

impl View for ArenaStore {
    type V = ArenaModel;

    closed spec fn view(&self) -> ArenaModel {
        ArenaModel {
            capacity: self.capacity as int,
            top: self.top as int,
            free: self.free@,
            live: self.live@,
        }
    }
}

impl ArenaStore {
    pub closed spec fn tables_ok(&self) -> bool {
        self.free.wf() && self.live.wf()
    }

    pub open spec fn wf(&self) -> bool {
        self.tables_ok() && self@.wf()
    }

    pub closed spec fn spec_token(&self) -> Seq<char> {
        self.token@
    }

    /// An empty allocator for `capacity` bytes of the region named by `token`.
    pub fn new(token: String, capacity: u64) -> (r: Self)
        ensures
            r.wf(),
            r.spec_token() == token@,
            r@ == (ArenaModel {
                capacity: capacity as int,
                top: 0,
                free: Map::empty(),
                live: Map::empty(),
            }),
    {
        let r = ArenaStore { token, capacity, top: 0, free: Table::new(), live: Table::new() };
        assert(r@ =~= ArenaModel {
            capacity: capacity as int,
            top: 0,
            free: Map::empty(),
            live: Map::empty(),
        });
        r
    }

    /// The name under which readers map the region.
    pub fn token(&self) -> (r: &str)
        ensures
            r@ == self.spec_token(),
    {
        self.token.as_str()
    }

    /// How much of the region has ever been handed out.
    pub fn used_bytes(&self) -> (r: u64)
        ensures
            r == self@.top,
    {
        self.top
    }

    fn free_slot(&mut self, id: &ObjectId)
        requires
            old(self).wf(),
            old(self)@.live.contains_key(*id),
        ensures
            final(self).wf(),
            final(self)@ == old(self)@.freed(*id),
            final(self).spec_token() == old(self).spec_token(),
    {
        let ghost before = self@;
        proof {
            lemma_freed_wf(before, *id);
        }
        if let Some(entry) = self.live.remove(id) {
            if self.free.contains_key(&entry.slot) {
                if let Some(list) = self.free.get_mut(&entry.slot) {
                    list.push(entry.offset);
                }
            } else {
                let mut list: Vec<u64> = Vec::new();
                list.push(entry.offset);
                assert(list@ =~= seq![entry.offset]);
                self.free.insert(entry.slot, list);
            }
        }
        assert(self@ =~= before.freed(*id));
    }

    /// Frees the slots of abandoned reservations.
    pub fn reap(&mut self, now: u64)
        requires
            old(self).wf(),
        ensures
            final(self).wf(),
            old(self)@.reaps_to(final(self)@, now),
            final(self)@.top == old(self)@.top,
            final(self)@.capacity == old(self)@.capacity,
            final(self).spec_token() == old(self).spec_token(),
    {
        let ghost start = self@;
        let mut ids: Vec<ObjectId> = Vec::new();
        let mut i: usize = 0;
        proof {
            self.live.lemma_keys();
        }
        while i < self.live.len()
            invariant
                self.wf(),
                self@ == start,
                self.spec_token() == old(self).spec_token(),
                self.live.keys().no_duplicates(),
                i <= self.live.keys().len(),
                ids@.no_duplicates(),
                forall|id: ObjectId| #[trigger]
                    ids@.contains(id) <==> self.live.keys().take(i as int).contains(id) && start.abandoned(id, now),
            decreases self.live.keys().len() - i,
        {
            let (id, entry) = self.live.entry_at(i);
            let ghost seen = self.live.keys().take(i as int);
            let ghost before = ids@;
            let abandoned = match entry.reserved_at_ms {
                Some(at) => now >= at && now - at >= RESERVE_TTL_MS,
                None => false,
            };
            if abandoned {
                ids.push(*id);
            }
            proof {
                let key = *id;
                let grown = self.live.keys().take(i + 1);
                assert(grown =~= seen.push(key));
                lemma_push_contains(seen, key);
                lemma_push_contains(before, key);
                assert(!seen.contains(key)) by {
                    if seen.contains(key) {
                        let j = seen.index_of(key);
                        assert(self.live.keys()[j] == key);
                    }
                }
                assert(!before.contains(key));
                assert(abandoned == start.abandoned(key, now));
                assert forall|other: ObjectId| #[trigger] ids@.contains(other) <==> grown.contains(other)
                    && start.abandoned(other, now) by {
                    assert(before.contains(other) <==> seen.contains(other) && start.abandoned(other, now));
                }
            }
            i += 1;
        }
        proof {
            self.live.lemma_keys();
            assert(self.live.keys().take(i as int) =~= self.live.keys());
            assert forall|id: ObjectId| #[trigger] ids@.contains(id) <==> start.abandoned(id, now) by {
                if start.abandoned(id, now) {
                    assert(self.live.keys().contains(id));
                }
            }
            assert forall|j: int| 0 <= j < ids@.len() implies start.live.contains_key(#[trigger] ids@[j]) by {
                assert(ids@.contains(ids@[j]));
            }
            assert(ids@.take(0) =~= Seq::<ObjectId>::empty());
        }
        let mut k: usize = 0;
        while k < ids.len()
            invariant
                k <= ids@.len(),
                ids@.no_duplicates(),
                start.wf(),
                forall|j: int| 0 <= j < ids@.len() ==> start.live.contains_key(#[trigger] ids@[j]),
                self.wf(),
                self.spec_token() == old(self).spec_token(),
                self@ == start.free_run(ids@.take(k as int)),
            decreases ids@.len() - k,
        {
            let id = ids[k];
            proof {
                let prefix = ids@.take(k as int);
                assert(ids@.take(k + 1).drop_last() =~= prefix);
                assert(ids@.take(k + 1).last() == id);
                assert forall|j: int| 0 <= j < prefix.len() implies start.live.contains_key(#[trigger] prefix[j]) by {
                    assert(ids@[j] == prefix[j]);
                }
                lemma_free_run_wf(start, prefix);
                assert(!prefix.contains(id)) by {
                    if prefix.contains(id) {
                        let j = prefix.index_of(id);
                        assert(ids@[j] == id);
                    }
                }
                assert(start.live.contains_key(ids@[k as int]));
            }
            self.free_slot(&id);
            k += 1;
        }
        proof {
            assert(ids@.take(k as int) =~= ids@);
            lemma_free_run_wf(start, ids@);
            assert(start.abandoned_exactly(now, ids@));
        }
    }

    /// Reserves a slot under a new token. Repeating a reservation gives the one
    /// that is there.
    pub fn reserve(
        &mut self,
        id: ObjectId,
        size: u64,
        codec: Codec,
        checksum: [u8; 32],
        mode: ArenaWriteMode,
        now: u64,
    ) -> (r: Result<Reservation, Error>)
        requires
            old(self).wf(),
        ensures
            final(self).wf(),
            final(self)@.capacity == old(self)@.capacity,
            final(self).spec_token() == old(self).spec_token(),
            exists|reservation: RequestId| #[trigger]
                reserve_met(old(self)@, final(self)@, id, size, codec, checksum, mode, reservation, now, r),
    {
        let reservation = RequestId::new();
        let r = self.reserve_as(id, size, codec, checksum, mode, reservation, now);
        assert(reserve_met(old(self)@, self@, id, size, codec, checksum, mode, reservation, now, r));
        r
    }

    /// Reserves a slot under the token `reservation`.
    pub fn reserve_as(
        &mut self,
        id: ObjectId,
        size: u64,
        codec: Codec,
        checksum: [u8; 32],
        mode: ArenaWriteMode,
        reservation: RequestId,
        now: u64,
    ) -> (r: Result<Reservation, Error>)
        requires
            old(self).wf(),
        ensures
            final(self).wf(),
            final(self)@.capacity == old(self)@.capacity,
            final(self).spec_token() == old(self).spec_token(),
            reserve_met(old(self)@, final(self)@, id, size, codec, checksum, mode, reservation, now, r),
    {
        self.reap(now);
        let ghost reaped = self@;
        proof {
            lemma_slot(size as int);
            law_reserve_keeps_invariant(reaped, id, size, codec, checksum, mode, reservation, now);
            assert(old(self)@.reaps_to(reaped, now));
        }
        if let Some(entry) = self.live.get(&id) {
            if entry.size != size || entry.codec != codec || !bytes_equal(&entry.checksum, &checksum)
                || entry.mode != mode {
                return Err(Error::ObjectConflict(id));
            }
            return Ok(
                Reservation {
                    offset: entry.offset,
                    reservation: entry.reservation,
                    committed: entry.committed,
                },
            );
        }
        if size > u64::MAX - 7 {
            return Err(Error::CapacityExceeded("arena exhausted".to_string()));
        }
        let bytes: u64 = if size < 1 {
            1
        } else {
            size
        };
        let slot: u64 = (bytes + 7) / 8 * 8;
        assert(slot == slot_for(size as int));
        let reused: Option<u64> = match self.free.get_mut(&slot) {
            Some(list) => list.pop(),
            None => None,
        };
        let offset: u64 = match reused {
            Some(offset) => offset,
            None => {
                assert(self.free@ =~= reaped.free);
                let start: u64 = self.top;
                if slot > self.capacity || start > self.capacity - slot {
                    return Err(Error::CapacityExceeded("arena exhausted".to_string()));
                }
                self.top = start + slot;
                start
            },
        };
        self.live.insert(
            id,
            Entry {
                offset,
                size,
                slot,
                codec,
                checksum,
                reservation,
                mode,
                written_until: 0,
                committed: false,
                reserved_at_ms: Some(now),
            },
        );
        proof {
            assert(self@ =~= reaped.reserved(id, size, codec, checksum, mode, reservation, now).0);
        }
        Ok(Reservation { offset, reservation, committed: false })
    }

    /// Makes a reserved object readable. A streamed one must be complete.
    pub fn commit(&mut self, id: ObjectId, reservation: RequestId) -> (r: Result<Meta, Error>)
        requires
            old(self).wf(),
        ensures
            final(self).wf(),
            final(self).spec_token() == old(self).spec_token(),
            match old(self)@.commit_fault(id, reservation) {
                Some(error) => (r matches Err(e) && e@ == error) && final(self)@ == old(self)@,
                None => {
                    &&& final(self)@ == old(self)@.committed(id)
                    &&& r matches Ok(meta) && meta_of(meta, old(self)@.live[id])
                },
            },
    {
        let ghost before = self@;
        let entry: Entry = match self.live.get(&id) {
            Some(entry) => *entry,
            None => return Err(Error::ObjectNotFound(id)),
        };
        if entry.reservation != reservation {
            return Err(Error::StaleFence);
        }
        if entry.mode == ArenaWriteMode::Streamed && entry.written_until != entry.size {
            return Err(Error::Protocol("arena object incomplete".to_string()));
        }
        if let Some(entry) = self.live.get_mut(&id) {
            entry.committed = true;
            entry.reserved_at_ms = None;
        }
        proof {
            assert(self@ =~= before.committed(id));
            assert(before.entry_ok(id));
            lemma_entry_touched(before, self@, id);
        }
        Ok(Meta { offset: entry.offset, size: entry.size, codec: entry.codec, checksum: entry.checksum })
    }

    /// Gives up a committed object that could not be registered.
    pub fn rollback(&mut self, id: ObjectId, reservation: RequestId) -> (r: Result<(), Error>)
        requires
            old(self).wf(),
        ensures
            final(self).wf(),
            final(self).spec_token() == old(self).spec_token(),
            match old(self)@.rollback_fault(id, reservation) {
                Some(error) => (r matches Err(e) && e@ == error) && final(self)@ == old(self)@,
                None => r is Ok && final(self)@ == old(self)@.freed(id),
            },
    {
        match self.live.get(&id) {
            Some(entry) => {
                if entry.reservation != reservation || !entry.committed {
                    return Err(Error::StaleFence);
                }
            },
            None => return Err(Error::ObjectNotFound(id)),
        }
        self.free_slot(&id);
        Ok(())
    }

    /// Frees the slot of an object, if it has one.
    pub fn release(&mut self, id: ObjectId)
        requires
            old(self).wf(),
        ensures
            final(self).wf(),
            final(self).spec_token() == old(self).spec_token(),
            final(self)@ == if old(self)@.live.contains_key(id) {
                old(self)@.freed(id)
            } else {
                old(self)@
            },
    {
        if self.live.contains_key(&id) {
            self.free_slot(&id);
        }
    }

    /// What there is to say about a committed object.
    pub fn meta(&self, id: ObjectId) -> (r: Option<Meta>)
        requires
            self.wf(),
        ensures
            match r {
                Some(meta) => self@.is_committed(id) && meta_of(meta, self@.live[id]),
                None => !self@.is_committed(id),
            },
    {
        match self.live.get(&id) {
            Some(entry) => if entry.committed {
                Some(
                    Meta {
                        offset: entry.offset,
                        size: entry.size,
                        codec: entry.codec,
                        checksum: entry.checksum,
                    },
                )
            } else {
                None
            },
            None => None,
        }
    }

    /// Stores bytes that the coordinator already has: reserves, writes, commits.
    pub fn put(
        &mut self,
        memory: &mut [u8],
        id: ObjectId,
        bytes: &[u8],
        codec: Codec,
        checksum: [u8; 32],
        now: u64,
    ) -> (r: Option<u64>)
        requires
            old(self).wf(),
            old(memory)@.len() == old(self)@.capacity,
        ensures
            final(self).wf(),
            final(self)@.capacity == old(self)@.capacity,
            final(self).spec_token() == old(self).spec_token(),
            final(memory)@.len() == old(memory)@.len(),
            exists|reservation: RequestId| #[trigger]
                arena_put_met(
                    old(self)@,
                    final(self)@,
                    old(memory)@,
                    final(memory)@,
                    id,
                    bytes@,
                    codec,
                    checksum,
                    reservation,
                    now,
                    r,
                ),
    {
        let reservation = RequestId::new();
        let r = self.put_as(memory, id, bytes, codec, checksum, reservation, now);
        assert(arena_put_met(
            old(self)@,
            self@,
            old(memory)@,
            memory@,
            id,
            bytes@,
            codec,
            checksum,
            reservation,
            now,
            r,
        ));
        r
    }

    /// Stores bytes under the token `reservation`.
    pub fn put_as(
        &mut self,
        memory: &mut [u8],
        id: ObjectId,
        bytes: &[u8],
        codec: Codec,
        checksum: [u8; 32],
        reservation: RequestId,
        now: u64,
    ) -> (r: Option<u64>)
        requires
            old(self).wf(),
            old(memory)@.len() == old(self)@.capacity,
        ensures
            final(self).wf(),
            final(self)@.capacity == old(self)@.capacity,
            final(self).spec_token() == old(self).spec_token(),
            final(memory)@.len() == old(memory)@.len(),
            arena_put_met(
                old(self)@,
                final(self)@,
                old(memory)@,
                final(memory)@,
                id,
                bytes@,
                codec,
                checksum,
                reservation,
                now,
                r,
            ),
    {
        let size: u64 = bytes.len() as u64;
        let granted = match self.reserve_as(
            id,
            size,
            codec,
            checksum,
            ArenaWriteMode::Direct,
            reservation,
            now,
        ) {
            Ok(granted) => granted,
            Err(_) => return None,
        };
        if !granted.committed {
            proof {
                let s = self@;
                assert(s.entry_ok(id));
                lemma_slot(size as int);
                assert(s.extent(Region::Live(id)) is Some);
            }
            let ghost mid = self@;
            write_at(memory, granted.offset, bytes);
            let committed = self.commit(id, granted.reservation);
            assert(mid.commit_fault(id, granted.reservation) is None);
        }
        Some(granted.offset)
    }

    /// Takes a chunk of a streamed object. Chunks come in order; one that has
    /// been written already is accepted if it says the same.
    pub fn write_chunk(
        &mut self,
        memory: &mut [u8],
        id: ObjectId,
        reservation: RequestId,
        rel_offset: u64,
        bytes: &[u8],
        now: u64,
    ) -> (r: Result<(), Error>)
        requires
            old(self).wf(),
            old(memory)@.len() == old(self)@.capacity,
        ensures
            final(self).wf(),
            final(self)@.capacity == old(self)@.capacity,
            final(self).spec_token() == old(self).spec_token(),
            match old(self)@.chunk_fault(old(memory)@, id, reservation, rel_offset, bytes@) {
                Some(error) => {
                    &&& r matches Err(e) && e@ == error
                    &&& final(self)@ == old(self)@
                    &&& final(memory)@ == old(memory)@
                },
                None => {
                    &&& r is Ok
                    &&& final(self)@ == old(self)@.chunk_taken(id, rel_offset, bytes@.len(), now)
                    &&& final(memory)@ == if rel_offset == old(self)@.live[id].written_until {
                        written(old(memory)@, old(self)@.live[id].offset + rel_offset, bytes@)
                    } else {
                        old(memory)@
                    }
                },
            },
    {
        let ghost before = self@;
        let entry: Entry = match self.live.get(&id) {
            Some(entry) => *entry,
            None => return Err(Error::ObjectNotFound(id)),
        };
        if entry.reservation != reservation || entry.committed {
            return Err(Error::StaleFence);
        }
        if entry.mode != ArenaWriteMode::Streamed {
            return Err(Error::Protocol("arena reservation is not streamed".to_string()));
        }
        let end: u64 = match rel_offset.checked_add(bytes.len() as u64) {
            Some(end) => if end <= entry.size {
                end
            } else {
                return Err(Error::Protocol("put chunk out of bounds".to_string()));
            },
            None => return Err(Error::Protocol("put chunk out of bounds".to_string())),
        };
        proof {
            assert(before.entry_ok(id));
            lemma_slot(entry.size as int);
            assert(before.extent(Region::Live(id)) is Some);
        }
        let base: u64 = entry.offset + rel_offset;
        if rel_offset == entry.written_until {
            write_at(memory, base, bytes);
            if let Some(entry) = self.live.get_mut(&id) {
                entry.written_until = end;
                entry.reserved_at_ms = Some(now);
            }
            proof {
                assert(self@ =~= before.chunk_taken(id, rel_offset, bytes@.len(), now));
                lemma_entry_touched(before, self@, id);
            }
            return Ok(());
        }
        if end <= entry.written_until {
            let length = memory.len();
            let existing = vstd::slice::slice_subrange(&*memory, base as usize, base as usize + bytes.len());
            proof {
                assert(existing@ =~= before.content(memory@, id).subrange(rel_offset as int, end as int));
            }
            if slices_equal(existing, bytes) {
                return Ok(());
            } else {
                return Err(Error::ObjectConflict(id));
            }
        }
        Err(Error::Protocol("put chunk must be contiguous".to_string()))
    }

    /// The bytes of a committed object.
    pub fn read(&self, memory: &[u8], id: ObjectId) -> (r: Option<Vec<u8>>)
        requires
            self.wf(),
            memory@.len() == self@.capacity,
        ensures
            match r {
                Some(bytes) => self@.is_committed(id) && bytes@ == self@.content(memory@, id),
                None => !self@.is_committed(id),
            },
    {
        match self.live.get(&id) {
            Some(entry) => if entry.committed {
                proof {
                    assert(self@.entry_ok(id));
                    lemma_slot(entry.size as int);
                    assert(self@.extent(Region::Live(id)) is Some);
                }
                Some(read_at(memory, entry.offset, entry.size))
            } else {
                None
            },
            None => None,
        }
    }

    /// A range of the bytes of a committed object.
    pub fn read_chunk(&self, memory: &[u8], id: ObjectId, rel_offset: u64, len: u64) -> (r: Option<Vec<u8>>)
        requires
            self.wf(),
            memory@.len() == self@.capacity,
        ensures
            match r {
                Some(bytes) => {
                    &&& self@.is_committed(id)
                    &&& rel_offset + len <= self@.live[id].size
                    &&& bytes@ == self@.content(memory@, id).subrange(rel_offset as int, rel_offset + len)
                },
                None => !(self@.is_committed(id) && rel_offset + len <= self@.live[id].size),
            },
    {
        match self.live.get(&id) {
            Some(entry) => {
                if !entry.committed {
                    return None;
                }
                let end: u64 = match rel_offset.checked_add(len) {
                    Some(end) => end,
                    None => return None,
                };
                if end > entry.size {
                    return None;
                }
                proof {
                    assert(self@.entry_ok(id));
                    lemma_slot(entry.size as int);
                    assert(self@.extent(Region::Live(id)) is Some);
                }
                let bytes = read_at(memory, entry.offset + rel_offset, len);
                assert(bytes@ =~= self@.content(memory@, id).subrange(rel_offset as int, end as int));
                Some(bytes)
            },
            None => None,
        }
    }
}

/// The answer to a reservation: abandoned ones are cleared first.
pub open spec fn reserve_met(
    before: ArenaModel,
    after: ArenaModel,
    id: ObjectId,
    size: u64,
    codec: Codec,
    checksum: [u8; 32],
    mode: ArenaWriteMode,
    reservation: RequestId,
    now: u64,
    r: Result<Reservation, Error>,
) -> bool {
    exists|reaped: ArenaModel| #[trigger]
        before.reaps_to(reaped, now) && ({
            let (next, answer) = reaped.reserved(id, size, codec, checksum, mode, reservation, now);
            &&& after == next
            &&& match answer {
                Ok(granted) => r == Ok::<Reservation, Error>(granted),
                Err(error) => r matches Err(e) && e@ == error,
            }
        })
}

/// The answer to a put: the object is committed and holds the bytes, unless
/// there was no room or the id names something else. What was committed before
/// is not written again.
pub open spec fn arena_put_met(
    before: ArenaModel,
    after: ArenaModel,
    memory: Seq<u8>,
    memory_after: Seq<u8>,
    id: ObjectId,
    bytes: Seq<u8>,
    codec: Codec,
    checksum: [u8; 32],
    reservation: RequestId,
    now: u64,
    r: Option<u64>,
) -> bool {
    exists|reaped: ArenaModel| #[trigger]
        before.reaps_to(reaped, now) && ({
            let (mid, answer) = reaped.reserved(
                id,
                bytes.len() as u64,
                codec,
                checksum,
                ArenaWriteMode::Direct,
                reservation,
                now,
            );
            match answer {
                Err(_) => r is None && after == mid && memory_after == memory,
                Ok(granted) => {
                    &&& r == Some(granted.offset)
                    &&& if granted.committed {
                        after == mid && memory_after == memory
                    } else {
                        after == mid.committed(id) && memory_after == written(memory, granted.offset as int, bytes)
                    }
                },
            }
        })
}

pub open spec fn meta_of(meta: Meta, entry: Entry) -> bool {
    &&& meta.offset == entry.offset
    &&& meta.size == entry.size
    &&& meta.codec == entry.codec
    &&& meta.checksum == entry.checksum
}

/// Copies `bytes` into the region at `offset`.
pub fn write_at(memory: &mut [u8], offset: u64, bytes: &[u8])
    requires
        offset + bytes@.len() <= old(memory)@.len(),
    ensures
        final(memory)@ == written(old(memory)@, offset as int, bytes@),
{
    let length = memory.len();
    let base: usize = offset as usize;
    let ghost before = memory@;
    let mut i: usize = 0;
    while i < bytes.len()
        invariant
            i <= bytes@.len(),
            memory@.len() == before.len(),
            length == before.len(),
            base == offset,
            base + bytes@.len() <= length,
            forall|k: int|
                0 <= k < before.len() ==> #[trigger] memory@[k] == if base <= k < base + i {
                    bytes@[k - base]
                } else {
                    before[k]
                },
        decreases bytes@.len() - i,
    {
        memory[base + i] = bytes[i];
        i += 1;
    }
    assert(memory@ =~= written(before, offset as int, bytes@));
}

fn read_at(memory: &[u8], offset: u64, len: u64) -> (r: Vec<u8>)
    requires
        offset + len <= memory@.len(),
    ensures
        r@ == memory@.subrange(offset as int, offset + len),
{
    let length = memory.len();
    vstd::slice::slice_to_vec(
        vstd::slice::slice_subrange(memory, offset as usize, offset as usize + len as usize),
    )
}

/// What a put stored is what a read gives back.
pub proof fn law_read_gives_back_put(
    s: ArenaModel,
    memory: Seq<u8>,
    id: ObjectId,
    bytes: Seq<u8>,
)
    requires
        s.wf(),
        memory.len() == s.capacity,
        s.live.contains_key(id),
        s.live[id].size == bytes.len(),
    ensures
        s.committed(id).content(written(memory, s.live[id].offset as int, bytes), id) == bytes,
{
    assert(s.entry_ok(id));
    lemma_slot(s.live[id].size as int);
    assert(s.extent(Region::Live(id)) is Some);
    assert(s.committed(id).content(written(memory, s.live[id].offset as int, bytes), id) =~= bytes);
}

/// The bytes of a live object lie in the arena.
pub proof fn lemma_content_fits(s: ArenaModel, id: ObjectId)
    requires
        s.wf(),
        s.live.contains_key(id),
    ensures
        s.live[id].offset + s.live[id].size <= s.capacity,
{
    assert(s.entry_ok(id));
    lemma_slot(s.live[id].size as int);
    assert(s.extent(Region::Live(id)) is Some);
}

proof fn lemma_free_run_keeps_free(s: ArenaModel, ids: Seq<ObjectId>, slot: u64)
    requires
        s.has_free(slot),
    ensures
        s.free_run(ids).has_free(slot),
    decreases ids.len(),
{
    if ids.len() > 0 {
        lemma_free_run_keeps_free(s, ids.drop_last(), slot);
    }
}

/// Clearing abandoned reservations keeps the invariant, what was committed and what
/// was free.
proof fn lemma_reaps_to(s: ArenaModel, n: ArenaModel, now: u64)
    requires
        s.wf(),
        s.reaps_to(n, now),
    ensures
        n.wf(),
        n.capacity == s.capacity,
        n.top == s.top,
        forall|slot: u64| #[trigger] s.has_free(slot) ==> n.has_free(slot),
        forall|id: ObjectId| #[trigger] n.live.contains_key(id) ==> s.live.contains_key(id) && n.live[id] == s.live[id],
        forall|id: ObjectId| #[trigger] s.is_committed(id) ==> n.live.contains_key(id),
{
    let ids = choose|ids: Seq<ObjectId>| #[trigger] s.abandoned_exactly(now, ids) && n == s.free_run(ids);
    assert forall|i: int| 0 <= i < ids.len() implies s.live.contains_key(#[trigger] ids[i]) by {
        assert(ids.contains(ids[i]));
    }
    lemma_free_run_wf(s, ids);
    assert forall|slot: u64| #[trigger] s.has_free(slot) implies n.has_free(slot) by {
        lemma_free_run_keeps_free(s, ids, slot);
    }
    assert forall|id: ObjectId| #[trigger] s.is_committed(id) implies n.live.contains_key(id) by {
        assert(s.entry_ok(id));
        assert(ids.contains(id) <==> s.abandoned(id, now));
    }
}

/// The first put of an object is read back as it was if there was room for it, and
/// what was committed before stays as it was.
pub proof fn law_put_is_read_back(
    before: ArenaModel,
    after: ArenaModel,
    memory: Seq<u8>,
    memory_after: Seq<u8>,
    id: ObjectId,
    bytes: Seq<u8>,
    codec: Codec,
    checksum: [u8; 32],
    reservation: RequestId,
    now: u64,
    r: Option<u64>,
    other: ObjectId,
)
    requires
        before.wf(),
        memory.len() == before.capacity,
        bytes.len() <= u64::MAX,
        arena_put_met(before, after, memory, memory_after, id, bytes, codec, checksum, reservation, now, r),
    ensures
        !before.is_committed(id) ==> (after.is_committed(id) <==> r is Some),
        !before.is_committed(id) && r is Some ==> {
            &&& after.live[id].offset == r->0
            &&& after.live[id].size == bytes.len()
            &&& after.live[id].offset + bytes.len() <= memory_after.len()
            &&& after.content(memory_after, id) == bytes
        },
        before.is_committed(other) ==> {
            &&& after.is_committed(other)
            &&& after.live[other] == before.live[other]
            &&& after.content(memory_after, other) == before.content(memory, other)
        },
{
    let size = bytes.len() as u64;
    let reaped = choose|reaped: ArenaModel| #[trigger]
        before.reaps_to(reaped, now) && ({
            let (mid, answer) = reaped.reserved(id, size, codec, checksum, ArenaWriteMode::Direct, reservation, now);
            match answer {
                Err(_) => r is None && after == mid && memory_after == memory,
                Ok(granted) => {
                    &&& r == Some(granted.offset)
                    &&& if granted.committed {
                        after == mid && memory_after == memory
                    } else {
                        after == mid.committed(id) && memory_after == written(memory, granted.offset as int, bytes)
                    }
                },
            }
        });
    lemma_reaps_to(before, reaped, now);
    let (mid, answer) = reaped.reserved(id, size, codec, checksum, ArenaWriteMode::Direct, reservation, now);
    law_reserve_keeps_invariant(reaped, id, size, codec, checksum, ArenaWriteMode::Direct, reservation, now);
    if answer is Ok {
        law_read_gives_back_put(mid, memory, id, bytes);
        lemma_content_fits(mid, id);
        if before.is_committed(other) && other != id {
            assert(mid.live.contains_key(other));
            assert(mid.entry_ok(id));
            lemma_slot(size as int);
            law_write_stays_in_slot(mid, memory, id, other, mid.live[id].offset as int, bytes);
        }
    }
}

/// A chunk that continues an object leaves what was written before it, and is
/// itself what is read at its place.
pub proof fn law_chunk_extends_content(
    s: ArenaModel,
    memory: Seq<u8>,
    id: ObjectId,
    bytes: Seq<u8>,
    now: u64,
)
    requires
        s.wf(),
        memory.len() == s.capacity,
        s.live.contains_key(id),
        s.live[id].written_until + bytes.len() <= s.live[id].size,
    ensures
        ({
            let at = s.live[id].written_until;
            let n = s.chunk_taken(id, at, bytes.len(), now);
            let after = written(memory, s.live[id].offset + at, bytes);
            &&& n.live[id].written_until == at + bytes.len()
            &&& n.content(after, id).take(n.live[id].written_until as int) == s.content(memory, id).take(at as int)
                + bytes
        }),
{
    let at = s.live[id].written_until;
    let n = s.chunk_taken(id, at, bytes.len(), now);
    let after = written(memory, s.live[id].offset + at, bytes);
    assert(s.entry_ok(id));
    lemma_slot(s.live[id].size as int);
    assert(s.extent(Region::Live(id)) is Some);
    assert(n.content(after, id).take(n.live[id].written_until as int) =~= s.content(memory, id).take(at as int)
        + bytes);
}

/// A slot that is reserved for an id that had none is empty.
pub proof fn law_reserved_slot_is_empty(
    before: ArenaModel,
    after: ArenaModel,
    id: ObjectId,
    size: u64,
    codec: Codec,
    checksum: [u8; 32],
    mode: ArenaWriteMode,
    reservation: RequestId,
    now: u64,
    r: Result<Reservation, Error>,
)
    requires
        before.wf(),
        !before.live.contains_key(id),
        reserve_met(before, after, id, size, codec, checksum, mode, reservation, now, r),
    ensures
        after.wf(),
        after.capacity == before.capacity,
        r matches Ok(granted) ==> {
            &&& granted.reservation == reservation
            &&& after.live.contains_key(id)
            &&& after.live[id].reservation == reservation
            &&& after.live[id].offset == granted.offset
            &&& after.live[id].size == size
            &&& after.live[id].mode == mode
            &&& after.live[id].written_until == 0
            &&& !after.live[id].committed
        },
{
    let reaped = choose|reaped: ArenaModel| #[trigger]
        before.reaps_to(reaped, now) && ({
            let (next, answer) = reaped.reserved(id, size, codec, checksum, mode, reservation, now);
            &&& after == next
            &&& match answer {
                Ok(granted) => r == Ok::<Reservation, Error>(granted),
                Err(error) => r matches Err(e) && e@ == error,
            }
        });
    lemma_reaps_to(before, reaped, now);
    law_reserve_keeps_invariant(reaped, id, size, codec, checksum, mode, reservation, now);
}

/// A token that is not that of the current reservation changes nothing.
pub proof fn law_stale_reservation_is_refused(s: ArenaModel, memory: Seq<u8>, id: ObjectId, stale: RequestId)
    requires
        s.live.contains_key(id),
        s.live[id].reservation != stale,
    ensures
        s.commit_fault(id, stale) == Some(ErrorModel::StaleFence),
        s.rollback_fault(id, stale) == Some(ErrorModel::StaleFence),
        forall|offset: u64, bytes: Seq<u8>| #[trigger]
            s.chunk_fault(memory, id, stale, offset, bytes) == Some(ErrorModel::StaleFence),
{
}

/// A streamed object is committed only when all of it has been written.
pub proof fn law_streamed_commit_needs_all(s: ArenaModel, id: ObjectId, reservation: RequestId)
    requires
        s.commit_fault(id, reservation) is None,
        s.live[id].mode == ArenaWriteMode::Streamed,
    ensures
        s.live[id].written_until == s.live[id].size,
{
}

/// A released slot is what the next reservation of the same slot size gets.
pub proof fn law_released_slot_is_reused(
    s: ArenaModel,
    id: ObjectId,
    next: ObjectId,
    size: u64,
    codec: Codec,
    checksum: [u8; 32],
    mode: ArenaWriteMode,
    reservation: RequestId,
    now: u64,
)
    requires
        s.wf(),
        s.live.contains_key(id),
        !s.freed(id).live.contains_key(next),
        slot_for(size as int) == s.live[id].slot,
    ensures
        ({
            let (n, answer) = s.freed(id).reserved(next, size, codec, checksum, mode, reservation, now);
            &&& answer == Ok::<Reservation, ErrorModel>(
                Reservation { offset: s.live[id].offset, reservation, committed: false },
            )
            &&& n.top == s.top
        }),
{
}

/// Every byte that was ever handed out is in exactly one slot, live or free.
pub proof fn law_no_byte_is_leaked(s: ArenaModel, at: int)
    requires
        s.wf(),
        0 <= at < s.top,
    ensures
        exists|region: Region| #[trigger] s.holds(region, at),
        forall|a: Region, b: Region| #[trigger] s.holds(a, at) && #[trigger] s.holds(b, at) ==> a == b,
{
    assert(s.is_held(at));
    assert forall|a: Region, b: Region| #[trigger] s.holds(a, at) && #[trigger] s.holds(b, at) implies a == b by {
        if a != b {
            assert(apart(s.extent(a)->0, s.extent(b)->0));
        }
    }
}

/// A call on an arena, with the token that it was given where it draws one.
pub enum ArenaCall {
    Reap { now: u64 },
    Reserve {
        id: ObjectId,
        size: u64,
        codec: Codec,
        checksum: [u8; 32],
        mode: ArenaWriteMode,
        reservation: RequestId,
        now: u64,
    },
    Commit { id: ObjectId, reservation: RequestId },
    Rollback { id: ObjectId, reservation: RequestId },
    Release { id: ObjectId },
    Put { id: ObjectId, bytes: Seq<u8>, codec: Codec, checksum: [u8; 32], reservation: RequestId, now: u64 },
    WriteChunk { id: ObjectId, reservation: RequestId, offset: u64, bytes: Seq<u8>, now: u64 },
}

impl ArenaCall {
    /// The size of the object that a call may need a slot for.
    pub open spec fn wanted(self) -> Option<int> {
        match self {
            ArenaCall::Reserve { size, .. } => Some(size as int),
            ArenaCall::Put { bytes, .. } => Some(bytes.len() as int),
            _ => None,
        }
    }

    /// What a call makes of an arena and its memory.
    pub open spec fn leads(
        self,
        before: ArenaModel,
        memory: Seq<u8>,
        after: ArenaModel,
        memory_after: Seq<u8>,
    ) -> bool {
        match self {
            ArenaCall::Reap { now } => before.reaps_to(after, now) && memory_after == memory,
            ArenaCall::Reserve { id, size, codec, checksum, mode, reservation, now } => memory_after == memory
                && exists|r: Result<Reservation, Error>| #[trigger]
                reserve_met(before, after, id, size, codec, checksum, mode, reservation, now, r),
            ArenaCall::Commit { id, reservation } => memory_after == memory && after == match before.commit_fault(
                id,
                reservation,
            ) {
                Some(_) => before,
                None => before.committed(id),
            },
            ArenaCall::Rollback { id, reservation } => memory_after == memory && after == match before.rollback_fault(
                id,
                reservation,
            ) {
                Some(_) => before,
                None => before.freed(id),
            },
            ArenaCall::Release { id } => memory_after == memory && after == if before.live.contains_key(id) {
                before.freed(id)
            } else {
                before
            },
            ArenaCall::Put { id, bytes, codec, checksum, reservation, now } => {
                &&& bytes.len() <= u64::MAX
                &&& exists|r: Option<u64>| #[trigger]
                    arena_put_met(
                        before,
                        after,
                        memory,
                        memory_after,
                        id,
                        bytes,
                        codec,
                        checksum,
                        reservation,
                        now,
                        r,
                    )
            },
            ArenaCall::WriteChunk { id, reservation, offset, bytes, now } => match before.chunk_fault(
                memory,
                id,
                reservation,
                offset,
                bytes,
            ) {
                Some(_) => after == before && memory_after == memory,
                None => {
                    &&& after == before.chunk_taken(id, offset, bytes.len(), now)
                    &&& memory_after == if offset == before.live[id].written_until {
                        written(memory, before.live[id].offset + offset, bytes)
                    } else {
                        memory
                    }
                },
            },
        }
    }
}

proof fn lemma_reserved_top(
    s: ArenaModel,
    reaped: ArenaModel,
    id: ObjectId,
    size: u64,
    codec: Codec,
    checksum: [u8; 32],
    mode: ArenaWriteMode,
    reservation: RequestId,
    now: u64,
)
    requires
        s.wf(),
        s.reaps_to(reaped, now),
    ensures
        ({
            let n = reaped.reserved(id, size, codec, checksum, mode, reservation, now).0;
            &&& n.wf()
            &&& n.capacity == s.capacity
            &&& n.top == s.top || {
                &&& n.top == s.top + slot_for(size as int)
                &&& !s.has_free(slot_for(size as int) as u64)
            }
        }),
{
    lemma_reaps_to(s, reaped, now);
    law_reserve_keeps_invariant(reaped, id, size, codec, checksum, mode, reservation, now);
    lemma_slot(size as int);
}

/// Every call keeps the arena in order. None takes back what was handed out, and
/// one hands out more only if it needs a slot of a size of which none was released.
pub proof fn law_every_call_keeps_arena(
    before: ArenaModel,
    memory: Seq<u8>,
    call: ArenaCall,
    after: ArenaModel,
    memory_after: Seq<u8>,
)
    requires
        before.wf(),
        memory.len() == before.capacity,
        call.leads(before, memory, after, memory_after),
    ensures
        after.wf(),
        after.capacity == before.capacity,
        memory_after.len() == memory.len(),
        before.top <= after.top,
        after.top > before.top ==> {
            &&& call.wanted() is Some
            &&& !before.has_free(slot_for(call.wanted()->0) as u64)
            &&& after.top == before.top + slot_for(call.wanted()->0)
        },
{
    match call {
        ArenaCall::Reap { now } => {
            lemma_reaps_to(before, after, now);
        },
        ArenaCall::Reserve { id, size, codec, checksum, mode, reservation, now } => {
            let reaped = choose|reaped: ArenaModel| #[trigger]
                before.reaps_to(reaped, now) && after == reaped.reserved(
                    id,
                    size,
                    codec,
                    checksum,
                    mode,
                    reservation,
                    now,
                ).0;
            lemma_reserved_top(before, reaped, id, size, codec, checksum, mode, reservation, now);
            lemma_slot(size as int);
        },
        ArenaCall::Commit { id, reservation } => {
            if before.commit_fault(id, reservation) is None {
                assert(before.entry_ok(id));
                lemma_entry_touched(before, after, id);
            }
        },
        ArenaCall::Rollback { id, reservation } => {
            if before.rollback_fault(id, reservation) is None {
                lemma_freed_wf(before, id);
            }
        },
        ArenaCall::Release { id } => {
            if before.live.contains_key(id) {
                lemma_freed_wf(before, id);
            }
        },
        ArenaCall::Put { id, bytes, codec, checksum, reservation, now } => {
            let size = bytes.len() as u64;
            let mode = ArenaWriteMode::Direct;
            let reaped = choose|reaped: ArenaModel| #[trigger]
                before.reaps_to(reaped, now) && memory_after.len() == memory.len() && ({
                    let (mid, answer) = reaped.reserved(id, size, codec, checksum, mode, reservation, now);
                    after == mid || answer is Ok && after == mid.committed(id)
                });
            let (mid, answer) = reaped.reserved(id, size, codec, checksum, mode, reservation, now);
            lemma_reserved_top(before, reaped, id, size, codec, checksum, mode, reservation, now);
            lemma_slot(size as int);
            if after != mid {
                assert(mid.live.contains_key(id));
                assert(mid.entry_ok(id));
                assert(mid.live[id].mode == mode);
                lemma_entry_touched(mid, after, id);
            }
        },
        ArenaCall::WriteChunk { id, reservation, offset, bytes, now } => {
            if before.chunk_fault(memory, id, reservation, offset, bytes) is None && after != before {
                assert(before.entry_ok(id));
                lemma_entry_touched(before, after, id);
            }
        },
    }
}

/// However an arena was used, it is in order, and what was handed out never shrinks.
pub proof fn law_arena_stays_in_order(states: Seq<ArenaModel>, memories: Seq<Seq<u8>>, calls: Seq<ArenaCall>)
    requires
        states.len() == calls.len() + 1,
        memories.len() == states.len(),
        states[0].wf(),
        memories[0].len() == states[0].capacity,
        forall|i: int|
            0 <= i < calls.len() ==> (#[trigger] calls[i]).leads(
                states[i],
                memories[i],
                states[i + 1],
                memories[i + 1],
            ),
    ensures
        states.last().wf(),
        states.last().capacity == states[0].capacity,
        memories.last().len() == states.last().capacity,
        states[0].top <= states.last().top <= states[0].capacity,
    decreases calls.len(),
{
    if calls.len() > 0 {
        let n = calls.len() - 1;
        let earlier = states.drop_last();
        let memories_earlier = memories.drop_last();
        assert forall|i: int| 0 <= i < calls.drop_last().len() implies (#[trigger] calls.drop_last()[i]).leads(
            earlier[i],
            memories_earlier[i],
            earlier[i + 1],
            memories_earlier[i + 1],
        ) by {
            assert(calls[i].leads(states[i], memories[i], states[i + 1], memories[i + 1]));
        }
        law_arena_stays_in_order(earlier, memories_earlier, calls.drop_last());
        assert(calls[n].leads(states[n], memories[n], states[n + 1], memories[n + 1]));
        law_every_call_keeps_arena(states[n], memories[n], calls[n], states[n + 1], memories[n + 1]);
    }
}

/// Two live objects of an arena do not overlap, and both lie in the part that was
/// handed out.
pub proof fn law_live_objects_are_apart(store: ArenaStore, a: ObjectId, b: ObjectId)
    requires
        store.wf(),
        a != b,
        store@.live.contains_key(a),
        store@.live.contains_key(b),
    ensures
        ({
            let one = store@.live[a];
            let other = store@.live[b];
            &&& one.offset + one.size <= other.offset || other.offset + other.size <= one.offset
            &&& one.offset + one.size <= store@.top
            &&& other.offset + other.size <= store@.top
            &&& store@.top <= store@.capacity
        }),
{
    let s = store@;
    assert(s.entry_ok(a) && s.entry_ok(b));
    lemma_slot(s.live[a].size as int);
    lemma_slot(s.live[b].size as int);
    assert(s.extent(Region::Live(a)) is Some && s.extent(Region::Live(b)) is Some);
    assert(apart(s.extent(Region::Live(a))->0, s.extent(Region::Live(b))->0));
}

/// What names an arena: the process that owns it, and something unique.
pub open spec fn token_text(pid: u32, unique: Seq<char>) -> Seq<char> {
    decimal(pid as nat) + "-"@ + unique
}

/// What names an arena.
pub fn arena_token(pid: u32, unique: &str) -> (r: String)
    ensures
        r@ == token_text(pid, unique@),
{
    let mut token = decimal_string(pid as u64);
    token.append("-");
    token.append(unique);
    token
}

/// The name of an arena's file.
pub open spec fn file_name_text(token: Seq<char>) -> Seq<char> {
    "arena-"@ + token
}

/// The name of an arena's file.
pub fn file_name(token: &str) -> (r: String)
    ensures
        r@ == file_name_text(token@),
{
    let mut name = "arena-".to_string();
    name.append(token);
    name
}

/// The process that owns the file with this name, if it is the name of an arena's
/// file.
pub open spec fn owner_text(name: Seq<char>) -> Option<Seq<char>> {
    if "arena-"@.is_prefix_of(name) {
        let owner = pieces(name.skip("arena-"@.len() as int), '-')[0];
        if number_upto(owner, u32::MAX as int) is Some {
            Some(owner)
        } else {
            None
        }
    } else {
        None
    }
}

/// The process that owns the file with this name. A file whose owner is gone can be
/// removed.
pub fn file_owner(name: &str) -> (r: Option<String>)
    ensures
        match r {
            Some(owner) => owner_text(name@) == Some(owner@),
            None => owner_text(name@) is None,
        },
{
    let rest = match without_prefix(name, "arena-") {
        Some(rest) => rest,
        None => return None,
    };
    let parts = split(rest, '-');
    proof {
        lemma_some_piece(rest@, '-');
        assert(texts(parts@)[0] == parts@[0]@);
    }
    match parse_u32(parts[0]) {
        Some(_) => Some(parts[0].to_string()),
        None => None,
    }
}

proof fn lemma_some_piece(text: Seq<char>, separator: char)
    ensures
        pieces(text, separator).len() > 0,
    decreases text.len(),
{
    if text.len() > 0 {
        lemma_some_piece(text.drop_last(), separator);
    }
}

/// From the name that an arena's file is given its owner can be read.
pub proof fn law_file_names_its_owner(pid: u32, unique: Seq<char>)
    ensures
        owner_text(file_name_text(token_text(pid, unique))) == Some(decimal(pid as nat)),
{
    reveal_strlit("arena-");
    reveal_strlit("-");
    let name = file_name_text(token_text(pid, unique));
    let number = decimal(pid as nat);
    law_written_number_is_read(pid as nat);
    assert("arena-"@.is_prefix_of(name)) by {
        assert(name.subrange(0, 6) =~= "arena-"@);
    }
    assert(!number.contains('-')) by {
        if number.contains('-') {
            let i = choose|i: int| 0 <= i < number.len() && number[i] == '-';
            assert(crate::judge::is_digit(number[i]));
        }
    }
    assert(name.skip(6) =~= number.push('-') + unique);
    lemma_first_piece(number, '-', unique);
}

/// Copies of fewer bytes than this are done by one thread.
pub const COPY_PARALLEL_BYTES: usize = 8_388_608;

/// How many bytes of a copy each thread gets, if up to `threads` of them share it:
/// all of a short one, and of a longer one an equal part for each of at most eight.
pub fn copy_part(len: usize, threads: usize) -> (r: usize)
    requires
        threads > 0,
    ensures
        len < COPY_PARALLEL_BYTES ==> r == len,
        len >= COPY_PARALLEL_BYTES ==> {
            let count = if threads < 8 {
                threads as int
            } else {
                8
            };
            r * count >= len && (r - 1) * count < len
        },
{
    if len < COPY_PARALLEL_BYTES {
        return len;
    }
    let count: usize = if threads < 8 {
        threads
    } else {
        8
    };
    let whole: usize = len / count;
    let rest: usize = len % count;
    assert(len == whole * count + rest && 0 <= rest < count) by (nonlinear_arith)
        requires
            count > 0,
            whole == len / count,
            rest == len % count,
    ;
    if rest == 0 {
        assert((whole - 1) * count < len) by (nonlinear_arith)
            requires
                count > 0,
                len == whole * count,
        ;
        whole
    } else {
        assert(whole < len) by (nonlinear_arith)
            requires
                len == whole * count + rest,
                rest > 0,
                count > 0,
        ;
        assert((whole + 1) * count >= len && (whole + 1 - 1) * count < len) by (nonlinear_arith)
            requires
                len == whole * count + rest,
                0 < rest < count,
        ;
        whole + 1
    }
}

/// Copies bytes over others.
pub fn copy_wide(dst: &mut [u8], src: &[u8])
    requires
        old(dst)@.len() == src@.len(),
    ensures
        final(dst)@ == src@,
{
    let mut i: usize = 0;
    while i < src.len()
        invariant
            i <= src@.len(),
            dst@.len() == src@.len(),
            dst@.take(i as int) == src@.take(i as int),
        decreases src@.len() - i,
    {
        let ghost before = dst@;
        dst[i] = src[i];
        assert(dst@.take(i + 1) =~= before.take(i as int).push(src@[i as int]));
        assert(src@.take(i + 1) =~= src@.take(i as int).push(src@[i as int]));
        i += 1;
    }
    assert(dst@.take(i as int) =~= dst@);
    assert(src@.take(i as int) =~= src@);
}

/// A copy of some bytes.
pub fn to_vec_wide(src: &[u8]) -> (r: Vec<u8>)
    ensures
        r@ == src@,
{
    let mut r: Vec<u8> = Vec::new();
    let mut i: usize = 0;
    while i < src.len()
        invariant
            i <= src@.len(),
            r@ == src@.take(i as int),
        decreases src@.len() - i,
    {
        assert(src@.take(i + 1) =~= src@.take(i as int).push(src@[i as int]));
        r.push(src[i]);
        i += 1;
    }
    assert(src@.take(i as int) =~= src@);
    r
}

proof fn lemma_free_run_live(s: ArenaModel, ids: Seq<ObjectId>)
    ensures
        forall|id: ObjectId| #[trigger]
            s.free_run(ids).live.contains_key(id) <==> s.live.contains_key(id) && !ids.contains(id),
        forall|id: ObjectId| #[trigger]
            s.free_run(ids).live.contains_key(id) ==> s.free_run(ids).live[id] == s.live[id],
    decreases ids.len(),
{
    if ids.len() > 0 {
        let rest = ids.drop_last();
        lemma_free_run_live(s, rest);
        let m = s.free_run(rest);
        let n = s.free_run(ids);
        assert forall|id: ObjectId| #[trigger] n.live.contains_key(id) <==> s.live.contains_key(id) && !ids.contains(
            id,
        ) by {
            assert(m.live.contains_key(id) <==> s.live.contains_key(id) && !rest.contains(id));
            if ids.contains(id) {
                let i = ids.index_of(id);
                if i < rest.len() {
                    assert(rest[i] == id);
                }
            }
            if rest.contains(id) {
                let i = rest.index_of(id);
                assert(ids[i] == id);
            }
            if id == ids.last() {
                assert(ids[ids.len() - 1] == id);
            }
        }
        assert forall|id: ObjectId| #[trigger] n.live.contains_key(id) implies n.live[id] == s.live[id] by {
            assert(m.live.contains_key(id));
        }
    }
}

/// What is reserved and neither committed nor written to for a minute is given up; all
/// else stays as it is.
pub proof fn law_reservations_last_a_minute(s: ArenaModel, n: ArenaModel, now: u64, id: ObjectId)
    requires
        s.reaps_to(n, now),
        s.live.contains_key(id),
    ensures
        n.live.contains_key(id) <==> s.live[id].reserved_at_ms is None || now - s.live[id].reserved_at_ms->0 < 60_000,
        n.live.contains_key(id) ==> n.live[id] == s.live[id],
{
    let ids = choose|ids: Seq<ObjectId>| #[trigger] s.abandoned_exactly(now, ids) && n == s.free_run(ids);
    lemma_free_run_live(s, ids);
    assert(ids.contains(id) <==> s.abandoned(id, now));
    assert(n.live.contains_key(id) <==> s.live.contains_key(id) && !ids.contains(id));
}

/// Every object gets a whole number of eight-byte units, at least one, and less than
/// eight bytes more than it needs.
pub proof fn law_slots_are_rounded_up(size: int)
    requires
        size >= 0,
    ensures
        slot_for(size) % 8 == 0,
        slot_for(size) >= 8,
        size >= 1 ==> size <= slot_for(size) < size + 8,
        size == 0 ==> slot_for(size) == 8,
{
    lemma_slot(size);
}

/// A new object gets a free slot of its size, or else the next bytes that were never
/// used, and is refused only where there is neither. Its reservation is open, empty and
/// dated now; no other object is touched.
pub proof fn law_reservation_is_granted_while_there_is_room(
    s: ArenaModel,
    id: ObjectId,
    size: u64,
    codec: Codec,
    checksum: [u8; 32],
    mode: ArenaWriteMode,
    reservation: RequestId,
    now: u64,
)
    requires
        s.wf(),
        !s.live.contains_key(id),
        slot_for(size as int) <= u64::MAX,
    ensures
        ({
            let slot = slot_for(size as int) as u64;
            let (n, answer) = s.reserved(id, size, codec, checksum, mode, reservation, now);
            let reuse = s.free.contains_key(slot) && s.free[slot].len() > 0;
            &&& answer is Ok <==> reuse || s.top + slot <= s.capacity
            &&& answer is Err ==> n == s && answer->Err_0 == ErrorModel::CapacityExceeded("arena exhausted"@)
            &&& answer matches Ok(granted) ==> {
                &&& granted.reservation == reservation
                &&& !granted.committed
                &&& reuse ==> s.free[slot].contains(granted.offset) && n.top == s.top
                &&& !reuse ==> granted.offset == s.top && n.top == s.top + slot && n.free == s.free
                &&& n.live == s.live.insert(
                    id,
                    Entry {
                        offset: granted.offset,
                        size,
                        slot,
                        codec,
                        checksum,
                        reservation,
                        mode,
                        written_until: 0,
                        committed: false,
                        reserved_at_ms: Some(now),
                    },
                )
                &&& n.capacity == s.capacity
            }
        }),
{
    let slot = slot_for(size as int) as u64;
    lemma_slot(size as int);
    if s.has_free(slot) {
        assert(s.free[slot][s.free[slot].len() - 1] == s.free[slot].last());
    }
}

/// Reserving again for the same content answers as the first time and changes nothing;
/// for other content under the same id it is refused.
pub proof fn law_repeated_reservation_is_the_first(
    s: ArenaModel,
    id: ObjectId,
    size: u64,
    codec: Codec,
    checksum: [u8; 32],
    mode: ArenaWriteMode,
    reservation: RequestId,
    now: u64,
)
    requires
        s.live.contains_key(id),
    ensures
        ({
            let (n, answer) = s.reserved(id, size, codec, checksum, mode, reservation, now);
            let entry = s.live[id];
            &&& n == s
            &&& answer is Ok <==> entry.size == size && entry.codec == codec && entry.checksum == checksum && entry.mode
                == mode
            &&& answer is Err ==> answer->Err_0 == ErrorModel::ObjectConflict(id)
            &&& answer matches Ok(granted) ==> granted.offset == entry.offset && granted.reservation
                == entry.reservation && granted.committed == entry.committed
        }),
{
}

/// A chunk is taken exactly if it belongs to an open, streamed reservation, stays
/// within the object, and either continues where the last one ended or repeats what is
/// there already.
pub proof fn law_chunks_come_in_order(
    s: ArenaModel,
    memory: Seq<u8>,
    id: ObjectId,
    reservation: RequestId,
    offset: u64,
    bytes: Seq<u8>,
)
    ensures
        s.chunk_fault(memory, id, reservation, offset, bytes) is None <==> {
            let entry = s.live[id];
            &&& s.live.contains_key(id)
            &&& entry.reservation == reservation
            &&& !entry.committed
            &&& entry.mode == ArenaWriteMode::Streamed
            &&& offset + bytes.len() <= entry.size
            &&& offset == entry.written_until || offset + bytes.len() <= entry.written_until && memory.subrange(
                entry.offset as int,
                entry.offset + entry.size,
            ).subrange(offset as int, offset + bytes.len()) == bytes
        },
{
}

/// A chunk that continues the object moves its end and renews its reservation; a
/// repeated one changes nothing.
pub proof fn law_chunk_renews_the_reservation(s: ArenaModel, id: ObjectId, offset: u64, len: nat, now: u64)
    requires
        s.live.contains_key(id),
        offset + len <= u64::MAX,
    ensures
        ({
            let n = s.chunk_taken(id, offset, len, now);
            if offset == s.live[id].written_until {
                n == ArenaModel {
                    live: s.live.insert(
                        id,
                        Entry {
                            written_until: (offset + len) as u64,
                            reserved_at_ms: Some(now),
                            ..s.live[id]
                        },
                    ),
                    ..s
                }
            } else {
                n == s
            }
        }),
{
}

/// An object is committed by whoever holds its reservation, once all of it is there if
/// it is streamed, and can be read and is kept from then on. Committing again does no
/// harm.
pub proof fn law_commit_makes_an_object_readable(s: ArenaModel, id: ObjectId, reservation: RequestId)
    ensures
        s.commit_fault(id, reservation) is None <==> s.live.contains_key(id) && s.live[id].reservation == reservation
            && (s.live[id].mode == ArenaWriteMode::Streamed ==> s.live[id].written_until == s.live[id].size),
        s.commit_fault(id, reservation) is None ==> {
            let n = s.committed(id);
            &&& n.is_committed(id)
            &&& n.live == s.live.insert(id, Entry { committed: true, reserved_at_ms: None, ..s.live[id] })
            &&& n.top == s.top
            &&& n.free == s.free
            &&& n.commit_fault(id, reservation) is None
            &&& n.committed(id) == n
        },
        s.is_committed(id) <==> s.live.contains_key(id) && s.live[id].committed,
{
    let n = s.committed(id);
    assert(n.committed(id).live =~= n.live);
}

/// A commit is undone by whoever holds the reservation: the slot is free again.
pub proof fn law_rollback_frees_what_was_committed(s: ArenaModel, id: ObjectId, reservation: RequestId)
    ensures
        s.rollback_fault(id, reservation) is None <==> s.live.contains_key(id) && s.live[id].reservation == reservation
            && s.live[id].committed,
        s.live.contains_key(id) ==> {
            let n = s.freed(id);
            &&& n.live == s.live.remove(id)
            &&& n.free.contains_key(s.live[id].slot)
            &&& n.free[s.live[id].slot].last() == s.live[id].offset
            &&& n.free[s.live[id].slot].len() == 1 + if s.free.contains_key(s.live[id].slot) {
                s.free[s.live[id].slot].len()
            } else {
                0
            }
            &&& n.top == s.top
            &&& forall|other: u64| other != s.live[id].slot ==> #[trigger] n.free[other] == s.free[other]
        },
{
}

/// Bytes written at an offset are found there, and every other byte is as it was.
pub proof fn law_write_changes_only_its_range(memory: Seq<u8>, offset: int, bytes: Seq<u8>, at: int)
    requires
        0 <= offset,
        offset + bytes.len() <= memory.len(),
        0 <= at < memory.len(),
    ensures
        written(memory, offset, bytes).len() == memory.len(),
        written(memory, offset, bytes).subrange(offset, offset + bytes.len()) == bytes,
        at < offset || at >= offset + bytes.len() ==> written(memory, offset, bytes)[at] == memory[at],
{
    assert(written(memory, offset, bytes).subrange(offset, offset + bytes.len()) =~= bytes);
}

} // verus!
