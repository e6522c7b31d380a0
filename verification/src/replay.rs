//! The replay cache: replies to client mutations, kept so that a retried
//! request is answered without being applied again.
use std::sync::Arc;
use vstd::prelude::*;

use crate::ids::{bytes_equal, RequestId};
use crate::protocol::RpcReply;
use crate::sums::{lemma_sum_at_least, lemma_sum_insert, lemma_sum_remove, sum};
use crate::table::{Table, TableKey};

verus! {

pub const MAX_REPLAY_ENTRIES: usize = 16_384;

pub const MAX_REPLAY_BYTES: usize = 67_108_864;

/// What an entry counts for beside its reply.
pub const REPLAY_ENTRY_OVERHEAD: usize = 40;

/// No reply is kept for longer, whatever deadline the client chose.
pub const MAX_REPLAY_TTL_MS: u64 = 30_000;

impl TableKey for RequestId {
    fn same(&self, other: &Self) -> (r: bool) {
        *self == *other
    }
}

#[derive(Debug, Clone)]
pub struct ReplayEntry {
    pub body_hash: [u8; 32],
    pub reply: Arc<RpcReply>,
    pub expires_at_ms: u64,
    /// The size of the reply on the wire.
    pub bytes: usize,
}

impl View for ReplayEntry {
    type V = ReplayEntry;

    open spec fn view(&self) -> ReplayEntry {
        *self
    }
}

/// What an entry counts for.
pub open spec fn entry_weight() -> spec_fn(ReplayEntry) -> int {
    |entry: ReplayEntry| entry.bytes + REPLAY_ENTRY_OVERHEAD
}

/// What the cache does with a request.
pub enum Admission {
    /// The request was answered before; the answer is repeated.
    Replay(Arc<RpcReply>),
    /// The request id was used for another request.
    Reused,
    /// There is no room to remember an answer.
    Full,
    /// The request is to be applied, and its answer remembered.
    Fresh,
}

pub type Entries = Map<RequestId, ReplayEntry>;

/// The entries that have not expired.
pub open spec fn unexpired(entries: Entries, now: u64) -> Entries {
    Map::new(
        |id: RequestId| entries.contains_key(id) && entries[id].expires_at_ms > now,
        |id: RequestId| entries[id],
    )
}

/// There is no room for one more entry.
pub open spec fn is_full(entries: Entries) -> bool {
    entries.dom().len() >= MAX_REPLAY_ENTRIES || sum(entries, entry_weight()) >= MAX_REPLAY_BYTES
}

/// The entries after looking for `id`: an expired entry under it is dropped.
pub open spec fn looked_up(entries: Entries, id: RequestId, now: u64) -> Entries {
    if entries.contains_key(id) && entries[id].expires_at_ms <= now {
        entries.remove(id)
    } else {
        entries
    }
}

/// The entries after a request was considered.
pub open spec fn considered(entries: Entries, id: RequestId, now: u64) -> Entries {
    let found = looked_up(entries, id, now);
    if !found.contains_key(id) && is_full(found) {
        unexpired(found, now)
    } else {
        found
    }
}

/// What is to be done with a request, after its entries were considered.
pub open spec fn admission(entries: Entries, id: RequestId, hash: [u8; 32], now: u64) -> Admission {
    let left = considered(entries, id, now);
    if left.contains_key(id) {
        if left[id].body_hash == hash {
            Admission::Replay(left[id].reply)
        } else {
            Admission::Reused
        }
    } else if is_full(left) {
        Admission::Full
    } else {
        Admission::Fresh
    }
}

/// When the answer to a request with this deadline is forgotten.
pub open spec fn expiry(deadline_ms: u64, now: u64) -> int {
    let left = if deadline_ms > now {
        deadline_ms - now
    } else {
        0
    };
    let kept = if left > MAX_REPLAY_TTL_MS {
        MAX_REPLAY_TTL_MS as int
    } else {
        left
    };
    if now + kept > u64::MAX {
        u64::MAX as int
    } else {
        now + kept
    }
}

#[derive(Debug)]
pub struct ReplayCache {
    entries: Table<RequestId, ReplayEntry>,
    used_bytes: usize,
}

impl View for ReplayCache {
    type V = Entries;

    closed spec fn view(&self) -> Entries {
        self.entries@
    }
}

impl ReplayCache {
    /// The byte count is that of the entries.
    pub closed spec fn wf(&self) -> bool {
        &&& self.entries.wf()
        &&& self.used_bytes == sum(self.entries@, entry_weight())
    }

    pub fn new() -> (r: Self)
        ensures
            r.wf(),
            r@ == Map::<RequestId, ReplayEntry>::empty(),
    {
        let r = ReplayCache { entries: Table::new(), used_bytes: 0 };
        proof {
            r.entries.lemma_keys();
        }
        r
    }

    pub fn len(&self) -> (r: usize)
        requires
            self.wf(),
        ensures
            r == self@.dom().len(),
    {
        self.entries.len()
    }

    pub fn used_bytes(&self) -> (r: usize)
        requires
            self.wf(),
        ensures
            r == sum(self@, entry_weight()),
    {
        self.used_bytes
    }

    pub fn get(&self, id: &RequestId) -> (r: Option<&ReplayEntry>)
        requires
            self.wf(),
        ensures
            match r {
                Some(entry) => self@.contains_key(*id) && *entry == self@[*id],
                None => !self@.contains_key(*id),
            },
    {
        self.entries.get(id)
    }

    /// Drops the entry under `id`, if there is one.
    pub fn remove(&mut self, id: &RequestId)
        requires
            old(self).wf(),
        ensures
            final(self).wf(),
            final(self)@ == old(self)@.remove(*id),
    {
        self.drop_entry(id);
    }

    fn drop_entry(&mut self, id: &RequestId)
        requires
            old(self).wf(),
        ensures
            final(self).wf(),
            final(self)@ == old(self)@.remove(*id),
            old(self)@.contains_key(*id) ==> exists|i: int|
                0 <= i < old(self).entries.keys().len() && old(self).entries.keys()[i] == *id
                    && final(self).entries.keys() == #[trigger] old(self).entries.keys().remove(i),
    {
        proof {
            self.entries.lemma_keys();
            if self@.contains_key(*id) {
                lemma_sum_remove(self@, entry_weight(), *id);
                assert forall|k: RequestId| #[trigger] self@.contains_key(k) implies 0 <= entry_weight()(self@[k]) by {}
                lemma_sum_at_least(self@, entry_weight(), *id);
            }
        }
        match self.entries.remove(id) {
            Some(entry) => {
                self.used_bytes = self.used_bytes - (entry.bytes + REPLAY_ENTRY_OVERHEAD);
            },
            None => {
                assert(old(self)@.remove(*id) =~= old(self)@);
            },
        }
    }

    /// Remembers an answer under an unused id.
    pub fn insert(&mut self, id: RequestId, entry: ReplayEntry)
        requires
            old(self).wf(),
            !old(self)@.contains_key(id),
            sum(old(self)@, entry_weight()) + entry.bytes + REPLAY_ENTRY_OVERHEAD <= usize::MAX,
        ensures
            final(self).wf(),
            final(self)@ == old(self)@.insert(id, entry),
    {
        proof {
            self.entries.lemma_keys();
            lemma_sum_insert(self@, entry_weight(), id, entry);
        }
        self.used_bytes = self.used_bytes + (entry.bytes + REPLAY_ENTRY_OVERHEAD);
        self.entries.insert(id, entry);
    }

    pub fn at_capacity(&self) -> (r: bool)
        requires
            self.wf(),
        ensures
            r == is_full(self@),
    {
        self.entries.len() >= MAX_REPLAY_ENTRIES || self.used_bytes >= MAX_REPLAY_BYTES
    }

    /// Drops every expired entry.
    pub fn sweep(&mut self, now: u64)
        requires
            old(self).wf(),
        ensures
            final(self).wf(),
            final(self)@ == unexpired(old(self)@, now),
    {
        let ghost start = self@;
        let mut i: usize = 0;
        while i < self.entries.len()
            invariant
                self.wf(),
                i <= self.entries.keys().len(),
                forall|id: RequestId| #[trigger]
                    self@.contains_key(id) ==> start.contains_key(id) && self@[id] == start[id],
                forall|id: RequestId| #[trigger]
                    start.contains_key(id) && start[id].expires_at_ms > now ==> self@.contains_key(id),
                forall|j: int| 0 <= j < i ==> self@[#[trigger] self.entries.keys()[j]].expires_at_ms > now,
            decreases self.entries.keys().len() - i,
        {
            let (id, expired) = {
                let (id, entry) = self.entries.entry_at(i);
                (*id, entry.expires_at_ms <= now)
            };
            let ghost keys = self.entries.keys();
            let ghost before = self@;
            if expired {
                proof {
                    self.entries.lemma_keys();
                }
                self.remove_at(&id, Ghost(i as int));
                proof {
                    assert forall|j: int| 0 <= j < i implies self@[#[trigger] self.entries.keys()[j]].expires_at_ms
                        > now by {
                        assert(self.entries.keys()[j] == keys[j]);
                        assert(keys[j] != id);
                        self.entries.lemma_keys();
                    }
                }
            } else {
                i += 1;
            }
        }
        proof {
            self.entries.lemma_keys();
            assert forall|id: RequestId| self@.contains_key(id) == unexpired(start, now).contains_key(id) by {
                if self@.contains_key(id) {
                    assert(self.entries.keys().contains(id));
                    let j = self.entries.keys().index_of(id);
                    assert(self.entries.keys()[j] == id);
                }
            }
            assert(self@ =~= unexpired(start, now));
        }
    }

    /// Drops the entry in place `i` of the visiting order, which is under `id`.
    fn remove_at(&mut self, id: &RequestId, i: Ghost<int>)
        requires
            old(self).wf(),
            0 <= i@ < old(self).entries.keys().len(),
            old(self).entries.keys()[i@] == *id,
        ensures
            final(self).wf(),
            final(self)@ == old(self)@.remove(*id),
            final(self).entries.keys() == old(self).entries.keys().remove(i@),
    {
        let ghost keys = self.entries.keys();
        proof {
            self.entries.lemma_keys();
            assert(self@.contains_key(keys[i@]));
        }
        self.drop_entry(id);
        proof {
            let k = choose|k: int|
                0 <= k < keys.len() && keys[k] == *id && self.entries.keys() == #[trigger] keys.remove(k);
            assert(k == i@);
        }
    }

    /// Looks for an answer to the request, and for room to remember one.
    pub fn consider(&mut self, id: &RequestId, hash: &[u8; 32], now: u64) -> (r: Admission)
        requires
            old(self).wf(),
        ensures
            final(self).wf(),
            final(self)@ == considered(old(self)@, *id, now),
            r == admission(old(self)@, *id, *hash, now),
            r is Fresh ==> !final(self)@.contains_key(*id) && !is_full(final(self)@),
    {
        let found: Option<(bool, bool, Arc<RpcReply>)> = match self.entries.get(id) {
            Some(entry) => Some(
                (entry.expires_at_ms <= now, bytes_equal(&entry.body_hash, hash), entry.reply.clone()),
            ),
            None => None,
        };
        if let Some((expired, same, reply)) = found {
            if expired {
                self.remove(id);
            } else if !same {
                return Admission::Reused;
            } else {
                return Admission::Replay(reply);
            }
        }
        if self.at_capacity() {
            self.sweep(now);
        }
        if self.at_capacity() {
            Admission::Full
        } else {
            Admission::Fresh
        }
    }
}

/// When the answer to a request with this deadline is forgotten.
pub fn replay_expiry(deadline_ms: u64, now: u64) -> (r: u64)
    ensures
        r == expiry(deadline_ms, now),
{
    let left: u64 = deadline_ms.saturating_sub(now);
    let kept: u64 = if left > MAX_REPLAY_TTL_MS {
        MAX_REPLAY_TTL_MS
    } else {
        left
    };
    now.saturating_add(kept)
}

impl Default for ReplayCache {
    fn default() -> (r: Self)
        ensures
            r.wf(),
            r@ == Map::<RequestId, ReplayEntry>::empty(),
    {
        ReplayCache::new()
    }
}

/// A retry of a remembered request is answered as before, until it expires.
pub proof fn law_retry_is_replayed(entries: Entries, id: RequestId, entry: ReplayEntry, now: u64)
    requires
        entry.expires_at_ms > now,
    ensures
        admission(entries.insert(id, entry), id, entry.body_hash, now) == Admission::Replay(entry.reply),
        considered(entries.insert(id, entry), id, now) == entries.insert(id, entry),
{
}

/// A remembered id is never used for a different request while it is kept.
pub proof fn law_reused_id_is_refused(
    entries: Entries,
    id: RequestId,
    entry: ReplayEntry,
    hash: [u8; 32],
    now: u64,
)
    requires
        entry.expires_at_ms > now,
        entry.body_hash != hash,
    ensures
        admission(entries.insert(id, entry), id, hash, now) is Reused,
{
}

/// Nothing is kept past the ceiling, and nothing with a deadline is forgotten
/// before the deadline or the ceiling.
pub proof fn law_expiry_is_bounded(deadline_ms: u64, now: u64)
    ensures
        expiry(deadline_ms, now) <= now + MAX_REPLAY_TTL_MS,
        now < u64::MAX - MAX_REPLAY_TTL_MS && deadline_ms > now ==> expiry(deadline_ms, now) > now,
{
}

/// An entry that has not expired is never dropped when a request is considered, and
/// an entry that has expired answers nobody.
pub proof fn law_live_entries_are_kept(entries: Entries, id: RequestId, hash: [u8; 32], now: u64, other: RequestId)
    requires
        entries.contains_key(other),
    ensures
        entries[other].expires_at_ms > now ==> considered(entries, id, now).contains_key(other) && considered(
            entries,
            id,
            now,
        )[other] == entries[other],
        entries[other].expires_at_ms <= now && other == id ==> !(admission(entries, id, hash, now) is Replay) && !(
        admission(entries, id, hash, now) is Reused) && !considered(entries, id, now).contains_key(id),
        forall|j: RequestId| #[trigger] considered(entries, id, now).contains_key(j) ==> entries.contains_key(j),
{
}

/// A request that was not seen before, or was seen too long ago, is new while fewer
/// than 16384 entries and less than 64 MiB are kept, each counted with 40 bytes more
/// than it holds. Where there are more, what has expired is dropped first, and only if
/// that is not enough is the request turned away.
pub proof fn law_new_request_is_admitted(entries: Entries, id: RequestId, hash: [u8; 32], now: u64)
    requires
        entries.dom().finite(),
        !entries.contains_key(id) || entries[id].expires_at_ms <= now,
    ensures
        ({
            let kept = if entries.contains_key(id) {
                entries.remove(id)
            } else {
                entries
            };
            let weight = |entry: ReplayEntry| entry.bytes + 40;
            &&& kept.dom().len() < 16_384 && sum(kept, weight) < 67_108_864 ==> admission(entries, id, hash, now) is Fresh
                && considered(entries, id, now) == kept
            &&& kept.dom().len() >= 16_384 || sum(kept, weight) >= 67_108_864 ==> {
                let left = considered(entries, id, now);
                &&& forall|j: RequestId| #[trigger]
                    left.contains_key(j) <==> kept.contains_key(j) && kept[j].expires_at_ms > now
                &&& left.dom().len() < 16_384 && sum(left, weight) < 67_108_864 <==> admission(
                    entries,
                    id,
                    hash,
                    now,
                ) is Fresh
                &&& left.dom().len() >= 16_384 || sum(left, weight) >= 67_108_864 <==> admission(
                    entries,
                    id,
                    hash,
                    now,
                ) is Full
            }
        }),
{
    let weight = |entry: ReplayEntry| entry.bytes + 40;
    assert(weight =~= entry_weight());
    let kept = if entries.contains_key(id) {
        entries.remove(id)
    } else {
        entries
    };
    assert(looked_up(entries, id, now) == kept);
}

/// A reply is kept until the request's deadline, for thirty seconds at most, and not
/// at all if the deadline has passed.
pub proof fn law_reply_is_kept_until_the_deadline(deadline_ms: u64, now: u64)
    ensures
        deadline_ms <= now ==> expiry(deadline_ms, now) == now,
        now <= deadline_ms <= now + 30_000 ==> expiry(deadline_ms, now) == deadline_ms,
        deadline_ms > now + 30_000 ==> expiry(deadline_ms, now) == now + 30_000,
{
}

} // verus!
