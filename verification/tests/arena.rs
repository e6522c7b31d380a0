use crayon::arena::{write_at, ArenaStore, Meta, Reservation, RESERVE_TTL_MS};
use crayon::cluster::checksum;
use crayon::error::Error;
use crayon::ids::{ObjectId, RequestId};
use crayon::operation::Codec;
use crayon::protocol::ArenaWriteMode;

const CAPACITY: usize = 32 << 20;

/// A store with its memory and a clock.
struct Arena {
    store: ArenaStore,
    memory: Vec<u8>,
    now: u64,
}

impl Arena {
    fn new() -> Self {
        Arena { store: ArenaStore::new("0123".to_string(), CAPACITY as u64), memory: vec![0; CAPACITY], now: 1_000 }
    }
    fn reserve(
        &mut self,
        id: ObjectId,
        size: u64,
        codec: Codec,
        checksum: [u8; 32],
        mode: ArenaWriteMode,
    ) -> Result<Reservation, Error> {
        self.store.reserve(id, size, codec, checksum, mode, self.now)
    }
    fn write_at(&mut self, offset: u64, bytes: &[u8]) {
        write_at(&mut self.memory, offset, bytes)
    }
    fn commit(&mut self, id: ObjectId, reservation: RequestId) -> Result<Meta, Error> {
        self.store.commit(id, reservation)
    }
    fn rollback(&mut self, id: ObjectId, reservation: RequestId) -> Result<(), Error> {
        self.store.rollback(id, reservation)
    }
    fn release(&mut self, id: ObjectId) {
        self.store.release(id)
    }
    fn meta(&self, id: ObjectId) -> Option<Meta> {
        self.store.meta(id)
    }
    fn read(&self, id: ObjectId) -> Option<Vec<u8>> {
        self.store.read(&self.memory, id)
    }
    fn read_chunk(&self, id: ObjectId, offset: u64, len: u64) -> Option<Vec<u8>> {
        self.store.read_chunk(&self.memory, id, offset, len)
    }
    fn write_chunk(&mut self, id: ObjectId, reservation: RequestId, offset: u64, bytes: &[u8]) -> Result<(), Error> {
        self.store.write_chunk(&mut self.memory, id, reservation, offset, bytes, self.now)
    }
    fn used_bytes(&self) -> u64 {
        self.store.used_bytes()
    }
    fn reap_after(&mut self, elapsed_ms: u64) {
        self.store.reap(self.now + elapsed_ms)
    }
}

#[test]
fn reserve_write_commit_get_and_recycle() {
    let mut store = Arena::new();
    let id = ObjectId::new();
    let payload = vec![9u8; 40_000];
    let checksum = checksum(&payload);
    let reserved = store
        .reserve(
            id,
            payload.len() as u64,
            Codec::RawBytes,
            checksum,
            ArenaWriteMode::Direct,
        )
        .unwrap();
    assert!(!reserved.committed);
    assert!(store.meta(id).is_none());
    store.write_at(reserved.offset, &payload);
    store.commit(id, reserved.reservation).unwrap();

    let meta = store.meta(id).unwrap();
    assert_eq!(meta.offset, reserved.offset);
    assert_eq!(meta.size, payload.len() as u64);
    assert_eq!(
        &store.memory[reserved.offset as usize..reserved.offset as usize + payload.len()],
        &payload[..]
    );
    assert_eq!(store.read(id).unwrap(), payload);

    store.release(id);
    let next = store
        .reserve(
            ObjectId::new(),
            payload.len() as u64,
            Codec::RawBytes,
            checksum,
            ArenaWriteMode::Direct,
        )
        .unwrap();
    assert_eq!(next.offset, reserved.offset);
}

#[test]
fn reservation_is_token_fenced_and_streamed_commit_requires_coverage() {
    let mut store = Arena::new();
    let id = ObjectId::new();
    let reserved = store
        .reserve(id, 6, Codec::RawBytes, [0; 32], ArenaWriteMode::Streamed)
        .unwrap();
    assert_eq!(
        store.write_chunk(id, RequestId::new(), 0, b"abc"),
        Err(Error::StaleFence)
    );
    store
        .write_chunk(id, reserved.reservation, 0, b"abc")
        .unwrap();
    assert!(matches!(
        store.commit(id, reserved.reservation),
        Err(Error::Protocol(_))
    ));
    assert!(matches!(
        store.write_chunk(id, reserved.reservation, 4, b"ef"),
        Err(Error::Protocol(_))
    ));
    store
        .write_chunk(id, reserved.reservation, 0, b"abc")
        .unwrap();
    assert_eq!(
        store.write_chunk(id, reserved.reservation, 0, b"abd"),
        Err(Error::ObjectConflict(id))
    );
    store
        .write_chunk(id, reserved.reservation, 3, b"def")
        .unwrap();
    store.commit(id, reserved.reservation).unwrap();
    assert_eq!(store.read(id).unwrap(), b"abcdef");
}

#[test]
fn stale_reservation_cannot_mutate_recycled_slot() {
    let mut store = Arena::new();
    let id = ObjectId::new();
    let old = store
        .reserve(id, 4096, Codec::RawBytes, [0; 32], ArenaWriteMode::Direct)
        .unwrap();
    store.reap_after(RESERVE_TTL_MS);
    let id2 = ObjectId::new();
    let new = store
        .reserve(id2, 4096, Codec::RawBytes, [0; 32], ArenaWriteMode::Direct)
        .unwrap();
    assert_eq!(old.offset, new.offset);
    assert!(matches!(
        store.commit(id2, old.reservation),
        Err(Error::StaleFence)
    ));
    store.commit(id2, new.reservation).unwrap();
    store.reap_after(RESERVE_TTL_MS);
    assert!(store.meta(id2).is_some());
}

#[test]
fn rollback_recycles_immediately() {
    let mut store = Arena::new();
    let second_id = ObjectId::new();
    let second = store
        .reserve(
            second_id,
            1024,
            Codec::RawBytes,
            [0; 32],
            ArenaWriteMode::Direct,
        )
        .unwrap();
    store.commit(second_id, second.reservation).unwrap();
    store.rollback(second_id, second.reservation).unwrap();
    let third = store
        .reserve(
            ObjectId::new(),
            1024,
            Codec::RawBytes,
            [0; 32],
            ArenaWriteMode::Direct,
        )
        .unwrap();
    assert_eq!(third.offset, second.offset);
}

#[test]
fn same_size_churn_reuses_one_slot() {
    let mut store = Arena::new();
    let size = 1 << 20;
    let payload = vec![7u8; size];
    let checksum = checksum(&payload);
    for _ in 0..1000 {
        let id = ObjectId::new();
        let reserved = store
            .reserve(
                id,
                size as u64,
                Codec::RawBytes,
                checksum,
                ArenaWriteMode::Direct,
            )
            .unwrap();
        store.write_at(reserved.offset, &payload);
        store.commit(id, reserved.reservation).unwrap();
        assert_eq!(store.read(id).unwrap().len(), size);
        store.release(id);
    }
    assert_eq!(store.used_bytes(), size as u64);
}

#[test]
fn chunked_write_and_read_round_trip_with_bounds() {
    let mut store = Arena::new();
    let id = ObjectId::new();
    let size = 20_000_000u64;
    let reserved = store
        .reserve(id, size, Codec::RawBytes, [0; 32], ArenaWriteMode::Streamed)
        .unwrap();
    let chunk = 8_000_000usize;
    let mut expected = vec![0u8; size as usize];
    for (i, off) in (0..size).step_by(chunk).enumerate() {
        let len = chunk.min((size - off) as usize);
        let data = vec![i as u8 + 1; len];
        expected[off as usize..off as usize + len].copy_from_slice(&data);
        store
            .write_chunk(id, reserved.reservation, off, &data)
            .unwrap();
    }
    assert!(store
        .write_chunk(id, reserved.reservation, size - 10, &[7u8; 100])
        .is_err());
    assert!(store.read_chunk(id, 0, 10).is_none());
    store.commit(id, reserved.reservation).unwrap();

    let mut got = Vec::with_capacity(size as usize);
    let mut off = 0u64;
    while off < size {
        let len = (size - off).min(7_000_000);
        got.extend_from_slice(&store.read_chunk(id, off, len).unwrap());
        off += len;
    }
    assert_eq!(got, expected);
    assert!(store.read_chunk(id, size - 5, 10).is_none());
}

#[test]
fn live_objects_lie_apart_in_what_was_handed_out() {
    let mut store = Arena::new();
    assert_eq!(store.used_bytes(), 0);
    let ids = [ObjectId([1; 32]), ObjectId([2; 32]), ObjectId([3; 32])];
    let mut extents = Vec::new();
    for (id, size) in ids.iter().zip([5u64, 16, 0]) {
        let slot = store.reserve(*id, size, Codec::RawBytes, [0; 32], ArenaWriteMode::Direct).unwrap();
        extents.push((slot.offset, slot.offset + size));
    }
    assert_eq!(extents, vec![(0, 5), (8, 24), (24, 24)]);
    assert_eq!(store.used_bytes(), 32);
}

#[test]
fn more_is_handed_out_only_where_no_released_slot_fits() {
    let mut store = Arena::new();
    let direct = |store: &mut Arena, n: u8, size: u64| {
        store.reserve(ObjectId([n; 32]), size, Codec::RawBytes, [0; 32], ArenaWriteMode::Direct).unwrap().offset
    };
    assert_eq!(direct(&mut store, 1, 16), 0);
    store.release(ObjectId([1; 32]));
    assert_eq!(store.used_bytes(), 16);
    assert_eq!(direct(&mut store, 2, 24), 16);
    assert_eq!(store.used_bytes(), 40);
    assert_eq!(direct(&mut store, 3, 9), 0);
    assert_eq!(store.used_bytes(), 40);
}
