//! A worker's own objects.
use std::sync::Arc;
use vstd::prelude::*;

use crate::cluster::checksum;
use crate::coordinator::{lemma_same_array, shared_bytes};
use crate::error::{Error, ErrorModel};
use crate::ids::{blake3_digest, bytes_equal, ObjectId};
use crate::operation::Codec;
use crate::table::Table;

verus! {

#[derive(Debug)]
pub struct LocalObject {
    pub codec: Codec,
    pub bytes: Arc<[u8]>,
    pub checksum: [u8; 32],
}

impl View for LocalObject {
    type V = LocalObject;

    open spec fn view(&self) -> LocalObject {
        *self
    }
}

impl Clone for LocalObject {
    fn clone(&self) -> (r: Self)
        ensures
            r == *self,
    {
        LocalObject { codec: self.codec, bytes: self.bytes.clone(), checksum: self.checksum }
    }
}

/// Objects by id. Each is stored with the digest of its bytes, and an id never
/// changes what it names until it is deleted.
#[derive(Debug)]
pub struct LocalObjectStore {
    objects: Table<ObjectId, LocalObject>,
}

impl View for LocalObjectStore {
    type V = Map<ObjectId, LocalObject>;

    closed spec fn view(&self) -> Map<ObjectId, LocalObject> {
        self.objects@
    }
}

impl LocalObjectStore {
    pub closed spec fn tables_ok(&self) -> bool {
        self.objects.wf()
    }

    /// Each object is stored with the digest of its bytes.
    pub open spec fn wf(&self) -> bool {
        &&& self.tables_ok()
        &&& forall|id: ObjectId| #[trigger]
            self@.contains_key(id) ==> self@[id].checksum@ == blake3_digest(self@[id].bytes@)
    }

    pub fn new() -> (r: Self)
        ensures
            r.wf(),
            r@ == Map::<ObjectId, LocalObject>::empty(),
    {
        LocalObjectStore { objects: Table::new() }
    }

    /// Stores an object. The same content under the same id is accepted again.
    pub fn put(&mut self, id: ObjectId, codec: Codec, bytes: Vec<u8>) -> (r: Result<LocalObject, Error>)
        requires
            old(self).wf(),
        ensures
            final(self).wf(),
            if old(self)@.contains_key(id) {
                let existing = old(self)@[id];
                &&& final(self)@ == old(self)@
                &&& if existing.checksum@ == blake3_digest(bytes@) && existing.codec == codec {
                    r == Ok::<LocalObject, Error>(existing)
                } else {
                    r matches Err(error) && error@ == ErrorModel::ObjectConflict(id)
                }
            } else {
                &&& r matches Ok(object)
                &&& object.codec == codec
                &&& object.bytes@ == bytes@
                &&& object.checksum@ == blake3_digest(bytes@)
                &&& final(self)@ == old(self)@.insert(id, object)
            },
    {
        let digest = checksum(bytes.as_slice());
        if let Some(existing) = self.objects.get(&id) {
            let same = bytes_equal(&existing.checksum, &digest);
            proof {
                if existing.checksum@ == digest@ {
                    lemma_same_array(existing.checksum, digest);
                }
            }
            return if same && existing.codec == codec {
                Ok(existing.clone())
            } else {
                Err(Error::ObjectConflict(id))
            };
        }
        let object = LocalObject { codec, bytes: shared_bytes(bytes), checksum: digest };
        self.objects.insert(id, object.clone());
        Ok(object)
    }

    pub fn get(&self, id: ObjectId) -> (r: Result<LocalObject, Error>)
        requires
            self.wf(),
        ensures
            match r {
                Ok(object) => self@.contains_key(id) && object == self@[id],
                Err(error) => !self@.contains_key(id) && error@ == ErrorModel::ObjectNotFound(id),
            },
    {
        match self.objects.get(&id) {
            Some(object) => Ok(object.clone()),
            None => Err(Error::ObjectNotFound(id)),
        }
    }

    pub fn delete(&mut self, id: ObjectId)
        requires
            old(self).wf(),
        ensures
            final(self).wf(),
            final(self)@ == old(self)@.remove(id),
    {
        self.objects.remove(&id);
    }
}

/// Every object of a worker is stored with the digest of its bytes.
pub proof fn law_object_has_its_digest(store: LocalObjectStore, id: ObjectId)
    requires
        store.wf(),
        store@.contains_key(id),
    ensures
        store@[id].checksum@ == blake3_digest(store@[id].bytes@),
{
}

impl Default for LocalObjectStore {
    fn default() -> (r: Self)
        ensures
            r.wf(),
            r@ == Map::<ObjectId, LocalObject>::empty(),
    {
        LocalObjectStore::new()
    }
}

} // verus!
