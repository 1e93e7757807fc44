//! In-memory backends for the two consumed interfaces: the object store
//! (put bytes under a key, get back a durable URL) and the metadata store
//! (create, read and update one record per identifier).
//!
//! These are the reference models the orchestrator is verified against,
//! and the test doubles of the scenario tests: keys can be marked as
//! failing, creates and updates can be forced to fail, and every call of
//! `create` and `update_derivatives` is counted.

use vstd::prelude::*;
use vstd::slice::slice_to_vec;
use crate::keys::{spec_object_url, object_url};
use crate::record::{DerivativeEntry, ImageRecord, entries_map};

verus! {

/// Failure of an object-store call; opaque beyond success or failure.
#[derive(Clone, Copy, PartialEq, Eq, Structural, Debug)]
pub enum StoreError {
    Unavailable,
}

/// Failure of a metadata-store call.
#[derive(Clone, Copy, PartialEq, Eq, Structural, Debug)]
pub enum MetaError {
    NotFound,
    Unavailable,
}

/// One stored object: its key and its bytes.
#[derive(Debug)]
pub struct StoredObject {
    pub key: String,
    pub bytes: Vec<u8>,
}

/// The map view of a store's object list; a later put of the same key
/// overwrites an earlier one.
pub open spec fn objects_map(s: Seq<StoredObject>) -> Map<Seq<char>, Seq<u8>>
    decreases s.len(),
{
    if s.len() == 0 {
        Map::empty()
    } else {
        objects_map(s.drop_last()).insert(s.last().key@, s.last().bytes@)
    }
}

/// An object store held in memory, with keys that can be forced to fail.
#[derive(Debug)]
pub struct MemoryObjectStore {
    pub base_url: String,
    pub objects: Vec<StoredObject>,
    pub failing: Vec<String>,
}

impl MemoryObjectStore {
    /// What the store holds, as a map from key to bytes.
    pub open spec fn contents(self) -> Map<Seq<char>, Seq<u8>> {
        objects_map(self.objects@)
    }

    /// Whether a put under this key is forced to fail.
    pub open spec fn spec_fails(self, key: Seq<char>) -> bool {
        exists|i: int| 0 <= i < self.failing@.len() && (#[trigger] self.failing@[i])@ == key
    }

    /// An empty store that serves every key.
    pub fn new(base_url: String) -> (s: Self)
        ensures
            s.base_url == base_url,
            s.contents() =~= Map::<Seq<char>, Seq<u8>>::empty(),
            s.objects@.len() == 0,
            forall|k: Seq<char>| !s.spec_fails(k),
    {
        MemoryObjectStore { base_url, objects: Vec::new(), failing: Vec::new() }
    }

    /// Force every later put under this key to fail.
    pub fn fail_key(&mut self, key: String)
        ensures
            final(self).base_url == old(self).base_url,
            final(self).objects == old(self).objects,
            forall|k: Seq<char>|
                #[trigger] final(self).spec_fails(k) <==> (old(self).spec_fails(k) || k == key@),
    {
        self.failing.push(key);
        proof {
            assert forall|k: Seq<char>|
                #[trigger] self.spec_fails(k) <==> (old(self).spec_fails(k) || k == key@) by {
                let n = self.failing@.len();
                if old(self).spec_fails(k) {
                    let i = choose|i: int|
                        0 <= i < old(self).failing@.len() && (#[trigger] old(
                            self,
                        ).failing@[i])@ == k;
                    assert(self.failing@[i]@ == k);
                }
                if k == key@ {
                    assert(self.failing@[n - 1]@ == k);
                }
                if self.spec_fails(k) {
                    let i = choose|i: int|
                        0 <= i < self.failing@.len() && (#[trigger] self.failing@[i])@ == k;
                    if i < n - 1 {
                        assert(old(self).failing@[i]@ == k);
                    }
                }
            }
        }
    }

    fn key_fails(&self, key: &String) -> (b: bool)
        ensures
            b == self.spec_fails(key@),
    {
        let mut i: usize = 0;
        while i < self.failing.len()
            invariant
                i <= self.failing@.len(),
                forall|j: int| 0 <= j < i ==> (#[trigger] self.failing@[j])@ != key@,
            decreases self.failing@.len() - i,
        {
            if self.failing[i] == *key {
                return true;
            }
            i += 1;
        }
        false
    }

    /// Store bytes under a key and return the stored object's URL.
    ///
    /// Fails exactly on the keys forced to fail; on success the URL is the
    /// store's base URL followed by the key — it depends on nothing else,
    /// so retrying a put under the same key yields the same URL.
    pub fn put(&mut self, key: &String, bytes: &Vec<u8>) -> (r: Result<String, StoreError>)
        ensures
            final(self).base_url == old(self).base_url,
            final(self).failing == old(self).failing,
            r is Err <==> old(self).spec_fails(key@),
            r is Err ==> final(self).objects == old(self).objects,
            r matches Ok(url) ==> url@ == spec_object_url(old(self).base_url@, key@)
                && final(self).contents() == old(self).contents().insert(key@, bytes@),
    {
        if self.key_fails(key) {
            return Err(StoreError::Unavailable);
        }
        let url = object_url(&self.base_url, key);
        let stored = StoredObject { key: key.clone(), bytes: slice_to_vec(bytes.as_slice()) };
        self.objects.push(stored);
        proof {
            assert(self.objects@.drop_last() =~= old(self).objects@);
        }
        Ok(url)
    }
}

/// Putting the same bytes twice under one key leaves the store as one put
/// does; together with `put`'s contract — the returned URL is a function
/// of the base URL and the key alone — a retried put is idempotent.
pub proof fn lemma_put_idempotent(m: Map<Seq<char>, Seq<u8>>, key: Seq<char>, bytes: Seq<u8>)
    ensures
        m.insert(key, bytes).insert(key, bytes) =~= m.insert(key, bytes),
{
}

/// Two records are alike when they agree on every field.
pub open spec fn record_like(a: ImageRecord, b: ImageRecord) -> bool {
    &&& a.id == b.id
    &&& a.original_url == b.original_url
    &&& a.created_at == b.created_at
    &&& a.derivatives@ == b.derivatives@
}

/// A metadata store held in memory, with forced failures and call
/// counters for the scenario tests.
#[derive(Debug)]
pub struct MemoryMetadataStore {
    pub records: Vec<ImageRecord>,
    pub fail_create: bool,
    pub fail_update: bool,
    pub create_calls: u64,
    pub update_calls: u64,
}

impl MemoryMetadataStore {
    /// Well-formed: identifiers are unique and each record is well-formed.
    pub open spec fn wf(self) -> bool {
        &&& forall|i: int, j: int|
            0 <= i < j < self.records@.len() ==> self.records@[i].id@ != self.records@[j].id@
        &&& forall|i: int| 0 <= i < self.records@.len() ==> (#[trigger] self.records@[i]).wf()
    }

    /// Whether a record with this identifier exists.
    pub open spec fn spec_has(self, id: Seq<char>) -> bool {
        exists|i: int| 0 <= i < self.records@.len() && (#[trigger] self.records@[i]).id@ == id
    }

    pub open spec fn spec_index_of(self, id: Seq<char>) -> int {
        choose|i: int| 0 <= i < self.records@.len() && (#[trigger] self.records@[i]).id@ == id
    }

    /// The record stored under an identifier the store has.
    pub open spec fn spec_record(self, id: Seq<char>) -> ImageRecord {
        self.records@[self.spec_index_of(id)]
    }

    /// An empty store that accepts every call.
    pub fn new() -> (s: Self)
        ensures
            s.records@.len() == 0,
            !s.fail_create,
            !s.fail_update,
            s.create_calls == 0,
            s.update_calls == 0,
            s.wf(),
            forall|id: Seq<char>| !s.spec_has(id),
    {
        MemoryMetadataStore {
            records: Vec::new(),
            fail_create: false,
            fail_update: false,
            create_calls: 0,
            update_calls: 0,
        }
    }

    fn index_of(&self, id: &String) -> (r: Option<usize>)
        requires
            self.wf(),
        ensures
            r is Some <==> self.spec_has(id@),
            r matches Some(i) ==> i < self.records@.len() && self.records@[i as int].id@ == id@
                && i as int == self.spec_index_of(id@),
    {
        let mut i: usize = 0;
        while i < self.records.len()
            invariant
                self.wf(),
                i <= self.records@.len(),
                forall|j: int| 0 <= j < i ==> (#[trigger] self.records@[j]).id@ != id@,
            decreases self.records@.len() - i,
        {
            if self.records[i].id == *id {
                proof {
                    let j = self.spec_index_of(id@);
                    assert(self.records@[i as int].id@ == id@);
                    assert(0 <= j < self.records@.len() && self.records@[j].id@ == id@);
                }
                return Some(i);
            }
            i += 1;
        }
        None
    }

    /// Read the record stored under an identifier; fails with `NotFound`
    /// exactly when the store has none.
    pub fn get(&self, id: &String) -> (r: Result<ImageRecord, MetaError>)
        requires
            self.wf(),
        ensures
            r is Ok <==> self.spec_has(id@),
            r matches Err(e) ==> e == MetaError::NotFound,
            r matches Ok(rec) ==> record_like(rec, self.spec_record(id@)),
    {
        match self.index_of(id) {
            Some(i) => Ok(self.records[i].duplicate()),
            None => Err(MetaError::NotFound),
        }
    }

    /// Create a record under a fresh identifier. Fails when forced to, or
    /// when the identifier is already taken; on failure nothing is stored.
    pub fn create(&mut self, record: ImageRecord) -> (r: Result<(), MetaError>)
        requires
            old(self).wf(),
            record.wf(),
            old(self).create_calls < u64::MAX,
        ensures
            final(self).wf(),
            final(self).create_calls == old(self).create_calls + 1,
            final(self).update_calls == old(self).update_calls,
            final(self).fail_create == old(self).fail_create,
            final(self).fail_update == old(self).fail_update,
            r is Err <==> (old(self).fail_create || old(self).spec_has(record.id@)),
            r is Err ==> final(self).records == old(self).records,
            r is Ok ==> final(self).records@ == old(self).records@.push(record),
    {
        self.create_calls = self.create_calls + 1;
        if self.fail_create {
            return Err(MetaError::Unavailable);
        }
        if let Some(_i) = self.index_of(&record.id) {
            return Err(MetaError::Unavailable);
        }
        self.records.push(record);
        proof {
            assert(self.records@.drop_last() =~= old(self).records@);
            assert forall|i: int, j: int|
                0 <= i < j < self.records@.len() implies self.records@[i].id@
                != self.records@[j].id@ by {
                if j == self.records@.len() - 1 {
                    assert(old(self).records@[i].id@ != record.id@);
                }
            }
        }
        Ok(())
    }

    /// Merge derivative URLs into the record under an identifier: the
    /// supplied sizes are added or overwritten, nothing else changes.
    /// Fails when forced to, or when the identifier is absent.
    pub fn update_derivatives(&mut self, id: &String, updates: &Vec<DerivativeEntry>) -> (r:
        Result<(), MetaError>)
        requires
            old(self).wf(),
            old(self).update_calls < u64::MAX,
        ensures
            final(self).wf(),
            final(self).update_calls == old(self).update_calls + 1,
            final(self).create_calls == old(self).create_calls,
            final(self).fail_create == old(self).fail_create,
            final(self).fail_update == old(self).fail_update,
            r is Ok <==> (!old(self).fail_update && old(self).spec_has(id@)),
            r is Err ==> final(self).records == old(self).records,
            !old(self).fail_update && !old(self).spec_has(id@) ==> (r matches Err(e) && e
                == MetaError::NotFound),
            r is Ok ==> final(self).records@.len() == old(self).records@.len(),
            r is Ok ==> forall|i: int|
                0 <= i < old(self).records@.len() && (#[trigger] old(self).records@[i]).id@ != id@
                    ==> final(self).records@[i] == old(self).records@[i],
            r is Ok ==> forall|i: int|
                0 <= i < old(self).records@.len() && (#[trigger] old(self).records@[i]).id@ == id@
                    ==> {
                    let pre = old(self).records@[i];
                    let post = final(self).records@[i];
                    &&& post.id == pre.id
                    &&& post.original_url == pre.original_url
                    &&& post.created_at == pre.created_at
                    &&& post.derivatives_map() == pre.derivatives_map().union_prefer_right(
                        entries_map(updates@),
                    )
                },
    {
        self.update_calls = self.update_calls + 1;
        if self.fail_update {
            return Err(MetaError::Unavailable);
        }
        match self.index_of(id) {
            None => Err(MetaError::NotFound),
            Some(i) => {
                let mut rec = self.records.remove(i);
                rec.merge_derivatives(updates);
                self.records.insert(i, rec);
                proof {
                    assert(self.records@ =~= old(self).records@.update(i as int, self.records@[i as int]));
                    assert forall|a: int, b: int|
                        0 <= a < b < self.records@.len() implies self.records@[a].id@
                        != self.records@[b].id@ by {
                        assert(self.records@[a].id@ == old(self).records@[a].id@);
                        assert(self.records@[b].id@ == old(self).records@[b].id@);
                    }
                }
                Ok(())
            },
        }
    }
}

} // verus!
