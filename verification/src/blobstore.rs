//! The content-addressed blob store: opaque bytes under the id of the
//! changeset they serialize, per repository.

use vstd::prelude::*;
use crate::ids::{ChangesetId, RepositoryId};

verus! {

/// The key of a blob: a repository and the content-derived id of the blob.
#[derive(Clone, Copy, Debug, PartialEq, Eq)]
pub struct BlobKey {
    pub repo_id: RepositoryId,
    pub cs_id: ChangesetId,
}

/// A blob as it was stored.
#[derive(Clone, Debug, PartialEq, Eq)]
pub struct StoredBlob {
    pub key: BlobKey,
    pub bytes: Vec<u8>,
}

/// The blobs that a list of writes leaves behind: the last write under a key
/// is the one that counts.
pub open spec fn blobs_of(writes: Seq<StoredBlob>) -> Map<BlobKey, Seq<u8>>
    decreases writes.len(),
{
    if writes.len() == 0 {
        Map::empty()
    } else {
        blobs_of(writes.drop_last()).insert(writes.last().key, writes.last().bytes@)
    }
}

proof fn lemma_blobs_of_miss(writes: Seq<StoredBlob>, key: BlobKey)
    requires
        forall|i: int| 0 <= i < writes.len() ==> (#[trigger] writes[i]).key != key,
    ensures
        !blobs_of(writes).contains_key(key),
    decreases writes.len(),
{
    if writes.len() > 0 {
        lemma_blobs_of_miss(writes.drop_last(), key);
    }
}

proof fn lemma_blobs_of_hit(writes: Seq<StoredBlob>, key: BlobKey, at: int)
    requires
        0 <= at < writes.len(),
        writes[at].key == key,
        forall|i: int| at < i < writes.len() ==> (#[trigger] writes[i]).key != key,
    ensures
        blobs_of(writes).contains_key(key),
        blobs_of(writes)[key] == writes[at].bytes@,
    decreases writes.len(),
{
    if at < writes.len() - 1 {
        assert(writes.last().key != key);
        lemma_blobs_of_hit(writes.drop_last(), key, at);
    }
}

/// A copy of a byte string.
pub fn copy_bytes(bytes: &Vec<u8>) -> (out: Vec<u8>)
    ensures
        out@ == bytes@,
{
    let mut out: Vec<u8> = Vec::new();
    let mut i: usize = 0;
    while i < bytes.len()
        invariant
            i <= bytes@.len(),
            out@ == bytes@.subrange(0, i as int),
        decreases bytes@.len() - i,
    {
        out.push(bytes[i]);
        i += 1;
        assert(out@ =~= bytes@.subrange(0, i as int));
    }
    assert(bytes@.subrange(0, bytes@.len() as int) =~= bytes@);
    out
}

/// Whether two byte strings are equal.
pub fn same_bytes(a: &Vec<u8>, b: &Vec<u8>) -> (r: bool)
    ensures
        r == (a@ == b@),
{
    if a.len() != b.len() {
        return false;
    }
    let mut i: usize = 0;
    while i < a.len()
        invariant
            a@.len() == b@.len(),
            i <= a@.len(),
            forall|j: int| 0 <= j < i ==> a@[j] == b@[j],
        decreases a@.len() - i,
    {
        if a[i] != b[i] {
            return false;
        }
        i += 1;
    }
    assert(a@ =~= b@);
    true
}

/// The blob store, shared by all repositories.
pub struct Blobstore {
    writes: Vec<StoredBlob>,
}

impl View for Blobstore {
    type V = Map<BlobKey, Seq<u8>>;

    closed spec fn view(&self) -> Map<BlobKey, Seq<u8>> {
        blobs_of(self.writes@)
    }
}

impl Blobstore {
    /// A store without blobs.
    pub fn new() -> (store: Blobstore)
        ensures
            store@ == Map::<BlobKey, Seq<u8>>::empty(),
    {
        Blobstore { writes: Vec::new() }
    }

    /// The position of the last write under `key`.
    fn find(&self, key: &BlobKey) -> (r: Option<usize>)
        ensures
            match r {
                Some(at) => at < self.writes@.len() && self@.contains_key(*key) && self@[*key]
                    == self.writes@[at as int].bytes@,
                None => !self@.contains_key(*key),
            },
    {
        let mut i: usize = self.writes.len();
        while i > 0
            invariant
                i <= self.writes@.len(),
                forall|j: int| i <= j < self.writes@.len() ==> (#[trigger] self.writes@[j]).key != *key,
            decreases i,
        {
            i -= 1;
            let held = &self.writes[i].key;
            if held.repo_id.0 == key.repo_id.0 && held.cs_id.same(&key.cs_id) {
                proof {
                    assert(self.writes@[i as int].key == *key);
                    lemma_blobs_of_hit(self.writes@, *key, i as int);
                }
                return Some(i);
            }
        }
        proof {
            lemma_blobs_of_miss(self.writes@, *key);
        }
        None
    }

    /// The blob stored under `key`, if there is one.
    pub fn get(&self, key: BlobKey) -> (r: Option<Vec<u8>>)
        ensures
            r is Some <==> self@.contains_key(key),
            r matches Some(bytes) ==> bytes@ == self@[key],
    {
        match self.find(&key) {
            None => None,
            Some(at) => Some(copy_bytes(&self.writes[at].bytes)),
        }
    }

    /// Whether a blob is stored under `key`.
    pub fn is_present(&self, key: BlobKey) -> (r: bool)
        ensures
            r == self@.contains_key(key),
    {
        self.find(&key).is_some()
    }

    /// Stores `bytes` under `key`. Storing again what is stored already
    /// changes nothing.
    pub fn put(&mut self, key: BlobKey, bytes: Vec<u8>)
        ensures
            final(self)@ == old(self)@.insert(key, bytes@),
    {
        match self.find(&key) {
            Some(at) => {
                if same_bytes(&self.writes[at].bytes, &bytes) {
                    assert(self@.insert(key, bytes@) =~= self@);
                    return ;
                }
            },
            None => {},
        }
        let ghost before = self.writes@;
        self.writes.push(StoredBlob { key, bytes });
        assert(self.writes@.drop_last() =~= before);
    }
}

} // verus!
