//! Fixed-width identifiers and digests.
//!
//! Every identifier is a byte string of a fixed width; its mathematical
//! model is the sequence of its bytes.

use vstd::prelude::*;

verus! {

/// Width in bytes of a record key.
pub const HGID_LEN: usize = 20;

/// Width in bytes of a content id.
pub const CONTENT_ID_LEN: usize = 32;

/// Width in bytes of a SHA-1 digest.
pub const SHA1_LEN: usize = 20;

/// Width in bytes of a SHA-256 digest.
pub const SHA256_LEN: usize = 32;

/// Width in bytes of a changeset id.
pub const CHANGESET_ID_LEN: usize = 32;

/// Byte-wise equality of two arrays of one width.
pub fn bytes_eq<const N: usize>(a: &[u8; N], b: &[u8; N]) -> (r: bool)
    ensures
        r == (*a == *b),
        r == (a@ == b@),
{
    let mut i: usize = 0;
    while i < N
        invariant
            i <= N,
            forall|j: int| 0 <= j < i ==> a@[j] == b@[j],
        decreases N - i,
    {
        if a[i] != b[i] {
            return false;
        }
        i += 1;
    }
    assert(a@ =~= b@);
    assert(*a =~= *b);
    true
}

/// Copies `N` bytes of `data`, starting at `start`, into an array.
pub(crate) fn take_array<const N: usize>(data: &[u8], start: usize) -> (out: [u8; N])
    requires
        start + N <= data@.len(),
    ensures
        out@ == data@.subrange(start as int, start + N),
{
    let mut out = [0u8; N];
    let mut i: usize = 0;
    while i < N
        invariant
            i <= N,
            start + N <= data.len(),
            out@.len() == N,
            forall|j: int| 0 <= j < i ==> out@[j] == data@[start + j],
        decreases N - i,
    {
        out[i] = data[start + i];
        i += 1;
    }
    assert(out@ =~= data@.subrange(start as int, start + N));
    out
}

/// Appends the `N` bytes of `field` to `buf`.
pub fn put_array<const N: usize>(buf: &mut Vec<u8>, field: &[u8; N])
    ensures
        final(buf)@ == old(buf)@ + field@,
{
    let mut i: usize = 0;
    while i < N
        invariant
            i <= N,
            field@.len() == N,
            buf@ == old(buf)@ + field@.subrange(0, i as int),
        decreases N - i,
    {
        buf.push(field[i]);
        i += 1;
        assert(buf@ =~= old(buf)@ + field@.subrange(0, i as int));
    }
    assert(field@.subrange(0, N as int) =~= field@);
}

/// Identifier of a file revision: the primary key of an auxiliary-data record.
#[derive(Clone, Copy, Debug, Default, PartialEq, Eq, Hash, PartialOrd, Ord)]
pub struct HgId(pub [u8; 20]);

/// Content-derived identifier of a file's bytes.
#[derive(Clone, Copy, Debug, Default, PartialEq, Eq, Hash, PartialOrd, Ord)]
pub struct ContentId(pub [u8; 32]);

/// SHA-1 digest of a file's bytes.
#[derive(Clone, Copy, Debug, Default, PartialEq, Eq, Hash, PartialOrd, Ord)]
pub struct Sha1(pub [u8; 20]);

/// SHA-256 digest of a file's bytes.
#[derive(Clone, Copy, Debug, Default, PartialEq, Eq, Hash, PartialOrd, Ord)]
pub struct Sha256(pub [u8; 32]);

/// Content hash that identifies an immutable changeset.
#[derive(Clone, Copy, Debug, Default, PartialEq, Eq, Hash, PartialOrd, Ord)]
pub struct ChangesetId(pub [u8; 32]);

/// Scope of every storage operation: all rows and blobs are keyed by it.
#[derive(Clone, Copy, Debug, Default, PartialEq, Eq, Structural, Hash, PartialOrd, Ord)]
pub struct RepositoryId(pub i32);

/// Length of the longest chain of ancestors from a changeset down to a root.
#[derive(Clone, Copy, Debug, Default, PartialEq, Eq, Structural, Hash, PartialOrd, Ord)]
pub struct Generation(pub u64);

impl View for HgId {
    type V = Seq<u8>;

    open spec fn view(&self) -> Seq<u8> {
        self.0@
    }
}

impl View for ContentId {
    type V = Seq<u8>;

    open spec fn view(&self) -> Seq<u8> {
        self.0@
    }
}

impl View for Sha1 {
    type V = Seq<u8>;

    open spec fn view(&self) -> Seq<u8> {
        self.0@
    }
}

impl View for Sha256 {
    type V = Seq<u8>;

    open spec fn view(&self) -> Seq<u8> {
        self.0@
    }
}

impl View for ChangesetId {
    type V = Seq<u8>;

    open spec fn view(&self) -> Seq<u8> {
        self.0@
    }
}

impl HgId {
    /// Number of bytes of a key.
    pub fn len() -> (n: usize)
        ensures
            n == 20,
    {
        HGID_LEN
    }

    /// Whether two keys hold the same bytes.
    pub fn same(&self, other: &HgId) -> (r: bool)
        ensures
            r == (*self == *other),
            r == (self@ == other@),
    {
        bytes_eq(&self.0, &other.0)
    }
}

impl ChangesetId {
    /// Whether two ids hold the same bytes.
    pub fn same(&self, other: &ChangesetId) -> (r: bool)
        ensures
            r == (*self == *other),
            r == (self@ == other@),
    {
        bytes_eq(&self.0, &other.0)
    }
}

impl Generation {
    /// Wraps a generation number.
    pub fn new(gen: u64) -> (g: Generation)
        ensures
            g.0 == gen,
    {
        Generation(gen)
    }

    /// The number itself.
    pub fn value(&self) -> (v: u64)
        ensures
            v == self.0,
    {
        self.0
    }
}

} // verus!
