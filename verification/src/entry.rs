//! Auxiliary-data records and their on-disk form.
//!
//! A record is laid out as
//!
//! ```text
//! key            20 bytes
//! format version  1 byte, always 0
//! content id     32 bytes
//! content sha1   20 bytes
//! content sha256 32 bytes
//! total size     variable-length quantity
//! ```

use vstd::prelude::*;
use crate::ids::{put_array, take_array, ContentId, HgId, Sha1, Sha256};
use crate::vlq::{
    lemma_vlq_bytes_len, lemma_vlq_scan_bytes, read_vlq, vlq_bytes, vlq_parse, write_vlq, VlqError,
};

verus! {

/// The one format version that is defined.
pub const ENTRY_VERSION: u8 = 0;

/// Offset of the version byte in a record.
pub const VERSION_OFFSET: usize = 20;

/// Offset of the content id in a record.
pub const CONTENT_ID_OFFSET: usize = 21;

/// Offset of the SHA-1 digest in a record.
pub const SHA1_OFFSET: usize = 53;

/// Offset of the SHA-256 digest in a record.
pub const SHA256_OFFSET: usize = 73;

/// Offset of the size in a record: the length of all fixed fields.
pub const SIZE_OFFSET: usize = 105;

/// Why a record could not be decoded.
#[derive(Clone, Copy, Debug, PartialEq, Eq, Structural)]
pub enum DecodeError {
    /// The bytes end inside a field.
    TruncatedRecord,
    /// The version byte holds a value that is not defined.
    UnsupportedRecordVersion(u8),
    /// The size does not fit in 64 bits.
    SizeOverflow,
}

/// Size and digests of a file's content.
#[derive(Clone, Copy, Debug, Default, PartialEq, Eq)]
pub struct Entry {
    total_size: u64,
    content_id: ContentId,
    content_sha1: Sha1,
    content_sha256: Sha256,
}

/// Mathematical model of an [`Entry`].
pub struct EntryView {
    pub total_size: nat,
    pub content_id: Seq<u8>,
    pub content_sha1: Seq<u8>,
    pub content_sha256: Seq<u8>,
}

impl View for Entry {
    type V = EntryView;

    closed spec fn view(&self) -> EntryView {
        EntryView {
            total_size: self.total_size as nat,
            content_id: self.content_id@,
            content_sha1: self.content_sha1@,
            content_sha256: self.content_sha256@,
        }
    }
}

impl EntryView {
    /// Every field has the width of its type.
    pub open spec fn wf(self) -> bool {
        &&& self.total_size <= u64::MAX
        &&& self.content_id.len() == 32
        &&& self.content_sha1.len() == 20
        &&& self.content_sha256.len() == 32
    }
}

/// The bytes of the record that stores `entry` under `key`.
pub open spec fn record_bytes(key: Seq<u8>, entry: EntryView) -> Seq<u8> {
    key + seq![0u8] + entry.content_id + entry.content_sha1 + entry.content_sha256 + vlq_bytes(
        entry.total_size,
    )
}

/// The key and entry that a record holds, or why it holds none.
///
/// Fields are validated in the order in which they are laid out; bytes after
/// the size are not looked at.
pub open spec fn parse_record(s: Seq<u8>) -> Result<(Seq<u8>, EntryView), DecodeError> {
    if s.len() <= 20 {
        Err(DecodeError::TruncatedRecord)
    } else if s[20] != 0 {
        Err(DecodeError::UnsupportedRecordVersion(s[20]))
    } else if s.len() < 105 {
        Err(DecodeError::TruncatedRecord)
    } else {
        match vlq_parse(s.subrange(105, s.len() as int)) {
            Ok(size) => Ok(
                (
                    s.subrange(0, 20),
                    EntryView {
                        total_size: size as nat,
                        content_id: s.subrange(21, 53),
                        content_sha1: s.subrange(53, 73),
                        content_sha256: s.subrange(73, 105),
                    },
                ),
            ),
            Err(VlqError::Truncated) => Err(DecodeError::TruncatedRecord),
            Err(VlqError::Overflow) => Err(DecodeError::SizeOverflow),
        }
    }
}

/// A record that was encoded decodes to the key and entry it was made from.
pub proof fn lemma_record_roundtrip(key: Seq<u8>, entry: EntryView)
    requires
        key.len() == 20,
        entry.wf(),
    ensures
        parse_record(record_bytes(key, entry)) == Ok::<(Seq<u8>, EntryView), DecodeError>(
            (key, entry),
        ),
        106 <= record_bytes(key, entry).len() <= 115,
{
    let s = record_bytes(key, entry);
    let size = vlq_bytes(entry.total_size);
    lemma_vlq_bytes_len(entry.total_size);
    lemma_vlq_scan_bytes(entry.total_size, 1, Seq::empty());
    assert(size + Seq::<u8>::empty() =~= size);
    assert(s.subrange(105, s.len() as int) =~= size);
    assert(s.subrange(0, 20) =~= key);
    assert(s.subrange(21, 53) =~= entry.content_id);
    assert(s.subrange(53, 73) =~= entry.content_sha1);
    assert(s.subrange(73, 105) =~= entry.content_sha256);
    assert(s[20] == 0);
}

/// Different keys or entries have different records.
pub proof fn lemma_record_bytes_injective(
    key: Seq<u8>,
    entry: EntryView,
    other_key: Seq<u8>,
    other_entry: EntryView,
)
    requires
        key.len() == 20,
        entry.wf(),
        other_key.len() == 20,
        other_entry.wf(),
        record_bytes(key, entry) == record_bytes(other_key, other_entry),
    ensures
        key == other_key,
        entry == other_entry,
{
    lemma_record_roundtrip(key, entry);
    lemma_record_roundtrip(other_key, other_entry);
}

impl Entry {
    /// An entry with the given size and digests.
    pub fn new(
        total_size: u64,
        content_id: ContentId,
        content_sha1: Sha1,
        content_sha256: Sha256,
    ) -> (e: Entry)
        ensures
            e@.total_size == total_size,
            e@.content_id == content_id@,
            e@.content_sha1 == content_sha1@,
            e@.content_sha256 == content_sha256@,
            e@.wf(),
    {
        Entry { total_size, content_id, content_sha1, content_sha256 }
    }

    /// Size of the content in bytes.
    pub fn total_size(&self) -> (n: u64)
        ensures
            n == self@.total_size,
    {
        self.total_size
    }

    /// Content id of the content.
    pub fn content_id(&self) -> (id: ContentId)
        ensures
            id@ == self@.content_id,
    {
        self.content_id
    }

    /// SHA-1 digest of the content.
    pub fn content_sha1(&self) -> (d: Sha1)
        ensures
            d@ == self@.content_sha1,
    {
        self.content_sha1
    }

    /// SHA-256 digest of the content.
    pub fn content_sha256(&self) -> (d: Sha256)
        ensures
            d@ == self@.content_sha256,
    {
        self.content_sha256
    }

    /// The model of every entry is well formed.
    pub proof fn lemma_view_wf(self)
        ensures
            self@.wf(),
    {
    }

    /// Two entries with one model are one entry.
    pub proof fn lemma_view_injective(self, other: Entry)
        requires
            self@ == other@,
        ensures
            self == other,
    {
        assert(self.content_id.0 =~= other.content_id.0);
        assert(self.content_sha1.0 =~= other.content_sha1.0);
        assert(self.content_sha256.0 =~= other.content_sha256.0);
    }

    /// Decoding the record of an entry gives the key and the entry back:
    /// whatever key and entry the record of `self` under `hgid` decodes to,
    /// they are `hgid` and `self`.
    pub proof fn lemma_decoded_is_encoded(self, hgid: HgId, decoded_hgid: HgId, decoded: Entry)
        requires
            parse_record(record_bytes(hgid@, self@)) == Ok::<(Seq<u8>, EntryView), DecodeError>(
                (decoded_hgid@, decoded@),
            ),
        ensures
            decoded_hgid == hgid,
            decoded == self,
    {
        lemma_record_roundtrip(hgid@, self@);
        assert(decoded_hgid.0 =~= hgid.0);
        decoded.lemma_view_injective(self);
    }

    /// The record of an entry can be decoded.
    pub proof fn lemma_encoded_decodes(self, hgid: HgId)
        ensures
            parse_record(record_bytes(hgid@, self@)) == Ok::<(Seq<u8>, EntryView), DecodeError>(
                (hgid@, self@),
            ),
    {
        lemma_record_roundtrip(hgid@, self@);
    }

    /// Whether two entries hold the same size and digests.
    pub fn same(&self, other: &Entry) -> (r: bool)
        ensures
            r == (self@ == other@),
    {
        self.total_size == other.total_size && crate::ids::bytes_eq(
            &self.content_id.0,
            &other.content_id.0,
        ) && crate::ids::bytes_eq(&self.content_sha1.0, &other.content_sha1.0)
            && crate::ids::bytes_eq(&self.content_sha256.0, &other.content_sha256.0)
    }

    /// Encodes the entry as the record stored under `hgid`.
    pub fn serialize(&self, hgid: HgId) -> (out: Vec<u8>)
        ensures
            out@ == record_bytes(hgid@, self@),
            106 <= out@.len() <= 115,
    {
        let mut buf: Vec<u8> = Vec::new();
        put_array(&mut buf, &hgid.0);
        buf.push(ENTRY_VERSION);
        put_array(&mut buf, &self.content_id.0);
        put_array(&mut buf, &self.content_sha1.0);
        put_array(&mut buf, &self.content_sha256.0);
        write_vlq(&mut buf, self.total_size);
        proof {
            assert(buf@ =~= record_bytes(hgid@, self@));
            lemma_record_roundtrip(hgid@, self@);
        }
        buf
    }

    /// Decodes a record into its key and entry.
    pub fn deserialize(bytes: &[u8]) -> (r: Result<(HgId, Entry), DecodeError>)
        ensures
            match r {
                Ok((hgid, entry)) => parse_record(bytes@) == Ok::<
                    (Seq<u8>, EntryView),
                    DecodeError,
                >((hgid@, entry@)),
                Err(e) => parse_record(bytes@) == Err::<(Seq<u8>, EntryView), DecodeError>(e),
            },
    {
        if bytes.len() <= VERSION_OFFSET {
            return Err(DecodeError::TruncatedRecord);
        }
        let version: u8 = bytes[VERSION_OFFSET];
        if version != ENTRY_VERSION {
            return Err(DecodeError::UnsupportedRecordVersion(version));
        }
        if bytes.len() < SIZE_OFFSET {
            return Err(DecodeError::TruncatedRecord);
        }
        let hgid = HgId(take_array::<20>(bytes, 0));
        let content_id = ContentId(take_array::<32>(bytes, CONTENT_ID_OFFSET));
        let content_sha1 = Sha1(take_array::<20>(bytes, SHA1_OFFSET));
        let content_sha256 = Sha256(take_array::<32>(bytes, SHA256_OFFSET));
        match read_vlq(bytes, SIZE_OFFSET) {
            Ok(total_size) => Ok(
                (hgid, Entry { total_size, content_id, content_sha1, content_sha256 }),
            ),
            Err(VlqError::Truncated) => Err(DecodeError::TruncatedRecord),
            Err(VlqError::Overflow) => Err(DecodeError::SizeOverflow),
        }
    }
}

} // verus!
