//! The store of auxiliary-data records: an append-only log on disk with an
//! index over the keys of its records.
//!
//! The log, its index, its rotation and its recovery from damaged files are
//! those of the `indexedlog` crate. What is decided here is the form of the
//! records, which of several records under one key is the current one, what
//! a record that cannot be decoded means for a lookup and for a scan, and
//! with which options a log is opened.

use vstd::prelude::*;
use crate::entry::{parse_record, DecodeError, Entry, EntryView};
use crate::ids::HgId;
use crate::options::{StoreOpenOptions, StoreType};

verus! {

/// A log that is never rotated.
#[verifier::external_type_specification]
#[verifier::external_body]
pub struct ExLog(indexedlog::log::Log);

/// A set of logs that are rotated, the oldest of which is dropped.
#[verifier::external_type_specification]
#[verifier::external_body]
pub struct ExRotateLog(indexedlog::rotate::RotateLog);

/// What a log reports when an operation fails.
#[verifier::external_type_specification]
#[verifier::external_body]
pub struct ExLogError(indexedlog::Error);

/// What an index function of a log returns for a record.
#[verifier::external_type_specification]
#[verifier::external_body]
pub struct ExIndexOutput(indexedlog::log::IndexOutput);

/// Why an operation on a store failed.
#[derive(Clone, Copy, Debug, PartialEq, Eq, Structural)]
pub enum StoreError {
    /// A rotated store must retain at least one segment, of at least one
    /// byte.
    InvalidOptions,
    /// The record found under the key cannot be decoded.
    Decode(DecodeError),
    /// The files of the store are damaged.
    CorruptSegment,
    /// Reading or writing the files of the store failed.
    IoFailure,
}

/// Calls `indexedlog::Error::is_corruption`: whether the log reports damaged
/// files rather than a failed read or write. Nothing is claimed of the
/// answer.
#[verifier::external_body]
fn error_is_corruption(error: &indexedlog::Error) -> (r: bool) {
    error.is_corruption()
}

/// The error of this library that stands for an error of the log.
fn store_error(error: indexedlog::Error) -> (r: StoreError)
    ensures
        r == StoreError::CorruptSegment || r == StoreError::IoFailure,
{
    // What the log says of its error decides; which error stands for which
    // answer is said by `error_for`.
    let damaged = error_is_corruption(&error);
    let kind = error_for(damaged);
    kind
}

/// First byte of the key in a record.
fn key_start() -> (at: u64)
    ensures
        at == 0,
{
    0
}

/// First byte after the key in a record.
fn key_end() -> (at: u64)
    ensures
        at == 20,
{
    20
}

/// Builds the `indexedlog::log::IndexOutput::Reference` that names the key
/// bytes of a record as its only index key. It is handed to the log as its
/// index function, which the log calls on every record; the record itself is
/// not read.
#[verifier::external_body]
fn node_index(_record: &[u8]) -> (keys: Vec<indexedlog::log::IndexOutput>) {
    vec![indexedlog::log::IndexOutput::Reference(key_start()..key_end())]
}

/// Calls `indexedlog::log::OpenOptions::open` on options built with `new`,
/// `create`, `auto_sync_threshold` and `index`: opens the log in directory
/// `dir`, indexed by the key bytes of its records. Nothing is claimed of the
/// result, which depends on the files in `dir`.
#[verifier::external_body]
fn open_log(dir: &str, create: bool, auto_sync_threshold: u64) -> (r: Result<
    indexedlog::log::Log,
    indexedlog::Error,
>) {
    indexedlog::log::OpenOptions::new()
        .create(create)
        .auto_sync_threshold(auto_sync_threshold)
        .index("node", node_index)
        .open(dir)
}

/// Calls `indexedlog::rotate::OpenOptions::open` on options built with
/// `new`, `max_log_count`, `max_bytes_per_log`, `create`,
/// `auto_sync_threshold` and `index`: opens the rotated logs in directory
/// `dir`, indexed by the key bytes of their records. The builder refuses a
/// count or a size of zero. Nothing is claimed of the result, which depends
/// on the files in `dir`.
#[verifier::external_body]
fn open_rotate_log(dir: &str, options: &StoreOpenOptions) -> (r: Result<
    indexedlog::rotate::RotateLog,
    indexedlog::Error,
>)
    requires
        options.valid(),
{
    indexedlog::rotate::OpenOptions::new()
        .max_log_count(options.max_log_count)
        .max_bytes_per_log(options.max_bytes_per_log)
        .create(options.create)
        .auto_sync_threshold(options.auto_sync_threshold)
        .index("node", node_index)
        .open(dir)
}

/// Calls `indexedlog::log::Log::lookup` on the first index and takes the
/// first record it yields: the one appended last under `key`. Nothing is
/// claimed of the result, which depends on the files of the log.
#[verifier::external_body]
fn log_lookup(log: &indexedlog::log::Log, key: &HgId) -> (r: Result<
    Option<Vec<u8>>,
    indexedlog::Error,
>) {
    let mut found = log.lookup(0, key.0)?;
    found.next().transpose().map(|record| record.map(|bytes| bytes.to_vec()))
}

/// Calls `indexedlog::rotate::RotateLog::lookup` on the first index and
/// takes the first record it yields: the one appended last under `key`, the
/// newest log first. Nothing is claimed of the result, which depends on the
/// files of the logs.
#[verifier::external_body]
fn rotate_log_lookup(log: &indexedlog::rotate::RotateLog, key: &HgId) -> (r: Result<
    Option<Vec<u8>>,
    indexedlog::Error,
>) {
    let mut found = log.lookup(0, key.0.to_vec())?;
    found.next().transpose().map(|record| record.map(|bytes| bytes.to_vec()))
}

/// Calls `indexedlog::log::Log::append`. The index reads the first twenty
/// bytes of a record, so shorter data is left out.
#[verifier::external_body]
fn log_append(log: &mut indexedlog::log::Log, data: &Vec<u8>) -> (r: Result<(), indexedlog::Error>)
    requires
        data@.len() >= 20,
{
    log.append(data)
}

/// Calls `indexedlog::rotate::RotateLog::append`. The index reads the first
/// twenty bytes of a record, so shorter data is left out.
#[verifier::external_body]
fn rotate_log_append(log: &mut indexedlog::rotate::RotateLog, data: &Vec<u8>) -> (r: Result<
    (),
    indexedlog::Error,
>)
    requires
        data@.len() >= 20,
{
    log.append(data)
}

/// Calls `indexedlog::log::Log::flush`, which writes what was appended to
/// disk and reads what others wrote.
#[verifier::external_body]
fn log_flush(log: &mut indexedlog::log::Log) -> (r: Result<(), indexedlog::Error>) {
    log.flush().map(|_| ())
}

/// Calls `indexedlog::rotate::RotateLog::flush`, which writes what was
/// appended to disk, reads what others wrote, and rotates the logs when the
/// newest is full.
#[verifier::external_body]
fn rotate_log_flush(log: &mut indexedlog::rotate::RotateLog) -> (r: Result<
    (),
    indexedlog::Error,
>) {
    log.flush().map(|_| ())
}

/// Calls `indexedlog::log::Log::iter` and copies out the records it yields,
/// oldest first, up to the first one that cannot be read. Nothing is claimed
/// of the result, which depends on the files of the log.
#[verifier::external_body]
fn log_records(log: &indexedlog::log::Log) -> (r: Result<Vec<Vec<u8>>, indexedlog::Error>) {
    log.iter().map(|record| record.map(|bytes| bytes.to_vec())).collect()
}

/// Calls `indexedlog::rotate::RotateLog::iter` and copies out the records it
/// yields, oldest first, up to the first one that cannot be read. Nothing is
/// claimed of the result, which depends on the files of the logs.
#[verifier::external_body]
fn rotate_log_records(log: &indexedlog::rotate::RotateLog) -> (r: Result<
    Vec<Vec<u8>>,
    indexedlog::Error,
>) {
    log.iter().map(|record| record.map(|bytes| bytes.to_vec())).collect()
}

/// The log behind a store.
enum StoreLog {
    Local(indexedlog::log::Log),
    Shared(indexedlog::rotate::RotateLog),
}

/// A store of auxiliary-data records, keyed by `HgId`.
pub struct AuxStoreInner(StoreLog);

/// What a lookup gives when the log found `found` under the key: nothing,
/// the entry of the record, or the reason why the record cannot be decoded.
pub open spec fn entry_found(found: Option<Seq<u8>>) -> Result<Option<EntryView>, StoreError> {
    match found {
        None => Ok(None),
        Some(bytes) => match parse_record(bytes) {
            Ok((_, entry)) => Ok(Some(entry)),
            Err(e) => Err(StoreError::Decode(e)),
        },
    }
}

/// The keys and entries of those of `records` that can be decoded, in their
/// order.
pub open spec fn decoded_records(records: Seq<Vec<u8>>) -> Seq<(Seq<u8>, EntryView)>
    decreases records.len(),
{
    if records.len() == 0 {
        Seq::empty()
    } else {
        let rest = decoded_records(records.drop_last());
        match parse_record(records.last()@) {
            Ok(decoded) => rest.push(decoded),
            Err(_) => rest,
        }
    }
}

/// The bytes that the log found, if it found any.
pub open spec fn found_bytes(found: Option<Vec<u8>>) -> Option<Seq<u8>> {
    match found {
        Some(bytes) => Some(bytes@),
        None => None,
    }
}

/// The answer to a lookup for which the log found `found`: a record that
/// cannot be decoded is an error, not an absent entry.
pub fn entry_of_lookup(found: Option<Vec<u8>>) -> (r: Result<Option<Entry>, StoreError>)
    ensures
        match r {
            Ok(None) => entry_found(found_bytes(found)) == Ok::<Option<EntryView>, StoreError>(
                None,
            ),
            Ok(Some(entry)) => entry_found(found_bytes(found)) == Ok::<
                Option<EntryView>,
                StoreError,
            >(Some(entry@)),
            Err(e) => entry_found(found_bytes(found)) == Err::<Option<EntryView>, StoreError>(e),
        },
{
    match found {
        None => Ok(None),
        Some(bytes) => match Entry::deserialize(bytes.as_slice()) {
            Ok((_, entry)) => Ok(Some(entry)),
            Err(e) => Err(StoreError::Decode(e)),
        },
    }
}

/// The keys and entries of the records of a scan: a record that cannot be
/// decoded is passed over.
pub fn entries_of_records(records: &Vec<Vec<u8>>) -> (entries: Vec<(HgId, Entry)>)
    ensures
        entries@.len() == decoded_records(records@).len(),
        forall|i: int|
            0 <= i < entries@.len() ==> ((#[trigger] entries@[i]).0@, entries@[i].1@)
                == decoded_records(records@)[i],
{
    let mut entries: Vec<(HgId, Entry)> = Vec::new();
    let mut i: usize = 0;
    while i < records.len()
        invariant
            i <= records@.len(),
            entries@.len() == decoded_records(records@.subrange(0, i as int)).len(),
            forall|j: int|
                0 <= j < entries@.len() ==> ((#[trigger] entries@[j]).0@, entries@[j].1@)
                    == decoded_records(records@.subrange(0, i as int))[j],
        decreases records@.len() - i,
    {
        let ghost done = records@.subrange(0, i as int);
        let ghost next = records@.subrange(0, i + 1);
        proof {
            assert(next.drop_last() =~= done);
            assert(next.last() == records@[i as int]);
        }
        match Entry::deserialize(records[i].as_slice()) {
            Ok(decoded) => {
                entries.push(decoded);
            },
            Err(_) => {},
        }
        i += 1;
    }
    assert(records@.subrange(0, records@.len() as int) =~= records@);
    entries
}

/// The keys of the records of a scan: a record that cannot be decoded is
/// passed over.
pub fn keys_of_records(records: &Vec<Vec<u8>>) -> (keys: Vec<HgId>)
    ensures
        keys@.len() == decoded_records(records@).len(),
        forall|i: int|
            0 <= i < keys@.len() ==> (#[trigger] keys@[i])@ == decoded_records(records@)[i].0,
{
    let entries = entries_of_records(records);
    let mut keys: Vec<HgId> = Vec::new();
    let mut i: usize = 0;
    while i < entries.len()
        invariant
            i <= entries@.len(),
            keys@.len() == i,
            forall|j: int| 0 <= j < i ==> (#[trigger] keys@[j]) == entries@[j].0,
        decreases entries@.len() - i,
    {
        keys.push(entries[i].0);
        i += 1;
    }
    keys
}

impl AuxStoreInner {
    /// Opens the store in directory `dir`, creating it where the options say
    /// so. A local store is one log; a shared store is a set of rotated
    /// logs, for which the options must be valid.
    pub fn open(dir: &str, options: &StoreOpenOptions, store_type: StoreType) -> (r: Result<
        AuxStoreInner,
        StoreError,
    >)
        ensures
            store_type == StoreType::Shared && !options.valid() ==> r == Err::<
                AuxStoreInner,
                StoreError,
            >(StoreError::InvalidOptions),
            r matches Err(e) ==> e != StoreError::InvalidOptions || (store_type == StoreType::Shared
                && !options.valid()),
            r matches Err(e) ==> !(e is Decode),
    {
        match store_type {
            StoreType::Local => match open_log(dir, options.create, options.auto_sync_threshold) {
                Ok(log) => Ok(AuxStoreInner(StoreLog::Local(log))),
                Err(e) => Err(store_error(e)),
            },
            StoreType::Shared => {
                if options.max_log_count == 0 || options.max_bytes_per_log == 0 {
                    return Err(StoreError::InvalidOptions);
                }
                match open_rotate_log(dir, options) {
                    Ok(log) => Ok(AuxStoreInner(StoreLog::Shared(log))),
                    Err(e) => Err(store_error(e)),
                }
            },
        }
    }

    /// The record that the log holds under `hgid`: the one appended last.
    fn lookup(&self, hgid: &HgId) -> (r: Result<Option<Vec<u8>>, StoreError>)
        ensures
            r matches Err(e) ==> e == StoreError::CorruptSegment || e == StoreError::IoFailure,
    {
        let found = match &self.0 {
            StoreLog::Local(log) => log_lookup(log, hgid),
            StoreLog::Shared(log) => rotate_log_lookup(log, hgid),
        };
        match found {
            Ok(found) => Ok(found),
            Err(e) => Err(store_error(e)),
        }
    }

    /// The entry stored under `hgid`, if there is one. Of several, the one
    /// stored last is returned.
    pub fn get(&self, hgid: HgId) -> (r: Result<Option<Entry>, StoreError>)
        ensures
            r matches Err(e) ==> e != StoreError::InvalidOptions,
    {
        match self.lookup(&hgid) {
            Ok(found) => entry_of_lookup(found),
            Err(e) => Err(e),
        }
    }

    /// Appends the record of `entry` under `hgid`. It is found by lookups
    /// after the next flush at the latest.
    pub fn put(&mut self, hgid: HgId, entry: &Entry) -> (r: Result<(), StoreError>)
        ensures
            r matches Err(e) ==> e == StoreError::CorruptSegment || e == StoreError::IoFailure,
    {
        let data = entry.serialize(hgid);
        let appended = match &mut self.0 {
            StoreLog::Local(log) => log_append(log, &data),
            StoreLog::Shared(log) => rotate_log_append(log, &data),
        };
        match appended {
            Ok(()) => Ok(()),
            Err(e) => Err(store_error(e)),
        }
    }

    /// Writes what was appended to disk.
    pub fn flush(&mut self) -> (r: Result<(), StoreError>)
        ensures
            r matches Err(e) ==> e == StoreError::CorruptSegment || e == StoreError::IoFailure,
    {
        let flushed = match &mut self.0 {
            StoreLog::Local(log) => log_flush(log),
            StoreLog::Shared(log) => rotate_log_flush(log),
        };
        match flushed {
            Ok(()) => Ok(()),
            Err(e) => Err(store_error(e)),
        }
    }

    /// All records that the log holds, oldest first.
    fn records(&self) -> (r: Result<Vec<Vec<u8>>, StoreError>)
        ensures
            r matches Err(e) ==> e == StoreError::CorruptSegment || e == StoreError::IoFailure,
    {
        let records = match &self.0 {
            StoreLog::Local(log) => log_records(log),
            StoreLog::Shared(log) => rotate_log_records(log),
        };
        match records {
            Ok(records) => Ok(records),
            Err(e) => Err(store_error(e)),
        }
    }

    /// The keys and entries of all records that can be decoded, oldest
    /// first. A record that cannot be decoded is passed over.
    pub fn scan(&self) -> (r: Result<Vec<(HgId, Entry)>, StoreError>)
        ensures
            r matches Err(e) ==> e == StoreError::CorruptSegment || e == StoreError::IoFailure,
    {
        match self.records() {
            Ok(records) => Ok(entries_of_records(&records)),
            Err(e) => Err(e),
        }
    }

    /// The keys of all records that can be decoded, oldest first. A record
    /// that cannot be decoded is passed over.
    pub fn hgids(&self) -> (r: Result<Vec<HgId>, StoreError>)
        ensures
            r matches Err(e) ==> e == StoreError::CorruptSegment || e == StoreError::IoFailure,
    {
        match self.records() {
            Ok(records) => Ok(keys_of_records(&records)),
            Err(e) => Err(e),
        }
    }
}

/// The error that stands for an error of the log: damaged files if the log
/// says so, else a failed read or write.
pub fn error_for(damaged: bool) -> (r: StoreError)
    ensures
        r == if damaged {
            StoreError::CorruptSegment
        } else {
            StoreError::IoFailure
        },
{
    if damaged {
        StoreError::CorruptSegment
    } else {
        StoreError::IoFailure
    }
}

} // verus!
