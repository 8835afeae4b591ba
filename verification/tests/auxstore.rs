use changeset_store::auxstore::{
    entries_of_records, entry_of_lookup, error_for, keys_of_records, AuxStoreInner, StoreError,
};
use changeset_store::entry::{DecodeError, Entry};
use changeset_store::ids::{ContentId, HgId, Sha1, Sha256};
use changeset_store::options::{open_options, StoreConfig, StoreOpenOptions, StoreType};
use tempfile::TempDir;

fn hgid(last: u8) -> HgId {
    let mut bytes = [0u8; 20];
    bytes[19] = last;
    HgId(bytes)
}

fn entry(n: u8) -> Entry {
    let mut sha1 = [0u8; 20];
    sha1[0] = n;
    Entry::new(n as u64, ContentId::default(), Sha1(sha1), Sha256::default())
}

fn open_shared(dir: &TempDir) -> AuxStoreInner {
    let options = open_options(&StoreConfig::new());
    AuxStoreInner::open(dir.path().to_str().unwrap(), &options, StoreType::Shared).unwrap()
}

#[test]
fn test_empty() {
    let tempdir = TempDir::new().unwrap();
    let mut store = open_shared(&tempdir);
    store.flush().unwrap();
}

#[test]
fn test_add_get() {
    let tempdir = TempDir::new().unwrap();
    let mut store = open_shared(&tempdir);

    let entry = entry(1);
    let k = hgid(1);

    store.put(k, &entry).unwrap();
    store.flush().unwrap();

    let found = store.get(k).unwrap();
    assert_eq!(Some(entry), found);
}

#[test]
fn test_lookup_failure() {
    let tempdir = TempDir::new().unwrap();
    let mut store = open_shared(&tempdir);

    let entry = entry(1);
    let k = hgid(1);

    store.put(k, &entry).unwrap();
    store.flush().unwrap();

    let k2 = hgid(2);

    let found = store.get(k2).unwrap();
    assert_eq!(None, found);
}

#[test]
fn test_local_store_add_get() {
    let tempdir = TempDir::new().unwrap();
    let options = StoreOpenOptions::new();
    let mut store =
        AuxStoreInner::open(tempdir.path().to_str().unwrap(), &options, StoreType::Local).unwrap();
    store.put(hgid(7), &entry(7)).unwrap();
    store.flush().unwrap();
    assert_eq!(store.get(hgid(7)).unwrap(), Some(entry(7)));
    assert_eq!(store.get(hgid(8)).unwrap(), None);
    assert_eq!(store.hgids().unwrap(), vec![hgid(7)]);
}

#[test]
fn test_last_put_under_a_key_wins() {
    let tempdir = TempDir::new().unwrap();
    let mut store = open_shared(&tempdir);
    let k = hgid(5);
    store.put(k, &entry(1)).unwrap();
    store.put(k, &entry(2)).unwrap();
    store.flush().unwrap();
    assert_eq!(store.get(k).unwrap(), Some(entry(2)));
    assert_eq!(store.get(k).unwrap(), Some(entry(2)));
}

#[test]
fn test_reopen_finds_flushed_entries() {
    let tempdir = TempDir::new().unwrap();
    {
        let mut store = open_shared(&tempdir);
        store.put(hgid(1), &entry(1)).unwrap();
        store.put(hgid(2), &entry(2)).unwrap();
        store.flush().unwrap();
    }
    let store = open_shared(&tempdir);
    assert_eq!(store.get(hgid(1)).unwrap(), Some(entry(1)));
    assert_eq!(store.get(hgid(2)).unwrap(), Some(entry(2)));
    assert_eq!(store.hgids().unwrap(), vec![hgid(1), hgid(2)]);
}

#[test]
fn test_scan_lists_keys_oldest_first() {
    let tempdir = TempDir::new().unwrap();
    let mut store = open_shared(&tempdir);
    store.put(hgid(3), &entry(3)).unwrap();
    store.put(hgid(1), &entry(1)).unwrap();
    store.put(hgid(3), &entry(4)).unwrap();
    store.flush().unwrap();
    assert_eq!(store.hgids().unwrap(), vec![hgid(3), hgid(1), hgid(3)]);
}

#[test]
fn test_shared_store_refuses_zero_segments() {
    let tempdir = TempDir::new().unwrap();
    let options = StoreOpenOptions::new().max_log_count(0);
    let opened = AuxStoreInner::open(tempdir.path().to_str().unwrap(), &options, StoreType::Shared);
    assert!(matches!(opened, Err(StoreError::InvalidOptions)));
    let options = StoreOpenOptions::new().max_bytes_per_log(0);
    let opened = AuxStoreInner::open(tempdir.path().to_str().unwrap(), &options, StoreType::Shared);
    assert!(matches!(opened, Err(StoreError::InvalidOptions)));
}

#[test]
fn test_open_without_create_fails_on_missing_store() {
    let tempdir = TempDir::new().unwrap();
    let missing = tempdir.path().join("none");
    let options = StoreOpenOptions::new().create(false);
    let opened = AuxStoreInner::open(missing.to_str().unwrap(), &options, StoreType::Shared);
    assert!(matches!(opened, Err(StoreError::IoFailure) | Err(StoreError::CorruptSegment)));
}

#[test]
fn test_rotation_keeps_store_usable() {
    let tempdir = TempDir::new().unwrap();
    let options = StoreOpenOptions::new().max_log_count(2).max_bytes_per_log(200);
    let mut store =
        AuxStoreInner::open(tempdir.path().to_str().unwrap(), &options, StoreType::Shared).unwrap();
    for n in 1..=20u8 {
        store.put(hgid(n), &entry(n)).unwrap();
        store.flush().unwrap();
    }
    assert_eq!(store.get(hgid(20)).unwrap(), Some(entry(20)));
    assert_eq!(store.get(hgid(1)).unwrap(), None);
}

#[test]
fn test_entry_of_lookup() {
    assert_eq!(entry_of_lookup(None), Ok(None));
    let record = entry(9).serialize(hgid(9));
    assert_eq!(entry_of_lookup(Some(record.clone())), Ok(Some(entry(9))));
    let mut bad = record.clone();
    bad[20] = 3;
    assert_eq!(
        entry_of_lookup(Some(bad)),
        Err(StoreError::Decode(DecodeError::UnsupportedRecordVersion(3)))
    );
    assert_eq!(
        entry_of_lookup(Some(record[..50].to_vec())),
        Err(StoreError::Decode(DecodeError::TruncatedRecord))
    );
}

#[test]
fn test_keys_of_records_skips_what_cannot_be_decoded() {
    let good1 = entry(1).serialize(hgid(1));
    let good2 = entry(2).serialize(hgid(2));
    let mut bad_version = entry(3).serialize(hgid(3));
    bad_version[20] = 1;
    let truncated = good1[..30].to_vec();
    let records = vec![good1, bad_version, truncated, good2, Vec::new()];
    assert_eq!(keys_of_records(&records), vec![hgid(1), hgid(2)]);
    assert_eq!(keys_of_records(&Vec::new()), Vec::<HgId>::new());
    assert_eq!(entries_of_records(&records), vec![(hgid(1), entry(1)), (hgid(2), entry(2))]);
}

#[test]
fn test_scan_gives_entries_oldest_first() {
    let tempdir = TempDir::new().unwrap();
    let mut store = open_shared(&tempdir);
    store.put(hgid(3), &entry(3)).unwrap();
    store.put(hgid(1), &entry(1)).unwrap();
    store.flush().unwrap();
    assert_eq!(store.scan().unwrap(), vec![(hgid(3), entry(3)), (hgid(1), entry(1))]);
}

#[test]
fn test_error_for() {
    assert_eq!(error_for(true), StoreError::CorruptSegment);
    assert_eq!(error_for(false), StoreError::IoFailure);
}
