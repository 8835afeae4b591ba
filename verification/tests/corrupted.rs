use changeset_store::auxstore::AuxStoreInner;
use changeset_store::entry::Entry;
use changeset_store::ids::{ContentId, HgId, Sha1, Sha256};
use changeset_store::options::{open_options, StoreConfig, StoreType};
use tempfile::{NamedTempFile, TempDir};

fn hgid(last: u8) -> HgId {
    let mut bytes = [0u8; 20];
    bytes[19] = last;
    HgId(bytes)
}

fn entry(n: u8) -> Entry {
    let mut sha1 = [0u8; 20];
    sha1[0] = n;
    Entry::new(n as u64, ContentId::default(), Sha1(sha1), Sha256::default())
}

fn open_shared(dir: &TempDir) -> AuxStoreInner {
    let options = open_options(&StoreConfig::new());
    AuxStoreInner::open(dir.path().to_str().unwrap(), &options, StoreType::Shared).unwrap()
}

#[test]
fn test_truncated_segment_is_lost_and_store_still_serves() {
    let tempdir = TempDir::new().unwrap();
    let mut store = open_shared(&tempdir);

    let k = hgid(2);
    let entry2 = entry(2);

    store.put(k, &entry2).unwrap();
    store.flush().unwrap();
    drop(store);

    // Damage the segment by putting an empty file in the place of its "log" file.
    let mut rotate_log_path = tempdir.path().to_path_buf();
    rotate_log_path.push("0");
    rotate_log_path.push("log");
    let empty = NamedTempFile::new_in(tempdir.path()).unwrap();
    empty.persist(rotate_log_path).unwrap();

    let mut store = open_shared(&tempdir);

    let k = hgid(3);
    let entry3 = entry(3);

    store.put(k, &entry3).unwrap();
    store.flush().unwrap();

    // There should be only one key in the store.
    assert_eq!(store.hgids().unwrap().into_iter().count(), 1);
    assert_eq!(store.get(hgid(3)).unwrap(), Some(entry3));
    assert_eq!(store.get(hgid(2)).unwrap(), None);
}
