use changeset_store::blobstore::{BlobKey, Blobstore};
use changeset_store::bonsai::{batch_has, contains_id, parents_to_check, BonsaiChangeset};
use changeset_store::changesets::{ChangesetEntry, ChangesetInsert, Changesets, ChangesetsError};
use changeset_store::ids::{ChangesetId, Generation, RepositoryId};
use changeset_store::repo::{
    save_bonsai_changeset_object, save_bonsai_changesets, BlobRepo, ErrorKind,
};
use changeset_store::save::SaveError;
use changeset_store::topo_sort::sort_topological;

fn id(n: u8) -> ChangesetId {
    let mut bytes = [0u8; 32];
    bytes[0] = n;
    bytes[31] = n.wrapping_mul(7);
    ChangesetId(bytes)
}

fn cs(n: u8, parents: &[u8]) -> BonsaiChangeset {
    BonsaiChangeset::new(id(n), parents.iter().map(|p| id(*p)).collect(), vec![n, n, n])
}

fn empty_repo(repo: i32) -> BlobRepo {
    BlobRepo::new_dangerous(Blobstore::new(), Changesets::new(), RepositoryId(repo), "repo".to_string())
}

fn row_ids(repo: &BlobRepo) -> Vec<ChangesetId> {
    let table = repo.get_changesets_object();
    let mut found = Vec::new();
    for n in 0..=255u8 {
        if table.contains(repo.get_repoid(), id(n)) {
            found.push(id(n));
        }
    }
    found
}

#[test]
fn test_batch_with_merge_is_saved_in_order() {
    let mut repo = empty_repo(0);
    let batch = vec![cs(1, &[]), cs(2, &[1]), cs(3, &[1, 2])];
    assert_eq!(save_bonsai_changesets(batch, &mut repo), Ok(()));
    assert_eq!(repo.get_generation_number(id(1)), Some(Generation(0)));
    assert_eq!(repo.get_generation_number(id(2)), Some(Generation(1)));
    assert_eq!(repo.get_generation_number(id(3)), Some(Generation(2)));
    let table = repo.get_changesets_object();
    assert_eq!(table.len(), 3);
    assert!(repo.changeset_exists_by_bonsai(id(1)));
    assert!(repo.changeset_exists_by_bonsai(id(2)));
    assert!(repo.changeset_exists_by_bonsai(id(3)));
    assert_eq!(repo.get_changeset_parents_by_bonsai(id(3)), Ok(vec![id(1), id(2)]));
    assert_eq!(repo.get_changeset_parents_by_bonsai(id(1)), Ok(vec![]));
}

#[test]
fn test_batch_given_children_first_is_saved_parents_first() {
    let mut repo = empty_repo(0);
    let batch = vec![cs(3, &[1, 2]), cs(2, &[1]), cs(1, &[])];
    assert_eq!(sort_topological(&batch), Some(vec![2, 1, 0]));
    assert_eq!(save_bonsai_changesets(batch, &mut repo), Ok(()));
    assert_eq!(repo.get_generation_number(id(1)), Some(Generation(0)));
    assert_eq!(repo.get_generation_number(id(2)), Some(Generation(1)));
    assert_eq!(repo.get_generation_number(id(3)), Some(Generation(2)));
}

#[test]
fn test_every_saved_id_exists() {
    let mut repo = empty_repo(4);
    assert_eq!(save_bonsai_changesets(vec![cs(10, &[]), cs(11, &[])], &mut repo), Ok(()));
    let batch = vec![cs(20, &[10]), cs(21, &[20, 11]), cs(22, &[21]), cs(23, &[])];
    assert_eq!(save_bonsai_changesets(batch.clone(), &mut repo), Ok(()));
    for member in &batch {
        assert!(repo.changeset_exists_by_bonsai(member.get_changeset_id()));
        assert_eq!(
            repo.blobstore().get(BlobKey { repo_id: RepositoryId(4), cs_id: member.id }),
            Some(member.content.clone())
        );
    }
    assert_eq!(repo.get_generation_number(id(20)), Some(Generation(1)));
    assert_eq!(repo.get_generation_number(id(21)), Some(Generation(2)));
    assert_eq!(repo.get_generation_number(id(22)), Some(Generation(3)));
    assert_eq!(repo.get_generation_number(id(23)), Some(Generation(0)));
}

#[test]
fn test_missing_parent_rejects_batch_and_changes_nothing() {
    let mut repo = empty_repo(0);
    assert_eq!(save_bonsai_changesets(vec![cs(1, &[])], &mut repo), Ok(()));
    let batch = vec![cs(2, &[1]), cs(3, &[2, 9]), cs(4, &[3])];
    assert_eq!(
        save_bonsai_changesets(batch, &mut repo),
        Err(SaveError::MissingParent(id(9)))
    );
    assert_eq!(row_ids(&repo), vec![id(1)]);
    assert!(!repo.changeset_exists_by_bonsai(id(2)));
    assert!(!repo.changeset_exists_by_bonsai(id(3)));
    assert!(!repo.changeset_exists_by_bonsai(id(4)));
    assert_eq!(repo.blobstore().get(BlobKey { repo_id: RepositoryId(0), cs_id: id(2) }), None);
    assert_eq!(repo.get_changesets_object().len(), 1);
}

#[test]
fn test_reported_missing_parent_is_missing() {
    let mut repo = empty_repo(0);
    assert_eq!(save_bonsai_changesets(vec![cs(1, &[])], &mut repo), Ok(()));
    let batch = vec![cs(2, &[1, 7]), cs(3, &[8])];
    match save_bonsai_changesets(batch, &mut repo) {
        Err(SaveError::MissingParent(p)) => {
            assert!(p == id(7) || p == id(8));
            assert!(!repo.changeset_exists_by_bonsai(p));
        }
        other => panic!("unexpected result {:?}", other),
    }
}

#[test]
fn test_parent_in_other_repository_is_missing() {
    let mut table = Changesets::new();
    assert_eq!(
        table.add(ChangesetInsert { repo_id: RepositoryId(1), cs_id: id(1), parents: vec![] }),
        Ok(true)
    );
    let mut repo =
        BlobRepo::new_dangerous(Blobstore::new(), table, RepositoryId(2), "two".to_string());
    assert_eq!(
        save_bonsai_changesets(vec![cs(2, &[1])], &mut repo),
        Err(SaveError::MissingParent(id(1)))
    );
    assert_eq!(repo.get_changesets_object().len(), 1);
    assert!(!repo.changeset_exists_by_bonsai(id(1)));
}

#[test]
fn test_retry_of_saved_batch_changes_nothing() {
    let mut repo = empty_repo(0);
    let batch = vec![cs(1, &[]), cs(2, &[1]), cs(3, &[1, 2])];
    assert_eq!(save_bonsai_changesets(batch.clone(), &mut repo), Ok(()));
    let rows_before = repo.get_changesets_object().len();
    assert_eq!(save_bonsai_changesets(batch.clone(), &mut repo), Ok(()));
    assert_eq!(repo.get_changesets_object().len(), rows_before);
    assert_eq!(repo.get_generation_number(id(1)), Some(Generation(0)));
    assert_eq!(repo.get_generation_number(id(2)), Some(Generation(1)));
    assert_eq!(repo.get_generation_number(id(3)), Some(Generation(2)));
    assert_eq!(repo.get_changeset_parents_by_bonsai(id(3)), Ok(vec![id(1), id(2)]));
    for member in &batch {
        assert_eq!(
            repo.blobstore().get(BlobKey { repo_id: RepositoryId(0), cs_id: member.id }),
            Some(member.content.clone())
        );
    }
}

#[test]
fn test_batch_that_overlaps_saved_rows() {
    let mut repo = empty_repo(0);
    assert_eq!(save_bonsai_changesets(vec![cs(1, &[]), cs(2, &[1])], &mut repo), Ok(()));
    assert_eq!(
        save_bonsai_changesets(vec![cs(2, &[1]), cs(3, &[2]), cs(1, &[])], &mut repo),
        Ok(())
    );
    assert_eq!(repo.get_changesets_object().len(), 3);
    assert_eq!(repo.get_generation_number(id(3)), Some(Generation(2)));
}

#[test]
fn test_cycle_is_detected_and_changes_nothing() {
    let mut repo = empty_repo(0);
    assert_eq!(save_bonsai_changesets(vec![cs(1, &[])], &mut repo), Ok(()));
    let batch = vec![cs(2, &[1, 4]), cs(3, &[2]), cs(4, &[3])];
    assert_eq!(sort_topological(&batch), None);
    assert_eq!(save_bonsai_changesets(batch, &mut repo), Err(SaveError::CycleDetected));
    assert_eq!(row_ids(&repo), vec![id(1)]);
    assert_eq!(repo.blobstore().get(BlobKey { repo_id: RepositoryId(0), cs_id: id(2) }), None);
}

#[test]
fn test_changeset_that_is_its_own_parent_is_a_cycle() {
    let mut repo = empty_repo(0);
    assert_eq!(
        save_bonsai_changesets(vec![cs(1, &[1])], &mut repo),
        Err(SaveError::CycleDetected)
    );
    assert_eq!(repo.get_changesets_object().len(), 0);
}

#[test]
fn test_missing_parent_is_reported_before_cycle() {
    let mut repo = empty_repo(0);
    let batch = vec![cs(2, &[3, 9]), cs(3, &[2])];
    assert_eq!(
        save_bonsai_changesets(batch, &mut repo),
        Err(SaveError::MissingParent(id(9)))
    );
}

#[test]
fn test_empty_batch() {
    let mut repo = empty_repo(0);
    assert_eq!(save_bonsai_changesets(Vec::new(), &mut repo), Ok(()));
    assert_eq!(repo.get_changesets_object().len(), 0);
    assert_eq!(sort_topological(&Vec::new()), Some(vec![]));
}

#[test]
fn test_batch_with_a_member_twice() {
    let mut repo = empty_repo(0);
    let batch = vec![cs(1, &[]), cs(2, &[1]), cs(1, &[])];
    assert_eq!(save_bonsai_changesets(batch, &mut repo), Ok(()));
    assert_eq!(repo.get_changesets_object().len(), 2);
    assert_eq!(repo.get_generation_number(id(2)), Some(Generation(1)));
}

#[test]
fn test_lookups_of_unknown_changeset() {
    let repo = empty_repo(3);
    assert!(!repo.changeset_exists_by_bonsai(id(1)));
    assert_eq!(
        repo.get_changeset_parents_by_bonsai(id(1)),
        Err(ErrorKind::BonsaiNotFound(id(1)))
    );
    assert_eq!(repo.get_generation_number(id(1)), None);
    assert_eq!(repo.get_repoid(), RepositoryId(3));
    assert_eq!(repo.name(), "repo");
}

#[test]
fn test_parents_to_check() {
    let batch = vec![cs(1, &[5]), cs(2, &[1, 6, 5]), cs(3, &[2, 7, 6])];
    assert_eq!(parents_to_check(&batch), vec![id(5), id(6), id(7)]);
    assert_eq!(parents_to_check(&vec![cs(1, &[]), cs(2, &[1])]), Vec::<ChangesetId>::new());
    assert!(batch_has(&batch, &id(2)));
    assert!(!batch_has(&batch, &id(5)));
    assert!(contains_id(&batch[1].parents, &id(6)));
    assert!(!contains_id(&batch[1].parents, &id(7)));
    assert_eq!(batch[1].parents(), vec![id(1), id(6), id(5)]);
}

#[test]
fn test_sort_topological_orders() {
    let batch = vec![cs(4, &[2, 3]), cs(2, &[1]), cs(3, &[1]), cs(1, &[9])];
    let order = sort_topological(&batch).unwrap();
    assert_eq!(order.len(), 4);
    let position = |member: usize| order.iter().position(|m| *m == member).unwrap();
    assert!(position(3) < position(1));
    assert!(position(3) < position(2));
    assert!(position(1) < position(0));
    assert!(position(2) < position(0));
    assert_eq!(sort_topological(&vec![cs(1, &[2]), cs(2, &[1])]), None);
    assert_eq!(sort_topological(&vec![cs(1, &[7]), cs(2, &[8])]), Some(vec![0, 1]));
}

#[test]
fn test_changesets_add_and_get() {
    let mut table = Changesets::new();
    let repo = RepositoryId(1);
    assert_eq!(
        table.add(ChangesetInsert { repo_id: repo, cs_id: id(1), parents: vec![] }),
        Ok(true)
    );
    assert_eq!(
        table.add(ChangesetInsert { repo_id: repo, cs_id: id(2), parents: vec![id(1)] }),
        Ok(true)
    );
    assert_eq!(
        table.add(ChangesetInsert { repo_id: repo, cs_id: id(2), parents: vec![id(1)] }),
        Ok(false)
    );
    assert_eq!(
        table.add(ChangesetInsert { repo_id: repo, cs_id: id(3), parents: vec![id(2), id(8)] }),
        Err(ChangesetsError::MissingParent(id(8)))
    );
    assert_eq!(table.len(), 2);
    assert_eq!(
        table.get(repo, id(2)),
        Some(ChangesetEntry { repo_id: repo, cs_id: id(2), parents: vec![id(1)], gen: 1 })
    );
    assert_eq!(table.get(repo, id(3)), None);
    assert_eq!(table.get(RepositoryId(2), id(2)), None);
    assert!(table.contains(repo, id(1)));
    assert!(!table.contains(RepositoryId(2), id(1)));
    assert_eq!(table.generation(repo, id(2)), Some(Generation::new(1)));
    assert_eq!(table.generation(repo, id(9)), None);
    assert_eq!(Generation::new(5).value(), 5);
}

#[test]
fn test_changesets_generation_is_longest_chain() {
    let mut table = Changesets::new();
    let repo = RepositoryId(0);
    for (n, parents) in [(1u8, vec![]), (2, vec![1]), (3, vec![2]), (4, vec![3]), (5, vec![1, 4]), (6, vec![5, 1])] {
        let parents: Vec<ChangesetId> = parents.into_iter().map(id).collect();
        assert_eq!(table.add(ChangesetInsert { repo_id: repo, cs_id: id(n), parents }), Ok(true));
    }
    assert_eq!(table.generation(repo, id(4)), Some(Generation(3)));
    assert_eq!(table.generation(repo, id(5)), Some(Generation(4)));
    assert_eq!(table.generation(repo, id(6)), Some(Generation(5)));
}

#[test]
fn test_same_changeset_in_two_repositories() {
    let mut table = Changesets::new();
    assert_eq!(
        table.add(ChangesetInsert { repo_id: RepositoryId(1), cs_id: id(1), parents: vec![] }),
        Ok(true)
    );
    assert_eq!(
        table.add(ChangesetInsert { repo_id: RepositoryId(2), cs_id: id(1), parents: vec![] }),
        Ok(true)
    );
    assert_eq!(table.len(), 2);
}

#[test]
fn test_blobstore_put_get() {
    let mut store = Blobstore::new();
    let key = BlobKey { repo_id: RepositoryId(1), cs_id: id(1) };
    let other = BlobKey { repo_id: RepositoryId(2), cs_id: id(1) };
    assert_eq!(store.get(key), None);
    assert!(!store.is_present(key));
    store.put(key, vec![1, 2, 3]);
    assert_eq!(store.get(key), Some(vec![1, 2, 3]));
    assert_eq!(store.get(other), None);
    store.put(key, vec![1, 2, 3]);
    assert_eq!(store.get(key), Some(vec![1, 2, 3]));
    store.put(other, vec![]);
    assert_eq!(store.get(other), Some(vec![]));
    store.put(key, vec![4]);
    assert_eq!(store.get(key), Some(vec![4]));
    assert!(store.is_present(key));
}

#[test]
fn test_save_bonsai_changeset_object() {
    let mut store = Blobstore::new();
    save_bonsai_changeset_object(&mut store, RepositoryId(3), &cs(5, &[1]));
    assert_eq!(
        store.get(BlobKey { repo_id: RepositoryId(3), cs_id: id(5) }),
        Some(vec![5, 5, 5])
    );
    assert_eq!(store.get(BlobKey { repo_id: RepositoryId(3), cs_id: id(1) }), None);
}
