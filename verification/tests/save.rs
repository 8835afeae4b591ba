use changeset_store::bonsai::BonsaiChangeset;
use changeset_store::ids::ChangesetId;
use changeset_store::save::{BatchSave, SaveAction, SaveError, SaveEvent};

fn id(n: u8) -> ChangesetId {
    let mut bytes = [0u8; 32];
    bytes[0] = n;
    ChangesetId(bytes)
}

fn cs(n: u8, parents: &[u8]) -> BonsaiChangeset {
    BonsaiChangeset::new(id(n), parents.iter().map(|p| id(*p)).collect(), vec![n])
}

fn run(batch: &Vec<BonsaiChangeset>, events: &[SaveEvent]) -> Vec<SaveAction> {
    let mut save = BatchSave::begin(batch);
    let mut actions = vec![save.action()];
    for event in events {
        actions.push(save.advance(*event));
    }
    actions
}

#[test]
fn test_actions_of_a_batch_that_is_saved() {
    let batch = vec![cs(3, &[1, 2, 9]), cs(2, &[1, 8]), cs(1, &[])];
    let actions = run(&batch, &[SaveEvent::Done; 8]);
    assert_eq!(
        actions,
        vec![
            SaveAction::CheckParent(id(9)),
            SaveAction::CheckParent(id(8)),
            SaveAction::StoreBlob(0),
            SaveAction::StoreBlob(1),
            SaveAction::StoreBlob(2),
            SaveAction::InsertRow(2),
            SaveAction::InsertRow(1),
            SaveAction::InsertRow(0),
            SaveAction::Finished,
        ]
    );
}

#[test]
fn test_finished_stays_finished() {
    let batch = vec![cs(1, &[])];
    let actions = run(&batch, &[SaveEvent::Done, SaveEvent::Done, SaveEvent::Error, SaveEvent::Missing]);
    assert_eq!(
        actions,
        vec![
            SaveAction::StoreBlob(0),
            SaveAction::InsertRow(0),
            SaveAction::Finished,
            SaveAction::Finished,
            SaveAction::Finished,
        ]
    );
}

#[test]
fn test_empty_batch_is_finished_at_once() {
    assert_eq!(run(&Vec::new(), &[]), vec![SaveAction::Finished]);
}

#[test]
fn test_missing_parent_ends_the_work_before_anything_is_stored() {
    let batch = vec![cs(2, &[7]), cs(3, &[2, 8])];
    let actions = run(&batch, &[SaveEvent::Done, SaveEvent::Missing, SaveEvent::Done]);
    assert_eq!(
        actions,
        vec![
            SaveAction::CheckParent(id(7)),
            SaveAction::CheckParent(id(8)),
            SaveAction::Failed(SaveError::MissingParent(id(8))),
            SaveAction::Failed(SaveError::MissingParent(id(8))),
        ]
    );
}

#[test]
fn test_cycle_ends_the_work_after_the_parents_are_found() {
    let batch = vec![cs(2, &[3, 7]), cs(3, &[2])];
    assert_eq!(
        run(&batch, &[SaveEvent::Done, SaveEvent::Done]),
        vec![
            SaveAction::CheckParent(id(7)),
            SaveAction::Failed(SaveError::CycleDetected),
            SaveAction::Failed(SaveError::CycleDetected),
        ]
    );
    assert_eq!(
        run(&vec![cs(1, &[1])], &[]),
        vec![SaveAction::Failed(SaveError::CycleDetected)]
    );
}

#[test]
fn test_failed_lookup_is_an_io_failure() {
    let batch = vec![cs(2, &[7])];
    assert_eq!(
        run(&batch, &[SaveEvent::Error]),
        vec![SaveAction::CheckParent(id(7)), SaveAction::Failed(SaveError::IoFailure)]
    );
}

#[test]
fn test_failed_blob_write() {
    let batch = vec![cs(1, &[]), cs(2, &[1])];
    assert_eq!(
        run(&batch, &[SaveEvent::Done, SaveEvent::Error, SaveEvent::Done]),
        vec![
            SaveAction::StoreBlob(0),
            SaveAction::StoreBlob(1),
            SaveAction::Failed(SaveError::BlobWriteFailure),
            SaveAction::Failed(SaveError::BlobWriteFailure),
        ]
    );
    assert_eq!(
        run(&batch, &[SaveEvent::Missing]),
        vec![SaveAction::StoreBlob(0), SaveAction::Failed(SaveError::BlobWriteFailure)]
    );
}

#[test]
fn test_failed_insert_leaves_parents_first_prefix() {
    let batch = vec![cs(3, &[2]), cs(2, &[1]), cs(1, &[])];
    let events = [
        SaveEvent::Done,
        SaveEvent::Done,
        SaveEvent::Done,
        SaveEvent::Done,
        SaveEvent::Error,
    ];
    assert_eq!(
        run(&batch, &events),
        vec![
            SaveAction::StoreBlob(0),
            SaveAction::StoreBlob(1),
            SaveAction::StoreBlob(2),
            SaveAction::InsertRow(2),
            SaveAction::InsertRow(1),
            SaveAction::Failed(SaveError::IoFailure),
        ]
    );
}
