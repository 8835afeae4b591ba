//! The repository handle and the saving of batches of changesets.
//!
//! A batch is saved in steps: the parents that the batch refers to and does
//! not hold are looked up; the batch is put in topological order; the blobs
//! of all its members are stored; and the rows of its members are appended
//! in that order, so that no row is ever there before the rows of its
//! parents. A batch that fails a check leaves the repository as it was.

use vstd::prelude::*;
use crate::blobstore::{copy_bytes, BlobKey, Blobstore};
use crate::bonsai::{in_batch, is_external_parent, BonsaiChangeset};
use crate::changesets::{
    copy_ids, extends, generation_of, has_all, has_row, lemma_extends_keeps, parents_of, rows_wf,
    ChangesetInsert, Changesets, Row,
};
use crate::ids::{ChangesetId, Generation, RepositoryId};
use crate::save::{
    action_of, plan_fits, BatchSave, SaveAction, SaveError, SaveEvent, SavePhase, SavePlan, SaveState,
};
use crate::topo_sort::{acyclic, comes_before, is_parent_edge, is_topological, occurs};

verus! {

/// Why a lookup in a repository failed.
#[derive(Clone, Copy, Debug, PartialEq, Eq)]
pub enum ErrorKind {
    /// The changeset has no row in the repository.
    BonsaiNotFound(ChangesetId),
}

/// A repository: a blob store and a graph index, both handed in from
/// outside, looked at under one repository id.
pub struct BlobRepo {
    blobstore: Blobstore,
    changesets: Changesets,
    repoid: RepositoryId,
    reponame: String,
}

/// Some parent that the batch refers to and does not hold has no row.
pub open spec fn has_missing_parent(
    rows: Seq<Row>,
    repo: RepositoryId,
    batch: Seq<BonsaiChangeset>,
) -> bool {
    exists|id: ChangesetId| #[trigger] is_external_parent(batch, id) && !has_row(rows, repo, id)
}

/// The batch passes both checks: it will be saved.
pub open spec fn can_save(rows: Seq<Row>, repo: RepositoryId, batch: Seq<BonsaiChangeset>) -> bool {
    !has_missing_parent(rows, repo, batch) && acyclic(batch)
}

/// `row` is the row of a member of the batch that had no row in `before`.
pub open spec fn is_new_row(
    before: Seq<Row>,
    repo: RepositoryId,
    batch: Seq<BonsaiChangeset>,
    row: Row,
) -> bool {
    &&& row.repo_id == repo
    &&& !has_row(before, repo, row.cs_id)
    &&& exists|i: int|
        0 <= i < batch.len() && (#[trigger] batch[i]).id == row.cs_id && batch[i].parents@
            == row.parents
}

/// `after` is `before` with the batch saved: the table is well formed, the
/// old rows are where they were, every member of the batch has a row, and
/// every row that was appended is that of a member which had none.
pub open spec fn saved(
    before: Seq<Row>,
    after: Seq<Row>,
    repo: RepositoryId,
    batch: Seq<BonsaiChangeset>,
) -> bool {
    &&& rows_wf(after)
    &&& extends(after, before)
    &&& forall|i: int| 0 <= i < batch.len() ==> has_row(after, repo, (#[trigger] batch[i]).id)
    &&& forall|k: int|
        before.len() <= k < after.len() ==> is_new_row(before, repo, batch, #[trigger] after[k])
}

/// The blobs after those of the batch were stored, one after the other.
pub open spec fn blobs_after(
    blobs: Map<BlobKey, Seq<u8>>,
    repo: RepositoryId,
    batch: Seq<BonsaiChangeset>,
) -> Map<BlobKey, Seq<u8>>
    decreases batch.len(),
{
    if batch.len() == 0 {
        blobs
    } else {
        blobs_after(blobs, repo, batch.drop_last()).insert(
            BlobKey { repo_id: repo, cs_id: batch.last().id },
            batch.last().content@,
        )
    }
}

impl BlobRepo {
    /// The rows of the graph index.
    pub closed spec fn rows(&self) -> Seq<Row> {
        self.changesets@
    }

    /// The blobs of the blob store.
    pub closed spec fn blobs(&self) -> Map<BlobKey, Seq<u8>> {
        self.blobstore@
    }

    /// The repository id.
    pub closed spec fn repo_id(&self) -> RepositoryId {
        self.repoid
    }

    /// The repository name.
    pub closed spec fn repo_name(&self) -> Seq<char> {
        self.reponame@
    }

    /// The graph index is well formed.
    pub open spec fn wf(&self) -> bool {
        rows_wf(self.rows())
    }

    /// A repository over the given stores.
    pub fn new_dangerous(
        blobstore: Blobstore,
        changesets: Changesets,
        repoid: RepositoryId,
        reponame: String,
    ) -> (repo: BlobRepo)
        ensures
            repo.wf(),
            repo.rows() == changesets@,
            repo.blobs() == blobstore@,
            repo.repo_id() == repoid,
            repo.repo_name() == reponame@,
    {
        proof {
            use_type_invariant(&changesets);
        }
        BlobRepo { blobstore, changesets, repoid, reponame }
    }

    /// Whether the changeset has a row in this repository.
    pub fn changeset_exists_by_bonsai(&self, changesetid: ChangesetId) -> (r: bool)
        ensures
            r == has_row(self.rows(), self.repo_id(), changesetid),
    {
        self.changesets.contains(self.repoid, changesetid)
    }

    /// The parents of the changeset, in order.
    pub fn get_changeset_parents_by_bonsai(&self, changesetid: ChangesetId) -> (r: Result<
        Vec<ChangesetId>,
        ErrorKind,
    >)
        ensures
            match r {
                Ok(parents) => has_row(self.rows(), self.repo_id(), changesetid) && parents@
                    == parents_of(self.rows(), self.repo_id(), changesetid),
                Err(ErrorKind::BonsaiNotFound(id)) => id == changesetid && !has_row(
                    self.rows(),
                    self.repo_id(),
                    changesetid,
                ),
            },
    {
        match self.changesets.get(self.repoid, changesetid) {
            None => Err(ErrorKind::BonsaiNotFound(changesetid)),
            Some(entry) => Ok(entry.parents),
        }
    }

    /// The generation number of the changeset, if it has a row.
    pub fn get_generation_number(&self, cs: ChangesetId) -> (r: Option<Generation>)
        ensures
            r is Some <==> has_row(self.rows(), self.repo_id(), cs),
            r matches Some(g) ==> g.0 == generation_of(self.rows(), self.repo_id(), cs),
    {
        self.changesets.generation(self.repoid, cs)
    }

    /// The blob store.
    pub fn blobstore(&self) -> (store: &Blobstore)
        ensures
            store@ == self.blobs(),
    {
        &self.blobstore
    }

    /// The graph index.
    pub fn get_changesets_object(&self) -> (table: &Changesets)
        ensures
            table@ == self.rows(),
            self.wf(),
    {
        proof {
            use_type_invariant(&self.changesets);
        }
        &self.changesets
    }

    /// The repository id.
    pub fn get_repoid(&self) -> (id: RepositoryId)
        ensures
            id == self.repo_id(),
    {
        self.repoid
    }

    /// The repository name.
    pub fn name(&self) -> (name: &String)
        ensures
            name@ == self.repo_name(),
    {
        &self.reponame
    }
}

/// Stores the blob of one changeset.
pub fn save_bonsai_changeset_object(
    blobstore: &mut Blobstore,
    repoid: RepositoryId,
    bonsai_cs: &BonsaiChangeset,
)
    ensures
        final(blobstore)@ == old(blobstore)@.insert(
            BlobKey { repo_id: repoid, cs_id: bonsai_cs.id },
            bonsai_cs.content@,
        ),
{
    blobstore.put(BlobKey { repo_id: repoid, cs_id: bonsai_cs.id }, copy_bytes(&bonsai_cs.content));
}

/// What holds of the stores while rows are inserted, `at` of them so far:
/// the old rows are where they were, the members that came first in the
/// order have rows, and every row that was appended is that of a member
/// which had none.
pub open spec fn rows_so_far(
    rows_before: Seq<Row>,
    rows: Seq<Row>,
    repo: RepositoryId,
    batch: Seq<BonsaiChangeset>,
    order: Seq<usize>,
    at: int,
) -> bool {
    &&& rows_wf(rows)
    &&& extends(rows, rows_before)
    &&& forall|y: int| 0 <= y < at ==> has_row(rows, repo, batch[#[trigger] order[y] as int].id)
    &&& forall|k: int|
        rows_before.len() <= k < rows.len() ==> is_new_row(
            rows_before,
            repo,
            batch,
            #[trigger] rows[k],
        )
}

/// What holds of the stores in a state of the saving of a batch.
///
/// While parents are looked up, and after a failed check, the stores are as
/// they were. No blob is stored before all parents are found and the batch
/// is known to have no cycle; no row is inserted before all blobs are
/// stored.
pub open spec fn progress(
    rows_before: Seq<Row>,
    blobs_before: Map<BlobKey, Seq<u8>>,
    rows: Seq<Row>,
    blobs: Map<BlobKey, Seq<u8>>,
    repo: RepositoryId,
    batch: Seq<BonsaiChangeset>,
    plan: SavePlan,
    state: SaveState,
) -> bool {
    match state.failure {
        Some(SaveError::MissingParent(id)) => {
            &&& rows == rows_before
            &&& blobs == blobs_before
            &&& is_external_parent(batch, id)
            &&& !has_row(rows_before, repo, id)
        },
        Some(SaveError::CycleDetected) => {
            &&& rows == rows_before
            &&& blobs == blobs_before
            &&& !has_missing_parent(rows_before, repo, batch)
            &&& !acyclic(batch)
        },
        Some(_) => false,
        None => match state.phase {
            SavePhase::Checking => {
                &&& rows == rows_before
                &&& blobs == blobs_before
                &&& forall|x: int|
                    0 <= x < state.at ==> has_row(rows_before, repo, #[trigger] plan.to_check[x])
            },
            SavePhase::Storing => {
                &&& rows == rows_before
                &&& !has_missing_parent(rows_before, repo, batch)
                &&& blobs == blobs_after(blobs_before, repo, batch.subrange(0, state.at as int))
            },
            SavePhase::Inserting => {
                &&& !has_missing_parent(rows_before, repo, batch)
                &&& blobs == blobs_after(blobs_before, repo, batch)
                &&& rows_so_far(rows_before, rows, repo, batch, plan.order->0, state.at as int)
            },
            SavePhase::Finished => {
                &&& !has_missing_parent(rows_before, repo, batch)
                &&& blobs == blobs_after(blobs_before, repo, batch)
                &&& rows_so_far(rows_before, rows, repo, batch, plan.order->0, batch.len() as int)
            },
        },
    }
}

/// An upper bound on the pieces of work that are left in a state.
pub open spec fn work_left(plan: SavePlan, state: SaveState) -> nat {
    if state.failure is Some {
        0
    } else {
        match state.phase {
            SavePhase::Checking => (plan.to_check.len() - state.at + 2 * plan.len + 3) as nat,
            SavePhase::Storing => (plan.len - state.at + plan.len + 2) as nat,
            SavePhase::Inserting => (plan.len - state.at + 1) as nat,
            SavePhase::Finished => 0,
        }
    }
}

/// Saves a batch of changesets.
///
/// Fails with `MissingParent` if and only if a parent that the batch refers
/// to and does not hold has no row, and names such a parent; else fails with
/// `CycleDetected` if and only if the parent edges inside the batch form a
/// cycle. In both cases the repository is left as it was. Otherwise the
/// blobs of all members are stored and their rows appended, parents first; a
/// member that has a row already keeps it.
pub fn save_bonsai_changesets(bonsai_changesets: Vec<BonsaiChangeset>, repo: &mut BlobRepo) -> (r:
    Result<(), SaveError>)
    ensures
        final(repo).wf(),
        final(repo).repo_id() == old(repo).repo_id(),
        final(repo).repo_name() == old(repo).repo_name(),
        r is Ok <==> can_save(old(repo).rows(), old(repo).repo_id(), bonsai_changesets@),
        r matches Err(SaveError::MissingParent(_)) <==> has_missing_parent(
            old(repo).rows(),
            old(repo).repo_id(),
            bonsai_changesets@,
        ),
        match r {
            Ok(()) => {
                &&& saved(
                    old(repo).rows(),
                    final(repo).rows(),
                    old(repo).repo_id(),
                    bonsai_changesets@,
                )
                &&& final(repo).blobs() == blobs_after(
                    old(repo).blobs(),
                    old(repo).repo_id(),
                    bonsai_changesets@,
                )
            },
            Err(SaveError::MissingParent(id)) => {
                &&& is_external_parent(bonsai_changesets@, id)
                &&& !has_row(old(repo).rows(), old(repo).repo_id(), id)
                &&& final(repo).rows() == old(repo).rows()
                &&& final(repo).blobs() == old(repo).blobs()
            },
            Err(SaveError::CycleDetected) => {
                &&& !acyclic(bonsai_changesets@)
                &&& final(repo).rows() == old(repo).rows()
                &&& final(repo).blobs() == old(repo).blobs()
            },
            Err(_) => false,
        },
{
    let repoid = repo.repoid;
    let ghost rows_before = repo.rows();
    let ghost blobs_before = repo.blobs();
    let mut save = BatchSave::begin(&bonsai_changesets);
    let mut action = save.action();
    proof {
        use_type_invariant(&repo.changesets);
        assert(rows_before.subrange(0, rows_before.len() as int) =~= rows_before);
        assert(bonsai_changesets@.subrange(0, 0) =~= Seq::<BonsaiChangeset>::empty());
    }
    loop
        invariant
            rows_wf(rows_before),
            rows_before == old(repo).rows(),
            blobs_before == old(repo).blobs(),
            repoid == repo.repoid,
            repo.repo_id() == old(repo).repo_id(),
            repo.repo_name() == old(repo).repo_name(),
            repo.wf(),
            save.wf(),
            plan_fits(bonsai_changesets@, save.plan()),
            action == action_of(save.plan(), save.state()),
            progress(
                rows_before,
                blobs_before,
                repo.rows(),
                repo.blobs(),
                repoid,
                bonsai_changesets@,
                save.plan(),
                save.state(),
            ),
        decreases work_left(save.plan(), save.state()),
    {
        let ghost plan = save.plan();
        let ghost state = save.state();
        let ghost rows_now = repo.rows();
        proof {
            assert(rows_before.subrange(0, rows_before.len() as int) =~= rows_before);
            assert(bonsai_changesets@.subrange(0, 0) =~= Seq::<BonsaiChangeset>::empty());
            assert(bonsai_changesets@.len() == bonsai_changesets.len());
        }
        let event = match action {
            SaveAction::Finished => {
                proof {
                    lemma_all_members_saved(
                        rows_before,
                        rows_now,
                        repoid,
                        bonsai_changesets@,
                        plan.order->0,
                    );
                }
                return Ok(());
            },
            SaveAction::Failed(e) => {
                proof {
                    if e is MissingParent {
                        assert(has_missing_parent(rows_before, repoid, bonsai_changesets@));
                    }
                }
                return Err(e);
            },
            SaveAction::CheckParent(id) => {
                if repo.changesets.contains(repoid, id) {
                    proof {
                        lemma_parents_found(
                            rows_before,
                            repoid,
                            bonsai_changesets@,
                            plan,
                            state.at as int,
                        );
                    }
                    SaveEvent::Done
                } else {
                    assert(plan.to_check.contains(plan.to_check[state.at as int]));
                    SaveEvent::Missing
                }
            },
            SaveAction::StoreBlob(member) => {
                let ghost done = bonsai_changesets@.subrange(0, member as int);
                save_bonsai_changeset_object(
                    &mut repo.blobstore,
                    repoid,
                    &bonsai_changesets[member],
                );
                proof {
                    assert(member == state.at);
                    let next = bonsai_changesets@.subrange(0, member + 1);
                    assert(next.drop_last() =~= done);
                    assert(next.last() == bonsai_changesets@[member as int]);
                    assert(bonsai_changesets@.subrange(0, bonsai_changesets@.len() as int)
                        =~= bonsai_changesets@);
                }
                SaveEvent::Done
            },
            SaveAction::InsertRow(member) => {
                let cs = &bonsai_changesets[member];
                let parents = copy_ids(&cs.parents);
                proof {
                    if !has_row(rows_now, repoid, cs.id) {
                        lemma_parents_saved(
                            rows_before,
                            rows_now,
                            repoid,
                            bonsai_changesets@,
                            plan.order->0,
                            state.at as int,
                        );
                    }
                }
                let added = repo.changesets.add(
                    ChangesetInsert { repo_id: repoid, cs_id: cs.id, parents },
                );
                assert(added is Ok);
                proof {
                    assert(member == plan.order->0[state.at as int]);
                    assert(repo.blobs() == blobs_after(blobs_before, repoid, bonsai_changesets@));
                    lemma_row_inserted(
                        rows_before,
                        rows_now,
                        repo.rows(),
                        repoid,
                        bonsai_changesets@,
                        plan.order->0,
                        state.at as int,
                    );
                }
                SaveEvent::Done
            },
        };
        action = save.advance(event);
    }
}

/// Once every parent to look up was found, no parent is missing.
proof fn lemma_parents_found(
    rows: Seq<Row>,
    repo: RepositoryId,
    batch: Seq<BonsaiChangeset>,
    plan: SavePlan,
    at: int,
)
    requires
        plan_fits(batch, plan),
        0 <= at < plan.to_check.len(),
        forall|x: int| 0 <= x <= at ==> has_row(rows, repo, #[trigger] plan.to_check[x]),
    ensures
        at + 1 == plan.to_check.len() ==> !has_missing_parent(rows, repo, batch),
{
    if at + 1 == plan.to_check.len() {
        assert forall|id: ChangesetId| #[trigger] is_external_parent(batch, id) implies has_row(
            rows,
            repo,
            id,
        ) by {
            assert(plan.to_check.contains(id));
            let x = choose|x: int| 0 <= x < plan.to_check.len() && plan.to_check[x] == id;
            assert(has_row(rows, repo, plan.to_check[x]));
        }
    }
}

/// Inserting the row of the member at position `at` of the order, or
/// finding it there, keeps what holds while rows are inserted.
proof fn lemma_row_inserted(
    rows_before: Seq<Row>,
    rows_now: Seq<Row>,
    rows_next: Seq<Row>,
    repo: RepositoryId,
    batch: Seq<BonsaiChangeset>,
    order: Seq<usize>,
    at: int,
)
    requires
        is_topological(batch, order),
        0 <= at < order.len(),
        rows_so_far(rows_before, rows_now, repo, batch, order, at),
        rows_wf(rows_next),
        extends(rows_next, rows_now),
        has_row(rows_now, repo, batch[order[at] as int].id) ==> rows_next == rows_now,
        !has_row(rows_now, repo, batch[order[at] as int].id) ==> rows_next.len() == rows_now.len()
            + 1 && rows_next.last().repo_id == repo && rows_next.last().cs_id
            == batch[order[at] as int].id && rows_next.last().parents
            == batch[order[at] as int].parents@,
    ensures
        rows_so_far(rows_before, rows_next, repo, batch, order, at + 1),
{
    let member = order[at] as int;
    let id = batch[member].id;
    lemma_extends_trans(rows_next, rows_now, rows_before);
    assert forall|y: int| 0 <= y < at + 1 implies has_row(
        rows_next,
        repo,
        batch[#[trigger] order[y] as int].id,
    ) by {
        if y < at {
            lemma_extends_keeps(rows_next, rows_now, repo, batch[order[y] as int].id);
        } else if has_row(rows_now, repo, id) {
        } else {
            assert(crate::changesets::row_is(rows_next, rows_now.len() as int, repo, id));
        }
    }
    assert forall|k: int| rows_before.len() <= k < rows_next.len() implies is_new_row(
        rows_before,
        repo,
        batch,
        #[trigger] rows_next[k],
    ) by {
        if k < rows_now.len() {
            assert(rows_next[k] == rows_next.subrange(0, rows_now.len() as int)[k]);
            assert(is_new_row(rows_before, repo, batch, rows_now[k]));
        } else {
            if has_row(rows_before, repo, id) {
                lemma_extends_keeps(rows_now, rows_before, repo, id);
            }
            assert(batch[member].id == id);
        }
    }
}

/// Once the rows of all members of the order are inserted, the batch is
/// saved.
proof fn lemma_all_members_saved(
    rows_before: Seq<Row>,
    rows: Seq<Row>,
    repo: RepositoryId,
    batch: Seq<BonsaiChangeset>,
    order: Seq<usize>,
)
    requires
        is_topological(batch, order),
        rows_so_far(rows_before, rows, repo, batch, order, batch.len() as int),
    ensures
        saved(rows_before, rows, repo, batch),
{
    assert forall|m: int| 0 <= m < batch.len() implies has_row(
        rows,
        repo,
        (#[trigger] batch[m]).id,
    ) by {
        assert(occurs(order, m));
        let y = choose|y: int| 0 <= y < order.len() && y < order.len() && #[trigger] order[y] == m;
        assert(has_row(rows, repo, batch[order[y] as int].id));
    }
}

/// `extends` is transitive.
pub proof fn lemma_extends_trans(c: Seq<Row>, b: Seq<Row>, a: Seq<Row>)
    requires
        extends(c, b),
        extends(b, a),
    ensures
        extends(c, a),
{
    assert(c.subrange(0, a.len() as int) =~= a) by {
        assert forall|k: int| 0 <= k < a.len() implies c[k] == a[k] by {
            assert(c[k] == c.subrange(0, b.len() as int)[k]);
            assert(b[k] == b.subrange(0, a.len() as int)[k]);
        }
    }
}

/// When the members before position `x` of a topological order have rows,
/// and so has every parent from outside the batch, then all parents of the
/// member at position `x` have rows.
proof fn lemma_parents_saved(
    rows_before: Seq<Row>,
    rows_now: Seq<Row>,
    repo: RepositoryId,
    batch: Seq<BonsaiChangeset>,
    order: Seq<usize>,
    x: int,
)
    requires
        rows_wf(rows_now),
        extends(rows_now, rows_before),
        is_topological(batch, order),
        !has_missing_parent(rows_before, repo, batch),
        0 <= x < order.len(),
        forall|y: int| 0 <= y < x ==> has_row(rows_now, repo, batch[#[trigger] order[y] as int].id),
    ensures
        has_all(rows_now, repo, batch[order[x] as int].parents@),
{
    let member = order[x] as int;
    let parents = batch[member].parents@;
    assert forall|p: int| 0 <= p < parents.len() implies has_row(
        rows_now,
        repo,
        #[trigger] parents[p],
    ) by {
        let id = parents[p];
        assert(parents.contains(id));
        if in_batch(batch, id) {
            let j = choose|j: int| 0 <= j < batch.len() && (#[trigger] batch[j]).id == id;
            assert(is_parent_edge(batch, j, member));
            assert(comes_before(order, j, x));
            let y = choose|y: int| 0 <= y < x && y < order.len() && #[trigger] order[y] == j;
            assert(has_row(rows_now, repo, batch[order[y] as int].id));
        } else {
            assert(crate::bonsai::names_parent(batch, member, id));
            assert(is_external_parent(batch, id));
            assert(has_row(rows_before, repo, id));
            lemma_extends_keeps(rows_now, rows_before, repo, id);
        }
    }
}

/// A batch that was saved can be saved again, and saving it again appends
/// no row and changes none.
pub proof fn lemma_retry_changes_nothing(
    before: Seq<Row>,
    after: Seq<Row>,
    again: Seq<Row>,
    repo: RepositoryId,
    batch: Seq<BonsaiChangeset>,
)
    requires
        can_save(before, repo, batch),
        saved(before, after, repo, batch),
        saved(after, again, repo, batch),
    ensures
        can_save(after, repo, batch),
        again == after,
{
    assert forall|id: ChangesetId| #[trigger] is_external_parent(batch, id) implies has_row(
        after,
        repo,
        id,
    ) by {
        assert(has_row(before, repo, id));
        lemma_extends_keeps(after, before, repo, id);
    }
    if again.len() > after.len() {
        let row = again[after.len() as int];
        assert(is_new_row(after, repo, batch, row));
        let i = choose|i: int|
            0 <= i < batch.len() && (#[trigger] batch[i]).id == row.cs_id && batch[i].parents@
                == row.parents;
        assert(has_row(after, repo, batch[i].id));
    }
    assert(again.subrange(0, again.len() as int) =~= again);
}

/// A batch whose rows were inserted in part can be saved again, and saving
/// it again leaves the repository as if the batch had been saved at once.
pub proof fn lemma_retry_completes_partial_save(
    before: Seq<Row>,
    partial: Seq<Row>,
    after: Seq<Row>,
    repo: RepositoryId,
    batch: Seq<BonsaiChangeset>,
    order: Seq<usize>,
    at: int,
)
    requires
        can_save(before, repo, batch),
        rows_so_far(before, partial, repo, batch, order, at),
        saved(partial, after, repo, batch),
    ensures
        can_save(partial, repo, batch),
        saved(before, after, repo, batch),
{
    assert forall|id: ChangesetId| #[trigger] is_external_parent(batch, id) implies has_row(
        partial,
        repo,
        id,
    ) by {
        assert(has_row(before, repo, id));
        lemma_extends_keeps(partial, before, repo, id);
    }
    lemma_extends_trans(after, partial, before);
    assert forall|k: int| before.len() <= k < after.len() implies is_new_row(
        before,
        repo,
        batch,
        #[trigger] after[k],
    ) by {
        if k < partial.len() {
            assert(after[k] == after.subrange(0, partial.len() as int)[k]);
            assert(is_new_row(before, repo, batch, partial[k]));
        } else {
            assert(is_new_row(partial, repo, batch, after[k]));
            if has_row(before, repo, after[k].cs_id) {
                lemma_extends_keeps(partial, before, repo, after[k].cs_id);
            }
        }
    }
}

/// The content of the last member of the batch with the id `id`.
pub open spec fn last_content(batch: Seq<BonsaiChangeset>, id: ChangesetId) -> Seq<u8>
    decreases batch.len(),
{
    if batch.len() == 0 {
        Seq::empty()
    } else if batch.last().id == id {
        batch.last().content@
    } else {
        last_content(batch.drop_last(), id)
    }
}

/// What storing the blobs of a batch does: a key of the repository whose id
/// is that of a member holds the content of the last such member; every
/// other key holds what it held.
pub proof fn lemma_blobs_after(
    blobs: Map<BlobKey, Seq<u8>>,
    repo: RepositoryId,
    batch: Seq<BonsaiChangeset>,
    key: BlobKey,
)
    ensures
        key.repo_id == repo && in_batch(batch, key.cs_id) ==> blobs_after(
            blobs,
            repo,
            batch,
        ).contains_key(key) && blobs_after(blobs, repo, batch)[key] == last_content(
            batch,
            key.cs_id,
        ),
        !(key.repo_id == repo && in_batch(batch, key.cs_id)) ==> (blobs_after(
            blobs,
            repo,
            batch,
        ).contains_key(key) <==> blobs.contains_key(key)),
        !(key.repo_id == repo && in_batch(batch, key.cs_id)) && blobs.contains_key(key)
            ==> blobs_after(blobs, repo, batch)[key] == blobs[key],
    decreases batch.len(),
{
    if batch.len() > 0 {
        let rest = batch.drop_last();
        lemma_blobs_after(blobs, repo, rest, key);
        let last_key = BlobKey { repo_id: repo, cs_id: batch.last().id };
        if key.repo_id == repo && in_batch(batch, key.cs_id) {
            if batch.last().id != key.cs_id {
                assert(key != last_key);
                let j = choose|j: int| 0 <= j < batch.len() && (#[trigger] batch[j]).id == key.cs_id;
                assert(rest[j].id == key.cs_id);
                assert(in_batch(rest, key.cs_id));
            } else {
                assert(key == last_key);
            }
        } else {
            assert(batch[batch.len() - 1].id == batch.last().id);
            if key.repo_id == repo {
                assert(batch.last().id != key.cs_id);
            }
            assert(key != last_key);
            if in_batch(rest, key.cs_id) {
                let j = choose|j: int| 0 <= j < rest.len() && (#[trigger] rest[j]).id == key.cs_id;
                assert(batch[j].id == key.cs_id);
            }
        }
    }
}

/// Storing the blobs of a batch a second time changes nothing.
pub proof fn lemma_blobs_after_idempotent(
    blobs: Map<BlobKey, Seq<u8>>,
    repo: RepositoryId,
    batch: Seq<BonsaiChangeset>,
)
    ensures
        blobs_after(blobs_after(blobs, repo, batch), repo, batch) == blobs_after(
            blobs,
            repo,
            batch,
        ),
{
    let once = blobs_after(blobs, repo, batch);
    let twice = blobs_after(once, repo, batch);
    assert forall|key: BlobKey| once.contains_key(key) <==> twice.contains_key(key) by {
        lemma_blobs_after(blobs, repo, batch, key);
        lemma_blobs_after(once, repo, batch, key);
    }
    assert forall|key: BlobKey| once.contains_key(key) implies once[key] == twice[key] by {
        lemma_blobs_after(blobs, repo, batch, key);
        lemma_blobs_after(once, repo, batch, key);
    }
    assert(once =~= twice);
}

} // verus!
