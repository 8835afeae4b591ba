//! The changeset graph index: one row per changeset of a repository, with
//! its parents and its generation number.
//!
//! Rows are only ever appended, and a row is appended only when the rows of
//! all its parents are there already, so every prefix of the table is closed
//! under parents.

use vstd::prelude::*;
use crate::ids::{ChangesetId, Generation, RepositoryId};

verus! {

/// A request to record a changeset with its parents.
#[derive(Clone, Debug, PartialEq, Eq)]
pub struct ChangesetInsert {
    pub repo_id: RepositoryId,
    pub cs_id: ChangesetId,
    pub parents: Vec<ChangesetId>,
}

/// A recorded changeset.
#[derive(Clone, Debug, PartialEq, Eq)]
pub struct ChangesetEntry {
    pub repo_id: RepositoryId,
    pub cs_id: ChangesetId,
    pub parents: Vec<ChangesetId>,
    pub gen: u64,
}

/// Why a changeset was not recorded.
#[derive(Clone, Copy, Debug, PartialEq, Eq)]
pub enum ChangesetsError {
    /// The named parent has no row in the repository.
    MissingParent(ChangesetId),
}

/// Mathematical model of a row.
pub struct Row {
    pub repo_id: RepositoryId,
    pub cs_id: ChangesetId,
    pub parents: Seq<ChangesetId>,
    pub gen: nat,
}

impl View for ChangesetEntry {
    type V = Row;

    open spec fn view(&self) -> Row {
        Row {
            repo_id: self.repo_id,
            cs_id: self.cs_id,
            parents: self.parents@,
            gen: self.gen as nat,
        }
    }
}

/// Row `i` of `rows` is the row of changeset `id` in repository `repo`.
pub open spec fn row_is(rows: Seq<Row>, i: int, repo: RepositoryId, id: ChangesetId) -> bool {
    0 <= i < rows.len() && rows[i].repo_id == repo && rows[i].cs_id == id
}

/// Changeset `id` of repository `repo` has a row.
pub open spec fn has_row(rows: Seq<Row>, repo: RepositoryId, id: ChangesetId) -> bool {
    exists|i: int| row_is(rows, i, repo, id)
}

/// The position of the row of changeset `id` of repository `repo`.
pub open spec fn row_index(rows: Seq<Row>, repo: RepositoryId, id: ChangesetId) -> int {
    choose|i: int| row_is(rows, i, repo, id)
}

/// The largest generation number among the rows of `parents`.
pub open spec fn max_gen(rows: Seq<Row>, repo: RepositoryId, parents: Seq<ChangesetId>) -> nat
    decreases parents.len(),
{
    if parents.len() == 0 {
        0
    } else {
        let g = rows[row_index(rows, repo, parents.last())].gen;
        let m = max_gen(rows, repo, parents.drop_last());
        if g > m {
            g
        } else {
            m
        }
    }
}

/// The generation number of a changeset with the given parents: zero for a
/// root, else one more than the largest among its parents.
pub open spec fn next_gen(rows: Seq<Row>, repo: RepositoryId, parents: Seq<ChangesetId>) -> nat {
    if parents.len() == 0 {
        0
    } else {
        1 + max_gen(rows, repo, parents)
    }
}

/// All of `parents` have rows in repository `repo`.
pub open spec fn has_all(rows: Seq<Row>, repo: RepositoryId, parents: Seq<ChangesetId>) -> bool {
    forall|p: int| 0 <= p < parents.len() ==> has_row(rows, repo, #[trigger] parents[p])
}

/// Two rows are of one changeset of one repository.
pub open spec fn same_key(a: Row, b: Row) -> bool {
    a.repo_id == b.repo_id && a.cs_id == b.cs_id
}

/// The row of parent `p` of row `k` comes before row `k`.
pub open spec fn parent_before(rows: Seq<Row>, k: int, p: int) -> bool {
    exists|j: int| j < k && row_is(rows, j, rows[k].repo_id, rows[k].parents[p])
}

/// The generation number of row `k` follows from those of its parents.
pub open spec fn gen_ok(rows: Seq<Row>, k: int) -> bool {
    rows[k].gen == next_gen(rows, rows[k].repo_id, rows[k].parents) && rows[k].gen <= k
}

/// A changeset has at most one row.
pub open spec fn keys_distinct(rows: Seq<Row>) -> bool {
    forall|i: int, j: int| 0 <= i < j < rows.len() ==> !#[trigger] same_key(rows[i], rows[j])
}

/// The invariant of the table: a changeset has one row, the rows of its
/// parents come before it, and its generation number follows from theirs.
pub open spec fn rows_wf(rows: Seq<Row>) -> bool {
    &&& keys_distinct(rows)
    &&& forall|k: int, p: int|
        0 <= k < rows.len() && 0 <= p < rows[k].parents.len() ==> #[trigger] parent_before(
            rows,
            k,
            p,
        )
    &&& forall|k: int| 0 <= k < rows.len() ==> #[trigger] gen_ok(rows, k)
}

/// `before` is what `after` began as: rows were appended, none changed.
pub open spec fn extends(after: Seq<Row>, before: Seq<Row>) -> bool {
    before.len() <= after.len() && after.subrange(0, before.len() as int) == before
}

/// Where keys are distinct, the row of a changeset is where `row_index` says.
pub proof fn lemma_row_index(rows: Seq<Row>, i: int, repo: RepositoryId, id: ChangesetId)
    requires
        keys_distinct(rows),
        row_is(rows, i, repo, id),
    ensures
        row_index(rows, repo, id) == i,
        has_row(rows, repo, id),
{
    let j = row_index(rows, repo, id);
    assert(row_is(rows, j, repo, id));
    if j < i {
        assert(same_key(rows[j], rows[i]));
    } else if i < j {
        assert(same_key(rows[i], rows[j]));
    }
}

/// Appending rows moves no row.
pub proof fn lemma_extends_keeps(
    after: Seq<Row>,
    before: Seq<Row>,
    repo: RepositoryId,
    id: ChangesetId,
)
    requires
        keys_distinct(after),
        extends(after, before),
        has_row(before, repo, id),
    ensures
        has_row(after, repo, id),
        row_index(after, repo, id) == row_index(before, repo, id),
        after[row_index(after, repo, id)] == before[row_index(before, repo, id)],
{
    let i = row_index(before, repo, id);
    assert(row_is(before, i, repo, id));
    assert(after[i] == after.subrange(0, before.len() as int)[i]);
    assert(row_is(after, i, repo, id));
    lemma_row_index(after, i, repo, id);
}

/// Appending rows changes no generation number.
pub proof fn lemma_max_gen_extends(
    after: Seq<Row>,
    before: Seq<Row>,
    repo: RepositoryId,
    parents: Seq<ChangesetId>,
)
    requires
        keys_distinct(after),
        extends(after, before),
        has_all(before, repo, parents),
    ensures
        max_gen(after, repo, parents) == max_gen(before, repo, parents),
    decreases parents.len(),
{
    if parents.len() > 0 {
        let rest = parents.drop_last();
        assert forall|p: int| 0 <= p < rest.len() implies has_row(
            before,
            repo,
            #[trigger] rest[p],
        ) by {
            assert(rest[p] == parents[p]);
        }
        lemma_max_gen_extends(after, before, repo, rest);
        assert(parents.last() == parents[parents.len() - 1]);
        lemma_extends_keeps(after, before, repo, parents.last());
    }
}

proof fn lemma_max_gen_bound(rows: Seq<Row>, repo: RepositoryId, parents: Seq<ChangesetId>)
    requires
        rows_wf(rows),
        has_all(rows, repo, parents),
        parents.len() > 0,
    ensures
        max_gen(rows, repo, parents) < rows.len(),
    decreases parents.len(),
{
    let last = parents.last();
    assert(last == parents[parents.len() - 1]);
    let i = row_index(rows, repo, last);
    assert(row_is(rows, i, repo, last));
    assert(gen_ok(rows, i));
    let rest = parents.drop_last();
    if rest.len() > 0 {
        assert forall|p: int| 0 <= p < rest.len() implies has_row(rows, repo, #[trigger] rest[p]) by {
            assert(rest[p] == parents[p]);
        }
        lemma_max_gen_bound(rows, repo, rest);
    } else {
        assert(max_gen(rows, repo, rest) == 0);
    }
}

proof fn lemma_push_keys(rows: Seq<Row>, row: Row)
    requires
        keys_distinct(rows),
        !has_row(rows, row.repo_id, row.cs_id),
    ensures
        keys_distinct(rows.push(row)),
        extends(rows.push(row), rows),
{
    let after = rows.push(row);
    let n = rows.len() as int;
    assert(after.subrange(0, n) =~= rows);
    assert forall|i: int, j: int| 0 <= i < j < after.len() implies !#[trigger] same_key(
        after[i],
        after[j],
    ) by {
        if j == n {
            if same_key(after[i], after[j]) {
                assert(row_is(rows, i, row.repo_id, row.cs_id));
            }
        } else {
            assert(!same_key(rows[i], rows[j]));
        }
    }
}

proof fn lemma_row_parents_present(rows: Seq<Row>, k: int)
    requires
        rows_wf(rows),
        0 <= k < rows.len(),
    ensures
        has_all(rows, rows[k].repo_id, rows[k].parents),
{
    assert forall|p: int| 0 <= p < rows[k].parents.len() implies has_row(
        rows,
        rows[k].repo_id,
        #[trigger] rows[k].parents[p],
    ) by {
        assert(parent_before(rows, k, p));
    }
}

/// Appending the row of a changeset that has none yet, after the rows of all
/// its parents, keeps the table well formed.
pub proof fn lemma_push_wf(rows: Seq<Row>, row: Row)
    requires
        rows_wf(rows),
        !has_row(rows, row.repo_id, row.cs_id),
        has_all(rows, row.repo_id, row.parents),
        row.gen == next_gen(rows, row.repo_id, row.parents),
    ensures
        rows_wf(rows.push(row)),
        extends(rows.push(row), rows),
{
    let after = rows.push(row);
    let n = rows.len() as int;
    lemma_push_keys(rows, row);
    assert forall|k: int, p: int|
        0 <= k < after.len() && 0 <= p < after[k].parents.len() implies #[trigger] parent_before(
        after,
        k,
        p,
    ) by {
        if k == n {
            assert(has_row(rows, row.repo_id, row.parents[p]));
            let j = row_index(rows, row.repo_id, row.parents[p]);
            assert(row_is(rows, j, row.repo_id, row.parents[p]));
            assert(row_is(after, j, row.repo_id, row.parents[p]));
        } else {
            assert(parent_before(rows, k, p));
            let j = choose|j: int| j < k && row_is(rows, j, rows[k].repo_id, rows[k].parents[p]);
            assert(row_is(after, j, after[k].repo_id, after[k].parents[p]));
        }
    }
    assert forall|k: int| 0 <= k < after.len() implies #[trigger] gen_ok(after, k) by {
        let r = after[k];
        if k < n {
            lemma_row_parents_present(rows, k);
            assert(gen_ok(rows, k));
        } else if row.parents.len() > 0 {
            lemma_max_gen_bound(rows, row.repo_id, row.parents);
        }
        lemma_max_gen_extends(after, rows, r.repo_id, r.parents);
    }
}

/// The parents in the row of changeset `id` of repository `repo`.
pub open spec fn parents_of(rows: Seq<Row>, repo: RepositoryId, id: ChangesetId) -> Seq<ChangesetId> {
    rows[row_index(rows, repo, id)].parents
}

/// The generation number in the row of changeset `id` of repository `repo`.
pub open spec fn generation_of(rows: Seq<Row>, repo: RepositoryId, id: ChangesetId) -> nat {
    rows[row_index(rows, repo, id)].gen
}

/// Member `k + 1` of `chain` is a parent of member `k`.
pub open spec fn chain_step(
    rows: Seq<Row>,
    repo: RepositoryId,
    chain: Seq<ChangesetId>,
    k: int,
) -> bool {
    parents_of(rows, repo, chain[k]).contains(chain[k + 1])
}

/// `chain` is a chain of ancestors: changesets with rows, each but the first
/// a parent of the one before it.
pub open spec fn is_chain(rows: Seq<Row>, repo: RepositoryId, chain: Seq<ChangesetId>) -> bool {
    &&& chain.len() >= 1
    &&& forall|k: int| 0 <= k < chain.len() ==> has_row(rows, repo, #[trigger] chain[k])
    &&& forall|k: int| 0 <= k < chain.len() - 1 ==> #[trigger] chain_step(rows, repo, chain, k)
}

proof fn lemma_max_gen_covers(
    rows: Seq<Row>,
    repo: RepositoryId,
    parents: Seq<ChangesetId>,
    parent: ChangesetId,
)
    requires
        parents.contains(parent),
    ensures
        generation_of(rows, repo, parent) <= max_gen(rows, repo, parents),
    decreases parents.len(),
{
    if parents.last() != parent {
        let x = choose|x: int| 0 <= x < parents.len() && parents[x] == parent;
        assert(parents.drop_last()[x] == parent);
        lemma_max_gen_covers(rows, repo, parents.drop_last(), parent);
    }
}

proof fn lemma_max_gen_attained(rows: Seq<Row>, repo: RepositoryId, parents: Seq<ChangesetId>) -> (parent:
    ChangesetId)
    requires
        parents.len() > 0,
    ensures
        parents.contains(parent),
        generation_of(rows, repo, parent) == max_gen(rows, repo, parents),
    decreases parents.len(),
{
    let last = parents.last();
    assert(parents[parents.len() - 1] == last);
    if parents.len() == 1 {
        assert(max_gen(rows, repo, parents.drop_last()) == 0);
        last
    } else if generation_of(rows, repo, last) > max_gen(rows, repo, parents.drop_last()) {
        last
    } else {
        let parent = lemma_max_gen_attained(rows, repo, parents.drop_last());
        let x = choose|x: int| 0 <= x < parents.drop_last().len() && parents.drop_last()[x] == parent;
        assert(parents[x] == parent);
        parent
    }
}

/// A generation number is at least the number of steps of any chain of
/// ancestors that begins at the changeset.
pub proof fn lemma_generation_bounds_chains(
    rows: Seq<Row>,
    repo: RepositoryId,
    chain: Seq<ChangesetId>,
)
    requires
        rows_wf(rows),
        is_chain(rows, repo, chain),
    ensures
        chain.len() - 1 <= generation_of(rows, repo, chain[0]),
    decreases chain.len(),
{
    if chain.len() >= 2 {
        let rest = chain.drop_first();
        assert forall|k: int| 0 <= k < rest.len() implies has_row(rows, repo, #[trigger] rest[k]) by {
            assert(rest[k] == chain[k + 1]);
        }
        assert forall|k: int| 0 <= k < rest.len() - 1 implies #[trigger] chain_step(
            rows,
            repo,
            rest,
            k,
        ) by {
            assert(chain_step(rows, repo, chain, k + 1));
            assert(rest[k] == chain[k + 1]);
            assert(rest[k + 1] == chain[k + 2]);
        }
        lemma_generation_bounds_chains(rows, repo, rest);
        assert(chain_step(rows, repo, chain, 0));
        let i = row_index(rows, repo, chain[0]);
        assert(row_is(rows, i, repo, chain[0]));
        assert(gen_ok(rows, i));
        lemma_max_gen_covers(rows, repo, rows[i].parents, chain[1]);
        assert(rest[0] == chain[1]);
    }
}

/// A generation number is the number of steps of some chain of ancestors
/// from the changeset to a root: it is the length of the longest.
pub proof fn lemma_generation_is_a_chain(rows: Seq<Row>, repo: RepositoryId, id: ChangesetId) -> (chain:
    Seq<ChangesetId>)
    requires
        rows_wf(rows),
        has_row(rows, repo, id),
    ensures
        is_chain(rows, repo, chain),
        chain[0] == id,
        chain.len() - 1 == generation_of(rows, repo, id),
        parents_of(rows, repo, chain.last()).len() == 0,
    decreases generation_of(rows, repo, id),
{
    let i = row_index(rows, repo, id);
    assert(row_is(rows, i, repo, id));
    assert(gen_ok(rows, i));
    if rows[i].parents.len() == 0 {
        let chain = seq![id];
        assert(is_chain(rows, repo, chain));
        chain
    } else {
        let parent = lemma_max_gen_attained(rows, repo, rows[i].parents);
        lemma_row_parents_present(rows, i);
        let x = choose|x: int| 0 <= x < rows[i].parents.len() && rows[i].parents[x] == parent;
        assert(has_row(rows, repo, rows[i].parents[x]));
        let rest = lemma_generation_is_a_chain(rows, repo, parent);
        let chain = seq![id] + rest;
        assert forall|k: int| 0 <= k < chain.len() implies has_row(rows, repo, #[trigger] chain[k]) by {
            if k > 0 {
                assert(chain[k] == rest[k - 1]);
            }
        }
        assert forall|k: int| 0 <= k < chain.len() - 1 implies #[trigger] chain_step(
            rows,
            repo,
            chain,
            k,
        ) by {
            if k > 0 {
                assert(chain_step(rows, repo, rest, k - 1));
                assert(chain[k] == rest[k - 1]);
                assert(chain[k + 1] == rest[k]);
            } else {
                assert(chain[1] == rest[0]);
            }
        }
        assert(chain.last() == rest.last());
        chain
    }
}

/// The table of recorded changesets, shared by all repositories.
pub struct Changesets {
    rows: Vec<ChangesetEntry>,
}

impl View for Changesets {
    type V = Seq<Row>;

    closed spec fn view(&self) -> Seq<Row> {
        Seq::new(self.rows@.len(), |i: int| self.rows@[i]@)
    }
}

impl Changesets {
    /// The invariant of the table, which holds of every table.
    #[verifier::type_invariant]
    pub open spec fn wf(&self) -> bool {
        rows_wf(self@)
    }

    /// A table without rows.
    pub fn new() -> (table: Changesets)
        ensures
            table@ == Seq::<Row>::empty(),
            table.wf(),
    {
        let table = Changesets { rows: Vec::new() };
        assert(table@ =~= Seq::<Row>::empty());
        table
    }

    /// The number of rows.
    pub fn len(&self) -> (n: usize)
        ensures
            n == self@.len(),
    {
        self.rows.len()
    }

    /// The position of the row of changeset `cs_id` of repository `repo_id`.
    fn find(&self, repo_id: RepositoryId, cs_id: &ChangesetId) -> (r: Option<usize>)
        ensures
            match r {
                Some(i) => row_is(self@, i as int, repo_id, *cs_id),
                None => !has_row(self@, repo_id, *cs_id),
            },
    {
        let mut i: usize = 0;
        while i < self.rows.len()
            invariant
                i <= self.rows@.len(),
                forall|j: int| 0 <= j < i ==> !row_is(self@, j, repo_id, *cs_id),
            decreases self.rows@.len() - i,
        {
            if self.rows[i].repo_id.0 == repo_id.0 && self.rows[i].cs_id.same(cs_id) {
                return Some(i);
            }
            i += 1;
        }
        None
    }

    /// The row of changeset `cs_id` of repository `repo_id`, if it has one.
    pub fn get(&self, repo_id: RepositoryId, cs_id: ChangesetId) -> (r: Option<ChangesetEntry>)
        ensures
            r is Some <==> has_row(self@, repo_id, cs_id),
            r matches Some(e) ==> e@ == self@[row_index(self@, repo_id, cs_id)],
    {
        match self.find(repo_id, &cs_id) {
            None => None,
            Some(i) => {
                proof {
                    use_type_invariant(self);
                    lemma_row_index(self@, i as int, repo_id, cs_id);
                }
                let row = &self.rows[i];
                let parents = copy_ids(&row.parents);
                Some(
                    ChangesetEntry { repo_id: row.repo_id, cs_id: row.cs_id, parents, gen: row.gen },
                )
            },
        }
    }

    /// Whether changeset `cs_id` of repository `repo_id` has a row.
    pub fn contains(&self, repo_id: RepositoryId, cs_id: ChangesetId) -> (r: bool)
        ensures
            r == has_row(self@, repo_id, cs_id),
    {
        self.find(repo_id, &cs_id).is_some()
    }

    /// The generation number of changeset `cs_id` of repository `repo_id`, if
    /// it has a row.
    pub fn generation(&self, repo_id: RepositoryId, cs_id: ChangesetId) -> (r: Option<Generation>)
        ensures
            r is Some <==> has_row(self@, repo_id, cs_id),
            r matches Some(g) ==> g.0 == generation_of(self@, repo_id, cs_id),
    {
        match self.find(repo_id, &cs_id) {
            None => None,
            Some(i) => {
                proof {
                    use_type_invariant(self);
                    lemma_row_index(self@, i as int, repo_id, cs_id);
                }
                Some(Generation(self.rows[i].gen))
            },
        }
    }

    /// Records a changeset.
    ///
    /// A changeset that has a row already is left as it is, and `Ok(false)`
    /// says so. Otherwise all its parents must have rows; the new row goes
    /// after all others.
    pub fn add(&mut self, insert: ChangesetInsert) -> (r: Result<bool, ChangesetsError>)
        ensures
            final(self).wf(),
            extends(final(self)@, old(self)@),
            r is Err <==> !has_row(old(self)@, insert.repo_id, insert.cs_id) && !has_all(
                old(self)@,
                insert.repo_id,
                insert.parents@,
            ),
            match r {
                Ok(added) => {
                    &&& added == !has_row(old(self)@, insert.repo_id, insert.cs_id)
                    &&& !added ==> final(self)@ == old(self)@
                    &&& added ==> final(self)@ == old(self)@.push(
                        Row {
                            repo_id: insert.repo_id,
                            cs_id: insert.cs_id,
                            parents: insert.parents@,
                            gen: next_gen(old(self)@, insert.repo_id, insert.parents@),
                        },
                    )
                },
                Err(ChangesetsError::MissingParent(p)) => {
                    &&& final(self)@ == old(self)@
                    &&& insert.parents@.contains(p)
                    &&& !has_row(old(self)@, insert.repo_id, p)
                },
            },
    {
        proof {
            use_type_invariant(&*self);
            assert(self@.subrange(0, self@.len() as int) =~= self@);
        }
        if self.find(insert.repo_id, &insert.cs_id).is_some() {
            return Ok(false);
        }
        let repo_id = insert.repo_id;
        let mut top: u64 = 0;
        let mut k: usize = 0;
        while k < insert.parents.len()
            invariant
                self.wf(),
                self@ == old(self)@,
                extends(self@, old(self)@),
                repo_id == insert.repo_id,
                !has_row(self@, repo_id, insert.cs_id),
                k <= insert.parents@.len(),
                has_all(self@, repo_id, insert.parents@.subrange(0, k as int)),
                top == max_gen(self@, repo_id, insert.parents@.subrange(0, k as int)),
            decreases insert.parents@.len() - k,
        {
            let ghost done = insert.parents@.subrange(0, k as int);
            let ghost next = insert.parents@.subrange(0, k + 1);
            match self.find(repo_id, &insert.parents[k]) {
                None => {
                    assert(insert.parents@[k as int] == insert.parents[k as int]);
                    return Err(ChangesetsError::MissingParent(insert.parents[k]));
                },
                Some(i) => {
                    proof {
                        lemma_row_index(self@, i as int, repo_id, insert.parents@[k as int]);
                        assert(next.drop_last() =~= done);
                        assert(next.last() == insert.parents@[k as int]);
                        assert forall|p: int| 0 <= p < next.len() implies has_row(
                            self@,
                            repo_id,
                            #[trigger] next[p],
                        ) by {
                            if p < k {
                                assert(next[p] == done[p]);
                            }
                        }
                    }
                    if self.rows[i].gen > top {
                        top = self.rows[i].gen;
                    }
                },
            }
            k += 1;
        }
        assert(insert.parents@.subrange(0, k as int) =~= insert.parents@);
        let ghost before = self@;
        let gen: u64 = if insert.parents.len() == 0 {
            0
        } else {
            proof {
                lemma_max_gen_bound(self@, repo_id, insert.parents@);
                assert(self@.len() == self.rows.len());
            }
            top + 1
        };
        let row = ChangesetEntry {
            repo_id: insert.repo_id,
            cs_id: insert.cs_id,
            parents: insert.parents,
            gen,
        };
        // The rows are taken out for the push, so that the table is well
        // formed whenever it is looked at.
        let mut rows: Vec<ChangesetEntry> = Vec::new();
        proof {
            assert(Seq::new(rows@.len(), |i: int| rows@[i]@) =~= Seq::<Row>::empty());
        }
        core::mem::swap(&mut self.rows, &mut rows);
        rows.push(row);
        proof {
            lemma_push_wf(before, row@);
            assert(Seq::new(rows@.len(), |i: int| rows@[i]@) =~= before.push(row@));
        }
        self.rows = rows;
        Ok(true)
    }
}

/// A copy of a list of changeset ids.
pub fn copy_ids(ids: &Vec<ChangesetId>) -> (out: Vec<ChangesetId>)
    ensures
        out@ == ids@,
{
    let mut out: Vec<ChangesetId> = Vec::new();
    let mut i: usize = 0;
    while i < ids.len()
        invariant
            i <= ids@.len(),
            out@ == ids@.subrange(0, i as int),
        decreases ids@.len() - i,
    {
        out.push(ids[i]);
        i += 1;
        assert(out@ =~= ids@.subrange(0, i as int));
    }
    assert(ids@.subrange(0, ids@.len() as int) =~= ids@);
    out
}

} // verus!
