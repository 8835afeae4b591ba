//! Changesets as they are handed in for saving.

use vstd::prelude::*;
use crate::changesets::copy_ids;
use crate::ids::ChangesetId;

verus! {

/// An immutable changeset: its content-derived id, its parents in order, and
/// the bytes it serializes to.
#[derive(Clone, Debug, PartialEq, Eq)]
pub struct BonsaiChangeset {
    pub id: ChangesetId,
    pub parents: Vec<ChangesetId>,
    pub content: Vec<u8>,
}

impl BonsaiChangeset {
    /// A changeset with the given id, parents and serialized form.
    pub fn new(id: ChangesetId, parents: Vec<ChangesetId>, content: Vec<u8>) -> (cs:
        BonsaiChangeset)
        ensures
            cs.id == id,
            cs.parents == parents,
            cs.content == content,
    {
        BonsaiChangeset { id, parents, content }
    }

    /// The id of the changeset.
    pub fn get_changeset_id(&self) -> (id: ChangesetId)
        ensures
            id == self.id,
    {
        self.id
    }

    /// The parents of the changeset, in order.
    pub fn parents(&self) -> (parents: Vec<ChangesetId>)
        ensures
            parents@ == self.parents@,
    {
        copy_ids(&self.parents)
    }
}

/// Whether `id` occurs in `ids`.
pub fn contains_id(ids: &Vec<ChangesetId>, id: &ChangesetId) -> (r: bool)
    ensures
        r == ids@.contains(*id),
{
    let mut k: usize = 0;
    while k < ids.len()
        invariant
            k <= ids@.len(),
            forall|x: int| 0 <= x < k ==> ids@[x] != *id,
        decreases ids@.len() - k,
    {
        if ids[k].same(id) {
            assert(ids@[k as int] == *id);
            return true;
        }
        k += 1;
    }
    false
}

/// Some member of the batch has the id `id`.
pub open spec fn in_batch(batch: Seq<BonsaiChangeset>, id: ChangesetId) -> bool {
    exists|j: int| 0 <= j < batch.len() && (#[trigger] batch[j]).id == id
}

/// Member `i` of the batch names `id` as a parent.
pub open spec fn names_parent(batch: Seq<BonsaiChangeset>, i: int, id: ChangesetId) -> bool {
    0 <= i < batch.len() && batch[i].parents@.contains(id)
}

/// Some member of the batch names `id` as a parent.
pub open spec fn is_parent(batch: Seq<BonsaiChangeset>, id: ChangesetId) -> bool {
    exists|i: int| names_parent(batch, i, id)
}

/// `id` is a parent that the batch refers to and does not hold itself.
pub open spec fn is_external_parent(batch: Seq<BonsaiChangeset>, id: ChangesetId) -> bool {
    is_parent(batch, id) && !in_batch(batch, id)
}

/// Whether some member of the batch has the id `id`.
pub fn batch_has(batch: &Vec<BonsaiChangeset>, id: &ChangesetId) -> (r: bool)
    ensures
        r == in_batch(batch@, *id),
{
    let mut j: usize = 0;
    while j < batch.len()
        invariant
            j <= batch@.len(),
            forall|x: int| 0 <= x < j ==> (#[trigger] batch@[x]).id != *id,
        decreases batch@.len() - j,
    {
        if batch[j].id.same(id) {
            return true;
        }
        j += 1;
    }
    false
}

/// The parents that the batch refers to and does not hold itself, each
/// once.
pub fn parents_to_check(batch: &Vec<BonsaiChangeset>) -> (out: Vec<ChangesetId>)
    ensures
        out@.no_duplicates(),
        forall|id: ChangesetId| out@.contains(id) <==> is_external_parent(batch@, id),
{
    let mut out: Vec<ChangesetId> = Vec::new();
    let mut i: usize = 0;
    while i < batch.len()
        invariant
            i <= batch@.len(),
            out@.no_duplicates(),
            forall|id: ChangesetId| #[trigger]
                out@.contains(id) ==> is_external_parent(batch@, id),
            forall|x: int, id: ChangesetId|
                0 <= x < i && #[trigger] names_parent(batch@, x, id) && !in_batch(batch@, id)
                    ==> out@.contains(id),
        decreases batch@.len() - i,
    {
        let parents = &batch[i].parents;
        let mut k: usize = 0;
        while k < parents.len()
            invariant
                i < batch@.len(),
                parents == &batch@[i as int].parents,
                k <= parents@.len(),
                out@.no_duplicates(),
                forall|id: ChangesetId| #[trigger]
                    out@.contains(id) ==> is_external_parent(batch@, id),
                forall|x: int, id: ChangesetId|
                    0 <= x < i && #[trigger] names_parent(batch@, x, id) && !in_batch(batch@, id)
                        ==> out@.contains(id),
                forall|y: int|
                    0 <= y < k && !in_batch(batch@, #[trigger] parents@[y]) ==> out@.contains(
                        parents@[y],
                    ),
            decreases parents@.len() - k,
        {
            let id = parents[k];
            let ghost before = out@;
            if !batch_has(batch, &id) && !contains_id(&out, &id) {
                out.push(id);
                proof {
                    assert(names_parent(batch@, i as int, id)) by {
                        assert(parents@[k as int] == id);
                    }
                    assert(out@.last() == id);
                    assert forall|other: ChangesetId| #[trigger]
                        out@.contains(other) implies is_external_parent(batch@, other) by {
                        let x = choose|x: int| 0 <= x < out@.len() && out@[x] == other;
                        if x < before.len() {
                            assert(before[x] == other);
                            assert(before.contains(other));
                        } else {
                            assert(other == id);
                            assert(is_parent(batch@, id));
                        }
                    }
                }
            }
            proof {
                assert forall|other: ChangesetId| before.contains(other) implies out@.contains(
                    other,
                ) by {
                    let x = choose|x: int| 0 <= x < before.len() && before[x] == other;
                    assert(out@[x] == other);
                }
                if !in_batch(batch@, id) {
                    if before.contains(id) {
                    } else {
                        assert(out@[out@.len() - 1] == id);
                    }
                    assert(out@.contains(id));
                }
            }
            k += 1;
        }
        proof {
            assert forall|x: int, id: ChangesetId|
                0 <= x < i + 1 && #[trigger] names_parent(batch@, x, id) && !in_batch(
                    batch@,
                    id,
                ) implies out@.contains(id) by {
                if x == i {
                    let y = choose|y: int| 0 <= y < parents@.len() && parents@[y] == id;
                    assert(out@.contains(parents@[y]));
                }
            }
        }
        i += 1;
    }
    out
}

} // verus!
