//! Topological order of a batch of changesets.
//!
//! Only the parent edges between members of the batch count; a parent that
//! is not in the batch constrains nothing.

use vstd::prelude::*;
use crate::bonsai::{contains_id, BonsaiChangeset};

verus! {

/// Member `j` of the batch is a parent of member `i`.
pub open spec fn is_parent_edge(batch: Seq<BonsaiChangeset>, j: int, i: int) -> bool {
    &&& 0 <= j < batch.len()
    &&& 0 <= i < batch.len()
    &&& batch[i].parents@.contains(batch[j].id)
}

/// Member `j` stands in `order` before position `x`.
pub open spec fn comes_before(order: Seq<usize>, j: int, x: int) -> bool {
    exists|y: int| 0 <= y < x && y < order.len() && #[trigger] order[y] == j
}

/// Member `i` stands somewhere in `order`.
pub open spec fn occurs(order: Seq<usize>, i: int) -> bool {
    comes_before(order, i, order.len() as int)
}

/// `order` lists every member of the batch once, each after all its parents
/// in the batch.
pub open spec fn is_topological(batch: Seq<BonsaiChangeset>, order: Seq<usize>) -> bool {
    &&& order.len() == batch.len()
    &&& order.no_duplicates()
    &&& forall|i: int| 0 <= i < batch.len() ==> #[trigger] occurs(order, i)
    &&& forall|x: int| 0 <= x < order.len() ==> #[trigger] order[x] < batch.len()
    &&& forall|x: int, j: int|
        0 <= x < order.len() && #[trigger] is_parent_edge(batch, j, order[x] as int)
            ==> comes_before(order, j, x)
}

/// In `walk`, the member after position `k` is a parent of the member at
/// position `k`.
pub open spec fn walk_step(batch: Seq<BonsaiChangeset>, walk: Seq<int>, k: int) -> bool {
    is_parent_edge(batch, walk[k + 1], walk[k])
}

/// `walk` goes from member to parent inside the batch and comes back to
/// where it began: its first member is a parent of its last.
pub open spec fn is_cycle(batch: Seq<BonsaiChangeset>, walk: Seq<int>) -> bool {
    &&& walk.len() >= 1
    &&& forall|k: int| 0 <= k < walk.len() - 1 ==> #[trigger] walk_step(batch, walk, k)
    &&& is_parent_edge(batch, walk[0], walk.last())
}

/// The parent edges inside the batch form a cycle.
pub open spec fn has_cycle(batch: Seq<BonsaiChangeset>) -> bool {
    exists|walk: Seq<int>| is_cycle(batch, walk)
}

/// The parent edges inside the batch form no cycle.
pub open spec fn acyclic(batch: Seq<BonsaiChangeset>) -> bool {
    !has_cycle(batch)
}

/// The position of member `i` in `order`.
pub open spec fn position(order: Seq<usize>, i: int) -> int {
    choose|x: int| 0 <= x < order.len() && #[trigger] order[x] == i
}

proof fn lemma_position(batch: Seq<BonsaiChangeset>, order: Seq<usize>, i: int)
    requires
        is_topological(batch, order),
        0 <= i < batch.len(),
    ensures
        0 <= position(order, i) < order.len(),
        order[position(order, i)] == i,
{
    assert(occurs(order, i));
    let y = choose|y: int| 0 <= y < order.len() && y < order.len() && #[trigger] order[y] == i;
    assert(0 <= y < order.len() && order[y] == i);
}

/// In a topological order a parent stands before its child.
proof fn lemma_parent_stands_before(
    batch: Seq<BonsaiChangeset>,
    order: Seq<usize>,
    j: int,
    i: int,
)
    requires
        is_topological(batch, order),
        is_parent_edge(batch, j, i),
    ensures
        position(order, j) < position(order, i),
{
    lemma_position(batch, order, i);
    lemma_position(batch, order, j);
    let x = position(order, i);
    assert(is_parent_edge(batch, j, order[x] as int));
    assert(comes_before(order, j, x));
    let y = choose|y: int| 0 <= y < x && y < order.len() && #[trigger] order[y] == j;
    assert(order[y] == order[position(order, j)]);
}

proof fn lemma_walk_descends(
    batch: Seq<BonsaiChangeset>,
    order: Seq<usize>,
    walk: Seq<int>,
    k: int,
)
    requires
        is_topological(batch, order),
        walk.len() >= 1,
        forall|k: int| 0 <= k < walk.len() - 1 ==> #[trigger] walk_step(batch, walk, k),
        0 <= k < walk.len(),
    ensures
        position(order, walk[k]) <= position(order, walk[0]),
    decreases k,
{
    if k > 0 {
        lemma_walk_descends(batch, order, walk, k - 1);
        assert(walk_step(batch, walk, k - 1));
        lemma_parent_stands_before(batch, order, walk[k], walk[k - 1]);
    }
}

/// A batch that can be put in a topological order has no cycle.
pub proof fn lemma_order_excludes_cycle(batch: Seq<BonsaiChangeset>, order: Seq<usize>)
    requires
        is_topological(batch, order),
    ensures
        acyclic(batch),
{
    if has_cycle(batch) {
        let walk = choose|walk: Seq<int>| is_cycle(batch, walk);
        lemma_walk_descends(batch, order, walk, walk.len() - 1);
        lemma_parent_stands_before(batch, order, walk[0], walk.last());
    }
}

/// All parents of member `i` that are in the batch are marked in `placed`.
pub open spec fn ready(batch: Seq<BonsaiChangeset>, placed: Seq<bool>, i: int) -> bool {
    forall|j: int| #[trigger] is_parent_edge(batch, j, i) ==> placed[j]
}

/// The number of entries of `placed` that are not set.
pub open spec fn count_unplaced(placed: Seq<bool>) -> nat
    decreases placed.len(),
{
    if placed.len() == 0 {
        0
    } else {
        count_unplaced(placed.drop_last()) + if placed.last() {
            0nat
        } else {
            1nat
        }
    }
}

proof fn lemma_count_all_unplaced(placed: Seq<bool>)
    requires
        forall|i: int| 0 <= i < placed.len() ==> !placed[i],
    ensures
        count_unplaced(placed) == placed.len(),
    decreases placed.len(),
{
    if placed.len() > 0 {
        lemma_count_all_unplaced(placed.drop_last());
    }
}

proof fn lemma_count_all_placed(placed: Seq<bool>)
    requires
        forall|i: int| 0 <= i < placed.len() ==> placed[i],
    ensures
        count_unplaced(placed) == 0,
    decreases placed.len(),
{
    if placed.len() > 0 {
        lemma_count_all_placed(placed.drop_last());
    }
}

proof fn lemma_count_place(placed: Seq<bool>, i: int)
    requires
        0 <= i < placed.len(),
        !placed[i],
    ensures
        count_unplaced(placed.update(i, true)) + 1 == count_unplaced(placed),
    decreases placed.len(),
{
    let after = placed.update(i, true);
    if i == placed.len() - 1 {
        assert(after.drop_last() =~= placed.drop_last());
    } else {
        lemma_count_place(placed.drop_last(), i);
        assert(after.drop_last() =~= placed.drop_last().update(i, true));
    }
}

/// What the sort has done so far: the members marked in `placed` are those
/// listed in `order`, each once and after its parents.
pub open spec fn partial_order(batch: Seq<BonsaiChangeset>, placed: Seq<bool>, order: Seq<usize>) -> bool {
    &&& placed.len() == batch.len()
    &&& order.len() + count_unplaced(placed) == batch.len()
    &&& order.no_duplicates()
    &&& forall|x: int| 0 <= x < order.len() ==> #[trigger] order[x] < batch.len() && placed[order[x] as int]
    &&& forall|i: int| 0 <= i < batch.len() && placed[i] ==> #[trigger] occurs(order, i)
    &&& forall|x: int, j: int|
        0 <= x < order.len() && #[trigger] is_parent_edge(batch, j, order[x] as int)
            ==> comes_before(order, j, x)
}

/// No member that is not placed can be placed: each waits for a parent
/// that is not placed either.
pub open spec fn stuck(batch: Seq<BonsaiChangeset>, placed: Seq<bool>) -> bool {
    &&& placed.len() == batch.len()
    &&& forall|i: int| 0 <= i < batch.len() && !placed[i] ==> !#[trigger] ready(batch, placed, i)
}

/// A parent of member `i` that is not placed.
pub open spec fn waits_for(batch: Seq<BonsaiChangeset>, placed: Seq<bool>, i: int) -> int {
    choose|j: int| #[trigger] is_parent_edge(batch, j, i) && !placed[j]
}

/// The member reached from `start` after `k` steps, each to a parent that is
/// not placed.
pub open spec fn stuck_walk(batch: Seq<BonsaiChangeset>, placed: Seq<bool>, start: int, k: nat) -> int
    decreases k,
{
    if k == 0 {
        start
    } else {
        waits_for(batch, placed, stuck_walk(batch, placed, start, (k - 1) as nat))
    }
}

proof fn lemma_stuck_walk(batch: Seq<BonsaiChangeset>, placed: Seq<bool>, start: int, k: nat)
    requires
        stuck(batch, placed),
        0 <= start < batch.len(),
        !placed[start],
    ensures
        0 <= stuck_walk(batch, placed, start, k) < batch.len(),
        !placed[stuck_walk(batch, placed, start, k)],
        is_parent_edge(
            batch,
            stuck_walk(batch, placed, start, k + 1),
            stuck_walk(batch, placed, start, k),
        ),
        !placed[stuck_walk(batch, placed, start, k + 1)],
    decreases k,
{
    if k > 0 {
        lemma_stuck_walk(batch, placed, start, (k - 1) as nat);
    }
    let here = stuck_walk(batch, placed, start, k);
    assert(!ready(batch, placed, here));
    assert(stuck_walk(batch, placed, start, k + 1) == waits_for(batch, placed, here));
}

/// Where no member that is left can be placed, the parent edges form a
/// cycle: a walk from parent to parent among the members that are left
/// comes by some member twice.
proof fn lemma_stuck_has_cycle(batch: Seq<BonsaiChangeset>, placed: Seq<bool>, start: int)
    requires
        stuck(batch, placed),
        0 <= start < batch.len(),
        !placed[start],
    ensures
        has_cycle(batch),
{
    let n = batch.len() as int;
    let walk = Seq::new((n + 1) as nat, |k: int| stuck_walk(batch, placed, start, k as nat));
    assert forall|k: int| 0 <= k < walk.len() implies 0 <= #[trigger] walk[k] < n by {
        lemma_stuck_walk(batch, placed, start, k as nat);
    }
    if walk.no_duplicates() {
        walk.unique_seq_to_set();
        vstd::set_lib::lemma_int_range(0, n);
        assert(walk.to_set().subset_of(vstd::set_lib::set_int_range(0, n))) by {
            assert forall|v: int| walk.to_set().contains(v) implies vstd::set_lib::set_int_range(
                0,
                n,
            ).contains(v) by {
                let k = choose|k: int| 0 <= k < walk.len() && walk[k] == v;
                assert(0 <= walk[k] < n);
            }
        }
        vstd::set_lib::lemma_len_subset(walk.to_set(), vstd::set_lib::set_int_range(0, n));
    }
    let (a, b) = choose|a: int, b: int|
        0 <= a < walk.len() && 0 <= b < walk.len() && a != b && walk[a] == walk[b];
    let lo = if a < b {
        a
    } else {
        b
    };
    let hi = if a < b {
        b
    } else {
        a
    };
    let cycle = walk.subrange(lo, hi);
    assert forall|k: int| 0 <= k < cycle.len() - 1 implies #[trigger] walk_step(batch, cycle, k) by {
        lemma_stuck_walk(batch, placed, start, (lo + k) as nat);
        assert(cycle[k] == walk[lo + k]);
        assert(cycle[k + 1] == walk[lo + k + 1]);
    }
    assert(is_parent_edge(batch, cycle[0], cycle.last())) by {
        lemma_stuck_walk(batch, placed, start, (hi - 1) as nat);
        assert(cycle.last() == walk[hi - 1]);
        assert(cycle[0] == walk[lo]);
        assert(walk[hi] == walk[lo]);
    }
    assert(is_cycle(batch, cycle));
}

/// What the search for the next member to place found.
enum Step {
    /// This member is not placed and all its parents in the batch are.
    Ready(usize),
    /// This member is not placed, and no member can be placed.
    Stuck(usize),
    /// Every member is placed.
    Done,
}

/// Whether all parents of member `i` that are in the batch are placed.
fn is_ready(batch: &Vec<BonsaiChangeset>, placed: &Vec<bool>, i: usize) -> (r: bool)
    requires
        placed@.len() == batch@.len(),
        i < batch@.len(),
    ensures
        r == ready(batch@, placed@, i as int),
{
    let mut j: usize = 0;
    while j < batch.len()
        invariant
            placed@.len() == batch@.len(),
            i < batch@.len(),
            j <= batch@.len(),
            forall|x: int| 0 <= x < j && #[trigger] is_parent_edge(batch@, x, i as int) ==> placed@[x],
        decreases batch@.len() - j,
    {
        if !placed[j] && contains_id(&batch[i].parents, &batch[j].id) {
            assert(is_parent_edge(batch@, j as int, i as int));
            return false;
        }
        j += 1;
    }
    true
}

/// Looks for a member that can be placed next.
fn next_step(batch: &Vec<BonsaiChangeset>, placed: &Vec<bool>) -> (r: Step)
    requires
        placed@.len() == batch@.len(),
    ensures
        match r {
            Step::Ready(i) => i < batch@.len() && !placed@[i as int] && ready(
                batch@,
                placed@,
                i as int,
            ),
            Step::Stuck(u) => u < batch@.len() && !placed@[u as int] && stuck(batch@, placed@),
            Step::Done => forall|i: int| 0 <= i < batch@.len() ==> placed@[i],
        },
{
    let mut waiting: Option<usize> = None;
    let mut i: usize = 0;
    while i < batch.len()
        invariant
            placed@.len() == batch@.len(),
            i <= batch@.len(),
            forall|x: int| 0 <= x < i && !placed@[x] ==> !#[trigger] ready(batch@, placed@, x),
            waiting is None ==> forall|x: int| 0 <= x < i ==> placed@[x],
            waiting matches Some(u) ==> u < batch@.len() && !placed@[u as int],
        decreases batch@.len() - i,
    {
        if !placed[i] {
            if is_ready(batch, placed, i) {
                return Step::Ready(i);
            }
            waiting = Some(i);
        }
        i += 1;
    }
    match waiting {
        Some(u) => Step::Stuck(u),
        None => Step::Done,
    }
}

/// Puts the members of the batch in an order in which every member comes
/// after all its parents in the batch, and returns their positions in the
/// batch in that order.
///
/// Returns `None` if and only if the parent edges inside the batch form a
/// cycle.
pub fn sort_topological(batch: &Vec<BonsaiChangeset>) -> (r: Option<Vec<usize>>)
    ensures
        r is Some <==> acyclic(batch@),
        r matches Some(order) ==> is_topological(batch@, order@),
{
    let n = batch.len();
    let mut placed: Vec<bool> = Vec::new();
    while placed.len() < n
        invariant
            n == batch@.len(),
            placed@.len() <= n,
            forall|i: int| 0 <= i < placed@.len() ==> !placed@[i],
        decreases n - placed@.len(),
    {
        placed.push(false);
    }
    let mut order: Vec<usize> = Vec::new();
    proof {
        lemma_count_all_unplaced(placed@);
    }
    loop
        invariant
            partial_order(batch@, placed@, order@),
        decreases count_unplaced(placed@),
    {
        match next_step(batch, &placed) {
            Step::Done => {
                proof {
                    lemma_count_all_placed(placed@);
                    lemma_order_excludes_cycle(batch@, order@);
                }
                return Some(order);
            },
            Step::Stuck(u) => {
                proof {
                    lemma_stuck_has_cycle(batch@, placed@, u as int);
                }
                return None;
            },
            Step::Ready(i) => {
                let ghost placed_before = placed@;
                let ghost order_before = order@;
                placed.set(i, true);
                order.push(i);
                proof {
                    lemma_count_place(placed_before, i as int);
                    assert(placed@ == placed_before.update(i as int, true));
                    let last = order_before.len() as int;
                    assert forall|x: int, y: int|
                        0 <= x < order@.len() && 0 <= y < order@.len() && x != y implies order@[x]
                        != order@[y] by {
                        if x < last && y < last {
                            assert(order_before[x] != order_before[y]);
                        } else if x < last {
                            assert(placed_before[order_before[x] as int]);
                        } else {
                            assert(placed_before[order_before[y] as int]);
                        }
                    }
                    assert forall|j: int, x: int| comes_before(order_before, j, x) implies comes_before(
                        order@,
                        j,
                        x,
                    ) by {
                        let y = choose|y: int|
                            0 <= y < x && y < order_before.len() && #[trigger] order_before[y] == j;
                        assert(order@[y] == j);
                    }
                    assert forall|m: int| 0 <= m < batch@.len() && placed@[m] implies #[trigger] occurs(
                        order@,
                        m,
                    ) by {
                        if m == i {
                            assert(order@[last] == i);
                        } else {
                            assert(occurs(order_before, m));
                        }
                    }
                    assert forall|x: int, j: int|
                        0 <= x < order@.len() && #[trigger] is_parent_edge(
                            batch@,
                            j,
                            order@[x] as int,
                        ) implies comes_before(order@, j, x) by {
                        if x < last {
                            assert(order@[x] == order_before[x]);
                            assert(comes_before(order_before, j, x));
                        } else {
                            assert(ready(batch@, placed_before, i as int));
                            assert(placed_before[j]);
                            assert(occurs(order_before, j));
                        }
                    }
                    assert forall|x: int| 0 <= x < order@.len() implies #[trigger] order@[x]
                        < batch@.len() && placed@[order@[x] as int] by {
                        if x < last {
                            assert(order@[x] == order_before[x]);
                        }
                    }
                }
            },
        }
    }
}

} // verus!
