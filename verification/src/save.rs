//! The steps of saving a batch of changesets, one at a time.
//!
//! Saving a batch means work on a graph index and on a blob store that may
//! be anywhere. What is decided here is which piece of work comes next, given
//! how the last one ended: first every parent that the batch refers to and
//! does not hold is looked up; then the blobs of all members are stored; then
//! their rows are inserted, parents first. Whoever does the work asks for an
//! action, performs it, and reports what it gave.

use vstd::prelude::*;
use crate::bonsai::{is_external_parent, parents_to_check, BonsaiChangeset};
use crate::ids::ChangesetId;
use crate::topo_sort::{acyclic, is_topological, sort_topological};

verus! {

/// Why a batch was not saved.
#[derive(Clone, Copy, Debug, PartialEq, Eq)]
pub enum SaveError {
    /// The batch refers to this parent, which is neither in the batch nor in
    /// the graph index.
    MissingParent(ChangesetId),
    /// The parent edges inside the batch form a cycle.
    CycleDetected,
    /// A blob could not be stored.
    BlobWriteFailure,
    /// The graph index could not be read or written.
    IoFailure,
}

/// A piece of work on the stores, or the end of the work.
#[derive(Clone, Copy, Debug, PartialEq, Eq)]
pub enum SaveAction {
    /// Look up whether this changeset has a row.
    CheckParent(ChangesetId),
    /// Store the blob of the member at this position of the batch.
    StoreBlob(usize),
    /// Insert the row of the member at this position of the batch.
    InsertRow(usize),
    /// Nothing is left to do: the batch is saved.
    Finished,
    /// Nothing more is to be done: the batch is not saved.
    Failed(SaveError),
}

/// How a piece of work ended.
#[derive(Clone, Copy, Debug, PartialEq, Eq, Structural)]
pub enum SaveEvent {
    /// It was done: the changeset has a row, the blob is stored, the row is
    /// there.
    Done,
    /// The changeset that was looked up has no row.
    Missing,
    /// The store failed.
    Error,
}

/// What kind of work is going on.
#[derive(Clone, Copy, Debug, PartialEq, Eq, Structural)]
pub enum SavePhase {
    /// Parents are looked up.
    Checking,
    /// Blobs are stored.
    Storing,
    /// Rows are inserted.
    Inserting,
    /// All work is done.
    Finished,
}

/// What is to be done for a batch.
pub struct SavePlan {
    /// The parents to look up.
    pub to_check: Seq<ChangesetId>,
    /// The positions of the members in the order in which their rows are
    /// inserted, if the batch has such an order.
    pub order: Option<Seq<usize>>,
    /// The number of members.
    pub len: nat,
}

/// How far the work has come: `at` pieces of the work of `phase` are done,
/// unless it has failed.
pub struct SaveState {
    pub phase: SavePhase,
    pub at: nat,
    pub failure: Option<SaveError>,
}

/// The plan is that of the batch: it looks up the parents that the batch
/// refers to and does not hold, each once, and inserts rows in a topological
/// order of the batch, which it has if and only if the batch has no cycle.
pub open spec fn plan_fits(batch: Seq<BonsaiChangeset>, plan: SavePlan) -> bool {
    &&& plan.len == batch.len()
    &&& plan.to_check.no_duplicates()
    &&& forall|id: ChangesetId| plan.to_check.contains(id) <==> is_external_parent(batch, id)
    &&& plan.order is Some <==> acyclic(batch)
    &&& plan.order matches Some(order) ==> is_topological(batch, order)
}

/// The state in which `at` rows are inserted.
pub open spec fn settle_inserting(plan: SavePlan, at: nat) -> SaveState {
    if at < plan.len {
        SaveState { phase: SavePhase::Inserting, at, failure: None }
    } else {
        SaveState { phase: SavePhase::Finished, at: 0, failure: None }
    }
}

/// The state in which `at` blobs are stored.
pub open spec fn settle_storing(plan: SavePlan, at: nat) -> SaveState {
    if at < plan.len {
        SaveState { phase: SavePhase::Storing, at, failure: None }
    } else {
        settle_inserting(plan, 0)
    }
}

/// The state in which `at` parents were found. Once all are found, a batch
/// with a cycle fails, before anything is stored.
pub open spec fn settle_checking(plan: SavePlan, at: nat) -> SaveState {
    if at < plan.to_check.len() {
        SaveState { phase: SavePhase::Checking, at, failure: None }
    } else if plan.order is None {
        SaveState { phase: SavePhase::Checking, at, failure: Some(SaveError::CycleDetected) }
    } else {
        settle_storing(plan, 0)
    }
}

/// The state before any work.
pub open spec fn initial_state(plan: SavePlan) -> SaveState {
    settle_checking(plan, 0)
}

/// The state after the work that `state` asks for ended with `event`.
///
/// In a state that asks for no work nothing changes. A failure keeps the
/// phase and the count of what was done before it.
pub open spec fn state_after(plan: SavePlan, state: SaveState, event: SaveEvent) -> SaveState {
    if state.failure is Some {
        state
    } else {
        match state.phase {
            SavePhase::Checking => match event {
                SaveEvent::Done => settle_checking(plan, state.at + 1),
                SaveEvent::Missing => SaveState {
                    failure: Some(SaveError::MissingParent(plan.to_check[state.at as int])),
                    ..state
                },
                SaveEvent::Error => SaveState { failure: Some(SaveError::IoFailure), ..state },
            },
            SavePhase::Storing => match event {
                SaveEvent::Done => settle_storing(plan, state.at + 1),
                _ => SaveState { failure: Some(SaveError::BlobWriteFailure), ..state },
            },
            SavePhase::Inserting => match event {
                SaveEvent::Done => settle_inserting(plan, state.at + 1),
                _ => SaveState { failure: Some(SaveError::IoFailure), ..state },
            },
            SavePhase::Finished => state,
        }
    }
}

/// The work that `state` asks for.
pub open spec fn action_of(plan: SavePlan, state: SaveState) -> SaveAction {
    match state.failure {
        Some(e) => SaveAction::Failed(e),
        None => match state.phase {
            SavePhase::Checking => SaveAction::CheckParent(plan.to_check[state.at as int]),
            SavePhase::Storing => SaveAction::StoreBlob(state.at as usize),
            SavePhase::Inserting => SaveAction::InsertRow(plan.order->0[state.at as int]),
            SavePhase::Finished => SaveAction::Finished,
        },
    }
}

/// The order of a plan lists as many members as the batch has.
pub open spec fn plan_wf(plan: SavePlan) -> bool {
    plan.order matches Some(order) ==> order.len() == plan.len
}

/// The state asks for work that the plan holds.
pub open spec fn state_wf(plan: SavePlan, state: SaveState) -> bool {
    state.failure is None ==> match state.phase {
        SavePhase::Checking => state.at < plan.to_check.len(),
        SavePhase::Storing => state.at < plan.len && plan.order is Some,
        SavePhase::Inserting => state.at < plan.len && plan.order is Some,
        SavePhase::Finished => plan.order is Some,
    }
}

/// The members whose rows are inserted in `state`, in the order in which
/// they were inserted.
pub open spec fn rows_inserted(plan: SavePlan, state: SaveState) -> Seq<usize> {
    match state.phase {
        SavePhase::Inserting => plan.order->0.subrange(0, state.at as int),
        SavePhase::Finished => plan.order->0,
        _ => Seq::empty(),
    }
}

/// The number of members whose blobs are stored in `state`.
pub open spec fn blobs_stored(plan: SavePlan, state: SaveState) -> nat {
    match state.phase {
        SavePhase::Checking => 0,
        SavePhase::Storing => state.at,
        _ => plan.len,
    }
}

/// How far the work has come, as it is held.
enum Stage {
    Checking(usize),
    Storing(usize),
    Inserting(usize),
    Finished,
    Failed(SaveError, SavePhase, usize),
}

impl Stage {
    /// The state that the stage stands for.
    spec fn state(self) -> SaveState {
        match self {
            Stage::Checking(at) => SaveState {
                phase: SavePhase::Checking,
                at: at as nat,
                failure: None,
            },
            Stage::Storing(at) => SaveState { phase: SavePhase::Storing, at: at as nat, failure: None },
            Stage::Inserting(at) => SaveState {
                phase: SavePhase::Inserting,
                at: at as nat,
                failure: None,
            },
            Stage::Finished => SaveState { phase: SavePhase::Finished, at: 0, failure: None },
            Stage::Failed(e, phase, at) => SaveState { phase, at: at as nat, failure: Some(e) },
        }
    }
}

/// The saving of one batch: its plan and how far the work has come.
pub struct BatchSave {
    to_check: Vec<ChangesetId>,
    order: Option<Vec<usize>>,
    len: usize,
    stage: Stage,
}

/// The plan with the given parts.
spec fn plan_of(to_check: Seq<ChangesetId>, order: Option<Vec<usize>>, len: nat) -> SavePlan {
    SavePlan {
        to_check,
        order: match order {
            Some(order) => Some(order@),
            None => None,
        },
        len,
    }
}

/// The stage in which `at` rows are inserted.
fn inserting(len: usize, at: usize) -> (stage: Stage)
    ensures
        stage.state() == settle_inserting(
            SavePlan { to_check: Seq::empty(), order: None, len: len as nat },
            at as nat,
        ),
{
    if at < len {
        Stage::Inserting(at)
    } else {
        Stage::Finished
    }
}

/// The stage in which `at` blobs are stored.
fn storing(len: usize, at: usize) -> (stage: Stage)
    ensures
        stage.state() == settle_storing(
            SavePlan { to_check: Seq::empty(), order: None, len: len as nat },
            at as nat,
        ),
{
    if at < len {
        Stage::Storing(at)
    } else {
        inserting(len, 0)
    }
}

/// The stage in which `at` of `parents` parents were found.
fn checking(parents: usize, has_order: bool, len: usize, at: usize) -> (stage: Stage)
    ensures
        forall|plan: SavePlan|
            plan.to_check.len() == parents && (plan.order is Some) == has_order && plan.len == len
                ==> stage.state() == #[trigger] settle_checking(plan, at as nat),
{
    if at < parents {
        Stage::Checking(at)
    } else if !has_order {
        Stage::Failed(SaveError::CycleDetected, SavePhase::Checking, at)
    } else {
        storing(len, 0)
    }
}

impl BatchSave {
    /// The plan.
    pub closed spec fn plan(&self) -> SavePlan {
        plan_of(self.to_check@, self.order, self.len as nat)
    }

    /// How far the work has come.
    pub closed spec fn state(&self) -> SaveState {
        self.stage.state()
    }

    /// The plan is well formed, and the state asks for work that it holds.
    /// This holds of every value of the type.
    #[verifier::type_invariant]
    pub open spec fn wf(&self) -> bool {
        plan_wf(self.plan()) && state_wf(self.plan(), self.state())
    }

    /// Plans the saving of a batch.
    pub fn begin(batch: &Vec<BonsaiChangeset>) -> (save: BatchSave)
        ensures
            plan_fits(batch@, save.plan()),
            save.state() == initial_state(save.plan()),
            save.wf(),
    {
        let to_check = parents_to_check(batch);
        let order = sort_topological(batch);
        let stage = checking(to_check.len(), order.is_some(), batch.len(), 0);
        proof {
            assert(stage.state() == settle_checking(plan_of(to_check@, order, batch@.len()), 0));
        }
        BatchSave { to_check, order, len: batch.len(), stage }
    }

    /// The work to do next.
    pub fn action(&self) -> (action: SaveAction)
        ensures
            self.wf(),
            action == action_of(self.plan(), self.state()),
    {
        proof {
            use_type_invariant(self);
        }
        match self.stage {
            Stage::Failed(e, _, _) => SaveAction::Failed(e),
            Stage::Checking(at) => SaveAction::CheckParent(self.to_check[at]),
            Stage::Storing(at) => SaveAction::StoreBlob(at),
            Stage::Inserting(at) => match &self.order {
                Some(order) => SaveAction::InsertRow(order[at]),
                None => SaveAction::Finished,
            },
            Stage::Finished => SaveAction::Finished,
        }
    }

    /// Takes note of how the work last asked for ended, and returns the work
    /// to do next.
    pub fn advance(&mut self, event: SaveEvent) -> (action: SaveAction)
        ensures
            final(self).wf(),
            final(self).plan() == old(self).plan(),
            final(self).state() == state_after(old(self).plan(), old(self).state(), event),
            action == action_of(final(self).plan(), final(self).state()),
    {
        proof {
            use_type_invariant(&*self);
        }
        let parents = self.to_check.len();
        let has_order = self.order.is_some();
        let next = match self.stage {
            Stage::Checking(at) => match event {
                SaveEvent::Done => checking(parents, has_order, self.len, at + 1),
                SaveEvent::Missing => Stage::Failed(
                    SaveError::MissingParent(self.to_check[at]),
                    SavePhase::Checking,
                    at,
                ),
                SaveEvent::Error => Stage::Failed(SaveError::IoFailure, SavePhase::Checking, at),
            },
            Stage::Storing(at) => match event {
                SaveEvent::Done => storing(self.len, at + 1),
                _ => Stage::Failed(SaveError::BlobWriteFailure, SavePhase::Storing, at),
            },
            Stage::Inserting(at) => match event {
                SaveEvent::Done => inserting(self.len, at + 1),
                _ => Stage::Failed(SaveError::IoFailure, SavePhase::Inserting, at),
            },
            Stage::Finished => Stage::Finished,
            Stage::Failed(e, phase, at) => Stage::Failed(e, phase, at),
        };
        self.stage = next;
        self.action()
    }
}

/// The state after the pieces of work asked for, one after the other, ended
/// as `events` say.
pub open spec fn run(plan: SavePlan, events: Seq<SaveEvent>) -> SaveState
    decreases events.len(),
{
    if events.len() == 0 {
        initial_state(plan)
    } else {
        state_after(plan, run(plan, events.drop_last()), events.last())
    }
}

/// Whatever the stores report, the saving of a batch asks only for work that
/// its plan holds.
pub proof fn lemma_run_wf(plan: SavePlan, events: Seq<SaveEvent>)
    requires
        plan_wf(plan),
    ensures
        state_wf(plan, run(plan, events)),
    decreases events.len(),
{
    if events.len() > 0 {
        lemma_run_wf(plan, events.drop_last());
    }
}

/// A row is asked for only after the rows of all parents of its member that
/// are in the batch were inserted.
pub proof fn lemma_rows_asked_parents_first(
    batch: Seq<BonsaiChangeset>,
    plan: SavePlan,
    state: SaveState,
    parent: int,
)
    requires
        plan_fits(batch, plan),
        state_wf(plan, state),
        state.failure is None,
        state.phase == SavePhase::Inserting,
        crate::topo_sort::is_parent_edge(batch, parent, plan.order->0[state.at as int] as int),
    ensures
        action_of(plan, state) == SaveAction::InsertRow(plan.order->0[state.at as int]),
        rows_inserted(plan, state).contains(parent as usize),
{
    let order = plan.order->0;
    assert(crate::topo_sort::comes_before(order, parent, state.at as int));
    let y = choose|y: int| 0 <= y < state.at && y < order.len() && #[trigger] order[y] == parent;
    assert(rows_inserted(plan, state)[y] == parent as usize);
}

/// In every state, also one in which the work has failed, the rows that are
/// inserted are closed under parents: each member among them comes after all
/// its parents that are in the batch.
pub proof fn lemma_inserted_rows_closed(
    batch: Seq<BonsaiChangeset>,
    plan: SavePlan,
    state: SaveState,
    x: int,
    parent: int,
)
    requires
        plan_fits(batch, plan),
        state.phase == SavePhase::Inserting || state.phase == SavePhase::Finished ==> plan.order
            is Some && state.at <= plan.len,
        0 <= x < rows_inserted(plan, state).len(),
        crate::topo_sort::is_parent_edge(batch, parent, rows_inserted(plan, state)[x] as int),
    ensures
        exists|y: int| 0 <= y < x && #[trigger] rows_inserted(plan, state)[y] == parent,
{
    let order = plan.order->0;
    let inserted = rows_inserted(plan, state);
    assert(inserted[x] == order[x]);
    assert(crate::topo_sort::comes_before(order, parent, x));
    let y = choose|y: int| 0 <= y < x && y < order.len() && #[trigger] order[y] == parent;
    assert(inserted[y] == parent);
}

} // verus!
