//! The forest: every cell's position and state, held side by side.

use vstd::prelude::*;
use crate::grid::{Position, CELLS, FOREST_X, FOREST_Y, EntityId, position_of};
use crate::tree::TreeState;

verus! {

/// The positions of all cells, by linear index.
pub type ArPosition = [Position; CELLS];

/// The states of all cells, by linear index.
pub type ArState = [TreeState; CELLS];

/// A forest of `FOREST_X` by `FOREST_Y` cells.
///
/// Positions and states are two arrays of the same length. The cell with
/// linear index `i` always lies at the coordinates that belong to `i`; only
/// the states ever change.
pub struct Trees {
    pub(crate) position: ArPosition,
    pub(crate) state: ArState,
}

/// The positions of a forest in row-major order.
pub open spec fn row_major(positions: Seq<Position>) -> bool {
    &&& positions.len() == CELLS
    &&& forall|i: int| 0 <= i < CELLS ==> #[trigger] positions[i] == position_of(i)
}

impl View for Trees {
    type V = Seq<TreeState>;

    /// The states of all cells, by linear index.
    open(crate) spec fn view(&self) -> Seq<TreeState> {
        self.state@
    }
}

impl Trees {
    /// What holds of every forest: the positions are laid out row by row.
    #[verifier::type_invariant]
    pub(crate) open spec fn laid_out(&self) -> bool {
        row_major(self.position@)
    }

    /// Every forest has `CELLS` cells.
    pub proof fn lemma_size(&self)
        ensures
            self@.len() == CELLS,
    {
    }

    /// A forest whose cells have the given states.
    pub fn from_states(state: ArState) -> (forest: Trees)
        ensures
            forest@ == state@,
    {
        let mut position = [Position(0, 0); CELLS];
        let mut p: usize = 0;
        for j in 0..FOREST_Y
            invariant
                p == j * FOREST_X,
                forall|k: int| 0 <= k < p ==> #[trigger] position@[k] == position_of(k),
        {
            for i in 0..FOREST_X
                invariant
                    j < FOREST_Y,
                    p == j * FOREST_X + i,
                    forall|k: int| 0 <= k < p ==> #[trigger] position@[k] == position_of(k),
            {
                position[p] = Position(i, j);
                p += 1;
            }
        }
        Trees { position, state }
    }

    /// An empty forest: bare ground everywhere.
    pub fn init() -> (forest: Trees)
        ensures
            forest@.len() == CELLS,
            forall|i: int| 0 <= i < CELLS ==> forest@[i] is Clear,
    {
        Trees::from_states([TreeState::Clear; CELLS])
    }

    /// The states of all cells.
    pub fn states(&self) -> (state: &ArState)
        ensures
            state@ == self@,
    {
        &self.state
    }

    /// The positions of all cells.
    pub fn positions(&self) -> (position: &ArPosition)
        ensures
            row_major(position@),
    {
        proof {
            use_type_invariant(self);
        }
        &self.position
    }

    /// Sets the tree on cell `id` on fire if it is a living one.
    pub fn ignite(&mut self, id: EntityId)
        requires
            id < CELLS,
        ensures
            final(self)@ == old(self)@.update(id as int, old(self)@[id as int].ignited()),
    {
        proof {
            use_type_invariant(&*self);
        }
        let mut cell = self.state[id];
        cell.ignite_living();
        self.state[id] = cell;
    }
}

} // verus!
