//! The coordinate space of the forest: its dimensions, the positions in it
//! and the adjacency between them.

use vstd::prelude::*;

verus! {

/// Width of the forest, in cells.
pub const FOREST_X: usize = 90;

/// Height of the forest, in cells.
pub const FOREST_Y: usize = 30;

/// Number of cells in the forest.
pub const CELLS: usize = 2700;

/// The linear index of a cell: cells are numbered row by row, starting at 0
/// in the upper left corner.
pub type EntityId = usize;

/// A cell's coordinates: the column, then the row.
#[derive(Clone, Copy, Debug, PartialEq, Eq, Structural)]
pub struct Position(pub usize, pub usize);

/// The column of the cell with linear index `id`.
pub open spec fn column_of(id: int) -> int {
    id % (FOREST_X as int)
}

/// The row of the cell with linear index `id`.
pub open spec fn row_of(id: int) -> int {
    id / (FOREST_X as int)
}

/// The position of the cell with linear index `id`.
pub open spec fn position_of(id: int) -> Position {
    Position(column_of(id) as usize, row_of(id) as usize)
}

impl Position {
    /// Whether the position lies inside the forest.
    pub open spec fn in_grid(self) -> bool {
        self.0 < FOREST_X && self.1 < FOREST_Y
    }

    /// The linear index that belongs to these coordinates.
    pub open spec fn spec_entity_id(self) -> int {
        self.0 + self.1 * FOREST_X
    }

    /// The neighbor one row up, absent on the top edge.
    pub open spec fn spec_up(self) -> Option<Position> {
        if self.1 == 0 {
            None
        } else {
            Some(Position(self.0, (self.1 - 1) as usize))
        }
    }

    /// The neighbor one row down, absent on the bottom edge.
    pub open spec fn spec_down(self) -> Option<Position> {
        if self.1 == FOREST_Y - 1 {
            None
        } else {
            Some(Position(self.0, (self.1 + 1) as usize))
        }
    }

    /// The neighbor one column to the right, absent on the right edge.
    pub open spec fn spec_right(self) -> Option<Position> {
        if self.0 == FOREST_X - 1 {
            None
        } else {
            Some(Position((self.0 + 1) as usize, self.1))
        }
    }

    /// The neighbor one column to the left, absent on the left edge.
    pub open spec fn spec_left(self) -> Option<Position> {
        if self.0 == 0 {
            None
        } else {
            Some(Position((self.0 - 1) as usize, self.1))
        }
    }

    /// Computes the linear index of the cell.
    pub fn entity_id(&self) -> (id: EntityId)
        requires
            self.in_grid(),
        ensures
            id == self.spec_entity_id(),
            id < CELLS,
            position_of(id as int) == *self,
    {
        self.0 + self.1 * FOREST_X
    }

    /// The neighbor one row up, or `None` on the top edge.
    pub fn up(&self) -> (neighbor: Option<Position>)
        requires
            self.in_grid(),
        ensures
            neighbor == self.spec_up(),
            neighbor is None <==> self.1 == 0,
            neighbor matches Some(p) ==> p.in_grid() && p.spec_entity_id()
                == self.spec_entity_id() - FOREST_X,
    {
        if self.1 == 0 {
            None
        } else {
            Some(Position(self.0, self.1 - 1))
        }
    }

    /// The neighbor one row down, or `None` on the bottom edge.
    pub fn down(&self) -> (neighbor: Option<Position>)
        requires
            self.in_grid(),
        ensures
            neighbor == self.spec_down(),
            neighbor is None <==> self.1 == FOREST_Y - 1,
            neighbor matches Some(p) ==> p.in_grid() && p.spec_entity_id()
                == self.spec_entity_id() + FOREST_X,
    {
        if self.1 == FOREST_Y - 1 {
            None
        } else {
            Some(Position(self.0, self.1 + 1))
        }
    }

    /// The neighbor one column to the right, or `None` on the right edge.
    pub fn right(&self) -> (neighbor: Option<Position>)
        requires
            self.in_grid(),
        ensures
            neighbor == self.spec_right(),
            neighbor is None <==> self.0 == FOREST_X - 1,
            neighbor matches Some(p) ==> p.in_grid() && p.spec_entity_id()
                == self.spec_entity_id() + 1,
    {
        if self.0 == FOREST_X - 1 {
            None
        } else {
            Some(Position(self.0 + 1, self.1))
        }
    }

    /// The neighbor one column to the left, or `None` on the left edge.
    pub fn left(&self) -> (neighbor: Option<Position>)
        requires
            self.in_grid(),
        ensures
            neighbor == self.spec_left(),
            neighbor is None <==> self.0 == 0,
            neighbor matches Some(p) ==> p.in_grid() && p.spec_entity_id()
                == self.spec_entity_id() - 1,
    {
        if self.0 == 0 {
            None
        } else {
            Some(Position(self.0 - 1, self.1))
        }
    }
}

/// The forest has one cell for each column of each row.
pub proof fn lemma_cells_fill_the_grid()
    ensures
        CELLS == FOREST_X * FOREST_Y,
{
}

/// Coordinates and linear indices correspond one to one: every position in
/// the forest has an index below `CELLS`, and that index leads back to the
/// position.
pub proof fn lemma_entity_id_round_trip(p: Position)
    requires
        p.in_grid(),
    ensures
        0 <= p.spec_entity_id() < CELLS,
        position_of(p.spec_entity_id()) == p,
{
}

/// Every index below `CELLS` belongs to a position in the forest, and that
/// position has this index.
pub proof fn lemma_position_of_round_trip(id: int)
    requires
        0 <= id < CELLS,
    ensures
        position_of(id).in_grid(),
        position_of(id).spec_entity_id() == id,
{
}

/// Two positions in the forest with the same linear index are the same.
pub proof fn lemma_entity_id_injective(p: Position, q: Position)
    requires
        p.in_grid(),
        q.in_grid(),
        p.spec_entity_id() == q.spec_entity_id(),
    ensures
        p == q,
{
}

/// A position on an edge of the forest has no neighbor beyond that edge, and
/// only such a position lacks one.
pub proof fn lemma_neighbors_absent_on_edges(p: Position)
    requires
        p.in_grid(),
    ensures
        p.spec_up() is None <==> p.1 == 0,
        p.spec_down() is None <==> p.1 == FOREST_Y - 1,
        p.spec_left() is None <==> p.0 == 0,
        p.spec_right() is None <==> p.0 == FOREST_X - 1,
{
}

/// A neighbor that exists lies in the forest, one row or one column away,
/// and its linear index is the one that this offset gives.
pub proof fn lemma_neighbors_present(p: Position)
    requires
        p.in_grid(),
    ensures
        p.spec_up() matches Some(q) ==> q.in_grid() && q == Position(p.0, (p.1 - 1) as usize)
            && q.spec_entity_id() == p.spec_entity_id() - FOREST_X,
        p.spec_down() matches Some(q) ==> q.in_grid() && q == Position(p.0, (p.1 + 1) as usize)
            && q.spec_entity_id() == p.spec_entity_id() + FOREST_X,
        p.spec_left() matches Some(q) ==> q.in_grid() && q == Position((p.0 - 1) as usize, p.1)
            && q.spec_entity_id() == p.spec_entity_id() - 1,
        p.spec_right() matches Some(q) ==> q.in_grid() && q == Position((p.0 + 1) as usize, p.1)
            && q.spec_entity_id() == p.spec_entity_id() + 1,
{
}

/// A position that lies on no edge has all four neighbors.
pub proof fn lemma_interior_has_four_neighbors(p: Position)
    requires
        0 < p.0 < FOREST_X - 1,
        0 < p.1 < FOREST_Y - 1,
    ensures
        p.spec_up() is Some,
        p.spec_down() is Some,
        p.spec_left() is Some,
        p.spec_right() is Some,
        p.spec_up()->0.spec_entity_id() == p.spec_entity_id() - FOREST_X,
        p.spec_down()->0.spec_entity_id() == p.spec_entity_id() + FOREST_X,
        p.spec_left()->0.spec_entity_id() == p.spec_entity_id() - 1,
        p.spec_right()->0.spec_entity_id() == p.spec_entity_id() + 1,
{
}

} // verus!
