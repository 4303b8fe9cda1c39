//! Counting trees and measuring how much of the forest has burned.

use vstd::prelude::*;
use crate::forest::ArState;
use crate::grid::CELLS;
use crate::tree::TreeState;

verus! {

/// The number of cells in state `which` among the first `n` cells.
pub open spec fn count_among(states: Seq<TreeState>, which: TreeState, n: int) -> nat
    decreases n,
{
    if n <= 0 {
        0
    } else {
        count_among(states, which, n - 1) + if states[n - 1] == which {
            1nat
        } else {
            0nat
        }
    }
}

/// The number of cells in state `which`.
pub open spec fn count(states: Seq<TreeState>, which: TreeState) -> nat {
    count_among(states, which, states.len() as int)
}

/// The share of the trees that burned down: `burned` out of `flammable`.
#[derive(Clone, Copy, Debug, PartialEq, Eq, Structural)]
pub struct BurnRate {
    /// The number of trees that burned down.
    pub burned: usize,
    /// The number of trees that burned down or still stand.
    pub flammable: usize,
}

impl BurnRate {
    /// Whether the rate is a fraction between 0 and 1: the denominator is
    /// not zero and the numerator does not exceed it.
    pub open spec fn in_unit_interval(self) -> bool {
        0 <= self.burned <= self.flammable && self.flammable > 0
    }
}

/// No more cells are counted than there are.
pub proof fn lemma_count_among_bounded(states: Seq<TreeState>, which: TreeState, n: int)
    ensures
        count_among(states, which, n) <= if n <= 0 {
            0
        } else {
            n
        },
    decreases n,
{
    if n > 0 {
        lemma_count_among_bounded(states, which, n - 1);
    }
}

/// A cell is counted under one state only.
pub proof fn lemma_count_among_disjoint(
    states: Seq<TreeState>,
    one: TreeState,
    other: TreeState,
    n: int,
)
    requires
        one != other,
    ensures
        count_among(states, one, n) + count_among(states, other, n) <= if n <= 0 {
            0
        } else {
            n
        },
    decreases n,
{
    if n > 0 {
        lemma_count_among_disjoint(states, one, other, n - 1);
    }
}

/// Where no cell enters state `which`, its count does not grow.
pub proof fn lemma_count_among_shrinks(
    before: Seq<TreeState>,
    after: Seq<TreeState>,
    which: TreeState,
    n: int,
)
    requires
        forall|i: int| 0 <= i < n && #[trigger] after[i] == which ==> before[i] == which,
    ensures
        count_among(after, which, n) <= count_among(before, which, n),
    decreases n,
{
    if n > 0 {
        lemma_count_among_shrinks(before, after, which, n - 1);
    }
}

/// Where no cell enters state `which` and cell `gone` leaves it, its count
/// drops.
pub proof fn lemma_count_among_drops(
    before: Seq<TreeState>,
    after: Seq<TreeState>,
    which: TreeState,
    n: int,
    gone: int,
)
    requires
        forall|i: int| 0 <= i < n && #[trigger] after[i] == which ==> before[i] == which,
        0 <= gone < n,
        before[gone] == which,
        after[gone] != which,
    ensures
        count_among(after, which, n) < count_among(before, which, n),
    decreases n,
{
    if gone == n - 1 {
        lemma_count_among_shrinks(before, after, which, n - 1);
    } else {
        lemma_count_among_drops(before, after, which, n - 1, gone);
    }
}

/// Where some cell is in another state, not all cells are counted.
pub proof fn lemma_count_among_misses(
    states: Seq<TreeState>,
    which: TreeState,
    n: int,
    other: int,
)
    requires
        0 <= other < n,
        states[other] != which,
    ensures
        count_among(states, which, n) < n,
    decreases n,
{
    if other == n - 1 {
        lemma_count_among_bounded(states, which, n - 1);
    } else {
        lemma_count_among_misses(states, which, n - 1, other);
    }
}

/// Counts the cells in state `which`.
pub fn count_trees(trees: &ArState, which: TreeState) -> (n: usize)
    ensures
        n == count(trees@, which),
        n <= CELLS,
{
    let mut n: usize = 0;
    for i in 0..CELLS
        invariant
            n == count_among(trees@, which, i as int),
            n <= i,
    {
        if trees[i] == which {
            n += 1;
        }
    }
    n
}

/// The burn rate of the forest: the trees that burned down out of those that
/// burned down or still stand. Bare ground and trees on fire count on neither
/// side. There is no rate where no tree has burned down and none stands.
pub fn calculate_burn_rate(trees: &ArState) -> (rate: Option<BurnRate>)
    ensures
        rate is None <==> count(trees@, TreeState::Burned) + count(trees@, TreeState::Living) == 0,
        rate matches Some(r) ==> r.burned == count(trees@, TreeState::Burned) && r.flammable
            == count(trees@, TreeState::Burned) + count(trees@, TreeState::Living),
        rate matches Some(r) ==> r.in_unit_interval() && r.flammable <= CELLS,
{
    let burned = count_trees(trees, TreeState::Burned);
    let living = count_trees(trees, TreeState::Living);
    proof {
        lemma_count_among_disjoint(trees@, TreeState::Burned, TreeState::Living, CELLS as int);
    }
    if burned == 0 && living == 0 {
        None
    } else {
        Some(BurnRate { burned, flammable: living + burned })
    }
}

} // verus!
