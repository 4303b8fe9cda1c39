//! How fire starts and how it moves from one cycle to the next.

use vstd::prelude::*;
use crate::forest::{ArState, Trees};
use crate::grid::{Position, CELLS, column_of, position_of};
use crate::tree::TreeState;

verus! {

/// The forest after fire has been set to the leftmost column: every living
/// tree in column 0 is ignited and nothing else changes.
pub open spec fn seeded(states: Seq<TreeState>) -> Seq<TreeState> {
    Seq::new(
        states.len(),
        |i: int|
            if column_of(i) == 0 {
                states[i].ignited()
            } else {
                states[i]
            },
    )
}

/// The forest after every cell has decayed by one step.
pub open spec fn decayed(states: Seq<TreeState>) -> Seq<TreeState> {
    Seq::new(states.len(), |i: int| states[i].decayed())
}

/// Whether `neighbor` exists and holds a burning tree.
pub open spec fn burning_at(states: Seq<TreeState>, neighbor: Option<Position>) -> bool {
    neighbor matches Some(p) && states[p.spec_entity_id()] is Burning
}

/// Whether one of the up to four neighbors of cell `id` is burning.
pub open spec fn heated(states: Seq<TreeState>, id: int) -> bool {
    let p = position_of(id);
    ||| burning_at(states, p.spec_up())
    ||| burning_at(states, p.spec_down())
    ||| burning_at(states, p.spec_right())
    ||| burning_at(states, p.spec_left())
}

/// The forest after every burning tree has set fire to its neighbors.
pub open spec fn propagated(states: Seq<TreeState>) -> Seq<TreeState> {
    Seq::new(
        states.len(),
        |i: int|
            if heated(states, i) {
                states[i].ignited()
            } else {
                states[i]
            },
    )
}

/// The forest one cycle later: all cells decay first, and only then do the
/// trees that burn after the decay ignite their neighbors.
pub open spec fn cycled(states: Seq<TreeState>) -> Seq<TreeState> {
    propagated(decayed(states))
}

/// Whether fire is at work anywhere in the forest.
pub open spec fn fire_active(states: Seq<TreeState>) -> bool {
    exists|i: int| 0 <= i < states.len() && (#[trigger] states[i]).on_fire()
}

/// What a cycle does to a single cell. Bare ground and burned trees stay as
/// they are. An ignited tree burns and a burning tree is consumed, whatever
/// stands around them. A living tree ignites exactly if one of its neighbors
/// burns once all cells have decayed, that is, if the neighbor was ignited
/// before the cycle.
pub proof fn lemma_cycle_cell_by_cell(states: Seq<TreeState>, i: int)
    requires
        states.len() == CELLS,
        0 <= i < CELLS,
    ensures
        cycled(states)[i] == match states[i] {
            TreeState::Clear => TreeState::Clear,
            TreeState::Living => if heated(decayed(states), i) {
                TreeState::Ignited
            } else {
                TreeState::Living
            },
            TreeState::Ignited => TreeState::Burning,
            TreeState::Burning => TreeState::Burned,
            TreeState::Burned => TreeState::Burned,
        },
        burning_at(decayed(states), position_of(i).spec_up()) <==> (position_of(i).spec_up()
            matches Some(p) && states[p.spec_entity_id()] is Ignited),
        burning_at(decayed(states), position_of(i).spec_down()) <==> (position_of(i).spec_down()
            matches Some(p) && states[p.spec_entity_id()] is Ignited),
        burning_at(decayed(states), position_of(i).spec_left()) <==> (position_of(i).spec_left()
            matches Some(p) && states[p.spec_entity_id()] is Ignited),
        burning_at(decayed(states), position_of(i).spec_right()) <==> (position_of(i).spec_right()
            matches Some(p) && states[p.spec_entity_id()] is Ignited),
{
}

/// A cycle changes no cell's kind and moves no tree backwards: bare ground
/// stays bare, and a tree is afterwards at least as far along
/// `Living`, `Ignited`, `Burning`, `Burned` as it was before, by one step at
/// most.
pub proof fn lemma_cycle_never_regresses(states: Seq<TreeState>)
    ensures
        cycled(states).len() == states.len(),
        forall|i: int|
            0 <= i < states.len() ==> (#[trigger] states[i]).never_regresses_to(cycled(states)[i]),
        forall|i: int|
            0 <= i < states.len() ==> cycled(states)[i].stage() <= (#[trigger] states[i]).stage()
                + 1,
{
}

/// Setting fire to the leftmost column moves no tree backwards and leaves
/// bare ground bare.
pub proof fn lemma_seeding_never_regresses(states: Seq<TreeState>)
    ensures
        seeded(states).len() == states.len(),
        forall|i: int|
            0 <= i < states.len() ==> (#[trigger] states[i]).never_regresses_to(seeded(states)[i]),
{
}

/// Without a living tree in the leftmost column no fire starts: setting fire
/// to it changes nothing.
pub proof fn lemma_seeding_needs_a_tree(states: Seq<TreeState>)
    requires
        forall|i: int|
            0 <= i < states.len() && column_of(i) == 0 ==> !((#[trigger] states[i]) is Living),
    ensures
        seeded(states) == states,
{
}

/// Whether `neighbor` exists, has a linear index below `bound` and holds a
/// burning tree.
spec fn burning_below(states: Seq<TreeState>, neighbor: Option<Position>, bound: int) -> bool {
    neighbor matches Some(p) && p.spec_entity_id() < bound && states[p.spec_entity_id()] is Burning
}

/// Whether a neighbor of cell `id` with a linear index below `bound` is
/// burning.
#[verifier::opaque]
spec fn heated_below(states: Seq<TreeState>, id: int, bound: int) -> bool {
    let p = position_of(id);
    ||| burning_below(states, p.spec_up(), bound)
    ||| burning_below(states, p.spec_down(), bound)
    ||| burning_below(states, p.spec_right(), bound)
    ||| burning_below(states, p.spec_left(), bound)
}

/// Whether cell `k` is one of the neighbors of cell `i`.
#[verifier::opaque]
spec fn touches(i: int, k: int) -> bool {
    let p = position_of(i);
    ||| (p.spec_up() matches Some(q) && q.spec_entity_id() == k)
    ||| (p.spec_down() matches Some(q) && q.spec_entity_id() == k)
    ||| (p.spec_right() matches Some(q) && q.spec_entity_id() == k)
    ||| (p.spec_left() matches Some(q) && q.spec_entity_id() == k)
}

/// Raising the bound past cell `i` adds the heat of cell `i` and nothing
/// else: adjacency is symmetric.
proof fn lemma_heated_below_step(states: Seq<TreeState>, k: int, i: int)
    requires
        0 <= k < CELLS,
        0 <= i < CELLS,
    ensures
        heated_below(states, k, i + 1) == (heated_below(states, k, i) || (touches(i, k)
            && states[i] is Burning)),
{
    reveal(heated_below);
    reveal(touches);
}

/// With the bound at the first cell no neighbor counts.
proof fn lemma_heated_below_none(states: Seq<TreeState>, k: int)
    requires
        0 <= k < CELLS,
    ensures
        !heated_below(states, k, 0),
{
    reveal(heated_below);
}

/// With the bound at the end of the forest every neighbor counts.
proof fn lemma_heated_below_all(states: Seq<TreeState>, k: int)
    requires
        0 <= k < CELLS,
    ensures
        heated_below(states, k, CELLS as int) == heated(states, k),
{
    reveal(heated_below);
}

/// Sets fire to the leftmost column.
pub fn start_fire(forest: &mut Trees)
    ensures
        final(forest)@ == seeded(old(forest)@),
        forall|i: int|
            0 <= i < CELLS ==> (#[trigger] old(forest)@[i]).never_regresses_to(final(forest)@[i]),
{
    for i in 0..CELLS
        invariant
            forest.state@.len() == CELLS,
            forall|k: int| 0 <= k < i ==> #[trigger] forest.state@[k] == seeded(old(forest)@)[k],
            forall|k: int| i <= k < CELLS ==> #[trigger] forest.state@[k] == old(forest)@[k],
    {
        proof {
            use_type_invariant(&*forest);
        }
        if forest.position[i].0 == 0 && forest.state[i] == TreeState::Living {
            forest.state[i] = TreeState::Ignited;
        }
    }
}

/// Advances the forest by one cycle.
pub fn spread_fire(forest: &mut Trees)
    ensures
        final(forest)@ == cycled(old(forest)@),
        forall|i: int|
            0 <= i < CELLS ==> (#[trigger] old(forest)@[i]).never_regresses_to(final(forest)@[i]),
{
    for i in 0..CELLS
        invariant
            forest.state@.len() == CELLS,
            forall|k: int| 0 <= k < i ==> #[trigger] forest.state@[k] == old(forest)@[k].decayed(),
            forall|k: int| i <= k < CELLS ==> #[trigger] forest.state@[k] == old(forest)@[k],
    {
        proof {
            use_type_invariant(&*forest);
        }
        match forest.state[i] {
            TreeState::Burning => {
                forest.state[i] = TreeState::Burned
            },
            TreeState::Ignited => {
                forest.state[i] = TreeState::Burning
            },
            _ => (),
        }
    }
    let ghost cooled = forest.state@;
    assert(cooled == decayed(old(forest)@));
    assert forall|k: int| 0 <= k < CELLS implies !heated_below(cooled, k, 0) by {
        lemma_heated_below_none(cooled, k);
    }

    for i in 0..CELLS
        invariant
            cooled.len() == CELLS,
            forest.state@.len() == CELLS,
            forall|k: int|
                0 <= k < CELLS ==> #[trigger] forest.state@[k] == (if heated_below(
                    cooled,
                    k,
                    i as int,
                ) {
                    cooled[k].ignited()
                } else {
                    cooled[k]
                }),
    {
        proof {
            use_type_invariant(&*forest);
        }
        let ghost before = forest.state@;
        if forest.state[i] == TreeState::Burning {
            let here = forest.position[i];
            if let Some(neighbor_up) = here.up() {
                forest.ignite(neighbor_up.entity_id());
            }
            if let Some(neighbor_down) = here.down() {
                forest.ignite(neighbor_down.entity_id());
            }
            if let Some(neighbor_right) = here.right() {
                forest.ignite(neighbor_right.entity_id());
            }
            if let Some(neighbor_left) = here.left() {
                forest.ignite(neighbor_left.entity_id());
            }
            assert forall|k: int| 0 <= k < CELLS implies #[trigger] forest.state@[k] == (if touches(
                i as int,
                k,
            ) {
                before[k].ignited()
            } else {
                before[k]
            }) by {
                reveal(touches);
            }
        }
        assert forall|k: int| 0 <= k < CELLS implies #[trigger] forest.state@[k] == (
        if heated_below(cooled, k, i + 1) {
            cooled[k].ignited()
        } else {
            cooled[k]
        }) by {
            lemma_heated_below_step(cooled, k, i as int);
        }
    }
    assert(forest.state@ == propagated(cooled)) by {
        assert forall|k: int| 0 <= k < CELLS implies forest.state@[k] == propagated(cooled)[k] by {
            lemma_heated_below_all(cooled, k);
        }
    }
}

/// Tells whether fire is still at work anywhere in the forest.
pub fn check_fire_active(trees: &ArState) -> (active: bool)
    ensures
        active == fire_active(trees@),
{
    for i in 0..CELLS
        invariant
            forall|k: int| 0 <= k < i ==> !(#[trigger] trees@[k]).on_fire(),
    {
        if trees[i] == TreeState::Ignited || trees[i] == TreeState::Burning {
            return true;
        }
    }
    false
}

} // verus!
