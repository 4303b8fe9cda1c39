//! A whole fire, cycle after cycle, and what holds of every such run.

use vstd::prelude::*;
use crate::census::{count, lemma_count_among_bounded, lemma_count_among_drops,
    lemma_count_among_misses, lemma_count_among_shrinks};
use crate::fire::{burning_at, check_fire_active, cycled, decayed, fire_active, heated,
    lemma_cycle_never_regresses, propagated, seeded, spread_fire};
use crate::forest::Trees;
use crate::grid::{Position, CELLS, FOREST_Y, column_of, position_of};
use crate::tree::TreeState;

verus! {

/// The number of cycles after which a run is cut short. A fire that winds
/// through the forest can last longer; `CELLS + 1` cycles are enough for
/// every fire.
pub const MAX_CYCLES: usize = 1024;

/// The forest `n` cycles later.
pub open spec fn after_cycles(states: Seq<TreeState>, n: nat) -> Seq<TreeState>
    decreases n,
{
    if n == 0 {
        states
    } else {
        cycled(after_cycles(states, (n - 1) as nat))
    }
}

/// The number of cycles that a run takes when it may take `budget` at most:
/// it goes on cycle by cycle and stops after the first one that leaves no
/// fire behind.
pub open spec fn run_length(states: Seq<TreeState>, budget: nat) -> nat
    decreases budget,
{
    if budget == 0 {
        0
    } else if !fire_active(cycled(states)) {
        1
    } else {
        1 + run_length(cycled(states), (budget - 1) as nat)
    }
}

/// Whether some cell is in state `which`.
pub open spec fn any_in(states: Seq<TreeState>, which: TreeState) -> bool {
    exists|i: int| 0 <= i < states.len() && #[trigger] states[i] == which
}

/// An upper bound on the number of cycles that the fire can last. Every cycle
/// but the last two needs a living tree to ignite: once nothing new ignites,
/// what is ignited burns for one cycle and is then consumed.
pub open spec fn fuel(states: Seq<TreeState>) -> nat {
    count(states, TreeState::Living) + if any_in(states, TreeState::Ignited) {
        2nat
    } else if any_in(states, TreeState::Burning) {
        1nat
    } else {
        0nat
    }
}

/// Lets the fire run its course: cycle after cycle until a cycle leaves no
/// fire behind, but for `max_cycles` cycles at most. Returns the number of
/// cycles that were run.
///
/// The fire is looked for after each cycle, not before the first one. With a
/// budget of at least `fuel` cycles the fire is out at the end; `CELLS + 1`
/// is such a budget for every forest.
pub fn burn_out(forest: &mut Trees, max_cycles: usize) -> (cycles: usize)
    ensures
        cycles == run_length(old(forest)@, max_cycles as nat),
        cycles <= max_cycles,
        final(forest)@ == after_cycles(old(forest)@, cycles as nat),
        max_cycles >= fuel(old(forest)@) ==> !fire_active(final(forest)@),
{
    let mut cycles: usize = 0;
    while cycles < max_cycles
        invariant_except_break
            cycles <= max_cycles,
            forest@ == after_cycles(old(forest)@, cycles as nat),
            run_length(old(forest)@, max_cycles as nat) == cycles + run_length(
                forest@,
                (max_cycles - cycles) as nat,
            ),
        ensures
            cycles <= max_cycles,
            forest@ == after_cycles(old(forest)@, cycles as nat),
            cycles == run_length(old(forest)@, max_cycles as nat),
        decreases max_cycles - cycles,
    {
        let ghost before = forest@;
        spread_fire(forest);
        cycles += 1;
        let active = check_fire_active(forest.states());
        proof {
            lemma_run_length_unfolds(before, (max_cycles - cycles + 1) as nat);
        }
        if !active {
            break ;
        }
    }
    proof {
        if max_cycles >= fuel(old(forest)@) {
            lemma_run_ends_extinguished(old(forest)@, max_cycles as nat);
        }
    }
    cycles
}

/// A run with a budget left takes one cycle and then, if that left fire
/// behind, what a run from there takes with the rest of the budget.
proof fn lemma_run_length_unfolds(states: Seq<TreeState>, budget: nat)
    requires
        budget > 0,
    ensures
        run_length(states, budget) == if !fire_active(cycled(states)) {
            1
        } else {
            1 + run_length(cycled(states), (budget - 1) as nat)
        },
        run_length(cycled(states), 0) == 0,
{
}

/// A run never adds or removes a cell.
pub proof fn lemma_run_keeps_size(states: Seq<TreeState>, n: nat)
    ensures
        after_cycles(states, n).len() == states.len(),
    decreases n,
{
    if n > 0 {
        lemma_run_keeps_size(states, (n - 1) as nat);
    }
}

/// Running one cycle and then `n` more is running `n + 1` cycles.
pub proof fn lemma_after_cycles_shift(states: Seq<TreeState>, n: nat)
    ensures
        after_cycles(cycled(states), n) == after_cycles(states, n + 1),
    decreases n,
{
    if n > 0 {
        lemma_after_cycles_shift(states, (n - 1) as nat);
    } else {
        assert(after_cycles(states, 1) == cycled(after_cycles(states, 0)));
    }
}

// ---------------------------------------------------------------------------
// No cell ever moves backwards.
// ---------------------------------------------------------------------------

/// Over any stretch of a run, from cycle `m` to a later cycle `n`, no tree
/// moves backwards along `Living`, `Ignited`, `Burning`, `Burned`, and bare
/// ground stays bare.
pub proof fn lemma_run_never_regresses(states: Seq<TreeState>, m: nat, n: nat)
    requires
        m <= n,
    ensures
        after_cycles(states, n).len() == states.len(),
        after_cycles(states, m).len() == states.len(),
        forall|i: int|
            0 <= i < states.len() ==> (#[trigger] after_cycles(states, m)[i]).never_regresses_to(
                after_cycles(states, n)[i],
            ),
    decreases n,
{
    if m == n {
        lemma_run_keeps_size(states, n);
    } else {
        lemma_run_never_regresses(states, m, (n - 1) as nat);
        lemma_cycle_never_regresses(after_cycles(states, (n - 1) as nat));
    }
}

/// A cycle leaves bare ground bare and never brings a burned tree back: the
/// number of bare cells stays the same and the number of burned trees does
/// not drop.
pub proof fn lemma_cycle_keeps_counts(states: Seq<TreeState>)
    ensures
        cycled(states).len() == states.len(),
        count(cycled(states), TreeState::Clear) == count(states, TreeState::Clear),
        count(cycled(states), TreeState::Burned) >= count(states, TreeState::Burned),
{
    let next = cycled(states);
    let n = states.len() as int;
    lemma_cycle_never_regresses(states);
    assert forall|i: int| 0 <= i < n implies ((#[trigger] next[i]) is Clear <==> states[i] is Clear)
        && (states[i] is Burned ==> next[i] is Burned) by {
        assert(states[i].never_regresses_to(next[i]));
    }
    lemma_count_among_shrinks(states, next, TreeState::Clear, n);
    lemma_count_among_shrinks(next, states, TreeState::Clear, n);
    lemma_count_among_shrinks(next, states, TreeState::Burned, n);
}

/// Over any stretch of a run, from cycle `m` to a later cycle `n`, the number
/// of bare cells stays the same and the number of burned trees does not drop.
pub proof fn lemma_run_keeps_counts(states: Seq<TreeState>, m: nat, n: nat)
    requires
        m <= n,
    ensures
        count(after_cycles(states, n), TreeState::Clear) == count(
            after_cycles(states, m),
            TreeState::Clear,
        ),
        count(after_cycles(states, n), TreeState::Burned) >= count(
            after_cycles(states, m),
            TreeState::Burned,
        ),
    decreases n,
{
    if m < n {
        lemma_run_keeps_counts(states, m, (n - 1) as nat);
        lemma_cycle_keeps_counts(after_cycles(states, (n - 1) as nat));
    }
}

// ---------------------------------------------------------------------------
// The fire advances by one cell per cycle.
// ---------------------------------------------------------------------------

/// The distance between two positions when only steps to a neighbor count.
pub open spec fn manhattan(a: Position, b: Position) -> int {
    (if a.0 >= b.0 {
        a.0 - b.0
    } else {
        b.0 - a.0
    }) + (if a.1 >= b.1 {
        a.1 - b.1
    } else {
        b.1 - a.1
    })
}

/// The cell of the leftmost column in row `row`.
pub open spec fn first_column(row: int) -> Position {
    Position(0, row as usize)
}

/// Whether some cell of the leftmost column lies within `n` steps of `p`.
pub open spec fn near_first_column(p: Position, n: nat) -> bool {
    exists|row: int| 0 <= row < FOREST_Y && manhattan(p, #[trigger] first_column(row)) <= n
}

/// Whether every cell on fire lies in column `n` or to the left of it.
pub open spec fn fire_within(states: Seq<TreeState>, n: nat) -> bool {
    forall|i: int| 0 <= i < states.len() && (#[trigger] states[i]).on_fire() ==> column_of(i) <= n
}

/// A position lies within `n` steps of the leftmost column exactly if its
/// column is `n` at most.
pub proof fn lemma_near_first_column(p: Position, n: nat)
    requires
        p.in_grid(),
    ensures
        near_first_column(p, n) <==> p.0 <= n,
{
    if p.0 <= n {
        assert(manhattan(p, first_column(p.1 as int)) <= n);
    }
}

/// In a forest that holds living trees and bare ground only, as one that was
/// just planted, nothing is on fire.
pub proof fn lemma_fresh_forest_has_no_fire(states: Seq<TreeState>)
    requires
        forall|i: int|
            0 <= i < states.len() ==> (#[trigger] states[i]) is Living || states[i] is Clear,
    ensures
        !fire_active(states),
        fire_within(states, 0),
{
}

/// A heated cell has a burning tree next to it, one column away at most.
proof fn lemma_heat_has_a_source(states: Seq<TreeState>, i: int)
    requires
        states.len() == CELLS,
        0 <= i < CELLS,
        heated(states, i),
    ensures
        exists|j: int|
            0 <= j < CELLS && #[trigger] states[j] == TreeState::Burning && column_of(i)
                <= column_of(j) + 1,
{
    let p = position_of(i);
    let q = if burning_at(states, p.spec_up()) {
        p.spec_up()
    } else if burning_at(states, p.spec_down()) {
        p.spec_down()
    } else if burning_at(states, p.spec_right()) {
        p.spec_right()
    } else {
        p.spec_left()
    };
    let j = q->0.spec_entity_id();
    assert(0 <= j < CELLS && states[j] == TreeState::Burning && column_of(i) <= column_of(j) + 1);
}

/// In one cycle the fire gains one column at most.
pub proof fn lemma_fire_front_step(states: Seq<TreeState>, n: nat)
    requires
        states.len() == CELLS,
        fire_within(states, n),
    ensures
        fire_within(cycled(states), n + 1),
{
    let cooled = decayed(states);
    let next = cycled(states);
    assert forall|i: int| 0 <= i < next.len() && (#[trigger] next[i]).on_fire() implies column_of(
        i,
    ) <= n + 1 by {
        if next[i] is Burning {
            assert(states[i].on_fire());
        } else {
            assert(heated(cooled, i));
            lemma_heat_has_a_source(cooled, i);
            let j = choose|j: int|
                0 <= j < CELLS && #[trigger] cooled[j] == TreeState::Burning && column_of(i)
                    <= column_of(j) + 1;
            assert(states[j].on_fire());
        }
    }
}

/// The fire advances by one cell per cycle at most. If before the fire is
/// started nothing is on fire outside the leftmost column, as in a forest
/// that was just planted, then `n` cycles after it has been started every
/// cell on fire lies within `n` steps of the leftmost column.
pub proof fn lemma_fire_front(states: Seq<TreeState>, n: nat)
    requires
        states.len() == CELLS,
        fire_within(states, 0),
    ensures
        after_cycles(seeded(states), n).len() == CELLS,
        fire_within(after_cycles(seeded(states), n), n),
        forall|i: int|
            0 <= i < CELLS && (#[trigger] after_cycles(seeded(states), n)[i]).on_fire()
                ==> near_first_column(position_of(i), n),
    decreases n,
{
    lemma_run_keeps_size(seeded(states), n);
    if n > 0 {
        lemma_fire_front(states, (n - 1) as nat);
        lemma_fire_front_step(after_cycles(seeded(states), (n - 1) as nat), (n - 1) as nat);
    }
    assert forall|i: int|
        0 <= i < CELLS && (#[trigger] after_cycles(seeded(states), n)[i]).on_fire()
        implies near_first_column(position_of(i), n) by {
        lemma_near_first_column(position_of(i), n);
    }
}

// ---------------------------------------------------------------------------
// Every fire dies out.
// ---------------------------------------------------------------------------

/// Once the fire is out the forest no longer changes.
pub proof fn lemma_extinguished_is_stable(states: Seq<TreeState>)
    requires
        states.len() == CELLS,
        !fire_active(states),
    ensures
        cycled(states) == states,
{
    let cooled = decayed(states);
    assert forall|i: int| 0 <= i < states.len() implies cooled[i] == states[i] by {
        assert(!states[i].on_fire());
    }
    assert(cooled == states);
    assert forall|i: int| 0 <= i < states.len() implies propagated(cooled)[i] == cooled[i] by {
        if heated(cooled, i) {
            lemma_heat_has_a_source(cooled, i);
            let j = choose|j: int|
                0 <= j < CELLS && #[trigger] cooled[j] == TreeState::Burning && column_of(i)
                    <= column_of(j) + 1;
            assert(states[j].on_fire());
        }
    }
}

/// A forest without fire stays as it is, however many cycles pass.
pub proof fn lemma_stays_extinguished(states: Seq<TreeState>, n: nat)
    requires
        states.len() == CELLS,
        !fire_active(states),
    ensures
        after_cycles(states, n) == states,
    decreases n,
{
    if n > 0 {
        lemma_stays_extinguished(states, (n - 1) as nat);
        lemma_extinguished_is_stable(states);
    }
}

/// While the fire is at work, a cycle uses up fuel.
pub proof fn lemma_cycle_burns_fuel(states: Seq<TreeState>)
    requires
        states.len() == CELLS,
        fire_active(states),
    ensures
        fuel(cycled(states)) < fuel(states),
{
    let cooled = decayed(states);
    let next = cycled(states);
    let living = TreeState::Living;
    assert forall|i: int| 0 <= i < CELLS && #[trigger] next[i] == living implies states[i]
        == living by {}
    lemma_count_among_shrinks(states, next, living, CELLS as int);
    if any_in(states, TreeState::Ignited) {
        if any_in(next, TreeState::Ignited) {
            // What is ignited now was a living tree before.
            let lit = choose|i: int| 0 <= i < next.len() && #[trigger] next[i] == TreeState::Ignited;
            assert(states[lit] == living);
            lemma_count_among_drops(states, next, living, CELLS as int, lit);
        }
    } else {
        // Nothing was ignited, so nothing burns after the decay and nothing
        // is heated.
        let hot = choose|i: int| 0 <= i < states.len() && (#[trigger] states[i]).on_fire();
        assert(states[hot] == TreeState::Burning);
        assert forall|i: int| 0 <= i < CELLS implies !(#[trigger] next[i]).on_fire() by {
            if heated(cooled, i) {
                lemma_heat_has_a_source(cooled, i);
                let j = choose|j: int|
                    0 <= j < CELLS && #[trigger] cooled[j] == TreeState::Burning && column_of(i)
                        <= column_of(j) + 1;
                assert(states[j] == TreeState::Ignited);
            }
            assert(cooled[i] == states[i].decayed());
        }
    }
}

/// No forest holds fuel for more than `CELLS + 1` cycles.
pub proof fn lemma_fuel_bounded(states: Seq<TreeState>)
    requires
        states.len() == CELLS,
    ensures
        fuel(states) <= CELLS + 1,
{
    let living = TreeState::Living;
    lemma_count_among_bounded(states, living, CELLS as int);
    if any_in(states, TreeState::Ignited) {
        let i = choose|i: int| 0 <= i < states.len() && #[trigger] states[i] == TreeState::Ignited;
        lemma_count_among_misses(states, living, CELLS as int, i);
    } else if any_in(states, TreeState::Burning) {
        let i = choose|i: int| 0 <= i < states.len() && #[trigger] states[i] == TreeState::Burning;
        lemma_count_among_misses(states, living, CELLS as int, i);
    }
}

/// Every fire dies out. After as many cycles as the forest holds fuel, and
/// after any larger number of cycles, nothing is on fire.
pub proof fn lemma_fire_dies_out(states: Seq<TreeState>, n: nat)
    requires
        states.len() == CELLS,
        n >= fuel(states),
    ensures
        !fire_active(after_cycles(states, n)),
    decreases n,
{
    if !fire_active(states) {
        lemma_stays_extinguished(states, n);
    } else {
        lemma_cycle_burns_fuel(states);
        lemma_fire_dies_out(cycled(states), (n - 1) as nat);
        lemma_after_cycles_shift(states, (n - 1) as nat);
    }
}

/// Every fire is out after `CELLS + 1` cycles, whatever the forest was like.
pub proof fn lemma_fire_dies_out_in_time(states: Seq<TreeState>, n: nat)
    requires
        states.len() == CELLS,
        n >= CELLS + 1,
    ensures
        !fire_active(after_cycles(states, n)),
{
    lemma_fuel_bounded(states);
    lemma_fire_dies_out(states, n);
}

/// A run whose budget covers the fuel of the forest ends with the fire out.
pub proof fn lemma_run_ends_extinguished(states: Seq<TreeState>, budget: nat)
    requires
        states.len() == CELLS,
        budget >= fuel(states),
    ensures
        !fire_active(after_cycles(states, run_length(states, budget))),
    decreases budget,
{
    if budget == 0 {
        if fire_active(states) {
            let hot = choose|i: int| 0 <= i < states.len() && (#[trigger] states[i]).on_fire();
            assert(states[hot] == TreeState::Ignited || states[hot] == TreeState::Burning);
        }
    } else if !fire_active(cycled(states)) {
        assert(after_cycles(states, 1) == cycled(after_cycles(states, 0)));
    } else {
        if !fire_active(states) {
            lemma_extinguished_is_stable(states);
        }
        lemma_cycle_burns_fuel(states);
        lemma_run_ends_extinguished(cycled(states), (budget - 1) as nat);
        lemma_after_cycles_shift(states, run_length(cycled(states), (budget - 1) as nat));
    }
}

} // verus!
