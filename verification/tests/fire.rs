use rand::distributions::Bernoulli;
use wildfire::census::{calculate_burn_rate, count_trees, BurnRate};
use wildfire::fire::{check_fire_active, spread_fire, start_fire};
use wildfire::forest::Trees;
use wildfire::grid::{Position, CELLS, FOREST_X, FOREST_Y};
use wildfire::run::{burn_out, MAX_CYCLES};
use wildfire::sowing::initialize_forest;
use wildfire::tree::TreeState;

/// A forest that is bare but for living trees on the given cells.
fn forest_with_trees(cells: &[(usize, usize)]) -> Trees {
    let mut states = [TreeState::Clear; CELLS];
    for &(column, row) in cells {
        states[Position(column, row).entity_id()] = TreeState::Living;
    }
    Trees::from_states(states)
}

/// Three by three living trees in the upper left corner.
fn small_wood() -> Trees {
    let mut cells = Vec::new();
    for row in 0..3 {
        for column in 0..3 {
            cells.push((column, row));
        }
    }
    forest_with_trees(&cells)
}

/// A single line of trees that starts in the upper left corner and winds
/// through the forest, touching the leftmost column nowhere else.
fn winding_wood() -> (Trees, usize) {
    let mut cells = Vec::new();
    for row in (0..FOREST_Y).step_by(2) {
        let first = if row == 0 { 0 } else { 1 };
        for column in first..FOREST_X {
            cells.push((column, row));
        }
        if row + 2 < FOREST_Y {
            let turn = if row % 4 == 0 { FOREST_X - 1 } else { 1 };
            cells.push((turn, row + 1));
        }
    }
    let trees = cells.len();
    (forest_with_trees(&cells), trees)
}

fn state_at(forest: &Trees, column: usize, row: usize) -> TreeState {
    forest.states()[Position(column, row).entity_id()]
}

fn stage(state: TreeState) -> u8 {
    match state {
        TreeState::Clear => 0,
        TreeState::Living => 0,
        TreeState::Ignited => 1,
        TreeState::Burning => 2,
        TreeState::Burned => 3,
    }
}

fn assert_column(forest: &Trees, column: usize, expected: TreeState) {
    for row in 0..3 {
        assert_eq!(state_at(forest, column, row), expected);
    }
}

fn assert_outside_the_wood_is_bare(forest: &Trees) {
    for row in 0..FOREST_Y {
        for column in 0..FOREST_X {
            if row >= 3 || column >= 3 {
                assert_eq!(state_at(forest, column, row), TreeState::Clear);
            }
        }
    }
}

#[test]
fn fire_crosses_a_small_wood_one_column_per_cycle() {
    let mut forest = small_wood();

    start_fire(&mut forest);
    assert_column(&forest, 0, TreeState::Ignited);
    assert_column(&forest, 1, TreeState::Living);
    assert_column(&forest, 2, TreeState::Living);
    assert!(check_fire_active(forest.states()));

    spread_fire(&mut forest);
    assert_column(&forest, 0, TreeState::Burning);
    assert_column(&forest, 1, TreeState::Ignited);
    assert_column(&forest, 2, TreeState::Living);
    assert!(check_fire_active(forest.states()));

    spread_fire(&mut forest);
    assert_column(&forest, 0, TreeState::Burned);
    assert_column(&forest, 1, TreeState::Burning);
    assert_column(&forest, 2, TreeState::Ignited);
    assert!(check_fire_active(forest.states()));

    spread_fire(&mut forest);
    assert_column(&forest, 0, TreeState::Burned);
    assert_column(&forest, 1, TreeState::Burned);
    assert_column(&forest, 2, TreeState::Burning);
    assert!(check_fire_active(forest.states()));

    spread_fire(&mut forest);
    assert_column(&forest, 0, TreeState::Burned);
    assert_column(&forest, 1, TreeState::Burned);
    assert_column(&forest, 2, TreeState::Burned);
    assert!(!check_fire_active(forest.states()));
    assert_outside_the_wood_is_bare(&forest);

    let rate = calculate_burn_rate(forest.states());
    assert_eq!(
        rate,
        Some(BurnRate {
            burned: 9,
            flammable: 9
        })
    );
    let rate = rate.unwrap();
    assert_eq!(rate.burned as f64 / rate.flammable as f64, 1.0);
}

#[test]
fn a_small_wood_burns_out_in_four_cycles() {
    let mut forest = small_wood();
    start_fire(&mut forest);
    let cycles = burn_out(&mut forest, MAX_CYCLES);
    assert_eq!(cycles, 4);
    assert!(!check_fire_active(forest.states()));
    assert_eq!(count_trees(forest.states(), TreeState::Burned), 9);
    assert_eq!(count_trees(forest.states(), TreeState::Clear), CELLS - 9);
}

#[test]
fn a_run_stops_when_its_budget_is_spent() {
    let mut forest = small_wood();
    start_fire(&mut forest);
    let cycles = burn_out(&mut forest, 2);
    assert_eq!(cycles, 2);
    assert!(check_fire_active(forest.states()));
    assert_column(&forest, 0, TreeState::Burned);
    assert_column(&forest, 1, TreeState::Burning);
    assert_column(&forest, 2, TreeState::Ignited);

    let mut untouched = small_wood();
    start_fire(&mut untouched);
    assert_eq!(burn_out(&mut untouched, 0), 0);
    assert_column(&untouched, 0, TreeState::Ignited);
}

#[test]
fn bare_ground_never_burns() {
    let mut forest = Trees::init();
    start_fire(&mut forest);
    assert!(forest.states().iter().all(|&s| s == TreeState::Clear));
    assert!(!check_fire_active(forest.states()));
    assert_eq!(calculate_burn_rate(forest.states()), None);

    spread_fire(&mut forest);
    assert!(forest.states().iter().all(|&s| s == TreeState::Clear));
}

#[test]
fn density_zero_ends_at_once_without_a_burn_rate() {
    let mut forest = initialize_forest(&Bernoulli::new(0.0).unwrap());
    assert!(forest.states().iter().all(|&s| s == TreeState::Clear));
    start_fire(&mut forest);
    assert!(forest.states().iter().all(|&s| s == TreeState::Clear));
    assert!(!check_fire_active(forest.states()));
    assert_eq!(count_trees(forest.states(), TreeState::Living), 0);
    assert_eq!(count_trees(forest.states(), TreeState::Burned), 0);
    assert_eq!(calculate_burn_rate(forest.states()), None);
}

#[test]
fn a_full_forest_burns_down_column_by_column() {
    let mut forest = initialize_forest(&Bernoulli::new(1.0).unwrap());
    start_fire(&mut forest);
    let cycles = burn_out(&mut forest, MAX_CYCLES);
    // The tree in column c ignites in cycle c and is consumed two cycles on.
    assert_eq!(cycles, FOREST_X + 1);
    assert!(forest.states().iter().all(|&s| s == TreeState::Burned));
    assert_eq!(
        calculate_burn_rate(forest.states()),
        Some(BurnRate {
            burned: CELLS,
            flammable: CELLS
        })
    );
}

#[test]
fn seeding_ignites_living_trees_in_the_first_column_only() {
    let mut states = [TreeState::Clear; CELLS];
    states[Position(0, 0).entity_id()] = TreeState::Living;
    states[Position(0, 1).entity_id()] = TreeState::Burned;
    states[Position(0, 2).entity_id()] = TreeState::Burning;
    states[Position(0, 3).entity_id()] = TreeState::Ignited;
    states[Position(1, 0).entity_id()] = TreeState::Living;
    states[Position(89, 29).entity_id()] = TreeState::Living;
    let mut forest = Trees::from_states(states);
    start_fire(&mut forest);
    assert_eq!(state_at(&forest, 0, 0), TreeState::Ignited);
    assert_eq!(state_at(&forest, 0, 1), TreeState::Burned);
    assert_eq!(state_at(&forest, 0, 2), TreeState::Burning);
    assert_eq!(state_at(&forest, 0, 3), TreeState::Ignited);
    assert_eq!(state_at(&forest, 0, 4), TreeState::Clear);
    assert_eq!(state_at(&forest, 1, 0), TreeState::Living);
    assert_eq!(state_at(&forest, 89, 29), TreeState::Living);
}

#[test]
fn an_ignited_tree_gives_off_no_heat_yet() {
    let mut states = [TreeState::Clear; CELLS];
    states[Position(5, 5).entity_id()] = TreeState::Ignited;
    states[Position(6, 5).entity_id()] = TreeState::Living;
    states[Position(7, 5).entity_id()] = TreeState::Living;
    let mut forest = Trees::from_states(states);

    spread_fire(&mut forest);
    assert_eq!(state_at(&forest, 5, 5), TreeState::Burning);
    assert_eq!(state_at(&forest, 6, 5), TreeState::Ignited);
    assert_eq!(state_at(&forest, 7, 5), TreeState::Living);

    spread_fire(&mut forest);
    assert_eq!(state_at(&forest, 5, 5), TreeState::Burned);
    assert_eq!(state_at(&forest, 6, 5), TreeState::Burning);
    assert_eq!(state_at(&forest, 7, 5), TreeState::Ignited);
}

#[test]
fn a_burning_tree_is_consumed_before_it_spreads() {
    // What burns at the start of a cycle is burned at its end and has
    // ignited nothing in it.
    let mut states = [TreeState::Clear; CELLS];
    states[Position(5, 5).entity_id()] = TreeState::Burning;
    states[Position(6, 5).entity_id()] = TreeState::Living;
    let mut forest = Trees::from_states(states);
    spread_fire(&mut forest);
    assert_eq!(state_at(&forest, 5, 5), TreeState::Burned);
    assert_eq!(state_at(&forest, 6, 5), TreeState::Living);
    assert!(!check_fire_active(forest.states()));
}

#[test]
fn fire_spreads_to_all_four_sides_and_not_across_corners() {
    let mut states = [TreeState::Living; CELLS];
    states[Position(10, 10).entity_id()] = TreeState::Ignited;
    let mut forest = Trees::from_states(states);
    spread_fire(&mut forest);
    assert_eq!(state_at(&forest, 10, 10), TreeState::Burning);
    assert_eq!(state_at(&forest, 10, 9), TreeState::Ignited);
    assert_eq!(state_at(&forest, 10, 11), TreeState::Ignited);
    assert_eq!(state_at(&forest, 9, 10), TreeState::Ignited);
    assert_eq!(state_at(&forest, 11, 10), TreeState::Ignited);
    assert_eq!(state_at(&forest, 9, 9), TreeState::Living);
    assert_eq!(state_at(&forest, 11, 9), TreeState::Living);
    assert_eq!(state_at(&forest, 9, 11), TreeState::Living);
    assert_eq!(state_at(&forest, 11, 11), TreeState::Living);
    assert_eq!(count_trees(forest.states(), TreeState::Ignited), 4);
}

#[test]
fn fire_does_not_wrap_around_the_edges() {
    let mut states = [TreeState::Living; CELLS];
    states[Position(FOREST_X - 1, 3).entity_id()] = TreeState::Ignited;
    let mut forest = Trees::from_states(states);
    spread_fire(&mut forest);
    assert_eq!(state_at(&forest, FOREST_X - 1, 3), TreeState::Burning);
    assert_eq!(state_at(&forest, FOREST_X - 2, 3), TreeState::Ignited);
    assert_eq!(state_at(&forest, FOREST_X - 1, 2), TreeState::Ignited);
    assert_eq!(state_at(&forest, FOREST_X - 1, 4), TreeState::Ignited);
    assert_eq!(state_at(&forest, 0, 4), TreeState::Living);
    assert_eq!(state_at(&forest, 0, 3), TreeState::Living);
    assert_eq!(count_trees(forest.states(), TreeState::Ignited), 3);
}

#[test]
fn no_cell_ever_moves_backwards() {
    let mut forest = initialize_forest(&Bernoulli::new(0.6).unwrap());
    start_fire(&mut forest);
    let mut before = *forest.states();
    for _ in 0..MAX_CYCLES {
        spread_fire(&mut forest);
        let after = *forest.states();
        for id in 0..CELLS {
            assert_eq!(
                before[id] == TreeState::Clear,
                after[id] == TreeState::Clear
            );
            assert!(stage(before[id]) <= stage(after[id]));
        }
        assert!(
            count_trees(&after, TreeState::Burned) >= count_trees(&before, TreeState::Burned)
        );
        assert_eq!(
            count_trees(&after, TreeState::Clear),
            count_trees(&before, TreeState::Clear)
        );
        before = after;
        if !check_fire_active(forest.states()) {
            break;
        }
    }
}

#[test]
fn the_fire_front_gains_one_column_per_cycle_at_most() {
    let mut forest = initialize_forest(&Bernoulli::new(0.7).unwrap());
    start_fire(&mut forest);
    for cycle in 0..=FOREST_X + 5 {
        for id in 0..CELLS {
            let state = forest.states()[id];
            if state == TreeState::Ignited || state == TreeState::Burning {
                assert!(forest.positions()[id].0 <= cycle);
            }
        }
        spread_fire(&mut forest);
    }
}

#[test]
fn a_winding_fire_outlasts_the_usual_budget_but_not_the_safe_one() {
    let (mut forest, trees) = winding_wood();
    assert_eq!(trees, 1350);
    assert_eq!(count_trees(forest.states(), TreeState::Living), trees);
    start_fire(&mut forest);
    assert_eq!(count_trees(forest.states(), TreeState::Ignited), 1);

    let cycles = burn_out(&mut forest, MAX_CYCLES);
    assert_eq!(cycles, MAX_CYCLES);
    assert!(check_fire_active(forest.states()));

    let more = burn_out(&mut forest, CELLS + 1);
    // The last tree of the line ignites in cycle 1349 and is consumed in
    // cycle 1351.
    assert_eq!(cycles + more, trees + 1);
    assert!(!check_fire_active(forest.states()));
    assert_eq!(
        calculate_burn_rate(forest.states()),
        Some(BurnRate {
            burned: trees,
            flammable: trees
        })
    );
}

#[test]
fn an_extinguished_forest_stays_as_it_is() {
    let mut forest = small_wood();
    start_fire(&mut forest);
    burn_out(&mut forest, MAX_CYCLES);
    let settled = *forest.states();
    // A run always takes one cycle before it looks for fire.
    assert_eq!(burn_out(&mut forest, 10), 1);
    assert_eq!(forest.states(), &settled);
}

#[test]
fn burn_rate_counts_burned_against_burned_and_living() {
    let mut states = [TreeState::Clear; CELLS];
    states[0] = TreeState::Burned;
    states[1] = TreeState::Living;
    states[2] = TreeState::Living;
    states[3] = TreeState::Living;
    states[4] = TreeState::Ignited;
    states[5] = TreeState::Burning;
    let rate = calculate_burn_rate(&states).unwrap();
    assert_eq!(
        rate,
        BurnRate {
            burned: 1,
            flammable: 4
        }
    );
    assert_eq!(rate.burned as f64 / rate.flammable as f64, 0.25);
}

#[test]
fn burn_rate_lies_between_zero_and_one() {
    let mut untouched = [TreeState::Clear; CELLS];
    untouched[7] = TreeState::Living;
    assert_eq!(
        calculate_burn_rate(&untouched),
        Some(BurnRate {
            burned: 0,
            flammable: 1
        })
    );

    let mut forest = initialize_forest(&Bernoulli::new(0.55).unwrap());
    start_fire(&mut forest);
    burn_out(&mut forest, CELLS + 1);
    let rate = calculate_burn_rate(forest.states()).unwrap();
    assert!(rate.flammable > 0);
    assert!(rate.burned <= rate.flammable);
    let fraction = rate.burned as f64 / rate.flammable as f64;
    assert!((0.0..=1.0).contains(&fraction));
}

#[test]
fn burn_rate_is_undefined_without_trees() {
    let mut states = [TreeState::Clear; CELLS];
    assert_eq!(calculate_burn_rate(&states), None);
    // Trees on fire count on neither side of the fraction.
    states[0] = TreeState::Ignited;
    states[1] = TreeState::Burning;
    assert_eq!(calculate_burn_rate(&states), None);
}

#[test]
fn fire_is_active_while_a_tree_is_ignited_or_burning() {
    let mut states = [TreeState::Living; CELLS];
    states[10] = TreeState::Clear;
    states[11] = TreeState::Burned;
    assert!(!check_fire_active(&states));
    states[CELLS - 1] = TreeState::Ignited;
    assert!(check_fire_active(&states));
    states[CELLS - 1] = TreeState::Burning;
    assert!(check_fire_active(&states));
    states[CELLS - 1] = TreeState::Burned;
    assert!(!check_fire_active(&states));
}

#[test]
fn count_trees_counts_each_state() {
    let mut states = [TreeState::Clear; CELLS];
    states[0] = TreeState::Living;
    states[1] = TreeState::Living;
    states[2] = TreeState::Burned;
    assert_eq!(count_trees(&states, TreeState::Living), 2);
    assert_eq!(count_trees(&states, TreeState::Burned), 1);
    assert_eq!(count_trees(&states, TreeState::Ignited), 0);
    assert_eq!(count_trees(&states, TreeState::Clear), CELLS - 3);
}
