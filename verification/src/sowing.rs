//! Planting the forest at random.

use vstd::prelude::*;
use rand::distributions::Bernoulli;
use rand::rngs::ThreadRng;
use crate::forest::Trees;
use crate::grid::CELLS;
use crate::tree::TreeState;

verus! {

/// `rand::distributions::Bernoulli`, a coin that shows `true` with a fixed
/// probability. Nothing is known here of that probability.
#[verifier::external_type_specification]
#[verifier::external_body]
pub struct ExBernoulli(rand::distributions::Bernoulli);

/// `rand::rngs::ThreadRng`, a handle to the random number generator of the
/// current thread.
#[verifier::external_type_specification]
#[verifier::external_body]
pub struct ExThreadRng(rand::rngs::ThreadRng);

/// `rand::thread_rng` hands out the generator of the current thread. Nothing
/// is claimed of the generator. The call takes no argument; it fails only
/// where the operating system cannot seed the generator.
pub assume_specification[ rand::thread_rng ]() -> (rng: ThreadRng)
;

/// Tosses the coin once, by `Distribution::sample` of
/// `rand::distributions::Bernoulli`. The outcome is random: nothing is claimed
/// of it, nor of the generator afterwards.
#[verifier::external_body]
fn toss(coin: &Bernoulli, rng: &mut ThreadRng) -> (heads: bool) {
    rand::distributions::Distribution::sample(coin, rng)
}

/// The forest that grows from the given outcomes: a living tree where the
/// outcome is `true`, bare ground elsewhere.
pub open spec fn sown(sprouted: Seq<bool>) -> Seq<TreeState> {
    Seq::new(
        sprouted.len(),
        |i: int|
            if sprouted[i] {
                TreeState::Living
            } else {
                TreeState::Clear
            },
    )
}

/// Plants a tree on every cell whose outcome is `true`.
pub fn forest_from_outcomes(sprouted: &[bool; CELLS]) -> (forest: Trees)
    ensures
        forest@ == sown(sprouted@),
{
    let mut state = [TreeState::Clear; CELLS];
    for p in 0..CELLS
        invariant
            forall|k: int| 0 <= k < p ==> #[trigger] state@[k] == sown(sprouted@)[k],
            forall|k: int| p <= k < CELLS ==> #[trigger] state@[k] is Clear,
    {
        if sprouted[p] {
            state[p] = TreeState::Living;
        }
    }
    Trees::from_states(state)
}

/// Plants a forest at random. The coin `density` is tossed once for each
/// cell, row by row: the cell gets a living tree where it shows `true` and
/// stays bare where it shows `false`.
///
/// The tosses are random, so all that is known of the forest is that it
/// holds living trees and bare ground only. `forest_from_outcomes` says which
/// forest grows from which tosses.
pub fn initialize_forest(density: &Bernoulli) -> (forest: Trees)
    ensures
        forest@.len() == CELLS,
        forall|i: int| 0 <= i < CELLS ==> forest@[i] is Living || forest@[i] is Clear,
{
    let mut rng = rand::thread_rng();
    let mut sprouted = [false; CELLS];
    for p in 0..CELLS {
        sprouted[p] = toss(density, &mut rng);
    }
    forest_from_outcomes(&sprouted)
}

} // verus!
