//! The life cycle of a single cell.

use vstd::prelude::*;

verus! {

/// What stands on a cell.
///
/// A tree moves through `Living`, `Ignited`, `Burning` and `Burned` in that
/// order and never backwards. `Clear` ground never changes.
#[derive(Clone, Copy, Debug, PartialEq, Eq, Structural)]
pub enum TreeState {
    /// Bare ground: there is nothing to burn.
    Clear,
    /// A tree that has not caught fire.
    Living,
    /// A tree that caught fire in this cycle and gives off no heat yet.
    Ignited,
    /// A tree that heats its neighbors; it is consumed in the next cycle.
    Burning,
    /// What is left of a tree.
    Burned,
}

impl TreeState {
    /// The state after an attempt to set the cell on fire: a living tree
    /// ignites, anything else stays as it is.
    pub open spec fn ignited(self) -> TreeState {
        if self is Living {
            TreeState::Ignited
        } else {
            self
        }
    }

    /// The state one cycle later if no neighbor interferes: the fuse of an
    /// ignited tree runs out and a burning tree is consumed.
    pub open spec fn decayed(self) -> TreeState {
        match self {
            TreeState::Ignited => TreeState::Burning,
            TreeState::Burning => TreeState::Burned,
            _ => self,
        }
    }

    /// Whether fire is at work on the cell.
    pub open spec fn on_fire(self) -> bool {
        self is Ignited || self is Burning
    }

    /// How far a tree has moved along its life cycle.
    pub open spec fn stage(self) -> nat {
        match self {
            TreeState::Clear => 0,
            TreeState::Living => 0,
            TreeState::Ignited => 1,
            TreeState::Burning => 2,
            TreeState::Burned => 3,
        }
    }

    /// Whether `later` may follow `self` in the history of one cell: bare
    /// ground stays bare, and a tree stays a tree that is at least as far
    /// along its life cycle.
    pub open spec fn never_regresses_to(self, later: TreeState) -> bool {
        &&& self is Clear <==> later is Clear
        &&& self.stage() <= later.stage()
    }

    /// Sets a living tree on fire. On any other cell this does nothing.
    pub fn ignite_living(&mut self)
        ensures
            *final(self) == old(self).ignited(),
            *old(self) is Living ==> *final(self) is Ignited,
            *old(self) !is Living ==> *final(self) == *old(self),
    {
        match &self {
            TreeState::Living => *self = TreeState::Ignited,
            _ => (),
        }
    }
}

/// Ignition changes living trees only, and igniting twice is igniting once:
/// a cell may be set on fire from several sides in one cycle.
pub proof fn lemma_ignition_idempotent(state: TreeState)
    ensures
        state !is Living ==> state.ignited() == state,
        state.ignited().ignited() == state.ignited(),
        state.never_regresses_to(state.ignited()),
{
}

/// Decay moves no tree backwards and leaves bare ground, living trees and
/// burned trees as they are.
pub proof fn lemma_decay_advances(state: TreeState)
    ensures
        state.never_regresses_to(state.decayed()),
        !state.on_fire() ==> state.decayed() == state,
        state.on_fire() ==> state.decayed().stage() == state.stage() + 1,
{
}

} // verus!
