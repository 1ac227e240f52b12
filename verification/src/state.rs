//! Screen states and the per-tick ordering labels of the simulation systems.

use vstd::prelude::*;

verus! {

/// The game's coarse screen state; the simulation systems run only in
/// `InGame`.
#[derive(Debug, Clone, Copy, PartialEq, Eq, Structural, Hash)]
pub enum GameState {
    MainMenu,
    LoadMenu,
    InGame,
    LoadGame,
    Paused,
}

/// Labels for the player's per-tick systems, in their strict data-dependency
/// order: input writes the heading, collision may cancel it, movement
/// consumes it.
#[derive(Debug, Clone, Copy, PartialEq, Eq, Structural, Hash)]
pub enum PlayerLabel {
    Input,
    Collision,
    Movement,
}

} // verus!
