//! The states of the game.

use vstd::prelude::*;

verus! {

/// The state that the game is in.
#[derive(Clone, Copy, Debug, PartialEq, Eq, Structural, Hash)]
pub enum GameState {
    Loading,
    Processing,
    NewGame,
    Died,
    InGame,
    LevelComplete,
    GameOver,
}

} // verus!
