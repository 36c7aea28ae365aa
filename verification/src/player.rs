//! The player's lives.

use vstd::prelude::*;
use crate::physics::PlayerKilledEvent;
use crate::state::GameState;

verus! {

/// The number of lives that a game starts with.
pub const STARTING_LIVES: u8 = 5;

/// The mark of the player's ship.
#[derive(Clone, Copy, Debug, PartialEq, Eq, Structural)]
pub struct Player;

/// The mark of a projectile.
#[derive(Clone, Copy, Debug, PartialEq, Eq, Structural)]
pub struct Projectile;

/// The lives that the player has left.
#[derive(Clone, Copy, Debug, PartialEq, Eq, Structural)]
pub struct Lives(pub u8);

/// The lives after the player was killed once: one less, and none where none
/// was left.
pub open spec fn lives_after_kill(lives: Lives) -> Lives {
    if lives.0 > 0 {
        Lives((lives.0 - 1) as u8)
    } else {
        lives
    }
}

/// The lives that a game starts with.
pub fn setup_lives() -> (lives: Lives)
    ensures
        lives == Lives(STARTING_LIVES),
{
    Lives(STARTING_LIVES)
}

/// Reacts to the player's death in a tick. Without one nothing happens. Else
/// a life is taken, once for the tick, and the game goes on to
/// `GameState::GameOver` where that was the last one and to
/// `GameState::Loading` where lives are left.
pub fn player_killed_listener(event: Option<PlayerKilledEvent>, lives: &mut Lives) -> (next: Option<
    GameState,
>)
    ensures
        event is None ==> next is None && *final(lives) == *old(lives),
        event is Some ==> *final(lives) == lives_after_kill(*old(lives)),
        event is Some && final(lives).0 == 0 ==> next == Some(GameState::GameOver),
        event is Some && final(lives).0 != 0 ==> next == Some(GameState::Loading),
{
    match event {
        None => None,
        Some(_) => {
            if lives.0 > 0 {
                lives.0 -= 1;
            }
            if lives.0 == 0 {
                Some(GameState::GameOver)
            } else {
                Some(GameState::Loading)
            }
        },
    }
}

} // verus!
