//! The level, which is complete once no asteroid is left.

use vstd::prelude::*;
use crate::asteroid::AsteroidCount;
use crate::state::GameState;

verus! {

/// The number of the level.
#[derive(Clone, Copy, Debug, PartialEq, Eq, Structural)]
pub struct Level(pub u32);

/// A level was completed: the level that it was.
#[derive(Clone, Copy, Debug, PartialEq, Eq, Structural)]
pub struct LevelUpEvent(pub Level);

/// The level that a game starts with.
pub fn setup_level() -> (level: Level)
    ensures
        level == Level(1),
{
    Level(1)
}

/// Looks at the number of asteroids after it changed. Where none is left the
/// level is complete: the level that was played is announced, the next one
/// begins, and the game goes on to `GameState::LevelComplete`. Else nothing
/// happens.
pub fn level_completion_watcher(asteroid_count: &AsteroidCount, level: &mut Level) -> (completed:
    Option<(LevelUpEvent, GameState)>)
    requires
        asteroid_count.0 == 0 ==> old(level).0 < u32::MAX,
    ensures
        asteroid_count.0 == 0 ==> completed == Some(
            (LevelUpEvent(*old(level)), GameState::LevelComplete),
        ) && final(level).0 == old(level).0 + 1,
        asteroid_count.0 != 0 ==> completed is None && *final(level) == *old(level),
{
    if asteroid_count.0 == 0 {
        let event = LevelUpEvent(Level(level.0));
        level.0 += 1;
        Some((event, GameState::LevelComplete))
    } else {
        None
    }
}

} // verus!
