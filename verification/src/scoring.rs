//! The score: points for each asteroid destroyed, and a bonus for the lives
//! left when a level is completed.

use vstd::prelude::*;
use crate::asteroid::{AsteroidDestroyedEvent, AsteroidSize};
use crate::level::LevelUpEvent;
use crate::player::Lives;

verus! {

/// The points for a large asteroid.
pub const LARGE_ASTEROID_VALUE: u64 = 100;

/// The points for a medium asteroid.
pub const MEDIUM_ASTEROID_VALUE: u64 = 50;

/// The points for a small asteroid.
pub const SMALL_ASTEROID_VALUE: u64 = 25;

/// The bonus for one life left at the end of the first level.
pub const LIFE_BONUS: u64 = 1000;

/// The score of the game.
#[derive(Clone, Copy, Debug, PartialEq, Eq, Structural)]
pub struct Score(pub u64);

/// The points for an asteroid of size `size`.
pub open spec fn value_of(size: AsteroidSize) -> int {
    match size {
        AsteroidSize::Small => SMALL_ASTEROID_VALUE as int,
        AsteroidSize::Medium => MEDIUM_ASTEROID_VALUE as int,
        AsteroidSize::Large => LARGE_ASTEROID_VALUE as int,
    }
}

/// The bonus for completing level `level` with `lives` lives left.
pub open spec fn bonus_of(lives: Lives, level: u32) -> int {
    lives.0 * (LIFE_BONUS * level)
}

/// The points for the first `n` of the asteroids destroyed.
pub open spec fn points_through(destroyed: Seq<AsteroidDestroyedEvent>, n: int) -> int
    decreases n,
{
    if n <= 0 {
        0
    } else {
        points_through(destroyed, n - 1) + value_of(destroyed[n - 1].3)
    }
}

/// The bonuses for the first `n` of the levels completed.
pub open spec fn bonuses_through(level_ups: Seq<LevelUpEvent>, lives: Lives, n: int) -> int
    decreases n,
{
    if n <= 0 {
        0
    } else {
        bonuses_through(level_ups, lives, n - 1) + bonus_of(lives, level_ups[n - 1].0.0)
    }
}

/// What the events of a tick add to the score.
pub open spec fn gain_of(
    destroyed: Seq<AsteroidDestroyedEvent>,
    level_ups: Seq<LevelUpEvent>,
    lives: Lives,
) -> int {
    points_through(destroyed, destroyed.len() as int) + bonuses_through(
        level_ups,
        lives,
        level_ups.len() as int,
    )
}

/// The points for more of the asteroids are no less.
proof fn lemma_points_grow(destroyed: Seq<AsteroidDestroyedEvent>, n: int, m: int)
    requires
        0 <= n <= m,
    ensures
        0 <= points_through(destroyed, n) <= points_through(destroyed, m),
    decreases m,
{
    if n < m {
        lemma_points_grow(destroyed, n, m - 1);
    } else if n > 0 {
        lemma_points_grow(destroyed, n - 1, m - 1);
    }
}

/// The bonuses for more of the levels are no less.
proof fn lemma_bonuses_grow(level_ups: Seq<LevelUpEvent>, lives: Lives, n: int, m: int)
    requires
        0 <= n <= m,
    ensures
        0 <= bonuses_through(level_ups, lives, n) <= bonuses_through(level_ups, lives, m),
    decreases m,
{
    if m > 0 {
        lemma_bonus_bound(lives, level_ups[m - 1].0.0);
    }
    if n < m {
        lemma_bonuses_grow(level_ups, lives, n, m - 1);
    } else if n > 0 {
        lemma_bonuses_grow(level_ups, lives, n - 1, m - 1);
    }
}

/// A bonus is not negative and fits the score.
proof fn lemma_bonus_bound(lives: Lives, level: u32)
    ensures
        0 <= LIFE_BONUS * level <= 1000 * 0xffff_ffff,
        0 <= bonus_of(lives, level) <= 255 * (1000 * 0xffff_ffff),
{
    let per_life: int = LIFE_BONUS * level;
    assert(0 <= per_life <= 1000 * 0xffff_ffff);
    assert(0 <= lives.0 * per_life <= 255 * (1000 * 0xffff_ffff)) by (nonlinear_arith)
        requires
            0 <= lives.0 <= 255,
            0 <= per_life <= 1000 * 0xffff_ffff,
    ;
}

/// The score that a game starts with.
pub fn setup_score() -> (score: Score)
    ensures
        score == Score(0),
{
    Score(0)
}

/// Sets the score back to nothing.
pub fn reset_score(score: &mut Score)
    ensures
        *final(score) == Score(0),
{
    score.0 = 0;
}

/// The points for an asteroid of size `size`.
pub fn asteroid_value(size: AsteroidSize) -> (value: u64)
    ensures
        value == value_of(size),
{
    match size {
        AsteroidSize::Small => SMALL_ASTEROID_VALUE,
        AsteroidSize::Medium => MEDIUM_ASTEROID_VALUE,
        AsteroidSize::Large => LARGE_ASTEROID_VALUE,
    }
}

/// The bonus for completing level `level` with `lives` lives left: the bonus
/// for a life, times the level, for each life.
pub fn life_bonus(lives: &Lives, level: u32) -> (bonus: u64)
    ensures
        bonus == bonus_of(*lives, level),
{
    proof {
        lemma_bonus_bound(*lives, level);
    }
    lives.0 as u64 * (LIFE_BONUS * level as u64)
}

/// Adds to the score the points for each asteroid destroyed and the bonus
/// for each level completed. Where the sum is more than a score can hold,
/// the score stays as it is and the answer is `false`.
pub fn update_score_listener(
    destroyed: &Vec<AsteroidDestroyedEvent>,
    level_ups: &Vec<LevelUpEvent>,
    score: &mut Score,
    lives: &Lives,
) -> (updated: bool)
    ensures
        updated == (old(score).0 + gain_of(destroyed@, level_ups@, *lives) <= u64::MAX),
        updated ==> final(score).0 == old(score).0 + gain_of(destroyed@, level_ups@, *lives),
        !updated ==> *final(score) == *old(score),
{
    let mut total: u64 = score.0;
    let mut i: usize = 0;
    while i < destroyed.len()
        invariant
            i <= destroyed.len(),
            total == score.0 + points_through(destroyed@, i as int),
        decreases destroyed.len() - i,
    {
        match total.checked_add(asteroid_value(destroyed[i].3)) {
            Some(sum) => {
                total = sum;
            },
            None => {
                proof {
                    lemma_points_grow(destroyed@, i as int + 1, destroyed.len() as int);
                    lemma_bonuses_grow(level_ups@, *lives, 0, level_ups.len() as int);
                }
                return false;
            },
        }
        i += 1;
    }
    let mut j: usize = 0;
    while j < level_ups.len()
        invariant
            j <= level_ups.len(),
            total == score.0 + points_through(destroyed@, destroyed.len() as int)
                + bonuses_through(level_ups@, *lives, j as int),
        decreases level_ups.len() - j,
    {
        match total.checked_add(life_bonus(lives, level_ups[j].0.0)) {
            Some(sum) => {
                total = sum;
            },
            None => {
                proof {
                    lemma_bonuses_grow(level_ups@, *lives, j as int + 1, level_ups.len() as int);
                }
                return false;
            },
        }
        j += 1;
    }
    score.0 = total;
    true
}

} // verus!
