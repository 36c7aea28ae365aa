//! What an entity carries besides its place: how it moves and turns.

use vstd::prelude::*;
use crate::asteroid::{AsteroidDestroyedEvent, AsteroidSize};
use crate::constants::{
    MAX_OUT_OF_BOUND_OFFSET, MAX_X_POSITION, MAX_Y_POSITION, MIN_X_POSITION, MIN_Y_POSITION,
};
use crate::geometry::Vec2;
use crate::hull::{CollisionHulls, Hull};
use crate::sat::{check_for_collision, collides, Transform};

verus! {

/// The full turn in the unit of headings and rotational velocities, a
/// thousandth of a radian.
pub const TAU_MILLIRADIANS: u32 = 6283;

/// The velocity of an entity, in units per second.
#[derive(Clone, Copy, Debug, PartialEq, Eq, Structural)]
pub struct Velocity(pub Vec2);

/// The rotational velocity of an entity, in thousandths of a radian per
/// second.
#[derive(Clone, Copy, Debug, PartialEq, Eq, Structural)]
pub struct RotationalVelocity(pub i32);

/// The heading of an entity, in thousandths of a radian.
#[derive(Clone, Copy, Debug, PartialEq, Eq, Structural)]
pub struct Heading(pub i32);

/// An entity of the game, by its identifier.
#[derive(Clone, Copy, Debug, PartialEq, Eq, Structural, Hash)]
pub struct Entity(pub u64);

impl Velocity {
    /// Both components have a negative: neither is the least integer.
    pub open spec fn is_reversible(&self) -> bool {
        self.0.x > i32::MIN && self.0.y > i32::MIN
    }

    /// The velocity with its components exchanged.
    pub open spec fn swapped(&self) -> Velocity {
        Velocity(Vec2 { x: self.0.y, y: self.0.x })
    }

    /// The velocity with its components exchanged and negated.
    pub open spec fn swapped_and_reversed(&self) -> Velocity {
        Velocity(Vec2 { x: (-self.0.y) as i32, y: (-self.0.x) as i32 })
    }

    /// Whether both components have a negative.
    pub fn reversible(&self) -> (r: bool)
        ensures
            r == self.is_reversible(),
    {
        self.0.x > i32::MIN && self.0.y > i32::MIN
    }
}

/// A coordinate brought back to the other side of the screen once it is
/// beyond `min` or `max`.
pub open spec fn wrapped(value: int, min: int, max: int) -> int {
    if value < min {
        max
    } else if value > max {
        min
    } else {
        value
    }
}

/// The place `translation` once it has left the screen by more than
/// `offset`: on the other side, as far out.
pub open spec fn wrapped_position(translation: Vec2, offset: int) -> Vec2 {
    Vec2 {
        x: wrapped(translation.x as int, MIN_X_POSITION - offset, MAX_X_POSITION + offset) as i32,
        y: wrapped(translation.y as int, MIN_Y_POSITION - offset, MAX_Y_POSITION + offset) as i32,
    }
}

/// Lets an entity go out of bounds by `out_of_bound_offset` before it is
/// moved to the other side of the screen, so that it does not pop off the
/// screen while part of it still shows.
pub fn out_of_bounds_system(translation: &mut Vec2, out_of_bound_offset: i32)
    requires
        -MAX_OUT_OF_BOUND_OFFSET <= out_of_bound_offset <= MAX_OUT_OF_BOUND_OFFSET,
    ensures
        *final(translation) == wrapped_position(*old(translation), out_of_bound_offset as int),
{
    let min_x_position = MIN_X_POSITION - out_of_bound_offset;
    let max_x_position = MAX_X_POSITION + out_of_bound_offset;
    let min_y_position = MIN_Y_POSITION - out_of_bound_offset;
    let max_y_position = MAX_Y_POSITION + out_of_bound_offset;

    if translation.x < min_x_position {
        translation.x = max_x_position;
    } else if translation.x > max_x_position {
        translation.x = min_x_position;
    }

    if translation.y < min_y_position {
        translation.y = max_y_position;
    } else if translation.y > max_y_position {
        translation.y = min_y_position;
    }
}

/// The player was hit by an asteroid.
#[derive(Clone, Copy, Debug, PartialEq, Eq, Structural)]
pub struct PlayerKilledEvent;

/// The player's ship as a tick finds it.
#[derive(Clone, Copy, Debug, PartialEq, Eq, Structural)]
pub struct PlayerBody {
    pub transform: Transform,
}

/// A projectile as a tick finds it.
#[derive(Clone, Copy, Debug, PartialEq, Eq, Structural)]
pub struct ProjectileBody {
    pub entity: Entity,
    pub transform: Transform,
}

/// An asteroid as a tick finds it.
#[derive(Clone, Copy, Debug, PartialEq, Eq, Structural)]
pub struct AsteroidBody {
    pub entity: Entity,
    pub transform: Transform,
    pub velocity: Velocity,
    pub size: AsteroidSize,
}

/// A projectile hit an asteroid: the projectile is to be removed, and the
/// asteroid is destroyed.
#[derive(Clone, Copy, Debug, PartialEq, Eq, Structural)]
pub struct ProjectileHit {
    pub projectile: Entity,
    pub destroyed: AsteroidDestroyedEvent,
}

/// What the collisions of one tick lead to.
#[derive(Debug)]
pub struct CollisionReport {
    pub player_killed: Option<PlayerKilledEvent>,
    pub hits: Vec<ProjectileHit>,
}

/// The boundary of an asteroid of size `size`.
pub open spec fn asteroid_hull(hulls: CollisionHulls, size: AsteroidSize) -> Hull {
    match size {
        AsteroidSize::Small => hulls.asteroid_sm,
        AsteroidSize::Medium => hulls.asteroid_m,
        AsteroidSize::Large => hulls.asteroid_lg,
    }
}

/// The player's ship overlaps the asteroid `a`.
pub open spec fn player_hits(hulls: CollisionHulls, player: PlayerBody, a: AsteroidBody) -> bool {
    collides(hulls.ship@, player.transform, asteroid_hull(hulls, a.size)@, a.transform)
}

/// The projectile `p` overlaps the asteroid `a`.
pub open spec fn projectile_hits(hulls: CollisionHulls, p: ProjectileBody, a: AsteroidBody) -> bool {
    collides(hulls.projectile@, p.transform, asteroid_hull(hulls, a.size)@, a.transform)
}

/// The hit of the projectile `p` on the asteroid `a`: it carries the
/// asteroid's identity, transform, velocity and size.
pub open spec fn hit_of(p: ProjectileBody, a: AsteroidBody) -> ProjectileHit {
    ProjectileHit {
        projectile: p.entity,
        destroyed: AsteroidDestroyedEvent(a.entity, a.transform, a.velocity, a.size),
    }
}

/// The hits of the first `n` projectiles on the asteroid `a`, in the order of
/// the projectiles.
pub open spec fn hits_on(
    hulls: CollisionHulls,
    projectiles: Seq<ProjectileBody>,
    a: AsteroidBody,
    n: int,
) -> Seq<ProjectileHit>
    decreases n,
{
    if n <= 0 {
        Seq::empty()
    } else if projectile_hits(hulls, projectiles[n - 1], a) {
        hits_on(hulls, projectiles, a, n - 1).push(hit_of(projectiles[n - 1], a))
    } else {
        hits_on(hulls, projectiles, a, n - 1)
    }
}

/// The hits of all projectiles on the first `m` asteroids, asteroid after
/// asteroid. A projectile that overlaps several asteroids hits each of them,
/// and an asteroid that several projectiles overlap is hit by each.
pub open spec fn hits_through(
    hulls: CollisionHulls,
    projectiles: Seq<ProjectileBody>,
    asteroids: Seq<AsteroidBody>,
    m: int,
) -> Seq<ProjectileHit>
    decreases m,
{
    if m <= 0 {
        Seq::empty()
    } else {
        hits_through(hulls, projectiles, asteroids, m - 1) + hits_on(
            hulls,
            projectiles,
            asteroids[m - 1],
            projectiles.len() as int,
        )
    }
}

/// The player is there and overlaps one of the asteroids.
pub open spec fn player_is_hit(
    hulls: CollisionHulls,
    player: Option<PlayerBody>,
    asteroids: Seq<AsteroidBody>,
) -> bool {
    player is Some && exists|i: int|
        0 <= i < asteroids.len() && player_hits(hulls, player->Some_0, #[trigger] asteroids[i])
}

impl CollisionHulls {
    /// The boundary of an asteroid of size `size`.
    pub fn asteroid(&self, size: AsteroidSize) -> (hull: &Hull)
        ensures
            *hull == asteroid_hull(*self, size),
    {
        match size {
            AsteroidSize::Small => &self.asteroid_sm,
            AsteroidSize::Medium => &self.asteroid_m,
            AsteroidSize::Large => &self.asteroid_lg,
        }
    }
}

/// The collisions of one tick: the player, if there is one, against every
/// asteroid, and every projectile against every asteroid.
///
/// The player is killed once, however many asteroids overlap the ship.
/// Without a player that pass is left out and the projectiles are still
/// tested. Each overlap of a projectile and an asteroid is a hit of its own.
pub fn collision_system(
    hulls: &CollisionHulls,
    player: Option<PlayerBody>,
    projectiles: &Vec<ProjectileBody>,
    asteroids: &Vec<AsteroidBody>,
) -> (report: CollisionReport)
    ensures
        report.player_killed is Some == player_is_hit(*hulls, player, asteroids@),
        report.hits@ == hits_through(*hulls, projectiles@, asteroids@, asteroids.len() as int),
{
    let mut player_killed: Option<PlayerKilledEvent> = None;
    let mut hits: Vec<ProjectileHit> = Vec::new();
    let mut i: usize = 0;
    while i < asteroids.len()
        invariant
            i <= asteroids.len(),
            player_killed is Some == (player is Some && exists|k: int|
                0 <= k < i && player_hits(*hulls, player->Some_0, #[trigger] asteroids[k])),
            hits@ == hits_through(*hulls, projectiles@, asteroids@, i as int),
        decreases asteroids.len() - i,
    {
        let asteroid = asteroids[i];
        let target = hulls.asteroid(asteroid.size);
        match player {
            Some(body) => {
                let player_collision = check_for_collision(
                    &hulls.ship,
                    &body.transform,
                    target,
                    &asteroid.transform,
                );
                if player_collision.is_some() {
                    assert(player_hits(*hulls, body, asteroids[i as int]));
                    player_killed = Some(PlayerKilledEvent);
                }
            },
            None => {},
        }
        let ghost before_asteroid = hits@;
        let mut j: usize = 0;
        while j < projectiles.len()
            invariant
                j <= projectiles.len(),
                i < asteroids.len(),
                asteroid == asteroids[i as int],
                *target == asteroid_hull(*hulls, asteroid.size),
                hits@ == before_asteroid + hits_on(*hulls, projectiles@, asteroid, j as int),
            decreases projectiles.len() - j,
        {
            let projectile = projectiles[j];
            let projectile_collision = check_for_collision(
                &hulls.projectile,
                &projectile.transform,
                target,
                &asteroid.transform,
            );
            if projectile_collision.is_some() {
                hits.push(
                    ProjectileHit {
                        projectile: projectile.entity,
                        destroyed: AsteroidDestroyedEvent(
                            asteroid.entity,
                            asteroid.transform,
                            asteroid.velocity,
                            asteroid.size,
                        ),
                    },
                );
                assert(hits@ == before_asteroid + hits_on(
                    *hulls,
                    projectiles@,
                    asteroid,
                    j as int + 1,
                ));
            }
            j += 1;
        }
        i += 1;
    }
    CollisionReport { player_killed, hits }
}

} // verus!
