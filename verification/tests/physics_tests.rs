use stroids::asteroid::{AsteroidDestroyedEvent, AsteroidSize};
use stroids::despawn::Despawning;
use stroids::geometry::Vec2;
use stroids::hull::{CollisionHulls, Hull};
use stroids::constants::{
    MAX_OUT_OF_BOUND_OFFSET, MAX_X_POSITION, MAX_Y_POSITION, MIN_X_POSITION, MIN_Y_POSITION,
    WINDOW_HEIGHT, WINDOW_WIDTH,
};
use stroids::physics::{
    collision_system, out_of_bounds_system, AsteroidBody, Entity, PlayerBody, PlayerKilledEvent,
    ProjectileBody, ProjectileHit, Velocity,
};
use stroids::sat::{Rotation, Transform, ROTATION_ONE};

fn pt(x: i32, y: i32) -> Vec2 {
    Vec2 { x, y }
}

fn at(x: i32, y: i32) -> Transform {
    Transform { translation: pt(x, y), rotation: Rotation { cos: ROTATION_ONE, sin: 0 } }
}

fn square(half: i32) -> Hull {
    Hull::from_bb(pt(half, half), pt(-half, half), pt(-half, -half), pt(half, -half))
}

fn hulls() -> CollisionHulls {
    CollisionHulls {
        ship: square(10),
        asteroid_lg: square(40),
        asteroid_m: square(20),
        asteroid_sm: square(10),
        projectile: square(2),
    }
}

fn asteroid(id: u64, x: i32, y: i32, size: AsteroidSize) -> AsteroidBody {
    AsteroidBody { entity: Entity(id), transform: at(x, y), velocity: Velocity(pt(1, -1)), size }
}

fn projectile(id: u64, x: i32, y: i32) -> ProjectileBody {
    ProjectileBody { entity: Entity(id), transform: at(x, y) }
}

fn hit(p: &ProjectileBody, a: &AsteroidBody) -> ProjectileHit {
    ProjectileHit {
        projectile: p.entity,
        destroyed: AsteroidDestroyedEvent(a.entity, a.transform, a.velocity, a.size),
    }
}

#[test]
fn nothing_collides_in_an_empty_world() {
    let report = collision_system(&hulls(), None, &Vec::new(), &Vec::new());
    assert_eq!(report.player_killed, None);
    assert!(report.hits.is_empty());
}

#[test]
fn player_is_killed_once_by_several_asteroids() {
    let player = Some(PlayerBody { transform: at(0, 0) });
    let asteroids = vec![
        asteroid(1, 5, 5, AsteroidSize::Small),
        asteroid(2, -30, 0, AsteroidSize::Large),
        asteroid(3, 500, 500, AsteroidSize::Medium),
    ];
    let report = collision_system(&hulls(), player, &Vec::new(), &asteroids);
    assert_eq!(report.player_killed, Some(PlayerKilledEvent));
    assert!(report.hits.is_empty());
}

#[test]
fn player_out_of_reach_survives() {
    let player = Some(PlayerBody { transform: at(0, 0) });
    let asteroids = vec![
        asteroid(1, 21, 0, AsteroidSize::Small),
        asteroid(2, 0, -51, AsteroidSize::Large),
    ];
    let report = collision_system(&hulls(), player, &Vec::new(), &asteroids);
    assert_eq!(report.player_killed, None);
}

#[test]
fn asteroid_size_selects_the_hull() {
    let player = Some(PlayerBody { transform: at(0, 0) });
    for (size, reach) in [
        (AsteroidSize::Small, 20),
        (AsteroidSize::Medium, 30),
        (AsteroidSize::Large, 50),
    ] {
        let touching = vec![asteroid(1, reach, 0, size)];
        let apart = vec![asteroid(1, reach + 1, 0, size)];
        assert!(collision_system(&hulls(), player, &Vec::new(), &touching).player_killed.is_some());
        assert!(collision_system(&hulls(), player, &Vec::new(), &apart).player_killed.is_none());
    }
}

#[test]
fn projectiles_are_tested_without_a_player() {
    let a = asteroid(1, 100, 100, AsteroidSize::Medium);
    let p = projectile(10, 110, 95);
    let report = collision_system(&hulls(), None, &vec![p], &vec![a]);
    assert_eq!(report.player_killed, None);
    assert_eq!(report.hits, vec![hit(&p, &a)]);
}

#[test]
fn every_overlap_of_a_projectile_and_an_asteroid_is_a_hit() {
    let a1 = asteroid(1, 0, 0, AsteroidSize::Large);
    let a2 = asteroid(2, 60, 0, AsteroidSize::Medium);
    let a3 = asteroid(3, 0, 900, AsteroidSize::Small);
    let p1 = projectile(10, 41, 0);
    let p2 = projectile(11, -20, -20);
    let p3 = projectile(12, 700, 0);
    let report = collision_system(
        &hulls(),
        Some(PlayerBody { transform: at(-500, -500) }),
        &vec![p1, p2, p3],
        &vec![a1, a2, a3],
    );
    assert_eq!(report.player_killed, None);
    assert_eq!(report.hits, vec![hit(&p1, &a1), hit(&p2, &a1), hit(&p1, &a2)]);
    let event = report.hits[2].destroyed;
    assert_eq!(event.0, Entity(2));
    assert_eq!(event.1, at(60, 0));
    assert_eq!(event.2, Velocity(pt(1, -1)));
    assert_eq!(event.3, AsteroidSize::Medium);
}

#[test]
fn marking_hit_projectiles_twice_is_marking_them_once() {
    let a1 = asteroid(1, 0, 0, AsteroidSize::Large);
    let a2 = asteroid(2, 60, 0, AsteroidSize::Medium);
    let p1 = projectile(10, 41, 0);
    let report = collision_system(&hulls(), None, &vec![p1], &vec![a1, a2]);
    assert_eq!(report.hits.len(), 2);
    let mut marks = Despawning::new();
    for h in report.hits.iter() {
        marks.insert(h.projectile);
    }
    assert!(marks.contains(Entity(10)));
    assert_eq!(marks.despawner(), vec![Entity(10)]);
}

#[test]
fn a_missing_hull_collides_with_nothing() {
    let mut h = hulls();
    h.asteroid_sm = Hull::default();
    let a = asteroid(1, 0, 0, AsteroidSize::Small);
    let report = collision_system(
        &h,
        Some(PlayerBody { transform: at(0, 0) }),
        &vec![projectile(10, 0, 0)],
        &vec![a],
    );
    assert_eq!(report.player_killed, None);
    assert!(report.hits.is_empty());
}

#[test]
fn hull_of_each_asteroid_size() {
    let h = hulls();
    assert_eq!(h.asteroid(AsteroidSize::Small).path(), h.asteroid_sm.path());
    assert_eq!(h.asteroid(AsteroidSize::Medium).path(), h.asteroid_m.path());
    assert_eq!(h.asteroid(AsteroidSize::Large).path(), h.asteroid_lg.path());
}

fn wrap(x: i32, y: i32, offset: i32) -> (i32, i32) {
    let mut place = pt(x, y);
    out_of_bounds_system(&mut place, offset);
    (place.x, place.y)
}

#[test]
fn the_screen_is_centred() {
    assert_eq!((MIN_X_POSITION, MAX_X_POSITION), (-WINDOW_WIDTH / 2, WINDOW_WIDTH / 2));
    assert_eq!((MIN_Y_POSITION, MAX_Y_POSITION), (-WINDOW_HEIGHT / 2, WINDOW_HEIGHT / 2));
    assert_eq!((WINDOW_WIDTH, WINDOW_HEIGHT), (2048, 1536));
}

#[test]
fn places_on_the_screen_and_in_the_margin_stay() {
    assert_eq!(wrap(0, 0, 8), (0, 0));
    assert_eq!(wrap(1024, -768, 0), (1024, -768));
    assert_eq!(wrap(1032, 776, 8), (1032, 776));
    assert_eq!(wrap(-1032, -776, 8), (-1032, -776));
}

#[test]
fn places_beyond_the_margin_come_back_on_the_other_side() {
    assert_eq!(wrap(1033, 0, 8), (-1032, 0));
    assert_eq!(wrap(-1033, 0, 8), (1032, 0));
    assert_eq!(wrap(5, 777, 8), (5, -776));
    assert_eq!(wrap(5, -777, 8), (5, 776));
    assert_eq!(wrap(i32::MAX, i32::MIN, 0), (-1024, 768));
    assert_eq!(wrap(1025, 769, 0), (-1024, -768));
}

#[test]
fn the_margin_at_its_limits() {
    let m = MAX_OUT_OF_BOUND_OFFSET;
    assert_eq!(wrap(i32::MAX, i32::MAX, m), (-1024 - m, -768 - m));
    assert_eq!(wrap(1024 + m, 768 + m, m), (1024 + m, 768 + m));
    // A margin below nothing narrows the screen, and a place left of it goes right.
    assert_eq!(wrap(0, 0, -m), (1024 - m, 768 - m));
}
