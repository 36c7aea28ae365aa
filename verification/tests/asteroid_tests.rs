use bevy_prng::WyRand;
use rand_core::{RngCore, SeedableRng};
use stroids::asteroid::{
    asteroid_destroyed_listener, fragment, fragmentable, initial_asteroid_count, reactable,
    setup_asteroid_count, spin_from_draw, Asteroid, AsteroidBundle, AsteroidCount, AsteroidDestroyedEvent, AsteroidSize,
};
use stroids::geometry::Vec2;
use stroids::physics::{Entity, Heading, RotationalVelocity, Velocity};
use stroids::sat::{Rotation, Transform, ROTATION_ONE};

fn pt(x: i32, y: i32) -> Vec2 {
    Vec2 { x, y }
}

fn at(x: i32, y: i32) -> Transform {
    Transform { translation: pt(x, y), rotation: Rotation { cos: ROTATION_ONE, sin: 0 } }
}

fn destroyed(id: u64, x: i32, y: i32, vx: i32, vy: i32, size: AsteroidSize) -> AsteroidDestroyedEvent {
    AsteroidDestroyedEvent(Entity(id), at(x, y), Velocity(pt(vx, vy)), size)
}

fn piece(size: AsteroidSize, x: i32, y: i32, vx: i32, vy: i32, spin: i32) -> AsteroidBundle {
    AsteroidBundle {
        asteroid: Asteroid,
        size,
        velocity: Velocity(pt(vx, vy)),
        rotational_velocity: RotationalVelocity(spin),
        heading: Heading(0),
        position: pt(x, y),
    }
}

#[test]
fn large_asteroid_breaks_into_two_medium_ones() {
    let event = destroyed(7, 100, 0, 10, 0, AsteroidSize::Large);
    let outcome = fragment(&event, &AsteroidCount(5), 0, 0);
    assert_eq!(outcome.despawned, Entity(7));
    assert_eq!(outcome.count, AsteroidCount(6));
    assert_eq!(
        outcome.children,
        vec![
            piece(AsteroidSize::Medium, 100, 0, 0, 10, 0),
            piece(AsteroidSize::Medium, 100, 0, 0, -10, 0),
        ]
    );
}

#[test]
fn medium_asteroid_breaks_into_two_small_ones() {
    let event = destroyed(8, -3, 9, 4, -6, AsteroidSize::Medium);
    let outcome = fragment(&event, &AsteroidCount(1), 6283 + 5, 12566 + 7);
    assert_eq!(outcome.despawned, Entity(8));
    assert_eq!(outcome.count, AsteroidCount(2));
    assert_eq!(
        outcome.children,
        vec![
            piece(AsteroidSize::Small, -3, 9, -6, 4, 5),
            piece(AsteroidSize::Small, -3, 9, 6, -4, 7),
        ]
    );
}

#[test]
fn small_asteroid_leaves_nothing() {
    let event = destroyed(9, 1, 2, 3, 4, AsteroidSize::Small);
    let outcome = fragment(&event, &AsteroidCount(3), 11, 12);
    assert_eq!(outcome.despawned, Entity(9));
    assert_eq!(outcome.count, AsteroidCount(2));
    assert!(outcome.children.is_empty());
}

#[test]
fn count_limits_of_fragment() {
    let small = destroyed(1, 0, 0, 1, 1, AsteroidSize::Small);
    let large = destroyed(2, 0, 0, 1, 1, AsteroidSize::Large);
    assert!(!fragmentable(&small, &AsteroidCount(0)));
    assert!(fragmentable(&small, &AsteroidCount(1)));
    assert!(fragmentable(&large, &AsteroidCount(0)));
    assert!(!fragmentable(&large, &AsteroidCount(u32::MAX)));
    assert!(fragmentable(&large, &AsteroidCount(u32::MAX - 1)));
    assert_eq!(fragment(&large, &AsteroidCount(u32::MAX - 1), 0, 0).count, AsteroidCount(u32::MAX));
    assert_eq!(fragment(&small, &AsteroidCount(1), 0, 0).count, AsteroidCount(0));
}

#[test]
fn velocity_that_cannot_be_negated_is_refused() {
    let bad_x = destroyed(1, 0, 0, i32::MIN, 0, AsteroidSize::Large);
    let bad_y = destroyed(1, 0, 0, 0, i32::MIN, AsteroidSize::Small);
    assert!(!fragmentable(&bad_x, &AsteroidCount(5)));
    assert!(!fragmentable(&bad_y, &AsteroidCount(5)));
    assert!(!reactable(&vec![bad_x], &AsteroidCount(5)));
    let edge = destroyed(1, 0, 0, i32::MIN + 1, i32::MAX, AsteroidSize::Large);
    assert!(fragmentable(&edge, &AsteroidCount(5)));
    let outcome = fragment(&edge, &AsteroidCount(5), 0, 0);
    assert_eq!(outcome.children[0].velocity, Velocity(pt(i32::MAX, i32::MIN + 1)));
    assert_eq!(outcome.children[1].velocity, Velocity(pt(-i32::MAX, i32::MAX)));
}

#[test]
fn spin_is_the_draw_short_of_a_full_turn() {
    assert_eq!(spin_from_draw(0), RotationalVelocity(0));
    assert_eq!(spin_from_draw(6282), RotationalVelocity(6282));
    assert_eq!(spin_from_draw(6283), RotationalVelocity(0));
    assert_eq!(spin_from_draw(u32::MAX), RotationalVelocity((u32::MAX % 6283) as i32));
}

#[test]
fn destroying_a_large_asteroid_to_the_end_nets_one_less() {
    let n = 10;
    let mut count = AsteroidCount(n);
    let mut rng = WyRand::seed_from_u64(1);
    let large = vec![destroyed(1, 0, 0, 3, 4, AsteroidSize::Large)];
    let first = asteroid_destroyed_listener(&large, &mut count, &mut rng);
    assert_eq!(count, AsteroidCount(n + 1));
    assert_eq!(first.spawned.len(), 2);
    let mediums: Vec<AsteroidDestroyedEvent> = first
        .spawned
        .iter()
        .map(|b| AsteroidDestroyedEvent(Entity(2), at(b.position.x, b.position.y), b.velocity, b.size))
        .collect();
    let second = asteroid_destroyed_listener(&mediums, &mut count, &mut rng);
    assert_eq!(count, AsteroidCount(n + 3));
    assert_eq!(second.spawned.len(), 4);
    let smalls: Vec<AsteroidDestroyedEvent> = second
        .spawned
        .iter()
        .map(|b| AsteroidDestroyedEvent(Entity(3), at(b.position.x, b.position.y), b.velocity, b.size))
        .collect();
    assert!(smalls.iter().all(|e| e.3 == AsteroidSize::Small));
    let third = asteroid_destroyed_listener(&smalls, &mut count, &mut rng);
    assert!(third.spawned.is_empty());
    assert_eq!(count, AsteroidCount(n - 1));
}

#[test]
fn end_to_end_large_asteroid_hit_by_a_projectile() {
    let mut count = AsteroidCount(4);
    let mut rng = WyRand::seed_from_u64(99);
    let events = vec![destroyed(42, 100, 0, 10, 0, AsteroidSize::Large)];
    let reaction = asteroid_destroyed_listener(&events, &mut count, &mut rng);
    assert_eq!(count, AsteroidCount(5));
    assert_eq!(reaction.despawned, vec![Entity(42)]);
    assert_eq!(reaction.spawned.len(), 2);
    assert_eq!(reaction.spawned[0].size, AsteroidSize::Medium);
    assert_eq!(reaction.spawned[1].size, AsteroidSize::Medium);
    assert_eq!(reaction.spawned[0].position, pt(100, 0));
    assert_eq!(reaction.spawned[1].position, pt(100, 0));
    assert_eq!(reaction.spawned[0].velocity, Velocity(pt(0, 10)));
    assert_eq!(reaction.spawned[1].velocity, Velocity(pt(0, -10)));
    assert_eq!(reaction.spawned[0].heading, Heading(0));
    assert_eq!(reaction.spawned[1].heading, Heading(0));
}

#[test]
fn listener_draws_twice_for_each_asteroid_that_breaks() {
    let events = vec![
        destroyed(1, 5, 5, 1, 2, AsteroidSize::Medium),
        destroyed(2, 6, 6, 0, 0, AsteroidSize::Small),
        destroyed(3, 7, 7, -3, 8, AsteroidSize::Large),
    ];
    let mut count = AsteroidCount(3);
    let mut rng = WyRand::seed_from_u64(2024);
    let reaction = asteroid_destroyed_listener(&events, &mut count, &mut rng);

    let mut same = WyRand::seed_from_u64(2024);
    let draws = [same.next_u32(), same.next_u32(), same.next_u32(), same.next_u32()];
    let mut expected = Vec::new();
    let mut running = AsteroidCount(3);
    let first = fragment(&events[0], &running, draws[0], draws[1]);
    running = first.count;
    expected.extend(first.children);
    let second = fragment(&events[1], &running, 0, 0);
    running = second.count;
    expected.extend(second.children);
    let third = fragment(&events[2], &running, draws[2], draws[3]);
    running = third.count;
    expected.extend(third.children);

    assert_eq!(reaction.spawned, expected);
    assert_eq!(reaction.despawned, vec![Entity(1), Entity(2), Entity(3)]);
    assert_eq!(count, running);
    assert_eq!(count, AsteroidCount(4));
    // The generator has moved on by exactly the four draws.
    assert_eq!(rng.next_u32(), same.next_u32());
    assert!(reaction.spawned.iter().all(|b| (0..6283).contains(&b.rotational_velocity.0)));
    assert!(draws[0] != draws[1] || draws[2] != draws[3]);
}

#[test]
fn listener_without_events_changes_nothing() {
    let mut count = AsteroidCount(0);
    let mut rng = WyRand::seed_from_u64(5);
    let mut same = WyRand::seed_from_u64(5);
    let reaction = asteroid_destroyed_listener(&Vec::new(), &mut count, &mut rng);
    assert!(reaction.despawned.is_empty() && reaction.spawned.is_empty());
    assert_eq!(count, AsteroidCount(0));
    assert_eq!(rng.next_u32(), same.next_u32());
}

#[test]
fn reactable_follows_the_count_through_the_events() {
    let small = destroyed(1, 0, 0, 1, 1, AsteroidSize::Small);
    let large = destroyed(2, 0, 0, 1, 1, AsteroidSize::Large);
    assert!(reactable(&vec![], &AsteroidCount(0)));
    assert!(!reactable(&vec![small], &AsteroidCount(0)));
    assert!(reactable(&vec![large, small], &AsteroidCount(0)));
    assert!(!reactable(&vec![large, small, small, small], &AsteroidCount(1)));
    assert!(reactable(&vec![small, large], &AsteroidCount(u32::MAX)));
    assert!(!reactable(&vec![large, small], &AsteroidCount(u32::MAX)));
}

#[test]
fn a_level_starts_with_one_asteroid_and_two_more_per_level() {
    assert_eq!(setup_asteroid_count(), AsteroidCount(0));
    assert_eq!(initial_asteroid_count(0), Some(AsteroidCount(1)));
    assert_eq!(initial_asteroid_count(1), Some(AsteroidCount(3)));
    assert_eq!(initial_asteroid_count(7), Some(AsteroidCount(15)));
    assert_eq!(initial_asteroid_count(2147483647), Some(AsteroidCount(u32::MAX)));
    assert_eq!(initial_asteroid_count(2147483648), None);
}

#[test]
fn bundle_holds_what_it_is_given() {
    let b = AsteroidBundle::new(AsteroidSize::Large, pt(1, 2), pt(3, 4), 5, 6);
    assert_eq!(
        b,
        AsteroidBundle {
            asteroid: Asteroid,
            size: AsteroidSize::Large,
            velocity: Velocity(pt(3, 4)),
            rotational_velocity: RotationalVelocity(5),
            heading: Heading(6),
            position: pt(1, 2),
        }
    );
}
