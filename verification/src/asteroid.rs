//! Asteroids and what becomes of them when they are destroyed: a large one
//! breaks into two medium ones, a medium one into two small ones, and a small
//! one is gone.

use vstd::prelude::*;
use bevy_prng::WyRand;
use crate::entropy::next_draw;
use crate::geometry::Vec2;
use crate::physics::{Entity, Heading, RotationalVelocity, Velocity, TAU_MILLIRADIANS};
use crate::sat::Transform;

verus! {

/// The number of asteroids at the start of the first level, before the
/// level's own share.
pub const NUM_ASTEROIDS: u32 = 1;

/// The three sizes of an asteroid.
#[derive(Clone, Copy, Debug, PartialEq, Eq, Structural)]
pub enum AsteroidSize {
    Small,
    Medium,
    Large,
}

/// The mark of an asteroid.
#[derive(Clone, Copy, Debug, PartialEq, Eq, Structural)]
pub struct Asteroid;

/// The number of asteroids alive.
#[derive(Clone, Copy, Debug, PartialEq, Eq, Structural)]
pub struct AsteroidCount(pub u32);

/// An asteroid was destroyed: which one, where it was, how it moved and how
/// large it was.
#[derive(Clone, Copy, Debug, PartialEq, Eq, Structural)]
pub struct AsteroidDestroyedEvent(pub Entity, pub Transform, pub Velocity, pub AsteroidSize);

/// What a new asteroid starts with.
#[derive(Clone, Copy, Debug, PartialEq, Eq, Structural)]
pub struct AsteroidBundle {
    pub asteroid: Asteroid,
    pub size: AsteroidSize,
    pub velocity: Velocity,
    pub rotational_velocity: RotationalVelocity,
    pub heading: Heading,
    pub position: Vec2,
}

/// What the destruction of one asteroid leads to: the entity to remove, the
/// asteroids to spawn and the new number of asteroids.
#[derive(Debug)]
pub struct Fragmentation {
    pub despawned: Entity,
    pub children: Vec<AsteroidBundle>,
    pub count: AsteroidCount,
}

/// What the destruction of several asteroids leads to: the entities to
/// remove and the asteroids to spawn, both in the order of the events.
#[derive(Debug)]
pub struct Reaction {
    pub despawned: Vec<Entity>,
    pub spawned: Vec<AsteroidBundle>,
}

/// The size of the pieces of an asteroid of size `size`.
pub open spec fn piece_size(size: AsteroidSize) -> AsteroidSize {
    match size {
        AsteroidSize::Large => AsteroidSize::Medium,
        _ => AsteroidSize::Small,
    }
}

/// The number of asteroids after one of size `size` is destroyed, where
/// there were `count`: one more where it breaks in two, one less where it is
/// gone.
pub open spec fn count_after(count: int, size: AsteroidSize) -> int {
    match size {
        AsteroidSize::Small => count - 1,
        _ => count + 1,
    }
}

/// The rotational velocity that the draw `draw` gives.
pub open spec fn spin_of(draw: u32) -> RotationalVelocity {
    RotationalVelocity((draw % TAU_MILLIRADIANS) as i32)
}

/// The piece of the asteroid of `event` that flies off at `velocity` and
/// turns as `draw` says: of the next size down, at the place of the asteroid,
/// with no heading.
pub open spec fn piece_of(event: AsteroidDestroyedEvent, velocity: Velocity, draw: u32) -> AsteroidBundle {
    AsteroidBundle {
        asteroid: Asteroid,
        size: piece_size(event.3),
        velocity,
        rotational_velocity: spin_of(draw),
        heading: Heading(0),
        position: event.1.translation,
    }
}

/// The asteroids that the destruction of `event` spawns: none for a small
/// asteroid, else two pieces, the first with the components of the velocity
/// exchanged, the second with them exchanged and negated.
pub open spec fn pieces_of(event: AsteroidDestroyedEvent, first_draw: u32, second_draw: u32) -> Seq<
    AsteroidBundle,
> {
    match event.3 {
        AsteroidSize::Small => Seq::empty(),
        _ => seq![
            piece_of(event, event.2.swapped(), first_draw),
            piece_of(event, event.2.swapped_and_reversed(), second_draw),
        ],
    }
}

/// The destruction of `event` can be reacted to where `count` asteroids are
/// alive: the velocity can be negated and the new count is a count.
pub open spec fn can_fragment(event: AsteroidDestroyedEvent, count: int) -> bool {
    &&& event.2.is_reversible()
    &&& 0 <= count_after(count, event.3) <= u32::MAX
}

/// The number of asteroids after the first `n` of `events`, where there were
/// `count`.
pub open spec fn count_through(events: Seq<AsteroidDestroyedEvent>, count: int, n: int) -> int
    decreases n,
{
    if n <= 0 {
        count
    } else {
        count_after(count_through(events, count, n - 1), events[n - 1].3)
    }
}

/// Each of `events` in turn can be reacted to, starting with `count`
/// asteroids alive.
pub open spec fn can_react(events: Seq<AsteroidDestroyedEvent>, count: int) -> bool {
    forall|n: int|
        0 <= n < events.len() ==> can_fragment(
            #[trigger] events[n],
            count_through(events, count, n),
        )
}

/// The asteroids that the first `n` of `events` spawn, where the event at
/// `i` turns its pieces by the draws at `2 * i` and `2 * i + 1`.
pub open spec fn spawned_through(events: Seq<AsteroidDestroyedEvent>, draws: Seq<u32>, n: int) -> Seq<
    AsteroidBundle,
>
    decreases n,
{
    if n <= 0 {
        Seq::empty()
    } else {
        spawned_through(events, draws, n - 1) + pieces_of(
            events[n - 1],
            draws[2 * (n - 1)],
            draws[2 * (n - 1) + 1],
        )
    }
}

/// The entities of `events`, in order.
pub open spec fn entities_of(events: Seq<AsteroidDestroyedEvent>) -> Seq<Entity> {
    Seq::new(events.len(), |i: int| events[i].0)
}

/// Destroying an asteroid of any size, then all of its pieces, and theirs,
/// down to the last small one, changes the number of asteroids by this much.
pub open spec fn change_by_destroying_all(size: AsteroidSize) -> int {
    match size {
        AsteroidSize::Small => -1,
        AsteroidSize::Medium => count_after(0, AsteroidSize::Medium) + 2 * count_after(
            0,
            AsteroidSize::Small,
        ),
        AsteroidSize::Large => count_after(0, AsteroidSize::Large) + 2 * (count_after(
            0,
            AsteroidSize::Medium,
        ) + 2 * count_after(0, AsteroidSize::Small)),
    }
}

/// Destroying one asteroid and everything that comes of it leaves one
/// asteroid less than before, whatever its size; and the destruction of a
/// large or medium asteroid alone leaves one more.
pub proof fn lemma_destruction_nets_to_one_less(size: AsteroidSize, count: int)
    ensures
        change_by_destroying_all(size) == -1,
        size != AsteroidSize::Small ==> count_after(count, size) == count + 1,
        size == AsteroidSize::Small ==> count_after(count, size) == count - 1,
{
}

/// One large asteroid, its two medium pieces and their four small pieces,
/// destroyed in this order, take the number of asteroids from `count` to
/// `count + 1`, then up to `count + 3`, and at last down to `count - 1`.
pub proof fn lemma_large_asteroid_cascade(events: Seq<AsteroidDestroyedEvent>, count: int)
    requires
        events.len() == 7,
        events[0].3 == AsteroidSize::Large,
        events[1].3 == AsteroidSize::Medium,
        events[2].3 == AsteroidSize::Medium,
        forall|i: int| 3 <= i < 7 ==> (#[trigger] events[i]).3 == AsteroidSize::Small,
    ensures
        count_through(events, count, 1) == count + 1,
        count_through(events, count, 3) == count + 3,
        count_through(events, count, 7) == count - 1,
{
    reveal_with_fuel(count_through, 8);
    assert(events[3].3 == AsteroidSize::Small);
    assert(events[4].3 == AsteroidSize::Small);
    assert(events[5].3 == AsteroidSize::Small);
    assert(events[6].3 == AsteroidSize::Small);
}

impl AsteroidBundle {
    /// A new asteroid of the given size, place, velocity, rotational velocity
    /// and heading.
    pub fn new(
        size: AsteroidSize,
        position: Vec2,
        velocity: Vec2,
        rotational_velocity: i32,
        heading: i32,
    ) -> (bundle: AsteroidBundle)
        ensures
            bundle == (AsteroidBundle {
                asteroid: Asteroid,
                size,
                velocity: Velocity(velocity),
                rotational_velocity: RotationalVelocity(rotational_velocity),
                heading: Heading(heading),
                position,
            }),
    {
        AsteroidBundle {
            asteroid: Asteroid,
            size,
            velocity: Velocity(velocity),
            rotational_velocity: RotationalVelocity(rotational_velocity),
            heading: Heading(heading),
            position,
        }
    }
}

/// The count before any level has started.
pub fn setup_asteroid_count() -> (count: AsteroidCount)
    ensures
        count == AsteroidCount(0),
{
    AsteroidCount(0)
}

/// The number of asteroids that a level starts with: one, and two more for
/// each level; none where that is more than a count can hold.
pub fn initial_asteroid_count(level: u32) -> (count: Option<AsteroidCount>)
    ensures
        NUM_ASTEROIDS + 2 * level <= u32::MAX ==> count == Some(
            AsteroidCount((NUM_ASTEROIDS + 2 * level) as u32),
        ),
        NUM_ASTEROIDS + 2 * level > u32::MAX ==> count is None,
{
    if level > (u32::MAX - NUM_ASTEROIDS) / 2 {
        None
    } else {
        Some(AsteroidCount(NUM_ASTEROIDS + 2 * level))
    }
}

/// The rotational velocity that a draw gives: the draw reduced to less than
/// a full turn.
pub fn spin_from_draw(draw: u32) -> (spin: RotationalVelocity)
    ensures
        spin == spin_of(draw),
{
    RotationalVelocity((draw % TAU_MILLIRADIANS) as i32)
}

/// Whether the destruction of `event` can be reacted to where `count`
/// asteroids are alive.
pub fn fragmentable(event: &AsteroidDestroyedEvent, count: &AsteroidCount) -> (r: bool)
    ensures
        r == can_fragment(*event, count.0 as int),
{
    if !event.2.reversible() {
        return false;
    }
    match event.3 {
        AsteroidSize::Small => count.0 >= 1,
        _ => count.0 < u32::MAX,
    }
}

/// What the destruction of the asteroid of `event` leads to, where `count`
/// asteroids are alive and the two draws turn its pieces.
///
/// The asteroid itself is to be removed. A small one leaves nothing and the
/// count goes down by one. A medium or large one leaves two pieces of the
/// next size down at its place, the first with the components of its
/// velocity exchanged, the second with them exchanged and negated, and the
/// count goes up by one.
pub fn fragment(
    event: &AsteroidDestroyedEvent,
    count: &AsteroidCount,
    first_draw: u32,
    second_draw: u32,
) -> (outcome: Fragmentation)
    requires
        can_fragment(*event, count.0 as int),
    ensures
        outcome.despawned == event.0,
        outcome.children@ == pieces_of(*event, first_draw, second_draw),
        outcome.count.0 == count_after(count.0 as int, event.3),
{
    let (entity, transform, velocity, size) = (event.0, event.1, event.2, event.3);
    let mut children: Vec<AsteroidBundle> = Vec::new();
    match size {
        AsteroidSize::Small => {
            assert(children@ =~= pieces_of(*event, first_draw, second_draw));
            Fragmentation { despawned: entity, children, count: AsteroidCount(count.0 - 1) }
        },
        AsteroidSize::Medium => {
            children.push(
                AsteroidBundle::new(
                    AsteroidSize::Small,
                    transform.translation,
                    Vec2 { x: velocity.0.y, y: velocity.0.x },
                    spin_from_draw(first_draw).0,
                    0,
                ),
            );
            children.push(
                AsteroidBundle::new(
                    AsteroidSize::Small,
                    transform.translation,
                    Vec2 { x: -velocity.0.y, y: -velocity.0.x },
                    spin_from_draw(second_draw).0,
                    0,
                ),
            );
            assert(children@ =~= pieces_of(*event, first_draw, second_draw));
            Fragmentation { despawned: entity, children, count: AsteroidCount(count.0 + 1) }
        },
        AsteroidSize::Large => {
            children.push(
                AsteroidBundle::new(
                    AsteroidSize::Medium,
                    transform.translation,
                    Vec2 { x: velocity.0.y, y: velocity.0.x },
                    spin_from_draw(first_draw).0,
                    0,
                ),
            );
            children.push(
                AsteroidBundle::new(
                    AsteroidSize::Medium,
                    transform.translation,
                    Vec2 { x: -velocity.0.y, y: -velocity.0.x },
                    spin_from_draw(second_draw).0,
                    0,
                ),
            );
            assert(children@ =~= pieces_of(*event, first_draw, second_draw));
            Fragmentation { despawned: entity, children, count: AsteroidCount(count.0 + 1) }
        },
    }
}

/// Whether each of `events` in turn can be reacted to, starting with `count`
/// asteroids alive.
pub fn reactable(events: &Vec<AsteroidDestroyedEvent>, count: &AsteroidCount) -> (r: bool)
    ensures
        r == can_react(events@, count.0 as int),
{
    let mut running = AsteroidCount(count.0);
    let mut i: usize = 0;
    while i < events.len()
        invariant
            i <= events.len(),
            running.0 == count_through(events@, count.0 as int, i as int),
            forall|n: int|
                0 <= n < i ==> can_fragment(
                    #[trigger] events@[n],
                    count_through(events@, count.0 as int, n),
                ),
        decreases events.len() - i,
    {
        if !fragmentable(&events[i], &running) {
            return false;
        }
        running =
        match events[i].3 {
            AsteroidSize::Small => AsteroidCount(running.0 - 1),
            _ => AsteroidCount(running.0 + 1),
        };
        i += 1;
    }
    true
}

/// Reacts to the destruction of the asteroids of `events`, each in turn:
/// every asteroid is to be removed, every medium or large one leaves its two
/// pieces, each turned by a draw of its own from `rng`, and `asteroid_count`
/// follows.
///
/// Whatever is drawn, the pieces are those that `fragment` gives for some
/// draws, and the count and the removals do not depend on the draws.
pub fn asteroid_destroyed_listener(
    events: &Vec<AsteroidDestroyedEvent>,
    asteroid_count: &mut AsteroidCount,
    rng: &mut WyRand,
) -> (reaction: Reaction)
    requires
        can_react(events@, old(asteroid_count).0 as int),
    ensures
        final(asteroid_count).0 == count_through(
            events@,
            old(asteroid_count).0 as int,
            events.len() as int,
        ),
        reaction.despawned@ == entities_of(events@),
        exists|draws: Seq<u32>|
            draws.len() == 2 * events.len() && reaction.spawned@ == #[trigger] spawned_through(
                events@,
                draws,
                events.len() as int,
            ),
{
    let ghost start = asteroid_count.0 as int;
    let ghost draws: Seq<u32> = Seq::empty();
    let mut despawned: Vec<Entity> = Vec::new();
    let mut spawned: Vec<AsteroidBundle> = Vec::new();
    let mut i: usize = 0;
    while i < events.len()
        invariant
            i <= events.len(),
            can_react(events@, start),
            asteroid_count.0 == count_through(events@, start, i as int),
            draws.len() == 2 * i,
            despawned@ == entities_of(events@).take(i as int),
            spawned@ == spawned_through(events@, draws, i as int),
        decreases events.len() - i,
    {
        let ev = &events[i];
        let (first_draw, second_draw) = match ev.3 {
            AsteroidSize::Small => (0u32, 0u32),
            _ => {
                let first = next_draw(rng);
                let second = next_draw(rng);
                (first, second)
            },
        };
        assert(can_fragment(events@[i as int], count_through(events@, start, i as int)));
        let outcome = fragment(ev, asteroid_count, first_draw, second_draw);
        proof {
            let before = draws;
            draws = draws.push(first_draw).push(second_draw);
            lemma_spawned_through_extends(events@, before, draws, i as int);
            assert(entities_of(events@).take(i as int + 1) =~= entities_of(events@).take(
                i as int,
            ).push(ev.0));
        }
        despawned.push(outcome.despawned);
        let mut children = outcome.children;
        spawned.append(&mut children);
        *asteroid_count = outcome.count;
        i += 1;
    }
    proof {
        assert(entities_of(events@).take(events.len() as int) =~= entities_of(events@));
    }
    Reaction { despawned, spawned }
}

/// What the first `n` events spawn depends on the first `2 * n` draws only.
proof fn lemma_spawned_through_extends(
    events: Seq<AsteroidDestroyedEvent>,
    draws: Seq<u32>,
    more: Seq<u32>,
    n: int,
)
    requires
        0 <= n,
        2 * n <= draws.len() <= more.len(),
        forall|i: int| 0 <= i < draws.len() ==> draws[i] == more[i],
    ensures
        spawned_through(events, draws, n) == spawned_through(events, more, n),
    decreases n,
{
    if n > 0 {
        lemma_spawned_through_extends(events, draws, more, n - 1);
    }
}

} // verus!
