use stroids::despawn::Despawning;
use stroids::physics::Entity;

#[test]
fn marking_twice_is_marking_once() {
    let mut once = Despawning::new();
    once.insert(Entity(3));
    let mut twice = Despawning::new();
    twice.insert(Entity(3));
    twice.insert(Entity(3));
    assert!(once.contains(Entity(3)) && twice.contains(Entity(3)));
    assert_eq!(once.despawner(), vec![Entity(3)]);
    assert_eq!(twice.despawner(), vec![Entity(3)]);
}

#[test]
fn a_mark_takes_no_entity_away_before_the_sweep() {
    let mut marks = Despawning::new();
    assert!(!marks.contains(Entity(1)));
    marks.insert(Entity(1));
    marks.insert(Entity(2));
    marks.insert(Entity(1));
    assert!(marks.contains(Entity(1)));
    assert!(marks.contains(Entity(2)));
    assert!(!marks.contains(Entity(3)));
}

#[test]
fn the_sweep_hands_out_each_marked_entity_once_and_clears() {
    let mut marks = Despawning::new();
    for id in [5u64, 9, 5, 7, 9, 9] {
        marks.insert(Entity(id));
    }
    assert_eq!(marks.despawner(), vec![Entity(5), Entity(9), Entity(7)]);
    assert!(!marks.contains(Entity(5)));
    assert!(marks.despawner().is_empty());
}

#[test]
fn default_marks_are_empty() {
    let mut marks = Despawning::default();
    assert!(!marks.contains(Entity(0)));
    assert!(marks.despawner().is_empty());
}

#[test]
fn cloned_marks_are_the_same_marks() {
    let mut marks = Despawning::new();
    marks.insert(Entity(4));
    marks.insert(Entity(8));
    let mut copy = marks.clone();
    assert!(copy.contains(Entity(4)) && copy.contains(Entity(8)));
    assert_eq!(copy.despawner(), vec![Entity(4), Entity(8)]);
    assert!(marks.contains(Entity(4)));
}
