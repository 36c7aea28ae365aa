use stroids::asteroid::{AsteroidCount, AsteroidDestroyedEvent, AsteroidSize};
use stroids::geometry::Vec2;
use stroids::level::{level_completion_watcher, setup_level, Level, LevelUpEvent};
use stroids::physics::{Entity, PlayerKilledEvent, Velocity};
use stroids::player::{player_killed_listener, setup_lives, Lives, STARTING_LIVES};
use stroids::sat::{Rotation, Transform, ROTATION_ONE};
use stroids::scoring::{
    asteroid_value, life_bonus, reset_score, setup_score, update_score_listener, Score,
    LIFE_BONUS,
};
use stroids::state::GameState;

fn destroyed(size: AsteroidSize) -> AsteroidDestroyedEvent {
    AsteroidDestroyedEvent(
        Entity(1),
        Transform {
            translation: Vec2 { x: 0, y: 0 },
            rotation: Rotation { cos: ROTATION_ONE, sin: 0 },
        },
        Velocity(Vec2 { x: 0, y: 0 }),
        size,
    )
}

#[test]
fn a_game_starts_at_level_one_with_five_lives_and_no_score() {
    assert_eq!(setup_level(), Level(1));
    assert_eq!(setup_lives(), Lives(5));
    assert_eq!(STARTING_LIVES, 5);
    assert_eq!(setup_score(), Score(0));
}

#[test]
fn level_is_complete_when_no_asteroid_is_left() {
    let mut level = Level(3);
    let completed = level_completion_watcher(&AsteroidCount(0), &mut level);
    assert_eq!(completed, Some((LevelUpEvent(Level(3)), GameState::LevelComplete)));
    assert_eq!(level, Level(4));
}

#[test]
fn level_goes_on_while_asteroids_are_left() {
    let mut level = Level(3);
    assert_eq!(level_completion_watcher(&AsteroidCount(1), &mut level), None);
    assert_eq!(level_completion_watcher(&AsteroidCount(u32::MAX), &mut level), None);
    assert_eq!(level, Level(3));
    let mut last = Level(u32::MAX);
    assert_eq!(level_completion_watcher(&AsteroidCount(2), &mut last), None);
    assert_eq!(last, Level(u32::MAX));
}

#[test]
fn a_kill_takes_one_life_and_reloads() {
    let mut lives = Lives(5);
    let next = player_killed_listener(Some(PlayerKilledEvent), &mut lives);
    assert_eq!(lives, Lives(4));
    assert_eq!(next, Some(GameState::Loading));
}

#[test]
fn the_last_life_ends_the_game() {
    let mut lives = Lives(1);
    let next = player_killed_listener(Some(PlayerKilledEvent), &mut lives);
    assert_eq!(lives, Lives(0));
    assert_eq!(next, Some(GameState::GameOver));
}

#[test]
fn no_life_is_taken_below_none() {
    let mut lives = Lives(0);
    let next = player_killed_listener(Some(PlayerKilledEvent), &mut lives);
    assert_eq!(lives, Lives(0));
    assert_eq!(next, Some(GameState::GameOver));
}

#[test]
fn without_a_kill_nothing_happens() {
    let mut lives = Lives(2);
    assert_eq!(player_killed_listener(None, &mut lives), None);
    assert_eq!(lives, Lives(2));
}

#[test]
fn asteroid_values() {
    assert_eq!(asteroid_value(AsteroidSize::Small), 25);
    assert_eq!(asteroid_value(AsteroidSize::Medium), 50);
    assert_eq!(asteroid_value(AsteroidSize::Large), 100);
}

#[test]
fn life_bonus_is_a_thousand_per_life_and_level() {
    assert_eq!(LIFE_BONUS, 1000);
    assert_eq!(life_bonus(&Lives(3), 2), 6000);
    assert_eq!(life_bonus(&Lives(0), 9), 0);
    assert_eq!(life_bonus(&Lives(5), 0), 0);
    assert_eq!(life_bonus(&Lives(255), u32::MAX), 255 * 1000 * (u32::MAX as u64));
}

#[test]
fn score_grows_by_points_and_bonuses() {
    let mut score = Score(10);
    let events = vec![
        destroyed(AsteroidSize::Large),
        destroyed(AsteroidSize::Small),
        destroyed(AsteroidSize::Medium),
        destroyed(AsteroidSize::Small),
    ];
    let level_ups = vec![LevelUpEvent(Level(2)), LevelUpEvent(Level(3))];
    assert!(update_score_listener(&events, &level_ups, &mut score, &Lives(4)));
    assert_eq!(score, Score(10 + 100 + 25 + 50 + 25 + 4 * 2000 + 4 * 3000));
}

#[test]
fn score_without_events_stays() {
    let mut score = Score(77);
    assert!(update_score_listener(&Vec::new(), &Vec::new(), &mut score, &Lives(1)));
    assert_eq!(score, Score(77));
}

#[test]
fn score_that_would_not_fit_stays_as_it_is() {
    let mut score = Score(u64::MAX - 100);
    let one = vec![destroyed(AsteroidSize::Large)];
    assert!(update_score_listener(&one, &Vec::new(), &mut score, &Lives(1)));
    assert_eq!(score, Score(u64::MAX));
    let mut full = Score(u64::MAX - 24);
    let small = vec![destroyed(AsteroidSize::Small)];
    assert!(!update_score_listener(&small, &Vec::new(), &mut full, &Lives(1)));
    assert_eq!(full, Score(u64::MAX - 24));
    let mut nearly = Score(u64::MAX - 1024);
    let ups = vec![LevelUpEvent(Level(1))];
    assert!(!update_score_listener(&small, &ups, &mut nearly, &Lives(1)));
    assert_eq!(nearly, Score(u64::MAX - 1024));
    assert!(update_score_listener(&small, &ups, &mut nearly, &Lives(0)));
    assert_eq!(nearly, Score(u64::MAX - 999));
}

#[test]
fn score_is_reset_to_nothing() {
    let mut score = Score(1234);
    reset_score(&mut score);
    assert_eq!(score, Score(0));
}
