use ball_game::enemy::components::Enemy;
use ball_game::enemy::SAFE_DISTANCE;
use ball_game::events::{EntityKind, GameEvent};
use ball_game::field::Field;
use ball_game::star::components::Star;
use ball_game::star::resources::StarSpawnTimer;
use ball_game::star::systems::{
    accepts, is_safe_from, place_star, spawn_stars, spawn_stars_over_time, tick_star_spawn_timer,
};
use ball_game::star::{MAX_ATTEMPTS, NUMBER_OF_STARS, STAR_SIZE, STAR_SPAWN_TIME};
use ball_game::timer::TimerMode;
use ball_game::vec2::{Vec2, UNIT};

fn enemy_at(id: u64, x: i64, y: i64) -> Enemy {
    Enemy { id, position: Vec2::new(x, y), direction: Vec2::new(UNIT, 0) }
}

#[test]
fn star_constants() {
    assert_eq!(NUMBER_OF_STARS, 10);
    assert_eq!(STAR_SIZE, 30_000);
    assert_eq!(STAR_SPAWN_TIME, 1_000_000_000);
    assert_eq!(MAX_ATTEMPTS, 11);
}

#[test]
fn place_is_safe_beyond_the_safe_distance() {
    let enemies = vec![enemy_at(1, 400_000, 400_000), enemy_at(2, 100_000, 100_000)];
    assert!(is_safe_from(Vec2::new(700_000, 700_000), &enemies));
    assert!(!is_safe_from(Vec2::new(400_000, 400_000), &enemies));
    assert!(!is_safe_from(Vec2::new(150_000, 150_000), &enemies));
    // Exactly at the safe distance is not further than it.
    assert!(!is_safe_from(Vec2::new(400_000 + SAFE_DISTANCE, 400_000), &enemies));
    assert!(is_safe_from(Vec2::new(400_000 + SAFE_DISTANCE + 1, 400_000), &enemies));
    assert!(is_safe_from(Vec2::new(0, 0), &Vec::new()));
}

#[test]
fn unsafe_place_is_taken_when_the_attempts_are_used_up() {
    let enemies = vec![enemy_at(1, 400_000, 400_000)];
    let close = Vec2::new(410_000, 400_000);
    let far = Vec2::new(10_000, 10_000);
    assert!(accepts(far, &enemies, 0));
    assert!(!accepts(close, &enemies, 0));
    assert!(!accepts(close, &enemies, MAX_ATTEMPTS - 1));
    assert!(accepts(close, &enemies, MAX_ATTEMPTS));
    assert!(accepts(far, &enemies, MAX_ATTEMPTS));
}

#[test]
fn star_is_placed_away_from_the_enemies() {
    // One enemy in a corner of a wide field: nearly every place is safe.
    let field = Field::new(4_000_000, 4_000_000);
    let enemies = vec![enemy_at(1, 0, 0)];
    for _ in 0..50 {
        let placement = place_star(&enemies, field);
        assert!(placement.rejected.len() <= MAX_ATTEMPTS as usize);
        assert!(0 <= placement.position.x && placement.position.x < 4_000_000);
        assert!(0 <= placement.position.y && placement.position.y < 4_000_000);
        if placement.rejected.len() < MAX_ATTEMPTS as usize {
            assert!(is_safe_from(placement.position, &enemies));
        }
        for place in &placement.rejected {
            assert!(!is_safe_from(*place, &enemies));
        }
    }
}

#[test]
fn star_is_placed_although_no_place_is_safe() {
    // The whole field is within the safe distance of the enemy.
    let field = Field::new(10_000, 10_000);
    let enemies = vec![enemy_at(1, 5_000, 5_000)];
    let placement = place_star(&enemies, field);
    assert_eq!(placement.rejected.len(), MAX_ATTEMPTS as usize);
    assert!(0 <= placement.position.x && placement.position.x < 10_000);
    assert!(0 <= placement.position.y && placement.position.y < 10_000);
    assert!(!is_safe_from(placement.position, &enemies));
    for place in &placement.rejected {
        assert!(0 <= place.x && place.x < 10_000);
        assert!(0 <= place.y && place.y < 10_000);
    }

    let mut spawn_timer = StarSpawnTimer::default();
    tick_star_spawn_timer(&mut spawn_timer, STAR_SPAWN_TIME);
    let mut stars: Vec<Star> = Vec::new();
    let mut next_id: u64 = 9;
    let events = spawn_stars_over_time(&mut stars, &enemies, &mut next_id, field, &spawn_timer);
    assert_eq!(stars.len(), 1);
    assert_eq!(events.len(), 1);
    assert_eq!(next_id, 10);
    assert_eq!(stars[0].id, 9);
}

#[test]
fn first_stars_are_spawned_on_the_field() {
    let field = Field::new(800_000, 600_000);
    let enemies = vec![enemy_at(1, 400_000, 300_000)];
    let mut stars = vec![Star { id: 0, position: Vec2::new(1, 2) }];
    let mut next_id: u64 = 2;
    let events = spawn_stars(&mut stars, &enemies, &mut next_id, field);
    assert_eq!(stars.len(), 1 + NUMBER_OF_STARS);
    assert_eq!(events.len(), NUMBER_OF_STARS);
    assert_eq!(next_id, 2 + NUMBER_OF_STARS as u64);
    assert_eq!(stars[0], Star { id: 0, position: Vec2::new(1, 2) });
    for k in 0..NUMBER_OF_STARS {
        let s = stars[1 + k];
        assert_eq!(s.id, 2 + k as u64);
        assert!(0 <= s.position.x && s.position.x < 800_000);
        assert!(0 <= s.position.y && s.position.y < 600_000);
        assert_eq!(
            events[k],
            GameEvent::Spawned {
                kind: EntityKind::Star,
                id: s.id,
                position: s.position,
                direction: None,
            }
        );
    }
}

#[test]
fn star_spawn_timer_repeats_every_second() {
    let mut spawn_timer = StarSpawnTimer::default();
    assert_eq!(spawn_timer.timer.duration(), 1_000_000_000);
    assert_eq!(spawn_timer.timer.mode(), TimerMode::Repeating);
    tick_star_spawn_timer(&mut spawn_timer, 1_300_000_000);
    assert!(spawn_timer.timer.finished());
    assert_eq!(spawn_timer.timer.elapsed(), 300_000_000);
}

#[test]
fn a_star_is_spawned_when_the_timer_finishes() {
    let field = Field::new(800_000, 600_000);
    let enemies: Vec<Enemy> = Vec::new();
    let mut spawn_timer = StarSpawnTimer::default();
    let mut stars: Vec<Star> = Vec::new();
    let mut next_id: u64 = 0;
    tick_star_spawn_timer(&mut spawn_timer, 999_999_999);
    let events = spawn_stars_over_time(&mut stars, &enemies, &mut next_id, field, &spawn_timer);
    assert!(events.is_empty());
    assert!(stars.is_empty());
    assert_eq!(next_id, 0);
    tick_star_spawn_timer(&mut spawn_timer, 1);
    let events = spawn_stars_over_time(&mut stars, &enemies, &mut next_id, field, &spawn_timer);
    assert_eq!(stars.len(), 1);
    assert_eq!(next_id, 1);
    assert_eq!(
        events,
        vec![GameEvent::Spawned {
            kind: EntityKind::Star,
            id: 0,
            position: stars[0].position,
            direction: None,
        }]
    );
    // Not again before the next period is over.
    tick_star_spawn_timer(&mut spawn_timer, 1);
    let events = spawn_stars_over_time(&mut stars, &enemies, &mut next_id, field, &spawn_timer);
    assert!(events.is_empty());
    assert_eq!(stars.len(), 1);
}

#[test]
fn safe_place_is_taken_at_once() {
    let field = Field::new(800_000, 600_000);
    let placement = place_star(&Vec::new(), field);
    assert!(placement.rejected.is_empty());
    assert!(0 <= placement.position.x && placement.position.x < 800_000);
    assert!(0 <= placement.position.y && placement.position.y < 600_000);
}
