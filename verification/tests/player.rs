use ball_game::enemy::components::Enemy;
use ball_game::events::{EntityKind, GameEvent};
use ball_game::field::Field;
use ball_game::player::components::{MoveInput, Player};
use ball_game::player::systems::{
    confine_player_movement, is_caught, player_hit_enemy, player_hit_star, player_movement,
    spawn_player,
};
use ball_game::player::{PLAYER_SIZE, PLAYER_SPEED};
use ball_game::score::resources::Score;
use ball_game::star::components::Star;
use ball_game::vec2::{Vec2, UNIT};

const NONE: MoveInput = MoveInput { left: false, right: false, up: false, down: false };

fn player_at(x: i64, y: i64) -> Option<Player> {
    Some(Player { id: 0, position: Vec2::new(x, y) })
}

fn enemy_at(id: u64, x: i64, y: i64) -> Enemy {
    Enemy { id, position: Vec2::new(x, y), direction: Vec2::new(UNIT, 0) }
}

fn star_at(id: u64, x: i64, y: i64) -> Star {
    Star { id, position: Vec2::new(x, y) }
}

#[test]
fn player_constants() {
    assert_eq!(PLAYER_SPEED, 250_000);
    assert_eq!(PLAYER_SIZE, 64_000);
}

#[test]
fn player_is_spawned_in_the_middle() {
    let mut player = None;
    let mut next_id: u64 = 3;
    let events = spawn_player(&mut player, &mut next_id, Field::new(800_000, 600_000));
    assert_eq!(player, Some(Player { id: 3, position: Vec2::new(400_000, 300_000) }));
    assert_eq!(next_id, 4);
    assert_eq!(
        events,
        vec![GameEvent::Spawned {
            kind: EntityKind::Player,
            id: 3,
            position: Vec2::new(400_000, 300_000),
            direction: None,
        }]
    );
}

#[test]
fn keys_make_a_heading() {
    assert_eq!(NONE.heading(), Vec2::new(0, 0));
    assert_eq!(MoveInput { right: true, ..NONE }.heading(), Vec2::new(UNIT, 0));
    assert_eq!(MoveInput { left: true, ..NONE }.heading(), Vec2::new(-UNIT, 0));
    assert_eq!(MoveInput { up: true, ..NONE }.heading(), Vec2::new(0, UNIT));
    assert_eq!(MoveInput { down: true, ..NONE }.heading(), Vec2::new(0, -UNIT));
    assert_eq!(MoveInput { left: true, up: true, ..NONE }.heading(), Vec2::new(-707_106, 707_106));
    assert_eq!(MoveInput { left: true, right: true, ..NONE }.heading(), Vec2::new(0, 0));
    assert_eq!(
        MoveInput { left: true, right: true, down: true, up: false }.heading(),
        Vec2::new(0, -UNIT)
    );
    assert_eq!(
        MoveInput { left: true, right: true, down: true, up: true }.heading(),
        Vec2::new(0, 0)
    );
}

#[test]
fn player_moves_where_the_keys_send_it() {
    let mut player = player_at(100_000, 100_000);
    player_movement(&mut player, MoveInput { right: true, ..NONE }, 1_000_000_000);
    assert_eq!(player, player_at(350_000, 100_000));
    player_movement(&mut player, MoveInput { down: true, ..NONE }, 100_000_000);
    assert_eq!(player, player_at(350_000, 75_000));
    player_movement(&mut player, NONE, 1_000_000_000);
    assert_eq!(player, player_at(350_000, 75_000));
}

#[test]
fn diagonal_move_is_no_faster() {
    let mut player = player_at(0, 0);
    player_movement(&mut player, MoveInput { right: true, up: true, ..NONE }, 1_000_000_000);
    // 250 pixels along the diagonal: 176.7765 along each axis.
    assert_eq!(player, player_at(176_776, 176_776));
    let p = player.unwrap().position;
    let way = ((p.x * p.x + p.y * p.y) as f64).sqrt();
    assert!(way <= 250_000.0 && way > 249_998.0);
}

#[test]
fn no_player_does_not_move() {
    let mut player: Option<Player> = None;
    player_movement(&mut player, MoveInput { right: true, ..NONE }, 1_000_000_000);
    assert_eq!(player, None);
    confine_player_movement(&mut player, Field::new(800_000, 600_000));
    assert_eq!(player, None);
}

#[test]
fn player_is_clamped_to_the_field() {
    let field = Field::new(800_000, 600_000);
    let mut player = player_at(-5_000, 900_000);
    confine_player_movement(&mut player, field);
    assert_eq!(player, player_at(32_000, 568_000));
    confine_player_movement(&mut player, field);
    assert_eq!(player, player_at(32_000, 568_000));
    let mut player = player_at(400_000, 300_000);
    confine_player_movement(&mut player, field);
    assert_eq!(player, player_at(400_000, 300_000));
}

#[test]
fn enemy_close_by_ends_the_game() {
    let mut player = player_at(400_000, 400_000);
    let enemies = vec![enemy_at(1, 420_000, 400_000)];
    let events = player_hit_enemy(&mut player, &enemies);
    assert_eq!(player, None);
    assert_eq!(events, vec![GameEvent::Despawned { id: 0 }, GameEvent::GameOver]);
    assert_eq!(events.iter().filter(|e| **e == GameEvent::GameOver).count(), 1);
    // With the player gone nothing more happens.
    let events = player_hit_enemy(&mut player, &enemies);
    assert_eq!(player, None);
    assert!(events.is_empty());
}

#[test]
fn several_enemies_end_the_game_once() {
    let mut player = player_at(400_000, 400_000);
    let enemies = vec![
        enemy_at(1, 900_000, 400_000),
        enemy_at(2, 420_000, 400_000),
        enemy_at(3, 400_000, 380_000),
    ];
    assert!(is_caught(player.unwrap(), &enemies));
    let events = player_hit_enemy(&mut player, &enemies);
    assert_eq!(player, None);
    assert_eq!(events, vec![GameEvent::Despawned { id: 0 }, GameEvent::GameOver]);
}

#[test]
fn enemy_at_the_rim_does_not_catch_the_player() {
    // Radii 32 and 32: the centres are exactly 64 apart.
    let mut player = player_at(400_000, 400_000);
    let enemies = vec![enemy_at(1, 464_000, 400_000)];
    assert!(!is_caught(player.unwrap(), &enemies));
    let events = player_hit_enemy(&mut player, &enemies);
    assert_eq!(player, player_at(400_000, 400_000));
    assert!(events.is_empty());
    let enemies = vec![enemy_at(1, 463_999, 400_000)];
    assert!(is_caught(player.unwrap(), &enemies));
    assert!(!is_caught(player.unwrap(), &Vec::new()));
}

#[test]
fn player_collects_a_star() {
    let player = player_at(100_000, 100_000);
    let mut stars = vec![star_at(5, 110_000, 100_000)];
    let mut score = Score::default();
    assert_eq!(score.value, 0);
    let events = player_hit_star(&player, &mut stars, &mut score);
    assert!(stars.is_empty());
    assert_eq!(score.value, 1);
    assert_eq!(events, vec![GameEvent::Despawned { id: 5 }, GameEvent::StarCollected]);
}

#[test]
fn star_at_the_rim_is_not_collected() {
    // Radii 32 and 15: the centres are exactly 47 apart.
    let player = player_at(100_000, 100_000);
    let mut stars = vec![star_at(5, 147_000, 100_000)];
    let mut score = Score { value: 3 };
    let events = player_hit_star(&player, &mut stars, &mut score);
    assert_eq!(stars, vec![star_at(5, 147_000, 100_000)]);
    assert_eq!(score.value, 3);
    assert!(events.is_empty());
    // At 46.999 it is.
    let mut stars = vec![star_at(5, 146_999, 100_000)];
    let events = player_hit_star(&player, &mut stars, &mut score);
    assert!(stars.is_empty());
    assert_eq!(score.value, 4);
    assert_eq!(events.len(), 2);
}

#[test]
fn player_collects_every_star_it_overlaps() {
    let player = player_at(100_000, 100_000);
    let mut stars = vec![
        star_at(1, 110_000, 100_000),
        star_at(2, 500_000, 500_000),
        star_at(3, 100_000, 90_000),
        star_at(4, 100_000, 147_000),
        star_at(5, 100_000, 100_000),
    ];
    let mut score = Score { value: 10 };
    let events = player_hit_star(&player, &mut stars, &mut score);
    assert_eq!(stars, vec![star_at(2, 500_000, 500_000), star_at(4, 100_000, 147_000)]);
    assert_eq!(score.value, 13);
    assert_eq!(
        events,
        vec![
            GameEvent::Despawned { id: 1 },
            GameEvent::StarCollected,
            GameEvent::Despawned { id: 3 },
            GameEvent::StarCollected,
            GameEvent::Despawned { id: 5 },
            GameEvent::StarCollected,
        ]
    );
}

#[test]
fn no_player_collects_nothing() {
    let mut stars = vec![star_at(1, 110_000, 100_000)];
    let mut score = Score { value: 2 };
    let events = player_hit_star(&None, &mut stars, &mut score);
    assert_eq!(stars, vec![star_at(1, 110_000, 100_000)]);
    assert_eq!(score.value, 2);
    assert!(events.is_empty());
}
