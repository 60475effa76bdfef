use std::time::Duration;

use ball_game::field::Field;
use ball_game::timer::{Timer, TimerMode};
use ball_game::vec2::{Vec2, UNIT};
use bevy::math::Vec2 as FloatVec2;
use bevy::time::{Timer as FloatTimer, TimerMode as FloatTimerMode};

fn float_of(v: Vec2) -> FloatVec2 {
    FloatVec2::new(v.x as f32, v.y as f32)
}

fn directions() -> Vec<Vec2> {
    vec![
        Vec2::new(UNIT, 0),
        Vec2::new(0, -UNIT),
        Vec2::new(600_000, 800_000),
        Vec2::new(-707_106, 707_106),
        Vec2::new(-65_833, -997_830),
    ]
}

fn displacements() -> Vec<Vec2> {
    vec![
        Vec2::new(1, 0),
        Vec2::new(1, 1),
        Vec2::new(-3, 7),
        Vec2::new(47_000, -1),
        Vec2::new(-12_345, 33_333),
        Vec2::new(0, -46_999),
        Vec2::new(30_000, 10_000),
    ]
}

#[test]
fn timer_agrees_with_the_engine() {
    let durations: [u64; 5] = [0, 1, 7, 1_000_000_000, 5_000_000_000];
    let deltas: [u64; 8] =
        [0, 1, 3, 999_999_999, 1_000_000_000, 1_300_000_000, 16_666_666, 12_345_678_901];
    let modes = [
        (TimerMode::Once, FloatTimerMode::Once),
        (TimerMode::Repeating, FloatTimerMode::Repeating),
    ];
    for (mode, float_mode) in modes {
        for duration in durations {
            let mut ours = Timer::new(duration, mode);
            let mut theirs = FloatTimer::new(Duration::from_nanos(duration), float_mode);
            for _ in 0..3 {
                for delta in deltas {
                    ours.tick(delta);
                    theirs.tick(Duration::from_nanos(delta));
                    assert_eq!(ours.finished(), theirs.finished());
                    assert_eq!(ours.elapsed() as u128, theirs.elapsed().as_nanos());
                }
            }
        }
    }
}

#[test]
fn normalize_agrees_with_floating_point() {
    for d in displacements() {
        let ours = d.normalize();
        let theirs = float_of(d).normalize();
        assert!((ours.x as f32 / UNIT as f32 - theirs.x).abs() < 1e-5, "{:?}", d);
        assert!((ours.y as f32 / UNIT as f32 - theirs.y).abs() < 1e-5, "{:?}", d);
    }
}

#[test]
fn reflection_agrees_with_floating_point() {
    for v in directions() {
        for d in displacements() {
            let ours = v.reflect(d);
            let velocity = float_of(v).normalize();
            let normal = float_of(d).normalize();
            let theirs = (velocity - 2.0 * velocity.dot(normal) * normal).normalize();
            assert!((ours.x as f32 / UNIT as f32 - theirs.x).abs() < 1e-5, "{:?} {:?}", v, d);
            assert!((ours.y as f32 / UNIT as f32 - theirs.y).abs() < 1e-5, "{:?} {:?}", v, d);
        }
    }
}

#[test]
fn distance_agrees_with_floating_point() {
    let origin = Vec2::new(100_000, 100_000);
    for d in displacements() {
        let other = Vec2::new(origin.x + d.x, origin.y + d.y);
        let distance = float_of(origin).distance(float_of(other));
        for reach in [1_i64, 10, 40_000, 46_999, 47_000, 47_001, 64_000] {
            // Away from the rim, where rounding decides, the two agree.
            if (distance - reach as f32).abs() > 0.5 {
                assert_eq!(origin.is_within(other, reach), distance <= reach as f32);
                assert_eq!(origin.is_closer_than(other, reach), distance < reach as f32);
            }
        }
    }
}

#[test]
fn confinement_agrees_with_floating_point() {
    let field = Field::new(800_000, 600_000);
    for x in [-5_000_i64, 0, 31_999, 32_000, 400_000, 768_000, 768_001, 2_000_000] {
        for y in [-1_i64, 32_000, 300_000, 568_000, 568_001] {
            let ours = field.confine(Vec2::new(x, y), 32_000);
            assert_eq!(ours.x as f32, (x as f32).clamp(32_000.0, 768_000.0));
            assert_eq!(ours.y as f32, (y as f32).clamp(32_000.0, 568_000.0));
        }
    }
}
