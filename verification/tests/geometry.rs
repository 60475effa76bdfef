use ball_game::field::Field;
use ball_game::motion::advance;
use ball_game::random::{head, place, random_direction, random_position, scale_draw};
use ball_game::vec2::{isqrt, Vec2, UNIT};

fn length(v: Vec2) -> f64 {
    ((v.x as f64) * (v.x as f64) + (v.y as f64) * (v.y as f64)).sqrt()
}

#[test]
fn isqrt_rounds_down() {
    assert_eq!(isqrt(0), 0);
    assert_eq!(isqrt(1), 1);
    assert_eq!(isqrt(3), 1);
    assert_eq!(isqrt(4), 2);
    assert_eq!(isqrt(99), 9);
    assert_eq!(isqrt(100), 10);
    assert_eq!(isqrt(500_000_000_000), 707_106);
    assert_eq!(isqrt(1_000_000_000_000), 1_000_000);
    assert_eq!(isqrt(u64::MAX), 4_294_967_295);
}

#[test]
fn normalize_scales_to_unit_length() {
    assert_eq!(Vec2::new(3, 4).normalize(), Vec2::new(600_000, 800_000));
    assert_eq!(Vec2::new(-3, 4).normalize(), Vec2::new(-600_000, 800_000));
    assert_eq!(Vec2::new(1, 1).normalize(), Vec2::new(707_106, 707_106));
    assert_eq!(Vec2::new(1, -1).normalize(), Vec2::new(707_106, -707_106));
    assert_eq!(Vec2::new(0, -7).normalize(), Vec2::new(0, -UNIT));
    assert_eq!(Vec2::new(UNIT, 0).normalize(), Vec2::new(UNIT, 0));
}

#[test]
fn normalize_takes_long_vectors() {
    let big: i64 = 0x100_0000_0000;
    assert_eq!(Vec2::new(big, big).normalize(), Vec2::new(707_106, 707_106));
    assert_eq!(Vec2::new(-big, 0).normalize(), Vec2::new(-UNIT, 0));
    assert_eq!(Vec2::new(1, 4_294_967_295).normalize(), Vec2::new(0, 999_999));
}

#[test]
fn reflection_turns_a_head_on_ball_back() {
    let v = Vec2::new(UNIT, 0);
    assert_eq!(v.reflect(Vec2::new(47_000, 0)), Vec2::new(-UNIT, 0));
    assert_eq!(v.reflect(Vec2::new(-3, 0)), Vec2::new(-UNIT, 0));
}

#[test]
fn reflection_leaves_a_grazing_ball_alone() {
    let v = Vec2::new(UNIT, 0);
    assert_eq!(v.reflect(Vec2::new(0, 15_000)), Vec2::new(UNIT, 0));
}

#[test]
fn reflection_mirrors_the_normal_component() {
    assert_eq!(
        Vec2::new(600_000, 800_000).reflect(Vec2::new(0, 5)),
        Vec2::new(600_000, -800_000)
    );
    assert_eq!(Vec2::new(UNIT, 0).reflect(Vec2::new(1, 1)), Vec2::new(0, -UNIT));
    assert_eq!(
        Vec2::new(707_106, 707_106).reflect(Vec2::new(30_000, 10_000)),
        Vec2::new(-989_949, 141_422)
    );
    assert_eq!(
        Vec2::new(600_000, -800_000).reflect(Vec2::new(-12_345, 33_333)),
        Vec2::new(-65_833, 997_830)
    );
}

#[test]
fn reflection_preserves_magnitude() {
    let directions = [
        Vec2::new(UNIT, 0),
        Vec2::new(0, -UNIT),
        Vec2::new(600_000, 800_000),
        Vec2::new(-707_106, 707_106),
        Vec2::new(-65_833, 997_830),
    ];
    let normals = [
        Vec2::new(1, 0),
        Vec2::new(1, 1),
        Vec2::new(-3, 7),
        Vec2::new(47_000, -1),
        Vec2::new(-12_345, 33_333),
        Vec2::new(0, -46_999),
    ];
    for v in directions {
        for d in normals {
            let r = v.reflect(d);
            let len = length(r) / UNIT as f64;
            assert!((len - 1.0).abs() < 3e-6, "{:?} about {:?} gives {:?}", v, d, r);
            let n = r.x as i128 * r.x as i128 + r.y as i128 * r.y as i128;
            let one = UNIT as i128 * UNIT as i128;
            assert!(one - 4 * UNIT as i128 - 2 < n && n <= one);
        }
    }
}

#[test]
fn reflecting_twice_about_one_normal_gives_the_direction_back() {
    let v = Vec2::new(600_000, 800_000);
    let d = Vec2::new(0, 9);
    assert_eq!(v.reflect(d).reflect(d), v);
}

#[test]
fn distance_tests_differ_at_the_rim() {
    let a = Vec2::new(0, 0);
    assert!(a.is_within(Vec2::new(47_000, 0), 47_000));
    assert!(!a.is_closer_than(Vec2::new(47_000, 0), 47_000));
    assert!(a.is_within(Vec2::new(46_999, 0), 47_000));
    assert!(a.is_closer_than(Vec2::new(46_999, 0), 47_000));
    assert!(!a.is_within(Vec2::new(47_001, 0), 47_000));
    assert!(!a.is_closer_than(Vec2::new(47_001, 0), 47_000));
}

#[test]
fn distance_is_euclidean() {
    let a = Vec2::new(10_000, -20_000);
    // 3-4-5 triangle, scaled by 10 000.
    let b = Vec2::new(40_000, 20_000);
    assert!(a.is_within(b, 50_000));
    assert!(!a.is_closer_than(b, 50_000));
    assert!(a.is_closer_than(b, 50_001));
    assert!(!a.is_within(b, 49_999));
    // Far along one axis only.
    assert!(!a.is_within(Vec2::new(10_000, 100_000), 50_000));
}

#[test]
fn distance_tests_take_any_coordinates() {
    let a = Vec2::new(i64::MIN, i64::MIN);
    let b = Vec2::new(i64::MAX, i64::MAX);
    assert!(!a.is_within(b, i64::MAX));
    assert!(!a.is_closer_than(b, i64::MAX));
    assert!(a.is_within(a, 0));
    assert!(!a.is_closer_than(a, 0));
    assert!(a.is_closer_than(a, 1));
    assert!(!a.is_within(a, -1));
    assert!(!a.is_closer_than(a, -1));
}

#[test]
fn confinement_pulls_a_ball_onto_the_field() {
    let field = Field::new(800_000, 600_000);
    assert_eq!(field.confine(Vec2::new(-5_000, 300_000), 32_000), Vec2::new(32_000, 300_000));
    assert_eq!(field.confine(Vec2::new(900_000, 599_000), 32_000), Vec2::new(768_000, 568_000));
    assert_eq!(field.confine(Vec2::new(32_000, 568_000), 32_000), Vec2::new(32_000, 568_000));
    assert_eq!(field.confine(Vec2::new(400_000, 10), 32_000), Vec2::new(400_000, 32_000));
}

#[test]
fn confinement_is_idempotent() {
    let field = Field::new(800_000, 600_000);
    let points = [
        Vec2::new(-5_000, 300_000),
        Vec2::new(900_000, -1),
        Vec2::new(400_000, 300_000),
        Vec2::new(i64::MIN, i64::MAX),
        Vec2::new(32_000, 568_000),
    ];
    for p in points {
        let once = field.confine(p, 32_000);
        assert_eq!(field.confine(once, 32_000), once);
        assert!(!field.is_outside_x(once, 32_000));
        assert!(!field.is_outside_y(once, 32_000));
    }
}

#[test]
fn confinement_on_a_field_too_small_for_the_ball() {
    // The range is empty: what is under its start goes to the start, what
    // is not goes to its end.
    let field = Field::new(10_000, 10_000);
    assert_eq!(field.confine(Vec2::new(0, 40_000), 32_000), Vec2::new(32_000, -22_000));
}

#[test]
fn outside_tests_leave_the_rim_inside() {
    let field = Field::new(800_000, 600_000);
    assert!(field.is_outside_x(Vec2::new(31_999, 0), 32_000));
    assert!(!field.is_outside_x(Vec2::new(32_000, 0), 32_000));
    assert!(!field.is_outside_x(Vec2::new(768_000, 0), 32_000));
    assert!(field.is_outside_x(Vec2::new(768_001, 0), 32_000));
    assert!(field.is_outside_y(Vec2::new(0, 31_999), 32_000));
    assert!(!field.is_outside_y(Vec2::new(0, 568_000), 32_000));
    assert!(field.is_outside_y(Vec2::new(0, 568_001), 32_000));
}

#[test]
fn middle_of_the_field() {
    assert_eq!(Field::new(800_000, 600_000).middle(), Vec2::new(400_000, 300_000));
    assert_eq!(Field::new(5, 0).middle(), Vec2::new(2, 0));
}

#[test]
fn motion_is_speed_times_time() {
    let start = Vec2::new(100_000, 100_000);
    assert_eq!(
        advance(start, Vec2::new(UNIT, 0), 200_000, 500_000_000),
        Vec2::new(200_000, 100_000)
    );
    assert_eq!(
        advance(start, Vec2::new(0, -UNIT), 200_000, 16_666_666),
        Vec2::new(100_000, 100_000 - 3_333)
    );
    assert_eq!(
        advance(start, Vec2::new(707_106, -707_106), 250_000, 16_666_666),
        Vec2::new(100_000 + 2_946, 100_000 - 2_946)
    );
    assert_eq!(advance(start, Vec2::new(600_000, 800_000), 250_000, 0), start);
    assert_eq!(advance(start, Vec2::new(0, 0), 250_000, 1_000_000_000), start);
}

#[test]
fn motion_stops_at_the_last_coordinate() {
    let far = Vec2::new(i64::MAX - 10, i64::MIN + 10);
    assert_eq!(
        advance(far, Vec2::new(UNIT, -UNIT), 250_000, u64::MAX),
        Vec2::new(i64::MAX, i64::MIN)
    );
    assert_eq!(
        advance(Vec2::new(0, 0), Vec2::new(UNIT, 0), 250_000, u64::MAX),
        Vec2::new(4_611_686_018_427_387, 0)
    );
}

#[test]
fn draws_are_scaled_onto_the_axis() {
    assert_eq!(scale_draw(0, 800_000), 0);
    assert_eq!(scale_draw(1, 800_000), 0);
    assert_eq!(scale_draw(0x8000_0000, 800_000), 400_000);
    assert_eq!(scale_draw(u32::MAX, 800_000), 799_999);
    assert_eq!(scale_draw(u32::MAX, 0), 0);
    assert_eq!(scale_draw(u32::MAX, 1), 0);
    assert_eq!(scale_draw(u32::MAX, u32::MAX), u32::MAX as i64 - 1);
}

#[test]
fn draws_are_placed_on_the_field() {
    let field = Field::new(800_000, 600_000);
    assert_eq!(place(0x8000_0000, 0x4000_0000, field), Vec2::new(400_000, 150_000));
    assert_eq!(place(u32::MAX, u32::MAX, field), Vec2::new(799_999, 599_999));
    assert_eq!(place(7, 9, Field::new(0, 0)), Vec2::new(0, 0));
}

#[test]
fn draws_make_a_direction() {
    assert_eq!(head(3, 4), Vec2::new(600_000, 800_000));
    assert_eq!(head(u32::MAX, u32::MAX), Vec2::new(707_106, 707_106));
    assert_eq!(head(0, 1), Vec2::new(0, UNIT));
    assert_eq!(head(0, 0), Vec2::new(UNIT, 0));
}

#[test]
fn random_positions_lie_on_the_field() {
    let field = Field::new(800_000, 600_000);
    let mut seen = Vec::new();
    for _ in 0..200 {
        let p = random_position(field);
        assert!(0 <= p.x && p.x < 800_000);
        assert!(0 <= p.y && p.y < 600_000);
        seen.push(p);
    }
    assert!(seen.iter().any(|p| *p != seen[0]));
    assert_eq!(random_position(Field::new(0, 0)), Vec2::new(0, 0));
}

#[test]
fn random_directions_have_unit_length() {
    for _ in 0..200 {
        let d = random_direction();
        assert!(0 <= d.x && d.x <= UNIT);
        assert!(0 <= d.y && d.y <= UNIT);
        assert!((length(d) / UNIT as f64 - 1.0).abs() < 3e-6);
    }
}

#[test]
fn directions_are_told_from_other_vectors() {
    assert!(Vec2::new(UNIT, 0).is_direction());
    assert!(Vec2::new(0, -UNIT).is_direction());
    assert!(Vec2::new(600_000, -800_000).is_direction());
    assert!(Vec2::new(707_106, 707_106).is_direction());
    assert!(Vec2::new(0, 999_999).is_direction());
    assert!(!Vec2::new(0, 999_997).is_direction());
    assert!(!Vec2::new(UNIT, 1).is_direction());
    assert!(!Vec2::new(0, 0).is_direction());
    assert!(!Vec2::new(UNIT, UNIT).is_direction());
    assert!(!Vec2::new(i64::MIN, i64::MIN).is_direction());
    assert!(!Vec2::new(i64::MAX, 0).is_direction());
}
