use ball_game::timer::{Timer, TimerMode};

const SECOND: u64 = 1_000_000_000;

#[test]
fn new_timer_has_not_started() {
    let timer = Timer::new(SECOND, TimerMode::Repeating);
    assert_eq!(timer.duration(), SECOND);
    assert_eq!(timer.elapsed(), 0);
    assert_eq!(timer.mode(), TimerMode::Repeating);
    assert!(!timer.finished());
}

#[test]
fn repeating_timer_keeps_overshoot() {
    let mut timer = Timer::new(SECOND, TimerMode::Repeating);
    timer.tick(1_300_000_000);
    assert!(timer.finished());
    assert_eq!(timer.elapsed(), 300_000_000);
}

#[test]
fn repeating_timer_counts_up_until_it_finishes() {
    let mut timer = Timer::new(SECOND, TimerMode::Repeating);
    timer.tick(400_000_000);
    assert!(!timer.finished());
    assert_eq!(timer.elapsed(), 400_000_000);
    timer.tick(400_000_000);
    assert!(!timer.finished());
    assert_eq!(timer.elapsed(), 800_000_000);
    timer.tick(400_000_000);
    assert!(timer.finished());
    assert_eq!(timer.elapsed(), 200_000_000);
}

#[test]
fn repeating_timer_is_finished_for_one_tick_only() {
    let mut timer = Timer::new(SECOND, TimerMode::Repeating);
    timer.tick(SECOND);
    assert!(timer.finished());
    assert_eq!(timer.elapsed(), 0);
    timer.tick(1);
    assert!(!timer.finished());
    assert_eq!(timer.elapsed(), 1);
}

#[test]
fn repeating_timer_drops_whole_periods() {
    let mut timer = Timer::new(SECOND, TimerMode::Repeating);
    timer.tick(3_700_000_000);
    assert!(timer.finished());
    assert_eq!(timer.elapsed(), 700_000_000);
}

#[test]
fn repeating_timer_without_duration_is_always_finished() {
    let mut timer = Timer::new(0, TimerMode::Repeating);
    timer.tick(5);
    assert!(timer.finished());
    assert_eq!(timer.elapsed(), 0);
    timer.tick(0);
    assert!(timer.finished());
    assert_eq!(timer.elapsed(), 0);
}

#[test]
fn repeating_timer_takes_the_longest_tick() {
    let mut timer = Timer::new(u64::MAX, TimerMode::Repeating);
    timer.tick(u64::MAX - 1);
    assert!(!timer.finished());
    timer.tick(u64::MAX);
    assert!(timer.finished());
    assert_eq!(timer.elapsed(), u64::MAX - 1);
}

#[test]
fn one_shot_timer_stops_at_its_duration() {
    let mut timer = Timer::new(SECOND, TimerMode::Once);
    timer.tick(1_500_000_000);
    assert!(timer.finished());
    assert_eq!(timer.elapsed(), SECOND);
    timer.tick(1_500_000_000);
    assert!(timer.finished());
    assert_eq!(timer.elapsed(), SECOND);
}

#[test]
fn reset_starts_the_countdown_over() {
    let mut timer = Timer::new(SECOND, TimerMode::Once);
    timer.tick(2 * SECOND);
    timer.reset();
    assert!(!timer.finished());
    assert_eq!(timer.elapsed(), 0);
    assert_eq!(timer.duration(), SECOND);
    timer.tick(10);
    assert_eq!(timer.elapsed(), 10);
}
