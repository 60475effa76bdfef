use vstd::prelude::*;
use crate::enemy::ENEMY_SPAWN_TIME;
use crate::timer::{Timer, TimerMode};

verus! {

/// The timer that brings a new enemy each time it finishes.
#[derive(Clone, Copy, Debug, PartialEq, Eq, Structural)]
pub struct EnemySpawnTimer {
    pub timer: Timer,
}

impl EnemySpawnTimer {
    /// The timer at the start of the game: it repeats, and its first
    /// period has just begun.
    pub open spec fn initial() -> EnemySpawnTimer {
        EnemySpawnTimer {
            timer: Timer {
                duration_ns: ENEMY_SPAWN_TIME,
                elapsed_ns: 0,
                mode: TimerMode::Repeating,
                finished: false,
            },
        }
    }
}

impl Default for EnemySpawnTimer {
    fn default() -> (spawn_timer: EnemySpawnTimer)
        ensures
            spawn_timer == EnemySpawnTimer::initial(),
    {
        EnemySpawnTimer { timer: Timer::new(ENEMY_SPAWN_TIME, TimerMode::Repeating) }
    }
}

} // verus!
