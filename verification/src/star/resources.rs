use vstd::prelude::*;
use crate::star::STAR_SPAWN_TIME;
use crate::timer::{Timer, TimerMode};

verus! {

/// The timer that brings a new star each time it finishes.
#[derive(Clone, Copy, Debug, PartialEq, Eq, Structural)]
pub struct StarSpawnTimer {
    pub timer: Timer,
}

impl StarSpawnTimer {
    /// The timer at the start of the game: it repeats, and its first
    /// period has just begun.
    pub open spec fn initial() -> StarSpawnTimer {
        StarSpawnTimer {
            timer: Timer {
                duration_ns: STAR_SPAWN_TIME,
                elapsed_ns: 0,
                mode: TimerMode::Repeating,
                finished: false,
            },
        }
    }
}

impl Default for StarSpawnTimer {
    fn default() -> (spawn_timer: StarSpawnTimer)
        ensures
            spawn_timer == StarSpawnTimer::initial(),
    {
        StarSpawnTimer { timer: Timer::new(STAR_SPAWN_TIME, TimerMode::Repeating) }
    }
}

} // verus!
