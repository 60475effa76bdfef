//! Frame pacing: how long the loop has to wait at the end of each tick so
//! that ticks come at a steady rate.
//!
//! The limiter keeps a schedule in nanoseconds since a start that its
//! caller has chosen. The caller reads the clock, asks the limiter how
//! long to wait, and sleeps.

use vstd::prelude::*;

verus! {

/// The slowest rate that a limiter paces to, in thousandths of a hertz.
pub const MIN_FPS: u64 = 1_000;

/// The rate of a limiter that was not given one, in thousandths of a
/// hertz.
pub const DEFAULT_FPS: u64 = 60_000;

/// The greatest time between two ticks, in nanoseconds.
pub const MAX_INTERVAL_NS: u64 = 1_000_000_000;

/// The rate that the loop is to run at.
#[derive(Clone, Copy, Debug, PartialEq, Eq, Structural)]
pub struct FrameLimiterPlugin {
    /// The wanted number of ticks per second, in thousandths of a hertz.
    pub target_fps: u64,
}

/// The schedule of a limiter. Times are in nanoseconds since the start.
#[derive(Clone, Copy, Debug, PartialEq, Eq, Structural)]
pub struct FrameLimiterState {
    /// The wanted time between two ticks.
    pub target_ns: u64,
    /// When the next tick is due.
    pub memory_target_ns: u64,
    /// When the last tick ended.
    pub last_frame_ns: u64,
}

impl FrameLimiterPlugin {
    /// The time between two ticks at this rate, in nanoseconds, rounded
    /// down. A rate under `MIN_FPS` counts as `MIN_FPS`.
    pub open spec fn interval_ns(self) -> int {
        if self.target_fps < MIN_FPS {
            MAX_INTERVAL_NS as int
        } else {
            1_000_000_000_000int / self.target_fps as int
        }
    }

    /// The schedule at the start: the first tick is due one interval after
    /// it.
    pub open spec fn initial(self) -> FrameLimiterState {
        FrameLimiterState {
            target_ns: self.interval_ns() as u64,
            memory_target_ns: self.interval_ns() as u64,
            last_frame_ns: 0,
        }
    }

    /// A limiter for `fps` thousandths of a hertz.
    pub fn with_fps(fps: u64) -> (plugin: FrameLimiterPlugin)
        ensures
            plugin.target_fps == fps,
    {
        FrameLimiterPlugin { target_fps: fps }
    }

    /// Sets up the schedule.
    pub fn build(&self) -> (state: FrameLimiterState)
        ensures
            state == self.initial(),
            state.wf(),
            state.target_ns == self.interval_ns(),
    {
        let fps: u64 = if self.target_fps < MIN_FPS {
            MIN_FPS
        } else {
            self.target_fps
        };
        let target_ns: u64 = 1_000_000_000_000 / fps;
        assert(target_ns <= MAX_INTERVAL_NS) by {
            vstd::arithmetic::div_mod::lemma_div_is_ordered_by_denominator(
                1_000_000_000_000,
                1_000,
                fps as int,
            );
        }
        FrameLimiterState { target_ns, memory_target_ns: target_ns, last_frame_ns: 0 }
    }
}

impl Default for FrameLimiterPlugin {
    fn default() -> (plugin: FrameLimiterPlugin)
        ensures
            plugin.target_fps == DEFAULT_FPS,
    {
        FrameLimiterPlugin { target_fps: DEFAULT_FPS }
    }
}

impl FrameLimiterState {
    /// The schedule is sound: the interval is at most a second, and the
    /// next tick is due at most one interval after the last one ended.
    pub open spec fn wf(self) -> bool {
        &&& self.target_ns <= MAX_INTERVAL_NS
        &&& self.memory_target_ns <= self.last_frame_ns + self.target_ns
    }

    /// Tests whether the schedule is sound and the tick that ends at
    /// `now_ns` can be put on it: the clock has not run backwards.
    pub fn can_pace(&self, now_ns: u64) -> (b: bool)
        ensures
            b == (self.wf() && now_ns >= self.last_frame_ns),
    {
        self.target_ns <= MAX_INTERVAL_NS && self.memory_target_ns as u128
            <= self.last_frame_ns as u128 + self.target_ns as u128 && now_ns
            >= self.last_frame_ns
    }

    /// How late the tick that ends at `now_ns` is; negative when it is
    /// early.
    pub open spec fn error_ns(self, now_ns: int) -> int {
        now_ns - self.memory_target_ns
    }

    /// How long to wait at the end of the tick that ends at `now_ns`: not
    /// at all when the tick is a whole interval late or more, else the
    /// interval less the lateness.
    pub open spec fn wait_ns(self, now_ns: int) -> int {
        if self.error_ns(now_ns) >= self.target_ns {
            0
        } else {
            self.target_ns - self.error_ns(now_ns)
        }
    }

    /// The schedule after the tick that ends at `now_ns`: the next tick is
    /// due one interval after `now_ns`, or at the last moment that the
    /// clock can show.
    pub open spec fn paced(self, now_ns: int) -> FrameLimiterState {
        FrameLimiterState {
            target_ns: self.target_ns,
            memory_target_ns: if now_ns + self.target_ns > u64::MAX {
                u64::MAX
            } else {
                (now_ns + self.target_ns) as u64
            },
            last_frame_ns: now_ns as u64,
        }
    }
}

/// Ends a tick at `now_ns`: returns how long the caller has to wait, and
/// puts the next tick on the schedule. The clock must not run backwards.
pub fn enforce_frame_rate(state: &mut FrameLimiterState, now_ns: u64) -> (wait_ns: u64)
    requires
        old(state).wf(),
        now_ns >= old(state).last_frame_ns,
    ensures
        wait_ns == old(state).wait_ns(now_ns as int),
        *final(state) == old(state).paced(now_ns as int),
        final(state).wf(),
{
    let target_ns: u64 = state.target_ns;
    let due_ns: u64 = state.memory_target_ns;
    let wait_ns: u64 = if now_ns >= due_ns {
        let late_ns: u64 = now_ns - due_ns;
        if late_ns >= target_ns {
            0
        } else {
            target_ns - late_ns
        }
    } else {
        target_ns + (due_ns - now_ns)
    };
    state.memory_target_ns = now_ns.saturating_add(target_ns);
    state.last_frame_ns = now_ns;
    wait_ns
}

/// A late tick costs no wait, and no tick waits longer than two
/// intervals.
pub proof fn lemma_wait_is_bounded(state: FrameLimiterState, now_ns: u64)
    requires
        state.wf(),
        now_ns >= state.last_frame_ns,
    ensures
        0 <= state.wait_ns(now_ns as int) <= 2 * state.target_ns,
        state.error_ns(now_ns as int) >= state.target_ns ==> state.wait_ns(now_ns as int) == 0,
        state.error_ns(now_ns as int) < state.target_ns ==> state.wait_ns(now_ns as int) > 0,
{
}

/// Lateness does not add up. Whatever the schedule was before the tick
/// that ends at `now_ns`, the next tick is due one interval after
/// `now_ns`, so the wait at the end of the next tick, at `next_ns`,
/// depends on the time between the two ticks alone.
pub proof fn lemma_drift_is_bounded(state: FrameLimiterState, now_ns: u64, next_ns: u64)
    requires
        state.wf(),
        state.last_frame_ns <= now_ns <= next_ns,
        now_ns + state.target_ns <= u64::MAX,
    ensures
        state.paced(now_ns as int).memory_target_ns == now_ns + state.target_ns,
        state.paced(now_ns as int).memory_target_ns >= state.memory_target_ns,
        state.paced(now_ns as int).error_ns(next_ns as int) == (next_ns - now_ns)
            - state.target_ns,
        state.paced(now_ns as int).wait_ns(next_ns as int) == if next_ns - now_ns >= 2
            * state.target_ns {
            0
        } else {
            2 * state.target_ns - (next_ns - now_ns)
        },
{
}

} // verus!
