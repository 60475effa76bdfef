//! A countdown that is advanced tick by tick.

use vstd::prelude::*;

verus! {

/// What a timer does once its time is up.
#[derive(Clone, Copy, Debug, PartialEq, Eq, Structural)]
pub enum TimerMode {
    /// The timer stops at its duration and stays finished.
    Once,
    /// The timer starts over and keeps the time by which it overshot.
    Repeating,
}

/// A countdown over `duration_ns` nanoseconds. `finished` tells whether
/// the last tick reached the duration.
#[derive(Clone, Copy, Debug, PartialEq, Eq, Structural)]
pub struct Timer {
    pub duration_ns: u64,
    pub elapsed_ns: u64,
    pub mode: TimerMode,
    pub finished: bool,
}

impl Timer {
    /// The timer after a tick of `delta_ns` nanoseconds.
    ///
    /// A finished one-shot timer stays as it is. Otherwise the tick is
    /// added to the elapsed time, and the timer is finished if that
    /// reaches the duration. A one-shot timer then stops at the duration;
    /// a repeating timer keeps what is left of the elapsed time after
    /// whole periods have been taken off.
    pub open spec fn ticked(self, delta_ns: int) -> Timer {
        let total = self.elapsed_ns + delta_ns;
        if self.mode == TimerMode::Once && self.finished {
            self
        } else if total < self.duration_ns {
            Timer { elapsed_ns: total as u64, finished: false, ..self }
        } else if self.mode == TimerMode::Once {
            Timer { elapsed_ns: self.duration_ns, finished: true, ..self }
        } else if self.duration_ns == 0 {
            Timer { elapsed_ns: 0, finished: true, ..self }
        } else {
            Timer { elapsed_ns: (total % self.duration_ns as int) as u64, finished: true, ..self }
        }
    }

    /// A timer at the start of its countdown.
    pub fn new(duration_ns: u64, mode: TimerMode) -> (timer: Timer)
        ensures
            timer == (Timer { duration_ns, elapsed_ns: 0, mode, finished: false }),
    {
        Timer { duration_ns, elapsed_ns: 0, mode, finished: false }
    }

    /// Advances the timer by `delta_ns` nanoseconds.
    pub fn tick(&mut self, delta_ns: u64)
        ensures
            *final(self) == old(self).ticked(delta_ns as int),
    {
        if self.mode == TimerMode::Once && self.finished {
            return ;
        }
        let total: u128 = self.elapsed_ns as u128 + delta_ns as u128;
        let duration: u128 = self.duration_ns as u128;
        if total < duration {
            self.elapsed_ns = total as u64;
            self.finished = false;
        } else {
            self.finished = true;
            if self.mode == TimerMode::Once {
                self.elapsed_ns = self.duration_ns;
            } else if self.duration_ns == 0 {
                self.elapsed_ns = 0;
            } else {
                self.elapsed_ns = (total % duration) as u64;
            }
        }
    }

    /// Whether the last tick reached the duration.
    pub fn finished(&self) -> (b: bool)
        ensures
            b == self.finished,
    {
        self.finished
    }

    /// The time counted so far, in nanoseconds.
    pub fn elapsed(&self) -> (ns: u64)
        ensures
            ns == self.elapsed_ns,
    {
        self.elapsed_ns
    }

    /// The length of the countdown, in nanoseconds.
    pub fn duration(&self) -> (ns: u64)
        ensures
            ns == self.duration_ns,
    {
        self.duration_ns
    }

    pub fn mode(&self) -> (mode: TimerMode)
        ensures
            mode == self.mode,
    {
        self.mode
    }

    /// Starts the countdown over.
    pub fn reset(&mut self)
        ensures
            *final(self) == (Timer { elapsed_ns: 0, finished: false, ..*old(self) }),
    {
        self.elapsed_ns = 0;
        self.finished = false;
    }
}

/// A repeating timer that finishes within its next period keeps the
/// overshoot: what has elapsed beyond the duration is where it starts over.
pub proof fn lemma_overshoot_is_kept(timer: Timer, delta_ns: u64)
    requires
        timer.mode == TimerMode::Repeating,
        timer.duration_ns <= timer.elapsed_ns + delta_ns < 2 * timer.duration_ns,
    ensures
        timer.ticked(delta_ns as int).finished,
        timer.ticked(delta_ns as int).elapsed_ns == timer.elapsed_ns + delta_ns - timer.duration_ns,
{
    let total = timer.elapsed_ns + delta_ns;
    let d = timer.duration_ns as int;
    vstd::arithmetic::div_mod::lemma_fundamental_div_mod_converse(total, d, 1, total - d);
}

/// A repeating timer loses no time and gains none: what has elapsed
/// before the tick and the tick itself differ from what has elapsed after
/// it by whole periods, and less than one period is left over.
pub proof fn lemma_repeating_keeps_time(timer: Timer, delta_ns: u64)
    requires
        timer.mode == TimerMode::Repeating,
        timer.duration_ns > 0,
    ensures
        (timer.elapsed_ns + delta_ns - timer.ticked(delta_ns as int).elapsed_ns)
            % timer.duration_ns as int == 0,
        timer.ticked(delta_ns as int).finished ==> timer.ticked(delta_ns as int).elapsed_ns
            < timer.duration_ns,
        timer.ticked(delta_ns as int).finished <==> timer.elapsed_ns + delta_ns
            >= timer.duration_ns,
{
    let total = timer.elapsed_ns + delta_ns;
    let d = timer.duration_ns as int;
    vstd::arithmetic::div_mod::lemma_fundamental_div_mod(total, d);
    vstd::arithmetic::div_mod::lemma_mod_bound(total, d);
    if total >= d {
        vstd::arithmetic::div_mod::lemma_mod_multiples_basic(total / d, d);
        assert(total - total % d == (total / d) * d) by (nonlinear_arith)
            requires
                total == d * (total / d) + total % d,
        ;
    } else {
        assert(0int % d == 0) by (nonlinear_arith)
            requires
                d > 0,
        ;
    }
}

/// Until it finishes, a timer only counts up: a tick that does not reach
/// the duration adds exactly its length.
pub proof fn lemma_unfinished_counts_up(timer: Timer, delta_ns: u64)
    requires
        !timer.finished,
        timer.elapsed_ns + delta_ns < timer.duration_ns,
    ensures
        !timer.ticked(delta_ns as int).finished,
        timer.ticked(delta_ns as int).elapsed_ns == timer.elapsed_ns + delta_ns,
{
}

} // verus!
