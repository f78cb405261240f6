//! Countdown timers, advanced by `bevy::time::Timer`.

use vstd::prelude::*;

verus! {

/// Whether a timer stops when it finishes or starts over.
#[derive(Clone, Copy, Debug, PartialEq, Eq)]
pub enum TimerMode {
    Once,
    Repeating,
}

/// A timer over whole milliseconds.
#[derive(Clone, Copy, Debug, PartialEq, Eq)]
pub struct Timer {
    pub duration_ms: u32,
    pub elapsed_ms: u32,
    pub finished: bool,
    pub mode: TimerMode,
}

/// What a one-shot timer shows after `delta` more milliseconds: the elapsed
/// time, which stops at the duration, and whether the duration was reached.
pub open spec fn once_after(elapsed: int, duration: int, delta: int) -> (int, bool) {
    if elapsed + delta >= duration {
        (duration, true)
    } else {
        (elapsed + delta, false)
    }
}

/// What a repeating timer shows after `delta` more milliseconds: the elapsed
/// time, which starts over each time the duration is reached, and whether it
/// was reached during this advance.
pub open spec fn repeating_after(elapsed: int, duration: int, delta: int) -> (int, bool) {
    if elapsed + delta >= duration {
        (if duration == 0 { 0 } else { (elapsed + delta) % duration }, true)
    } else {
        (elapsed + delta, false)
    }
}

/// Runs `bevy::time::Timer::tick` on a fresh, unpaused one-shot timer of
/// `duration_ms` whose elapsed time was set to `elapsed_ms`. bevy adds the
/// delta to the elapsed time, marks the timer finished where the sum reaches
/// the duration, and then holds the elapsed time at the duration.
#[verifier::external_body]
fn tick_once(elapsed_ms: u32, duration_ms: u32, delta_ms: u32) -> (r: (u32, bool))
    ensures
        r.0 == once_after(elapsed_ms as int, duration_ms as int, delta_ms as int).0,
        r.1 == once_after(elapsed_ms as int, duration_ms as int, delta_ms as int).1,
{
    let mut timer = bevy::time::Timer::new(
        std::time::Duration::from_millis(duration_ms as u64),
        bevy::time::TimerMode::Once,
    );
    timer.set_elapsed(std::time::Duration::from_millis(elapsed_ms as u64));
    timer.tick(std::time::Duration::from_millis(delta_ms as u64));
    (timer.elapsed().as_millis() as u32, timer.finished())
}

/// Runs `bevy::time::Timer::tick` on a fresh, unpaused repeating timer of
/// `duration_ms` whose elapsed time was set to `elapsed_ms`. bevy adds the
/// delta to the elapsed time; where the sum reaches the duration it marks the
/// timer finished and keeps the remainder of the sum by the duration (zero
/// for a duration of zero).
#[verifier::external_body]
fn tick_repeating(elapsed_ms: u32, duration_ms: u32, delta_ms: u32) -> (r: (u32, bool))
    ensures
        r.0 == repeating_after(elapsed_ms as int, duration_ms as int, delta_ms as int).0,
        r.1 == repeating_after(elapsed_ms as int, duration_ms as int, delta_ms as int).1,
{
    let mut timer = bevy::time::Timer::new(
        std::time::Duration::from_millis(duration_ms as u64),
        bevy::time::TimerMode::Repeating,
    );
    timer.set_elapsed(std::time::Duration::from_millis(elapsed_ms as u64));
    timer.tick(std::time::Duration::from_millis(delta_ms as u64));
    (timer.elapsed().as_millis() as u32, timer.finished())
}

impl Timer {
    /// The timer as it is after `delta` more milliseconds. A one-shot timer
    /// that has finished stays as it is.
    pub open spec fn after(self, delta: int) -> Timer {
        match self.mode {
            TimerMode::Once => if self.finished {
                self
            } else {
                let next = once_after(self.elapsed_ms as int, self.duration_ms as int, delta);
                Timer { elapsed_ms: next.0 as u32, finished: next.1, ..self }
            },
            TimerMode::Repeating => {
                let next = repeating_after(self.elapsed_ms as int, self.duration_ms as int, delta);
                Timer { elapsed_ms: next.0 as u32, finished: next.1, ..self }
            },
        }
    }

    /// A timer of the given duration that has not run yet.
    pub fn new(duration_ms: u32, mode: TimerMode) -> (r: Timer)
        ensures
            r == (Timer { duration_ms, elapsed_ms: 0, finished: false, mode }),
    {
        Timer { duration_ms, elapsed_ms: 0, finished: false, mode }
    }

    /// Advances the timer by `delta_ms` milliseconds.
    pub fn tick(&mut self, delta_ms: u32)
        ensures
            *final(self) == old(self).after(delta_ms as int),
    {
        match self.mode {
            TimerMode::Once => {
                if !self.finished {
                    let next = tick_once(self.elapsed_ms, self.duration_ms, delta_ms);
                    self.elapsed_ms = next.0;
                    self.finished = next.1;
                }
            },
            TimerMode::Repeating => {
                let next = tick_repeating(self.elapsed_ms, self.duration_ms, delta_ms);
                self.elapsed_ms = next.0;
                self.finished = next.1;
            },
        }
    }

    /// Whether the duration was reached at the last advance.
    pub fn finished(&self) -> (r: bool)
        ensures
            r == self.finished,
    {
        self.finished
    }

    /// Starts the timer over.
    pub fn reset(&mut self)
        ensures
            *final(self) == (Timer { elapsed_ms: 0, finished: false, ..*old(self) }),
    {
        self.elapsed_ms = 0;
        self.finished = false;
    }
}

/// A one-shot timer keeps no account of how its time was cut up: two
/// advances in a row leave it as one advance by their sum does.
pub proof fn lemma_once_timer_adds_up(t: Timer, a: nat, b: nat)
    requires
        t.mode is Once,
    ensures
        t.after(a as int).after(b as int) == t.after((a + b) as int),
{
}

/// A one-shot timer that starts at zero has finished after an advance of
/// `delta` milliseconds exactly where `delta` is at least its duration.
pub proof fn lemma_once_timer_finishes(duration_ms: u32, delta: nat)
    ensures
        (Timer { duration_ms, elapsed_ms: 0, finished: false, mode: TimerMode::Once }).after(
            delta as int,
        ).finished == (delta >= duration_ms),
{
}

} // verus!
