use vstd::prelude::*;

verus! {

/// The time on a phase's clock once `dt` more has passed. A clock stops at
/// the largest value it can hold.
pub open spec fn clock_after(elapsed: u64, dt: u64) -> u64 {
    if elapsed + dt > u64::MAX {
        u64::MAX
    } else {
        (elapsed + dt) as u64
    }
}

/// `clock_after`, computed.
pub fn advance_clock(elapsed: u64, dt: u64) -> (r: u64)
    ensures
        r == clock_after(elapsed, dt),
{
    if dt > u64::MAX - elapsed {
        u64::MAX
    } else {
        elapsed + dt
    }
}

/// The time left until `limit`, or `None` once it is passed.
pub open spec fn time_left(limit: u64, elapsed: u64) -> Option<u64> {
    if elapsed <= limit {
        Some((limit - elapsed) as u64)
    } else {
        None
    }
}

/// The warning due when the time left falls from `before` to `after`: ten
/// seconds when it falls to ten seconds or under, else thirty seconds when
/// it falls to thirty seconds or under; none once the limit is passed.
pub open spec fn warning_due(before: Option<u64>, after: Option<u64>) -> Option<u64> {
    match (before, after) {
        (Some(b), Some(a)) => {
            if b > 10_000 && a <= 10_000 {
                Some(10_000u64)
            } else if b > 30_000 && a <= 30_000 {
                Some(30_000u64)
            } else {
                None
            }
        },
        _ => None,
    }
}

/// `time_left`, computed.
pub fn remaining(limit: u64, elapsed: u64) -> (r: Option<u64>)
    ensures
        r == time_left(limit, elapsed),
{
    if elapsed <= limit {
        Some(limit - elapsed)
    } else {
        None
    }
}

/// `warning_due`, computed.
pub fn time_warning(before: Option<u64>, after: Option<u64>) -> (r: Option<u64>)
    ensures
        r == warning_due(before, after),
{
    match (before, after) {
        (Some(b), Some(a)) => {
            if b > 10_000 && a <= 10_000 {
                Some(10_000)
            } else if b > 30_000 && a <= 30_000 {
                Some(30_000)
            } else {
                None
            }
        },
        _ => None,
    }
}

/// A wait of a fixed length, in milliseconds.
#[derive(Clone, Copy, Debug, PartialEq, Eq, Structural)]
pub struct CooldownStep {
    pub time_elapsed: u64,
    pub time_to_wait: u64,
}

impl CooldownStep {
    /// A wait of `duration`, not yet begun.
    pub fn new(duration: u64) -> (r: CooldownStep)
        ensures
            r == (CooldownStep { time_elapsed: 0, time_to_wait: duration }),
    {
        CooldownStep { time_elapsed: 0, time_to_wait: duration }
    }

    /// Lets `dt` pass.
    pub fn tick(&mut self, dt: u64)
        ensures
            *final(self) == (CooldownStep {
                time_elapsed: clock_after(old(self).time_elapsed, dt),
                ..*old(self)
            }),
    {
        self.time_elapsed = advance_clock(self.time_elapsed, dt);
    }

    /// Over once the wait has passed.
    pub fn is_over(&self) -> (r: bool)
        ensures
            r == (self.time_elapsed >= self.time_to_wait),
    {
        self.time_elapsed >= self.time_to_wait
    }
}

/// The pause between two questions. It does nothing but wait.
#[derive(Clone, Copy, Debug, PartialEq, Eq, Structural)]
pub struct CooldownState {
    pub step: CooldownStep,
}

impl CooldownState {
    /// A pause of `duration`.
    pub fn new(duration: u64) -> (r: CooldownState)
        ensures
            r.step == (CooldownStep { time_elapsed: 0, time_to_wait: duration }),
    {
        CooldownState { step: CooldownStep::new(duration) }
    }

    /// Nothing is announced when the pause begins.
    pub fn on_begin(&mut self)
        ensures
            *final(self) == *old(self),
    {
    }

    /// Lets `dt` pass.
    pub fn on_tick(&mut self, dt: u64)
        ensures
            final(self).step == (CooldownStep {
                time_elapsed: clock_after(old(self).step.time_elapsed, dt),
                ..old(self).step
            }),
    {
        self.step.tick(dt);
    }

    /// Nothing is left to do when the pause ends.
    pub fn on_end(&mut self)
        ensures
            *final(self) == *old(self),
    {
    }

    /// Over once the pause has passed.
    pub fn is_over(&self) -> (r: bool)
        ensures
            r == (self.step.time_elapsed >= self.step.time_to_wait),
    {
        self.step.is_over()
    }
}

} // verus!
