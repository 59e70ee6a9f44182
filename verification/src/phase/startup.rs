use vstd::prelude::*;
use crate::output::{emitted, extends, Action, Message, Recipient};
use crate::phase::cooldown::{advance_clock, clock_after};
use crate::preload::PreloadState;

verus! {

/// The opening of a match: the rules are read out while the media are fetched.
#[derive(Clone, Copy, Debug, PartialEq, Eq, Structural)]
pub struct StartupState {
    pub time_elapsed: u64,
    pub time_to_wait: u64,
    pub preload_state: PreloadState,
}

/// Whether `a` announces the rules to every team.
pub open spec fn is_rules(a: Action) -> bool {
    a matches Action::Say(Recipient::AllTeams, Message::QuizRules)
}

/// Whether `e` is what the beginning of the startup emits: the rules.
pub open spec fn begin_emits(e: Seq<Action>) -> bool {
    e.len() == 1 && is_rules(e[0])
}

impl StartupState {
    /// A startup that waits for `duration` and for the media.
    pub fn new(duration: u64) -> (r: StartupState)
        ensures
            r == (StartupState {
                time_elapsed: 0,
                time_to_wait: duration,
                preload_state: PreloadState::InProgress,
            }),
    {
        StartupState {
            time_elapsed: 0,
            time_to_wait: duration,
            preload_state: PreloadState::InProgress,
        }
    }

    /// Whether the media have been fetched.
    pub fn preload_succeeded(&self) -> (r: bool)
        ensures
            r == (self.preload_state == PreloadState::Success),
    {
        match self.preload_state {
            PreloadState::Success => true,
            _ => false,
        }
    }

    /// Announces the rules.
    pub fn on_begin(&mut self, out: &mut Vec<Action>)
        ensures
            *final(self) == *old(self),
            extends(old(out)@, final(out)@),
            begin_emits(emitted(old(out)@, final(out)@)),
    {
        out.push(Action::Say(Recipient::AllTeams, Message::QuizRules));
    }

    /// Lets `dt` pass and records what the fetching has come to.
    pub fn on_tick(&mut self, dt: u64, preload: PreloadState)
        ensures
            *final(self) == (StartupState {
                time_elapsed: clock_after(old(self).time_elapsed, dt),
                time_to_wait: old(self).time_to_wait,
                preload_state: preload,
            }),
    {
        self.time_elapsed = advance_clock(self.time_elapsed, dt);
        self.preload_state = preload;
    }

    /// Nothing is left to do when the startup ends.
    pub fn on_end(&mut self)
        ensures
            *final(self) == *old(self),
    {
    }

    /// Over at once when the fetching failed, and after the wait when it
    /// succeeded; never while it is still going on.
    pub fn is_over(&self) -> (r: bool)
        ensures
            r == match self.preload_state {
                PreloadState::InProgress => false,
                PreloadState::Failure => true,
                PreloadState::Success => self.time_elapsed >= self.time_to_wait,
            },
    {
        let waited = self.time_elapsed >= self.time_to_wait;
        match self.preload_state {
            PreloadState::InProgress => false,
            PreloadState::Failure => true,
            PreloadState::Success => waited,
        }
    }
}

} // verus!
