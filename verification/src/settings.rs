use vstd::prelude::*;

verus! {

/// How long each phase lasts, in milliseconds, and how many options a vote
/// offers at most.
#[derive(Clone, Copy, Debug, PartialEq, Eq, Structural)]
pub struct Settings {
    pub startup_duration: u64,
    pub vote_duration: u64,
    pub wager_duration: u64,
    pub question_duration: u64,
    pub cooldown_duration: u64,
    pub max_vote_options: usize,
}

impl Default for Settings {
    fn default() -> (s: Settings)
        ensures
            s == (Settings {
                startup_duration: 30_000,
                vote_duration: 15_000,
                wager_duration: 90_000,
                question_duration: 90_000,
                cooldown_duration: 5_000,
                max_vote_options: 6,
            }),
    {
        Settings {
            startup_duration: 30_000,
            vote_duration: 15_000,
            wager_duration: 90_000,
            question_duration: 90_000,
            cooldown_duration: 5_000,
            max_vote_options: 6,
        }
    }
}

} // verus!
