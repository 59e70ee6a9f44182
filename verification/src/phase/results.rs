use vstd::prelude::*;
use crate::output::{emitted, extends, Action, Message, Recipient, Sound};
use crate::team::{is_top, roster, top_team, Team, TeamView};

verus! {

/// The end of a match: the winner is announced, and nothing follows.
#[derive(Clone, Copy, Debug, PartialEq, Eq, Structural)]
pub struct ResultsState {}

/// Whether `a` tells every team that the team named `team` has won.
pub open spec fn tells_winner(a: Action, team: Seq<char>) -> bool {
    a matches Action::Say(Recipient::AllTeams, Message::GameResults(t)) && t@ == team
}

/// Whether `e` is what the results announce for the roster `r`: nothing
/// where there is no team, else the fanfare and the leading team, which
/// among teams of the same score is the first of the roster.
pub open spec fn announces_results(r: Seq<TeamView>, e: Seq<Action>) -> bool {
    if r.len() == 0 {
        e.len() == 0
    } else {
        &&& e.len() == 2
        &&& e[0] == Action::PlaySound(Sound::Congrats)
        &&& exists|w: int| #[trigger] is_top(r, w) && tells_winner(e[1], r[w].id)
    }
}

impl ResultsState {
    /// The results of a match.
    pub fn new() -> (r: ResultsState) {
        ResultsState {  }
    }

    /// Announces the leading team.
    pub fn on_begin(&mut self, teams: &Vec<Team>, out: &mut Vec<Action>)
        ensures
            extends(old(out)@, final(out)@),
            announces_results(roster(teams@), emitted(old(out)@, final(out)@)),
    {
        match top_team(teams) {
            Some(w) => {
                out.push(Action::PlaySound(Sound::Congrats));
                out.push(Action::Say(Recipient::AllTeams, Message::GameResults(teams[w].id.duplicate())));
                proof {
                    let e = emitted(old(out)@, out@);
                    assert(e[1] == out@.last());
                    assert(roster(teams@)[w as int].id == teams@[w as int].id@);
                    assert(is_top(roster(teams@), w as int));
                }
            },
            None => {},
        }
    }

    /// Time means nothing to the results.
    pub fn on_tick(&mut self, dt: u64) {
    }

    /// Nothing is left to do when the results end.
    pub fn on_end(&mut self) {
    }

    /// The results never end by themselves.
    pub fn is_over(&self) -> (r: bool)
        ensures
            !r,
    {
        false
    }
}

} // verus!
