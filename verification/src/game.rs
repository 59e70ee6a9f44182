use vstd::prelude::*;
use crate::definition::QuizDefinition;
use crate::error::GameError;
use crate::output::{emitted, extends, Action, Message, Recipient};
use crate::phase::question::{delta_for, first_correct, guess_emits, recorded};
use crate::phase::startup::{is_rules, StartupState};
use crate::phase::wager::wager_taken;
use crate::preload::PreloadState;
use crate::quiz::{
    advance_announced, advanced, after_pulse, is_max_value, lemma_advanced_same_members,
    tick_announced, Phase, PhaseKind, Pulse, Quiz,
};
use crate::team::{
    add_to_team, clamp_score, find_player_team, find_team, has_id, has_team, ids_of, join_roster,
    joined,
    lemma_joined_wf, lemma_same_members_wf, lemma_score_added_same_members, on_a_team,
    player_index, roster, roster_wf, same_members, team_index,
    with_score_added, Team, TeamId, TeamView,
};
use crate::text::{sanitize_name, sanitized_name};

verus! {

broadcast use vstd::std_specs::hash::group_hash_axioms;

/// What a session is doing: gathering teams, or running a match.
#[derive(Debug)]
pub enum GamePhase {
    Setup,
    Quiz(Quiz),
}

/// The session of one venue: its roster and, while one runs, its match.
#[derive(Debug)]
pub struct Game {
    pub current_phase: GamePhase,
    pub teams: Vec<Team>,
    pub paused: bool,
}

/// Whether `a` is the one action that tells every team `m`.
pub open spec fn announces(e: Seq<Action>, m: Message) -> bool {
    e.len() == 1 && e[0] == Action::Say(Recipient::AllTeams, m)
}

impl Game {
    /// No two teams share a name, no player is on two teams, and the
    /// match, where one runs, is well-formed.
    pub open spec fn wf(&self) -> bool {
        &&& roster_wf(self.roster())
        &&& match self.current_phase {
            GamePhase::Setup => true,
            GamePhase::Quiz(q) => q.wf(),
        }
    }

    /// Whether the session is gathering teams.
    pub open spec fn in_setup(&self) -> bool {
        self.current_phase is Setup
    }

    /// The roster as plain values.
    pub open spec fn roster(&self) -> Seq<TeamView> {
        roster(self.teams@)
    }

    /// A session in its setup, not paused, with the given roster.
    pub fn new(teams: Vec<Team>) -> (g: Game)
        requires
            roster_wf(roster(teams@)),
        ensures
            g.wf(),
            g.in_setup(),
            !g.paused,
            g.teams == teams,
    {
        Game { current_phase: GamePhase::Setup, paused: false, teams }
    }

    /// Whether a match is running.
    pub fn is_quiz_running(&self) -> (r: bool)
        ensures
            r == !self.in_setup(),
    {
        match &self.current_phase {
            GamePhase::Setup => false,
            GamePhase::Quiz(_) => true,
        }
    }

    /// Takes in `pulse`. In setup and while the session is paused nothing
    /// happens. A match that is over gives way to the setup; any other
    /// takes the pulse in. Teams and players stay as they are.
    pub fn tick(&mut self, pulse: &Pulse, out: &mut Vec<Action>)
        requires
            old(self).wf(),
        ensures
            final(self).wf(),
            final(self).paused == old(self).paused,
            same_members(old(self).roster(), final(self).roster()),
            extends(old(out)@, final(out)@),
            match old(self).current_phase {
                GamePhase::Setup => *final(self) == *old(self) && final(out)@ == old(out)@,
                GamePhase::Quiz(q) => if old(self).paused {
                    *final(self) == *old(self) && final(out)@ == old(out)@
                } else if q.abort || q.current_phase.kind() == PhaseKind::Results {
                    final(self).in_setup() && final(self).teams == old(self).teams && final(out)@
                        == old(out)@
                } else {
                    let mid = after_pulse(q, *pulse);
                    final(self).current_phase matches GamePhase::Quiz(q2) && tick_announced(
                        q,
                        *pulse,
                        q2,
                        final(self).roster(),
                        old(out)@,
                        final(out)@,
                    ) && if mid.current_phase.over() {
                        advanced(mid, old(self).roster(), pulse.reads@, q2, final(self).roster())
                    } else {
                        q2 == mid && final(self).roster() == old(self).roster()
                    }
                },
            },
    {
        let over = match &self.current_phase {
            GamePhase::Setup => false,
            GamePhase::Quiz(quiz) => quiz.is_over(),
        };
        if self.paused {
        } else if over {
            self.current_phase = GamePhase::Setup;
        } else {
            match &mut self.current_phase {
                GamePhase::Setup => {},
                GamePhase::Quiz(quiz) => {
                    quiz.tick(&mut self.teams, pulse, out);
                },
            }
            proof {
                match old(self).current_phase {
                    GamePhase::Quiz(q) => {
                        let mid = after_pulse(q, *pulse);
                        if mid.current_phase.over() {
                            lemma_advanced_same_members(
                                mid,
                                old(self).roster(),
                                pulse.reads@,
                                self.current_phase->Quiz_0,
                                self.roster(),
                            );
                        }
                    },
                    _ => {},
                }
            }
        }
        proof {
            lemma_same_members_wf(old(self).roster(), self.roster());
        }
    }

    /// Starts a match on `definition`. Only a session in setup can.
    pub fn begin(&mut self, definition: QuizDefinition, out: &mut Vec<Action>) -> (r: Result<
        (),
        GameError,
    >)
        requires
            old(self).wf(),
            definition.wf(),
        ensures
            final(self).wf(),
            final(self).teams == old(self).teams,
            final(self).paused == old(self).paused,
            extends(old(out)@, final(out)@),
            if old(self).in_setup() {
                &&& r is Ok
                &&& final(self).current_phase matches GamePhase::Quiz(q) && !q.abort
                    && q.current_phase == Phase::Startup(
                    StartupState {
                        time_elapsed: 0,
                        time_to_wait: q.settings.startup_duration,
                        preload_state: PreloadState::InProgress,
                    },
                ) && q.remaining_questions == definition.questions && q.initiative is None
                    && is_max_value(definition.questions@, q.max_question_score_value)
                &&& emitted(old(out)@, final(out)@).len() == 2
                &&& emitted(old(out)@, final(out)@)[0] matches Action::Preload(urls) && urls@.len()
                    == definition.questions@.len() && forall|k: int|
                    0 <= k < urls@.len() ==> (#[trigger] urls@[k])@ == definition.questions@[k].url@
                &&& is_rules(emitted(old(out)@, final(out)@)[1])
            } else {
                &&& r is Err && r->Err_0 == GameError::WrongPhase
                &&& *final(self) == *old(self)
                &&& final(out)@ == old(out)@
            },
    {
        match &self.current_phase {
            GamePhase::Setup => {
                let quiz = Quiz::new(definition, out);
                self.current_phase = GamePhase::Quiz(quiz);
                Ok(())
            },
            _ => Err(GameError::WrongPhase),
        }
    }

    /// Abandons the running match and says so.
    pub fn end(&mut self, out: &mut Vec<Action>) -> (r: Result<(), GameError>)
        requires
            old(self).wf(),
        ensures
            final(self).wf(),
            final(self).teams == old(self).teams,
            final(self).paused == old(self).paused,
            match old(self).current_phase {
                GamePhase::Quiz(q) => {
                    &&& r is Ok
                    &&& final(self).current_phase == GamePhase::Quiz(Quiz { abort: true, ..q })
                    &&& extends(old(out)@, final(out)@)
                    &&& announces(emitted(old(out)@, final(out)@), Message::GameEnded)
                },
                GamePhase::Setup => {
                    &&& r is Err && r->Err_0 == GameError::WrongPhase
                    &&& *final(self) == *old(self)
                    &&& final(out)@ == old(out)@
                },
            },
    {
        match &mut self.current_phase {
            GamePhase::Quiz(q) => {
                q.abort();
                out.push(Action::Say(Recipient::AllTeams, Message::GameEnded));
                Ok(())
            },
            _ => Err(GameError::WrongPhase),
        }
    }

    /// Moves the running match on to its next phase at once.
    pub fn skip(&mut self, reads: &Vec<Vec<Vec<u64>>>, out: &mut Vec<Action>) -> (r: Result<
        (),
        GameError,
    >)
        requires
            old(self).wf(),
        ensures
            final(self).wf(),
            final(self).paused == old(self).paused,
            same_members(old(self).roster(), final(self).roster()),
            extends(old(out)@, final(out)@),
            match old(self).current_phase {
                GamePhase::Quiz(q) => {
                    &&& r is Ok
                    &&& final(self).current_phase matches GamePhase::Quiz(q2) && advanced(
                        q,
                        old(self).roster(),
                        reads@,
                        q2,
                        final(self).roster(),
                    ) && advance_announced(q, q2, final(self).roster(), old(out)@, final(out)@)
                },
                GamePhase::Setup => {
                    &&& r is Err && r->Err_0 == GameError::WrongPhase
                    &&& *final(self) == *old(self)
                    &&& final(out)@ == old(out)@
                },
            },
    {
        match &mut self.current_phase {
            GamePhase::Quiz(q) => {
                q.skip_phase(&mut self.teams, reads, out);
                proof {
                    lemma_advanced_same_members(
                        old(self).current_phase->Quiz_0,
                        old(self).roster(),
                        reads@,
                        self.current_phase->Quiz_0,
                        self.roster(),
                    );
                    lemma_same_members_wf(old(self).roster(), self.roster());
                }
                Ok(())
            },
            _ => Err(GameError::WrongPhase),
        }
    }

    /// The team that `player` is on.
    pub fn get_player_team(&self, player: u64) -> (r: Option<TeamId>)
        ensures
            r is Some == on_a_team(self.roster(), player),
            r matches Some(id) ==> id@ == self.roster()[player_index(self.roster(), player)].id
                && crate::team::player_at(
                self.roster(),
                player,
                player_index(self.roster(), player),
            ),
    {
        match find_player_team(&self.teams, player) {
            Some(k) => {
                assert(self.roster()[k as int].id == self.teams@[k as int].id@);
                Some(self.teams[k].id.duplicate())
            },
            None => None,
        }
    }

    /// Why a command of `player` that needs a team and a running match is
    /// refused before it reaches the match, if it is.
    pub open spec fn entry_refusal(&self, player: u64) -> Option<GameError> {
        if !on_a_team(self.roster(), player) {
            Some(GameError::NotOnTeam)
        } else if self.in_setup() {
            Some(GameError::WrongPhase)
        } else {
            None
        }
    }

    /// Takes the guess of `player` for the player's team.
    pub fn guess(&mut self, player: u64, guess: &str, out: &mut Vec<Action>) -> (r: Result<
        (),
        GameError,
    >)
        requires
            old(self).wf(),
        ensures
            final(self).wf(),
            final(self).paused == old(self).paused,
            same_members(old(self).roster(), final(self).roster()),
            extends(old(out)@, final(out)@),
            match old(self).entry_refusal(player) {
                Some(e) => {
                    &&& r is Err && r->Err_0 == e
                    &&& *final(self) == *old(self)
                    &&& final(out)@ == old(out)@
                },
                None => {
                    let team = old(self).roster()[player_index(old(self).roster(), player)].id;
                    let q = old(self).current_phase->Quiz_0;
                    match q.current_phase {
                        Phase::Question(s) => match s.guess_refusal(old(self).roster(), team) {
                            Some(e) => {
                                &&& r is Err && r->Err_0 == e
                                &&& *final(self) == *old(self)
                                &&& final(out)@ == old(out)@
                            },
                            None => {
                                &&& r is Ok
                                &&& final(self).current_phase matches GamePhase::Quiz(q2)
                                    && q2.current_phase matches Phase::Question(s2) && recorded(
                                    s,
                                    team,
                                    guess@,
                                    s2,
                                )
                                &&& final(self).roster() == with_score_added(
                                    old(self).roster(),
                                    team,
                                    delta_for(s, team, guess@),
                                )
                                &&& final(self).current_phase matches GamePhase::Quiz(q2) && if first_correct(
                                    s,
                                    guess@,
                                ) {
                                    q2.initiative matches Some(t) && t@ == team
                                } else {
                                    q2.initiative == q.initiative
                                }
                                &&& final(self).current_phase matches GamePhase::Quiz(q2)
                                    && q2.current_phase matches Phase::Question(s2) && guess_emits(
                                    s,
                                    s2,
                                    team,
                                    guess@,
                                    emitted(old(out)@, final(out)@),
                                )
                            },
                        },
                        _ => {
                            &&& r is Err && r->Err_0 == GameError::NoActiveQuestion
                            &&& *final(self) == *old(self)
                            &&& final(out)@ == old(out)@
                        },
                    }
                },
            },
    {
        let team_id = match self.get_player_team(player) {
            Some(id) => id,
            None => {
                return Err(GameError::NotOnTeam);
            },
        };
        match &mut self.current_phase {
            GamePhase::Quiz(quiz) => {
                let r = quiz.guess(&mut self.teams, &team_id, guess, out);
                proof {
                    match old(self).current_phase->Quiz_0.current_phase {
                        Phase::Question(s) => {
                            lemma_score_added_same_members(
                                old(self).roster(),
                                team_id@,
                                delta_for(s, team_id@, guess@),
                            );
                        },
                        _ => {},
                    }
                    lemma_same_members_wf(old(self).roster(), self.roster());
                }
                r
            },
            _ => Err(GameError::WrongPhase),
        }
    }

    /// Takes the wager of `player` for the player's team.
    pub fn wager(&mut self, player: u64, amount: u32) -> (r: Result<(), GameError>)
        requires
            old(self).wf(),
        ensures
            final(self).wf(),
            final(self).paused == old(self).paused,
            final(self).teams == old(self).teams,
            match old(self).entry_refusal(player) {
                Some(e) => r is Err && r->Err_0 == e && *final(self) == *old(self),
                None => {
                    let team = old(self).roster()[player_index(old(self).roster(), player)].id;
                    let q = old(self).current_phase->Quiz_0;
                    match q.current_phase {
                        Phase::Wager(w) => if has_id(ids_of(w.participants@), team) {
                            r is Ok && (final(self).current_phase matches GamePhase::Quiz(q2) && (
                            q2.current_phase matches Phase::Wager(w2) && wager_taken(
                                w,
                                old(self).roster(),
                                team,
                                amount,
                                w2,
                            )))
                        } else {
                            r is Err && r->Err_0 == GameError::NotAParticipant && *final(self)
                                == *old(self)
                        },
                        _ => r is Err && r->Err_0 == GameError::WrongPhase && *final(self) == *old(
                            self,
                        ),
                    }
                },
            },
    {
        let team_id = match self.get_player_team(player) {
            Some(id) => id,
            None => {
                return Err(GameError::NotOnTeam);
            },
        };
        match &mut self.current_phase {
            GamePhase::Quiz(quiz) => quiz.wager(&self.teams, &team_id, amount),
            _ => Err(GameError::WrongPhase),
        }
    }

    /// Why `player` may not join the team named `team_name`, if so: the
    /// name cleans to nothing, or the player has a team and a match runs.
    pub open spec fn join_refusal(&self, player: u64, team_name: Seq<char>) -> Option<GameError> {
        if sanitized_name(team_name) is None {
            Some(GameError::InvalidName)
        } else if on_a_team(self.roster(), player) && !self.in_setup() {
            Some(GameError::TeamChangeForbidden)
        } else {
            None
        }
    }

    /// Puts `player` on the team of the given name, cleaned. The team is
    /// made if there is none yet; the player leaves any other team; teams
    /// left without players are removed. A refusal changes nothing.
    pub fn join_team(&mut self, player: u64, team_name: &str) -> (r: Result<(), GameError>)
        requires
            old(self).wf(),
        ensures
            final(self).wf(),
            final(self).paused == old(self).paused,
            final(self).current_phase == old(self).current_phase,
            match old(self).join_refusal(player, team_name@) {
                Some(e) => r is Err && r->Err_0 == e && final(self).teams == old(self).teams,
                None => r is Ok && final(self).roster() == joined(
                    old(self).roster(),
                    sanitized_name(team_name@)->Some_0,
                    player,
                ),
            },
    {
        let name = match sanitize_name(team_name) {
            Ok(name) => name,
            Err(e) => {
                return Err(e);
            },
        };
        let is_setup_phase = match &self.current_phase {
            GamePhase::Setup => true,
            _ => false,
        };
        let is_player_on_team = find_player_team(&self.teams, player).is_some();
        if is_player_on_team && !is_setup_phase {
            return Err(GameError::TeamChangeForbidden);
        }
        proof {
            lemma_joined_wf(self.roster(), name@, player);
        }
        join_roster(&mut self.teams, player, TeamId::TeamName(name));
        Ok(())
    }

    /// Removes the team of the given name, cleaned, whoever is on it.
    pub fn disband_team(&mut self, team_name: &str) -> (r: Result<(), GameError>)
        requires
            old(self).wf(),
        ensures
            final(self).wf(),
            final(self).paused == old(self).paused,
            final(self).current_phase == old(self).current_phase,
            match sanitized_name(team_name@) {
                None => r is Err && r->Err_0 == GameError::InvalidName && final(self).teams == old(
                    self,
                ).teams,
                Some(name) => if has_team(old(self).roster(), name) {
                    r is Ok && final(self).teams@ == old(self).teams@.remove(
                        team_index(old(self).roster(), name),
                    )
                } else {
                    r is Err && r->Err_0 == GameError::TeamNotFound && final(self).teams == old(
                        self,
                    ).teams
                },
            },
    {
        let name = match sanitize_name(team_name) {
            Ok(name) => name,
            Err(e) => {
                return Err(e);
            },
        };
        let team_id = TeamId::TeamName(name);
        match find_team(&self.teams, &team_id) {
            Some(k) => {
                self.teams.remove(k);
                proof {
                    let before = old(self).roster();
                    let after = self.roster();
                    assert(after =~= before.remove(k as int));
                    assert forall|i: int, j: int| 0 <= i < j < after.len() implies crate::team::apart(
                        #[trigger] after[i],
                        #[trigger] after[j],
                    ) by {
                        let i0 = if i < k { i } else { i + 1 };
                        let j0 = if j < k { j } else { j + 1 };
                        assert(after[i] == before[i0] && after[j] == before[j0]);
                        assert(crate::team::apart(before[i0], before[j0]));
                    }
                }
                Ok(())
            },
            None => Err(GameError::TeamNotFound),
        }
    }

    /// Adds `delta` to the score of a team, whatever comes of it, and tells
    /// every team the new score.
    pub fn adjust_score(&mut self, team_id: TeamId, delta: i32, out: &mut Vec<Action>) -> (r: Result<
        (),
        GameError,
    >)
        requires
            old(self).wf(),
        ensures
            final(self).wf(),
            final(self).paused == old(self).paused,
            final(self).current_phase == old(self).current_phase,
            same_members(old(self).roster(), final(self).roster()),
            extends(old(out)@, final(out)@),
            if has_team(old(self).roster(), team_id@) {
                let k = team_index(old(self).roster(), team_id@);
                &&& r is Ok
                &&& final(self).roster() == with_score_added(
                    old(self).roster(),
                    team_id@,
                    delta as int,
                )
                &&& emitted(old(out)@, final(out)@).len() == 1
                &&& emitted(old(out)@, final(out)@)[0] matches Action::Say(
                    Recipient::AllTeams,
                    Message::TeamScoreAdjusted(t, score),
                ) && t@ == team_id@ && score == clamp_score(old(self).roster()[k].score + delta)
            } else {
                &&& r is Err && r->Err_0 == GameError::TeamNotFound
                &&& final(self).roster() == old(self).roster()
                &&& final(out)@ == old(out)@
            },
    {
        proof {
            lemma_score_added_same_members(self.roster(), team_id@, delta as int);
            lemma_same_members_wf(
                self.roster(),
                with_score_added(self.roster(), team_id@, delta as int),
            );
        }
        match add_to_team(&mut self.teams, &team_id, delta) {
            Some(new_score) => {
                out.push(
                    Action::Say(Recipient::AllTeams, Message::TeamScoreAdjusted(team_id, new_score)),
                );
                Ok(())
            },
            None => Err(GameError::TeamNotFound),
        }
    }

    /// Empties the roster and says so. Nobody is on a team afterwards.
    pub fn reset_teams(&mut self, out: &mut Vec<Action>)
        requires
            old(self).wf(),
        ensures
            final(self).wf(),
            final(self).teams@.len() == 0,
            forall|player: u64| !on_a_team(final(self).roster(), player),
            final(self).paused == old(self).paused,
            final(self).current_phase == old(self).current_phase,
            extends(old(out)@, final(out)@),
            announces(emitted(old(out)@, final(out)@), Message::TeamsReset),
    {
        self.teams.clear();
        out.push(Action::Say(Recipient::AllTeams, Message::TeamsReset));
    }

    /// Sets every score to 0 and says so. Teams, players and the phase of
    /// the session stay as they are.
    pub fn reset_scores(&mut self, out: &mut Vec<Action>)
        requires
            old(self).wf(),
        ensures
            final(self).wf(),
            same_members(old(self).roster(), final(self).roster()),
            forall|i: int| 0 <= i < final(self).teams@.len() ==> (#[trigger] final(self).roster()[i]).score == 0,
            final(self).paused == old(self).paused,
            final(self).current_phase == old(self).current_phase,
            extends(old(out)@, final(out)@),
            announces(emitted(old(out)@, final(out)@), Message::ScoresReset),
    {
        let n = self.teams.len();
        let mut i: usize = 0;
        while i < n
            invariant
                n == self.teams@.len(),
                i <= n,
                self.paused == old(self).paused,
                self.current_phase == old(self).current_phase,
                same_members(old(self).roster(), self.roster()),
                forall|k: int| 0 <= k < i ==> (#[trigger] self.roster()[k]).score == 0,
            decreases n - i,
        {
            let ghost before = self.roster();
            self.teams[i].score = 0;
            proof {
                let after = self.roster();
                assert forall|k: int| 0 <= k < after.len() implies (#[trigger] after[k]).id
                    == before[k].id && after[k].players == before[k].players by {}
                assert forall|k: int| 0 <= k < i + 1 implies (#[trigger] after[k]).score == 0 by {
                    if k < i {
                        assert(after[k] == before[k]);
                    }
                }
            }
            i += 1;
        }
        proof {
            lemma_same_members_wf(old(self).roster(), self.roster());
        }
        out.push(Action::Say(Recipient::AllTeams, Message::ScoresReset));
    }

    /// Pauses the session, and says so if it was not paused.
    pub fn pause(&mut self, out: &mut Vec<Action>)
        ensures
            old(self).wf() ==> final(self).wf(),
            final(self).paused,
            final(self).teams == old(self).teams,
            final(self).current_phase == old(self).current_phase,
            extends(old(out)@, final(out)@),
            if old(self).paused {
                final(out)@ == old(out)@
            } else {
                announces(emitted(old(out)@, final(out)@), Message::GamePaused)
            },
    {
        if !self.paused {
            self.paused = true;
            out.push(Action::Say(Recipient::AllTeams, Message::GamePaused));
        }
    }

    /// Resumes the session, and says so if it was paused.
    pub fn unpause(&mut self, out: &mut Vec<Action>)
        ensures
            old(self).wf() ==> final(self).wf(),
            !final(self).paused,
            final(self).teams == old(self).teams,
            final(self).current_phase == old(self).current_phase,
            extends(old(out)@, final(out)@),
            if old(self).paused {
                announces(emitted(old(out)@, final(out)@), Message::GameUnpaused)
            } else {
                final(out)@ == old(out)@
            },
    {
        if self.paused {
            self.paused = false;
            out.push(Action::Say(Recipient::AllTeams, Message::GameUnpaused));
        }
    }

    /// The roster, in the order in which the teams were made.
    pub fn get_teams(&self) -> (r: &Vec<Team>)
        ensures
            r == &self.teams,
    {
        &self.teams
    }
}

} // verus!
