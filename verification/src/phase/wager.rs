use vstd::prelude::*;
use crate::definition::Question;
use crate::error::GameError;
use crate::output::{emitted, extends, tells_time_left, Action, Message, Recipient, Sound};
use crate::phase::cooldown::{
    advance_clock, clock_after, remaining, time_left, time_warning, warning_due,
};
use crate::team::{
    distinct, distinct_ids, find_id, find_team, has_id, has_team, id_index, ids_of, roster, Team,
    team_index, TeamId, TeamView,
};

verus! {

/// The wagering that precedes a challenge question.
#[derive(Debug)]
pub struct WagerState {
    pub question: Question,
    pub time_elapsed: u64,
    pub time_limit: u64,
    /// The teams that may wager, none of them twice.
    pub participants: Vec<TeamId>,
    /// For each participant, in the same order, the amount it has at stake.
    pub wager_amounts: Vec<u32>,
    /// For each participant, in the same order, whether it has wagered.
    pub wagers_committed: Vec<bool>,
    pub max_question_score_value: u32,
}

/// The most a team may wager: its score, where that is more than twice the
/// highest value of any question of the match. A team that is not on the
/// roster counts as having no points.
pub open spec fn wager_cap(r: Seq<TeamView>, team: Seq<char>, max_value: u32) -> u32 {
    let twice = if 2 * max_value > u32::MAX {
        u32::MAX
    } else {
        (2 * max_value) as u32
    };
    let score = if has_team(r, team) && r[team_index(r, team)].score > 0 {
        r[team_index(r, team)].score as u32
    } else {
        0u32
    };
    if score > twice {
        score
    } else {
        twice
    }
}

/// A wager held to the cap from above and then to the floor from below.
pub open spec fn clamped_wager(amount: u32, floor: u32, cap: u32) -> u32 {
    let capped = if amount > cap {
        cap
    } else {
        amount
    };
    if capped < floor {
        floor
    } else {
        capped
    }
}

/// A wager above the cap is taken down to the cap, one below the floor is
/// taken up to the floor, and one between them stands.
pub proof fn lemma_wager_clamps(amount: u32, floor: u32, cap: u32)
    requires
        floor <= cap,
    ensures
        floor <= clamped_wager(amount, floor, cap) <= cap,
        amount > cap ==> clamped_wager(amount, floor, cap) == cap,
        amount < floor ==> clamped_wager(amount, floor, cap) == floor,
        floor <= amount <= cap ==> clamped_wager(amount, floor, cap) == amount,
{
}

/// The cap of a team whose score is not above twice the highest question
/// value is that amount.
pub proof fn lemma_cap_is_twice_max(r: Seq<TeamView>, team: Seq<char>, max_value: u32)
    requires
        2 * max_value <= u32::MAX,
        !has_team(r, team) || r[team_index(r, team)].score <= 2 * max_value,
    ensures
        wager_cap(r, team, max_value) == 2 * max_value,
{
}

/// The wager that is recorded for a participant whose score is not above
/// twice the highest question value, on a question that is worth no more
/// than that: an amount above twice the highest value comes down to it, an
/// amount below the question's value comes up to it.
pub proof fn lemma_recorded_wager(
    before: WagerState,
    r: Seq<TeamView>,
    team: Seq<char>,
    amount: u32,
    after: WagerState,
)
    requires
        before.wf(),
        has_id(ids_of(before.participants@), team),
        wager_taken(before, r, team, amount, after),
        2 * before.max_question_score_value <= u32::MAX,
        before.question.score_value <= 2 * before.max_question_score_value,
        !has_team(r, team) || r[team_index(r, team)].score <= 2 * before.max_question_score_value,
    ensures
        ({
            let slot = id_index(ids_of(before.participants@), team);
            let recorded = after.wager_amounts@[slot];
            &&& 0 <= slot < after.wager_amounts@.len()
            &&& amount > 2 * before.max_question_score_value ==> recorded == 2
                * before.max_question_score_value
            &&& amount < before.question.score_value ==> recorded == before.question.score_value
            &&& before.question.score_value <= amount <= 2 * before.max_question_score_value
                ==> recorded == amount
        }),
{
    let ids = ids_of(before.participants@);
    let any = choose|k: int| 0 <= k < ids.len() && #[trigger] ids[k] == team;
    crate::team::lemma_first_id(ids, team, any);
    lemma_cap_is_twice_max(r, team, before.max_question_score_value);
}

/// Names and amounts, as plain values.
pub open spec fn wager_pairs(v: Seq<(TeamId, u32)>) -> Seq<(Seq<char>, u32)> {
    v.map_values(|p: (TeamId, u32)| (p.0@, p.1))
}

/// Whether `a` tells `team` how much it may wager.
pub open spec fn tells_rules(a: Action, team: Seq<char>, floor: u32, cap: u32) -> bool {
    a matches Action::Say(Recipient::Team(t), Message::WagerRules(f, c)) && t@ == team && f
        == floor && c == cap
}

/// Whether `a` tells `team` to wait while others wager.
pub open spec fn tells_wait(a: Action, team: Seq<char>) -> bool {
    a matches Action::Say(Recipient::Team(t), Message::WagerWait) && t@ == team
}

/// Whether `after` is `before` with the wager of the participant `team`
/// recorded: held to the team's cap and then to the question's value.
pub open spec fn wager_taken(
    before: WagerState,
    r: Seq<TeamView>,
    team: Seq<char>,
    amount: u32,
    after: WagerState,
) -> bool {
    let slot = id_index(ids_of(before.participants@), team);
    &&& after == (WagerState {
        wager_amounts: after.wager_amounts,
        wagers_committed: after.wagers_committed,
        ..before
    })
    &&& after.wager_amounts@ == before.wager_amounts@.update(
        slot,
        clamped_wager(
            amount,
            before.question.score_value,
            wager_cap(r, team, before.max_question_score_value),
        ),
    )
    &&& after.wagers_committed@ == before.wagers_committed@.update(slot, true)
}

/// Whether `a` tells `team` its part in the wagering: how much it may
/// wager where it takes part, and to wait where it does not.
pub open spec fn tells_part(a: Action, takes_part: bool, team: Seq<char>, floor: u32, cap: u32) -> bool {
    if takes_part {
        tells_rules(a, team, floor, cap)
    } else {
        tells_wait(a, team)
    }
}

/// Whether `e` is what the beginning of the wagering emits: the challenge
/// sound and its news, then for each team of the roster, in its order,
/// either how much it may wager or that it has to wait.
pub open spec fn begin_emits(state: WagerState, r: Seq<TeamView>, e: Seq<Action>) -> bool {
    &&& e.len() == 2 + r.len()
    &&& e[0] == Action::PlaySound(Sound::Challenge)
    &&& e[1] matches Action::Say(Recipient::AllTeams, Message::WagerBegins(c)) && c@
        == state.question.category@
    &&& forall|i: int|
        0 <= i < r.len() ==> tells_part(
            #[trigger] e[2 + i],
            has_id(ids_of(state.participants@), r[i].id),
            r[i].id,
            state.question.score_value,
            wager_cap(r, r[i].id, state.max_question_score_value),
        )
}

/// Whether `e` is what a tick of `dt` emits: while wagers are outstanding,
/// the warning that is due, if any.
pub open spec fn tick_emits(state: WagerState, dt: u64, e: Seq<Action>) -> bool {
    let warning = if state.all_wagered() {
        None
    } else {
        warning_due(
            time_left(state.time_limit, state.time_elapsed),
            time_left(state.time_limit, clock_after(state.time_elapsed, dt)),
        )
    };
    match warning {
        Some(ms) => e.len() == 1 && tells_time_left(e[0], ms),
        None => e.len() == 0,
    }
}

impl WagerState {
    /// One amount and one flag for each participant, and no participant twice.
    pub open spec fn wf(&self) -> bool {
        &&& self.wager_amounts@.len() == self.participants@.len()
        &&& self.wagers_committed@.len() == self.participants@.len()
        &&& distinct(ids_of(self.participants@))
    }

    /// Whether every participant has wagered.
    pub open spec fn all_wagered(&self) -> bool {
        forall|k: int|
            0 <= k < self.wagers_committed@.len() ==> #[trigger] self.wagers_committed@[k]
    }

    /// Each participant with the amount it has at stake.
    pub open spec fn stakes(&self) -> Seq<(Seq<char>, u32)> {
        Seq::new(
            self.participants@.len(),
            |k: int| (self.participants@[k]@, self.wager_amounts@[k]),
        )
    }

    /// The wagering on `question` among `participants`, each counted once.
    /// Every participant starts with the question's value at stake.
    pub fn new(
        question: Question,
        duration: u64,
        participants: Vec<TeamId>,
        max_question_score_value: u32,
    ) -> (r: WagerState)
        ensures
            r.wf(),
            r.question == question,
            r.time_elapsed == 0,
            r.time_limit == duration,
            r.max_question_score_value == max_question_score_value,
            forall|k: int|
                0 <= k < r.participants@.len() ==> #[trigger] r.wager_amounts@[k]
                    == question.score_value && !r.wagers_committed@[k],
            forall|k: int|
                0 <= k < participants@.len() ==> has_id(
                    ids_of(r.participants@),
                    #[trigger] ids_of(participants@)[k],
                ),
            forall|m: int|
                0 <= m < r.participants@.len() ==> has_id(
                    ids_of(participants@),
                    #[trigger] ids_of(r.participants@)[m],
                ),
    {
        let participants = distinct_ids(participants);
        let n = participants.len();
        let mut wager_amounts: Vec<u32> = Vec::new();
        let mut wagers_committed: Vec<bool> = Vec::new();
        let mut i: usize = 0;
        while i < n
            invariant
                i <= n,
                wager_amounts@.len() == i,
                wagers_committed@.len() == i,
                forall|k: int|
                    0 <= k < i ==> #[trigger] wager_amounts@[k] == question.score_value
                        && !wagers_committed@[k],
            decreases n - i,
        {
            wager_amounts.push(question.score_value);
            wagers_committed.push(false);
            i += 1;
        }
        WagerState {
            question,
            time_elapsed: 0,
            time_limit: duration,
            participants,
            wager_amounts,
            wagers_committed,
            max_question_score_value,
        }
    }

    /// The most that `team_id` may wager.
    pub fn get_wager_cap(&self, teams: &Vec<Team>, team_id: &TeamId) -> (r: u32)
        ensures
            r == wager_cap(roster(teams@), team_id@, self.max_question_score_value),
    {
        let twice: u32 = if self.max_question_score_value > u32::MAX / 2 {
            u32::MAX
        } else {
            2 * self.max_question_score_value
        };
        let team_score: u32 = match find_team(teams, team_id) {
            Some(k) => {
                assert(roster(teams@)[k as int].score == teams@[k as int].score);
                if teams[k].score > 0 {
                    teams[k].score as u32
                } else {
                    0
                }
            },
            None => 0,
        };
        if team_score > twice {
            team_score
        } else {
            twice
        }
    }

    /// Records the wager of a participant, held to its cap and then to the
    /// question's value. Any other team is refused, and nothing changes.
    pub fn wager(&mut self, teams: &Vec<Team>, team_id: &TeamId, amount: u32) -> (r: Result<
        (),
        GameError,
    >)
        requires
            old(self).wf(),
        ensures
            final(self).wf(),
            if has_id(ids_of(old(self).participants@), team_id@) {
                r is Ok && wager_taken(*old(self), roster(teams@), team_id@, amount, *final(self))
            } else {
                &&& r is Err && r->Err_0 == GameError::NotAParticipant
                &&& *final(self) == *old(self)
            },
    {
        let slot = match find_id(&self.participants, team_id) {
            Some(slot) => slot,
            None => {
                return Err(GameError::NotAParticipant);
            },
        };
        let cap = self.get_wager_cap(teams, team_id);
        let capped = if amount > cap {
            cap
        } else {
            amount
        };
        let amount = if capped < self.question.score_value {
            self.question.score_value
        } else {
            capped
        };
        self.wager_amounts[slot] = amount;
        self.wagers_committed[slot] = true;
        Ok(())
    }

    /// The amount that `team_id` has at stake, if it takes part.
    pub fn wager_of(&self, team_id: &TeamId) -> (r: Option<u32>)
        requires
            self.wf(),
        ensures
            r is Some == has_id(ids_of(self.participants@), team_id@),
            r is Some ==> r->Some_0 == self.wager_amounts@[id_index(
                ids_of(self.participants@),
                team_id@,
            )],
    {
        match find_id(&self.participants, team_id) {
            Some(slot) => Some(self.wager_amounts[slot]),
            None => None,
        }
    }

    /// `all_wagered`, computed.
    pub fn did_every_team_wager(&self) -> (r: bool)
        ensures
            r == self.all_wagered(),
    {
        let n = self.wagers_committed.len();
        let mut i: usize = 0;
        while i < n
            invariant
                n == self.wagers_committed@.len(),
                i <= n,
                forall|k: int| 0 <= k < i ==> #[trigger] self.wagers_committed@[k],
            decreases n - i,
        {
            if !self.wagers_committed[i] {
                return false;
            }
            i += 1;
        }
        true
    }

    /// Each participant with the amount it has at stake.
    pub fn resolved_wagers(&self) -> (r: Vec<(TeamId, u32)>)
        requires
            self.wf(),
        ensures
            wager_pairs(r@) == self.stakes(),
    {
        let n = self.participants.len();
        let mut r: Vec<(TeamId, u32)> = Vec::new();
        let mut i: usize = 0;
        while i < n
            invariant
                self.wf(),
                n == self.participants@.len(),
                i <= n,
                r@.len() == i,
                forall|k: int|
                    0 <= k < i ==> #[trigger] wager_pairs(r@)[k] == (
                        self.participants@[k]@,
                        self.wager_amounts@[k],
                    ),
            decreases n - i,
        {
            let ghost before = wager_pairs(r@);
            r.push((self.participants[i].duplicate(), self.wager_amounts[i]));
            proof {
                assert forall|k: int| 0 <= k < i + 1 implies #[trigger] wager_pairs(r@)[k] == (
                    self.participants@[k]@,
                    self.wager_amounts@[k],
                ) by {
                    if k < i {
                        assert(wager_pairs(r@)[k] == before[k]);
                    }
                }
            }
            i += 1;
        }
        assert(wager_pairs(r@) =~= self.stakes());
        r
    }

    /// Announces the challenge, then tells each team of the roster either
    /// how much it may wager or to wait.
    pub fn on_begin(&mut self, teams: &Vec<Team>, out: &mut Vec<Action>)
        requires
            old(self).wf(),
        ensures
            *final(self) == *old(self),
            extends(old(out)@, final(out)@),
            begin_emits(*old(self), roster(teams@), emitted(old(out)@, final(out)@)),
    {
        let ghost out0 = out@;
        out.push(Action::PlaySound(Sound::Challenge));
        out.push(Action::Say(Recipient::AllTeams, Message::WagerBegins(self.question.category.clone())));
        let n = teams.len();
        let mut k: usize = 0;
        while k < n
            invariant
                n == teams@.len(),
                k <= n,
                *self == *old(self),
                extends(out0, out@),
                emitted(out0, out@).len() == 2 + k,
                emitted(out0, out@)[0] == Action::PlaySound(Sound::Challenge),
                emitted(out0, out@)[1] matches Action::Say(
                    Recipient::AllTeams,
                    Message::WagerBegins(c),
                ) && c@ == self.question.category@,
                forall|i: int|
                    0 <= i < k ==> tells_part(
                        #[trigger] emitted(out0, out@)[2 + i],
                        has_id(ids_of(self.participants@), roster(teams@)[i].id),
                        roster(teams@)[i].id,
                        self.question.score_value,
                        wager_cap(
                            roster(teams@),
                            roster(teams@)[i].id,
                            self.max_question_score_value,
                        ),
                    ),
            decreases n - k,
        {
            let ghost before = emitted(out0, out@);
            assert(roster(teams@)[k as int].id == teams@[k as int].id@);
            if find_id(&self.participants, &teams[k].id).is_some() {
                let cap = self.get_wager_cap(teams, &teams[k].id);
                out.push(
                    Action::Say(
                        Recipient::Team(teams[k].id.duplicate()),
                        Message::WagerRules(self.question.score_value, cap),
                    ),
                );
            } else {
                out.push(Action::Say(Recipient::Team(teams[k].id.duplicate()), Message::WagerWait));
            }
            proof {
                let e = emitted(out0, out@);
                assert(e.len() == before.len() + 1);
                assert forall|j: int| 0 <= j < before.len() implies e[j] == before[j] by {}
            }
            k += 1;
        }
    }

    /// Lets `dt` pass. While wagers are outstanding, a warning is given as
    /// the time left falls to thirty and to ten seconds.
    pub fn on_tick(&mut self, dt: u64, out: &mut Vec<Action>)
        ensures
            *final(self) == (WagerState {
                time_elapsed: clock_after(old(self).time_elapsed, dt),
                ..*old(self)
            }),
            extends(old(out)@, final(out)@),
            tick_emits(*old(self), dt, emitted(old(out)@, final(out)@)),
    {
        let before = remaining(self.time_limit, self.time_elapsed);
        self.time_elapsed = advance_clock(self.time_elapsed, dt);
        let after = remaining(self.time_limit, self.time_elapsed);
        assert(self.wagers_committed@ == old(self).wagers_committed@);
        assert(self.all_wagered() == old(self).all_wagered());
        if !self.did_every_team_wager() {
            match time_warning(before, after) {
                Some(ms) => {
                    out.push(Action::Say(Recipient::AllTeams, Message::TimeRemaining(ms)));
                    assert(emitted(old(out)@, out@)[0] == out@.last());
                },
                None => {},
            }
        }
    }

    /// Tells every team what each participant has at stake.
    pub fn on_end(&mut self, out: &mut Vec<Action>)
        requires
            old(self).wf(),
        ensures
            *final(self) == *old(self),
            final(out)@.len() == old(out)@.len() + 1,
            extends(old(out)@, final(out)@),
            final(out)@.last() matches Action::Say(Recipient::AllTeams, Message::WagerResults(v))
                && wager_pairs(v@) == old(self).stakes(),
    {
        let wagers = self.resolved_wagers();
        out.push(Action::Say(Recipient::AllTeams, Message::WagerResults(wagers)));
    }

    /// Over once every participant has wagered or the time limit is reached.
    pub fn is_over(&self) -> (r: bool)
        ensures
            r == (self.time_elapsed >= self.time_limit || self.all_wagered()),
    {
        self.time_elapsed >= self.time_limit || self.did_every_team_wager()
    }
}

} // verus!
