use vstd::prelude::*;
use crate::definition::{accepts, texts, Question};
use crate::error::GameError;
use crate::output::{
    emitted, extends, guess_pairs, plays_song, tells_scores, tells_time_left, lemma_extends_keeps,
    lemma_extends_twice, tells_answer, tells_guess, tells_guesses, tells_time_up, Action, Message,
    Recipient, Sound,
};
use crate::phase::cooldown::{
    advance_clock, clock_after, remaining, time_left, time_warning, warning_due,
};
use crate::team::{
    add_to_team, lemma_score_added_same_members, same_members, clamp_score, score_recap,
    with_score_added, find_id, find_team, has_id, has_team, id_index, ids_of, roster, team_index,
    Team, TeamId, TeamView,
};
use crate::text::sanitized_answer;

verus! {

/// What came of one guess.
#[derive(Clone, Debug)]
pub struct GuessResult {
    pub guess: String,
    pub score_delta: i32,
    pub is_correct: bool,
    pub is_first_correct: bool,
}

/// A question that is being asked.
#[derive(Debug)]
pub struct QuestionState {
    pub question: Question,
    pub time_elapsed: u64,
    pub default_time_limit: u64,
    /// The teams that may answer.
    pub participants: Vec<TeamId>,
    /// For each participant, in the same order, what it guessed.
    pub answers: Vec<Option<GuessResult>>,
    /// What the teams wagered, where the question is a challenge.
    pub wagers: Option<Vec<(TeamId, u32)>>,
    pub countdown_started: bool,
    pub song_started: bool,
}

/// A score value as points: values beyond `i32` count as its maximum.
pub open spec fn points_of(value: u32) -> int {
    if value > i32::MAX {
        i32::MAX as int
    } else {
        value as int
    }
}

/// `points_of`, computed.
pub fn to_points(value: u32) -> (r: i32)
    ensures
        r == points_of(value),
{
    if value > i32::MAX as u32 {
        i32::MAX
    } else {
        value as i32
    }
}

/// The amount that `team` wagered: that of its first entry in `wagers`.
pub open spec fn wager_of(wagers: Seq<(TeamId, u32)>, team: Seq<char>) -> Option<u32>
    decreases wagers.len(),
{
    if wagers.len() == 0 {
        None
    } else if wagers[0].0@ == team {
        Some(wagers[0].1)
    } else {
        wager_of(wagers.drop_first(), team)
    }
}

/// The points at stake for a guess. `value` is the question's value or the
/// team's wager; it counts in full for the first guess of the question and
/// where wagers are in effect, and by half, rounded towards zero, otherwise.
pub open spec fn stake(value: u32, first_guess: bool, wagered: bool) -> int {
    if first_guess || wagered {
        points_of(value)
    } else {
        points_of(value) / 2
    }
}

/// The points a guess wins or costs.
pub open spec fn score_delta(value: u32, first_guess: bool, wagered: bool, correct: bool) -> int {
    if correct {
        stake(value, first_guess, wagered)
    } else {
        -stake(value, first_guess, wagered)
    }
}

/// `wager_of`, computed.
pub fn find_wager(wagers: &Vec<(TeamId, u32)>, team: &TeamId) -> (r: Option<u32>)
    ensures
        r == wager_of(wagers@, team@),
{
    let n = wagers.len();
    let mut i: usize = 0;
    assert(wagers@.skip(0) =~= wagers@);
    while i < n
        invariant
            n == wagers@.len(),
            i <= n,
            wager_of(wagers@, team@) == wager_of(wagers@.skip(i as int), team@),
        decreases n - i,
    {
        proof {
            assert(wagers@.skip(i as int).drop_first() =~= wagers@.skip(i + 1));
            assert(wagers@.skip(i as int)[0] == wagers@[i as int]);
        }
        if wagers[i].0.same(team) {
            return Some(wagers[i].1);
        }
        i += 1;
    }
    None
}

/// The guesses made so far among the first `n` participants, each with the
/// team that made it, in the order of the participants.
pub open spec fn revealed(
    ids: Seq<TeamId>,
    answers: Seq<Option<GuessResult>>,
    n: int,
) -> Seq<(Seq<char>, Seq<char>)>
    decreases n,
{
    if n <= 0 {
        Seq::empty()
    } else {
        match answers[n - 1] {
            Some(g) => revealed(ids, answers, n - 1).push((ids[n - 1]@, g.guess@)),
            None => revealed(ids, answers, n - 1),
        }
    }
}

/// The roster after each of the first `n` participants that did not guess
/// has lost what it had at stake, in the order of the participants.
pub open spec fn penalized(r: Seq<TeamView>, state: QuestionState, n: int) -> Seq<TeamView>
    decreases n,
{
    if n <= 0 {
        r
    } else if state.answers@[n - 1] is None {
        with_score_added(
            penalized(r, state, n - 1),
            state.participants@[n - 1]@,
            -state.stake_for(state.participants@[n - 1]@),
        )
    } else {
        penalized(r, state, n - 1)
    }
}

/// The roster once the question has ended: where time ran out on a
/// question with wagers, the participants that did not guess are penalized.
pub open spec fn settled(r: Seq<TeamView>, state: QuestionState) -> Seq<TeamView> {
    if !state.all_guessed() && state.wagers is Some {
        penalized(r, state, state.answers@.len() as int)
    } else {
        r
    }
}

/// The points that a guess of `team` with the text `guess` wins or costs
/// as things stand.
pub open spec fn delta_for(state: QuestionState, team: Seq<char>, guess: Seq<char>) -> int {
    score_delta(
        state.value_for(team),
        !state.any_guess(),
        state.wagers is Some,
        accepts(texts(state.question.acceptable_answers@), sanitized_answer(guess)),
    )
}

/// Whether a guess with the text `guess` is the first correct one.
pub open spec fn first_correct(state: QuestionState, guess: Seq<char>) -> bool {
    accepts(texts(state.question.acceptable_answers@), sanitized_answer(guess))
        && !state.correctly_guessed()
}

/// Whether `after` is `before` with the guess of `team` recorded in its slot.
pub open spec fn recorded(
    before: QuestionState,
    team: Seq<char>,
    guess: Seq<char>,
    after: QuestionState,
) -> bool {
    let slot = id_index(ids_of(before.participants@), team);
    let correct = accepts(texts(before.question.acceptable_answers@), sanitized_answer(guess));
    &&& after.answers@.len() == before.answers@.len()
    &&& after.answers@[slot] matches Some(a) && a.guess@ == guess && a.score_delta == delta_for(
        before,
        team,
        guess,
    ) && a.is_correct == correct && a.is_first_correct == (correct
        && !before.correctly_guessed())
    &&& forall|j: int|
        0 <= j < before.answers@.len() && j != slot ==> after.answers@[j] == before.answers@[j]
    &&& after.question == before.question
    &&& after.time_elapsed == before.time_elapsed
    &&& after.default_time_limit == before.default_time_limit
    &&& after.participants == before.participants
    &&& after.wagers == before.wagers
    &&& after.countdown_started == before.countdown_started
    &&& after.song_started == before.song_started
}

/// Penalties leave every team and its players in place.
pub proof fn lemma_penalized_same_members(r: Seq<TeamView>, state: QuestionState, n: int)
    ensures
        same_members(r, penalized(r, state, n)),
    decreases n,
{
    if n > 0 {
        lemma_penalized_same_members(r, state, n - 1);
        if state.answers@[n - 1] is None {
            lemma_score_added_same_members(
                penalized(r, state, n - 1),
                state.participants@[n - 1]@,
                -state.stake_for(state.participants@[n - 1]@),
            );
        }
    }
}

/// The end of a question leaves every team and its players in place.
pub proof fn lemma_settled_same_members(r: Seq<TeamView>, state: QuestionState)
    ensures
        same_members(r, settled(r, state)),
{
    lemma_penalized_same_members(r, state, state.answers@.len() as int);
}

/// Whether `e` is what a guess emits that took the match from `before` to
/// `after`: the sound and the news of the guess, with the points it won or
/// cost, and, once every participant has guessed, the answer and all
/// guesses.
pub open spec fn guess_emits(
    before: QuestionState,
    after: QuestionState,
    team: Seq<char>,
    guess: Seq<char>,
    e: Seq<Action>,
) -> bool {
    let correct = accepts(texts(before.question.acceptable_answers@), sanitized_answer(guess));
    let delta = delta_for(before, team, guess);
    &&& e.len() >= 2
    &&& e[0] == Action::PlaySound(
        if correct {
            Sound::Correct
        } else {
            Sound::Incorrect
        },
    )
    &&& tells_guess(
        e[1],
        correct,
        team,
        if correct {
            delta
        } else {
            -delta
        },
    )
    &&& if after.all_guessed() {
        e.len() == 4 && tells_answer(e[2], before.question.key()) && tells_guesses(
            e[3],
            revealed(after.participants@, after.answers@, after.answers@.len() as int),
        )
    } else {
        e.len() == 2
    }
}

/// Whether `e` is what a tick of `dt` emits: while guesses are outstanding,
/// the warning that is due, if any; then the song, unless it was asked for
/// before or a countdown is still running.
pub open spec fn tick_emits(
    state: QuestionState,
    dt: u64,
    countdown_finished: bool,
    e: Seq<Action>,
) -> bool {
    let warning = if state.all_guessed() {
        None
    } else {
        warning_due(
            time_left(state.time_limit(), state.time_elapsed),
            time_left(state.time_limit(), clock_after(state.time_elapsed, dt)),
        )
    };
    let starts = !state.song_started && (!state.countdown_started || countdown_finished);
    &&& e.len() == (if warning is Some {
        1int
    } else {
        0
    }) + (if starts {
        1int
    } else {
        0
    })
    &&& warning matches Some(ms) ==> tells_time_left(e[0], ms)
    &&& starts ==> plays_song(e.last(), state.question.url@)
}

/// The names of those of the first `n` teams of the roster that take part,
/// in the order of the roster.
pub open spec fn challenged(r: Seq<TeamView>, ids: Seq<Seq<char>>, n: int) -> Seq<Seq<char>>
    decreases n,
{
    if n <= 0 {
        Seq::empty()
    } else if has_id(ids, r[n - 1].id) {
        challenged(r, ids, n - 1).push(r[n - 1].id)
    } else {
        challenged(r, ids, n - 1)
    }
}

/// Whether `a` tells `team` that a challenge from `category` begins.
pub open spec fn tells_challenge(a: Action, team: Seq<char>, category: Seq<char>) -> bool {
    a matches Action::Say(Recipient::Team(t), Message::ChallengeSongBegins(c)) && t@ == team
        && c@ == category
}

/// Whether `e` is what the beginning of the question emits: the countdown
/// sound, then the question for every team, or, where wagers are in
/// effect, the challenge for each team of the roster that takes part.
pub open spec fn begin_emits(state: QuestionState, r: Seq<TeamView>, e: Seq<Action>) -> bool {
    &&& e.len() >= 1
    &&& e[0] == Action::PlaySound(Sound::Question)
    &&& if state.wagers is None {
        e.len() == 2 && (e[1] matches Action::Say(Recipient::AllTeams, Message::QuestionBegins(q))
            && q.key() == state.question.key())
    } else {
        let told = challenged(r, ids_of(state.participants@), r.len() as int);
        &&& e.len() == 1 + told.len()
        &&& forall|j: int|
            0 <= j < told.len() ==> tells_challenge(
                #[trigger] e[1 + j],
                told[j],
                state.question.category@,
            )
    }
}

/// The names of those of the first `n` participants that have not guessed.
pub open spec fn unanswered(state: QuestionState, n: int) -> Seq<Seq<char>>
    decreases n,
{
    if n <= 0 {
        Seq::empty()
    } else if state.answers@[n - 1] is None {
        unanswered(state, n - 1).push(state.participants@[n - 1]@)
    } else {
        unanswered(state, n - 1)
    }
}

/// Whether `a` tells every team that `team` loses `points` for not
/// answering a challenge.
pub open spec fn tells_penalty(a: Action, team: Seq<char>, points: int) -> bool {
    a matches Action::Say(Recipient::AllTeams, Message::ChallengeSongTimeUp(t, p)) && t@ == team
        && p == points
}

/// How many messages reveal the guesses: one where there is a guess.
pub open spec fn reveal_count(state: QuestionState) -> int {
    if state.any_guess() {
        1
    } else {
        0
    }
}

/// Whether `e` is what the end of the question emits, `r1` being the
/// roster it leaves: the audio is stopped; where guesses are outstanding,
/// time is called, the guesses made are revealed, and, where wagers are in
/// effect, each participant that has not guessed is told its loss; last
/// come the ranked scores.
pub open spec fn end_emits(state: QuestionState, r1: Seq<TeamView>, e: Seq<Action>) -> bool {
    &&& e.len() >= 2
    &&& e[0] == Action::StopAudio
    &&& tells_scores(e.last(), r1)
    &&& if state.all_guessed() {
        e.len() == 2
    } else {
        let reveal = reveal_count(state);
        let missing = if state.wagers is Some {
            unanswered(state, state.answers@.len() as int)
        } else {
            Seq::empty()
        };
        &&& e.len() == 4 + reveal + missing.len()
        &&& e[1] == Action::PlaySound(Sound::TimeUp)
        &&& tells_time_up(e[2], state.question.key())
        &&& reveal == 1 ==> tells_guesses(
            e[3],
            revealed(state.participants@, state.answers@, state.answers@.len() as int),
        )
        &&& forall|j: int|
            0 <= j < missing.len() ==> tells_penalty(
                #[trigger] e[3 + reveal + j],
                missing[j],
                state.stake_for(missing[j]),
            )
    }
}

/// What `reveal_guesses` emits: nothing where nobody has guessed, else one
/// message with every guess.
pub open spec fn reveal_emits(state: QuestionState, e: Seq<Action>) -> bool {
    if state.any_guess() {
        e.len() == 1 && tells_guesses(
            e[0],
            revealed(state.participants@, state.answers@, state.answers@.len() as int),
        )
    } else {
        e.len() == 0
    }
}

impl QuestionState {
    /// There is one answer slot for each participant.
    pub open spec fn wf(&self) -> bool {
        self.answers@.len() == self.participants@.len()
    }

    /// Whether any team has guessed yet.
    pub open spec fn any_guess(&self) -> bool {
        exists|k: int| 0 <= k < self.answers@.len() && #[trigger] self.answers@[k] is Some
    }

    /// Whether some team has guessed correctly.
    pub open spec fn correctly_guessed(&self) -> bool {
        exists|k: int|
            0 <= k < self.answers@.len() && (#[trigger] self.answers@[k] matches Some(g)
                && g.is_correct)
    }

    /// Whether every participant has guessed.
    pub open spec fn all_guessed(&self) -> bool {
        forall|k: int| 0 <= k < self.answers@.len() ==> #[trigger] self.answers@[k] is Some
    }

    /// The question's value for `team`: its wager where it has one.
    pub open spec fn value_for(&self, team: Seq<char>) -> u32 {
        match self.wagers {
            Some(w) => match wager_of(w@, team) {
                Some(amount) => amount,
                None => self.question.score_value,
            },
            None => self.question.score_value,
        }
    }

    /// The points at stake for `team` as things stand.
    pub open spec fn stake_for(&self, team: Seq<char>) -> int {
        stake(self.value_for(team), !self.any_guess(), self.wagers is Some)
    }

    /// The time limit in effect: the question's own where it has one.
    pub open spec fn time_limit(&self) -> u64 {
        match self.question.duration {
            Some(d) => d,
            None => self.default_time_limit,
        }
    }

    /// Why a guess of `team` is refused, if it is.
    pub open spec fn guess_refusal(&self, r: Seq<TeamView>, team: Seq<char>) -> Option<GameError> {
        let ids = ids_of(self.participants@);
        if !has_id(ids, team) {
            Some(GameError::NotAParticipant)
        } else if self.answers@[id_index(ids, team)] is Some {
            Some(GameError::AlreadyGuessed)
        } else if !has_team(r, team) {
            Some(GameError::TeamNotFound)
        } else {
            None
        }
    }

    /// A question about to be asked of `participants`, each counted once.
    pub fn new(
        question: Question,
        duration: u64,
        participants: Vec<TeamId>,
        wagers: Option<Vec<(TeamId, u32)>>,
    ) -> (r: QuestionState)
        ensures
            r.wf(),
            r.question == question,
            r.time_elapsed == 0,
            r.default_time_limit == duration,
            r.wagers == wagers,
            !r.countdown_started,
            !r.song_started,
            !r.any_guess(),
            crate::team::distinct(ids_of(r.participants@)),
            forall|k: int|
                0 <= k < participants@.len() ==> has_id(
                    ids_of(r.participants@),
                    #[trigger] ids_of(participants@)[k],
                ),
            forall|m: int|
                0 <= m < r.participants@.len() ==> has_id(
                    ids_of(participants@),
                    #[trigger] ids_of(r.participants@)[m],
                ),
    {
        let participants = crate::team::distinct_ids(participants);
        let n = participants.len();
        let mut answers: Vec<Option<GuessResult>> = Vec::new();
        let mut i: usize = 0;
        while i < n
            invariant
                i <= n,
                answers@.len() == i,
                forall|k: int| 0 <= k < i ==> #[trigger] answers@[k] is None,
            decreases n - i,
        {
            answers.push(None);
            i += 1;
        }
        QuestionState {
            question,
            time_elapsed: 0,
            default_time_limit: duration,
            participants,
            answers,
            wagers,
            countdown_started: false,
            song_started: false,
        }
    }

    /// `correctly_guessed`, computed.
    pub fn was_correctly_guessed(&self) -> (r: bool)
        ensures
            r == self.correctly_guessed(),
    {
        let n = self.answers.len();
        let mut i: usize = 0;
        while i < n
            invariant
                n == self.answers@.len(),
                i <= n,
                forall|k: int|
                    0 <= k < i ==> !(#[trigger] self.answers@[k] matches Some(g) && g.is_correct),
            decreases n - i,
        {
            let hit = match &self.answers[i] {
                Some(g) => g.is_correct,
                None => false,
            };
            if hit {
                return true;
            }
            i += 1;
        }
        false
    }

    /// `any_guess`, computed.
    pub fn has_any_guess(&self) -> (r: bool)
        ensures
            r == self.any_guess(),
    {
        let n = self.answers.len();
        let mut i: usize = 0;
        while i < n
            invariant
                n == self.answers@.len(),
                i <= n,
                forall|k: int| 0 <= k < i ==> #[trigger] self.answers@[k] is None,
            decreases n - i,
        {
            if self.answers[i].is_some() {
                return true;
            }
            i += 1;
        }
        false
    }

    /// `all_guessed`, computed.
    pub fn did_every_team_submit_a_guess(&self) -> (r: bool)
        ensures
            r == self.all_guessed(),
    {
        let n = self.answers.len();
        let mut i: usize = 0;
        while i < n
            invariant
                n == self.answers@.len(),
                i <= n,
                forall|k: int| 0 <= k < i ==> #[trigger] self.answers@[k] is Some,
            decreases n - i,
        {
            if self.answers[i].is_none() {
                return false;
            }
            i += 1;
        }
        true
    }

    /// The points at stake for `team_id` as things stand.
    pub fn compute_score_value(&self, team_id: &TeamId) -> (r: i32)
        ensures
            r == self.stake_for(team_id@),
            0 <= r,
    {
        let value = match &self.wagers {
            Some(w) => match find_wager(w, team_id) {
                Some(amount) => amount,
                None => self.question.score_value,
            },
            None => self.question.score_value,
        };
        let points = to_points(value);
        let is_first_guess = !self.has_any_guess();
        if is_first_guess || self.wagers.is_some() {
            points
        } else {
            points / 2
        }
    }

    /// The points a guess of `team_id` wins or costs as things stand.
    pub fn compute_score_delta(&self, team_id: &TeamId, correct: bool) -> (r: i32)
        ensures
            r == score_delta(
                self.value_for(team_id@),
                !self.any_guess(),
                self.wagers is Some,
                correct,
            ),
    {
        let score_value = self.compute_score_value(team_id);
        if correct {
            score_value
        } else {
            -score_value
        }
    }

    /// Tells every team what each team guessed, if any did.
    pub fn reveal_guesses(&self, out: &mut Vec<Action>)
        requires
            self.wf(),
        ensures
            extends(old(out)@, final(out)@),
            reveal_emits(*self, emitted(old(out)@, final(out)@)),
    {
        if !self.has_any_guess() {
            assert(emitted(old(out)@, out@) =~= Seq::empty());
            return ;
        }
        let n = self.answers.len();
        let mut guesses: Vec<(TeamId, String)> = Vec::new();
        let mut i: usize = 0;
        while i < n
            invariant
                self.wf(),
                n == self.answers@.len(),
                i <= n,
                guess_pairs(guesses@) == revealed(self.participants@, self.answers@, i as int),
            decreases n - i,
        {
            match &self.answers[i] {
                Some(g) => {
                    let pair = (self.participants[i].duplicate(), g.guess.clone());
                    proof {
                        guesses@.lemma_push_map_commute(|p: (TeamId, String)| (p.0@, p.1@), pair);
                    }
                    guesses.push(pair);
                },
                None => {},
            }
            i += 1;
        }
        out.push(Action::Say(Recipient::AllTeams, Message::GuessesReveal(guesses)));
        assert(emitted(old(out)@, out@) =~= seq![out@.last()]);
    }

    /// Takes the guess of a team. A team that does not take part, has
    /// guessed already or is not on the roster is refused, and nothing
    /// changes. Otherwise the guess is judged, recorded in the team's slot
    /// and scored on the roster, and the teams are told; once every
    /// participant has guessed, the answer and all guesses are revealed.
    pub fn guess(
        &mut self,
        teams: &mut Vec<Team>,
        team_id: &TeamId,
        guess: &str,
        out: &mut Vec<Action>,
    ) -> (r: Result<GuessResult, GameError>)
        requires
            old(self).wf(),
        ensures
            final(self).wf(),
            match old(self).guess_refusal(roster(old(teams)@), team_id@) {
                Some(e) => {
                    &&& r is Err && r->Err_0 == e
                    &&& *final(self) == *old(self)
                    &&& *final(teams) == *old(teams)
                    &&& final(out)@ == old(out)@
                },
                None => {
                    let slot = id_index(ids_of(old(self).participants@), team_id@);
                    let k = team_index(roster(old(teams)@), team_id@);
                    let e = emitted(old(out)@, final(out)@);
                    &&& r is Ok
                    &&& r->Ok_0.guess@ == guess@
                    &&& r->Ok_0.is_correct == accepts(
                        texts(old(self).question.acceptable_answers@),
                        sanitized_answer(guess@),
                    )
                    &&& r->Ok_0.score_delta == score_delta(
                        old(self).value_for(team_id@),
                        !old(self).any_guess(),
                        old(self).wagers is Some,
                        r->Ok_0.is_correct,
                    )
                    &&& r->Ok_0.is_first_correct == (r->Ok_0.is_correct && !old(
                        self,
                    ).correctly_guessed())
                    &&& final(self).answers@.len() == old(self).answers@.len()
                    &&& final(self).answers@[slot] matches Some(a) && a.guess@ == guess@
                        && a.score_delta == r->Ok_0.score_delta && a.is_correct
                        == r->Ok_0.is_correct && a.is_first_correct == r->Ok_0.is_first_correct
                    &&& forall|j: int|
                        0 <= j < old(self).answers@.len() && j != slot ==> final(self).answers@[j]
                            == old(self).answers@[j]
                    &&& final(self).question == old(self).question
                    &&& final(self).time_elapsed == old(self).time_elapsed
                    &&& final(self).default_time_limit == old(self).default_time_limit
                    &&& final(self).participants == old(self).participants
                    &&& final(self).wagers == old(self).wagers
                    &&& final(self).countdown_started == old(self).countdown_started
                    &&& final(self).song_started == old(self).song_started
                    &&& roster(final(teams)@) == roster(old(teams)@).update(
                        k,
                        TeamView {
                            score: clamp_score(roster(old(teams)@)[k].score + r->Ok_0.score_delta),
                            ..roster(old(teams)@)[k]
                        },
                    )
                    &&& extends(old(out)@, final(out)@)
                    &&& guess_emits(*old(self), *final(self), team_id@, guess@, e)
                },
            },
    {
        let slot = match find_id(&self.participants, team_id) {
            Some(slot) => slot,
            None => {
                return Err(GameError::NotAParticipant);
            },
        };
        if self.answers[slot].is_some() {
            return Err(GameError::AlreadyGuessed);
        }
        let k = match find_team(teams, team_id) {
            Some(k) => k,
            None => {
                return Err(GameError::TeamNotFound);
            },
        };
        let is_correct = self.question.is_guess_correct(guess);
        let delta = self.compute_score_delta(team_id, is_correct);
        let is_first_correct = is_correct && !self.was_correctly_guessed();
        let recorded = GuessResult {
            guess: guess.to_owned(),
            is_correct,
            score_delta: delta,
            is_first_correct,
        };
        let guess_result = GuessResult {
            guess: guess.to_owned(),
            is_correct,
            score_delta: delta,
            is_first_correct,
        };
        self.answers[slot] = Some(recorded);
        teams[k].update_score(delta);
        proof {
            assert(roster(teams@) =~= roster(old(teams)@).update(
                k as int,
                TeamView {
                    score: clamp_score(roster(old(teams)@)[k as int].score + delta),
                    ..roster(old(teams)@)[k as int]
                },
            ));
        }
        let ghost out0 = out@;
        if is_correct {
            out.push(Action::PlaySound(Sound::Correct));
            out.push(Action::Say(Recipient::AllTeams, Message::GuessCorrect(team_id.duplicate(), delta)));
        } else {
            out.push(Action::PlaySound(Sound::Incorrect));
            out.push(
                Action::Say(Recipient::AllTeams, Message::GuessIncorrect(team_id.duplicate(), -delta)),
            );
        }
        let ghost out2 = out@;
        assert(self.any_guess()) by {
            assert(self.answers@[slot as int] is Some);
        }
        if self.did_every_team_submit_a_guess() {
            out.push(Action::Say(Recipient::AllTeams, Message::AnswerReveal(self.question.duplicate())));
            let ghost out3 = out@;
            self.reveal_guesses(out);
            proof {
                let e = emitted(out0, out@);
                let tail = emitted(out3, out@);
                lemma_extends_keeps(out3, out@, out3.len() - 1);
                lemma_extends_keeps(out3, out@, out3.len() - 2);
                lemma_extends_keeps(out3, out@, out3.len() - 3);
                assert(tail.len() == 1);
                assert(out@.len() == out3.len() + 1);
                assert(e[3] == tail[0]);
                assert(e[2] == out3[out3.len() - 1]);
                assert(e[1] == out2[out2.len() - 1]);
                assert(e[0] == out2[out2.len() - 2]);
            }
        } else {
            proof {
                let e = emitted(out0, out@);
                assert(e[1] == out2[out2.len() - 1]);
                assert(e[0] == out2[out2.len() - 2]);
            }
        }
        Ok(guess_result)
    }

    /// Tells every team the scores, ranked.
    pub fn print_scores(&self, teams: &Vec<Team>, out: &mut Vec<Action>)
        ensures
            final(out)@.len() == old(out)@.len() + 1,
            extends(old(out)@, final(out)@),
            tells_scores(final(out)@.last(), roster(teams@)),
    {
        let recap = score_recap(teams);
        out.push(Action::Say(Recipient::AllTeams, Message::ScoresRecap(recap)));
    }

    /// Starts the countdown sound and announces the question: to every team,
    /// or, where wagers are in effect, to each participant on the roster.
    pub fn on_begin(&mut self, teams: &Vec<Team>, out: &mut Vec<Action>)
        requires
            old(self).wf(),
        ensures
            *final(self) == (QuestionState { countdown_started: true, ..*old(self) }),
            extends(old(out)@, final(out)@),
            begin_emits(*old(self), roster(teams@), emitted(old(out)@, final(out)@)),
    {
        let ghost out0 = out@;
        let ghost r = roster(teams@);
        let ghost ids = ids_of(self.participants@);
        out.push(Action::PlaySound(Sound::Question));
        self.countdown_started = true;
        if self.wagers.is_some() {
            let n = teams.len();
            let mut i: usize = 0;
            while i < n
                invariant
                    n == teams@.len(),
                    r == roster(teams@),
                    ids == ids_of(self.participants@),
                    i <= n,
                    *self == (QuestionState { countdown_started: true, ..*old(self) }),
                    extends(out0, out@),
                    emitted(out0, out@).len() == 1 + challenged(r, ids, i as int).len(),
                    emitted(out0, out@)[0] == Action::PlaySound(Sound::Question),
                    forall|j: int|
                        0 <= j < challenged(r, ids, i as int).len() ==> tells_challenge(
                            #[trigger] emitted(out0, out@)[1 + j],
                            challenged(r, ids, i as int)[j],
                            self.question.category@,
                        ),
                decreases n - i,
            {
                assert(r[i as int].id == teams@[i as int].id@);
                if find_id(&self.participants, &teams[i].id).is_some() {
                    let ghost before = emitted(out0, out@);
                    out.push(
                        Action::Say(
                            Recipient::Team(teams[i].id.duplicate()),
                            Message::ChallengeSongBegins(self.question.category.clone()),
                        ),
                    );
                    proof {
                        let e = emitted(out0, out@);
                        let told = challenged(r, ids, i + 1);
                        assert(e.len() == before.len() + 1);
                        assert forall|j: int| 0 <= j < told.len() implies tells_challenge(
                            #[trigger] e[1 + j],
                            told[j],
                            self.question.category@,
                        ) by {
                            if j < told.len() - 1 {
                                assert(e[1 + j] == before[1 + j]);
                            }
                        }
                    }
                }
                i += 1;
            }
        } else {
            out.push(Action::Say(Recipient::AllTeams, Message::QuestionBegins(self.question.duplicate())));
        }
    }

    /// Lets `dt` pass. While guesses are outstanding, a warning is given as
    /// the time left falls to thirty and to ten seconds. The song is asked
    /// for once, as soon as no countdown is running.
    pub fn on_tick(&mut self, dt: u64, countdown_finished: bool, out: &mut Vec<Action>)
        requires
            old(self).wf(),
        ensures
            *final(self) == (QuestionState {
                time_elapsed: clock_after(old(self).time_elapsed, dt),
                song_started: old(self).song_started || !old(self).countdown_started
                    || countdown_finished,
                ..*old(self)
            }),
            extends(old(out)@, final(out)@),
            tick_emits(*old(self), dt, countdown_finished, emitted(old(out)@, final(out)@)),
    {
        let time_limit = self.get_time_limit();
        let before = remaining(time_limit, self.time_elapsed);
        self.time_elapsed = advance_clock(self.time_elapsed, dt);
        let after = remaining(time_limit, self.time_elapsed);
        if !self.did_every_team_submit_a_guess() {
            match time_warning(before, after) {
                Some(ms) => {
                    out.push(Action::Say(Recipient::AllTeams, Message::TimeRemaining(ms)));
                },
                None => {},
            }
        }
        if !self.song_started && (!self.countdown_started || countdown_finished) {
            out.push(Action::PlaySong(self.question.url.clone()));
            self.song_started = true;
        }
    }

    /// Ends the question. The audio is stopped. Where participants have not
    /// guessed, time is called and the guesses are revealed, and where
    /// wagers are in effect each of them loses what it had at stake and is
    /// told so. Last, the ranked scores are announced.
    pub fn on_end(&mut self, teams: &mut Vec<Team>, out: &mut Vec<Action>)
        requires
            old(self).wf(),
        ensures
            *final(self) == *old(self),
            roster(final(teams)@) == settled(roster(old(teams)@), *old(self)),
            extends(old(out)@, final(out)@),
            end_emits(*old(self), roster(final(teams)@), emitted(old(out)@, final(out)@)),
    {
        let ghost out0 = out@;
        out.push(Action::StopAudio);
        if !self.did_every_team_submit_a_guess() {
            out.push(Action::PlaySound(Sound::TimeUp));
            out.push(Action::Say(Recipient::AllTeams, Message::TimeUp(self.question.duplicate())));
            let ghost out3 = out@;
            self.reveal_guesses(out);
            let ghost reveal = reveal_count(*self);
            proof {
                lemma_extends_twice(out0, out3, out@);
                assert(emitted(out0, out3).len() == 3);
            }
            if self.wagers.is_some() {
                let n = self.participants.len();
                let mut i: usize = 0;
                while i < n
                    invariant
                        self.wf(),
                        *self == *old(self),
                        n == self.participants@.len(),
                        i <= n,
                        reveal == reveal_count(*self),
                        roster(teams@) == penalized(roster(old(teams)@), *self, i as int),
                        extends(out0, out@),
                        emitted(out0, out@).len() == 3 + reveal + unanswered(*self, i as int).len(),
                        emitted(out0, out@)[0] == Action::StopAudio,
                        emitted(out0, out@)[1] == Action::PlaySound(Sound::TimeUp),
                        tells_time_up(emitted(out0, out@)[2], self.question.key()),
                        reveal == 1 ==> tells_guesses(
                            emitted(out0, out@)[3],
                            revealed(
                                self.participants@,
                                self.answers@,
                                self.answers@.len() as int,
                            ),
                        ),
                        forall|j: int|
                            0 <= j < unanswered(*self, i as int).len() ==> tells_penalty(
                                #[trigger] emitted(out0, out@)[3 + reveal + j],
                                unanswered(*self, i as int)[j],
                                self.stake_for(unanswered(*self, i as int)[j]),
                            ),
                    decreases n - i,
                {
                    if self.answers[i].is_none() {
                        let score_value = self.compute_score_value(&self.participants[i]);
                        let ghost before = emitted(out0, out@);
                        add_to_team(teams, &self.participants[i], -score_value);
                        out.push(
                            Action::Say(
                                Recipient::AllTeams,
                                Message::ChallengeSongTimeUp(
                                    self.participants[i].duplicate(),
                                    score_value,
                                ),
                            ),
                        );
                        proof {
                            let e = emitted(out0, out@);
                            let missing = unanswered(*self, i + 1);
                            assert(e.len() == before.len() + 1);
                            assert(e[0] == before[0]);
                            assert(e[1] == before[1]);
                            assert(e[2] == before[2]);
                            if reveal == 1 {
                                assert(e[3] == before[3]);
                            }
                            assert forall|j: int| 0 <= j < missing.len() implies tells_penalty(
                                #[trigger] e[3 + reveal + j],
                                missing[j],
                                self.stake_for(missing[j]),
                            ) by {
                                if j < missing.len() - 1 {
                                    assert(e[3 + reveal + j] == before[3 + reveal + j]);
                                }
                            }
                        }
                    }
                    i += 1;
                }
            }
        }
        let ghost out_before_scores = out@;
        let ghost early = emitted(out0, out_before_scores);
        self.print_scores(teams, out);
        proof {
            lemma_extends_twice(out0, out_before_scores, out@);
            let e = emitted(out0, out@);
            assert(e.len() == early.len() + 1);
            assert forall|j: int| 0 <= j < early.len() implies e[j] == early[j] by {
                crate::output::lemma_extends_keeps(out_before_scores, out@, out0.len() + j);
            }
            assert(e.last() == out@.last());
        }
    }

    /// `time_limit`, computed.
    pub fn get_time_limit(&self) -> (r: u64)
        ensures
            r == self.time_limit(),
    {
        match self.question.duration {
            Some(d) => d,
            None => self.default_time_limit,
        }
    }

    /// Over once every participant has guessed or the time limit is reached.
    pub fn is_over(&self) -> (r: bool)
        ensures
            r == (self.all_guessed() || self.time_elapsed >= self.time_limit()),
    {
        self.time_elapsed >= self.get_time_limit() || self.did_every_team_submit_a_guess()
    }
}

} // verus!
