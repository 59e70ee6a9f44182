use vstd::prelude::*;
use crate::definition::{
    key_of, pool_wf, select_question, selected_at, Question, QuestionKey, QuizDefinition,
};
use crate::error::GameError;
use crate::output::{emitted, extends, lemma_extends_twice, Action, Message, Recipient, Sound};
use crate::phase::cooldown::{clock_after, CooldownState, CooldownStep};
use crate::phase::question::{
    delta_for, end_emits, first_correct, guess_emits, lemma_settled_same_members, recorded, settled,
    QuestionState,
};
use crate::phase::results::{announces_results, ResultsState};
use crate::phase::startup::{is_rules, StartupState};
use crate::phase::vote::{champion_count, is_poll, remaining_category_count, restriction, VoteState};
use crate::phase::wager::{wager_pairs, wager_taken, WagerState};
use crate::preload::PreloadState;
use crate::settings::Settings;
use crate::team::{
    duplicate_ids, has_id, ids_of, names, roster, same_members, team_ids, with_score_added, Team,
    TeamId, TeamView,
};

verus! {

/// The phases of a match.
#[derive(Debug)]
pub enum Phase {
    Startup(StartupState),
    Cooldown(CooldownState),
    Vote(VoteState),
    Wager(WagerState),
    Question(QuestionState),
    Results(ResultsState),
}

/// Which phase a match is in.
#[derive(Clone, Copy, Debug, PartialEq, Eq, Structural)]
pub enum PhaseKind {
    Startup,
    Cooldown,
    Vote,
    Wager,
    Question,
    Results,
}

/// What the world reports with a tick: the time that passed, how the
/// fetching of the media stands, whether the countdown sound has ended,
/// and, for each message that carries a poll, who reacted to each option.
#[derive(Debug)]
pub struct Pulse {
    pub dt: u64,
    pub preload: PreloadState,
    pub countdown_finished: bool,
    pub reads: Vec<Vec<Vec<u64>>>,
}

impl Phase {
    /// Which phase this is.
    pub open spec fn kind(&self) -> PhaseKind {
        match self {
            Phase::Startup(_) => PhaseKind::Startup,
            Phase::Cooldown(_) => PhaseKind::Cooldown,
            Phase::Vote(_) => PhaseKind::Vote,
            Phase::Wager(_) => PhaseKind::Wager,
            Phase::Question(_) => PhaseKind::Question,
            Phase::Results(_) => PhaseKind::Results,
        }
    }

    /// The state of the phase is well-formed.
    pub open spec fn wf(&self) -> bool {
        match self {
            Phase::Vote(s) => s.wf(),
            Phase::Wager(s) => s.wf(),
            Phase::Question(s) => s.wf(),
            _ => true,
        }
    }

    /// Whether the phase has run its course.
    pub open spec fn over(&self) -> bool {
        match self {
            Phase::Startup(s) => match s.preload_state {
                PreloadState::InProgress => false,
                PreloadState::Failure => true,
                PreloadState::Success => s.time_elapsed >= s.time_to_wait,
            },
            Phase::Cooldown(s) => s.step.time_elapsed >= s.step.time_to_wait,
            Phase::Vote(s) => s.time_elapsed >= s.time_to_wait,
            Phase::Wager(s) => s.time_elapsed >= s.time_limit || s.all_wagered(),
            Phase::Question(s) => s.all_guessed() || s.time_elapsed >= s.time_limit(),
            Phase::Results(_) => false,
        }
    }

    /// The phase as it is once its beginning has been announced.
    pub open spec fn begun(self) -> Phase {
        match self {
            Phase::Vote(s) => Phase::Vote(VoteState { poll_posted: true, ..s }),
            Phase::Question(s) => Phase::Question(QuestionState { countdown_started: true, ..s }),
            other => other,
        }
    }

    /// The phase as it is once `pulse` has been taken in.
    pub open spec fn ticked(self, pulse: Pulse) -> Phase {
        match self {
            Phase::Startup(s) => Phase::Startup(
                StartupState {
                    time_elapsed: clock_after(s.time_elapsed, pulse.dt),
                    time_to_wait: s.time_to_wait,
                    preload_state: pulse.preload,
                },
            ),
            Phase::Cooldown(s) => Phase::Cooldown(
                CooldownState {
                    step: CooldownStep {
                        time_elapsed: clock_after(s.step.time_elapsed, pulse.dt),
                        ..s.step
                    },
                },
            ),
            Phase::Vote(s) => Phase::Vote(
                VoteState { time_elapsed: clock_after(s.time_elapsed, pulse.dt), ..s },
            ),
            Phase::Wager(s) => Phase::Wager(
                WagerState { time_elapsed: clock_after(s.time_elapsed, pulse.dt), ..s },
            ),
            Phase::Question(s) => Phase::Question(
                QuestionState {
                    time_elapsed: clock_after(s.time_elapsed, pulse.dt),
                    song_started: s.song_started || !s.countdown_started
                        || pulse.countdown_finished,
                    ..s
                },
            ),
            Phase::Results(s) => Phase::Results(s),
        }
    }

    /// `kind`, computed.
    pub fn get_kind(&self) -> (r: PhaseKind)
        ensures
            r == self.kind(),
    {
        match self {
            Phase::Startup(_) => PhaseKind::Startup,
            Phase::Cooldown(_) => PhaseKind::Cooldown,
            Phase::Vote(_) => PhaseKind::Vote,
            Phase::Wager(_) => PhaseKind::Wager,
            Phase::Question(_) => PhaseKind::Question,
            Phase::Results(_) => PhaseKind::Results,
        }
    }

    /// `over`, computed.
    pub fn is_over(&self) -> (r: bool)
        ensures
            r == self.over(),
    {
        match self {
            Phase::Startup(s) => s.is_over(),
            Phase::Cooldown(s) => s.is_over(),
            Phase::Vote(s) => s.is_over(),
            Phase::Wager(s) => s.is_over(),
            Phase::Question(s) => s.is_over(),
            Phase::Results(s) => s.is_over(),
        }
    }
}

/// A match: its phase, the questions that are left, and who has the
/// initiative. The roster is handed to each operation by the session.
#[derive(Debug)]
pub struct Quiz {
    pub abort: bool,
    pub settings: Settings,
    pub current_phase: Phase,
    pub initiative: Option<TeamId>,
    pub remaining_questions: Vec<Question>,
    pub max_question_score_value: u32,
}

/// Whether `max` is the highest value of the pool; 0 for an empty pool.
pub open spec fn is_max_value(pool: Seq<Question>, max: u32) -> bool {
    &&& forall|i: int| 0 <= i < pool.len() ==> (#[trigger] pool[i]).score_value <= max
    &&& if pool.len() == 0 {
        max == 0
    } else {
        exists|i: int| 0 <= i < pool.len() && (#[trigger] pool[i]).score_value == max
    }
}

/// Whether two lists of ids name the same teams.
pub open spec fn same_teams(a: Seq<Seq<char>>, b: Seq<Seq<char>>) -> bool {
    &&& forall|k: int| 0 <= k < a.len() ==> has_id(b, #[trigger] a[k])
    &&& forall|k: int| 0 <= k < b.len() ==> has_id(a, #[trigger] b[k])
}

/// The teams that take part in a challenge: the initiative team alone
/// where there is one, else every team of the roster.
pub open spec fn challengers(r: Seq<TeamView>, initiative: Option<TeamId>) -> Seq<Seq<char>> {
    match initiative {
        Some(t) => seq![t@],
        None => names(r),
    }
}

/// Whether `w` is the wagering that opens for the challenge `q`.
pub open spec fn opens_wager(
    w: WagerState,
    q: Question,
    r: Seq<TeamView>,
    initiative: Option<TeamId>,
    settings: Settings,
    max_value: u32,
) -> bool {
    &&& w.wf()
    &&& w.question == q
    &&& w.time_elapsed == 0
    &&& w.time_limit == settings.wager_duration
    &&& w.max_question_score_value == max_value
    &&& same_teams(ids_of(w.participants@), challengers(r, initiative))
    &&& forall|k: int|
        0 <= k < w.participants@.len() ==> #[trigger] w.wager_amounts@[k] == q.score_value
            && !w.wagers_committed@[k]
}

/// Whether `s` is the asking of `q` that opens for every team of the
/// roster, its beginning announced.
pub open spec fn opens_question(s: QuestionState, q: Question, r: Seq<TeamView>, settings: Settings) -> bool {
    &&& s.wf()
    &&& s.question == q
    &&& s.time_elapsed == 0
    &&& s.default_time_limit == settings.question_duration
    &&& s.wagers is None
    &&& s.countdown_started
    &&& !s.song_started
    &&& !s.any_guess()
    &&& same_teams(ids_of(s.participants@), names(r))
}

/// Whether `phase` is the phase that opens for the question `q`: the
/// wagering where it is a challenge, else the question itself, asked of
/// every team.
pub open spec fn opens_for(
    phase: Phase,
    q: Question,
    r: Seq<TeamView>,
    initiative: Option<TeamId>,
    settings: Settings,
    max_value: u32,
) -> bool {
    if q.challenge {
        phase matches Phase::Wager(w) && opens_wager(w, q, r, initiative, settings, max_value)
    } else {
        phase matches Phase::Question(s) && opens_question(s, q, r, settings)
    }
}

/// Whether `after` is the match `before` once the next question has been
/// started: Results where the pool is empty, else the phase that opens for
/// the question taken from the pool, the one keyed `winner` where the pool
/// holds it and the cheapest otherwise.
pub open spec fn started(
    before: Quiz,
    winner: Option<QuestionKey>,
    r: Seq<TeamView>,
    after: Quiz,
) -> bool {
    if before.remaining_questions@.len() == 0 {
        after.current_phase.kind() == PhaseKind::Results && after.remaining_questions@
            == before.remaining_questions@
    } else {
        exists|i: int|
            #[trigger] selected_at(before.remaining_questions@, winner, i)
                && after.remaining_questions@ == before.remaining_questions@.remove(i)
                && opens_for(
                after.current_phase,
                before.remaining_questions@[i],
                r,
                before.initiative,
                before.settings,
                before.max_question_score_value,
            )
    }
}

/// Whether `after` is the match `before` once a vote has opened.
pub open spec fn vote_opened(before: Quiz, after: Quiz) -> bool {
    &&& after.remaining_questions@ == before.remaining_questions@
    &&& after.current_phase matches Phase::Vote(v) && v.wf() && v.poll_posted && v.time_elapsed == 0
        && v.time_to_wait == before.settings.vote_duration && restriction(v.voting_team)
        == restriction(before.initiative)
        && v.vote_options@.len() == vstd::math::min(
        vstd::math::min(
            before.settings.max_vote_options as int,
            crate::phase::vote::MAX_VOTE_REACTIONS as int,
        ),
        champion_count(before.remaining_questions@, before.remaining_questions@.len() as int) as int,
    )
}

/// Whether `winner` is what the count of the vote `v` may give: a
/// question that has as many votes as any where there is a poll to count,
/// and nothing where there is none.
pub open spec fn vote_outcome(
    v: VoteState,
    r: Seq<TeamView>,
    reads: Seq<Vec<Vec<u64>>>,
    winner: Option<Question>,
) -> bool {
    &&& winner is Some == v.has_poll(reads)
    &&& winner matches Some(q) ==> v.wins(r, reads, q)
}

/// The match once its phase has taken `pulse` in.
pub open spec fn after_pulse(q: Quiz, pulse: Pulse) -> Quiz {
    Quiz { current_phase: q.current_phase.ticked(pulse), ..q }
}

/// Whether `e` is what `phase` emits as it takes `pulse` in: the warnings
/// of a wagering, the warnings and the song of a question, and nothing in
/// any other phase.
pub open spec fn pulse_emits(phase: Phase, pulse: Pulse, e: Seq<Action>) -> bool {
    match phase {
        Phase::Wager(w) => crate::phase::wager::tick_emits(w, pulse.dt, e),
        Phase::Question(s) => crate::phase::question::tick_emits(
            s,
            pulse.dt,
            pulse.countdown_finished,
            e,
        ),
        _ => e.len() == 0,
    }
}

/// Whether the actions from `out0` to `out1` are those of a tick that took
/// the match from `before` to `after`: first what the phase emits as it
/// takes the pulse in, then, where that ends the phase, what the advance
/// announces.
pub open spec fn tick_announced(
    before: Quiz,
    pulse: Pulse,
    after: Quiz,
    r1: Seq<TeamView>,
    out0: Seq<Action>,
    out1: Seq<Action>,
) -> bool {
    exists|mid: Seq<Action>|
        #![trigger extends(mid, out1)]
        {
            &&& extends(out0, mid)
            &&& extends(mid, out1)
            &&& pulse_emits(before.current_phase, pulse, emitted(out0, mid))
            &&& if before.current_phase.ticked(pulse).over() {
                advance_announced(after_pulse(before, pulse), after, r1, mid, out1)
            } else {
                mid == out1
            }
        }
}

/// Whether `e` is what `phase`, which has just begun, emitted as it began,
/// `r` being the roster: the rules of a startup, the poll of a vote, the
/// news of a wagering or of a question, the winner of the results, and
/// nothing for a cooldown.
pub open spec fn begin_announced(phase: Phase, r: Seq<TeamView>, e: Seq<Action>) -> bool {
    match phase {
        Phase::Startup(_) => crate::phase::startup::begin_emits(e),
        Phase::Cooldown(_) => e.len() == 0,
        Phase::Vote(v) => crate::phase::vote::begin_emits(v, e),
        Phase::Wager(w) => crate::phase::wager::begin_emits(w, r, e),
        Phase::Question(s) => crate::phase::question::begin_emits(s, r, e),
        Phase::Results(_) => announces_results(r, e),
    }
}

/// Whether `e` is what `phase` emits as it ends, `r` being the roster it
/// leaves: the stakes of a wagering, the close of a question, and nothing
/// in any other phase.
pub open spec fn end_announced(phase: Phase, r: Seq<TeamView>, e: Seq<Action>) -> bool {
    match phase {
        Phase::Wager(w) => e.len() == 1 && (e[0] matches Action::Say(
            Recipient::AllTeams,
            Message::WagerResults(v),
        ) && wager_pairs(v@) == w.stakes()),
        Phase::Question(s) => end_emits(s, r, e),
        _ => e.len() == 0,
    }
}

/// Whether the actions from `out0` to `out1` are those of a change from
/// the phase `left` to the phase `entered`: first what the one emits as it
/// ends, then the announcement that the other begins.
pub open spec fn switch_announced(
    left: Phase,
    entered: Phase,
    r1: Seq<TeamView>,
    out0: Seq<Action>,
    out1: Seq<Action>,
) -> bool {
    exists|mid: Seq<Action>|
        #![trigger extends(mid, out1)]
        {
            &&& extends(out0, mid)
            &&& extends(mid, out1)
            &&& end_announced(left, r1, emitted(out0, mid))
            &&& begin_announced(entered, r1, emitted(mid, out1))
        }
}

/// Whether the actions from `out0` to `out1` announce what an advance from
/// `before` to `after` calls for: nothing from the results; the failure
/// where the startup ends without the media; else the beginning of the
/// phase that was entered.
pub open spec fn advance_announced(
    before: Quiz,
    after: Quiz,
    r1: Seq<TeamView>,
    out0: Seq<Action>,
    out1: Seq<Action>,
) -> bool {
    match before.current_phase {
        Phase::Results(_) => out1 == out0,
        Phase::Startup(s) => if s.preload_state == PreloadState::Success {
            switch_announced(before.current_phase, after.current_phase, r1, out0, out1)
        } else {
            emitted(out0, out1) == seq![Action::Say(Recipient::AllTeams, Message::PreloadFailed)]
        },
        _ => switch_announced(before.current_phase, after.current_phase, r1, out0, out1),
    }
}

/// The transition table: whether the match `before` with the roster `r0`
/// advances to the match `after` with the roster `r1`.
pub open spec fn advanced(
    before: Quiz,
    r0: Seq<TeamView>,
    reads: Seq<Vec<Vec<u64>>>,
    after: Quiz,
    r1: Seq<TeamView>,
) -> bool {
    &&& after.settings == before.settings
    &&& after.max_question_score_value == before.max_question_score_value
    &&& after.initiative == before.initiative
    &&& match before.current_phase {
        Phase::Startup(s) => {
            &&& r1 == r0
            &&& if s.preload_state == PreloadState::Success {
                after.abort == before.abort && vote_opened(before, after)
            } else {
                after.abort && after.current_phase == before.current_phase
                    && after.remaining_questions@ == before.remaining_questions@
            }
        },
        Phase::Vote(v) => {
            &&& r1 == r0
            &&& after.abort == before.abort
            &&& exists|winner: Option<Question>| #[trigger]
                vote_outcome(v, r0, reads, winner) && started(before, key_of(winner), r0, after)
        },
        Phase::Wager(w) => {
            &&& r1 == r0
            &&& after.abort == before.abort
            &&& after.remaining_questions@ == before.remaining_questions@
            &&& after.current_phase matches Phase::Question(s) && {
                &&& s.wf()
                &&& s.question.is_copy_of(w.question)
                &&& s.time_elapsed == 0
                &&& s.default_time_limit == before.settings.question_duration
                &&& s.countdown_started
                &&& !s.song_started
                &&& !s.any_guess()
                &&& same_teams(ids_of(s.participants@), ids_of(w.participants@))
                &&& s.wagers matches Some(stakes) && wager_pairs(stakes@) == w.stakes()
            }
        },
        Phase::Question(s) => {
            &&& r1 == settled(r0, s)
            &&& after.abort == before.abort
            &&& after.remaining_questions@ == before.remaining_questions@
            &&& after.current_phase.kind() == if before.remaining_questions@.len() == 0 {
                PhaseKind::Results
            } else {
                PhaseKind::Cooldown
            }
            &&& after.current_phase matches Phase::Cooldown(c) ==> c.step == (CooldownStep {
                time_elapsed: 0,
                time_to_wait: before.settings.cooldown_duration,
            })
        },
        Phase::Cooldown(_) => {
            &&& r1 == r0
            &&& after.abort == before.abort
            &&& {
                let categories = champion_count(
                    before.remaining_questions@,
                    before.remaining_questions@.len() as int,
                );
                if categories == 0 {
                    after.current_phase.kind() == PhaseKind::Results
                        && after.remaining_questions@ == before.remaining_questions@
                } else if categories == 1 {
                    started(before, None, r0, after)
                } else {
                    vote_opened(before, after)
                }
            }
        },
        Phase::Results(_) => after == before && r1 == r0,
    }
}


/// Whatever phase a match advances from, every team and its players stay
/// in place: only scores change.
pub proof fn lemma_advanced_same_members(
    before: Quiz,
    r0: Seq<TeamView>,
    reads: Seq<Vec<Vec<u64>>>,
    after: Quiz,
    r1: Seq<TeamView>,
)
    requires
        advanced(before, r0, reads, after, r1),
    ensures
        same_members(r0, r1),
{
    match before.current_phase {
        Phase::Question(s) => {
            lemma_settled_same_members(r0, s);
        },
        _ => {},
    }
}

/// The highest value among the questions; 0 where there is none.
pub fn max_score_value(pool: &Vec<Question>) -> (r: u32)
    ensures
        is_max_value(pool@, r),
{
    let n = pool.len();
    let mut r: u32 = 0;
    let mut i: usize = 0;
    while i < n
        invariant
            n == pool@.len(),
            i <= n,
            forall|k: int| 0 <= k < i ==> (#[trigger] pool@[k]).score_value <= r,
            if i == 0 {
                r == 0
            } else {
                exists|k: int| 0 <= k < i && (#[trigger] pool@[k]).score_value == r
            },
        decreases n - i,
    {
        if pool[i].score_value > r || i == 0 {
            r = pool[i].score_value;
        } else {
            proof {
                let k = choose|k: int| 0 <= k < i && (#[trigger] pool@[k]).score_value == r;
                assert(pool@[k].score_value == r);
            }
        }
        i += 1;
    }
    r
}

/// The urls of the questions, in their order.
pub fn media_urls(pool: &Vec<Question>) -> (r: Vec<String>)
    ensures
        r@.len() == pool@.len(),
        forall|k: int| 0 <= k < r@.len() ==> (#[trigger] r@[k])@ == pool@[k].url@,
{
    let n = pool.len();
    let mut r: Vec<String> = Vec::new();
    let mut i: usize = 0;
    while i < n
        invariant
            n == pool@.len(),
            i <= n,
            r@.len() == i,
            forall|k: int| 0 <= k < i ==> (#[trigger] r@[k])@ == pool@[k].url@,
        decreases n - i,
    {
        r.push(pool[i].url.clone());
        i += 1;
    }
    r
}

impl Quiz {
    /// The phase is well-formed, and no question is twice in the pool.
    pub open spec fn wf(&self) -> bool {
        self.current_phase.wf() && pool_wf(self.remaining_questions@)
    }

    /// The phase the match is in.
    pub fn phase_kind(&self) -> (r: PhaseKind)
        ensures
            r == self.current_phase.kind(),
    {
        self.current_phase.get_kind()
    }

    /// A match on the questions of `definition`, with the default settings.
    /// It asks for the media of all questions to be fetched and opens with
    /// the startup phase, whose rules it announces.
    pub fn new(definition: QuizDefinition, out: &mut Vec<Action>) -> (q: Quiz)
        requires
            definition.wf(),
        ensures
            q.wf(),
            !q.abort,
            q.initiative is None,
            q.remaining_questions == definition.questions,
            is_max_value(definition.questions@, q.max_question_score_value),
            q.current_phase == Phase::Startup(
                StartupState {
                    time_elapsed: 0,
                    time_to_wait: q.settings.startup_duration,
                    preload_state: PreloadState::InProgress,
                },
            ),
            extends(old(out)@, final(out)@),
            emitted(old(out)@, final(out)@).len() == 2,
            emitted(old(out)@, final(out)@)[0] matches Action::Preload(urls) && urls@.len()
                == definition.questions@.len() && forall|k: int|
                0 <= k < urls@.len() ==> (#[trigger] urls@[k])@ == definition.questions@[k].url@,
            is_rules(emitted(old(out)@, final(out)@)[1]),
    {
        let settings = Settings::default();
        let urls = media_urls(&definition.questions);
        let max_question_score_value = max_score_value(&definition.questions);
        out.push(Action::Preload(urls));
        let ghost out1 = out@;
        let mut startup = StartupState::new(settings.startup_duration);
        startup.on_begin(out);
        proof {
            let e = emitted(old(out)@, out@);
            crate::output::lemma_extends_keeps(out1, out@, out1.len() - 1);
            assert(emitted(out1, out@)[0] == out@.last());
            assert(e[1] == out@.last());
            assert(e[0] == out1.last());
        }
        Quiz {
            abort: false,
            settings,
            current_phase: Phase::Startup(startup),
            initiative: None,
            remaining_questions: definition.questions,
            max_question_score_value,
        }
    }

    /// A match is over once it is abandoned or has reached its results.
    pub fn is_over(&self) -> (r: bool)
        ensures
            r == (self.abort || self.current_phase.kind() == PhaseKind::Results),
    {
        if self.abort {
            return true;
        }
        match self.current_phase {
            Phase::Results(_) => true,
            _ => false,
        }
    }

    /// Ends the current phase and begins `phase`.
    fn set_current_phase(&mut self, teams: &mut Vec<Team>, phase: Phase, out: &mut Vec<Action>)
        requires
            old(self).wf(),
            phase.wf(),
        ensures
            final(self).wf(),
            final(self).current_phase == phase.begun(),
            final(self).abort == old(self).abort,
            final(self).settings == old(self).settings,
            final(self).initiative == old(self).initiative,
            final(self).remaining_questions == old(self).remaining_questions,
            final(self).max_question_score_value == old(self).max_question_score_value,
            roster(final(teams)@) == match old(self).current_phase {
                Phase::Question(s) => settled(roster(old(teams)@), s),
                _ => roster(old(teams)@),
            },
            extends(old(out)@, final(out)@),
            switch_announced(
                old(self).current_phase,
                final(self).current_phase,
                roster(final(teams)@),
                old(out)@,
                final(out)@,
            ),
    {
        let ghost out0 = out@;
        match &mut self.current_phase {
            Phase::Startup(s) => s.on_end(),
            Phase::Cooldown(s) => s.on_end(),
            Phase::Vote(s) => s.on_end(),
            Phase::Wager(s) => s.on_end(out),
            Phase::Question(s) => s.on_end(teams, out),
            Phase::Results(s) => s.on_end(),
        }
        let ghost out1 = out@;
        self.current_phase = phase;
        match &mut self.current_phase {
            Phase::Startup(s) => s.on_begin(out),
            Phase::Cooldown(s) => s.on_begin(),
            Phase::Vote(s) => s.on_begin(out),
            Phase::Wager(s) => s.on_begin(teams, out),
            Phase::Question(s) => s.on_begin(teams, out),
            Phase::Results(s) => s.on_begin(teams, out),
        }
        proof {
            lemma_extends_twice(out0, out1, out@);
            assert(extends(out1, out@));
            assert(end_announced(old(self).current_phase, roster(teams@), emitted(out0, out1)));
            assert(begin_announced(self.current_phase, roster(teams@), emitted(out1, out@)));
        }
    }

    /// Opens a vote on the categories that are left.
    fn begin_vote(&mut self, teams: &mut Vec<Team>, out: &mut Vec<Action>)
        requires
            old(self).wf(),
            old(self).current_phase.kind() != PhaseKind::Question,
        ensures
            final(self).wf(),
            vote_opened(*old(self), *final(self)),
            final(self).abort == old(self).abort,
            final(self).settings == old(self).settings,
            final(self).initiative == old(self).initiative,
            final(self).max_question_score_value == old(self).max_question_score_value,
            roster(final(teams)@) == roster(old(teams)@),
            extends(old(out)@, final(out)@),
            switch_announced(
                old(self).current_phase,
                final(self).current_phase,
                roster(final(teams)@),
                old(out)@,
                final(out)@,
            ),
    {
        let voting_team = match &self.initiative {
            Some(t) => Some(t.duplicate()),
            None => None,
        };
        let state = VoteState::new(
            self.settings.vote_duration,
            &self.remaining_questions,
            voting_team,
            self.settings.max_vote_options,
        );
        let ghost st = state;
        self.set_current_phase(teams, Phase::Vote(state), out);
        proof {
            assert(self.current_phase == Phase::Vote(st).begun());
            assert(self.current_phase->Vote_0.vote_options == st.vote_options);
        }
    }

    /// Takes the next question from the pool and opens the phase for it,
    /// or the results where the pool is empty.
    fn initiate_question(
        &mut self,
        teams: &mut Vec<Team>,
        vote_winner: Option<Question>,
        out: &mut Vec<Action>,
    )
        requires
            old(self).wf(),
            old(self).current_phase.kind() != PhaseKind::Question,
        ensures
            final(self).wf(),
            started(*old(self), key_of(vote_winner), roster(old(teams)@), *final(self)),
            final(self).abort == old(self).abort,
            final(self).settings == old(self).settings,
            final(self).initiative == old(self).initiative,
            final(self).max_question_score_value == old(self).max_question_score_value,
            roster(final(teams)@) == roster(old(teams)@),
            extends(old(out)@, final(out)@),
            switch_announced(
                old(self).current_phase,
                final(self).current_phase,
                roster(final(teams)@),
                old(out)@,
                final(out)@,
            ),
    {
        let ghost pool = self.remaining_questions@;
        let ghost r0 = roster(teams@);
        match select_question(&mut self.remaining_questions, vote_winner) {
            Some(question) => {
                let ghost i = choose|i: int|
                    #[trigger] selected_at(pool, key_of(vote_winner), i) && question == pool[i]
                        && self.remaining_questions@ == pool.remove(i);
                let all = team_ids(teams);
                proof {
                    assert(ids_of(all@) =~= names(r0));
                }
                if question.challenge {
                    let participants = match &self.initiative {
                        Some(team_id) => {
                            let mut one: Vec<TeamId> = Vec::new();
                            one.push(team_id.duplicate());
                            assert(ids_of(one@) =~= seq![team_id@]);
                            one
                        },
                        None => all,
                    };
                    let ghost wanted = ids_of(participants@);
                    assert(wanted == challengers(r0, self.initiative));
                    let state = WagerState::new(
                        question,
                        self.settings.wager_duration,
                        participants,
                        self.max_question_score_value,
                    );
                    let ghost st = state;
                    self.set_current_phase(teams, Phase::Wager(state), out);
                    proof {
                        assert(selected_at(pool, key_of(vote_winner), i));
                        assert(self.current_phase == Phase::Wager(st));
                        assert(same_teams(ids_of(st.participants@), wanted));
                        assert(opens_wager(
                            st,
                            pool[i],
                            r0,
                            old(self).initiative,
                            old(self).settings,
                            old(self).max_question_score_value,
                        ));
                        assert(opens_for(
                            self.current_phase,
                            pool[i],
                            r0,
                            old(self).initiative,
                            old(self).settings,
                            old(self).max_question_score_value,
                        ));
                    }
                } else {
                    let state = QuestionState::new(
                        question,
                        self.settings.question_duration,
                        all,
                        None,
                    );
                    let ghost st = state;
                    self.set_current_phase(teams, Phase::Question(state), out);
                    proof {
                        assert(selected_at(pool, key_of(vote_winner), i));
                        let s = self.current_phase->Question_0;
                        assert(s.answers@ == st.answers@);
                        assert(same_teams(
                            ids_of(st.participants@),
                            names(r0),
                        ));
                        assert(opens_question(s, pool[i], r0, old(self).settings));
                        assert(opens_for(
                            self.current_phase,
                            pool[i],
                            r0,
                            old(self).initiative,
                            old(self).settings,
                            old(self).max_question_score_value,
                        ));
                    }
                }
            },
            None => {
                self.set_current_phase(teams, Phase::Results(ResultsState::new()), out);
            },
        }
    }

    /// Moves the match on to its next phase, by the transition table.
    fn advance(&mut self, teams: &mut Vec<Team>, reads: &Vec<Vec<Vec<u64>>>, out: &mut Vec<Action>)
        requires
            old(self).wf(),
        ensures
            final(self).wf(),
            advanced(*old(self), roster(old(teams)@), reads@, *final(self), roster(final(teams)@)),
            extends(old(out)@, final(out)@),
            advance_announced(
                *old(self),
                *final(self),
                roster(final(teams)@),
                old(out)@,
                final(out)@,
            ),
    {
        match self.current_phase.get_kind() {
            PhaseKind::Startup => {
                let succeeded = match &self.current_phase {
                    Phase::Startup(s) => s.preload_succeeded(),
                    _ => false,
                };
                if succeeded {
                    self.begin_vote(teams, out);
                } else {
                    out.push(Action::Say(Recipient::AllTeams, Message::PreloadFailed));
                    self.abort = true;
                    assert(emitted(old(out)@, out@) =~= seq![
                        Action::Say(Recipient::AllTeams, Message::PreloadFailed),
                    ]);
                }
            },
            PhaseKind::Vote => {
                let winner = match &self.current_phase {
                    Phase::Vote(v) => match v.compute_vote_result(teams, reads) {
                        Ok(q) => Some(q),
                        Err(_) => None,
                    },
                    _ => None,
                };
                proof {
                    assert(vote_outcome(
                        self.current_phase->Vote_0,
                        roster(teams@),
                        reads@,
                        winner,
                    ));
                }
                self.initiate_question(teams, winner, out);
            },
            PhaseKind::Wager => {
                let next = match &self.current_phase {
                    Phase::Wager(s) => Some(
                        QuestionState::new(
                            s.question.duplicate(),
                            self.settings.question_duration,
                            duplicate_ids(&s.participants),
                            Some(s.resolved_wagers()),
                        ),
                    ),
                    _ => None,
                };
                match next {
                    Some(state) => {
                        self.set_current_phase(teams, Phase::Question(state), out);
                        proof {
                            let s = self.current_phase->Question_0;
                            assert(s.answers@ == state.answers@);
                        }
                    },
                    None => {},
                }
            },
            PhaseKind::Question => {
                if self.remaining_questions.len() == 0 {
                    self.set_current_phase(teams, Phase::Results(ResultsState::new()), out);
                } else {
                    let state = CooldownState::new(self.settings.cooldown_duration);
                    self.set_current_phase(teams, Phase::Cooldown(state), out);
                }
            },
            PhaseKind::Cooldown => {
                let categories = remaining_category_count(&self.remaining_questions);
                if categories == 0 {
                    self.set_current_phase(teams, Phase::Results(ResultsState::new()), out);
                } else if categories == 1 {
                    self.initiate_question(teams, None, out);
                } else {
                    self.begin_vote(teams, out);
                }
            },
            PhaseKind::Results => {},
        }
    }

    /// Takes in `pulse`: the current phase lets the time pass, and where
    /// that ends it, the match advances by the transition table.
    pub fn tick(&mut self, teams: &mut Vec<Team>, pulse: &Pulse, out: &mut Vec<Action>)
        requires
            old(self).wf(),
        ensures
            final(self).wf(),
            ({
                let mid = after_pulse(*old(self), *pulse);
                if mid.current_phase.over() {
                    advanced(mid, roster(old(teams)@), pulse.reads@, *final(self), roster(final(teams)@))
                } else {
                    *final(self) == mid && roster(final(teams)@) == roster(old(teams)@)
                }
            }),
            extends(old(out)@, final(out)@),
            tick_announced(
                *old(self),
                *pulse,
                *final(self),
                roster(final(teams)@),
                old(out)@,
                final(out)@,
            ),
    {
        let ghost out0 = out@;
        match &mut self.current_phase {
            Phase::Startup(s) => s.on_tick(pulse.dt, pulse.preload),
            Phase::Cooldown(s) => s.on_tick(pulse.dt),
            Phase::Vote(s) => s.on_tick(pulse.dt),
            Phase::Wager(s) => s.on_tick(pulse.dt, out),
            Phase::Question(s) => s.on_tick(pulse.dt, pulse.countdown_finished, out),
            Phase::Results(s) => s.on_tick(pulse.dt),
        }
        let ghost out1 = out@;
        if self.current_phase.is_over() {
            let ghost mid = *self;
            self.advance(teams, &pulse.reads, out);
            proof {
                lemma_extends_twice(out0, out1, out@);
                assert(advance_announced(mid, *self, roster(teams@), out1, out@));
                assert(extends(out1, out@));
            }
        } else {
            proof {
                assert(extends(out1, out@));
            }
        }
    }

    /// Takes the guess of a team for the question that is being asked. The
    /// team that guesses correctly first gets the initiative.
    pub fn guess(
        &mut self,
        teams: &mut Vec<Team>,
        team_id: &TeamId,
        guess: &str,
        out: &mut Vec<Action>,
    ) -> (r: Result<(), GameError>)
        requires
            old(self).wf(),
        ensures
            final(self).wf(),
            extends(old(out)@, final(out)@),
            final(self).abort == old(self).abort,
            final(self).settings == old(self).settings,
            final(self).remaining_questions == old(self).remaining_questions,
            final(self).max_question_score_value == old(self).max_question_score_value,
            match old(self).current_phase {
                Phase::Question(s) => match s.guess_refusal(roster(old(teams)@), team_id@) {
                    Some(e) => {
                        &&& r is Err && r->Err_0 == e
                        &&& *final(self) == *old(self)
                        &&& *final(teams) == *old(teams)
                        &&& final(out)@ == old(out)@
                    },
                    None => {
                        &&& r is Ok
                        &&& final(self).current_phase matches Phase::Question(s2) && recorded(
                            s,
                            team_id@,
                            guess@,
                            s2,
                        )
                        &&& roster(final(teams)@) == with_score_added(
                            roster(old(teams)@),
                            team_id@,
                            delta_for(s, team_id@, guess@),
                        )
                        &&& final(self).current_phase matches Phase::Question(s2) && guess_emits(
                            s,
                            s2,
                            team_id@,
                            guess@,
                            emitted(old(out)@, final(out)@),
                        )
                        &&& if first_correct(s, guess@) {
                            final(self).initiative matches Some(t) && t@ == team_id@
                        } else {
                            final(self).initiative == old(self).initiative
                        }
                    },
                },
                _ => {
                    &&& r is Err && r->Err_0 == GameError::NoActiveQuestion
                    &&& *final(self) == *old(self)
                    &&& *final(teams) == *old(teams)
                    &&& final(out)@ == old(out)@
                },
            },
    {
        let outcome = match &mut self.current_phase {
            Phase::Question(question_state) => question_state.guess(teams, team_id, guess, out),
            _ => Err(GameError::NoActiveQuestion),
        };
        match outcome {
            Ok(guess_result) => {
                if guess_result.is_first_correct {
                    self.initiative = Some(team_id.duplicate());
                }
                Ok(())
            },
            Err(e) => Err(e),
        }
    }

    /// Takes the wager of a team while wagers are open.
    pub fn wager(&mut self, teams: &Vec<Team>, team_id: &TeamId, amount: u32) -> (r: Result<
        (),
        GameError,
    >)
        requires
            old(self).wf(),
        ensures
            final(self).wf(),
            final(self).abort == old(self).abort,
            final(self).settings == old(self).settings,
            final(self).initiative == old(self).initiative,
            final(self).remaining_questions == old(self).remaining_questions,
            final(self).max_question_score_value == old(self).max_question_score_value,
            match old(self).current_phase {
                Phase::Wager(w) => final(self).current_phase matches Phase::Wager(w2) && if has_id(
                    ids_of(w.participants@),
                    team_id@,
                ) {
                    r is Ok && wager_taken(w, roster(teams@), team_id@, amount, w2)
                } else {
                    r is Err && r->Err_0 == GameError::NotAParticipant && w2 == w
                },
                _ => {
                    &&& r is Err && r->Err_0 == GameError::WrongPhase
                    &&& *final(self) == *old(self)
                },
            },
    {
        match &mut self.current_phase {
            Phase::Wager(wager_state) => wager_state.wager(teams, team_id, amount),
            _ => Err(GameError::WrongPhase),
        }
    }

    /// Abandons the match.
    pub fn abort(&mut self)
        ensures
            *final(self) == (Quiz { abort: true, ..*old(self) }),
    {
        self.abort = true;
    }

    /// Moves the match on at once, whatever its clock says. The results
    /// are never left.
    pub fn skip_phase(
        &mut self,
        teams: &mut Vec<Team>,
        reads: &Vec<Vec<Vec<u64>>>,
        out: &mut Vec<Action>,
    )
        requires
            old(self).wf(),
        ensures
            final(self).wf(),
            advanced(*old(self), roster(old(teams)@), reads@, *final(self), roster(final(teams)@)),
            extends(old(out)@, final(out)@),
            advance_announced(
                *old(self),
                *final(self),
                roster(final(teams)@),
                old(out)@,
                final(out)@,
            ),
    {
        self.advance(teams, reads, out);
    }
}

} // verus!
