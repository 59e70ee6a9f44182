use vstd::prelude::*;
use crate::definition::{Question, QuestionKey};
use crate::team::{
    ids_of, is_recap, names, other_team_ids, roster, score_pairs, team_ids, Team, TeamId, TeamView,
};
use crate::text::push_char;

verus! {

/// Who is to receive a message.
#[derive(Clone, Debug, PartialEq, Eq)]
pub enum Recipient {
    AllTeams,
    Team(TeamId),
    AllTeamsExcept(TeamId),
}

/// What the engine has to say. Times are in milliseconds.
#[derive(Clone, Debug, PartialEq, Eq)]
pub enum Message {
    AnswerReveal(Question),
    ChallengeSongBegins(String),
    ChallengeSongTimeUp(TeamId, i32),
    GameEnded,
    GamePaused,
    GameResults(TeamId),
    GameUnpaused,
    GuessCorrect(TeamId, i32),
    GuessesReveal(Vec<(TeamId, String)>),
    GuessIncorrect(TeamId, i32),
    QuizRules,
    PreloadFailed,
    ScoresRecap(Vec<(TeamId, i32)>),
    ScoresReset,
    QuestionBegins(Question),
    TeamScoreAdjusted(TeamId, i32),
    TeamsReset,
    TimeRemaining(u64),
    TimeUp(Question),
    VotePoll(Vec<(String, String, u32)>),
    VoteWait(TeamId),
    WagerBegins(String),
    WagerResults(Vec<(TeamId, u32)>),
    WagerRules(u32, u32),
    WagerWait,
}

/// The sound effects of a match.
#[derive(Clone, Copy, Debug, PartialEq, Eq, Structural)]
pub enum Sound {
    Question,
    Correct,
    Incorrect,
    TimeUp,
    Challenge,
    Congrats,
}

/// One thing the engine asks of the world around it, in the order asked.
#[derive(Clone, Debug, PartialEq, Eq)]
pub enum Action {
    /// Deliver a message.
    Say(Recipient, Message),
    /// Deliver a message and offer the glyphs as reactions to it.
    Poll(Recipient, Message, Vec<String>),
    /// Play a sound effect.
    PlaySound(Sound),
    /// Play the media of a question, by its url.
    PlaySong(String),
    /// Stop whatever is playing.
    StopAudio,
    /// Start fetching the media of these urls.
    Preload(Vec<String>),
}

impl Recipient {
    /// The names of the teams of the roster `r` that are meant: all of
    /// them, the one that is named, or all but the one that is named.
    pub open spec fn reaches(&self, r: Seq<TeamView>) -> Seq<Seq<char>> {
        match self {
            Recipient::AllTeams => names(r),
            Recipient::Team(id) => seq![id@],
            Recipient::AllTeamsExcept(id) => names(r).filter(|name: Seq<char>| name != id@),
        }
    }

    /// The teams that are meant, in the order of the roster.
    pub fn teams(&self, teams: &Vec<Team>) -> (r: Vec<TeamId>)
        ensures
            ids_of(r@) == self.reaches(roster(teams@)),
    {
        match self {
            Recipient::AllTeams => {
                let r = team_ids(teams);
                assert(ids_of(r@) =~= names(roster(teams@)));
                r
            },
            Recipient::Team(id) => {
                let mut r: Vec<TeamId> = Vec::new();
                r.push(id.duplicate());
                assert(ids_of(r@) =~= seq![id@]);
                r
            },
            Recipient::AllTeamsExcept(id) => other_team_ids(teams, id),
        }
    }
}

/// Whether `after` is `before` with further actions behind it.
pub open spec fn extends(before: Seq<Action>, after: Seq<Action>) -> bool {
    before.len() <= after.len() && after.take(before.len() as int) =~= before
}

/// An extension keeps every action that was there, in its place.
pub proof fn lemma_extends_keeps(before: Seq<Action>, after: Seq<Action>, j: int)
    requires
        extends(before, after),
        0 <= j < before.len(),
    ensures
        after[j] == before[j],
{
    assert(after.take(before.len() as int)[j] == before[j]);
}

/// An extension of an extension is an extension, and what it added is what
/// the two added, one after the other.
pub proof fn lemma_extends_twice(a: Seq<Action>, b: Seq<Action>, c: Seq<Action>)
    requires
        extends(a, b),
        extends(b, c),
    ensures
        extends(a, c),
        emitted(a, c) == emitted(a, b) + emitted(b, c),
{
    assert forall|j: int| 0 <= j < b.len() implies c[j] == b[j] by {
        lemma_extends_keeps(b, c, j);
    }
    assert forall|j: int| 0 <= j < a.len() implies c[j] == a[j] by {
        lemma_extends_keeps(a, b, j);
    }
    assert(c.take(a.len() as int) =~= a);
    assert(emitted(a, c) =~= emitted(a, b) + emitted(b, c));
}

/// What `after` holds behind `before`.
pub open spec fn emitted(before: Seq<Action>, after: Seq<Action>) -> Seq<Action> {
    after.skip(before.len() as int)
}

/// Whether `a` tells every team that `team` guessed, rightly or wrongly, and
/// how many points that won or cost it.
pub open spec fn tells_guess(a: Action, correct: bool, team: Seq<char>, points: int) -> bool {
    if correct {
        a matches Action::Say(Recipient::AllTeams, Message::GuessCorrect(t, d)) && t@ == team && d
            == points
    } else {
        a matches Action::Say(Recipient::AllTeams, Message::GuessIncorrect(t, d)) && t@ == team
            && d == points
    }
}

/// Whether `a` tells every team the answer of the question keyed `key`.
pub open spec fn tells_answer(a: Action, key: QuestionKey) -> bool {
    a matches Action::Say(Recipient::AllTeams, Message::AnswerReveal(q)) && q.key() == key
}

/// Whether `a` tells every team that the time of the question keyed `key` is up.
pub open spec fn tells_time_up(a: Action, key: QuestionKey) -> bool {
    a matches Action::Say(Recipient::AllTeams, Message::TimeUp(q)) && q.key() == key
}

/// The names and texts of a list of guesses.
pub open spec fn guess_pairs(v: Seq<(TeamId, String)>) -> Seq<(Seq<char>, Seq<char>)> {
    v.map_values(|p: (TeamId, String)| (p.0@, p.1@))
}

/// Whether `a` tells every team what each team guessed.
pub open spec fn tells_guesses(a: Action, guesses: Seq<(Seq<char>, Seq<char>)>) -> bool {
    a matches Action::Say(Recipient::AllTeams, Message::GuessesReveal(v)) && guess_pairs(v@)
        == guesses
}

/// Whether `a` tells every team how much time is left.
pub open spec fn tells_time_left(a: Action, ms: u64) -> bool {
    a == Action::Say(Recipient::AllTeams, Message::TimeRemaining(ms))
}

/// Whether `a` tells every team the scores of the roster `r`, ranked.
pub open spec fn tells_scores(a: Action, r: Seq<TeamView>) -> bool {
    a matches Action::Say(Recipient::AllTeams, Message::ScoresRecap(v)) && is_recap(
        r,
        score_pairs(v@),
    )
}

/// Whether `a` asks for the media at `url` to be played.
pub open spec fn plays_song(a: Action, url: Seq<char>) -> bool {
    a matches Action::PlaySong(u) && u@ == url
}

/// The character of a decimal digit.
pub open spec fn digit_char(d: int) -> char {
    if d == 0 {
        '0'
    } else if d == 1 {
        '1'
    } else if d == 2 {
        '2'
    } else if d == 3 {
        '3'
    } else if d == 4 {
        '4'
    } else if d == 5 {
        '5'
    } else if d == 6 {
        '6'
    } else if d == 7 {
        '7'
    } else if d == 8 {
        '8'
    } else {
        '9'
    }
}

/// A natural number in decimal digits, without leading zeros.
pub open spec fn digits(n: nat) -> Seq<char>
    decreases n,
{
    if n < 10 {
        seq![digit_char(n as int)]
    } else {
        digits(n / 10).push(digit_char((n % 10) as int))
    }
}

/// The label of the rank at place `index` of a recap, counted from 0: a
/// medal for each of the first three, then `#` and the rank's number.
pub open spec fn rank_text(index: nat) -> Seq<char> {
    if index == 0 {
        seq!['🥇']
    } else if index == 1 {
        seq!['🥈']
    } else if index == 2 {
        seq!['🥉']
    } else {
        seq!['#'] + digits(index + 1)
    }
}

/// Appends the decimal digits of `n` to `s`.
pub fn push_digits(s: &mut String, n: u64)
    ensures
        final(s)@ == old(s)@ + digits(n as nat),
    decreases n,
{
    if n >= 10 {
        push_digits(s, n / 10);
    }
    let d = n % 10;
    let c = if d == 0 {
        '0'
    } else if d == 1 {
        '1'
    } else if d == 2 {
        '2'
    } else if d == 3 {
        '3'
    } else if d == 4 {
        '4'
    } else if d == 5 {
        '5'
    } else if d == 6 {
        '6'
    } else if d == 7 {
        '7'
    } else if d == 8 {
        '8'
    } else {
        '9'
    };
    push_char(s, c);
    proof {
        if n >= 10 {
            assert(final(s)@ =~= old(s)@ + digits((n / 10) as nat).push(c));
        } else {
            assert(final(s)@ =~= old(s)@ + seq![c]);
        }
    }
}

/// `rank_text`, computed.
pub fn rank_label(index: usize) -> (r: String)
    requires
        index < usize::MAX,
    ensures
        r@ == rank_text(index as nat),
{
    let mut r = String::new();
    if index == 0 {
        push_char(&mut r, '🥇');
        assert(r@ =~= seq!['🥇']);
    } else if index == 1 {
        push_char(&mut r, '🥈');
        assert(r@ =~= seq!['🥈']);
    } else if index == 2 {
        push_char(&mut r, '🥉');
        assert(r@ =~= seq!['🥉']);
    } else {
        push_char(&mut r, '#');
        assert(r@ =~= seq!['#']);
        push_digits(&mut r, (index + 1) as u64);
    }
    r
}

impl Sound {
    /// The file that holds the sound.
    pub open spec fn path_text(&self) -> Seq<char> {
        match self {
            Sound::Question => "assets/question.wav"@,
            Sound::Correct => "assets/correct.wav"@,
            Sound::Incorrect => "assets/incorrect.wav"@,
            Sound::TimeUp => "assets/time.wav"@,
            Sound::Challenge => "assets/challenge.wav"@,
            Sound::Congrats => "assets/congrats.wav"@,
        }
    }

    /// `path_text`, as a string.
    pub fn path(&self) -> (p: &'static str)
        ensures
            p@ == self.path_text(),
    {
        match self {
            Sound::Question => "assets/question.wav",
            Sound::Correct => "assets/correct.wav",
            Sound::Incorrect => "assets/incorrect.wav",
            Sound::TimeUp => "assets/time.wav",
            Sound::Challenge => "assets/challenge.wav",
            Sound::Congrats => "assets/congrats.wav",
        }
    }
}

} // verus!
