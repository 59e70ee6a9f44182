use vstd::prelude::*;

verus! {

/// Why a command was turned down.
#[derive(Clone, Copy, Debug, PartialEq, Eq, Structural)]
pub enum GameError {
    /// The team name holds no letter or digit once cleaned.
    InvalidName,
    /// No team of that name is on the roster.
    TeamNotFound,
    /// The player belongs to no team.
    NotOnTeam,
    /// A player who has a team tried to change it during a match.
    TeamChangeForbidden,
    /// The team has already answered the running question.
    AlreadyGuessed,
    /// The team may not answer or wager on the running question.
    NotAParticipant,
    /// The command is not available in the session's current phase.
    WrongPhase,
    /// No question is running.
    NoActiveQuestion,
    /// The vote never had a poll to count.
    NoPollRecorded,
    /// The question file could not be read.
    LoadError,
    /// Fetching the media failed; the match is abandoned.
    PreloadFailed,
}

impl GameError {
    /// The text shown to the player who issued the command.
    pub open spec fn message_text(&self) -> Seq<char> {
        match self {
            GameError::InvalidName => "Invalid team name"@,
            GameError::TeamNotFound => "Team not found"@,
            GameError::NotOnTeam => "Player is not on a team"@,
            GameError::TeamChangeForbidden => "Team can not be changed during a quiz"@,
            GameError::AlreadyGuessed => "Team already made a guess"@,
            GameError::NotAParticipant => "Your team is not allowed to take part in this question"@,
            GameError::WrongPhase => "This can not be done in the current phase"@,
            GameError::NoActiveQuestion => "There is no active question"@,
            GameError::NoPollRecorded => "No vote message"@,
            GameError::LoadError => "The quiz definition could not be loaded"@,
            GameError::PreloadFailed => "The quiz media could not be fetched"@,
        }
    }

    /// `message_text`, as a string.
    pub fn message(&self) -> (text: &'static str)
        ensures
            text@ == self.message_text(),
    {
        match self {
            GameError::InvalidName => "Invalid team name",
            GameError::TeamNotFound => "Team not found",
            GameError::NotOnTeam => "Player is not on a team",
            GameError::TeamChangeForbidden => "Team can not be changed during a quiz",
            GameError::AlreadyGuessed => "Team already made a guess",
            GameError::NotAParticipant => "Your team is not allowed to take part in this question",
            GameError::WrongPhase => "This can not be done in the current phase",
            GameError::NoActiveQuestion => "There is no active question",
            GameError::NoPollRecorded => "No vote message",
            GameError::LoadError => "The quiz definition could not be loaded",
            GameError::PreloadFailed => "The quiz media could not be fetched",
        }
    }
}

} // verus!
