use level_99::definition::{QuizDefinition, RawQuestion};
use level_99::error::GameError;
use level_99::game::{Game, GamePhase};
use level_99::output::{Action, Message, Recipient, Sound};
use level_99::preload::PreloadState;
use level_99::quiz::{max_score_value, media_urls, PhaseKind, Pulse, Quiz};
use level_99::team::{
    add_scores, add_to_team, distinct_ids, find_id, find_player_team, find_team, join_roster,
    prune_empty, ranking, score_recap, team_ids, top_team, Team, TeamId,
};

fn id(name: &str) -> TeamId {
    TeamId::TeamName(name.to_string())
}

fn row(url: &str, answer: &str, category: &str, score_value: u32, challenge: bool) -> RawQuestion {
    RawQuestion {
        url: url.to_owned(),
        answer: answer.to_owned(),
        acceptable_answers: None,
        category: category.to_owned(),
        score_value,
        challenge,
        duration_seconds: None,
    }
}

fn pulse(dt: u64) -> Pulse {
    Pulse { dt, preload: PreloadState::Success, countdown_finished: true, reads: Vec::new() }
}

fn kind(game: &Game) -> Option<PhaseKind> {
    match &game.current_phase {
        GamePhase::Setup => None,
        GamePhase::Quiz(quiz) => Some(quiz.phase_kind()),
    }
}

fn members(game: &Game) -> Vec<(String, Vec<u64>, i32)> {
    game.get_teams()
        .iter()
        .map(|t| {
            let mut players: Vec<u64> = t.players.iter().copied().collect();
            players.sort();
            (t.get_display_name().to_string(), players, t.score)
        })
        .collect()
}

#[test]
fn joining_makes_moves_and_prunes_teams() {
    let mut game = Game::new(Vec::new());
    game.join_team(1, "Red Team").unwrap();
    game.join_team(2, "red   team").unwrap();
    game.join_team(3, "Blue").unwrap();
    assert_eq!(
        members(&game),
        vec![("red-team".to_string(), vec![1, 2], 0), ("blue".to_string(), vec![3], 0)]
    );
    // The last player of blue moves over: blue is gone.
    game.join_team(3, "RED TEAM").unwrap();
    assert_eq!(members(&game), vec![("red-team".to_string(), vec![1, 2, 3], 0)]);
    game.join_team(2, "green").unwrap();
    assert_eq!(
        members(&game),
        vec![("red-team".to_string(), vec![1, 3], 0), ("green".to_string(), vec![2], 0)]
    );
    assert_eq!(game.get_player_team(2), Some(id("green")));
    assert_eq!(game.get_player_team(9), None);
}

#[test]
fn joining_the_same_team_twice_changes_nothing() {
    let mut game = Game::new(Vec::new());
    game.join_team(1, "red").unwrap();
    game.join_team(2, "blue").unwrap();
    game.join_team(3, "blue").unwrap();
    let mut out = Vec::new();
    game.adjust_score(id("blue"), 40, &mut out).unwrap();
    let before = members(&game);
    game.join_team(2, "blue").unwrap();
    assert_eq!(members(&game), before);
    game.join_team(1, "Red").unwrap();
    game.join_team(1, "red").unwrap();
    assert_eq!(members(&game), before);
}

#[test]
fn invalid_names_are_refused_without_a_change() {
    let mut game = Game::new(Vec::new());
    game.join_team(1, "red").unwrap();
    assert_eq!(game.join_team(1, " !! "), Err(GameError::InvalidName));
    assert_eq!(game.join_team(2, ""), Err(GameError::InvalidName));
    assert_eq!(members(&game), vec![("red".to_string(), vec![1], 0)]);
    assert_eq!(game.disband_team("??"), Err(GameError::InvalidName));
}

#[test]
fn teams_cannot_be_changed_during_a_match() {
    let mut game = Game::new(Vec::new());
    let mut out = Vec::new();
    game.join_team(1, "red").unwrap();
    game.begin(QuizDefinition::from_rows(vec![row("u", "a", "c", 100, false)]), &mut out).unwrap();
    assert_eq!(game.join_team(1, "blue"), Err(GameError::TeamChangeForbidden));
    // A player without a team may still join.
    game.join_team(2, "blue").unwrap();
    assert_eq!(game.get_player_team(2), Some(id("blue")));
    assert_eq!(game.get_player_team(1), Some(id("red")));
}

#[test]
fn scores_are_adjusted_and_announced() {
    let mut game = Game::new(vec![Team::new(id("red"))]);
    let mut out = Vec::new();
    game.adjust_score(id("red"), -30, &mut out).unwrap();
    game.adjust_score(id("red"), 10, &mut out).unwrap();
    assert_eq!(game.get_teams()[0].score, -20);
    assert_eq!(
        out,
        vec![
            Action::Say(Recipient::AllTeams, Message::TeamScoreAdjusted(id("red"), -30)),
            Action::Say(Recipient::AllTeams, Message::TeamScoreAdjusted(id("red"), -20)),
        ]
    );
    out.clear();
    assert_eq!(game.adjust_score(id("blue"), 5, &mut out), Err(GameError::TeamNotFound));
    assert!(out.is_empty());
    game.adjust_score(id("red"), i32::MAX, &mut out).unwrap();
    game.adjust_score(id("red"), i32::MAX, &mut out).unwrap();
    assert_eq!(game.get_teams()[0].score, i32::MAX);
    assert_eq!(add_scores(i32::MIN, -1), i32::MIN);
    assert_eq!(add_scores(7, -9), -2);
}

#[test]
fn disbanding_removes_a_team_whoever_is_on_it() {
    let mut game = Game::new(Vec::new());
    game.join_team(1, "red").unwrap();
    game.join_team(2, "blue").unwrap();
    game.join_team(3, "green").unwrap();
    game.disband_team("Red").unwrap();
    assert_eq!(
        members(&game),
        vec![("blue".to_string(), vec![2], 0), ("green".to_string(), vec![3], 0)]
    );
    assert_eq!(game.disband_team("red"), Err(GameError::TeamNotFound));
    assert_eq!(game.get_player_team(1), None);
}

#[test]
fn resetting_teams_clears_all_membership() {
    let mut game = Game::new(Vec::new());
    let mut out = Vec::new();
    game.join_team(1, "red").unwrap();
    game.join_team(2, "blue").unwrap();
    game.reset_teams(&mut out);
    assert_eq!(out, vec![Action::Say(Recipient::AllTeams, Message::TeamsReset)]);
    assert!(game.get_teams().is_empty());
    assert_eq!(game.get_player_team(1), None);
    // Nothing but joining brings a player back.
    game.reset_scores(&mut out);
    game.pause(&mut out);
    game.unpause(&mut out);
    game.tick(&pulse(1000), &mut out);
    assert_eq!(game.guess(1, "x", &mut out), Err(GameError::NotOnTeam));
    assert!(game.get_teams().is_empty());
    game.join_team(1, "red").unwrap();
    assert_eq!(game.get_player_team(1), Some(id("red")));
}

#[test]
fn resetting_scores_leaves_phase_and_membership() {
    let mut game = Game::new(Vec::new());
    let mut out = Vec::new();
    game.join_team(1, "red").unwrap();
    game.join_team(2, "blue").unwrap();
    game.begin(QuizDefinition::from_rows(vec![row("u", "a", "c", 100, false)]), &mut out).unwrap();
    game.adjust_score(id("red"), 70, &mut out).unwrap();
    game.adjust_score(id("blue"), -5, &mut out).unwrap();
    out.clear();
    game.reset_scores(&mut out);
    assert_eq!(out, vec![Action::Say(Recipient::AllTeams, Message::ScoresReset)]);
    assert_eq!(kind(&game), Some(PhaseKind::Startup));
    assert_eq!(
        members(&game),
        vec![("red".to_string(), vec![1], 0), ("blue".to_string(), vec![2], 0)]
    );
}

#[test]
fn commands_need_the_right_phase() {
    let mut game = Game::new(Vec::new());
    let mut out = Vec::new();
    game.join_team(1, "red").unwrap();
    assert_eq!(game.skip(&Vec::new(), &mut out), Err(GameError::WrongPhase));
    assert_eq!(game.end(&mut out), Err(GameError::WrongPhase));
    assert_eq!(game.guess(1, "x", &mut out), Err(GameError::WrongPhase));
    assert_eq!(game.wager(1, 5), Err(GameError::WrongPhase));
    assert_eq!(game.guess(7, "x", &mut out), Err(GameError::NotOnTeam));
    assert_eq!(game.wager(7, 5), Err(GameError::NotOnTeam));
    assert!(out.is_empty());
    assert!(!game.is_quiz_running());

    let definition = || QuizDefinition::from_rows(vec![row("u", "a", "c", 100, false)]);
    game.begin(definition(), &mut out).unwrap();
    assert!(game.is_quiz_running());
    assert_eq!(game.begin(definition(), &mut out), Err(GameError::WrongPhase));
    // In startup nothing is being asked and nothing can be wagered.
    assert_eq!(game.guess(1, "a", &mut out), Err(GameError::NoActiveQuestion));
    assert_eq!(game.wager(1, 5), Err(GameError::WrongPhase));
}

#[test]
fn a_paused_session_stands_still() {
    let mut game = Game::new(Vec::new());
    let mut out = Vec::new();
    game.join_team(1, "red").unwrap();
    game.begin(QuizDefinition::from_rows(vec![row("u", "a", "c", 100, false)]), &mut out).unwrap();
    out.clear();
    game.pause(&mut out);
    game.pause(&mut out);
    assert_eq!(out, vec![Action::Say(Recipient::AllTeams, Message::GamePaused)]);
    game.tick(&pulse(60_000), &mut out);
    assert_eq!(kind(&game), Some(PhaseKind::Startup));
    // Not even a match that was ended gives way while the session is paused.
    game.end(&mut out).unwrap();
    game.tick(&pulse(100), &mut out);
    assert_eq!(kind(&game), Some(PhaseKind::Startup));
    game.unpause(&mut out);
    game.tick(&pulse(100), &mut out);
    assert_eq!(kind(&game), None);
    game.begin(QuizDefinition::from_rows(vec![row("u", "a", "c", 100, false)]), &mut out).unwrap();
    game.pause(&mut out);
    // Setup commands stay live.
    game.join_team(2, "blue").unwrap();
    out.clear();
    game.unpause(&mut out);
    game.unpause(&mut out);
    assert_eq!(out, vec![Action::Say(Recipient::AllTeams, Message::GameUnpaused)]);
    game.tick(&pulse(60_000), &mut out);
    assert_eq!(kind(&game), Some(PhaseKind::Vote));
}

#[test]
fn a_failed_preload_abandons_the_match() {
    let mut game = Game::new(Vec::new());
    let mut out = Vec::new();
    game.join_team(1, "red").unwrap();
    game.begin(QuizDefinition::from_rows(vec![row("u", "a", "c", 100, false)]), &mut out).unwrap();
    assert_eq!(out[0], Action::Preload(vec!["u".to_string()]));
    assert_eq!(out[1], Action::Say(Recipient::AllTeams, Message::QuizRules));
    out.clear();
    let failed =
        Pulse { dt: 100, preload: PreloadState::Failure, countdown_finished: false, reads: Vec::new() };
    game.tick(&failed, &mut out);
    assert_eq!(out, vec![Action::Say(Recipient::AllTeams, Message::PreloadFailed)]);
    game.tick(&failed, &mut out);
    assert_eq!(kind(&game), None);
    assert_eq!(members(&game), vec![("red".to_string(), vec![1], 0)]);
}

#[test]
fn ending_a_match_returns_to_setup_and_keeps_the_scores() {
    let mut game = Game::new(Vec::new());
    let mut out = Vec::new();
    game.join_team(1, "red").unwrap();
    game.begin(QuizDefinition::from_rows(vec![row("u", "a", "c", 100, false)]), &mut out).unwrap();
    game.adjust_score(id("red"), 12, &mut out).unwrap();
    out.clear();
    game.end(&mut out).unwrap();
    assert_eq!(out, vec![Action::Say(Recipient::AllTeams, Message::GameEnded)]);
    game.tick(&pulse(100), &mut out);
    assert_eq!(kind(&game), None);
    assert_eq!(members(&game), vec![("red".to_string(), vec![1], 12)]);
}

#[test]
fn a_challenge_goes_through_the_wagers() {
    let mut game = Game::new(Vec::new());
    let mut out = Vec::new();
    game.join_team(1, "red").unwrap();
    game.join_team(2, "blue").unwrap();
    let rows = vec![row("u1", "one", "x", 100, true), row("u2", "two", "x", 400, false)];
    game.begin(QuizDefinition::from_rows(rows), &mut out).unwrap();
    // The media are there: the rest of the startup can be skipped.
    game.tick(&pulse(0), &mut out);
    assert_eq!(kind(&game), Some(PhaseKind::Startup));
    game.skip(&Vec::new(), &mut out).unwrap();
    assert_eq!(kind(&game), Some(PhaseKind::Vote));
    // Nobody voted: the cheapest question is taken, and it is a challenge.
    game.skip(&Vec::new(), &mut out).unwrap();
    assert_eq!(kind(&game), Some(PhaseKind::Wager));
    assert_eq!(game.guess(1, "one", &mut out), Err(GameError::NoActiveQuestion));
    game.wager(1, 5000).unwrap();
    game.wager(2, 1).unwrap();
    game.tick(&pulse(100), &mut out);
    assert_eq!(kind(&game), Some(PhaseKind::Question));
    assert_eq!(game.wager(1, 50), Err(GameError::WrongPhase));
    game.guess(1, "one", &mut out).unwrap();
    game.guess(2, "wrong", &mut out).unwrap();
    // Twice the highest value is the cap, the question's value the floor;
    // with wagers nothing is halved.
    assert_eq!(
        members(&game),
        vec![("red".to_string(), vec![1], 800), ("blue".to_string(), vec![2], -100)]
    );
    match &game.current_phase {
        GamePhase::Quiz(quiz) => assert_eq!(quiz.initiative, Some(id("red"))),
        GamePhase::Setup => panic!("the match has ended"),
    }
}

#[test]
fn end_to_end() {
    let mut game = Game::new(Vec::new());
    let mut out = Vec::new();
    let definition = QuizDefinition::from_rows(vec![
        row("A", "first answer", "X", 100, false),
        row("B", "second answer", "Y", 200, false),
    ]);
    game.join_team(1, "one").unwrap();
    game.join_team(2, "two").unwrap();
    game.join_team(3, "three").unwrap();
    game.begin(definition, &mut out).unwrap();
    assert_eq!(kind(&game), Some(PhaseKind::Startup));

    game.tick(&pulse(29_000), &mut out);
    assert_eq!(kind(&game), Some(PhaseKind::Startup));
    out.clear();
    game.tick(&pulse(1_000), &mut out);
    assert_eq!(kind(&game), Some(PhaseKind::Vote));
    let lines = match out.last().unwrap() {
        Action::Poll(Recipient::AllTeams, Message::VotePoll(lines), _) => lines.clone(),
        other => panic!("no poll but {:?}", other),
    };
    assert_eq!(lines.len(), 2);
    assert_eq!((lines[0].1.as_str(), lines[0].2), ("X", 100));
    assert_eq!((lines[1].1.as_str(), lines[1].2), ("Y", 200));

    // Two votes for X, one for Y.
    let votes =
        Pulse { dt: 15_000, preload: PreloadState::Success, countdown_finished: false, reads: vec![vec![vec![1, 2], vec![3]]] };
    out.clear();
    game.tick(&votes, &mut out);
    assert_eq!(kind(&game), Some(PhaseKind::Question));
    assert_eq!(out[0], Action::PlaySound(Sound::Question));
    match &out[1] {
        Action::Say(Recipient::AllTeams, Message::QuestionBegins(q)) => assert_eq!(q.url, "A"),
        other => panic!("no question but {:?}", other),
    }

    game.guess(1, "First Answer", &mut out).unwrap();
    assert_eq!(game.get_teams()[0].score, 100);
    assert_eq!(game.guess(1, "again", &mut out), Err(GameError::AlreadyGuessed));
    game.guess(2, "nope", &mut out).unwrap();
    game.guess(3, "first answer", &mut out).unwrap();
    assert_eq!(
        members(&game),
        vec![
            ("one".to_string(), vec![1], 100),
            ("two".to_string(), vec![2], -50),
            ("three".to_string(), vec![3], 50)
        ]
    );

    // All have answered: the phase ends early, and one question is left.
    out.clear();
    game.tick(&pulse(100), &mut out);
    assert_eq!(kind(&game), Some(PhaseKind::Cooldown));
    let recap = vec![(id("one"), 100), (id("three"), 50), (id("two"), -50)];
    assert_eq!(out.last().unwrap(), &Action::Say(Recipient::AllTeams, Message::ScoresRecap(recap)));

    // One category is left: no further vote.
    game.tick(&pulse(5_000), &mut out);
    assert_eq!(kind(&game), Some(PhaseKind::Question));
    game.guess(2, "second answer", &mut out).unwrap();
    assert_eq!(game.get_teams()[1].score, 150);

    // Time runs out on the others; the pool is empty.
    out.clear();
    game.tick(&pulse(90_000), &mut out);
    assert_eq!(kind(&game), Some(PhaseKind::Results));
    assert!(out.contains(&Action::PlaySound(Sound::Congrats)));
    assert_eq!(out.last().unwrap(), &Action::Say(Recipient::AllTeams, Message::GameResults(id("two"))));

    // The session returns to setup; teams and scores persist.
    game.tick(&pulse(100), &mut out);
    assert_eq!(kind(&game), None);
    assert_eq!(game.get_teams()[1].score, 150);
}

#[test]
fn a_new_match_opens_in_startup() {
    let mut out = Vec::new();
    let definition =
        QuizDefinition::from_rows(vec![row("u1", "a", "x", 100, false), row("u2", "b", "y", 700, false)]);
    assert_eq!(max_score_value(definition.get_questions()), 700);
    assert_eq!(media_urls(definition.get_questions()), vec!["u1", "u2"]);
    let mut quiz = Quiz::new(definition, &mut out);
    assert_eq!(quiz.phase_kind(), PhaseKind::Startup);
    assert_eq!(quiz.max_question_score_value, 700);
    assert!(!quiz.is_over());
    quiz.abort();
    assert!(quiz.is_over());
    assert_eq!(max_score_value(&Vec::new()), 0);
}

#[test]
fn roster_helpers() {
    let mut teams = vec![Team::new(id("a")), Team::new(id("b")), Team::new(id("c"))];
    teams[1].players.insert(5);
    teams[2].players.insert(6);
    teams[0].score = 3;
    teams[1].score = 9;
    teams[2].score = 9;
    assert_eq!(find_team(&teams, &id("b")), Some(1));
    assert_eq!(find_team(&teams, &id("z")), None);
    assert_eq!(find_player_team(&teams, 6), Some(2));
    assert_eq!(find_player_team(&teams, 7), None);
    assert_eq!(top_team(&teams), Some(1));
    assert_eq!(top_team(&Vec::new()), None);
    assert_eq!(ranking(&teams), vec![1, 2, 0]);
    assert_eq!(score_recap(&teams), vec![(id("b"), 9), (id("c"), 9), (id("a"), 3)]);
    assert_eq!(team_ids(&teams), vec![id("a"), id("b"), id("c")]);
    assert_eq!(add_to_team(&mut teams, &id("a"), 10), Some(13));
    assert_eq!(add_to_team(&mut teams, &id("z"), 10), None);
    assert_eq!(ranking(&teams), vec![0, 1, 2]);
    let ids = vec![id("x"), id("y"), id("x"), id("z"), id("y")];
    assert_eq!(find_id(&ids, &id("y")), Some(1));
    assert_eq!(find_id(&ids, &id("w")), None);
    assert_eq!(distinct_ids(ids), vec![id("x"), id("y"), id("z")]);
    prune_empty(&mut teams);
    assert_eq!(team_ids(&teams), vec![id("b"), id("c")]);
    join_roster(&mut teams, 5, id("c"));
    assert_eq!(team_ids(&teams), vec![id("c")]);
    assert!(teams[0].players.contains(&5) && teams[0].players.contains(&6));
    assert!(id("a").same(&id("a").duplicate()));
    assert!(!id("a").same(&id("b")));
    assert_eq!(Team::new(id("q")).get_display_name(), "q");
}
